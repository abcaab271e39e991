//! Clebsch-Gordan coefficients by their relation to the 3j symbols:
//! `<j1 m1; j2 m2 | j3 m3> = (-1)^(j1 - j2 + m3) sqrt(2 j3 + 1) wigner_3j(j1, j2, j3, m1, m2, -m3)`.
use crate::cache::cache_capacity;
use crate::symbol::{symbol_of, Symbol};
use crate::wigner_3j::{
    is_evaluation_of, triangle_condition, wigner_3j, within, Wigner3j, Wigner3jEngine,
    Wigner3jError,
};
use vstd::prelude::*;

verus! {

/// A Clebsch-Gordan coefficient in exact form: the value is the value of
/// `symbol` times the square root of `scale`, with its sign changed where
/// `negative` says so.
#[derive(Debug)]
pub struct ClebschGordan {
    pub negative: bool,
    pub scale: u64,
    pub symbol: Wigner3j,
}

/// The length of a buffer does not fit the angular momenta: the array of
/// their coefficients has `expected` cells.
#[derive(Debug, PartialEq, Eq, Clone, Copy)]
pub struct SizeMismatch {
    pub expected: u128,
}

/// The symbol to which the coefficient `<j1 m1; j2 m2 | j3 m3>` goes back.
pub open spec fn symbol_of_coefficient(
    j1: u32,
    m1: i32,
    j2: u32,
    m2: i32,
    j3: u32,
    m3: i32,
) -> Symbol {
    Symbol {
        j1: j1 as int,
        j2: j2 as int,
        j3: j3 as int,
        m1: m1 as int,
        m2: m2 as int,
        m3: -(m3 as int),
    }
}

/// The 3j symbol of a coefficient whose third projection has no negative
/// in 32 bits.
fn wigner_3j_beyond(j1: u32, j2: u32, j3: u32, m1: i32, m2: i32) -> (result: Result<
    Wigner3j,
    Wigner3jError,
>)
    ensures
        forall|cached: Seq<(crate::cache::Wigner3jCacheKey, u64)>|
            is_evaluation_of(
                result,
                #[trigger] symbol_of_coefficient(j1, m1, j2, m2, j3, i32::MIN),
                cached,
                cached,
            ),
{
    if !within(m1, j1) || !within(m2, j2) || (j3 as u64) < 0x8000_0000 {
        Err(Wigner3jError::InvalidArguments)
    } else if !triangle_condition(j1, j2, j3) || m1 as i64 + m2 as i64 + 0x8000_0000 != 0 {
        Ok(Wigner3j::Zero)
    } else {
        Err(Wigner3jError::CapacityOverflow)
    }
}

/// The Clebsch-Gordan coefficient `<j1 m1; j2 m2 | j3 m3>` as far as exact
/// arithmetic goes: the 3j symbol with the third projection negated, the
/// number `2 j3 + 1` under the root in front of it, and whether
/// `j1 - j2 + m3` is odd, which changes the sign.
pub fn clebsch_gordan(
    engine: &mut Wigner3jEngine,
    j1: u32,
    m1: i32,
    j2: u32,
    m2: i32,
    j3: u32,
    m3: i32,
) -> (result: Result<ClebschGordan, Wigner3jError>)
    requires
        old(engine).wf(),
    ensures
        final(engine).wf(),
        cache_capacity(final(engine).cache) == cache_capacity(old(engine).cache),
        match result {
            Ok(coefficient) => {
                &&& coefficient.negative == ((j1 - j2 + m3) % 2 != 0)
                &&& coefficient.scale == 2 * j3 + 1
                &&& is_evaluation_of(
                    Ok(coefficient.symbol),
                    symbol_of_coefficient(j1, m1, j2, m2, j3, m3),
                    old(engine).cached(),
                    final(engine).cached(),
                )
            },
            Err(error) => is_evaluation_of(
                Err(error),
                symbol_of_coefficient(j1, m1, j2, m2, j3, m3),
                old(engine).cached(),
                final(engine).cached(),
            ),
        },
{
    let evaluation = if m3 == i32::MIN {
        let beyond = wigner_3j_beyond(j1, j2, j3, m1, m2);
        assert(is_evaluation_of(
            beyond,
            symbol_of_coefficient(j1, m1, j2, m2, j3, i32::MIN),
            engine.cached(),
            engine.cached(),
        ));
        beyond
    } else {
        assert(symbol_of(j1, j2, j3, m1, m2, (-m3) as i32) == symbol_of_coefficient(
            j1,
            m1,
            j2,
            m2,
            j3,
            m3,
        ));
        wigner_3j(engine, j1, j2, j3, m1, m2, -m3)
    };
    match evaluation {
        Ok(symbol) => {
            let parity = j1 as i64 - j2 as i64 + m3 as i64 + 0x1_0000_0000;
            assert(parity % 2 == (j1 - j2 + m3) % 2);
            Ok(ClebschGordan { negative: parity % 2 != 0, scale: 2 * (j3 as u64) + 1, symbol })
        },
        Err(error) => Err(error),
    }
}

/// The projections of the cell at `index` of the array of the coefficients
/// for three angular momenta: the array has a row for each `m1` from `-j1`
/// up, in it a row for each `m2`, and in that a cell for each `m3`.
pub open spec fn cell_projections(j1: int, j2: int, j3: int, index: int) -> (int, int, int) {
    (
        (index / (2 * j3 + 1)) / (2 * j2 + 1) - j1,
        (index / (2 * j3 + 1)) % (2 * j2 + 1) - j2,
        index % (2 * j3 + 1) - j3,
    )
}

/// The number of cells of the array of the coefficients for three angular
/// momenta.
pub open spec fn array_size(j1: int, j2: int, j3: int) -> int {
    (2 * j1 + 1) * (2 * j2 + 1) * (2 * j3 + 1)
}

/// The cell of the projections `m1`, `m2`, `m3`, each within its angular
/// momentum, is at the index that counts the rows before it, and the
/// projections of each cell of the array are within their angular momenta.
pub proof fn lemma_cell_projections(j1: int, j2: int, j3: int, index: int)
    requires
        0 <= j1,
        0 <= j2,
        0 <= j3,
        0 <= index < array_size(j1, j2, j3),
    ensures
        -j1 <= cell_projections(j1, j2, j3, index).0 <= j1,
        -j2 <= cell_projections(j1, j2, j3, index).1 <= j2,
        -j3 <= cell_projections(j1, j2, j3, index).2 <= j3,
        index == ((cell_projections(j1, j2, j3, index).0 + j1) * (2 * j2 + 1) + (cell_projections(
            j1,
            j2,
            j3,
            index,
        ).1 + j2)) * (2 * j3 + 1) + (cell_projections(j1, j2, j3, index).2 + j3),
{
    let s2 = 2 * j2 + 1;
    let s3 = 2 * j3 + 1;
    let row = index / s3;
    vstd::arithmetic::div_mod::lemma_fundamental_div_mod(index, s3);
    vstd::arithmetic::div_mod::lemma_mod_bound(index, s3);
    vstd::arithmetic::div_mod::lemma_fundamental_div_mod(row, s2);
    vstd::arithmetic::div_mod::lemma_mod_bound(row, s2);
    vstd::arithmetic::div_mod::lemma_div_pos_is_pos(index, s3);
    vstd::arithmetic::div_mod::lemma_div_pos_is_pos(row, s2);
    let a = row / s2;
    let b = row % s2;
    let c = index % s3;
    assert(a <= 2 * j1 && index == (a * s2 + b) * s3 + c) by (nonlinear_arith)
        requires
            index == s3 * row + c,
            row == s2 * a + b,
            0 <= b < s2,
            0 <= c < s3,
            0 <= a,
            index < (2 * j1 + 1) * s2 * s3,
            s2 >= 1,
            s3 >= 1,
    ;
}

/// The projections of every cell of the array of the coefficients for
/// three angular momenta, in the order of the cells. A buffer for the array
/// must have as many cells as the array.
pub fn clebsch_gordan_array(j1: u32, j2: u32, j3: u32, len: usize) -> (cells: Result<
    Vec<(i64, i64, i64)>,
    SizeMismatch,
>)
    ensures
        cells.is_err() <==> len != array_size(j1 as int, j2 as int, j3 as int),
        cells matches Err(mismatch) ==> mismatch.expected == array_size(
            j1 as int,
            j2 as int,
            j3 as int,
        ),
        cells matches Ok(cells) ==> {
            &&& cells@.len() == len
            &&& forall|index: int|
                0 <= index < len ==> (#[trigger] cells@[index].0 as int, cells@[index].1 as int, cells@[index].2 as int)
                    == cell_projections(j1 as int, j2 as int, j3 as int, index)
        },
{
    let size1 = 2 * (j1 as u64) + 1;
    let size2 = 2 * (j2 as u64) + 1;
    let size3 = 2 * (j3 as u64) + 1;
    assert(size1 * size2 * size3 <= u128::MAX && size1 * size2 <= u128::MAX) by (nonlinear_arith)
        requires
            size1 <= 0x2_0000_0000,
            size2 <= 0x2_0000_0000,
            size3 <= 0x2_0000_0000,
    ;
    let size = (size1 as u128) * (size2 as u128) * (size3 as u128);
    if len as u128 != size {
        return Err(SizeMismatch { expected: size });
    }
    let mut cells: Vec<(i64, i64, i64)> = Vec::new();
    let mut index: usize = 0;
    while index < len
        invariant
            index <= len,
            size1 == 2 * j1 + 1,
            size2 == 2 * j2 + 1,
            size3 == 2 * j3 + 1,
            len == array_size(j1 as int, j2 as int, j3 as int),
            cells@.len() == index,
            forall|at: int|
                0 <= at < index ==> (#[trigger] cells@[at].0 as int, cells@[at].1 as int, cells@[at].2 as int)
                    == cell_projections(j1 as int, j2 as int, j3 as int, at),
        decreases len - index,
    {
        proof {
            lemma_cell_projections(j1 as int, j2 as int, j3 as int, index as int);
        }
        let position = index as u64;
        let row = position / size3;
        let m1 = (row / size2) as i64 - j1 as i64;
        let m2 = (row % size2) as i64 - j2 as i64;
        let m3 = (position % size3) as i64 - j3 as i64;
        cells.push((m1, m2, m3));
        index += 1;
    }
    Ok(cells)
}

} // verus!
