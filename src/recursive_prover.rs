//! The trace of the outer prover that attests a verified inner proof: four
//! rows of width four, `[counter, 1, 1, 1]`.
use crate::field::P;
use vstd::prelude::*;

verus! {

/// The outer prover's state: the counter of rows it emitted.
pub struct RecursiveProver {
    pub cnt: u32,
}

/// Width of the outer prover's rows.
pub const RECURSIVE_ROW_SIZE: usize = 4;

/// The four rows that follow counter `cnt`.
pub open spec fn recursive_rows_spec(cnt: u32) -> Seq<Seq<u32>> {
    Seq::new(4, |i: int| seq![(cnt + i) as u32, 1u32, 1u32, 1u32])
}

impl RecursiveProver {
    pub fn new() -> (r: RecursiveProver)
        ensures
            r.cnt == 0,
    {
        RecursiveProver { cnt: 0 }
    }
}

/// The outer prover's trace: four rows `[cnt, 1, 1, 1]` with the counter
/// advancing by one per row.
///
/// Whether the inner proof verified is not an input here: callers check that
/// beforehand.
pub fn generate_recursive_proover_trace(air: &mut RecursiveProver) -> (r: Vec<Vec<u32>>)
    requires
        old(air).cnt + 4 < P,
    ensures
        r@.map_values(|v: Vec<u32>| v@) == recursive_rows_spec(old(air).cnt),
        final(air).cnt == old(air).cnt + 4,
{
    let mut rows: Vec<Vec<u32>> = Vec::new();
    let mut i: usize = 0;
    while i < 4
        invariant
            i <= 4,
            air.cnt == old(air).cnt + i,
            old(air).cnt + 4 < P,
            rows@.map_values(|v: Vec<u32>| v@) == recursive_rows_spec(old(air).cnt).take(i as int),
        decreases 4 - i,
    {
        let row: Vec<u32> = vec![air.cnt, 1, 1, 1];
        assert(row@ =~= seq![(old(air).cnt + i) as u32, 1u32, 1u32, 1u32]);
        let ghost before = rows@;
        rows.push(row);
        assert(rows@.map_values(|v: Vec<u32>| v@) =~= before.map_values(|v: Vec<u32>| v@).push(
            seq![(old(air).cnt + i) as u32, 1u32, 1u32, 1u32],
        ));
        air.cnt = air.cnt + 1;
        i = i + 1;
        assert(rows@.map_values(|v: Vec<u32>| v@) =~= recursive_rows_spec(old(air).cnt).take(i as int));
    }
    assert(recursive_rows_spec(old(air).cnt).take(4) =~= recursive_rows_spec(old(air).cnt));
    rows
}

} // verus!
