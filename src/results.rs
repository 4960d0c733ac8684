//! Checking what a chain of `add_scalar` runs left in a result buffer.
use vstd::prelude::*;
use crate::queue::add_scalar_seq;

verus! {

/// The value expected after `itr + 1` runs of adding `addend` to `seed`,
/// in wrapping `u32` arithmetic.
pub open spec fn expected_after(seed: u32, addend: u32, itr: u32) -> u32 {
    ((seed as int + (itr as int + 1) * (addend as int)) % 0x1_0000_0000) as u32
}

/// Number of indices below `n` where `result` differs from the expected value.
pub open spec fn mismatches(seed: Seq<u32>, result: Seq<u32>, addend: u32, itr: u32, n: int) -> nat
    decreases n,
{
    if n <= 0 {
        0
    } else {
        mismatches(seed, result, addend, itr, n - 1) + if result[n - 1] != expected_after(
            seed[n - 1],
            addend,
            itr,
        ) {
            1nat
        } else {
            0nat
        }
    }
}

/// Counts the elements of `result` that are not `seed + (itr + 1) * addend`
/// (wrapping), element by element.
pub fn count_mismatches(seed: &[u32], result: &[u32], addend: u32, itr: u32) -> (r: usize)
    requires
        seed@.len() == result@.len(),
    ensures
        r == mismatches(seed@, result@, addend, itr, seed@.len() as int),
{
    let runs: u64 = itr as u64 + 1;
    assert(runs * (addend as u64) <= 0x1_0000_0000u64 * 0xffff_ffffu64) by (nonlinear_arith)
        requires
            runs <= 0x1_0000_0000u64,
            addend <= 0xffff_ffffu32,
    ;
    let step: u64 = (runs * addend as u64) % 0x1_0000_0000;
    let mut count: usize = 0;
    let mut i: usize = 0;
    while i < seed.len()
        invariant
            seed@.len() == result@.len(),
            i <= seed@.len(),
            count <= i,
            step == ((itr as int + 1) * (addend as int)) % 0x1_0000_0000,
            count == mismatches(seed@, result@, addend, itr, i as int),
        decreases seed@.len() - i,
    {
        let expected = ((seed[i] as u64 + step) % 0x1_0000_0000) as u32;
        assert(expected == expected_after(seed@[i as int], addend, itr)) by (nonlinear_arith)
            requires
                step == ((itr as int + 1) * (addend as int)) % 0x1_0000_0000,
                expected == ((seed@[i as int] as int + step) % 0x1_0000_0000) as u32,
        ;
        if result[i] != expected {
            count = count + 1;
        }
        i = i + 1;
    }
    count
}

/// What the result buffer holds after `itr + 1` runs.
pub open spec fn expected_seq(seed: Seq<u32>, addend: u32, itr: u32) -> Seq<u32> {
    Seq::new(seed.len(), |i: int| expected_after(seed[i], addend, itr))
}

/// Chaining `add_scalar` over a whole buffer: the first run on `seed` gives
/// the values expected after one run, and each further run on the previous
/// result gives the values expected after one more.
pub proof fn lemma_add_scalar_rounds(seed: Seq<u32>, dst: Seq<u32>, addend: u32, itr: u32)
    requires
        dst.len() == seed.len(),
        itr < u32::MAX,
    ensures
        add_scalar_seq(seed, addend, dst, seed.len() as int) == expected_seq(seed, addend, 0),
        add_scalar_seq(expected_seq(seed, addend, itr), addend, dst, seed.len() as int)
            == expected_seq(seed, addend, (itr + 1) as u32),
{
    let n = seed.len() as int;
    assert(add_scalar_seq(seed, addend, dst, n) =~= expected_seq(seed, addend, 0));
    assert forall|i: int| 0 <= i < n implies #[trigger] add_scalar_seq(
        expected_seq(seed, addend, itr),
        addend,
        dst,
        n,
    )[i] == expected_seq(seed, addend, (itr + 1) as u32)[i] by {
        let x = seed[i] as int;
        let a = addend as int;
        let k = itr as int;
        let m = 0x1_0000_0000int;
        assert(((x + (k + 1) * a) % m + a) % m == (x + (k + 2) * a) % m) by (nonlinear_arith)
            requires
                m == 0x1_0000_0000int,
        ;
    }
    assert(add_scalar_seq(expected_seq(seed, addend, itr), addend, dst, n) =~= expected_seq(
        seed,
        addend,
        (itr + 1) as u32,
    ));
}

} // verus!
