use vstd::prelude::*;
use rand::rngs::SmallRng;

verus! {

#[verifier::external_type_specification]
#[verifier::external_body]
pub struct ExSmallRng(SmallRng);

/// Relies on rand's `SeedableRng::seed_from_u64` for `SmallRng`: a generator
/// whose state comes from the seed alone.
#[verifier::external_body]
fn seeded_rng(seed: u64) -> (r: SmallRng) {
    rand::SeedableRng::seed_from_u64(seed)
}

/// Relies on rand's `RngCore::next_u64` for `SmallRng`: the next 64-bit
/// output, advancing the generator.
#[verifier::external_body]
fn next_draw(rng: &mut SmallRng) -> (r: u64) {
    rand::RngCore::next_u64(rng)
}

/// The first `n` outputs of the generator seeded with `seed`, in order.
pub fn draw_sequence(seed: u64, n: usize) -> (r: Vec<u64>)
    ensures
        r@.len() == n,
{
    let mut rng = seeded_rng(seed);
    let mut out: Vec<u64> = Vec::new();
    let mut i: usize = 0;
    while i < n
        invariant
            i <= n,
            out@.len() == i,
        decreases n - i,
    {
        out.push(next_draw(&mut rng));
        i = i + 1;
    }
    out
}

} // verus!
