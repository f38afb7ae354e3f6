//! Commitment arithmetic.
//!
//! Roots of the transaction accumulator and of the state tree are modelled
//! as folds of a fixed mixing function over 64-bit digests.  The fold gives
//! the two facts the executor relies on: a root is a function of exactly the
//! sequence folded into it, and extending the sequence extends the root
//! without revisiting earlier leaves.

use vstd::prelude::*;

verus! {

/// Multiplier of the mixing function.
pub const MIX_MULTIPLIER: u64 = 0x100000001b3;

/// Additive constant of the mixing function.
pub const MIX_OFFSET: u64 = 0xcbf29ce484222325;

/// Root of an accumulator holding no leaves.
pub const EMPTY_ROOT: u64 = 0;

/// One step of the fold: absorb digest `b` into running digest `a`.
pub open spec fn mix(a: u64, b: u64) -> u64 {
    (((a as int) * (MIX_MULTIPLIER as int) + (b as int) + (MIX_OFFSET as int))
        % 0x10000000000000000) as u64
}

/// Executable counterpart of [`mix`].
pub fn mix_exec(a: u64, b: u64) -> (r: u64)
    ensures
        r == mix(a, b),
{
    proof {
        assert((a as int) * (MIX_MULTIPLIER as int) <= 0xffffffffffffffff * (MIX_MULTIPLIER as int))
            by (nonlinear_arith)
            requires
                a <= 0xffffffffffffffffu64,
        ;
    }
    let wide: u128 = (a as u128) * (MIX_MULTIPLIER as u128) + (b as u128) + (MIX_OFFSET as u128);
    (wide % 0x10000000000000000u128) as u64
}

/// Root obtained by absorbing every digest of `leaves`, in order, into `r`.
pub open spec fn extend_root(r: u64, leaves: Seq<u64>) -> u64
    decreases leaves.len(),
{
    if leaves.len() == 0 {
        r
    } else {
        mix(extend_root(r, leaves.drop_last()), leaves.last())
    }
}

/// Root of an accumulator whose leaves are exactly `leaves`.
pub open spec fn root_of(leaves: Seq<u64>) -> u64 {
    extend_root(EMPTY_ROOT, leaves)
}

/// Extending by a concatenation equals extending twice.
pub proof fn lemma_extend_root_concat(r: u64, a: Seq<u64>, b: Seq<u64>)
    ensures
        extend_root(r, a + b) == extend_root(extend_root(r, a), b),
    decreases b.len(),
{
    if b.len() == 0 {
        assert(a + b =~= a);
    } else {
        lemma_extend_root_concat(r, a, b.drop_last());
        assert((a + b).drop_last() =~= a + b.drop_last());
        assert((a + b).last() == b.last());
    }
}

/// The root of concatenated leaves is the parent root extended by the suffix.
pub proof fn lemma_root_of_concat(a: Seq<u64>, b: Seq<u64>)
    ensures
        root_of(a + b) == extend_root(root_of(a), b),
{
    lemma_extend_root_concat(EMPTY_ROOT, a, b);
}

/// One step of the write fold: absorb the write `key := value`.
pub open spec fn mix_write(r: u64, key: u64, value: u64) -> u64 {
    mix(mix(r, key), value)
}

/// State root obtained by layering `writes`, in order, over root `r`.
pub open spec fn extend_state_root(r: u64, writes: Seq<(u64, u64)>) -> u64
    decreases writes.len(),
{
    if writes.len() == 0 {
        r
    } else {
        mix_write(extend_state_root(r, writes.drop_last()), writes.last().0, writes.last().1)
    }
}

/// Executable counterpart of [`extend_state_root`].
pub fn extend_state_root_exec(r: u64, writes: &Vec<(u64, u64)>) -> (out: u64)
    ensures
        out == extend_state_root(r, writes@),
{
    let mut out: u64 = r;
    let mut k: usize = 0;
    while k < writes.len()
        invariant
            k <= writes.len(),
            out == extend_state_root(r, writes@.take(k as int)),
        decreases writes.len() - k,
    {
        let (key, value) = writes[k];
        out = mix_exec(mix_exec(out, key), value);
        proof {
            assert(writes@.take(k + 1 as int).drop_last() =~= writes@.take(k as int));
            assert(writes@.take(k + 1 as int).last() == writes@[k as int]);
        }
        k = k + 1;
    }
    proof {
        assert(writes@.take(writes@.len() as int) =~= writes@);
    }
    out
}

/// Layering a concatenation of write sets equals layering them in turn.
pub proof fn lemma_extend_state_root_concat(r: u64, a: Seq<(u64, u64)>, b: Seq<(u64, u64)>)
    ensures
        extend_state_root(r, a + b) == extend_state_root(extend_state_root(r, a), b),
    decreases b.len(),
{
    if b.len() == 0 {
        assert(a + b =~= a);
    } else {
        lemma_extend_state_root_concat(r, a, b.drop_last());
        assert((a + b).drop_last() =~= a + b.drop_last());
        assert((a + b).last() == b.last());
    }
}

} // verus!
