//! Index arithmetic of the derivation tree.
//!
//! The tree is navigated by bounds of the form `2^k - 2`: a node with bound
//! `b` covers the indices `0 ..= b`, index `b` being the node itself. Its
//! left child covers `0 ..= b/2 - 1` under the same numbering, and its right
//! child covers the remaining `b/2 - 1 .. b` renumbered from zero, so both
//! children carry the bound `b/2 - 1`. The root bound [`ROOT`] corresponds
//! to a tree of depth 48.

use crate::prg::left_half;
use crate::prg::right_half;
use crate::prg::Prg32To64;
use vstd::arithmetic::power2::lemma2_to64;
use vstd::arithmetic::power2::lemma2_to64_rest;
use vstd::arithmetic::power2::lemma_pow2_unfold;
use vstd::arithmetic::power2::pow2;
use vstd::prelude::*;

verus! {

/// Largest index of the full tree: `2^49 - 2`.
pub const ROOT: u64 = 0x1FFFFFFFFFFFE;

/// The all-zero 32-byte value that fills the unused slots of a constrained key.
pub open spec fn zero32() -> Seq<u8> {
    Seq::new(32, |i: int| 0u8)
}

/// The bounds that the descent walks through: exactly the values `2^k - 2`
/// for `k >= 1`. Each nonzero bound is even and halves into another one.
pub open spec fn valid_bound(b: int) -> bool
    decreases b
{
    b == 0 || (b >= 2 && b % 2 == 0 && valid_bound(b / 2 - 1))
}

/// Number of halvings from bound `b` down to the bottom bound `0`.
pub open spec fn bound_depth(b: int) -> nat
    decreases b
{
    if b < 2 {
        0
    } else {
        bound_depth(b / 2 - 1) + 1
    }
}

/// `2^k - 2` is a bound of depth `k - 1`.
pub proof fn lemma_pow2_bound(k: nat)
    requires
        1 <= k,
    ensures
        pow2(k) >= 2,
        valid_bound(pow2(k) - 2),
        bound_depth(pow2(k) - 2) == k - 1,
    decreases k,
{
    if k == 1 {
        lemma2_to64();
    } else {
        lemma_pow2_unfold(k);
        lemma_pow2_bound((k - 1) as nat);
        assert(pow2((k - 1) as nat) >= 2);
        assert(pow2(k) == 2 * pow2((k - 1) as nat));
        assert((pow2(k) - 2) / 2 - 1 == pow2((k - 1) as nat) - 2);
        assert(valid_bound(pow2(k) - 2));
        assert(bound_depth(pow2(k) - 2) == bound_depth(pow2((k - 1) as nat) - 2) + 1);
    }
}

/// The root bound is a bound of depth 48.
pub proof fn lemma_root_bound()
    ensures
        valid_bound(ROOT as int),
        bound_depth(ROOT as int) == 48,
{
    lemma2_to64();
    lemma2_to64_rest();
    assert(pow2(49) == 0x2000000000000);
    lemma_pow2_bound(49);
}

/// How many right turns the descent toward `target` takes below bound `b`.
/// This is the storage slot that index `target` corresponds to.
pub open spec fn rights_model(target: int, b: int) -> int
    decreases b
{
    if target == b || b < 2 {
        0
    } else {
        let l = b / 2 - 1;
        if target <= l {
            rights_model(target, l)
        } else {
            1 + rights_model(target - l - 1, l)
        }
    }
}

/// The bound at which the descent toward `target` stops.
pub open spec fn end_model(target: int, b: int) -> int
    decreases b
{
    if target == b || b < 2 {
        b
    } else {
        let l = b / 2 - 1;
        if target <= l {
            end_model(target, l)
        } else {
            end_model(target - l - 1, l)
        }
    }
}

/// The secret that the descent toward `target` reaches from a node with
/// bound `b`: go left while the target fits in the lower half, else renumber
/// and go right, until the target is the current node itself.
pub open spec fn descend_model<P: Prg32To64>(node: Seq<u8>, target: int, b: int) -> Seq<u8>
    decreases b
{
    if target == b || b < 2 {
        node
    } else {
        let l = b / 2 - 1;
        if target <= l {
            descend_model::<P>(left_half::<P>(node), target, l)
        } else {
            descend_model::<P>(right_half::<P>(node), target - l - 1, l)
        }
    }
}

/// The secret of `index` derived from the master key alone.
pub open spec fn eval_model<P: Prg32To64>(sk: Seq<u8>, index: int) -> Seq<u8> {
    descend_model::<P>(sk, index, ROOT as int)
}

/// The spine kept for constraint `target` below a node with bound `b`: at
/// every right turn the left child of the current node, and at the end the
/// node of the constraint itself.
pub open spec fn spine_model<P: Prg32To64>(node: Seq<u8>, target: int, b: int) -> Seq<Seq<u8>>
    decreases b
{
    if target == b || b < 2 {
        seq![node]
    } else {
        let l = b / 2 - 1;
        if target <= l {
            spine_model::<P>(left_half::<P>(node), target, l)
        } else {
            seq![left_half::<P>(node)] + spine_model::<P>(right_half::<P>(node), target - l - 1, l)
        }
    }
}

/// The full 49-slot contents of a constrained key built at constraint `c`:
/// the spine, then all-zero filler.
pub open spec fn key_model<P: Prg32To64>(sk: Seq<u8>, c: int) -> Seq<Seq<u8>> {
    let s = spine_model::<P>(sk, c, ROOT as int);
    s + Seq::new((49 - s.len()) as nat, |i: int| zero32())
}

/// The secret that the constrained evaluation reads out of the stored
/// entries for target `idx`, walking the same bound-halving sequence that
/// built the key at constraint `c`.
pub open spec fn ceval_model<P: Prg32To64>(
    entries: Seq<Seq<u8>>,
    c: int,
    idx: int,
    b: int,
) -> Seq<u8>
    decreases b
{
    if c == b || b < 2 {
        descend_model::<P>(entries[0], idx, b)
    } else {
        let l = b / 2 - 1;
        if idx > l {
            ceval_model::<P>(entries.drop_first(), c - l - 1, idx - l - 1, l)
        } else if c < l {
            ceval_model::<P>(entries, c, idx, l)
        } else {
            descend_model::<P>(entries[0], idx, l)
        }
    }
}

/// The spine has one entry per right turn, plus the final node.
pub proof fn lemma_spine_len<P: Prg32To64>(node: Seq<u8>, target: int, b: int)
    requires
        valid_bound(b),
        0 <= target <= b,
    ensures
        spine_model::<P>(node, target, b).len() == rights_model(target, b) + 1,
    decreases b,
{
    if target == b || b < 2 {
    } else {
        let l = b / 2 - 1;
        if target <= l {
            lemma_spine_len::<P>(left_half::<P>(node), target, l);
        } else {
            lemma_spine_len::<P>(right_half::<P>(node), target - l - 1, l);
        }
    }
}

/// The slot of a target never exceeds the depth of its bound.
pub proof fn lemma_rights_le_depth(target: int, b: int)
    requires
        valid_bound(b),
        0 <= target <= b,
    ensures
        0 <= rights_model(target, b) <= bound_depth(b),
        rights_model(target, b) + bound_depth(end_model(target, b)) <= bound_depth(b),
        valid_bound(end_model(target, b)),
        0 <= end_model(target, b) <= b,
    decreases b,
{
    if target == b || b < 2 {
    } else {
        let l = b / 2 - 1;
        if target <= l {
            lemma_rights_le_depth(target, l);
        } else {
            lemma_rights_le_depth(target - l - 1, l);
        }
    }
}

} // verus!
