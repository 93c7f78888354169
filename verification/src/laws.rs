//! The laws the construction obeys, each proved from the models that the
//! executable functions' contracts are stated over.

use crate::prg::left_half;
use crate::prg::right_half;
use crate::prg::Prg32To64;
use crate::tree::bound_depth;
use crate::tree::ceval_model;
use crate::tree::descend_model;
use crate::tree::end_model;
use crate::tree::eval_model;
use crate::tree::key_model;
use crate::tree::lemma_rights_le_depth;
use crate::tree::lemma_root_bound;
use crate::tree::lemma_spine_len;
use crate::tree::rights_model;
use crate::tree::spine_model;
use crate::tree::valid_bound;
use crate::tree::zero32;
use crate::tree::ROOT;
use vstd::prelude::*;

verus! {

/// Evaluation is deterministic: any two results of `evaluate` on the same
/// master key and index are the same secret.
pub proof fn lemma_evaluate_deterministic<P: Prg32To64>(
    sk: Seq<u8>,
    index: int,
    r1: Seq<u8>,
    r2: Seq<u8>,
)
    requires
        r1 == eval_model::<P>(sk, index),
        r2 == eval_model::<P>(sk, index),
    ensures
        r1 == r2,
{
}

/// The spine of constraint 0 is the single node that the all-left descent
/// reaches, stored in slot 0.
pub proof fn lemma_spine_zero<P: Prg32To64>(node: Seq<u8>, b: int)
    requires
        valid_bound(b),
    ensures
        spine_model::<P>(node, 0, b) == seq![descend_model::<P>(node, 0, b)],
        rights_model(0, b) == 0,
        end_model(0, b) == 0,
    decreases b,
{
    if b == 0 {
    } else {
        lemma_spine_zero::<P>(left_half::<P>(node), b / 2 - 1);
    }
}

/// Constraining at index 0 yields a key whose only meaningful entry is the
/// secret of index 0 itself.
pub proof fn lemma_constrain_zero<P: Prg32To64>(sk: Seq<u8>)
    ensures
        spine_model::<P>(sk, 0, ROOT as int).len() == 1,
        key_model::<P>(sk, 0)[0] == eval_model::<P>(sk, 0),
{
    lemma_root_bound();
    lemma_spine_zero::<P>(sk, ROOT as int);
}

/// Reading any index `idx` out of entries that start with the spine of
/// constraint `c` reproduces the plain descent toward `idx`.
proof fn lemma_ceval_spine<P: Prg32To64>(entries: Seq<Seq<u8>>, node: Seq<u8>, c: int, idx: int, b: int)
    requires
        valid_bound(b),
        0 <= idx <= c <= b,
        spine_model::<P>(node, c, b).len() <= entries.len(),
        forall|j: int|
            0 <= j < spine_model::<P>(node, c, b).len() ==> spine_model::<P>(node, c, b)[j]
                == entries[j],
    ensures
        ceval_model::<P>(entries, c, idx, b) == descend_model::<P>(node, idx, b),
    decreases b,
{
    let s = spine_model::<P>(node, c, b);
    if c == b {
        assert(entries[0] == node);
    } else {
        assert(b >= 2);
        let l = b / 2 - 1;
        if idx > l {
            let s2 = spine_model::<P>(right_half::<P>(node), c - l - 1, l);
            assert(s == seq![left_half::<P>(node)] + s2);
            assert forall|j: int| 0 <= j < s2.len() implies s2[j] == entries.drop_first()[j] by {
                assert(s[j + 1] == s2[j]);
                assert(s[j + 1] == entries[j + 1]);
            }
            lemma_ceval_spine::<P>(
                entries.drop_first(),
                right_half::<P>(node),
                c - l - 1,
                idx - l - 1,
                l,
            );
        } else if c < l {
            lemma_ceval_spine::<P>(entries, left_half::<P>(node), c, idx, l);
        } else {
            if c == l {
                assert(s == spine_model::<P>(left_half::<P>(node), c, l));
                assert(spine_model::<P>(left_half::<P>(node), l, l) == seq![
                    left_half::<P>(node),
                ]);
            } else {
                assert(s == seq![left_half::<P>(node)] + spine_model::<P>(
                    right_half::<P>(node),
                    c - l - 1,
                    l,
                ));
            }
            assert(s[0] == left_half::<P>(node));
            assert(entries[0] == left_half::<P>(node));
        }
    }
}

/// Constraint correctness: a key built at constraint `c` reproduces, for
/// every index `idx <= c`, exactly the secret that direct evaluation derives
/// from the master key.
pub proof fn lemma_constrain_correct<P: Prg32To64>(sk: Seq<u8>, c: int, idx: int)
    requires
        0 <= idx <= c <= ROOT as int,
    ensures
        ceval_model::<P>(key_model::<P>(sk, c), c, idx, ROOT as int) == eval_model::<P>(sk, idx),
{
    lemma_root_bound();
    lemma_spine_len::<P>(sk, c, ROOT as int);
    lemma_rights_le_depth(c, ROOT as int);
    let s = spine_model::<P>(sk, c, ROOT as int);
    let k = key_model::<P>(sk, c);
    assert(forall|j: int| 0 <= j < s.len() ==> s[j] == k[j]);
    lemma_ceval_spine::<P>(k, sk, c, idx, ROOT as int);
}

/// One disclosure advances the spine: moving the constraint from `c` to
/// `c + 1` either appends the new node behind the spine (when the descent
/// toward `c + 1` bottoms out at bound 0), or replaces the last two spine
/// entries -- exactly the new node's two one-way children -- by the new
/// node alone.
proof fn lemma_spine_step<P: Prg32To64>(node: Seq<u8>, c: int, b: int)
    requires
        valid_bound(b),
        0 <= c < b,
    ensures
        ({
            let s = spine_model::<P>(node, c, b);
            let s2 = spine_model::<P>(node, c + 1, b);
            let slot = rights_model(c + 1, b);
            let stop = end_model(c + 1, b);
            let next = descend_model::<P>(node, c + 1, b);
            &&& (stop == 0 ==> slot == s.len() && s2 == s.push(next))
            &&& (stop != 0 ==> {
                &&& slot == s.len() - 2
                &&& s[slot] == left_half::<P>(next)
                &&& s[slot + 1] == right_half::<P>(next)
                &&& s2 == s.take(slot).push(next)
            })
        }),
    decreases b,
{
    let s = spine_model::<P>(node, c, b);
    let s2 = spine_model::<P>(node, c + 1, b);
    let slot = rights_model(c + 1, b);
    let stop = end_model(c + 1, b);
    let next = descend_model::<P>(node, c + 1, b);
    assert(b >= 2);
    let l = b / 2 - 1;
    let lh = left_half::<P>(node);
    let rh = right_half::<P>(node);
    if c + 1 == b {
        assert(c > l);
        assert(c - l - 1 == l);
        assert(spine_model::<P>(rh, l, l) == seq![rh]);
        assert(s == seq![lh] + spine_model::<P>(rh, l, l));
        assert(s[0] == lh);
        assert(s[1] == rh);
        assert(s2 == seq![node]);
        assert(s2 =~= s.take(0).push(node));
    } else if c + 1 <= l {
        lemma_spine_step::<P>(lh, c, l);
    } else if c == l {
        lemma_spine_zero::<P>(rh, l);
        assert(s == spine_model::<P>(lh, l, l));
        assert(spine_model::<P>(lh, l, l) == seq![lh]);
        assert(s2 == seq![lh] + spine_model::<P>(rh, 0, l));
        assert(slot == 1 + rights_model(0, l));
        assert(stop == end_model(0, l));
        assert(next == descend_model::<P>(rh, 0, l));
        assert(s2 =~= s.push(next));
    } else {
        lemma_spine_step::<P>(rh, c - l - 1, l);
        lemma_rights_le_depth(c - l, l);
        lemma_spine_len::<P>(rh, c - l - 1, l);
        let t = spine_model::<P>(rh, c - l - 1, l);
        let t2 = spine_model::<P>(rh, c - l, l);
        let sub_slot = rights_model(c - l, l);
        assert(s == seq![lh] + t);
        assert(s2 == seq![lh] + t2);
        assert(slot == 1 + sub_slot);
        assert(stop == end_model(c - l, l));
        assert(next == descend_model::<P>(rh, c - l, l));
        if stop == 0 {
            assert(t2 == t.push(next));
            assert(s2 =~= s.push(next));
        } else {
            assert(s[slot] == t[sub_slot]);
            assert(s[slot + 1] == t[sub_slot + 1]);
            assert(t2 == t.take(sub_slot).push(next));
            assert(s.take(slot) =~= seq![lh] + t.take(sub_slot));
            assert(s2 =~= s.take(slot).push(next));
        }
    }
}

/// Incremental equivalence: on the key of constraint `c`, the true secret of
/// index `c + 1` passes the consistency check that `increment` performs, and
/// the slot updates that `increment` then applies turn the key into exactly
/// the one that constraining at `c + 1` builds directly.
pub proof fn lemma_increment_correct<P: Prg32To64>(sk: Seq<u8>, c: int)
    requires
        0 <= c,
        c + 1 <= ROOT as int,
    ensures
        ({
            let slot = rights_model(c + 1, ROOT as int);
            let stop = end_model(c + 1, ROOT as int);
            let k = key_model::<P>(sk, c);
            let next = eval_model::<P>(sk, c + 1);
            &&& 0 <= slot < 49
            &&& (stop == 0 ==> key_model::<P>(sk, c + 1) == k.update(slot, next))
            &&& (stop != 0 ==> {
                &&& slot + 1 < 49
                &&& k[slot] == left_half::<P>(next)
                &&& k[slot + 1] == right_half::<P>(next)
                &&& key_model::<P>(sk, c + 1) == k.update(slot, next).update(slot + 1, zero32())
            })
        }),
{
    lemma_root_bound();
    lemma_spine_step::<P>(sk, c, ROOT as int);
    lemma_spine_len::<P>(sk, c, ROOT as int);
    lemma_spine_len::<P>(sk, c + 1, ROOT as int);
    lemma_rights_le_depth(c, ROOT as int);
    lemma_rights_le_depth(c + 1, ROOT as int);
    let slot = rights_model(c + 1, ROOT as int);
    let stop = end_model(c + 1, ROOT as int);
    let s = spine_model::<P>(sk, c, ROOT as int);
    let s2 = spine_model::<P>(sk, c + 1, ROOT as int);
    let k = key_model::<P>(sk, c);
    let next = eval_model::<P>(sk, c + 1);
    if stop == 0 {
        assert(key_model::<P>(sk, c + 1) =~= k.update(slot, next));
    } else {
        assert(k[slot] == s[slot]);
        assert(k[slot + 1] == s[slot + 1]);
        assert(key_model::<P>(sk, c + 1) =~= k.update(slot, next).update(slot + 1, zero32()));
    }
}

/// Tamper rejection: at an index where `increment` performs its consistency
/// check (the descent toward it does not bottom out at bound 0), a disclosed
/// value whose one-way children differ from the true secret's children fails
/// the check, so `increment` rejects it and, by its contract, leaves the key
/// untouched.
pub proof fn lemma_tamper_rejected<P: Prg32To64>(sk: Seq<u8>, c: int, forged: Seq<u8>)
    requires
        0 <= c,
        c + 1 <= ROOT as int,
        end_model(c + 1, ROOT as int) != 0,
        left_half::<P>(forged) != left_half::<P>(eval_model::<P>(sk, c + 1)) || right_half::<P>(
            forged,
        ) != right_half::<P>(eval_model::<P>(sk, c + 1)),
    ensures
        ({
            let slot = rights_model(c + 1, ROOT as int);
            let k = key_model::<P>(sk, c);
            left_half::<P>(forged) != k[slot] || right_half::<P>(forged) != k[slot + 1]
        }),
{
    lemma_increment_correct::<P>(sk, c);
}

} // verus!
