//! The incrementally constrained pseudorandom function itself.
//!
//! Every function here is a bounded walk of the derivation tree: at most 48
//! generator invocations, driven purely by index arithmetic on bounds of the
//! form `2^k - 2` (see [`crate::tree`]).

use crate::prg::left_half;
use crate::prg::right_half;
use crate::prg::Prg32To64;
use crate::tree::bound_depth;
use crate::tree::ceval_model;
use crate::tree::descend_model;
use crate::tree::end_model;
use crate::tree::eval_model;
use crate::tree::key_model;
use crate::tree::lemma_root_bound;
use crate::tree::rights_model;
use crate::tree::spine_model;
use crate::tree::valid_bound;
use crate::tree::zero32;
use crate::tree::ROOT;
use core::marker::PhantomData;
use vstd::prelude::*;

verus! {

/// The 32-byte master key from which the whole sequence of secrets derives.
pub struct SecretKey(pub [u8; 32]);

/// The compact representation handed to the verifying party: a fixed block
/// of 49 spine slots, of which only a prefix is meaningful; the unused slots
/// are zero-filled.
#[derive(Debug, PartialEq, Eq)]
pub struct ConstrainedKey([[u8; 32]; 49]);

impl ConstrainedKey {
    /// The 49 slot contents, each as a 32-byte sequence.
    pub closed spec fn entries(&self) -> Seq<Seq<u8>> {
        Seq::new(49, |i: int| self.0@[i]@)
    }
}

impl Default for ConstrainedKey {
    /// An all-zero key, the state before any constraining.
    fn default() -> (result: Self)
        ensures
            result.entries() == Seq::new(49, |i: int| zero32()),
    {
        let result = ConstrainedKey([[0u8; 32]; 49]);
        proof {
            assert(result.entries() =~~= Seq::new(49, |i: int| zero32()));
        }
        result
    }
}

fn half_matches(output: &[u8; 64], lo: usize, slot: &[u8; 32]) -> (matches: bool)
    requires
        lo == 0 || lo == 32,
    ensures
        matches <==> output@.subrange(lo as int, lo as int + 32) == slot@,
{
    let mut j: usize = 0;
    while j < 32
        invariant
            j <= 32,
            lo == 0 || lo == 32,
            forall|k: int| 0 <= k < j ==> output@[lo + k] == slot@[k],
        decreases 32 - j,
    {
        if output[lo + j] != slot[j] {
            proof {
                assert(output@.subrange(lo as int, lo as int + 32)[j as int] != slot@[j as int]);
            }
            return false;
        }
        j += 1;
    }
    proof {
        assert(output@.subrange(lo as int, lo as int + 32) =~= slot@);
    }
    true
}

/// The derivation, constraining and verification algorithms, generic over
/// the choice of generator so that one session cannot mix generators.
pub struct IncrementallyConstrainedPrf<P>(PhantomData<P>);

impl<P> Default for IncrementallyConstrainedPrf<P> {
    fn default() -> Self {
        Self(PhantomData)
    }
}

impl<P> IncrementallyConstrainedPrf<P> where P: Prg32To64 {
    /// Derive the secret of `index` directly from the master key.
    pub fn evaluate(&self, sk: &SecretKey, index: u64) -> (secret: [u8; 32])
        requires
            index <= ROOT,
        ensures
            secret@ == eval_model::<P>(sk.0@, index as int),
    {
        proof {
            lemma_root_bound();
        }
        let mut output: [u8; 32] = sk.0;
        Self::_descend(&mut output, index, ROOT);
        output
    }

    /// Build the compact key that reconstructs every secret at or before
    /// `constraint`: at every right turn of the descent the left child of
    /// the current node is stored, and at the end the constraint's own node;
    /// the remaining slots stay zero.
    pub fn constrain(&self, sk: &SecretKey, constraint: u64) -> (ck: ConstrainedKey)
        requires
            constraint <= ROOT,
        ensures
            ck.entries() == key_model::<P>(sk.0@, constraint as int),
    {
        proof {
            lemma_root_bound();
        }
        let mut ck: [[u8; 32]; 49] = [[0u8; 32]; 49];
        let mut t: u64 = constraint;
        let mut i: usize = 0;
        let mut left_val: u64 = ROOT;
        let mut node: [u8; 32] = sk.0;

        while left_val != t
            invariant
                valid_bound(left_val as int),
                t <= left_val,
                i + bound_depth(left_val as int) <= 48,
                spine_model::<P>(sk.0@, constraint as int, ROOT as int) =~= Seq::new(
                    i as nat,
                    |j: int| ck@[j]@,
                ) + spine_model::<P>(node@, t as int, left_val as int),
                forall|j: int| i <= j < 49 ==> ck@[j]@ == zero32(),
            decreases left_val,
        {
            proof {
                assert(left_val >= 2);
            }
            let ghost prev: Seq<Seq<u8>> = Seq::new(i as nat, |j: int| ck@[j]@);
            left_val = left_val / 2 - 1;
            if left_val >= t {
                P::go_left(&mut node);
            } else {
                let mut snap: [u8; 32] = node;
                P::go_left(&mut snap);
                ck[i] = snap;
                i = i + 1;
                P::go_right(&mut node);
                t = t - (left_val + 1);
                proof {
                    assert(Seq::new(i as nat, |j: int| ck@[j]@) =~= prev.push(snap@));
                }
            }
        }
        ck[i] = node;
        let result = ConstrainedKey(ck);
        proof {
            assert(spine_model::<P>(node@, t as int, left_val as int) =~= seq![node@]);
            assert(result.entries() =~= key_model::<P>(sk.0@, constraint as int));
        }
        result
    }

    /// Advance the key by the secret `next` disclosed for index `next_val`,
    /// the successor of the constraint the key was valid through. A
    /// disclosure whose one-way expansion does not match the stored spine is
    /// rejected, and then the key is left untouched.
    pub fn increment(&self, ck: &mut ConstrainedKey, next_val: u64, next: [u8; 32]) -> (result:
        Result<(), ()>)
        requires
            next_val <= ROOT,
        ensures
            ({
                let slot = rights_model(next_val as int, ROOT as int);
                let stop = end_model(next_val as int, ROOT as int);
                if stop == 0 {
                    result is Ok && final(ck).entries() == old(ck).entries().update(slot, next@)
                } else {
                    let consistent = left_half::<P>(next@) == old(ck).entries()[slot]
                        && right_half::<P>(next@) == old(ck).entries()[slot + 1];
                    &&& (result is Ok <==> consistent)
                    &&& (consistent ==> final(ck).entries() == old(ck).entries().update(
                        slot,
                        next@,
                    ).update(slot + 1, zero32()))
                    &&& (!consistent ==> final(ck).entries() == old(ck).entries())
                }
            }),
    {
        proof {
            lemma_root_bound();
        }
        let mut left_val: u64 = ROOT;
        let mut t: u64 = next_val;
        let mut i: usize = 0;

        while left_val != t
            invariant
                valid_bound(left_val as int),
                t <= left_val,
                i + bound_depth(left_val as int) <= 48,
                rights_model(next_val as int, ROOT as int) == i + rights_model(
                    t as int,
                    left_val as int,
                ),
                end_model(next_val as int, ROOT as int) == end_model(t as int, left_val as int),
            decreases left_val,
        {
            proof {
                assert(left_val >= 2);
            }
            left_val = left_val / 2 - 1;
            if left_val < t {
                t = t - (left_val + 1);
                i = i + 1;
            }
        }

        if left_val == 0 {
            ck.0[i] = next;
            proof {
                assert(ck.entries() =~~= old(ck).entries().update(i as int, next@));
            }
        } else {
            let expansion = P::generate(&next);
            let slot_here: [u8; 32] = ck.0[i];
            let slot_next: [u8; 32] = ck.0[i + 1];
            let left_ok = half_matches(&expansion, 0, &slot_here);
            let right_ok = half_matches(&expansion, 32, &slot_next);

            if !left_ok || !right_ok {
                return Err(());
            }
            ck.0[i] = next;
            ck.0[i + 1] = [0u8; 32];
            proof {
                assert(ck.entries() =~~= old(ck).entries().update(i as int, next@).update(
                    i + 1,
                    zero32(),
                ));
            }
        }

        Ok(())
    }

    /// Reconstruct the secret of `index` from a key valid through
    /// `constraint`, without the master key. The result is a function of the
    /// stored slots alone; for a key built by `constrain`, or advanced in
    /// order by `increment`, it equals what `evaluate` yields from the
    /// master key (see [`crate::laws`]).
    pub fn constrained_eval(&self, ck: &ConstrainedKey, constraint: u64, index: u64) -> (secret:
        [u8; 32])
        requires
            index <= constraint,
            constraint <= ROOT,
        ensures
            secret@ == ceval_model::<P>(
                ck.entries(),
                constraint as int,
                index as int,
                ROOT as int,
            ),
    {
        proof {
            lemma_root_bound();
            assert(ck.entries().skip(0) =~= ck.entries());
        }
        let mut cur_val: u64 = ROOT;
        let mut i: usize = 0;
        let mut c: u64 = constraint;
        let mut idx: u64 = index;

        loop
            invariant
                valid_bound(cur_val as int),
                idx <= c <= cur_val,
                i + bound_depth(cur_val as int) <= 48,
                ceval_model::<P>(ck.entries(), constraint as int, index as int, ROOT as int)
                    == ceval_model::<P>(
                    ck.entries().skip(i as int),
                    c as int,
                    idx as int,
                    cur_val as int,
                ),
            decreases cur_val,
        {
            if cur_val == c {
                let mut res: [u8; 32] = ck.0[i];
                Self::_descend(&mut res, idx, cur_val);
                return res;
            }

            proof {
                assert(cur_val >= 2);
            }
            let left_val: u64 = cur_val / 2 - 1;

            if idx > left_val {
                let ghost before: Seq<Seq<u8>> = ck.entries().skip(i as int);
                cur_val = cur_val - (left_val + 2);
                c = c - (left_val + 1);
                idx = idx - (left_val + 1);
                i = i + 1;
                proof {
                    assert(before.drop_first() =~= ck.entries().skip(i as int));
                }
            } else if c < left_val {
                cur_val = left_val;
            } else {
                let mut res: [u8; 32] = ck.0[i];
                Self::_descend(&mut res, idx, left_val);
                return res;
            }
        }
    }

    fn _descend(node: &mut [u8; 32], target: u64, cur_val: u64)
        requires
            valid_bound(cur_val as int),
            target <= cur_val,
        ensures
            final(node)@ == descend_model::<P>(old(node)@, target as int, cur_val as int),
    {
        let mut t: u64 = target;
        let mut left_val: u64 = cur_val;

        while left_val != t
            invariant
                valid_bound(left_val as int),
                t <= left_val,
                descend_model::<P>(old(node)@, target as int, cur_val as int)
                    == descend_model::<P>(node@, t as int, left_val as int),
            decreases left_val,
        {
            proof {
                assert(left_val >= 2);
            }
            left_val = left_val / 2 - 1;
            if left_val >= t {
                P::go_left(node);
            } else {
                P::go_right(node);
                t = t - (left_val + 1);
            }
        }
    }
}

} // verus!
