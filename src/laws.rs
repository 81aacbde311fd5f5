//! Properties that relate several operations of a [`BitSet`](crate::BitSet),
//! stated over the models that the operations' contracts use.
use vstd::prelude::*;

use crate::bitset::{positions, resolve};

verus! {

/// After writing `v` at position `i`, reading position `i` gives `v` and
/// every other position reads as before.
pub proof fn lemma_write_then_read(bits: Seq<bool>, i: int, j: int, v: bool)
    requires
        0 <= i < bits.len(),
        0 <= j < bits.len(),
    ensures
        bits.update(i, v).len() == bits.len(),
        bits.update(i, v)[i] == v,
        j != i ==> bits.update(i, v)[j] == bits[j],
{
}

/// Writing the same value twice at one position leaves the same bits as
/// writing it once.
pub proof fn lemma_write_twice(bits: Seq<bool>, i: int, v: bool)
    requires
        0 <= i < bits.len(),
    ensures
        bits.update(i, v).update(i, v) == bits.update(i, v),
{
    assert(bits.update(i, v).update(i, v) =~= bits.update(i, v));
}

/// A position `i` and the negative index `i - size` address the same bit.
pub proof fn lemma_negative_index(size: int, i: int)
    requires
        0 <= i < size,
    ensures
        resolve(i - size, size) == Some(i),
        resolve(i, size) == Some(i),
{
}

/// The indices `size` and below `-size` address no bit.
pub proof fn lemma_index_bounds(size: int, index: int)
    requires
        size > 0,
        index >= size || index < -size,
    ensures
        resolve(index, size) is None,
{
}

/// The positions listed are exactly those of the set bits, in strictly
/// ascending order, so each appears once.
pub proof fn lemma_positions(bits: Seq<bool>)
    ensures
        forall|x: int| #[trigger]
            positions(bits).contains(x) <==> 0 <= x < bits.len() && bits[x],
        forall|a: int, b: int|
            0 <= a < b < positions(bits).len() ==> #[trigger] positions(bits)[a]
                < #[trigger] positions(bits)[b],
        forall|a: int| 0 <= a < positions(bits).len() ==> 0 <= #[trigger] positions(bits)[a] < bits.len(),
    decreases bits.len(),
{
    if bits.len() > 0 {
        let rest = bits.drop_last();
        lemma_positions(rest);
        let pr = positions(rest);
        let pb = positions(bits);
        let top = bits.len() - 1;
        assert(pb == if bits.last() {
            pr.push(top)
        } else {
            pr
        });
        assert forall|x: int| #[trigger] pb.contains(x) <==> 0 <= x < bits.len() && bits[x] by {
            if pb.contains(x) {
                let k = choose|k: int| 0 <= k < pb.len() && pb[k] == x;
                if k < pr.len() {
                    assert(pr[k] == x);
                    assert(pr.contains(x));
                    assert(rest[x] == bits[x]);
                }
            }
            if 0 <= x < bits.len() && bits[x] {
                if x < top {
                    assert(rest[x]);
                    assert(pr.contains(x));
                    let k = choose|k: int| 0 <= k < pr.len() && pr[k] == x;
                    assert(pb[k] == x);
                } else {
                    assert(pb[pb.len() - 1] == x);
                }
            }
        }
    }
}

/// The bits after setting, in order, each position of `marks`.
pub open spec fn mark_all(bits: Seq<bool>, marks: Seq<int>) -> Seq<bool>
    decreases marks.len(),
{
    if marks.len() == 0 {
        bits
    } else {
        mark_all(bits, marks.drop_last()).update(marks.last(), true)
    }
}

/// Starting from `n` clear bits and setting each position of `marks` gives
/// the bits whose positions are those of `marks`.
pub proof fn lemma_mark_all(n: nat, marks: Seq<int>)
    requires
        forall|k: int| 0 <= k < marks.len() ==> 0 <= #[trigger] marks[k] < n,
    ensures
        mark_all(Seq::new(n, |i: int| false), marks) == Seq::new(n, |i: int| marks.contains(i)),
    decreases marks.len(),
{
    if marks.len() > 0 {
        let rest = marks.drop_last();
        lemma_mark_all(n, rest);
        assert forall|i: int| 0 <= i < n implies #[trigger] marks.contains(i) == (rest.contains(i)
            || i == marks.last()) by {
            if marks.contains(i) && i != marks.last() {
                let k = choose|k: int| 0 <= k < marks.len() && marks[k] == i;
                assert(rest[k] == i);
            }
            if rest.contains(i) {
                let k = choose|k: int| 0 <= k < rest.len() && rest[k] == i;
                assert(marks[k] == i);
            }
        }
        assert(mark_all(Seq::new(n, |i: int| false), marks) =~= Seq::new(
            n,
            |i: int| marks.contains(i),
        ));
    }
}

/// Setting, in a set of `n` clear bits, each position of `marks` (all below
/// `n`) and then listing the set positions gives back exactly the positions
/// of `marks`.
pub proof fn lemma_round_trip(n: nat, marks: Seq<int>)
    requires
        forall|k: int| 0 <= k < marks.len() ==> 0 <= #[trigger] marks[k] < n,
    ensures
        positions(mark_all(Seq::new(n, |i: int| false), marks)).to_set() == marks.to_set(),
{
    lemma_mark_all(n, marks);
    let bits = Seq::new(n, |i: int| marks.contains(i));
    lemma_positions(bits);
    assert(positions(bits).to_set() =~= marks.to_set());
}

} // verus!
