//! Random matches and random rounds: which two items of a list are compared next.
//!
//! In random matches two items are drawn at random each time. In random
//! rounds the items are queued in random order and drawn two at a time, so
//! that every item is drawn before an item is repeated; when one item is
//! left, it is drawn together with the first item of a fresh round.

use vstd::prelude::*;
use rand::seq::SliceRandom;
use crate::lists::{ItemMetadata, duplicate_entry};

verus! {

/// Shuffles a vector in place with the thread's random number generator
/// (`rand::seq::SliceRandom::shuffle` with `rand::thread_rng`). The crate's
/// shuffle swaps elements, so the result is a permutation of the input; which
/// permutation depends on chance and is not stated.
#[verifier::external_body]
fn shuffle<T>(v: &mut Vec<T>)
    ensures
        final(v)@.to_multiset() == old(v)@.to_multiset(),
{
    v.shuffle(&mut rand::thread_rng());
}

/// Copies the entries of a list.
fn duplicate_items(items: &Vec<Option<ItemMetadata>>) -> (r: Vec<Option<ItemMetadata>>)
    ensures
        r@ == items@,
{
    let mut r: Vec<Option<ItemMetadata>> = Vec::new();
    let mut i: usize = 0;
    while i < items.len()
        invariant
            i <= items.len(),
            r@ == items@.subrange(0, i as int),
        decreases items.len() - i,
    {
        r.push(duplicate_entry(&items[i]));
        i = i + 1;
        assert(r@ =~= items@.subrange(0, i as int));
    }
    r
}

/// One draw of random rounds from `queue` for the list `items`, giving the
/// queue `after` and the pair `(left, right)`: with two or more queued, the
/// last two are drawn; with one queued, it is drawn with the last item of a
/// fresh random order of the list, whose other items stay queued; with none
/// queued, the last two of a fresh random order are drawn.
pub open spec fn rounds_step<T>(
    queue: Seq<T>,
    items: Seq<T>,
    after: Seq<T>,
    left: T,
    right: T,
) -> bool {
    if queue.len() >= 2 {
        &&& left == queue[queue.len() - 1]
        &&& right == queue[queue.len() - 2]
        &&& after == queue.subrange(0, queue.len() - 2)
    } else if queue.len() == 1 {
        &&& left == queue[0]
        &&& after.push(right).to_multiset() == items.to_multiset()
    } else {
        after.push(right).push(left).to_multiset() == items.to_multiset()
    }
}

/// One draw of random rounds that needs a fresh round, from the queue (empty,
/// or holding the one item left of the last round) and `fresh`, a new random
/// order of the list: a left-over item is drawn with the last item of the
/// fresh order, and otherwise the last two of the fresh order are drawn; the
/// rest of the fresh order stays queued.
pub fn round_pair_from_order(queue: &mut Vec<Option<ItemMetadata>>, fresh: Vec<Option<ItemMetadata>>) -> (pair: (
    Option<ItemMetadata>,
    Option<ItemMetadata>,
))
    requires
        old(queue)@.len() <= 1,
        old(queue)@.len() + fresh@.len() >= 2,
    ensures
        if old(queue)@.len() == 1 {
            &&& pair.0 == old(queue)@[0]
            &&& pair.1 == fresh@.last()
            &&& final(queue)@ == fresh@.drop_last()
        } else {
            &&& pair.0 == fresh@[fresh@.len() - 1]
            &&& pair.1 == fresh@[fresh@.len() - 2]
            &&& final(queue)@ == fresh@.subrange(0, fresh@.len() - 2)
        },
{
    let ghost f = fresh@;
    let mut fresh = fresh;
    if queue.len() == 1 {
        let last = queue.pop().unwrap();
        queue.append(&mut fresh);
        queue.push(last);
        let left = queue.pop().unwrap();
        let right = queue.pop().unwrap();
        assert(queue@ =~= f.drop_last());
        (left, right)
    } else {
        queue.append(&mut fresh);
        let left = queue.pop().unwrap();
        let right = queue.pop().unwrap();
        assert(queue@ =~= f.subrange(0, f.len() - 2));
        (left, right)
    }
}

/// Draws the next pair of random rounds and updates the queue.
pub fn next_round_pair(queue: &mut Vec<Option<ItemMetadata>>, items: &Vec<Option<ItemMetadata>>) -> (pair: (
    Option<ItemMetadata>,
    Option<ItemMetadata>,
))
    requires
        old(queue)@.len() >= 2 || (old(queue)@.len() == 1 && items@.len() >= 1) || items@.len() >= 2,
    ensures
        rounds_step(old(queue)@, items@, final(queue)@, pair.0, pair.1),
{
    let ghost q0 = queue@;
    if queue.len() >= 2 {
        let left = queue.pop().unwrap();
        let right = queue.pop().unwrap();
        assert(queue@ =~= q0.subrange(0, q0.len() - 2));
        (left, right)
    } else {
        let mut fresh = duplicate_items(items);
        shuffle(&mut fresh);
        let ghost f = fresh@;
        proof {
            f.to_multiset_ensures();
            items@.to_multiset_ensures();
            assert(f.len() == items@.len());
        }
        let pair = round_pair_from_order(queue, fresh);
        proof {
            if q0.len() == 1 {
                assert(queue@.push(pair.1) =~= f);
            } else {
                assert(queue@.push(pair.1).push(pair.0) =~= f);
            }
        }
        pair
    }
}

/// The pair of a random match from a random order of the list's positions:
/// the entries at the last two positions of the order.
pub fn pair_from_order(order: &Vec<usize>, items: &Vec<Option<ItemMetadata>>) -> (pair: (
    Option<ItemMetadata>,
    Option<ItemMetadata>,
))
    requires
        order@.len() >= 2,
        forall|k: int| 0 <= k < order@.len() ==> #[trigger] order@[k] < items@.len(),
    ensures
        pair.0 == items@[order@[order@.len() - 1] as int],
        pair.1 == items@[order@[order@.len() - 2] as int],
{
    let n = order.len();
    let a = order[n - 1];
    let b = order[n - 2];
    (duplicate_entry(&items[a]), duplicate_entry(&items[b]))
}

/// Draws the pair of a random match: two entries of the list at two different positions.
pub fn random_match_pair(items: &Vec<Option<ItemMetadata>>) -> (pair: (Option<ItemMetadata>, Option<ItemMetadata>))
    requires
        items@.len() >= 2,
    ensures
        exists|i: int, j: int|
            0 <= i < items@.len() && 0 <= j < items@.len() && i != j && pair.0 == items@[i] && pair.1
                == items@[j],
{
    let mut order: Vec<usize> = Vec::new();
    let mut k: usize = 0;
    while k < items.len()
        invariant
            k <= items.len(),
            order@ == Seq::new(k as nat, |i: int| i as usize),
        decreases items.len() - k,
    {
        order.push(k);
        k = k + 1;
        assert(order@ =~= Seq::new(k as nat, |i: int| i as usize));
    }
    let ghost positions = order@;
    shuffle(&mut order);
    proof {
        order@.to_multiset_ensures();
        positions.to_multiset_ensures();
        assert(order@.len() == items@.len());
        assert forall|m: int| 0 <= m < order@.len() implies #[trigger] order@[m] < items@.len() by {
            assert(order@.to_multiset().count(order@[m]) > 0);
            assert(positions.contains(order@[m]));
        }
        // two positions of a permutation of distinct values are distinct
        assert(positions.no_duplicates());
        positions.lemma_multiset_has_no_duplicates();
        order@.lemma_multiset_has_no_duplicates_conv();
        assert(order@[order@.len() - 1] != order@[order@.len() - 2]);
    }
    pair_from_order(&order, items)
}

/// How the compare page draws its pairs.
#[derive(Clone, Copy, Debug, PartialEq, Eq)]
pub enum Mode {
    /// Two items at random each time.
    Match,
    /// Rounds in random order, as `next_round_pair` draws them.
    Round,
}

/// Draws the next pair of the compare page: in rounds from the queue, which
/// it updates, or as a random match, which leaves the queue alone.
pub fn draw_pair(mode: Mode, queue: &mut Vec<Option<ItemMetadata>>, items: &Vec<Option<ItemMetadata>>) -> (pair: (
    Option<ItemMetadata>,
    Option<ItemMetadata>,
))
    requires
        match mode {
            Mode::Round => old(queue)@.len() >= 2 || (old(queue)@.len() == 1 && items@.len() >= 1) || items@.len() >= 2,
            Mode::Match => items@.len() >= 2,
        },
    ensures
        match mode {
            Mode::Round => rounds_step(old(queue)@, items@, final(queue)@, pair.0, pair.1),
            Mode::Match => {
                &&& final(queue)@ == old(queue)@
                &&& exists|i: int, j: int|
                    0 <= i < items@.len() && 0 <= j < items@.len() && i != j && pair.0 == items@[i]
                        && pair.1 == items@[j]
            },
        },
{
    match mode {
        Mode::Round => next_round_pair(queue, items),
        Mode::Match => random_match_pair(items),
    }
}

/// The items drawn in the current round after a draw of random rounds: a
/// fresh round starts when the queue was empty or held a single item.
pub open spec fn drawn_after<T>(drawn: Seq<T>, queue: Seq<T>, left: T, right: T) -> Seq<T> {
    if queue.len() >= 2 {
        drawn.push(left).push(right)
    } else if queue.len() == 1 {
        seq![right]
    } else {
        seq![left, right]
    }
}

/// Random rounds draw every item of the list before an item is repeated:
/// during a round, the items drawn in it and the items still queued make up
/// the list, each as often as it occurs there, and every draw keeps it so.
pub proof fn law_round_draws_each_item_once<T>(
    items: Seq<T>,
    drawn: Seq<T>,
    queue: Seq<T>,
    after: Seq<T>,
    left: T,
    right: T,
)
    requires
        queue.len() > 0 ==> (drawn + queue).to_multiset() == items.to_multiset(),
        rounds_step(queue, items, after, left, right),
    ensures
        (drawn_after(drawn, queue, left, right) + after).to_multiset() == items.to_multiset(),
{
    broadcast use vstd::seq_lib::group_to_multiset_ensures;
    let d = drawn_after(drawn, queue, left, right);
    if queue.len() >= 2 {
        vstd::seq_lib::lemma_multiset_commutative(drawn, queue);
        vstd::seq_lib::lemma_multiset_commutative(d, after);
        let n = queue.len();
        assert(queue =~= after.push(right).push(left));
        assert(after.push(right).push(left).to_multiset() =~= after.to_multiset().insert(right).insert(left));
        assert(d.to_multiset() =~= drawn.to_multiset().insert(left).insert(right));
    } else if queue.len() == 1 {
        vstd::seq_lib::lemma_multiset_commutative(d, after);
        assert(d =~= Seq::<T>::empty().push(right));
        assert(d.to_multiset() =~= after.push(right).to_multiset().sub(after.to_multiset())) by {
            assert(after.push(right).to_multiset() =~= after.to_multiset().insert(right));
            assert(Seq::<T>::empty().to_multiset() =~= vstd::multiset::Multiset::empty());
        }
        assert(d + after =~= d + after);
        assert((d + after).to_multiset() =~= after.push(right).to_multiset());
    } else {
        vstd::seq_lib::lemma_multiset_commutative(d, after);
        assert(after.push(right).push(left).to_multiset() =~= after.to_multiset().insert(right).insert(left));
        assert(d =~= Seq::<T>::empty().push(left).push(right));
        assert(Seq::<T>::empty().to_multiset() =~= vstd::multiset::Multiset::empty());
        assert(d.to_multiset() =~= vstd::multiset::Multiset::empty().insert(left).insert(right));
    }
}

/// The items shown by the first `k` draws, in order: left, right, left, right, ...
pub open spec fn shown<T>(pairs: Seq<(T, T)>, k: int) -> Seq<T>
    decreases k,
{
    if k <= 0 {
        Seq::empty()
    } else {
        shown(pairs, k - 1).push(pairs[k - 1].0).push(pairs[k - 1].1)
    }
}

/// A run of random rounds for the list `items`: starting from an empty queue,
/// draw `k` takes queue `queues[k]` to `queues[k + 1]` and shows `pairs[k]`.
pub open spec fn rounds_run<T>(items: Seq<T>, queues: Seq<Seq<T>>, pairs: Seq<(T, T)>) -> bool {
    &&& queues.len() == pairs.len() + 1
    &&& queues[0].len() == 0
    &&& forall|k: int|
        0 <= k < pairs.len() ==> rounds_step(#[trigger] queues[k], items, queues[k + 1], pairs[k].0, pairs[k].1)
}

/// Round `b` of the shown items: the `n` items from position `b * n` on.
pub open spec fn round_block<T>(s: Seq<T>, n: int, b: int) -> Seq<T> {
    s.subrange(b * n, (b + 1) * n)
}

/// After the items `s` were shown with queue `q` left, `m` rounds are complete,
/// each showing every item once, and the items shown since, with the queue,
/// make up the list.
spec fn round_state<T>(items: Seq<T>, s: Seq<T>, q: Seq<T>, m: int) -> bool {
    let n = items.len() as int;
    &&& 0 <= m
    &&& m * n <= s.len() < (m + 1) * n
    &&& (q.len() == 0 <==> s.len() == m * n)
    &&& s.len() > m * n ==> (s.subrange(m * n, s.len() as int) + q).to_multiset() == items.to_multiset()
    &&& forall|b: int| 0 <= b < m ==> (#[trigger] round_block(s, n, b)).to_multiset() == items.to_multiset()
}

proof fn lemma_round_state_step<T>(items: Seq<T>, s: Seq<T>, q: Seq<T>, m: int, after: Seq<T>, l: T, r: T) -> (m2: int)
    requires
        items.len() >= 2,
        round_state(items, s, q, m),
        rounds_step(q, items, after, l, r),
    ensures
        round_state(items, s.push(l).push(r), after, m2),
{
    broadcast use vstd::seq_lib::group_to_multiset_ensures;
    let n = items.len() as int;
    let s2 = s.push(l).push(r);
    assert((m + 1) * n == m * n + n) by (nonlinear_arith);
    assert((m + 2) * n == m * n + 2 * n) by (nonlinear_arith);
    assert(m * n >= 0) by (nonlinear_arith)
        requires
            m >= 0,
            n >= 0,
    ;
    assert forall|b: int| 0 <= b < m implies #[trigger] round_block(s2, n, b) == round_block(s, n, b) by {
        vstd::arithmetic::mul::lemma_mul_inequality(b + 1, m, n);
        assert(b * n >= 0) by (nonlinear_arith)
            requires
                b >= 0,
                n >= 0,
        ;
        assert((b + 1) * n == b * n + n) by (nonlinear_arith);
        let x = b * n;
        let y = (b + 1) * n;
        assert(y <= s.len());
        assert forall|i: int| 0 <= i < y - x implies #[trigger] s2.subrange(x, y)[i] == s.subrange(x, y)[i] by {
            assert(s2[x + i] == s[x + i]);
        }
        assert(round_block(s2, n, b) =~= round_block(s, n, b));
    }
    let p = s.subrange(m * n, s.len() as int);
    if q.len() >= 2 {
        vstd::seq_lib::lemma_multiset_commutative(p, q);
        assert(q =~= after.push(r).push(l));
        let p2 = s2.subrange(m * n, s2.len() as int);
        assert(p2 =~= p.push(l).push(r));
        vstd::seq_lib::lemma_multiset_commutative(p2, after);
        assert((p2 + after).to_multiset() =~= (p + q).to_multiset());
        assert((p + q).len() == n) by {
            (p + q).to_multiset_ensures();
            items.to_multiset_ensures();
        }
        if after.len() == 0 {
            assert(round_block(s2, n, m) =~= p2);
            assert(p2 + after =~= p2);
            assert forall|b: int| 0 <= b < m + 1 implies (#[trigger] round_block(s2, n, b)).to_multiset()
                == items.to_multiset() by {
                if b < m {
                    assert(round_block(s2, n, b) == round_block(s, n, b));
                }
            }
            assert((m + 1) * n <= s2.len() < (m + 2) * n);
            assert(after.len() == 0 <==> s2.len() == (m + 1) * n);
            assert(s2.len() > (m + 1) * n ==> (s2.subrange((m + 1) * n, s2.len() as int) + after).to_multiset() == items.to_multiset());
            m + 1
        } else {
            assert forall|b: int| 0 <= b < m implies (#[trigger] round_block(s2, n, b)).to_multiset()
                == items.to_multiset() by {
                assert(round_block(s2, n, b) == round_block(s, n, b));
            }
            assert(m * n <= s2.len() < (m + 1) * n);
            assert(after.len() == 0 <==> s2.len() == m * n);
            assert(s2.len() > m * n ==> (s2.subrange(m * n, s2.len() as int) + after).to_multiset() == items.to_multiset());
            m
        }
    } else if q.len() == 1 {
        vstd::seq_lib::lemma_multiset_commutative(p, q);
        assert((p + q).len() == n) by {
            (p + q).to_multiset_ensures();
            items.to_multiset_ensures();
        }
        assert(p + q =~= p.push(l));
        assert(round_block(s2, n, m) =~= p.push(l));
        assert(after.push(r).len() == n) by {
            after.push(r).to_multiset_ensures();
            items.to_multiset_ensures();
        }
        let p2 = s2.subrange((m + 1) * n, s2.len() as int);
        assert(p2 =~= seq![r]);
        vstd::seq_lib::lemma_multiset_commutative(p2, after);
        vstd::seq_lib::lemma_multiset_commutative(after, p2);
        assert(after + p2 =~= after.push(r));
        assert forall|b: int| 0 <= b < m + 1 implies (#[trigger] round_block(s2, n, b)).to_multiset()
            == items.to_multiset() by {
            if b < m {
                assert(round_block(s2, n, b) == round_block(s, n, b));
            }
        }
        assert((m + 1) * n <= s2.len() < (m + 2) * n);
        assert(after.len() > 0);
        assert(s2.len() != (m + 1) * n);
        assert((s2.subrange((m + 1) * n, s2.len() as int) + after).to_multiset() == items.to_multiset());
        m + 1
    } else {
        assert(after.push(r).push(l).len() == n) by {
            after.push(r).push(l).to_multiset_ensures();
            items.to_multiset_ensures();
        }
        let p2 = s2.subrange(m * n, s2.len() as int);
        assert(p2 =~= seq![l, r]);
        vstd::seq_lib::lemma_multiset_commutative(p2, after);
        vstd::seq_lib::lemma_multiset_commutative(after, p2);
        assert(after + p2 =~= after.push(l).push(r));
        assert(after.push(l).push(r).to_multiset() =~= after.push(r).push(l).to_multiset());
        if n == 2 {
            assert(after.len() == 0);
            assert(round_block(s2, n, m) =~= p2);
            assert(p2 + after =~= p2);
            assert forall|b: int| 0 <= b < m + 1 implies (#[trigger] round_block(s2, n, b)).to_multiset()
                == items.to_multiset() by {
                if b < m {
                    assert(round_block(s2, n, b) == round_block(s, n, b));
                }
            }
            assert((m + 1) * n <= s2.len() < (m + 2) * n);
            assert(after.len() == 0 <==> s2.len() == (m + 1) * n);
            assert(s2.len() > (m + 1) * n ==> (s2.subrange((m + 1) * n, s2.len() as int) + after).to_multiset() == items.to_multiset());
            m + 1
        } else {
            assert forall|b: int| 0 <= b < m implies (#[trigger] round_block(s2, n, b)).to_multiset()
                == items.to_multiset() by {
                assert(round_block(s2, n, b) == round_block(s, n, b));
            }
            assert(m * n <= s2.len() < (m + 1) * n);
            assert(after.len() == 0 <==> s2.len() == m * n);
            assert(s2.len() > m * n ==> (s2.subrange(m * n, s2.len() as int) + after).to_multiset() == items.to_multiset());
            m
        }
    }
}

proof fn lemma_rounds_run<T>(items: Seq<T>, queues: Seq<Seq<T>>, pairs: Seq<(T, T)>, k: int) -> (m: int)
    requires
        items.len() >= 2,
        rounds_run(items, queues, pairs),
        0 <= k <= pairs.len(),
    ensures
        round_state(items, shown(pairs, k), queues[k], m),
    decreases k,
{
    if k == 0 {
        assert(shown(pairs, 0).len() == 0);
        assert(0 * (items.len() as int) == 0);
        0
    } else {
        let m = lemma_rounds_run(items, queues, pairs, k - 1);
        assert(rounds_step(queues[k - 1], items, queues[k], pairs[k - 1].0, pairs[k - 1].1));
        lemma_round_state_step(items, shown(pairs, k - 1), queues[k - 1], m, queues[k], pairs[k - 1].0, pairs[k - 1].1)
    }
}

/// The items shown since the start of round `b`.
pub open spec fn round_rest<T>(s: Seq<T>, n: int, b: int) -> Seq<T> {
    s.subrange(b * n, s.len() as int)
}

/// Over any run of random rounds, every item is shown once before any item
/// repeats: listing the shown items left, right, left, right, ..., each
/// complete block of `n` items from the start (`n` the number of items) shows
/// every item of the list exactly as often as the list holds it, and the
/// items of the round still under way, together with those still queued, make
/// up the list, so none of them repeats. An item left over from a round of
/// odd size is the next left item, the last of its round.
pub proof fn law_rounds_show_every_item_per_round<T>(items: Seq<T>, queues: Seq<Seq<T>>, pairs: Seq<(T, T)>)
    requires
        items.len() >= 2,
        rounds_run(items, queues, pairs),
    ensures
        forall|b: int|
            0 <= b && (b + 1) * items.len() <= shown(pairs, pairs.len() as int).len() ==> (#[trigger] round_block(
                shown(pairs, pairs.len() as int),
                items.len() as int,
                b,
            )).to_multiset() == items.to_multiset(),
        forall|b: int|
            0 <= b && b * items.len() < shown(pairs, pairs.len() as int).len() < (b + 1) * items.len() ==> {
                &&& (#[trigger] round_rest(shown(pairs, pairs.len() as int), items.len() as int, b)
                    + queues[pairs.len() as int]).to_multiset() == items.to_multiset()
                &&& round_rest(shown(pairs, pairs.len() as int), items.len() as int, b).to_multiset().subset_of(
                    items.to_multiset(),
                )
            },
{
    broadcast use vstd::seq_lib::group_to_multiset_ensures;
    let n = items.len() as int;
    let s = shown(pairs, pairs.len() as int);
    let m = lemma_rounds_run(items, queues, pairs, pairs.len() as int);
    assert forall|b: int| 0 <= b && (b + 1) * n <= s.len() implies (#[trigger] round_block(s, n, b)).to_multiset()
        == items.to_multiset() by {
        if b >= m {
            vstd::arithmetic::mul::lemma_mul_inequality(m + 1, b + 1, n);
        }
    }
    assert forall|b: int| 0 <= b && b * n < s.len() < (b + 1) * n implies {
        &&& (#[trigger] round_rest(s, n, b) + queues[pairs.len() as int]).to_multiset() == items.to_multiset()
        &&& round_rest(s, n, b).to_multiset().subset_of(items.to_multiset())
    } by {
        if b < m {
            vstd::arithmetic::mul::lemma_mul_inequality(b + 1, m, n);
        } else if b > m {
            vstd::arithmetic::mul::lemma_mul_inequality(m + 1, b, n);
        }
        assert(b == m);
        let rest = round_rest(s, n, b);
        let q = queues[pairs.len() as int];
        vstd::seq_lib::lemma_multiset_commutative(rest, q);
        assert forall|x: T| rest.to_multiset().count(x) <= items.to_multiset().count(x) by {
            assert(rest.to_multiset().add(q.to_multiset()).count(x) == rest.to_multiset().count(x) + q.to_multiset().count(x));
        }
    }
}

} // verus!
