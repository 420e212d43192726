//! A reorder buffer: results that arrive in any order leave in the order of
//! their indices.
//!
//! Chunks can be decoded independently of each other, so several can be
//! decoded at the same time. Their results are put here under the chunk's
//! index as they are completed, and taken out strictly by index: the order
//! of delivery is the order in the file, whatever the order of completion.

use vstd::prelude::*;
use std::collections::HashMap;

verus! {

broadcast use vstd::std_specs::hash::group_hash_axioms;

/// Results waiting for their turn, by index.
pub struct ReorderBuffer<T> {
    next: usize,
    waiting: HashMap<usize, T>,
}

/// How many results from index `next` on can leave: the length of the run of
/// indices without a gap that starts at `next`.
pub open spec fn ready_run<T>(waiting: Map<usize, T>, next: int) -> nat
    decreases usize::MAX - next,
{
    if 0 <= next < usize::MAX && waiting.contains_key(next as usize) {
        1 + ready_run(waiting, next + 1)
    } else {
        0
    }
}

/// Two arrivals under different indices leave the same results waiting, in
/// whichever order they come.
pub proof fn lemma_arrival_order_irrelevant<T>(waiting: Map<usize, T>, i: usize, x: T, j: usize, y: T)
    requires
        i != j,
    ensures
        waiting.insert(i, x).insert(j, y) == waiting.insert(j, y).insert(i, x),
{
    assert(waiting.insert(i, x).insert(j, y) =~= waiting.insert(j, y).insert(i, x));
}

impl<T> ReorderBuffer<T> {
    /// The index of the result that leaves next.
    pub closed spec fn next_index(&self) -> usize {
        self.next
    }

    /// The results that wait, by index.
    pub closed spec fn waiting(&self) -> Map<usize, T> {
        self.waiting@
    }

    /// Every waiting result has an index that is still to come.
    pub open spec fn wf(&self) -> bool {
        forall|k: usize| #[trigger]
            self.waiting().contains_key(k) ==> self.next_index() <= k < usize::MAX
    }

    /// An empty buffer, which delivers from index 0 on.
    pub fn new() -> (r: Self)
        ensures
            r.wf(),
            r.next_index() == 0,
            r.waiting() == Map::<usize, T>::empty(),
    {
        ReorderBuffer { next: 0, waiting: HashMap::new() }
    }

    /// Puts a result under its index. It is taken unless its index has been
    /// delivered already, is taken by another result, or is the largest
    /// number; a result that is not taken is handed back.
    pub fn push(&mut self, index: usize, item: T) -> (r: Option<T>)
        requires
            old(self).wf(),
        ensures
            final(self).wf(),
            final(self).next_index() == old(self).next_index(),
            old(self).next_index() <= index < usize::MAX && !old(self).waiting().contains_key(index)
                ==> r is None && final(self).waiting() == old(self).waiting().insert(index, item),
            !(old(self).next_index() <= index < usize::MAX && !old(self).waiting().contains_key(
                index,
            )) ==> r == Some(item) && final(self).waiting() == old(self).waiting(),
    {
        if index < self.next || index == usize::MAX || self.waiting.contains_key(&index) {
            return Some(item);
        }
        self.waiting.insert(index, item);
        assert forall|k: usize| #[trigger] self.waiting().contains_key(k) implies self.next_index()
            <= k < usize::MAX by {
            if k != index {
                assert(old(self).waiting().contains_key(k));
            }
        }
        None
    }

    /// Is the next result there?
    pub fn is_ready(&self) -> (r: bool)
        ensures
            r == self.waiting().contains_key(self.next_index()),
    {
        self.waiting.contains_key(&self.next)
    }

    /// Takes out the result whose turn it is, if it is there.
    pub fn pop_ready(&mut self) -> (r: Option<T>)
        requires
            old(self).wf(),
        ensures
            final(self).wf(),
            match r {
                Some(x) => old(self).waiting().contains_key(old(self).next_index())
                    && x == old(self).waiting()[old(self).next_index()]
                    && final(self).next_index() == old(self).next_index() + 1
                    && final(self).waiting() == old(self).waiting().remove(
                    old(self).next_index(),
                ),
                None => !old(self).waiting().contains_key(old(self).next_index())
                    && final(self).next_index() == old(self).next_index()
                    && final(self).waiting() == old(self).waiting(),
            },
    {
        let at: usize = self.next;
        match self.waiting.remove(&at) {
            Some(x) => {
                assert(old(self).waiting().contains_key(at));
                self.next = at + 1;
                assert forall|k: usize| #[trigger] self.waiting().contains_key(k) implies at + 1
                    <= k < usize::MAX by {
                    assert(old(self).waiting().contains_key(k));
                }
                Some(x)
            },
            None => {
                assert(self.waiting() =~= old(self).waiting());
                None
            },
        }
    }

    /// Takes out every result that can leave: those of the run of indices
    /// without a gap that starts at the next index, in the order of their
    /// indices.
    pub fn drain(&mut self) -> (r: Vec<T>)
        requires
            old(self).wf(),
        ensures
            final(self).wf(),
            r@.len() == ready_run(old(self).waiting(), old(self).next_index() as int),
            final(self).next_index() == old(self).next_index() + r@.len(),
            forall|k: int|
                0 <= k < r@.len() ==> #[trigger] r@[k] == old(self).waiting()[(old(self).next_index() + k) as usize],
            forall|k: usize|
                final(self).waiting().contains_key(k) <==> old(self).waiting().contains_key(k)
                    && k >= final(self).next_index(),
            forall|k: usize| #[trigger]
                final(self).waiting().contains_key(k) ==> final(self).waiting()[k] == old(self).waiting()[k],
    {
        let mut out: Vec<T> = Vec::new();
        let ghost start = self.next as int;
        let ghost all = self.waiting();
        loop
            invariant
                self.wf(),
                start == old(self).next_index(),
                all == old(self).waiting(),
                self.next_index() == start + out@.len(),
                ready_run(all, start) == out@.len() + ready_run(all, self.next_index() as int),
                forall|k: int| 0 <= k < out@.len() ==> #[trigger] out@[k] == all[(start + k) as usize],
                forall|k: usize|
                    self.waiting().contains_key(k) <==> all.contains_key(k) && k
                        >= self.next_index(),
                forall|k: usize| #[trigger]
                    self.waiting().contains_key(k) ==> self.waiting()[k] == all[k],
            decreases usize::MAX - self.next_index(),
        {
            let ghost before = self.next_index();
            match self.pop_ready() {
                None => {
                    assert(!all.contains_key(before));
                    return out;
                },
                Some(x) => {
                    assert(all.contains_key(before));
                    out.push(x);
                },
            }
        }
    }
}

/// Something has arrived under the index `i`.
pub open spec fn answered<T>(arrivals: Seq<(usize, Vec<T>)>, i: int) -> bool {
    exists|k: int| 0 <= k < arrivals.len() && (#[trigger] arrivals[k]).0 == i
}

/// The arrivals are complete: each holds an index below their number, no
/// index comes twice, and every index below their number has come.
pub open spec fn complete<T>(arrivals: Seq<(usize, Vec<T>)>) -> bool {
    &&& forall|k: int| 0 <= k < arrivals.len() ==> (#[trigger] arrivals[k]).0 < arrivals.len()
    &&& forall|i: int| 0 <= i < arrivals.len() ==> #[trigger] answered(arrivals, i)
    &&& forall|a: int, b: int|
        0 <= a < b < arrivals.len() ==> (#[trigger] arrivals[a]).0 != (#[trigger] arrivals[b]).0
}

/// What arrived under the index `i`.
pub open spec fn part_of<T>(arrivals: Seq<(usize, Vec<T>)>, i: int) -> Seq<T> {
    arrivals[choose|k: int| 0 <= k < arrivals.len() && (#[trigger] arrivals[k]).0 == i].1@
}

/// What arrived under the indices from `i` up to `n`, in the order of the
/// indices, as one sequence.
pub open spec fn in_order<T>(arrivals: Seq<(usize, Vec<T>)>, i: int, n: int) -> Seq<T>
    decreases n - i,
{
    if i >= n {
        Seq::empty()
    } else {
        part_of(arrivals, i) + in_order(arrivals, i + 1, n)
    }
}

/// A result waits under the index `i`.
pub open spec fn waits<T>(waiting: Map<usize, T>, i: int) -> bool {
    0 <= i <= usize::MAX && waiting.contains_key(i as usize)
}

/// A run ends in front of an index that is not waiting.
proof fn lemma_run_ends<T>(waiting: Map<usize, T>, from: int)
    requires
        0 <= from <= usize::MAX,
    ensures
        from + ready_run(waiting, from) <= usize::MAX,
        from + ready_run(waiting, from) < usize::MAX ==> !waits(
            waiting,
            from + ready_run(waiting, from),
        ),
        forall|i: int| from <= i < from + ready_run(waiting, from) ==> #[trigger] waits(waiting, i),
    decreases usize::MAX - from,
{
    if from < usize::MAX && waiting.contains_key(from as usize) {
        lemma_run_ends(waiting, from + 1);
    }
}

/// Puts results that arrived in any order into the order of their indices,
/// as one list. There is a list only where the arrivals are complete.
pub fn merge_in_order<T>(arrivals: Vec<(usize, Vec<T>)>) -> (r: Option<Vec<T>>)
    ensures
        match r {
            Some(out) => complete(arrivals@) && out@ == in_order(
                arrivals@,
                0,
                arrivals@.len() as int,
            ),
            None => !complete(arrivals@),
        },
{
    let ghost all = arrivals@;
    let n: usize = arrivals.len();
    let mut rest: Vec<(usize, Vec<T>)> = arrivals;
    let mut buffer: ReorderBuffer<Vec<T>> = ReorderBuffer::new();
    // Taken from the end, the arrivals come by falling position.
    while rest.len() > 0
        invariant
            buffer.wf(),
            buffer.next_index() == 0,
            n == all.len(),
            all == arrivals@,
            rest@.len() <= n,
            rest@ == all.take(rest@.len() as int),
            forall|k: int| rest@.len() <= k < n ==> (#[trigger] all[k]).0 < n,
            forall|k: int|
                rest@.len() <= k < n ==> buffer.waiting().contains_key((#[trigger] all[k]).0)
                    && buffer.waiting()[all[k].0] == all[k].1,
            forall|a: int, b: int|
                rest@.len() <= a < b < n ==> (#[trigger] all[a]).0 != (#[trigger] all[b]).0,
            forall|i: usize| #[trigger]
                buffer.waiting().contains_key(i) ==> exists|k: int|
                    rest@.len() <= k < n && (#[trigger] all[k]).0 == i,
        decreases rest@.len(),
    {
        let ghost at = rest@.len() - 1;
        let ghost before = buffer.waiting();
        let (index, part) = rest.pop().unwrap();
        assert(all[at] == (index, part));
        if index >= n {
            assert(!(all[at].0 < all.len()));
            return None;
        }
        match buffer.push(index, part) {
            Some(_) => {
                proof {
                    assert(before.contains_key(index));
                    let other = choose|k: int| at < k < n && (#[trigger] all[k]).0 == index;
                    assert(all[at].0 == all[other].0);
                }
                return None;
            },
            None => {},
        }
        proof {
            assert(rest@ =~= all.take(at));
            assert forall|i: usize| #[trigger] buffer.waiting().contains_key(i) implies exists|
                k: int,
            |
                at <= k < n && (#[trigger] all[k]).0 == i by {
                if i == index {
                    assert(all[at].0 == i);
                } else {
                    assert(before.contains_key(i));
                    let k = choose|k: int| at + 1 <= k < n && (#[trigger] all[k]).0 == i;
                    assert(at <= k < n && all[k].0 == i);
                }
            }
        }
    }
    let ghost waiting = buffer.waiting();
    proof {
        lemma_run_ends(waiting, 0);
    }
    let mut parts: Vec<Vec<T>> = buffer.drain();
    if parts.len() != n {
        proof {
            let gap = parts@.len() as int;
            if gap > n {
                assert(waits(waiting, n as int));
                let k = choose|k: int| 0 <= k < n && (#[trigger] all[k]).0 == n;
                assert(all[k].0 < n);
            }
            assert(!waits(waiting, gap));
            if complete(all) {
                assert(answered(all, gap));
                let k = choose|k: int| 0 <= k < all.len() && (#[trigger] all[k]).0 == gap;
                assert(waiting.contains_key(all[k].0));
            }
        }
        return None;
    }
    proof {
        assert forall|i: int| 0 <= i < n implies #[trigger] answered(all, i) by {
            assert(waits(waiting, i));
        }
        assert(complete(all));
        assert forall|i: int| 0 <= i < n implies #[trigger] parts@[i]@ == part_of(all, i) by {
            assert(answered(all, i));
            let k = choose|k: int| 0 <= k < all.len() && (#[trigger] all[k]).0 == i;
            assert(waiting[all[k].0] == all[k].1);
        }
    }
    let mut out: Vec<T> = Vec::new();
    let mut i: usize = 0;
    let ghost whole = in_order(all, 0, n as int);
    assert(out@ + in_order(all, 0, n as int) =~= whole);
    while i < n
        invariant
            i <= n,
            n == all.len(),
            all == arrivals@,
            complete(all),
            whole == in_order(all, 0, n as int),
            parts@.len() == n,
            forall|j: int| i <= j < n ==> #[trigger] parts@[j]@ == part_of(all, j),
            out@ + in_order(all, i as int, n as int) == whole,
        decreases n - i,
    {
        let ghost before = out@;
        let ghost piece = parts@[i as int]@;
        let mut part: Vec<T> = Vec::new();
        std::mem::swap(&mut part, &mut parts[i]);
        out.append(&mut part);
        proof {
            assert(out@ =~= before + piece);
            assert((before + piece) + in_order(all, i + 1, n as int) =~= before + (piece
                + in_order(all, i + 1, n as int)));
        }
        i = i + 1;
    }
    assert(out@ + Seq::<T>::empty() =~= out@);
    Some(out)
}

} // verus!
