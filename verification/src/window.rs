//! A FIFO window of fixed capacity: pushing into a full window evicts the
//! oldest entries.

use crate::fixed::div_toward_zero;
use std::collections::VecDeque;
use vstd::prelude::*;

verus! {

/// The last `n` entries of `s`, or all of `s` if it has no more than `n`.
pub open spec fn keep_last<T>(s: Seq<T>, n: nat) -> Seq<T> {
    if s.len() <= n {
        s
    } else {
        s.subrange(s.len() - n, s.len() as int)
    }
}

/// The sum of the entries of `s`.
pub open spec fn sum(s: Seq<i32>) -> int
    decreases s.len(),
{
    if s.len() == 0 {
        0
    } else {
        sum(s.drop_last()) + s.last()
    }
}

/// The arithmetic mean of `s`, rounded toward zero; 0 for the empty sequence.
pub open spec fn mean(s: Seq<i32>) -> int {
    if s.len() == 0 {
        0
    } else {
        div_toward_zero(sum(s), s.len() as int)
    }
}

/// Every entry of `s` lies in the range of `i32`, so the sum is bounded by
/// the length times that range.
pub proof fn lemma_sum_bounds(s: Seq<i32>)
    ensures
        -0x8000_0000 * s.len() <= sum(s) <= 0x7fff_ffff * s.len(),
    decreases s.len(),
{
    if s.len() > 0 {
        lemma_sum_bounds(s.drop_last());
    }
}

/// The mean of a sequence of `i32` is itself in the range of `i32`.
pub proof fn lemma_mean_bounds(s: Seq<i32>)
    ensures
        -0x8000_0000 <= mean(s) <= 0x7fff_ffff,
{
    if s.len() > 0 {
        lemma_sum_bounds(s);
        let n = s.len() as int;
        let t = sum(s);
        if t >= 0 {
            assert(t / n <= 0x7fff_ffff) by (nonlinear_arith)
                requires
                    n > 0,
                    0 <= t <= 0x7fff_ffff * n,
            ;
            assert(t / n >= 0) by (nonlinear_arith)
                requires
                    n > 0,
                    0 <= t,
            ;
        } else {
            assert(0 <= (-t) / n <= 0x8000_0000) by (nonlinear_arith)
                requires
                    n > 0,
                    0 <= -t <= 0x8000_0000 * n,
            ;
        }
    }
}

/// Appends `value` to `queue` and keeps the newest `cap` entries.
pub fn queue_push<T>(queue: &mut VecDeque<T>, cap: usize, value: T)
    ensures
        final(queue)@ == keep_last(old(queue)@.push(value), cap as nat),
{
    let ghost before = queue@;
    let ghost target = keep_last(before.push(value), cap as nat);
    if cap == 0 {
        queue.clear();
        assert(queue@ =~= target);
        return ;
    }
    while queue.len() >= cap
        invariant
            cap > 0,
            queue@.len() <= before.len(),
            queue@ == before.subrange(before.len() - queue@.len(), before.len() as int),
            queue@.len() == before.len() || queue@.len() + 1 >= cap,
        decreases queue@.len(),
    {
        let _ = queue.pop_front();
    }
    queue.push_back(value);
    assert(queue@ =~= target);
}

/// The mean of the entries of `queue`, rounded toward zero; 0 if it is empty.
pub fn queue_average(queue: &VecDeque<i32>) -> (avg: i32)
    ensures
        avg == mean(queue@),
{
    let n = queue.len();
    if n == 0 {
        return 0;
    }
    let mut total: i128 = 0;
    let mut i: usize = 0;
    while i < n
        invariant
            n == queue@.len(),
            i <= n,
            total == sum(queue@.subrange(0, i as int)),
        decreases n - i,
    {
        proof {
            lemma_sum_bounds(queue@.subrange(0, i as int));
            assert(queue@.subrange(0, i + 1).drop_last() == queue@.subrange(0, i as int));
        }
        total = total + (queue[i] as i128);
        i = i + 1;
    }
    proof {
        assert(queue@.subrange(0, n as int) == queue@);
        lemma_sum_bounds(queue@);
        lemma_mean_bounds(queue@);
    }
    let len = n as i128;
    let q: i128 = if total >= 0 {
        total / len
    } else {
        -((-total) / len)
    };
    q as i32
}

/// What a window of capacity `cap` holds after `values` were pushed into it
/// one by one, starting from `start`.
pub open spec fn push_all<T>(start: Seq<T>, cap: nat, values: Seq<T>) -> Seq<T>
    decreases values.len(),
{
    if values.len() == 0 {
        start
    } else {
        keep_last(push_all(start, cap, values.drop_last()).push(values.last()), cap)
    }
}

/// After any number of pushes into an empty window of capacity `cap`, the
/// window holds the last `cap` of the pushed values in the order of the
/// pushes, or all of them if they were fewer.
pub proof fn lemma_pushes_keep_newest<T>(cap: nat, values: Seq<T>)
    ensures
        push_all(Seq::<T>::empty(), cap, values) == keep_last(values, cap),
        push_all(Seq::<T>::empty(), cap, values).len() == if values.len() <= cap {
            values.len()
        } else {
            cap
        },
    decreases values.len(),
{
    if values.len() > 0 {
        lemma_pushes_keep_newest(cap, values.drop_last());
        let before = keep_last(values.drop_last(), cap);
        assert(values.drop_last().push(values.last()) == values);
        assert(keep_last(before.push(values.last()), cap) =~= keep_last(values, cap));
    } else {
        assert(keep_last(values, cap) =~= values);
    }
}

/// A FIFO buffer of readings with a capacity fixed when it is made.  It
/// never holds more than its capacity: a push into a full window drops the
/// oldest reading.
pub struct BoundedWindow {
    items: VecDeque<i32>,
    cap: usize,
}

impl View for BoundedWindow {
    type V = Seq<i32>;

    closed spec fn view(&self) -> Seq<i32> {
        self.items@
    }
}

impl BoundedWindow {
    #[verifier::type_invariant]
    spec fn within_capacity(self) -> bool {
        self.items@.len() <= self.cap
    }

    /// The capacity of the window.
    pub closed spec fn cap(self) -> nat {
        self.cap as nat
    }

    /// An empty window of the given capacity.
    pub fn new(cap: usize) -> (w: Self)
        ensures
            w@ == Seq::<i32>::empty(),
            w.cap() == cap,
    {
        BoundedWindow { items: VecDeque::with_capacity(cap), cap }
    }

    /// Appends `value`; the oldest readings leave so that no more than the
    /// capacity remain.
    pub fn push(&mut self, value: i32)
        ensures
            final(self)@ == keep_last(old(self)@.push(value), old(self).cap()),
            final(self).cap() == old(self).cap(),
    {
        let mut items: VecDeque<i32> = VecDeque::new();
        std::mem::swap(&mut self.items, &mut items);
        queue_push(&mut items, self.cap, value);
        std::mem::swap(&mut self.items, &mut items);
    }

    /// The mean of the readings, rounded toward zero; 0 for an empty window.
    pub fn average(&self) -> (avg: i32)
        ensures
            avg == mean(self@),
    {
        queue_average(&self.items)
    }

    /// The number of readings in the window, never above the capacity.
    pub fn len(&self) -> (n: usize)
        ensures
            n == self@.len(),
            n <= self.cap(),
    {
        proof {
            use_type_invariant(self);
        }
        self.items.len()
    }

    /// The capacity that the window was made with.
    pub fn capacity(&self) -> (c: usize)
        ensures
            c == self.cap(),
    {
        self.cap
    }

    /// The readings, the oldest first.
    pub fn items(&self) -> (items: &VecDeque<i32>)
        ensures
            items@ == self@,
    {
        &self.items
    }

    /// The reading at position `i`, the oldest being at 0.
    pub fn get(&self, i: usize) -> (value: Option<i32>)
        ensures
            value == if i < self@.len() {
                Some(self@[i as int])
            } else {
                None
            },
    {
        if i < self.items.len() {
            Some(self.items[i])
        } else {
            None
        }
    }
}

} // verus!
