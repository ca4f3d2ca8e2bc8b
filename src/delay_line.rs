//! The ring buffer behind every delay-line module: the newest sample at the
//! head, older ones behind it, and a length that never passes the capacity
//! fixed at construction. The samples are of the host's type `T`.
use std::collections::VecDeque;
use vstd::prelude::*;

verus! {

/// The sample `i` places behind the head, if the line is that long.
pub open spec fn spec_tap<T>(line: Seq<T>, i: int) -> Option<T> {
    if 0 <= i < line.len() {
        Some(line[i])
    } else {
        None
    }
}

/// The line without the sample `i` places behind the head, if there is one.
pub open spec fn spec_take<T>(line: Seq<T>, i: int) -> Seq<T> {
    if 0 <= i < line.len() {
        line.remove(i)
    } else {
        line
    }
}

/// The line with `v` at the head, the oldest sample dropped when it is full.
pub open spec fn spec_push<T>(line: Seq<T>, v: T, capacity: nat) -> Seq<T> {
    let grown = seq![v] + line;
    if grown.len() > capacity {
        grown.take(capacity as int)
    } else {
        grown
    }
}

/// One tick of a delay read at `i`: the sample there is taken out and `v`
/// goes in at the head.
pub open spec fn spec_tick<T>(line: Seq<T>, i: int, v: T, capacity: nat) -> Seq<T> {
    spec_push(spec_take(line, i), v, capacity)
}

/// Ticks that push each of `vs` in turn, reading at `i`.
pub open spec fn spec_run<T>(line: Seq<T>, i: int, vs: Seq<T>, capacity: nat) -> Seq<T>
    decreases vs.len(),
{
    if vs.len() == 0 {
        line
    } else {
        spec_tick(spec_run(line, i, vs.drop_last(), capacity), i, vs.last(), capacity)
    }
}

pub struct DelayLine<T> {
    buffer: VecDeque<T>,
    capacity: usize,
}

impl<T> View for DelayLine<T> {
    type V = Seq<T>;

    closed spec fn view(&self) -> Seq<T> {
        self.buffer@
    }
}

impl<T> DelayLine<T> {
    pub closed spec fn spec_capacity(&self) -> nat {
        self.capacity as nat
    }

    pub open spec fn wf(&self) -> bool {
        &&& self.spec_capacity() > 0
        &&& self@.len() <= self.spec_capacity()
    }

    /// An empty line holding at most `capacity` samples, all of its storage
    /// taken now.
    pub fn new(capacity: usize) -> (r: DelayLine<T>)
        requires
            capacity > 0,
        ensures
            r@ == Seq::<T>::empty(),
            r.spec_capacity() == capacity,
            r.wf(),
    {
        DelayLine { buffer: VecDeque::with_capacity(capacity), capacity }
    }

    pub fn len(&self) -> (r: usize)
        ensures
            r == self@.len(),
    {
        self.buffer.len()
    }

    pub fn capacity(&self) -> (r: usize)
        ensures
            r == self.spec_capacity(),
    {
        self.capacity
    }

    /// The sample `i` places behind the head.
    pub fn tap(&self, i: usize) -> (r: Option<T>)
        where
            T: Copy,
        ensures
            r == spec_tap(self@, i as int),
    {
        if i < self.buffer.len() {
            Some(self.buffer[i])
        } else {
            None
        }
    }

    /// Takes out the sample `i` places behind the head; the older ones move
    /// up by one.
    pub fn take(&mut self, i: usize) -> (r: Option<T>)
        requires
            old(self).wf(),
        ensures
            r == spec_tap(old(self)@, i as int),
            final(self)@ == spec_take(old(self)@, i as int),
            final(self).spec_capacity() == old(self).spec_capacity(),
            final(self).wf(),
    {
        self.buffer.remove(i)
    }

    /// Puts `v` at the head; a full line drops its oldest sample.
    pub fn push(&mut self, v: T)
        requires
            old(self).wf(),
        ensures
            final(self)@ == spec_push(old(self)@, v, old(self).spec_capacity()),
            final(self).spec_capacity() == old(self).spec_capacity(),
            final(self).wf(),
    {
        self.buffer.push_front(v);
        if self.buffer.len() > self.capacity {
            self.buffer.pop_back();
            assert(self.buffer@ =~= (seq![v] + old(self)@).take(self.capacity as int));
        }
    }

    /// Keeps only the `n` newest samples.
    pub fn truncate(&mut self, n: usize)
        requires
            old(self).wf(),
        ensures
            final(self)@ == if n < old(self)@.len() {
                old(self)@.take(n as int)
            } else {
                old(self)@
            },
            final(self).spec_capacity() == old(self).spec_capacity(),
            final(self).wf(),
    {
        self.buffer.truncate(n);
    }
}

proof fn lemma_echo_position<T>(line: Seq<T>, d: nat, x: T, vs: Seq<T>, capacity: nat, j: nat)
    requires
        1 <= d <= capacity,
        line.len() <= capacity,
        j < d,
        j <= vs.len(),
    ensures
        ({
            let l = spec_run(spec_tick(line, d - 1, x, capacity), d - 1, vs.take(j as int), capacity);
            &&& j < l.len()
            &&& l[j as int] == x
            &&& l.len() <= capacity
        }),
    decreases j,
{
    let first = spec_tick(line, d - 1, x, capacity);
    if j == 0 {
        assert(vs.take(0) =~= Seq::<T>::empty());
        assert(first[0] == x);
    } else {
        lemma_echo_position(line, d, x, vs, capacity, (j - 1) as nat);
        assert(vs.take(j as int).drop_last() =~= vs.take(j - 1));
        let prev = spec_run(first, d - 1, vs.take(j - 1), capacity);
        let taken = spec_take(prev, d - 1);
        assert(taken[j - 1] == x);
        assert(taken.len() >= j);
    }
}

/// A sample pushed into a line that is read `d - 1` places behind the head
/// on every tick comes out of that read exactly `d` ticks later, whatever was
/// in the line before and whatever is pushed in between.
pub proof fn law_echo_after_delay<T>(line: Seq<T>, d: nat, x: T, vs: Seq<T>, capacity: nat)
    requires
        1 <= d <= capacity,
        line.len() <= capacity,
        vs.len() == d - 1,
    ensures
        spec_tap(spec_run(spec_tick(line, d - 1, x, capacity), d - 1, vs, capacity), d - 1) == Some(
            x,
        ),
{
    lemma_echo_position(line, d, x, vs, capacity, (d - 1) as nat);
    assert(vs.take(vs.len() as int) =~= vs);
}

} // verus!
