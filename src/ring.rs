//! A fixed-capacity ring of samples that always holds the most recent ones.

use vstd::prelude::*;

verus! {

/// Number of samples in the analyser's trailing window.
pub const RING_CAPACITY: usize = 1025;

/// The last `n` elements of `s`, oldest first.
pub open spec fn recent<T>(s: Seq<T>, n: nat) -> Seq<T>
    recommends
        n <= s.len(),
{
    s.subrange(s.len() - n, s.len() as int)
}

/// Appending one element to a sequence shifts its window of the last `n`
/// elements by one.
pub proof fn lemma_recent_push<T>(s: Seq<T>, x: T, n: nat)
    requires
        0 < n <= s.len(),
    ensures
        recent(s, n).drop_first().push(x) == recent(s.push(x), n),
{
    assert(recent(s, n).drop_first().push(x) =~= recent(s.push(x), n));
}

/// Pushing two blocks one after the other leaves the same window as pushing
/// them as one block: the window runs across block boundaries.
pub proof fn lemma_recent_across_blocks<T>(w: Seq<T>, a: Seq<T>, b: Seq<T>)
    ensures
        recent(recent(w + a, w.len()) + b, w.len()) == recent(w + a + b, w.len()),
{
    assert(recent(recent(w + a, w.len()) + b, w.len()) =~= recent(w + a + b, w.len()));
}

/// A block shorter than the window evicts exactly as many of the oldest
/// samples as it holds; a block at least as long evicts all of them and only
/// its own last samples remain.
pub proof fn lemma_recent_eviction<T>(w: Seq<T>, b: Seq<T>)
    ensures
        b.len() < w.len() ==> recent(w + b, w.len()) == w.subrange(b.len() as int, w.len() as int)
            + b,
        b.len() >= w.len() ==> recent(w + b, w.len()) == recent(b, w.len()),
{
    if b.len() < w.len() {
        assert(recent(w + b, w.len()) =~= w.subrange(b.len() as int, w.len() as int) + b);
    } else {
        assert(recent(w + b, w.len()) =~= recent(b, w.len()));
    }
}

/// Storage index of the `i`-th oldest sample of a ring whose oldest sample
/// sits at `start`.
pub open spec fn slot(start: int, i: int, capacity: int) -> int {
    if start + i < capacity {
        start + i
    } else {
        start + i - capacity
    }
}

/// A ring of `capacity` samples; each push overwrites the oldest one.
pub struct CircularBuffer<T> {
    slots: Vec<T>,
    write_position: usize,
}

impl<T> View for CircularBuffer<T> {
    /// The stored samples, oldest first.
    type V = Seq<T>;

    closed spec fn view(&self) -> Seq<T> {
        Seq::new(
            self.slots@.len(),
            |i: int| self.slots@[slot(self.write_position as int, i, self.slots@.len() as int)],
        )
    }
}

impl<T: Copy> CircularBuffer<T> {
    /// The samples in storage order, which starts anywhere in the history.
    pub closed spec fn stored(&self) -> Seq<T> {
        self.slots@
    }

    /// The slot that the next push writes.
    pub closed spec fn cursor(&self) -> nat {
        self.write_position as nat
    }

    pub closed spec fn wf(&self) -> bool {
        &&& self.slots@.len() > 0
        &&& self.write_position < self.slots@.len()
    }

    /// A ring of the analyser's standard capacity, every slot set to `fill`.
    pub fn new(fill: T) -> (r: Self)
        ensures
            r.wf(),
            r@ == Seq::new(RING_CAPACITY as nat, |_i: int| fill),
            r.stored() == Seq::new(RING_CAPACITY as nat, |_i: int| fill),
            r.cursor() == 0,
    {
        Self::with_capacity(RING_CAPACITY, fill)
    }

    /// A ring of `capacity` slots, every one set to `fill`.
    pub fn with_capacity(capacity: usize, fill: T) -> (r: Self)
        requires
            capacity > 0,
        ensures
            r.wf(),
            r@ == Seq::new(capacity as nat, |_i: int| fill),
            r.stored() == Seq::new(capacity as nat, |_i: int| fill),
            r.cursor() == 0,
    {
        let mut slots: Vec<T> = Vec::new();
        let mut n: usize = 0;
        while n < capacity
            invariant
                n <= capacity,
                slots@ == Seq::new(n as nat, |_i: int| fill),
            decreases capacity - n,
        {
            slots.push(fill);
            n = n + 1;
            assert(slots@ =~= Seq::new(n as nat, |_i: int| fill));
        }
        let r = CircularBuffer { slots, write_position: 0 };
        assert(r@ =~= Seq::new(capacity as nat, |_i: int| fill));
        r
    }

    pub fn capacity(&self) -> (r: usize)
        requires
            self.wf(),
        ensures
            r == self@.len(),
    {
        self.slots.len()
    }

    /// Overwrites the oldest sample, the one in the cursor's slot, with
    /// `sample`, and moves the cursor on by one slot.
    pub fn push(&mut self, sample: T)
        requires
            old(self).wf(),
        ensures
            final(self).wf(),
            final(self)@ == old(self)@.drop_first().push(sample),
            final(self).stored() == old(self).stored().update(old(self).cursor() as int, sample),
            final(self).cursor() == (old(self).cursor() + 1) % old(self)@.len(),
    {
        let ghost before = self@;
        let pos = self.write_position;
        let len = self.slots.len();
        self.slots.set(pos, sample);
        self.write_position = if pos + 1 == len {
            0
        } else {
            pos + 1
        };
        assert(self@ =~= before.drop_first().push(sample));
        proof {
            if pos + 1 == len {
                vstd::arithmetic::div_mod::lemma_mod_self_0(len as int);
            } else {
                vstd::arithmetic::div_mod::lemma_small_mod((pos + 1) as nat, len as nat);
            }
        }
    }

    /// Pushes each of `samples` in order: the ring then holds the most recent
    /// samples of its old contents followed by the block, and the cursor has
    /// moved on by the block's length.
    pub fn push_samples(&mut self, samples: &[T])
        requires
            old(self).wf(),
        ensures
            final(self).wf(),
            final(self)@ == recent(old(self)@ + samples@, old(self)@.len()),
            final(self).cursor() == (old(self).cursor() + samples@.len()) % old(self)@.len(),
    {
        let ghost start = self@;
        let ghost c0 = self.cursor();
        proof {
            vstd::arithmetic::div_mod::lemma_small_mod(c0, start.len());
        }
        let ghost n = start.len();
        let mut i: usize = 0;
        assert(start + samples@.subrange(0, 0) =~= start);
        assert(recent(start, n) =~= start);
        assert(n > 0);
        while i < samples.len()
            invariant
                i <= samples@.len(),
                self.wf(),
                self@.len() == n,
                n == start.len(),
                n > 0,
                self.cursor() == (c0 + i) % (n as int),
                self@ == recent(start + samples@.subrange(0, i as int), n),
            decreases samples@.len() - i,
        {
            let ghost prefix = start + samples@.subrange(0, i as int);
            self.push(samples[i]);
            proof {
                vstd::arithmetic::div_mod::lemma_add_mod_noop_right(1, c0 + i, n as int);
            }
            assert(start + samples@.subrange(0, i + 1) =~= prefix.push(samples@[i as int]));
            proof {
                lemma_recent_push(prefix, samples@[i as int], n);
            }
            i = i + 1;
        }
        assert(samples@.subrange(0, i as int) =~= samples@);
    }

    /// The samples in storage order: the window rotated so that its oldest
    /// sample sits at the cursor.
    pub fn as_slice(&self) -> (r: &[T])
        requires
            self.wf(),
        ensures
            r@ == self.stored(),
            r@.len() == self@.len(),
            self@ == r@.subrange(self.cursor() as int, r@.len() as int) + r@.subrange(
                0,
                self.cursor() as int,
            ),
            r@.to_multiset() == self@.to_multiset(),
    {
        proof {
            self.lemma_window_in_storage();
            self.lemma_stored_rotates_window();
        }
        self.slots.as_slice()
    }

    /// The window starts at the cursor's slot: it is the storage from the
    /// cursor to the end, followed by the storage before the cursor.
    pub proof fn lemma_window_in_storage(&self)
        requires
            self.wf(),
        ensures
            self.stored().len() == self@.len(),
            self.cursor() < self@.len(),
            self@ == self.stored().subrange(self.cursor() as int, self@.len() as int)
                + self.stored().subrange(0, self.cursor() as int),
    {
        let s = self.slots@;
        let c = self.write_position as int;
        assert(self@ =~= s.subrange(c, s.len() as int) + s.subrange(0, c));
    }

    /// The storage is the window rotated, so both hold the same samples.
    proof fn lemma_stored_rotates_window(&self)
        requires
            self.wf(),
        ensures
            self.stored().to_multiset() == self@.to_multiset(),
    {
        let s = self.slots@;
        let c = self.write_position as int;
        let head = s.subrange(0, c);
        let tail = s.subrange(c, s.len() as int);
        assert(s =~= head + tail);
        assert(self@ =~= tail + head);
        vstd::seq_lib::lemma_multiset_commutative(head, tail);
        vstd::seq_lib::lemma_multiset_commutative(tail, head);
    }
}

} // verus!
