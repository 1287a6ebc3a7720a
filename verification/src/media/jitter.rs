//! The bounded sample queue between the network and the audio output.
use vstd::prelude::*;
use std::collections::VecDeque;

verus! {

/// A FIFO of at most `max_size` samples. When new samples would overflow it,
/// the oldest ones are dropped first.
pub struct JitterBuffer<T> {
    samples: VecDeque<T>,
    max_size: usize,
}

impl<T> JitterBuffer<T> {
    /// The buffer holds no more than its capacity.
    pub open spec fn wf(&self) -> bool {
        self.contents().len() <= self.capacity()
    }

    /// The buffered samples, oldest first.
    pub closed spec fn contents(&self) -> Seq<T> {
        self.samples@
    }

    /// The most samples the buffer holds.
    pub closed spec fn capacity(&self) -> nat {
        self.max_size as nat
    }
}

/// What the buffer holds after `push`: the old samples and the new ones,
/// without the oldest beyond `max` samples.
pub open spec fn after_push<T>(old: Seq<T>, data: Seq<T>, max: nat) -> Seq<T> {
    let all = old + data;
    if all.len() > max {
        all.subrange(all.len() - max, all.len() as int)
    } else {
        all
    }
}

/// The newest samples are always kept and the oldest go first: after a push
/// the buffer holds, within its capacity, the last samples of the old ones
/// followed by the new ones, so that they come out in the order they went in.
pub proof fn lemma_after_push<T>(old: Seq<T>, data: Seq<T>, max: nat)
    requires
        old.len() <= max,
        data.len() <= max,
    ensures
        ({
            let all = old + data;
            let r = after_push(old, data, max);
            &&& r.len() == if all.len() > max { max as int } else { all.len() as int }
            &&& r == all.skip(all.len() - r.len())
            &&& r.skip(r.len() - data.len()) == data
        }),
{
    let all = old + data;
    let r = after_push(old, data, max);
    assert(r == all.skip(all.len() - r.len()));
    assert(r.skip(r.len() - data.len()) == data);
}

impl<T: Copy> JitterBuffer<T> {
    /// An empty buffer that holds at most `max_size` samples.
    pub fn new(max_size: usize) -> (b: Self)
        ensures
            b.contents() == Seq::<T>::empty(),
            b.capacity() == max_size,
            b.wf(),
    {
        Self { samples: VecDeque::with_capacity(max_size), max_size }
    }

    /// Appends `data`, first dropping as many of the oldest samples as needed to
    /// stay within capacity. `data` itself must fit in the buffer.
    pub fn push(&mut self, data: Vec<T>)
        requires
            old(self).wf(),
            data@.len() <= old(self).capacity(),
        ensures
            final(self).capacity() == old(self).capacity(),
            final(self).contents() == after_push(old(self).contents(), data@, old(self).capacity()),
            final(self).wf(),
    {
        let ghost all = self.samples@ + data@;
        let len = self.samples.len();
        if data.len() > self.max_size - len {
            let to_remove = data.len() - (self.max_size - len);
            let mut k: usize = 0;
            while k < to_remove
                invariant
                    to_remove <= len,
                    len == old(self).samples@.len(),
                    self.max_size == old(self).max_size,
                    k <= to_remove,
                    self.samples@ == old(self).samples@.subrange(k as int, len as int),
                decreases to_remove - k,
            {
                let _ = self.samples.pop_front();
                k = k + 1;
            }
        }
        let ghost kept = self.samples@;
        let mut i: usize = 0;
        while i < data.len()
            invariant
                self.max_size == old(self).max_size,
                i <= data@.len(),
                kept.len() + data@.len() <= self.max_size,
                self.samples@ == kept + data@.subrange(0, i as int),
            decreases data@.len() - i,
        {
            self.samples.push_back(data[i]);
            assert(data@.subrange(0, i + 1) == data@.subrange(0, i as int).push(data@[i as int]));
            i = i + 1;
        }
        assert(data@.subrange(0, data@.len() as int) == data@);
        assert(self.samples@ == after_push(old(self).samples@, data@, self.max_size as nat));
    }

    /// Removes and returns the `count` oldest samples, or all of them when
    /// there are fewer.
    pub fn pop(&mut self, count: usize) -> (r: Vec<T>)
        requires
            old(self).wf(),
        ensures
            final(self).capacity() == old(self).capacity(),
            r@ == old(self).contents().take(
                if count <= old(self).contents().len() {
                    count as int
                } else {
                    old(self).contents().len() as int
                },
            ),
            final(self).contents() == old(self).contents().skip(r@.len() as int),
            final(self).wf(),
    {
        let actual = if count < self.samples.len() {
            count
        } else {
            self.samples.len()
        };
        let mut r: Vec<T> = Vec::new();
        let mut k: usize = 0;
        while k < actual
            invariant
                actual <= old(self).samples@.len(),
                self.max_size == old(self).max_size,
                k <= actual,
                r@ == old(self).samples@.take(k as int),
                self.samples@ == old(self).samples@.skip(k as int),
            decreases actual - k,
        {
            match self.samples.pop_front() {
                Some(x) => {
                    r.push(x);
                },
                None => {},
            }
            assert(old(self).samples@.take(k + 1) == old(self).samples@.take(k as int).push(
                old(self).samples@[k as int],
            ));
            k = k + 1;
        }
        r
    }
}

} // verus!
