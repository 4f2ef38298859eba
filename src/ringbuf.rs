//! A fixed-capacity ring of values with a moving current slot.

use vstd::prelude::*;

verus! {

/// `CAP` slots, one of which is current; `next` moves to the following slot
/// and wraps around.
#[derive(Debug, Clone)]
pub struct RingBuffer<T, const CAP: usize> {
    data: Vec<T>,
    index: usize,
}

impl<T: Copy + Default, const CAP: usize> RingBuffer<T, CAP> {
    /// The slots, in storage order.
    pub closed spec fn slots(&self) -> Seq<T> {
        self.data@
    }

    /// The current slot.
    pub closed spec fn cursor(&self) -> nat {
        self.index as nat
    }

    pub closed spec fn wf(&self) -> bool {
        &&& CAP > 0
        &&& self.data@.len() == CAP
        &&& self.index < CAP
    }

    /// The slot before the current one, wrapping around.
    pub open spec fn previous(&self) -> nat {
        if self.cursor() >= 1 {
            (self.cursor() - 1) as nat
        } else {
            (CAP - 1) as nat
        }
    }

    /// A ring whose slots all hold the default value; slot 0 is current.
    pub fn new() -> (r: Self)
        requires
            CAP > 0,
        ensures
            r.wf(),
            r.cursor() == 0,
            r.slots().len() == CAP,
    {
        let mut data: Vec<T> = Vec::new();
        let mut i: usize = 0;
        while i < CAP
            invariant
                i <= CAP,
                data@.len() == i,
            decreases CAP - i,
        {
            data.push(T::default());
            i = i + 1;
        }
        RingBuffer { data, index: 0 }
    }

    /// A ring over the slots `data` whose slot `index` is current.
    pub fn new_from(data: [T; CAP], index: usize) -> (r: Self)
        requires
            CAP > 0,
            index < CAP,
        ensures
            r.wf(),
            r.cursor() == index,
            r.slots() == data@,
    {
        let mut slots: Vec<T> = Vec::new();
        let mut i: usize = 0;
        while i < CAP
            invariant
                i <= CAP,
                data@.len() == CAP,
                slots@ == data@.subrange(0, i as int),
            decreases CAP - i,
        {
            slots.push(data[i]);
            i = i + 1;
            assert(slots@ =~= data@.subrange(0, i as int));
        }
        assert(data@.subrange(0, CAP as int) =~= data@);
        RingBuffer { data: slots, index }
    }

    /// The current slot's value.
    pub fn current(&self) -> (r: &T)
        requires
            self.wf(),
        ensures
            *r == self.slots()[self.cursor() as int],
    {
        &self.data[self.index]
    }

    /// The value of the slot before the current one.
    pub fn last(&self) -> (r: &T)
        requires
            self.wf(),
        ensures
            *r == self.slots()[self.previous() as int],
    {
        &self.data[Self::wrapping_sub(self.index, 1)]
    }

    /// The current slot, to be written.
    pub fn current_mut(&mut self) -> (r: &mut T)
        requires
            old(self).wf(),
        ensures
            *r == old(self).slots()[old(self).cursor() as int],
            final(self).wf(),
            final(self).cursor() == old(self).cursor(),
            final(self).slots() == old(self).slots().update(old(self).cursor() as int, *final(r)),
    {
        &mut self.data[self.index]
    }

    /// The slot before the current one, to be written.
    pub fn last_mut(&mut self) -> (r: &mut T)
        requires
            old(self).wf(),
        ensures
            *r == old(self).slots()[old(self).previous() as int],
            final(self).wf(),
            final(self).cursor() == old(self).cursor(),
            final(self).slots() == old(self).slots().update(old(self).previous() as int, *final(r)),
    {
        let i = Self::wrapping_sub(self.index, 1);
        &mut self.data[i]
    }

    /// Makes the following slot current.
    pub fn next(&mut self)
        requires
            old(self).wf(),
        ensures
            final(self).wf(),
            final(self).slots() == old(self).slots(),
            final(self).cursor() as int == ((old(self).cursor() + 1) as int) % (CAP as int),
    {
        self.index = Self::wrapping_add(self.index, 1);
    }

    /// The number of the current slot.
    pub fn index(&self) -> (r: usize)
        ensures
            r == self.cursor(),
    {
        self.index
    }

    /// `a + b`, wrapped into `0..CAP`.
    fn wrapping_add(a: usize, b: usize) -> (r: usize)
        requires
            CAP > 0,
            a + b <= usize::MAX,
        ensures
            r == (a + b) % (CAP as int),
    {
        (a + b) % CAP
    }

    /// `a - b`, wrapped into `0..CAP`.
    fn wrapping_sub(a: usize, b: usize) -> (r: usize)
        requires
            CAP > 0,
            a < CAP,
            b <= CAP,
        ensures
            r == if a >= b {
                a - b
            } else {
                CAP + a - b
            },
            r < CAP,
    {
        if a >= b {
            a - b
        } else {
            CAP - (b - a)
        }
    }
}

impl<T: Copy + Default, const CAP: usize> Default for RingBuffer<T, CAP> {
    fn default() -> (r: Self) {
        let mut data: Vec<T> = Vec::new();
        let mut i: usize = 0;
        while i < CAP
            invariant
                i <= CAP,
                data@.len() == i,
            decreases CAP - i,
        {
            data.push(T::default());
            i = i + 1;
        }
        RingBuffer { data, index: 0 }
    }
}

} // verus!
