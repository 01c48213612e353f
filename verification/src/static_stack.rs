//! A fixed-capacity, index-addressable stack of copyable values.
//!
//! The cursor `ptr` is signed so that `-1` can denote the empty stack.
//! Operand evaluation and call-frame local storage both live on such a
//! stack, so elements are addressed both from the top (`peek_back`) and
//! absolutely (`at`, `set_at`).

use vstd::prelude::*;
use vstd::std_specs::cmp::PartialEqSpec;
use vstd::std_specs::cmp::PartialEqSpecImpl;

verus! {

pub struct StaticStack<T, const MAX: usize> {
    pub vec: Vec<T>,
    pub ptr: i32,
}

impl<T, const MAX: usize> View for StaticStack<T, MAX> {
    type V = Seq<T>;

    open spec fn view(&self) -> Seq<T> {
        self.vec@
    }
}

impl<T: Copy, const MAX: usize> StaticStack<T, MAX> {
    /// The cursor mirrors the number of live elements and the capacity is
    /// never exceeded; `ptr` stays within `-1 .. MAX`.
    pub open spec fn wf(&self) -> bool {
        &&& self.ptr as int == self@.len() - 1
        &&& self@.len() <= MAX
        &&& MAX as int <= i32::MAX as int
    }

    pub fn new() -> (s: Self)
        requires
            MAX as int <= i32::MAX as int,
        ensures
            s.wf(),
            s@ == Seq::<T>::empty(),
    {
        StaticStack { vec: Vec::new(), ptr: -1 }
    }

    pub fn from<const N: usize>(values: [T; N]) -> (s: Self)
        requires
            N <= MAX,
            MAX as int <= i32::MAX as int,
        ensures
            s.wf(),
            s@ == values@,
    {
        let mut s: Self = Self::new();
        let mut i: usize = 0;
        while i < N
            invariant
                i <= N,
                s.wf(),
                s@ == values@.subrange(0, i as int),
            decreases N - i,
        {
            s.push(values[i]);
            i = i + 1;
        }
        assert(s@ =~= values@);
        s
    }

    pub fn push(&mut self, value: T)
        requires
            old(self).wf(),
            old(self)@.len() < MAX,
        ensures
            final(self).wf(),
            final(self)@ == old(self)@.push(value),
    {
        self.ptr = self.ptr + 1;
        self.vec.push(value);
    }

    pub fn pop(&mut self) -> (r: Option<T>)
        requires
            old(self).wf(),
        ensures
            final(self).wf(),
            old(self)@.len() == 0 ==> r is None && final(self)@ == old(self)@,
            old(self)@.len() > 0 ==> r == Some(old(self)@.last()) && final(self)@ == old(self)@.drop_last(),
    {
        if self.ptr == -1 {
            return None;
        }
        self.ptr = self.ptr - 1;
        self.vec.pop()
    }

    pub fn peek_top(&self) -> (r: Option<T>)
        requires
            self.wf(),
        ensures
            self@.len() == 0 ==> r is None,
            self@.len() > 0 ==> r == Some(self@.last()),
    {
        if self.ptr < 0 {
            return None;
        }
        Some(self.vec[self.vec.len() - 1])
    }

    /// The element `back` slots below the top; `peek_back(0)` is the top.
    pub fn peek_back(&self, back: usize) -> (r: Option<T>)
        requires
            self.wf(),
        ensures
            back < self@.len() ==> r == Some(self@[self@.len() - 1 - back]),
            back >= self@.len() ==> r is None,
    {
        if back >= self.vec.len() {
            return None;
        }
        Some(self.vec[self.vec.len() - 1 - back])
    }

    pub fn len(&self) -> (n: usize)
        requires
            self.wf(),
        ensures
            n == self@.len(),
    {
        self.vec.len()
    }

    pub fn at(&self, idx: usize) -> (r: Option<&T>)
        requires
            self.wf(),
        ensures
            idx < self@.len() ==> (r matches Some(v) && *v == self@[idx as int]),
            idx >= self@.len() ==> r is None,
    {
        if idx >= self.vec.len() {
            return None;
        }
        Some(&self.vec[idx])
    }

    /// Overwrites the live slot `idx`; reports whether the slot exists.
    pub fn set_at(&mut self, idx: usize, value: T) -> (r: bool)
        requires
            old(self).wf(),
        ensures
            final(self).wf(),
            idx < old(self)@.len() ==> r && final(self)@ == old(self)@.update(idx as int, value),
            idx >= old(self)@.len() ==> !r && final(self)@ == old(self)@,
    {
        if idx >= self.vec.len() {
            return false;
        }
        self.vec[idx] = value;
        true
    }

    /// Removes the top `n` elements and hands them back in stack order
    /// (bottom-most of the removed elements first).
    pub fn pop_n(&mut self, n: usize) -> (r: Option<Vec<T>>)
        requires
            old(self).wf(),
        ensures
            final(self).wf(),
            n <= old(self)@.len() ==> {
                &&& r matches Some(popped) && popped@ == old(self)@.subrange(
                    old(self)@.len() - n,
                    old(self)@.len() as int,
                )
                &&& final(self)@ == old(self)@.subrange(0, old(self)@.len() - n)
            },
            n > old(self)@.len() ==> r is None && final(self)@ == old(self)@,
    {
        if n > self.vec.len() {
            return None;
        }
        let popped: Vec<T> = self.vec.split_off(self.vec.len() - n);
        self.ptr = self.ptr - n as i32;
        Some(popped)
    }
}


/// Stacks compare by their live prefixes: equal lengths and equal
/// elements, slot by slot.
impl<T: PartialEqSpec, const MAX: usize> PartialEq for StaticStack<T, MAX> {
    fn eq(&self, other: &Self) -> bool {
        if self.vec.len() != other.vec.len() {
            return false;
        }
        let mut i: usize = 0;
        while i < self.vec.len()
            invariant
                i <= self.vec@.len(),
                self.vec@.len() == other.vec@.len(),
                T::obeys_eq_spec() ==> forall|j: int|
                    0 <= j < i ==> self.vec@[j].eq_spec(&other.vec@[j]),
            decreases self.vec@.len() - i,
        {
            if !self.vec[i].eq(&other.vec[i]) {
                return false;
            }
            i = i + 1;
        }
        true
    }
}

impl<T: PartialEqSpec, const MAX: usize> PartialEqSpecImpl for StaticStack<T, MAX> {
    open spec fn obeys_eq_spec() -> bool {
        T::obeys_eq_spec()
    }

    open spec fn eq_spec(&self, other: &Self) -> bool {
        self@.len() == other@.len() && forall|j: int|
            0 <= j < self@.len() ==> self@[j].eq_spec(&other@[j])
    }
}

/// The cursor invariant: `ptr` is at least `-1` (empty) and below the
/// capacity, at every point where the stack is well formed.
pub proof fn lemma_cursor_bounds<T: Copy, const MAX: usize>(s: StaticStack<T, MAX>)
    requires
        s.wf(),
    ensures
        -1 <= s.ptr as int,
        (s.ptr as int) < MAX as int,
{
}

} // verus!
