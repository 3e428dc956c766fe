//! Extended forms of `std::borrow::Cow`.

use vstd::prelude::*;

verus! {

/// Either a borrowed `&'a T` or an owned `Box<T>`.
///
/// This exists because `std::borrow::Cow<'a, Foo>` holds an `Owned(Foo)`
/// instead of an `Owned(Box<Foo>)`, which cannot work when the `Cow` is a
/// field of `Foo` itself.
#[derive(Debug)]
pub enum CowRef<'a, T> {
    Borrowed(&'a T),
    Owned(Box<T>),
}

impl<'a, T> CowRef<'a, T> {
    /// The value that this stands for.
    pub open spec fn value(&self) -> T {
        match self {
            CowRef::Borrowed(r) => **r,
            CowRef::Owned(b) => **b,
        }
    }

    /// The value: a copy of it where it is borrowed, and the value itself
    /// where it is owned.
    pub fn into_owned(self) -> (r: T) where T: Clone
        ensures
            match self {
                CowRef::Borrowed(b) => cloned::<T>(*b, r),
                CowRef::Owned(b) => r == *b,
            },
    {
        match self {
            CowRef::Borrowed(r) => r.clone(),
            CowRef::Owned(b) => *b,
        }
    }

    /// The value, borrowed.
    pub fn get(&self) -> (r: &T)
        ensures
            *r == self.value(),
    {
        match self {
            CowRef::Borrowed(r) => r,
            CowRef::Owned(b) => &**b,
        }
    }

    /// A `CowRef` that borrows `r`.
    pub fn borrowed(r: &'a T) -> (c: Self)
        ensures
            c == CowRef::Borrowed(r),
    {
        CowRef::Borrowed(r)
    }

    /// A `CowRef` that owns `b`.
    pub fn owned(b: Box<T>) -> (c: Self)
        ensures
            c == CowRef::<'a, T>::Owned(b),
    {
        CowRef::Owned(b)
    }
}

/// Either a borrowed `&'a [T]` or an owned `Vec<T>`.
#[derive(Debug)]
pub enum CowSlice<'a, T> {
    Borrowed(&'a [T]),
    Owned(Vec<T>),
}

impl<'a, T> CowSlice<'a, T> {
    /// The elements that this stands for.
    pub open spec fn elements(&self) -> Seq<T> {
        match self {
            CowSlice::Borrowed(s) => s@,
            CowSlice::Owned(v) => v@,
        }
    }

    /// The elements: copies of them where they are borrowed, and the
    /// elements themselves where they are owned.
    pub fn into_owned(self) -> (r: Vec<T>) where T: Clone
        ensures
            r@.len() == self.elements().len(),
            match self {
                CowSlice::Borrowed(s) => forall|i: int|
                    0 <= i < s@.len() ==> cloned::<T>(s@[i], #[trigger] r@[i]),
                CowSlice::Owned(v) => r == v,
            },
    {
        match self {
            CowSlice::Borrowed(s) => {
                let mut out: Vec<T> = Vec::new();
                let mut i: usize = 0;
                while i < s.len()
                    invariant
                        i <= s@.len(),
                        out@.len() == i,
                        forall|j: int| 0 <= j < i ==> cloned::<T>(s@[j], #[trigger] out@[j]),
                    decreases s.len() - i,
                {
                    out.push(s[i].clone());
                    i += 1;
                }
                out
            },
            CowSlice::Owned(v) => v,
        }
    }

    /// The elements, borrowed.
    pub fn as_slice(&self) -> (r: &[T])
        ensures
            r@ == self.elements(),
    {
        match self {
            CowSlice::Borrowed(s) => s,
            CowSlice::Owned(v) => v.as_slice(),
        }
    }

    /// A `CowSlice` that borrows `s`.
    pub fn borrowed(s: &'a [T]) -> (c: Self)
        ensures
            c == CowSlice::Borrowed(s),
    {
        CowSlice::Borrowed(s)
    }

    /// A `CowSlice` that owns `v`.
    pub fn owned(v: Vec<T>) -> (c: Self)
        ensures
            c == CowSlice::<'a, T>::Owned(v),
    {
        CowSlice::Owned(v)
    }
}

} // verus!
