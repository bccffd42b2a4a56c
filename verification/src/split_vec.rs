//! A vector with a split point: the items before it form the front part,
//! the rest the back part.

use vstd::prelude::*;

verus! {

/// `f` may return `Ok` for `x`.
pub open spec fn maps_to_ok<F: Fn(T) -> Result<U, E>, T, U, E>(f: F, x: T) -> bool {
    exists|u: U| #[trigger] f.ensures((x,), Ok::<U, E>(u))
}

/// A vector together with an index that splits it into a front and a back.
#[derive(Debug)]
pub struct SplitVec<T> {
    inner: Vec<T>,
    split_at: usize,
}

impl<T> SplitVec<T> {
    /// The split point never lies beyond the end.
    #[verifier::type_invariant]
    spec fn well_formed(self) -> bool {
        self.split_at <= self.inner@.len()
    }

    /// All items, in order.
    pub closed spec fn items(self) -> Seq<T> {
        self.inner@
    }

    /// The index of the first item of the back part.
    pub closed spec fn split_index(self) -> nat {
        self.split_at as nat
    }

    /// Splits `vec` before index `split_at`.
    pub fn new(vec: Vec<T>, split_at: usize) -> (res: Self)
        requires
            split_at <= vec@.len(),
        ensures
            res.items() == vec@,
            res.split_index() == split_at,
    {
        Self { inner: vec, split_at }
    }

    /// The item at `index`, with whether it lies in the front part; `None`
    /// past the end.
    pub fn get(&self, index: usize) -> (res: Option<(&T, bool)>)
        ensures
            index < self.items().len() ==> res == Some((&self.items()[index as int], index
                < self.split_index())),
            index >= self.items().len() ==> res is None,
    {
        if index < self.inner.len() {
            Some((&self.inner[index], index < self.split_at))
        } else {
            None
        }
    }

    /// All items, in order.
    pub fn as_slice(&self) -> (res: &[T])
        ensures
            res@ == self.items(),
    {
        self.inner.as_slice()
    }

    /// The index of the first item of the back part.
    pub fn split_at(&self) -> (res: usize)
        ensures
            res == self.split_index(),
            res <= self.items().len(),
    {
        proof {
            use_type_invariant(self);
        }
        self.split_at
    }

    /// The items before the split point.
    pub fn front(&self) -> (res: &[T])
        ensures
            res@ == self.items().take(self.split_index() as int),
    {
        proof {
            use_type_invariant(self);
        }
        vstd::slice::slice_subrange(self.inner.as_slice(), 0, self.split_at)
    }

    /// The items from the split point on.
    pub fn back(&self) -> (res: &[T])
        ensures
            res@ == self.items().skip(self.split_index() as int),
    {
        proof {
            use_type_invariant(self);
        }
        let res = vstd::slice::slice_subrange(self.inner.as_slice(), self.split_at, self.inner.len());
        assert(res@ =~= self.items().skip(self.split_index() as int));
        res
    }

    /// Applies `f` to every item, in order, keeping the split point.
    pub fn mapped<F, U>(self, f: F) -> (res: SplitVec<U>)
        where
            F: Fn(T) -> U,
        requires
            forall|i: int| 0 <= i < self.items().len() ==> f.requires((self.items()[i],)),
        ensures
            res.items().len() == self.items().len(),
            res.split_index() == self.split_index(),
            forall|i: int|
                0 <= i < self.items().len() ==> f.ensures((self.items()[i],), #[trigger] res.items()[i]),
    {
        proof {
            use_type_invariant(&self);
        }
        let ghost items = self.items();
        let split_at = self.split_at;
        let mut out: Vec<U> = Vec::new();
        assert(forall|i: int| 0 <= i < items.len() ==> f.requires((items[i],)));
        for x in it: self.inner.into_iter()
            invariant
                it.seq() == items,
                out@.len() == it.index(),
                forall|i: int| 0 <= i < items.len() ==> f.requires((items[i],)),
                forall|i: int| 0 <= i < out@.len() ==> f.ensures((items[i],), #[trigger] out@[i]),
        {
            out.push(f(x));
        }
        SplitVec { inner: out, split_at }
    }

    /// Applies `f` to every item, in order, keeping the split point; stops
    /// at the first error and returns it.
    pub fn try_mapped<F, U, E>(self, f: F) -> (res: Result<SplitVec<U>, E>)
        where
            F: Fn(T) -> Result<U, E>,
        requires
            forall|i: int| 0 <= i < self.items().len() ==> f.requires((self.items()[i],)),
        ensures
            res matches Ok(v) ==> {
                &&& v.items().len() == self.items().len()
                &&& v.split_index() == self.split_index()
                &&& forall|i: int|
                    0 <= i < self.items().len() ==> f.ensures(
                        (self.items()[i],),
                        Ok::<U, E>(#[trigger] v.items()[i]),
                    )
            },
            res matches Err(e) ==> exists|k: int|
                0 <= k < self.items().len() && f.ensures((self.items()[k],), Err::<U, E>(e))
                    && forall|i: int| 0 <= i < k ==> #[trigger] maps_to_ok(f, self.items()[i]),
    {
        proof {
            use_type_invariant(&self);
        }
        let ghost items = self.items();
        let split_at = self.split_at;
        let mut out: Vec<U> = Vec::new();
        assert(forall|i: int| 0 <= i < items.len() ==> f.requires((items[i],)));
        for x in it: self.inner.into_iter()
            invariant
                it.seq() == items,
                out@.len() == it.index(),
                forall|i: int| 0 <= i < items.len() ==> f.requires((items[i],)),
                forall|i: int|
                    0 <= i < out@.len() ==> f.ensures((items[i],), Ok::<U, E>(#[trigger] out@[i])),
        {
            let ghost k = it.index() as int;
            assert(x == items[k]);
            match f(x) {
                Ok(u) => out.push(u),
                Err(e) => {
                    assert(f.ensures((items[k],), Err::<U, E>(e)));
                    assert forall|i: int| 0 <= i < it.index() implies #[trigger] maps_to_ok(
                        f,
                        items[i],
                    ) by {
                        assert(f.ensures((items[i],), Ok::<U, E>(out@[i])));
                    }
                    assert(0 <= k < self.items().len() && f.ensures((self.items()[k],), Err::<U, E>(e))
                        && forall|i: int| 0 <= i < k ==> #[trigger] maps_to_ok(f, self.items()[i]));
                    return Err(e);
                },
            }
        }
        Ok(SplitVec { inner: out, split_at })
    }
}

/// The front and the back together are all the items, in order.
pub proof fn law_front_back_partition<T>(v: SplitVec<T>)
    requires
        v.split_index() <= v.items().len(),
    ensures
        v.items().take(v.split_index() as int) + v.items().skip(v.split_index() as int)
            == v.items(),
{
    assert(v.items().take(v.split_index() as int) + v.items().skip(v.split_index() as int)
        =~= v.items());
}

} // verus!
