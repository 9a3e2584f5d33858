//! A stack of reusable values, such as GPU buffers that a frame hands back once
//! the GPU is done with them.
use vstd::prelude::*;

verus! {

/// What taking from a pool holding `s` gives: the value given back last, and the rest.
pub open spec fn pool_take<T>(s: Seq<T>) -> (Option<T>, Seq<T>) {
    if s.len() == 0 {
        (None, s)
    } else {
        (Some(s.last()), s.drop_last())
    }
}

/// A pool holding `s` after `value` is given back.
pub open spec fn pool_give_back<T>(s: Seq<T>, value: T) -> Seq<T> {
    s.push(value)
}

/// A last-in, first-out store of values waiting to be used again.
pub struct Pool<T> {
    items: Vec<T>,
}

impl<T> View for Pool<T> {
    type V = Seq<T>;

    closed spec fn view(&self) -> Seq<T> {
        self.items@
    }
}

impl<T> Pool<T> {
    /// An empty pool.
    pub fn new() -> (p: Pool<T>)
        ensures
            p@ == Seq::<T>::empty(),
    {
        Pool { items: Vec::new() }
    }

    /// Takes the value that was given back last, if any.
    pub fn take(&mut self) -> (r: Option<T>)
        ensures
            (r, final(self)@) == pool_take(old(self)@),
    {
        self.items.pop()
    }

    /// Gives a value back for later use.
    pub fn give_back(&mut self, value: T)
        ensures
            final(self)@ == pool_give_back(old(self)@, value),
    {
        self.items.push(value)
    }

    /// The number of values waiting in the pool.
    pub fn len(&self) -> (n: usize)
        ensures
            n == self@.len(),
    {
        self.items.len()
    }
}

/// Taking right after giving back returns the value just given and leaves the
/// pool as it was.
pub proof fn lemma_give_back_then_take<T>(s: Seq<T>, value: T)
    ensures
        pool_take(pool_give_back(s, value)) == (Some(value), s),
{
    assert(s.push(value).drop_last() =~= s);
}

/// Taking from an empty pool gives nothing and changes nothing.
pub proof fn lemma_take_empty<T>()
    ensures
        pool_take(Seq::<T>::empty()) == (None::<T>, Seq::<T>::empty()),
{
}

} // verus!
