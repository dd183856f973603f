//! Short lists of node indices, kept inline while they are small.

use smallvec::SmallVec;
use vstd::prelude::*;

verus! {

/// An ordered list of indices into an arena. Up to eight of them are stored
/// without an allocation of their own.
#[verifier::external_body]
#[derive(Debug)]
pub struct IdList {
    inner: SmallVec<[usize; 8]>,
}

/// The indices that a list holds, in order.
pub uninterp spec fn id_list_items(list: IdList) -> Seq<usize>;

/// `SmallVec::new`: a vector without any item.
#[verifier::external_body]
fn small_new() -> (list: IdList)
    ensures
        id_list_items(list) == Seq::<usize>::empty(),
{
    IdList { inner: SmallVec::new() }
}

/// `SmallVec::push`: the item is appended behind those that are there. As
/// with `Vec::push`, only running out of memory stops it.
#[verifier::external_body]
fn small_push(list: &mut IdList, item: usize)
    ensures
        id_list_items(*final(list)) == id_list_items(*old(list)).push(item),
{
    list.inner.push(item)
}

/// `SmallVec::len`: the number of items stored.
#[verifier::external_body]
fn small_len(list: &IdList) -> (n: usize)
    ensures
        n == id_list_items(*list).len(),
{
    list.inner.len()
}

/// Indexing a `SmallVec` through its slice: the item at position `i`, for
/// an `i` below the length.
#[verifier::external_body]
fn small_get(list: &IdList, i: usize) -> (item: usize)
    requires
        i < id_list_items(*list).len(),
    ensures
        item == id_list_items(*list)[i as int],
{
    list.inner[i]
}

/// `SmallVec::clone`: a vector with the same items in the same order.
#[verifier::external_body]
fn small_clone(list: &IdList) -> (copy: IdList)
    ensures
        id_list_items(copy) == id_list_items(*list),
{
    IdList { inner: list.inner.clone() }
}

impl View for IdList {
    type V = Seq<usize>;

    closed spec fn view(&self) -> Seq<usize> {
        id_list_items(*self)
    }
}

impl IdList {
    /// An empty list.
    pub fn new() -> (list: Self)
        ensures
            list@ == Seq::<usize>::empty(),
    {
        small_new()
    }

    /// Appends `item`.
    pub fn push(&mut self, item: usize)
        ensures
            final(self)@ == old(self)@.push(item),
    {
        small_push(self, item)
    }

    /// The number of items.
    pub fn len(&self) -> (n: usize)
        ensures
            n == self@.len(),
    {
        small_len(self)
    }

    /// Whether the list holds nothing.
    pub fn is_empty(&self) -> (b: bool)
        ensures
            b == (self@.len() == 0),
    {
        small_len(self) == 0
    }

    /// The item at position `i`, if the list is that long.
    pub fn get(&self, i: usize) -> (item: Option<usize>)
        ensures
            item == if i < self@.len() {
                Some(self@[i as int])
            } else {
                None
            },
    {
        if i < small_len(self) {
            Some(small_get(self, i))
        } else {
            None
        }
    }

    /// The last item, if there is one.
    pub fn last(&self) -> (item: Option<usize>)
        ensures
            item == if self@.len() > 0 {
                Some(self@.last())
            } else {
                None
            },
    {
        let n = small_len(self);
        if n > 0 {
            Some(small_get(self, n - 1))
        } else {
            None
        }
    }

    /// The items as a vector.
    pub fn to_vec(&self) -> (v: Vec<usize>)
        ensures
            v@ == self@,
    {
        let n = small_len(self);
        let mut v: Vec<usize> = Vec::new();
        let mut i: usize = 0;
        while i < n
            invariant
                i <= n == self@.len(),
                v@ == self@.take(i as int),
            decreases n - i,
        {
            assert(self@.take(i + 1) == self@.take(i as int).push(self@[i as int]));
            v.push(small_get(self, i));
            i += 1;
        }
        assert(self@.take(n as int) == self@);
        v
    }
}

impl Clone for IdList {
    fn clone(&self) -> (copy: Self)
        ensures
            copy@ == self@,
    {
        small_clone(self)
    }
}

} // verus!
