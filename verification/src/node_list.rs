//! The argument list of a DAG node: a copy-on-write shared vector of node handles.
use vstd::prelude::*;
use shared_vector::SharedVector;

verus! {

/// A reference counted, copy-on-write list of node handles.
#[verifier::external_body]
pub struct NodeList {
    inner: SharedVector<usize>,
}

/// The handles that a node list holds, in order.
pub uninterp spec fn node_list_items(list: NodeList) -> Seq<usize>;

impl NodeList {
    /// `SharedVector::new`: an empty list.
    #[verifier::external_body]
    pub fn new() -> (r: NodeList)
        ensures
            node_list_items(r) == Seq::<usize>::empty(),
    {
        NodeList { inner: SharedVector::new() }
    }

    /// `SharedVector::len`: the number of handles.
    #[verifier::external_body]
    pub fn len(&self) -> (r: usize)
        ensures
            r == node_list_items(*self).len(),
    {
        self.inner.len()
    }

    /// `SharedVector` indexing: the handle at `i`.
    #[verifier::external_body]
    pub fn get(&self, i: usize) -> (r: usize)
        requires
            i < node_list_items(*self).len(),
        ensures
            r == node_list_items(*self)[i as int],
    {
        self.inner[i]
    }

    /// `SharedVector::push`: appends a handle (copying the buffer first if it is shared).
    #[verifier::external_body]
    pub fn push(&mut self, value: usize)
        requires
            node_list_items(*old(self)).len() < 0xffff_ffff,
        ensures
            node_list_items(*final(self)) == node_list_items(*old(self)).push(value),
    {
        self.inner.push(value)
    }

    /// `SharedVector` mutable indexing: replaces the handle at `i` (copying the buffer first
    /// if it is shared, so other references keep the old contents).
    #[verifier::external_body]
    pub fn set(&mut self, i: usize, value: usize)
        requires
            i < node_list_items(*old(self)).len(),
        ensures
            node_list_items(*final(self)) == node_list_items(*old(self)).update(i as int, value),
    {
        self.inner[i] = value;
    }

    /// `SharedVector::new_ref`: another reference to the same buffer. A `SharedVector` is
    /// copy on write (every mutation of a shared buffer first makes it unique), so handles
    /// behave as values; like Verus's model of `Rc`, the new handle is the same value.
    #[verifier::external_body]
    pub fn new_ref(&self) -> (r: NodeList)
        ensures
            r == *self,
            node_list_items(r) == node_list_items(*self),
    {
        NodeList { inner: self.inner.new_ref() }
    }

    /// `SharedVector::clone_buffer`: a fresh buffer holding clones of the same handles. Taken
    /// as a value (see `new_ref`), the copy is the same list.
    #[verifier::external_body]
    pub fn clone_buffer(&self) -> (r: NodeList)
        ensures
            r == *self,
            node_list_items(r) == node_list_items(*self),
    {
        NodeList { inner: self.inner.clone_buffer() }
    }
}

} // verus!
