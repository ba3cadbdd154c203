//! The capability for constructing and inspecting S-expression nodes.
//!
//! Higher layers depend only on this interface; the backing store is
//! swappable (see [`crate::int_allocator`] for the production arena).

use vstd::prelude::*;

use crate::reduction::EvalErr;

verus! {

/// What one node holds, as specifications see it: an atom's bytes, or the
/// two components of a pair.
pub enum SExpView<P> {
    Atom(Seq<u8>),
    Pair(P, P),
}

/// Classification of a node, as handed out by an allocator.
pub enum SExp<P> {
    Atom,
    Pair(P, P),
}

/// Capability interface over a store of immutable S-expression nodes.
///
/// A pointer is an opaque, copyable handle that identifies a node within
/// exactly one allocator instance. Building a pair from existing pointers
/// never copies their subgraphs, and every node issued earlier keeps its
/// pointer and its contents (structural sharing and pointer stability).
pub trait Allocator: Sized {
    type Ptr: Copy;

    /// Well-formedness of the store, established by its constructor and
    /// preserved by every operation.
    spec fn wf(&self) -> bool;

    /// Whether this allocator issued the handle.
    spec fn owns(&self, p: Self::Ptr) -> bool;

    /// What the node behind a handle holds.
    spec fn contents(&self, p: Self::Ptr) -> SExpView<Self::Ptr>;

    /// The handle of the canonical empty atom.
    spec fn null_ptr(&self) -> Self::Ptr;

    /// The handle of the canonical single-byte atom `1`.
    spec fn one_ptr(&self) -> Self::Ptr;

    /// Makes a new atom holding a copy of the given bytes; on success the
    /// returned node is the only one added.
    fn new_atom(&mut self, v: &[u8]) -> (r: Result<Self::Ptr, EvalErr<Self::Ptr>>)
        requires
            old(self).wf(),
        ensures
            final(self).wf(),
            forall|q: Self::Ptr| #[trigger]
                old(self).owns(q) ==> final(self).owns(q) && final(self).contents(q) == old(
                    self,
                ).contents(q),
            final(self).null_ptr() == old(self).null_ptr(),
            final(self).one_ptr() == old(self).one_ptr(),
            match r {
                Ok(p) => final(self).owns(p) && final(self).contents(p) == SExpView::<
                    Self::Ptr,
                >::Atom(v@) && forall|q: Self::Ptr| #[trigger]
                    final(self).owns(q) ==> old(self).owns(q) || q == p,
                Err(_) => *final(self) == *old(self),
            },
    ;

    /// Makes a new pair of two nodes this allocator already owns; on
    /// success the returned node is the only one added.
    fn new_pair(&mut self, first: Self::Ptr, rest: Self::Ptr) -> (r: Result<
        Self::Ptr,
        EvalErr<Self::Ptr>,
    >)
        requires
            old(self).wf(),
            old(self).owns(first),
            old(self).owns(rest),
        ensures
            final(self).wf(),
            forall|q: Self::Ptr| #[trigger]
                old(self).owns(q) ==> final(self).owns(q) && final(self).contents(q) == old(
                    self,
                ).contents(q),
            final(self).null_ptr() == old(self).null_ptr(),
            final(self).one_ptr() == old(self).one_ptr(),
            match r {
                Ok(p) => final(self).owns(p) && final(self).contents(p) == SExpView::<
                    Self::Ptr,
                >::Pair(first, rest) && forall|q: Self::Ptr| #[trigger]
                    final(self).owns(q) ==> old(self).owns(q) || q == p,
                Err(_) => *final(self) == *old(self),
            },
    ;

    /// Classifies a node as an atom or a pair.
    fn sexp(&self, p: Self::Ptr) -> (r: SExp<Self::Ptr>)
        requires
            self.wf(),
            self.owns(p),
        ensures
            match r {
                SExp::Atom => self.contents(p) is Atom,
                SExp::Pair(f, s) => self.contents(p) == SExpView::<Self::Ptr>::Pair(f, s)
                    && self.owns(f) && self.owns(s),
            },
    ;

    /// A zero-copy view of an atom's bytes.
    fn buf<'a>(&'a self, p: Self::Ptr) -> (r: &'a [u8])
        requires
            self.wf(),
            self.owns(p),
            self.contents(p) is Atom,
        ensures
            self.contents(p) == SExpView::<Self::Ptr>::Atom(r@),
    ;

    /// The canonical empty atom: nil, false, and the empty list.
    fn null(&self) -> (r: Self::Ptr)
        requires
            self.wf(),
        ensures
            r == self.null_ptr(),
            self.owns(r),
            self.contents(r) == SExpView::<Self::Ptr>::Atom(Seq::<u8>::empty()),
    ;

    /// The canonical true value: the single-byte atom `1`.
    fn one(&self) -> (r: Self::Ptr)
        requires
            self.wf(),
        ensures
            r == self.one_ptr(),
            self.owns(r),
            self.contents(r) == SExpView::<Self::Ptr>::Atom(seq![1u8]),
    ;
}

/// Pointer stability: everything the allocator owned before an operation it
/// still owns afterwards, with unchanged contents and unchanged constants.
pub open spec fn allocator_preserved<A: Allocator>(pre: A, post: A) -> bool {
    &&& forall|q: A::Ptr| #[trigger] pre.owns(q) ==> post.owns(q) && post.contents(q)
        == pre.contents(q)
    &&& post.null_ptr() == pre.null_ptr()
    &&& post.one_ptr() == pre.one_ptr()
    &&& post.wf()
}

/// Whether a node is the empty atom, the language's nil/false value.
pub open spec fn is_nil<A: Allocator>(a: A, p: A::Ptr) -> bool {
    a.contents(p) == SExpView::<A::Ptr>::Atom(Seq::<u8>::empty())
}

/// The first component of a pair node; the node itself when it is an atom,
/// so every use is guarded by a pair test.
pub open spec fn spec_first<A: Allocator>(a: A, p: A::Ptr) -> A::Ptr {
    match a.contents(p) {
        SExpView::Pair(f, _) => f,
        SExpView::Atom(_) => p,
    }
}

/// The second component of a pair node, guarded as in [`spec_first`].
pub open spec fn spec_rest<A: Allocator>(a: A, p: A::Ptr) -> A::Ptr {
    match a.contents(p) {
        SExpView::Pair(_, r) => r,
        SExpView::Atom(_) => p,
    }
}

} // verus!
