//! A lightweight, borrow-scoped view of one node.

use vstd::prelude::*;

use crate::allocator::{is_nil, Allocator, SExp, SExpView};

verus! {

/// A read-only handle pairing a pointer with a reference to its allocator;
/// it supplies navigation and error construction tied to the originating
/// expression.
pub struct Node<'a, A: Allocator> {
    pub allocator: &'a A,
    pub node: A::Ptr,
}

impl<'a, A: Allocator> Node<'a, A> {
    /// Validity: the allocator is well formed and owns the pointer.
    pub open spec fn wf(self) -> bool {
        self.allocator.wf() && self.allocator.owns(self.node)
    }

    /// What this node holds.
    pub open spec fn contents(self) -> SExpView<A::Ptr> {
        self.allocator.contents(self.node)
    }

    pub fn new(allocator: &'a A, node: A::Ptr) -> (r: Self)
        ensures
            r.allocator == allocator,
            r.node == node,
    {
        Node { allocator, node }
    }

    /// Another node of the same allocator.
    pub fn with_node(&self, node: A::Ptr) -> (r: Node<'a, A>)
        ensures
            r.allocator == self.allocator,
            r.node == node,
    {
        Node { allocator: self.allocator, node }
    }

    /// The two components when this node is a pair, `None` when it is an
    /// atom.
    pub fn pair(&self) -> (r: Option<(Node<'a, A>, Node<'a, A>)>)
        requires
            self.wf(),
        ensures
            match r {
                Some(c) => self.contents() == SExpView::<A::Ptr>::Pair(c.0.node, c.1.node)
                    && c.0.allocator == self.allocator && c.1.allocator == self.allocator
                    && c.0.wf() && c.1.wf(),
                None => self.contents() is Atom,
            },
    {
        match self.allocator.sexp(self.node) {
            SExp::Pair(f, s) => Some((self.with_node(f), self.with_node(s))),
            SExp::Atom => None,
        }
    }

    /// The atom's bytes when this node is an atom, `None` when it is a
    /// pair.
    pub fn atom(&self) -> (r: Option<&'a [u8]>)
        requires
            self.wf(),
        ensures
            match r {
                Some(b) => self.contents() == SExpView::<A::Ptr>::Atom(b@),
                None => self.contents() is Pair,
            },
    {
        match self.allocator.sexp(self.node) {
            SExp::Atom => Some(self.allocator.buf(self.node)),
            SExp::Pair(_, _) => None,
        }
    }

    /// True iff this node is the canonical empty atom.
    pub fn nullp(&self) -> (r: bool)
        requires
            self.wf(),
        ensures
            r == is_nil(*self.allocator, self.node),
    {
        match self.atom() {
            Some(b) => {
                let r = b.len() == 0;
                proof {
                    if b@.len() == 0 {
                        assert(b@ =~= Seq::<u8>::empty());
                    }
                }
                r
            },
            None => false,
        }
    }
}

impl<'a, A: Allocator> Clone for Node<'a, A> {
    fn clone(&self) -> (r: Self)
        ensures
            r == *self,
    {
        Node { allocator: self.allocator, node: self.node }
    }
}

impl<'a, A: Allocator> Copy for Node<'a, A> {

}

} // verus!
