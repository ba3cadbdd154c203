//! The production allocator: a compact arena indexed by small integers.

use vstd::prelude::*;
use vstd::slice::slice_to_vec;

use crate::allocator::{Allocator, SExp, SExpView};
use crate::reduction::EvalErr;

verus! {

enum Entry {
    Atom(Vec<u8>),
    Pair(usize, usize),
}

/// An arena of immutable nodes. Handles are indexes into one vector; nodes
/// are created only by appending, so every handle stays valid, with the
/// same contents, for the allocator's whole lifetime. Slots `0` and `1`
/// always hold the two canonical constants nil and one.
pub struct IntAllocator {
    arena: Vec<Entry>,
}

impl IntAllocator {
    /// A fresh arena holding only the two canonical constants: nothing is
    /// owned beyond the nil and one handles.
    pub fn new() -> (r: IntAllocator)
        ensures
            r.wf(),
            forall|p: usize| #[trigger] r.owns(p) <==> p == r.null_ptr() || p == r.one_ptr(),
    {
        let mut arena: Vec<Entry> = Vec::new();
        let empty_bytes: Vec<u8> = Vec::new();
        arena.push(Entry::Atom(empty_bytes));
        let mut one_bytes: Vec<u8> = Vec::new();
        one_bytes.push(1);
        arena.push(Entry::Atom(one_bytes));
        let r = IntAllocator { arena };
        proof {
            assert(r.arena@[1] matches Entry::Atom(v) && v@ =~= seq![1u8]);
            assert(r.arena@[0] matches Entry::Atom(v) && v@ =~= Seq::<u8>::empty());
        }
        r
    }
}

impl Allocator for IntAllocator {
    type Ptr = usize;

    closed spec fn wf(&self) -> bool {
        &&& self.arena@.len() >= 2
        &&& self.arena@[0] matches Entry::Atom(v) && v@ == Seq::<u8>::empty()
        &&& self.arena@[1] matches Entry::Atom(v) && v@ == seq![1u8]
        &&& forall|i: int|
            0 <= i < self.arena@.len() ==> ((#[trigger] self.arena@[i]) matches Entry::Pair(f, r)
                ==> f < self.arena@.len() && r < self.arena@.len())
    }

    closed spec fn owns(&self, p: usize) -> bool {
        p < self.arena@.len()
    }

    closed spec fn contents(&self, p: usize) -> SExpView<usize> {
        if p < self.arena@.len() {
            match self.arena@[p as int] {
                Entry::Atom(v) => SExpView::Atom(v@),
                Entry::Pair(f, r) => SExpView::Pair(f, r),
            }
        } else {
            SExpView::Atom(Seq::<u8>::empty())
        }
    }

    closed spec fn null_ptr(&self) -> usize {
        0
    }

    closed spec fn one_ptr(&self) -> usize {
        1
    }

    fn new_atom(&mut self, v: &[u8]) -> (r: Result<usize, EvalErr<usize>>)
        ensures
            r is Ok,
    {
        let p = self.arena.len();
        let bytes = slice_to_vec(v);
        self.arena.push(Entry::Atom(bytes));
        Ok(p)
    }

    fn new_pair(&mut self, first: usize, rest: usize) -> (r: Result<usize, EvalErr<usize>>)
        ensures
            r is Ok,
    {
        let p = self.arena.len();
        self.arena.push(Entry::Pair(first, rest));
        Ok(p)
    }

    fn sexp(&self, p: usize) -> (r: SExp<usize>) {
        match &self.arena[p] {
            Entry::Atom(_) => SExp::Atom,
            Entry::Pair(f, s) => SExp::Pair(*f, *s),
        }
    }

    fn buf<'a>(&'a self, p: usize) -> (r: &'a [u8]) {
        match &self.arena[p] {
            Entry::Atom(v) => v.as_slice(),
            Entry::Pair(_, _) => unreached(),
        }
    }

    fn null(&self) -> (r: usize) {
        0
    }

    fn one(&self) -> (r: usize) {
        1
    }
}

} // verus!

