//! The built-in structural operators, each with its exact cost.

use vstd::prelude::*;

use crate::allocator::{allocator_preserved, is_nil, spec_first, spec_rest, Allocator, SExpView};
use crate::cost::Cost;
use crate::node::Node;
use crate::op_utils::{arity_msg, atom, capped_count, check_arg_count};
use crate::reduction::{Reduction, Response};

verus! {

pub const FIRST_COST: Cost = 30;

pub const IF_COST: Cost = 33;

pub const CONS_COST: Cost = 50;

pub const REST_COST: Cost = 30;

pub const LISTP_COST: Cost = 19;

pub const EQ_BASE_COST: Cost = 117;

/// What an equality check costs: a base fee plus one unit per byte
/// compared, saturating at the cost type's ceiling.
pub open spec fn eq_cost(l0: nat, l1: nat) -> nat {
    if 117 + l0 + l1 > u64::MAX {
        u64::MAX as nat
    } else {
        (117 + l0 + l1) as nat
    }
}

/// Selects the second argument when the first is non-nil, the third
/// otherwise. Both branches were already evaluated as ordinary arguments,
/// so both are paid for whichever one is chosen.
pub fn op_if<T: Allocator>(a: &mut T, input: T::Ptr, _max_cost: Cost) -> (r: Response<T::Ptr>)
    requires
        old(a).wf(),
        old(a).owns(input),
    ensures
        *final(a) == *old(a),
        ({
            let m = *old(a);
            match r {
                Ok(red) => capped_count(m, input, 3) == 3 && red.0 == IF_COST && (m.contents(input)
                    matches SExpView::Pair(cond, t1) && m.contents(t1) matches SExpView::Pair(
                    bt,
                    t2,
                ) && m.contents(t2) matches SExpView::Pair(ct, _) && red.1 == (if is_nil(m, cond) {
                    ct
                } else {
                    bt
                })),
                Err(e) => capped_count(m, input, 3) != 3 && e.0 == input && e.1@ == arity_msg(
                    "i"@,
                    3,
                ),
            }
        }),
{
    let args = Node::new(&*a, input);
    check_arg_count(&args, 3, "i")?;
    proof {
        let m = *a;
        assert(capped_count(m, input, 3) == 3);
        match m.contents(input) {
            SExpView::Pair(c0, t1) => {
                assert(capped_count(m, t1, 2) == 2);
                match m.contents(t1) {
                    SExpView::Pair(c1, t2) => {
                        assert(capped_count(m, t2, 1) == 1);
                        assert(m.contents(t2) is Pair);
                    },
                    SExpView::Atom(_) => {},
                }
            },
            SExpView::Atom(_) => {},
        }
    }
    let cond = args.first()?;
    let mut chosen_node = args.rest()?;
    if cond.nullp() {
        chosen_node = chosen_node.rest()?;
    }
    Ok(Reduction(IF_COST, chosen_node.first()?.node))
}

/// Builds a new pair from the two already evaluated arguments. On
/// success exactly one node is added — the returned pair — and every
/// pre-existing node keeps its pointer and its contents.
///
/// With the right arity the only failure left is the allocator refusing
/// the allocation, a resource condition of the store rather than of the
/// evaluated program; the allocator is unchanged in every failure.
pub fn op_cons<T: Allocator>(a: &mut T, input: T::Ptr, _max_cost: Cost) -> (r: Response<T::Ptr>)
    requires
        old(a).wf(),
        old(a).owns(input),
    ensures
        ({
            let m = *old(a);
            let mf = *final(a);
            match r {
                Ok(red) => capped_count(m, input, 2) == 2 && red.0 == CONS_COST
                    && allocator_preserved(m, mf) && mf.owns(red.1) && (forall|q: T::Ptr|
                    #[trigger] mf.owns(q) ==> m.owns(q) || q == red.1) && (m.contents(input)
                    matches SExpView::Pair(x, t1) && m.contents(t1) matches SExpView::Pair(y, _)
                    && mf.contents(red.1) == SExpView::<T::Ptr>::Pair(x, y)),
                Err(e) => mf == m && (if capped_count(m, input, 2) != 2 {
                    e.0 == input && e.1@ == arity_msg("c"@, 2)
                } else {
                    true
                }),
            }
        }),
{
    let args = Node::new(&*a, input);
    check_arg_count(&args, 2, "c")?;
    proof {
        let m = *a;
        assert(capped_count(m, input, 2) == 2);
        match m.contents(input) {
            SExpView::Pair(c0, t1) => {
                assert(capped_count(m, t1, 1) == 1);
                assert(m.contents(t1) is Pair);
            },
            SExpView::Atom(_) => {},
        }
    }
    let a1 = args.first()?;
    let a2 = args.rest()?.first()?;
    let n1 = a1.node;
    let n2 = a2.node;
    let r = a.new_pair(n1, n2)?;
    Ok(Reduction(CONS_COST, r))
}

/// Returns the first component of the single argument; fails `NotACons`
/// when that argument is an atom.
pub fn op_first<T: Allocator>(a: &mut T, input: T::Ptr, _max_cost: Cost) -> (r: Response<T::Ptr>)
    requires
        old(a).wf(),
        old(a).owns(input),
    ensures
        *final(a) == *old(a),
        ({
            let m = *old(a);
            match r {
                Ok(red) => capped_count(m, input, 1) == 1 && red.0 == FIRST_COST && (m.contents(
                    input,
                ) matches SExpView::Pair(a0, _) && m.contents(a0) matches SExpView::Pair(f, _)
                    && red.1 == f),
                Err(e) => if capped_count(m, input, 1) != 1 {
                    e.0 == input && e.1@ == arity_msg("f"@, 1)
                } else {
                    m.contents(input) matches SExpView::Pair(a0, _) && m.contents(a0) is Atom
                        && e.0 == a0 && e.1@ == "first of non-cons"@
                },
            }
        }),
{
    let args = Node::new(&*a, input);
    check_arg_count(&args, 1, "f")?;
    Ok(Reduction(FIRST_COST, args.first()?.first()?.node))
}

/// Returns the second component of the single argument; fails `NotACons`
/// when that argument is an atom.
pub fn op_rest<T: Allocator>(a: &mut T, input: T::Ptr, _max_cost: Cost) -> (r: Response<T::Ptr>)
    requires
        old(a).wf(),
        old(a).owns(input),
    ensures
        *final(a) == *old(a),
        ({
            let m = *old(a);
            match r {
                Ok(red) => capped_count(m, input, 1) == 1 && red.0 == REST_COST && (m.contents(
                    input,
                ) matches SExpView::Pair(a0, _) && m.contents(a0) matches SExpView::Pair(_, s)
                    && red.1 == s),
                Err(e) => if capped_count(m, input, 1) != 1 {
                    e.0 == input && e.1@ == arity_msg("r"@, 1)
                } else {
                    m.contents(input) matches SExpView::Pair(a0, _) && m.contents(a0) is Atom
                        && e.0 == a0 && e.1@ == "rest of non-cons"@
                },
            }
        }),
{
    let args = Node::new(&*a, input);
    check_arg_count(&args, 1, "r")?;
    Ok(Reduction(REST_COST, args.first()?.rest()?.node))
}

/// Returns canonical true when the single argument is a pair, canonical
/// false otherwise; never fails beyond the arity check.
pub fn op_listp<T: Allocator>(a: &mut T, input: T::Ptr, _max_cost: Cost) -> (r: Response<T::Ptr>)
    requires
        old(a).wf(),
        old(a).owns(input),
    ensures
        *final(a) == *old(a),
        ({
            let m = *old(a);
            match r {
                Ok(red) => capped_count(m, input, 1) == 1 && red.0 == LISTP_COST && (m.contents(
                    input,
                ) matches SExpView::Pair(a0, _) && red.1 == (if m.contents(a0) is Pair {
                    m.one_ptr()
                } else {
                    m.null_ptr()
                })),
                Err(e) => capped_count(m, input, 1) != 1 && e.0 == input && e.1@ == arity_msg(
                    "l"@,
                    1,
                ),
            }
        }),
{
    let args = Node::new(&*a, input);
    check_arg_count(&args, 1, "l")?;
    match args.first()?.pair() {
        Some(_) => Ok(Reduction(LISTP_COST, a.one())),
        None => Ok(Reduction(LISTP_COST, a.null())),
    }
}

/// Unconditionally fails, carrying the whole argument list as the
/// offending node: the language's only explicit-failure primitive.
pub fn op_raise<T: Allocator>(a: &mut T, input: T::Ptr, _max_cost: Cost) -> (r: Response<T::Ptr>)
    ensures
        *final(a) == *old(a),
        r matches Err(e) && e.0 == input && e.1@ == "clvm raise"@,
{
    let args = Node::new(&*a, input);
    args.err("clvm raise")
}

/// Compares two atoms byte for byte; a pair argument fails `NotAnAtom`.
pub fn op_eq<T: Allocator>(a: &mut T, input: T::Ptr, _max_cost: Cost) -> (r: Response<T::Ptr>)
    requires
        old(a).wf(),
        old(a).owns(input),
    ensures
        *final(a) == *old(a),
        ({
            let m = *old(a);
            match r {
                Ok(red) => capped_count(m, input, 2) == 2 && (m.contents(input)
                    matches SExpView::Pair(x, t1) && m.contents(t1) matches SExpView::Pair(y, _)
                    && m.contents(x) matches SExpView::Atom(s0) && m.contents(y)
                    matches SExpView::Atom(s1) && red.0 == eq_cost(s0.len(), s1.len()) && red.1
                    == (if s0 == s1 {
                    m.one_ptr()
                } else {
                    m.null_ptr()
                })),
                Err(e) => if capped_count(m, input, 2) != 2 {
                    e.0 == input && e.1@ == arity_msg("="@, 2)
                } else {
                    m.contents(input) matches SExpView::Pair(x, t1) && m.contents(t1)
                        matches SExpView::Pair(y, _) && (if m.contents(x) is Pair {
                        e.0 == x
                    } else {
                        m.contents(y) is Pair && e.0 == y
                    }) && e.1@ == "="@ + " on list"@
                },
            }
        }),
{
    let args = Node::new(&*a, input);
    check_arg_count(&args, 2, "=")?;
    proof {
        let m = *a;
        assert(capped_count(m, input, 2) == 2);
        match m.contents(input) {
            SExpView::Pair(c0, t1) => {
                assert(capped_count(m, t1, 1) == 1);
                assert(m.contents(t1) is Pair);
            },
            SExpView::Atom(_) => {},
        }
    }
    let a0 = args.first()?;
    let a1 = args.rest()?.first()?;
    let s0 = atom(&a0, "=")?;
    let s1 = atom(&a1, "=")?;
    let lsum = saturating_add(s0.len() as u64, s1.len() as u64);
    let cost = saturating_add(EQ_BASE_COST, lsum);
    if bytes_equal(s0, s1) {
        Ok(Reduction(cost, a.one()))
    } else {
        Ok(Reduction(cost, a.null()))
    }
}

/// Taking apart undoes building up, exactly: a pair built from nodes `x`
/// and `y` has exactly `x` as its first component and exactly `y` as its
/// rest, in the terms the contracts of `op_cons`, `op_first` and
/// `op_rest` speak.
pub proof fn lemma_cons_first_rest<A: Allocator>(a: A, p: A::Ptr, x: A::Ptr, y: A::Ptr)
    requires
        a.contents(p) == SExpView::<A::Ptr>::Pair(x, y),
    ensures
        spec_first(a, p) == x,
        spec_rest(a, p) == y,
{
}

/// The list test is canonical true on every pair and canonical false on
/// every atom, the empty atom included: the selection that `op_listp`'s
/// contract makes never yields anything else.
pub proof fn lemma_listp_truth<A: Allocator>(a: A, p: A::Ptr, q: A::Ptr)
    requires
        a.contents(p) is Pair,
        a.contents(q) is Atom,
    ensures
        (if a.contents(p) is Pair {
            a.one_ptr()
        } else {
            a.null_ptr()
        }) == a.one_ptr(),
        (if a.contents(q) is Pair {
            a.one_ptr()
        } else {
            a.null_ptr()
        }) == a.null_ptr(),
{
}

/// Equality of atoms is decided by their bytes alone: the selection that
/// `op_eq`'s contract makes is canonical true exactly on byte-equal
/// atoms, canonical false on all others.
pub proof fn lemma_eq_truth<A: Allocator>(a: A, s: Seq<u8>, t: Seq<u8>)
    ensures
        (s =~= t) ==> (if s == t {
            a.one_ptr()
        } else {
            a.null_ptr()
        }) == a.one_ptr(),
        !(s =~= t) ==> (if s == t {
            a.one_ptr()
        } else {
            a.null_ptr()
        }) == a.null_ptr(),
{
}

/// Whenever the base fee plus one unit per byte compared fits the cost
/// type, the cost `op_eq` charges is exactly that sum.
pub proof fn lemma_eq_cost_exact(l0: nat, l1: nat)
    requires
        117 + l0 + l1 <= u64::MAX,
    ensures
        eq_cost(l0, l1) == 117 + l0 + l1,
{
}

/// Byte-for-byte comparison of two atoms' contents.
fn bytes_equal(x: &[u8], y: &[u8]) -> (b: bool)
    ensures
        b == (x@ == y@),
{
    if x.len() != y.len() {
        return false;
    }
    let n = x.len();
    let mut i: usize = 0;
    while i < n
        invariant
            n == x@.len(),
            n == y@.len(),
            i <= n,
            forall|j: int| 0 <= j < i ==> x@[j] == y@[j],
        decreases n - i,
    {
        if x[i] != y[i] {
            return false;
        }
        i = i + 1;
    }
    proof {
        assert(x@ =~= y@);
    }
    true
}

/// Addition on costs that sticks at the ceiling instead of wrapping.
fn saturating_add(x: u64, y: u64) -> (r: u64)
    ensures
        r == if x + y > u64::MAX {
            u64::MAX as int
        } else {
            x + y
        },
{
    if x > u64::MAX - y {
        u64::MAX
    } else {
        x + y
    }
}

} // verus!

