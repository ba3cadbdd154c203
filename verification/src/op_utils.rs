//! Shared argument handling for operators: arity checks, atom extraction,
//! and the fixed-width numeric fast paths.

use vstd::prelude::*;
use vstd::string::StringExecFns;

use crate::allocator::{spec_first, spec_rest, Allocator, SExpView};
use crate::err_utils::{dec_seq, decimal_string};
use crate::node::Node;
use crate::number::{
    be_unsigned, decoded_int, lemma_be_unsigned_bound, lemma_be_unsigned_head, number_from_u8,
    pow256, Number,
};
use crate::reduction::EvalErr;

verus! {

/// How many list cells a capped walk down the spine sees: the true number
/// of leading pairs, except that the walk stops as soon as the count
/// exceeds the budget. The result never passes `budget + 1`, however long
/// the spine really is.
pub open spec fn capped_count<A: Allocator>(a: A, p: A::Ptr, budget: nat) -> nat
    decreases budget,
{
    match a.contents(p) {
        SExpView::Pair(_, r) => if budget == 0 {
            1
        } else {
            1 + capped_count(a, r, (budget - 1) as nat)
        },
        SExpView::Atom(_) => 0,
    }
}

/// The capped walk inspects no more than `budget + 1` cells, so its result
/// is bounded by `budget + 1` whatever the argument list really is.
pub proof fn lemma_capped_count_bound<A: Allocator>(a: A, p: A::Ptr, budget: nat)
    ensures
        capped_count(a, p, budget) <= budget + 1,
    decreases budget,
{
    match a.contents(p) {
        SExpView::Pair(_, r) => {
            if budget > 0 {
                lemma_capped_count_bound(a, r, (budget - 1) as nat);
            }
        },
        SExpView::Atom(_) => {},
    }
}

/// The message an arity mismatch reports: the operator's name, the exact
/// expected count, and its pluralization.
pub open spec fn arity_msg(name: Seq<char>, expected: nat) -> Seq<char> {
    name + " takes exactly "@ + dec_seq(expected) + " argument"@ + (if expected == 1 {
        Seq::<char>::empty()
    } else {
        "s"@
    })
}

/// Rejects an argument list that does not hold exactly `expected`
/// arguments. The check inspects at most `expected + 1` cells, so an
/// adversarially long list costs only O(`expected`) work.
pub fn check_arg_count<T: Allocator>(
    args: &Node<T>,
    expected: usize,
    name: &str,
) -> (r: Result<(), EvalErr<T::Ptr>>)
    requires
        args.wf(),
        expected < usize::MAX,
    ensures
        match r {
            Ok(()) => capped_count(*args.allocator, args.node, expected as nat) == expected,
            Err(e) => capped_count(*args.allocator, args.node, expected as nat) != expected
                && e.0 == args.node && e.1@ == arity_msg(name@, expected as nat),
        },
{
    if arg_count(args, expected) != expected {
        let mut msg = name.to_owned();
        msg.append(" takes exactly ");
        msg.append(decimal_string(expected).as_str());
        msg.append(" argument");
        if expected != 1 {
            msg.append("s");
        }
        proof {
            assert(msg@ =~= arity_msg(name@, expected as nat));
        }
        Err(EvalErr(args.node, msg))
    } else {
        Ok(())
    }
}

/// Counts the leading pairs of an argument list, stopping early once the
/// count exceeds the given budget.
pub fn arg_count<T: Allocator>(args: &Node<T>, return_early_if_exceeds: usize) -> (r: usize)
    requires
        args.wf(),
        return_early_if_exceeds < usize::MAX,
    ensures
        r == capped_count(*args.allocator, args.node, return_early_if_exceeds as nat),
{
    let mut count: usize = 0;
    let mut ptr = args.clone();
    loop
        invariant
            ptr.wf(),
            ptr.allocator == args.allocator,
            return_early_if_exceeds < usize::MAX,
            count <= return_early_if_exceeds,
            capped_count(*args.allocator, args.node, return_early_if_exceeds as nat) == count
                + capped_count(
                *args.allocator,
                ptr.node,
                (return_early_if_exceeds - count) as nat,
            ),
        decreases return_early_if_exceeds - count,
    {
        match ptr.pair() {
            Some(next) => {
                ptr = next.1;
                count = count + 1;
                if count > return_early_if_exceeds {
                    return count;
                }
            },
            None => {
                return count;
            },
        };
    }
}

/// The atom behind an integer argument, or the failure an operator reports
/// for a pair where it needs an integer.
pub fn int_atom<'a, T: Allocator>(args: &Node<'a, T>, op_name: &str) -> (r: Result<
    &'a [u8],
    EvalErr<T::Ptr>,
>)
    requires
        args.wf(),
    ensures
        match r {
            Ok(b) => args.contents() == SExpView::<T::Ptr>::Atom(b@),
            Err(e) => args.contents() is Pair && e.0 == args.node && e.1@ == op_name@
                + " requires int args"@,
        },
{
    match args.atom() {
        Some(a) => Ok(a),
        None => {
            let mut msg = op_name.to_owned();
            msg.append(" requires int args");
            Err(EvalErr(args.node, msg))
        },
    }
}

/// The atom behind an argument, or the failure an operator reports for a
/// pair where it needs an atom.
pub fn atom<'a, T: Allocator>(args: &Node<'a, T>, op_name: &str) -> (r: Result<
    &'a [u8],
    EvalErr<T::Ptr>,
>)
    requires
        args.wf(),
    ensures
        match r {
            Ok(b) => args.contents() == SExpView::<T::Ptr>::Atom(b@),
            Err(e) => args.contents() is Pair && e.0 == args.node && e.1@ == op_name@
                + " on list"@,
        },
{
    match args.atom() {
        Some(a) => Ok(a),
        None => {
            let mut msg = op_name.to_owned();
            msg.append(" on list");
            Err(EvalErr(args.node, msg))
        },
    }
}

/// Both integer arguments of a two-argument operator: each as a number
/// together with the length of the atom it came from.
pub fn two_ints<T: Allocator>(args: &Node<T>, op_name: &str) -> (r: Result<
    (Number, usize, Number, usize),
    EvalErr<T::Ptr>,
>)
    requires
        args.wf(),
    ensures
        ({
            let m = *args.allocator;
            match r {
                Ok(t) => capped_count(m, args.node, 2) == 2 && (m.contents(args.node)
                    matches SExpView::Pair(x, t1) && m.contents(t1) matches SExpView::Pair(y, _)
                    && m.contents(x) matches SExpView::Atom(s0) && m.contents(y)
                    matches SExpView::Atom(s1) && t.0@ == decoded_int(s0) && t.0.wf() && t.1
                    == s0.len() && t.2@ == decoded_int(s1) && t.2.wf() && t.3 == s1.len()),
                Err(e) => if capped_count(m, args.node, 2) != 2 {
                    e.0 == args.node && e.1@ == arity_msg(op_name@, 2)
                } else {
                    m.contents(args.node) matches SExpView::Pair(x, t1) && m.contents(t1)
                        matches SExpView::Pair(y, _) && (if m.contents(x) is Pair {
                        e.0 == x
                    } else {
                        m.contents(y) is Pair && e.0 == y
                    }) && e.1@ == op_name@ + " requires int args"@
                },
            }
        }),
{
    check_arg_count(args, 2, op_name)?;
    proof {
        let m = *args.allocator;
        assert(capped_count(m, args.node, 2) == 2);
        match m.contents(args.node) {
            SExpView::Pair(c0, t1) => {
                assert(capped_count(m, t1, 1) == 1);
                assert(m.contents(t1) is Pair);
            },
            SExpView::Atom(_) => {},
        }
    }
    let a0 = args.first()?;
    let a1 = args.rest()?.first()?;
    let n0 = int_atom(&a0, op_name)?;
    let n1 = int_atom(&a1, op_name)?;
    Ok((number_from_u8(n0), n0.len(), number_from_u8(n1), n1.len()))
}

/// The unsigned value of each byte count the fast path accepts, spelled
/// out so that the fixed-width readers can be proved against it.
proof fn lemma_be_unsigned_small(s: Seq<u8>)
    requires
        1 <= s.len() <= 4,
    ensures
        s.len() == 1 ==> be_unsigned(s) == s[0],
        s.len() == 2 ==> be_unsigned(s) == s[0] * 0x100 + s[1],
        s.len() == 3 ==> be_unsigned(s) == s[0] * 0x10000 + s[1] * 0x100 + s[2],
        s.len() == 4 ==> be_unsigned(s) == s[0] * 0x1000000 + s[1] * 0x10000 + s[2] * 0x100 + s[3],
    decreases s.len(),
{
    let d = s.drop_last();
    if s.len() == 1 {
        assert(d =~= Seq::<u8>::empty());
        assert(be_unsigned(Seq::<u8>::empty()) == 0);
        assert(s.last() == s[0]);
    } else {
        lemma_be_unsigned_small(d);
        assert(d[0] == s[0]);
        if s.len() >= 3 {
            assert(d[1] == s[1]);
        }
        if s.len() >= 4 {
            assert(d[2] == s[2]);
        }
        assert(s.last() == s[s.len() - 1]);
    }
}

/// Reads at most four bytes as an unsigned or sign-extended 32-bit value;
/// longer atoms are rejected rather than silently truncated.
fn u32_from_u8_impl(buf: &[u8], signed: bool) -> (r: Option<u32>)
    ensures
        (r is Some) <==> buf@.len() <= 4,
        r matches Some(x) ==> ({
            let s = buf@;
            if signed && s.len() > 0 && s[0] >= 128 {
                x == be_unsigned(s) + pow256(4) - pow256(s.len())
            } else {
                x == be_unsigned(s)
            }
        }),
{
    let n = buf.len();
    if n > 4 {
        return None;
    }
    if n == 0 {
        return Some(0);
    }
    proof {
        lemma_be_unsigned_small(buf@);
        lemma_be_unsigned_bound(buf@);
        assert(pow256(0) == 1);
        assert(pow256(1) == 256);
        assert(pow256(2) == 65536);
        assert(pow256(3) == 16777216);
        assert(pow256(4) == 4294967296);
    }
    let base: u32 = if n == 1 {
        buf[0] as u32
    } else if n == 2 {
        (buf[0] as u32) * 0x100 + (buf[1] as u32)
    } else if n == 3 {
        (buf[0] as u32) * 0x10000 + (buf[1] as u32) * 0x100 + (buf[2] as u32)
    } else {
        (buf[0] as u32) * 0x1000000 + (buf[1] as u32) * 0x10000 + (buf[2] as u32) * 0x100 + (
        buf[3] as u32)
    };
    let b0: u8 = buf[0];
    let sign_extend = (b0 & 0x80) != 0;
    proof {
        assert((b0 & 0x80 != 0) == (b0 >= 128)) by (bit_vector);
    }
    if signed && sign_extend {
        if n == 1 {
            Some(base + 0xffffff00)
        } else if n == 2 {
            Some(base + 0xffff0000)
        } else if n == 3 {
            Some(base + 0xff000000)
        } else {
            Some(base)
        }
    } else {
        Some(base)
    }
}

/// Reads an atom of at most four bytes as an unsigned 32-bit value, all
/// bits literal; the empty atom is zero.
pub fn u32_from_u8(buf: &[u8]) -> (r: Option<u32>)
    ensures
        (r is Some) <==> buf@.len() <= 4,
        r matches Some(x) ==> x == be_unsigned(buf@),
{
    u32_from_u8_impl(buf, false)
}

/// Reads an atom of at most four bytes as a signed 32-bit value, sign
/// extended from the leading byte's high bit.
pub fn i32_from_u8(buf: &[u8]) -> (r: Option<i32>)
    ensures
        (r is Some) <==> buf@.len() <= 4,
        r matches Some(v) ==> v as int == decoded_int(buf@),
{
    match u32_from_u8_impl(buf, true) {
        Some(x) => {
            proof {
                let s = buf@;
                assert(pow256(0) == 1);
                assert(pow256(1) == 256);
                assert(pow256(2) == 65536);
                assert(pow256(3) == 16777216);
                assert(pow256(4) == 4294967296);
                if s.len() > 0 {
                    let p = pow256((s.len() - 1) as nat);
                    lemma_be_unsigned_head(s);
                    lemma_be_unsigned_bound(s.skip(1));
                    assert(s.skip(1).len() == s.len() - 1);
                    if s[0] >= 128 {
                        assert(s[0] * p >= 128 * p) by (nonlinear_arith)
                            requires
                                s[0] >= 128,
                                p >= 0,
                        ;
                        assert(be_unsigned(s) >= 128 * p);
                        assert(x >= 0x80000000);
                    } else {
                        assert(s[0] * p <= 127 * p) by (nonlinear_arith)
                            requires
                                s[0] <= 127,
                                p >= 0,
                        ;
                        assert(be_unsigned(s) < 128 * p);
                        assert(x < 0x80000000);
                    }
                } else {
                    assert(x == 0);
                }
            }
            let v: i32 = if x >= 0x80000000 {
                -((0xffffffffu32 - x) as i32) - 1
            } else {
                x as i32
            };
            Some(v)
        },
        None => None,
    }
}

/// Reads the node as a 32-bit integer argument, reporting the two ways it
/// can be unusable: a pair, or an atom wider than the fast path allows.
pub fn i32_atom<A: Allocator>(args: &Node<A>, op_name: &str) -> (r: Result<i32, EvalErr<A::Ptr>>)
    requires
        args.wf(),
    ensures
        match r {
            Ok(v) => args.contents() matches SExpView::Atom(s) && s.len() <= 4 && v as int
                == decoded_int(s),
            Err(e) => e.0 == args.node && (if args.contents() is Pair {
                e.1@ == op_name@ + " requires int32 args"@
            } else {
                args.contents() matches SExpView::Atom(s) && s.len() > 4 && e.1@ == op_name@
                    + " requires int32 args (with no leading zeros)"@
            }),
        },
{
    let buf = match args.atom() {
        Some(a) => a,
        None => {
            let mut msg = op_name.to_owned();
            msg.append(" requires int32 args");
            return Err(EvalErr(args.node, msg));
        },
    };
    match i32_from_u8(buf) {
        Some(v) => Ok(v),
        None => {
            let mut msg = op_name.to_owned();
            msg.append(" requires int32 args (with no leading zeros)");
            Err(EvalErr(args.node, msg))
        },
    }
}

impl<'a, A: Allocator> Node<'a, A> {
    /// The first component, or the `NotACons` failure when this node is an
    /// atom.
    pub fn first(&self) -> (r: Result<Node<'a, A>, EvalErr<A::Ptr>>)
        requires
            self.wf(),
        ensures
            match r {
                Ok(n) => self.contents() is Pair && n.allocator == self.allocator && n.wf()
                    && n.node == spec_first(*self.allocator, self.node),
                Err(e) => self.contents() is Atom && e.0 == self.node && e.1@
                    == "first of non-cons"@,
            },
    {
        match self.pair() {
            Some(c) => Ok(self.with_node(c.0.node)),
            None => self.err("first of non-cons"),
        }
    }

    /// The second component, or the `NotACons` failure when this node is
    /// an atom.
    pub fn rest(&self) -> (r: Result<Node<'a, A>, EvalErr<A::Ptr>>)
        requires
            self.wf(),
        ensures
            match r {
                Ok(n) => self.contents() is Pair && n.allocator == self.allocator && n.wf()
                    && n.node == spec_rest(*self.allocator, self.node),
                Err(e) => self.contents() is Atom && e.0 == self.node && e.1@
                    == "rest of non-cons"@,
            },
    {
        match self.pair() {
            Some(c) => Ok(self.with_node(c.1.node)),
            None => self.err("rest of non-cons"),
        }
    }

    /// A failure tied to this very node, the standard way every check
    /// names a concrete sub-expression.
    pub fn err<T>(&self, msg: &str) -> (r: Result<T, EvalErr<A::Ptr>>)
        ensures
            r matches Err(e) && e.0 == self.node && e.1@ == msg@,
    {
        crate::err_utils::err(self.node, msg)
    }
}

} // verus!
