use clvm_rs::allocator::Allocator;
use clvm_rs::core_ops::{op_cons, op_eq, op_first, op_if, op_listp, op_raise, op_rest};
use clvm_rs::int_allocator::IntAllocator;
use clvm_rs::node::Node;

const NO_LIMIT: u64 = 1_000_000;

fn list(a: &mut IntAllocator, items: &[usize]) -> usize {
    let mut tail = a.null();
    for &item in items.iter().rev() {
        tail = a.new_pair(item, tail).unwrap();
    }
    tail
}

fn atom_bytes(a: &IntAllocator, p: usize) -> Vec<u8> {
    let node: Node<IntAllocator> = Node::new(a, p);
    node.atom().expect("expected an atom").to_vec()
}

// (i 0 B C) selects C's pre-evaluated value; (i <non-nil> B C) selects B's.
#[test]
fn test_op_if_selects() {
    let mut a = IntAllocator::new();
    let b = a.new_atom(&[0x0b]).unwrap();
    let c = a.new_atom(&[0x0c]).unwrap();
    let nil = a.null();
    let truthy = a.new_atom(&[0x63]).unwrap();

    let args = list(&mut a, &[nil, b, c]);
    let r = op_if(&mut a, args, NO_LIMIT).unwrap();
    assert_eq!(r.0, 33);
    assert_eq!(r.1, c);

    let args = list(&mut a, &[truthy, b, c]);
    let r = op_if(&mut a, args, NO_LIMIT).unwrap();
    assert_eq!(r.0, 33);
    assert_eq!(r.1, b);

    // a pair condition is non-nil too
    let pair_cond = a.new_pair(nil, nil).unwrap();
    let args = list(&mut a, &[pair_cond, b, c]);
    let r = op_if(&mut a, args, NO_LIMIT).unwrap();
    assert_eq!(r.1, b);
}

#[test]
fn test_op_if_arity() {
    let mut a = IntAllocator::new();
    let b = a.new_atom(&[0x0b]).unwrap();
    let c = a.new_atom(&[0x0c]).unwrap();
    let args = list(&mut a, &[b, c]);
    let e = op_if(&mut a, args, NO_LIMIT).unwrap_err();
    assert_eq!(e.0, args);
    assert_eq!(e.1, "i takes exactly 3 arguments");
}

// first(cons(x, y)) == x and rest(cons(x, y)) == y, each exactly.
#[test]
fn test_op_cons_first_rest() {
    let mut a = IntAllocator::new();
    let x = a.new_atom(&[0x01]).unwrap();
    let y = a.new_atom(&[0x02]).unwrap();

    let args = list(&mut a, &[x, y]);
    let r = op_cons(&mut a, args, NO_LIMIT).unwrap();
    assert_eq!(r.0, 50);
    let p = r.1;

    let args = list(&mut a, &[p]);
    let r = op_first(&mut a, args, NO_LIMIT).unwrap();
    assert_eq!(r.0, 30);
    assert_eq!(r.1, x);

    let args = list(&mut a, &[p]);
    let r = op_rest(&mut a, args, NO_LIMIT).unwrap();
    assert_eq!(r.0, 30);
    assert_eq!(r.1, y);
}

#[test]
fn test_op_first_not_cons() {
    let mut a = IntAllocator::new();
    let x = a.new_atom(&[0x01]).unwrap();
    let args = list(&mut a, &[x]);
    let e = op_first(&mut a, args, NO_LIMIT).unwrap_err();
    assert_eq!(e.0, x);
    assert_eq!(e.1, "first of non-cons");
}

#[test]
fn test_op_rest_not_cons() {
    let mut a = IntAllocator::new();
    let x = a.new_atom(&[0x01]).unwrap();
    let args = list(&mut a, &[x]);
    let e = op_rest(&mut a, args, NO_LIMIT).unwrap_err();
    assert_eq!(e.0, x);
    assert_eq!(e.1, "rest of non-cons");
}

// listp(cons(x, y)) is canonical true; listp(atom) is canonical false,
// including for the empty atom.
#[test]
fn test_op_listp() {
    let mut a = IntAllocator::new();
    let nil = a.null();
    let one = a.one();
    let x = a.new_atom(&[0x01]).unwrap();
    let p = a.new_pair(x, nil).unwrap();

    let args = list(&mut a, &[p]);
    let r = op_listp(&mut a, args, NO_LIMIT).unwrap();
    assert_eq!(r.0, 19);
    assert_eq!(r.1, one);
    assert_eq!(atom_bytes(&a, r.1), vec![1]);

    let args = list(&mut a, &[x]);
    let r = op_listp(&mut a, args, NO_LIMIT).unwrap();
    assert_eq!(r.1, nil);
    assert_eq!(atom_bytes(&a, r.1), Vec::<u8>::new());

    let args = list(&mut a, &[nil]);
    let r = op_listp(&mut a, args, NO_LIMIT).unwrap();
    assert_eq!(r.1, nil);
}

// eq(a, a) is true for every atom; eq(a, b) is false when the bytes
// differ; a pair argument fails; the cost is 117 + len(a) + len(b).
#[test]
fn test_op_eq() {
    let mut a = IntAllocator::new();
    let nil = a.null();
    let one = a.one();
    let x1 = a.new_atom(&[0xcc, 0x55]).unwrap();
    let x2 = a.new_atom(&[0xcc, 0x55]).unwrap();
    let y = a.new_atom(&[0xcc, 0x56]).unwrap();

    let args = list(&mut a, &[x1, x2]);
    let r = op_eq(&mut a, args, NO_LIMIT).unwrap();
    assert_eq!(r.0, 117 + 2 + 2);
    assert_eq!(r.1, one);

    let args = list(&mut a, &[x1, y]);
    let r = op_eq(&mut a, args, NO_LIMIT).unwrap();
    assert_eq!(r.0, 117 + 2 + 2);
    assert_eq!(r.1, nil);

    // two empty atoms are equal, and cost only the base fee
    let args = list(&mut a, &[nil, nil]);
    let r = op_eq(&mut a, args, NO_LIMIT).unwrap();
    assert_eq!(r.0, 117);
    assert_eq!(r.1, one);

    // equal atoms of different lengths are unequal
    let z = a.new_atom(&[0xcc]).unwrap();
    let args = list(&mut a, &[x1, z]);
    let r = op_eq(&mut a, args, NO_LIMIT).unwrap();
    assert_eq!(r.0, 117 + 2 + 1);
    assert_eq!(r.1, nil);

    // a pair is not a comparable value: that is an error, not false
    let p = a.new_pair(nil, nil).unwrap();
    let args = list(&mut a, &[p, x1]);
    let e = op_eq(&mut a, args, NO_LIMIT).unwrap_err();
    assert_eq!(e.0, p);
    assert_eq!(e.1, "= on list");

    let args = list(&mut a, &[x1, p]);
    let e = op_eq(&mut a, args, NO_LIMIT).unwrap_err();
    assert_eq!(e.0, p);
    assert_eq!(e.1, "= on list");
}

#[test]
fn test_op_eq_arity() {
    let mut a = IntAllocator::new();
    let x = a.new_atom(&[0x01]).unwrap();
    let args = list(&mut a, &[x]);
    let e = op_eq(&mut a, args, NO_LIMIT).unwrap_err();
    assert_eq!(e.0, args);
    assert_eq!(e.1, "= takes exactly 2 arguments");
}

// raise always fails, and the offending node is exactly the operator's
// own argument list.
#[test]
fn test_op_raise() {
    let mut a = IntAllocator::new();
    let x = a.new_atom(&[0x01]).unwrap();
    let y = a.new_atom(&[0x02]).unwrap();
    let args = list(&mut a, &[x, y]);
    let e = op_raise(&mut a, args, NO_LIMIT).unwrap_err();
    assert_eq!(e.0, args);
    assert_eq!(e.1, "clvm raise");

    let nil = a.null();
    let e = op_raise(&mut a, nil, NO_LIMIT).unwrap_err();
    assert_eq!(e.1, "clvm raise");
}

// cons accepts exactly two arguments and builds a genuinely fresh pair.
#[test]
fn test_op_cons_shape() {
    let mut a = IntAllocator::new();
    let x = a.new_atom(&[0x01]).unwrap();
    let args = list(&mut a, &[x]);
    let e = op_cons(&mut a, args, NO_LIMIT).unwrap_err();
    assert_eq!(e.0, args);
    assert_eq!(e.1, "c takes exactly 2 arguments");

    let y = a.new_atom(&[0x02]).unwrap();
    let args = list(&mut a, &[x, y]);
    let r = op_cons(&mut a, args, NO_LIMIT).unwrap();
    let node: Node<IntAllocator> = Node::new(&a, r.1);
    let (f, s) = node.pair().expect("cons must build a pair");
    assert_eq!(f.node, x);
    assert_eq!(s.node, y);
}
