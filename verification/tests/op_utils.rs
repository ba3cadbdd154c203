use clvm_rs::allocator::Allocator;
use clvm_rs::int_allocator::IntAllocator;
use clvm_rs::node::Node;
use clvm_rs::op_utils::{arg_count, check_arg_count, i32_atom, i32_from_u8, two_ints, u32_from_u8};
use clvm_rs::number::u8_from_number;

#[test]
fn test_arg_count() {
    let mut allocator = IntAllocator::new();
    let null = allocator.null();
    let ptr_0_args = null;
    let ptr_1_args = allocator.new_pair(null, ptr_0_args).unwrap();
    let ptr_2_args = allocator.new_pair(null, ptr_1_args).unwrap();
    let ptr_3_args = allocator.new_pair(null, ptr_2_args).unwrap();

    let count_0_args: Node<IntAllocator> = Node::new(&allocator, ptr_0_args);
    assert_eq!(arg_count(&count_0_args, 0), 0);
    assert_eq!(arg_count(&count_0_args, 1), 0);
    assert_eq!(arg_count(&count_0_args, 2), 0);

    let count_1_args: Node<IntAllocator> = Node::new(&allocator, ptr_1_args);
    assert_eq!(arg_count(&count_1_args, 0), 1);
    assert_eq!(arg_count(&count_1_args, 1), 1);
    assert_eq!(arg_count(&count_1_args, 2), 1);

    let count_2_args: Node<IntAllocator> = Node::new(&allocator, ptr_2_args);
    assert_eq!(arg_count(&count_2_args, 0), 1);
    assert_eq!(arg_count(&count_2_args, 1), 2);
    assert_eq!(arg_count(&count_2_args, 2), 2);
    assert_eq!(arg_count(&count_2_args, 3), 2);

    let count_3_args: Node<IntAllocator> = Node::new(&allocator, ptr_3_args);
    assert_eq!(arg_count(&count_3_args, 0), 1);
    assert_eq!(arg_count(&count_3_args, 1), 2);
    assert_eq!(arg_count(&count_3_args, 2), 3);
    assert_eq!(arg_count(&count_3_args, 3), 3);
    assert_eq!(arg_count(&count_3_args, 4), 3);
}

#[test]
fn test_u32_from_u8() {
    assert_eq!(u32_from_u8(&[]), Some(0));
    assert_eq!(u32_from_u8(&[0xcc]), Some(0xcc));
    assert_eq!(u32_from_u8(&[0xcc, 0x55]), Some(0xcc55));
    assert_eq!(u32_from_u8(&[0xcc, 0x55, 0x88]), Some(0xcc5588));
    assert_eq!(u32_from_u8(&[0xcc, 0x55, 0x88, 0xf3]), Some(0xcc5588f3));

    assert_eq!(u32_from_u8(&[0xff]), Some(0xff));
    assert_eq!(u32_from_u8(&[0xff, 0xff]), Some(0xffff));
    assert_eq!(u32_from_u8(&[0xff, 0xff, 0xff]), Some(0xffffff));
    assert_eq!(u32_from_u8(&[0xff, 0xff, 0xff, 0xff]), Some(0xffffffff));

    // leading zeros are not stripped, and not allowed beyond 4 bytes
    assert_eq!(u32_from_u8(&[0x00]), Some(0));
    assert_eq!(u32_from_u8(&[0x00, 0x00]), Some(0));
    assert_eq!(u32_from_u8(&[0x00, 0xcc, 0x55, 0x88]), Some(0xcc5588));
    assert_eq!(u32_from_u8(&[0x00, 0x00, 0xcc, 0x55, 0x88]), None);
    assert_eq!(u32_from_u8(&[0x00, 0xcc, 0x55, 0x88, 0xf3]), None);

    // overflow, too many bytes
    assert_eq!(u32_from_u8(&[0x01, 0xcc, 0x55, 0x88, 0xf3]), None);
    assert_eq!(u32_from_u8(&[0x01, 0x00, 0x00, 0x00, 0x00]), None);
    assert_eq!(u32_from_u8(&[0x7d, 0xcc, 0x55, 0x88, 0xf3]), None);
}

#[test]
fn test_i32_from_u8() {
    assert_eq!(i32_from_u8(&[]), Some(0));
    assert_eq!(i32_from_u8(&[0xcc]), Some(-52));
    assert_eq!(i32_from_u8(&[0xcc, 0x55]), Some(-13227));
    assert_eq!(i32_from_u8(&[0xcc, 0x55, 0x88]), Some(-3385976));
    assert_eq!(i32_from_u8(&[0xcc, 0x55, 0x88, 0xf3]), Some(-866809613));

    assert_eq!(i32_from_u8(&[0xff]), Some(-1));
    assert_eq!(i32_from_u8(&[0xff, 0xff]), Some(-1));
    assert_eq!(i32_from_u8(&[0xff, 0xff, 0xff]), Some(-1));
    assert_eq!(i32_from_u8(&[0xff, 0xff, 0xff, 0xff]), Some(-1));

    // leading zeros are not stripped, and not allowed beyond 4 bytes
    assert_eq!(i32_from_u8(&[0x00]), Some(0));
    assert_eq!(i32_from_u8(&[0x00, 0x00]), Some(0));
    assert_eq!(i32_from_u8(&[0x00, 0xcc, 0x55, 0x88]), Some(0xcc5588));
    assert_eq!(i32_from_u8(&[0x00, 0x00, 0xcc, 0x55, 0x88]), None);
    assert_eq!(i32_from_u8(&[0x00, 0xcc, 0x55, 0x88, 0xf3]), None);

    // overflow, it doesn't really matter whether the bytes are 0 or not, any
    // atom larger than 4 bytes is rejected
    assert_eq!(i32_from_u8(&[0x01, 0xcc, 0x55, 0x88, 0xf3]), None);
    assert_eq!(i32_from_u8(&[0x01, 0x00, 0x00, 0x00, 0x00]), None);
    assert_eq!(i32_from_u8(&[0x7d, 0xcc, 0x55, 0x88, 0xf3]), None);
}

// A 10 000-element argument list checked against a small expected count
// terminates after inspecting expected + 1 cells.
#[test]
fn test_arg_count_early_exit() {
    let mut allocator = IntAllocator::new();
    let null = allocator.null();
    let mut list = null;
    for _ in 0..10000 {
        list = allocator.new_pair(null, list).unwrap();
    }
    let node: Node<IntAllocator> = Node::new(&allocator, list);
    assert_eq!(arg_count(&node, 0), 1);
    assert_eq!(arg_count(&node, 2), 3);
    assert_eq!(arg_count(&node, 50), 51);
    assert_eq!(arg_count(&node, 10000), 10000);
}

#[test]
fn test_check_arg_count_messages() {
    let mut allocator = IntAllocator::new();
    let null = allocator.null();
    let one_list = allocator.new_pair(null, null).unwrap();

    let node: Node<IntAllocator> = Node::new(&allocator, one_list);
    assert!(check_arg_count(&node, 1, "f").is_ok());

    let e = check_arg_count(&node, 3, "i").unwrap_err();
    assert_eq!(e.0, one_list);
    assert_eq!(e.1, "i takes exactly 3 arguments");

    let empty: Node<IntAllocator> = Node::new(&allocator, null);
    let e = check_arg_count(&empty, 1, "f").unwrap_err();
    assert_eq!(e.1, "f takes exactly 1 argument");

    let e = check_arg_count(&empty, 12, "q").unwrap_err();
    assert_eq!(e.1, "q takes exactly 12 arguments");
}

#[test]
fn test_i32_atom_errors() {
    let mut allocator = IntAllocator::new();
    let null = allocator.null();
    let wide = allocator.new_atom(&[0x01, 0x02, 0x03, 0x04, 0x05]).unwrap();
    let small = allocator.new_atom(&[0xcc]).unwrap();
    let pair = allocator.new_pair(null, null).unwrap();

    let node: Node<IntAllocator> = Node::new(&allocator, small);
    assert_eq!(i32_atom(&node, "+").unwrap(), -52);

    let node: Node<IntAllocator> = Node::new(&allocator, wide);
    let e = i32_atom(&node, "+").unwrap_err();
    assert_eq!(e.0, wide);
    assert_eq!(e.1, "+ requires int32 args (with no leading zeros)");

    let node: Node<IntAllocator> = Node::new(&allocator, pair);
    let e = i32_atom(&node, "+").unwrap_err();
    assert_eq!(e.0, pair);
    assert_eq!(e.1, "+ requires int32 args");
}

#[test]
fn test_two_ints() {
    let mut allocator = IntAllocator::new();
    let null = allocator.null();
    let x = allocator.new_atom(&[0x05]).unwrap();
    let y = allocator.new_atom(&[0xcc, 0x55]).unwrap();
    let t1 = allocator.new_pair(y, null).unwrap();
    let args = allocator.new_pair(x, t1).unwrap();

    let node: Node<IntAllocator> = Node::new(&allocator, args);
    let (n0, l0, n1, l1) = two_ints(&node, "+").unwrap();
    assert_eq!(u8_from_number(&n0), vec![0x05]);
    assert_eq!(l0, 1);
    assert_eq!(u8_from_number(&n1), vec![0xcc, 0x55]);
    assert_eq!(l1, 2);

    // a pair where an integer is needed names the offending argument
    let bad_tail = allocator.new_pair(t1, null).unwrap();
    let bad = allocator.new_pair(x, bad_tail).unwrap();
    let node: Node<IntAllocator> = Node::new(&allocator, bad);
    let e = two_ints(&node, "+").unwrap_err();
    assert_eq!(e.0, t1);
    assert_eq!(e.1, "+ requires int args");
}
