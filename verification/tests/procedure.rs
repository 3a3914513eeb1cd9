use ares::error::AresError;
use ares::eval::procedure::Procedure;
use ares::heap::Heap;
use ares::value::{Kind, Value};

fn names(list: &[&str]) -> Vec<String> {
    list.iter().map(|s| s.to_string()).collect()
}

fn int_at(heap: &Heap, env: ares::value::Env, name: &str) -> Option<i64> {
    match heap.lookup(env, name) {
        Ok(Value::Int(i)) => Some(i),
        Ok(other) => panic!("expected an integer, got {:?}", other),
        Err(AresError::UnboundName(_)) => None,
        Err(other) => panic!("unexpected error {:?}", other),
    }
}

#[test]
fn new_keeps_what_it_is_given() {
    let mut heap = Heap::new();
    let root = heap.new_root();
    let body = heap.new_list(vec![Value::Int(1)]);
    let p = Procedure::new(Some("f".to_string()), body, names(&["a", "b"]), root);
    assert_eq!(p.name, Some("f".to_string()));
    assert_eq!(p.name(), &Some("f".to_string()));
    assert_eq!(p.bodies, body);
    assert_eq!(p.bodies(), body);
    assert_eq!(p.param_names(), &names(&["a", "b"]));
    assert_eq!(p.environment(), root);
    assert_eq!(p.identity(), (body.index, root.index));
}

#[test]
fn a_call_frame_binds_parameters_to_arguments_in_order() {
    let mut heap = Heap::new();
    let root = heap.new_root();
    let body = heap.new_list(vec![]);
    let p = Procedure::new(None, body, names(&["a", "b", "c"]), root);
    let frame = p.gen_env(&mut heap, &vec![Value::Int(10), Value::Int(20), Value::Int(30)]);
    assert_eq!(int_at(&heap, frame, "a"), Some(10));
    assert_eq!(int_at(&heap, frame, "b"), Some(20));
    assert_eq!(int_at(&heap, frame, "c"), Some(30));
}

#[test]
fn an_argument_beyond_the_parameters_is_left_out() {
    let mut heap = Heap::new();
    let root = heap.new_root();
    let body = heap.new_list(vec![]);
    let p = Procedure::new(None, body, names(&["a", "b"]), root);
    let frame = p.gen_env(&mut heap, &vec![Value::Int(1), Value::Int(2), Value::Int(3)]);
    assert_eq!(int_at(&heap, frame, "a"), Some(1));
    assert_eq!(int_at(&heap, frame, "b"), Some(2));
    assert_eq!(int_at(&heap, frame, "c"), None);
}

#[test]
fn a_parameter_beyond_the_arguments_stays_unbound() {
    let mut heap = Heap::new();
    let root = heap.new_root();
    let body = heap.new_list(vec![]);
    let p = Procedure::new(None, body, names(&["a", "b", "c"]), root);
    let frame = p.gen_env(&mut heap, &vec![Value::Int(1), Value::Int(2)]);
    assert_eq!(int_at(&heap, frame, "a"), Some(1));
    assert_eq!(int_at(&heap, frame, "b"), Some(2));
    assert_eq!(int_at(&heap, frame, "c"), None);
    let empty = p.gen_env(&mut heap, &vec![]);
    assert_eq!(int_at(&heap, empty, "a"), None);
}

#[test]
fn a_call_frame_is_a_child_of_the_captured_frame() {
    let mut heap = Heap::new();
    let root = heap.new_root();
    heap.define(root, "global".to_string(), Value::Int(7));
    let scope = heap.new_child(root, vec![("free".to_string(), Value::Int(8))]);
    let elsewhere = heap.new_child(root, vec![("free".to_string(), Value::Int(9))]);
    let body = heap.new_list(vec![Value::Int(5)]);
    let p = Procedure::new(None, body, names(&["x"]), scope);
    let before = heap.frame_count();
    let frame = p.gen_env(&mut heap, &vec![Value::Int(1)]);
    assert_eq!(frame.index, before);
    assert_eq!(heap.frame_count(), before + 1);
    assert_eq!(int_at(&heap, frame, "x"), Some(1));
    assert_eq!(int_at(&heap, frame, "free"), Some(8));
    assert_eq!(int_at(&heap, frame, "global"), Some(7));
    assert_eq!(int_at(&heap, scope, "x"), None);
    assert_eq!(int_at(&heap, elsewhere, "free"), Some(9));
    assert_eq!(heap.list_len(body), 1);
    let again = p.gen_env(&mut heap, &vec![Value::Int(2)]);
    assert_ne!(again, frame);
    assert_eq!(int_at(&heap, again, "x"), Some(2));
    assert_eq!(int_at(&heap, frame, "x"), Some(1));
}

#[test]
fn the_later_of_two_parameters_of_one_name_counts() {
    let mut heap = Heap::new();
    let root = heap.new_root();
    let body = heap.new_list(vec![]);
    let p = Procedure::new(None, body, names(&["a", "a"]), root);
    let frame = p.gen_env(&mut heap, &vec![Value::Int(1), Value::Int(2)]);
    assert_eq!(int_at(&heap, frame, "a"), Some(2));
}

#[test]
fn closures_over_the_same_objects_are_equal() {
    let mut heap = Heap::new();
    let root = heap.new_root();
    let body = heap.new_list(vec![Value::Int(1)]);
    let a = Procedure::new(Some("a".to_string()), body, names(&["x"]), root);
    let b = Procedure::new(Some("b".to_string()), body, names(&["y", "z"]), root);
    assert!(a == b);
    assert_eq!(a.identity(), b.identity());
    let copy = a.clone();
    assert!(copy == a);
    assert_eq!(copy.identity(), a.identity());
    assert_eq!(copy.name, a.name);
    assert_eq!(copy.param_names(), a.param_names());
}

#[test]
fn a_closure_over_a_child_frame_is_another_closure() {
    let mut heap = Heap::new();
    let root = heap.new_root();
    let body = heap.new_list(vec![Value::Int(1)]);
    let child = heap.new_child(root, vec![]);
    let a = Procedure::new(None, body, names(&["x"]), root);
    let b = Procedure::new(None, body, names(&["x"]), child);
    assert!(a != b);
    assert_ne!(a.identity(), b.identity());
}

#[test]
fn closures_with_equal_but_different_bodies_are_different() {
    let mut heap = Heap::new();
    let root = heap.new_root();
    let first = heap.new_list(vec![Value::Int(1)]);
    let second = heap.new_list(vec![Value::Int(1)]);
    let a = Procedure::new(None, first, vec![], root);
    let b = Procedure::new(None, second, vec![], root);
    assert!(a != b);
}

#[test]
fn kinds_are_told_apart() {
    assert_eq!(Value::Int(1).kind(), Kind::Int);
    assert_eq!(Value::Bool(true).kind(), Kind::Bool);
    assert_eq!(Value::String("s".to_string()).kind(), Kind::String);
    assert_eq!(Value::Ident("s".to_string()).kind(), Kind::Ident);
    let copy = Value::String("s".to_string()).clone();
    assert!(matches!(copy, Value::String(s) if s == "s"));
}
