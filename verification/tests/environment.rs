use ares::error::AresError;
use ares::eval::procedure::Procedure;
use ares::heap::Heap;
use ares::value::Value;

fn int_at(heap: &Heap, env: ares::value::Env, name: &str) -> Option<i64> {
    match heap.lookup(env, name) {
        Ok(Value::Int(i)) => Some(i),
        Ok(other) => panic!("expected an integer, got {:?}", other),
        Err(AresError::UnboundName(n)) => {
            assert_eq!(n, name);
            None
        }
        Err(other) => panic!("unexpected error {:?}", other),
    }
}

fn def(name: &str, value: i64) -> (String, Value) {
    (name.to_string(), Value::Int(value))
}

#[test]
fn lookup_finds_a_binding_of_the_frame_itself() {
    let mut heap = Heap::new();
    let root = heap.new_root();
    heap.define(root, "x".to_string(), Value::Int(1));
    assert_eq!(int_at(&heap, root, "x"), Some(1));
}

#[test]
fn lookup_fails_on_a_name_that_nothing_binds() {
    let mut heap = Heap::new();
    let root = heap.new_root();
    assert_eq!(int_at(&heap, root, "x"), None);
    heap.define(root, "x".to_string(), Value::Int(1));
    assert_eq!(int_at(&heap, root, "y"), None);
    let child = heap.new_child(root, vec![def("z", 3)]);
    assert_eq!(int_at(&heap, child, "y"), None);
    assert_eq!(int_at(&heap, child, ""), None);
}

#[test]
fn lookup_walks_up_a_long_chain() {
    let mut heap = Heap::new();
    let root = heap.new_root();
    heap.define(root, "deep".to_string(), Value::Int(99));
    let mut cur = root;
    for depth in 0..100 {
        cur = heap.new_child(cur, vec![def(&format!("level{}", depth), depth)]);
    }
    assert_eq!(int_at(&heap, cur, "deep"), Some(99));
    assert_eq!(int_at(&heap, cur, "level0"), Some(0));
    assert_eq!(int_at(&heap, cur, "level57"), Some(57));
    assert_eq!(int_at(&heap, cur, "level99"), Some(99));
    assert_eq!(int_at(&heap, cur, "level100"), None);
    assert_eq!(int_at(&heap, root, "level0"), None);
}

#[test]
fn the_nearest_binding_shadows_the_others() {
    let mut heap = Heap::new();
    let root = heap.new_root();
    heap.define(root, "x".to_string(), Value::Int(1));
    let middle = heap.new_child(root, vec![def("x", 2)]);
    let leaf = heap.new_child(middle, vec![]);
    assert_eq!(int_at(&heap, leaf, "x"), Some(2));
    assert_eq!(int_at(&heap, middle, "x"), Some(2));
    assert_eq!(int_at(&heap, root, "x"), Some(1));
}

#[test]
fn a_child_does_not_change_its_parent() {
    let mut heap = Heap::new();
    let root = heap.new_root();
    heap.define(root, "x".to_string(), Value::Int(1));
    let child = heap.new_child(root, vec![def("y", 2)]);
    assert_eq!(int_at(&heap, root, "y"), None);
    heap.define(child, "z".to_string(), Value::Int(3));
    heap.define(child, "x".to_string(), Value::Int(10));
    assert_eq!(int_at(&heap, root, "z"), None);
    assert_eq!(int_at(&heap, root, "x"), Some(1));
    assert_eq!(int_at(&heap, child, "x"), Some(10));
    assert_eq!(int_at(&heap, child, "z"), Some(3));
}

#[test]
fn siblings_do_not_see_each_other() {
    let mut heap = Heap::new();
    let root = heap.new_root();
    let a = heap.new_child(root, vec![def("a", 1)]);
    let b = heap.new_child(root, vec![def("b", 2)]);
    assert_eq!(int_at(&heap, a, "b"), None);
    assert_eq!(int_at(&heap, b, "a"), None);
    heap.define(root, "late".to_string(), Value::Int(7));
    assert_eq!(int_at(&heap, a, "late"), Some(7));
    assert_eq!(int_at(&heap, b, "late"), Some(7));
}

#[test]
fn the_later_of_two_bindings_of_a_name_counts() {
    let mut heap = Heap::new();
    let root = heap.new_root();
    let child = heap.new_child(root, vec![def("x", 1), def("y", 5), def("x", 2)]);
    assert_eq!(int_at(&heap, child, "x"), Some(2));
    assert_eq!(int_at(&heap, child, "y"), Some(5));
    heap.define(child, "x".to_string(), Value::Int(3));
    assert_eq!(int_at(&heap, child, "x"), Some(3));
    heap.define(child, "x".to_string(), Value::Int(4));
    assert_eq!(int_at(&heap, child, "x"), Some(4));
    assert_eq!(int_at(&heap, child, "y"), Some(5));
}

#[test]
fn a_frame_may_hold_a_closure_over_itself() {
    let mut heap = Heap::new();
    let root = heap.new_root();
    let body = heap.new_list(vec![Value::Ident("loop".to_string())]);
    let frame = heap.new_child(root, vec![]);
    let closure = Procedure::new(Some("loop".to_string()), body, vec![], frame);
    let value = Value::Lambda(closure.clone());
    assert!(heap.holds(&value));
    heap.define(frame, "loop".to_string(), value);
    match heap.lookup(frame, "loop") {
        Ok(Value::Lambda(found)) => {
            assert!(found == closure);
            assert_eq!(found.environment(), frame);
        }
        other => panic!("unexpected {:?}", other),
    }
}

#[test]
fn frames_and_lists_are_counted() {
    let mut heap = Heap::new();
    assert_eq!(heap.frame_count(), 0);
    assert_eq!(heap.list_count(), 0);
    let root = heap.new_root();
    let child = heap.new_child(root, vec![]);
    assert_eq!(root.index, 0);
    assert_eq!(child.index, 1);
    assert_eq!(heap.frame_count(), 2);
    let l = heap.new_list(vec![Value::Int(1), Value::Int(2)]);
    assert_eq!(heap.list_count(), 1);
    assert_eq!(heap.list_len(l), 2);
    assert!(matches!(heap.list_get(l, 1), Value::Int(2)));
    heap.list_push(l, Value::Int(3));
    assert_eq!(heap.list_len(l), 3);
    assert!(matches!(heap.list_get(l, 2), Value::Int(3)));
}
