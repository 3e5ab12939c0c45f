use regatelisp::globals::{GlobalRegistry, GlobalStore};
use regatelisp::value::Value;

#[test]
fn interning_same_name_returns_same_id() {
    let mut reg = GlobalRegistry::new();
    let a = reg.intern("x");
    let b = reg.intern("x");
    assert_eq!(a, b);
}

#[test]
fn redefinition_reuses_the_same_id() {
    let mut reg = GlobalRegistry::new();
    let first = reg.intern("count");
    let mut store = GlobalStore::new();
    store.define(first, Value::Int(3));
    let second = reg.intern("count");
    assert_eq!(first, second);
    store.define(second, Value::Int(5));
    assert!(matches!(store.get(first), Some(Value::Int(5))));
}

#[test]
fn unbound_global_reads_as_none() {
    let mut reg = GlobalRegistry::new();
    let id = reg.intern("later");
    let mut store = GlobalStore::new();
    store.ensure(id);
    assert!(store.get(id).is_none());
}

#[test]
fn name_round_trips() {
    let mut reg = GlobalRegistry::new();
    let id = reg.intern("square");
    assert_eq!(reg.name(id), Some("square"));
    assert_eq!(reg.lookup("square"), Some(id));
}

#[test]
fn distinct_names_get_ids_in_order() {
    let mut reg = GlobalRegistry::new();
    let a = reg.intern("a");
    let b = reg.intern("b");
    assert_eq!(a.0, 0);
    assert_eq!(b.0, 1);
    assert_eq!(reg.len(), 2);
}
