use regatelisp::error::EvalError;
use regatelisp::ir_eval::Runtime;

#[test]
fn gensym_counter_overflow_is_an_error() {
    let mut runtime = Runtime::new(String::new());
    runtime.set_next_gensym_id(u64::MAX);
    assert!(matches!(runtime.allocate_gensym(None), Err(EvalError::GensymIdOverflow)));
}

#[test]
fn gensym_ids_count_up() {
    let mut runtime = Runtime::new(String::new());
    runtime.set_next_gensym_id(41);
    assert!(runtime.allocate_gensym(None).is_ok());
    assert_eq!(runtime.next_gensym_id(), 42);
}
