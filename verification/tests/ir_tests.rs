use tracelang::ir::{IRIns, IROp, IRType, Ref, TraceError, IR, SENTINEL};

fn add_ins(a: u16, b: u16) -> IRIns {
    IRIns { op: IROp::Add, ty: IRType::Int, a: Ref(a), b: Ref(b), prev_same_op: SENTINEL }
}

#[test]
fn const_pool_dedup_same_ref_and_single_entry() {
    let mut ir = IR::new();
    let r1 = ir.emit_kint(42).unwrap();
    let r2 = ir.emit_kint(42).unwrap();
    assert_eq!(r1, r2);
    assert_eq!(ir.const_count(), 1);
    assert_eq!(ir.code_len(), 1);
}

#[test]
fn const_pool_distinct_values_distinct_refs() {
    let mut ir = IR::new();
    let r1 = ir.emit_kint(1).unwrap();
    let r2 = ir.emit_kint(2).unwrap();
    assert_ne!(r1, r2);
    assert_eq!(ir.const_count(), 2);
    assert_eq!(ir.code_len(), 2);
}

#[test]
fn const_value_resolves_pooled_literal() {
    let mut ir = IR::new();
    let r = ir.emit_kint(-7).unwrap();
    assert_eq!(ir.const_value(r), Some(-7));
    assert_eq!(ir.const_value(Ref(999)), None);
}

#[test]
fn const_value_of_non_constant_is_absent() {
    let mut ir = IR::new();
    let k = ir.emit_kint(1).unwrap();
    let r = ir.push(add_ins(k.0, k.0)).unwrap();
    assert_eq!(ir.const_value(r), None);
}

#[test]
fn intern_sym_is_stable_and_dense() {
    let mut ir = IR::new();
    let x1 = ir.intern_sym(&b"x".to_vec()).unwrap();
    let y = ir.intern_sym(&b"y".to_vec()).unwrap();
    let x2 = ir.intern_sym(&b"x".to_vec()).unwrap();
    assert_eq!(x1, 0);
    assert_eq!(y, 1);
    assert_eq!(x1, x2);
    assert_eq!(ir.sym_count(), 2);
}

#[test]
fn push_threads_same_opcode_chain() {
    let mut ir = IR::new();
    assert_eq!(ir.chain_head(IROp::Add), SENTINEL);
    let r0 = ir.push(add_ins(5, 6)).unwrap();
    let r1 = ir.push(add_ins(7, 8)).unwrap();
    assert_eq!(ir.chain_head(IROp::Add), r1.0);
    assert_eq!(ir.ins_at(r1.0).prev_same_op, r0.0);
    assert_eq!(ir.ins_at(r0.0).prev_same_op, SENTINEL);
}

#[test]
fn capacity_boundary_is_reported_not_wrapped() {
    let mut ir = IR::new();
    for _ in 0..65535u32 {
        assert!(ir.push(add_ins(0, 0)).is_ok());
    }
    assert_eq!(ir.code_len(), 65535);
    assert_eq!(ir.push(add_ins(0, 0)), Err(TraceError::Capacity));
    assert_eq!(ir.code_len(), 65535);
}
