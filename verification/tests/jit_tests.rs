use tracelang::bytecode::BC;
use tracelang::ir::TraceError;
use tracelang::jit::Recorder;

fn lv(name: &[u8]) -> BC {
    BC::LoadVar(name.to_vec())
}

fn sv(name: &[u8]) -> BC {
    BC::StoreVar(name.to_vec())
}

#[test]
fn constant_folding_yields_exact_sum_without_add() {
    let mut rec = Recorder::new();
    rec.record(&vec![BC::LoadConst(2), BC::LoadConst(3), BC::Add]).unwrap();
    // two load-constant instructions, no add materialised
    assert_eq!(rec.ir().code_len(), 3);
    assert_eq!(rec.stack_len(), 1);
    let r = rec.stack_at(0);
    assert_eq!(rec.ir().const_value(r), Some(5));
}

#[test]
fn constant_folding_reuses_existing_pool_entry() {
    let mut rec = Recorder::new();
    rec.record(&vec![BC::LoadConst(5), BC::LoadConst(2), BC::LoadConst(3), BC::Add]).unwrap();
    // the folded 2 + 3 reuses the pooled 5: no fourth instruction
    assert_eq!(rec.ir().code_len(), 3);
    assert_eq!(rec.ir().const_count(), 3);
    assert_eq!(rec.stack_at(0), rec.stack_at(1));
}

#[test]
fn cse_repeated_add_returns_same_ref_without_growth() {
    let mut rec = Recorder::new();
    rec.record(&vec![lv(b"x"), lv(b"y"), BC::Add]).unwrap();
    let len1 = rec.ir().code_len();
    let r1 = rec.stack_at(0);
    rec.record(&vec![lv(b"x"), lv(b"y"), BC::Add]).unwrap();
    assert_eq!(rec.ir().code_len(), len1);
    assert_eq!(rec.stack_at(1), r1);
}

#[test]
fn cse_matches_commuted_operands() {
    let mut rec = Recorder::new();
    rec.record(&vec![lv(b"x"), lv(b"y"), BC::Add]).unwrap();
    let len1 = rec.ir().code_len();
    let r1 = rec.stack_at(0);
    rec.record(&vec![lv(b"y"), lv(b"x"), BC::Add]).unwrap();
    assert_eq!(rec.ir().code_len(), len1);
    assert_eq!(rec.stack_at(1), r1);
}

#[test]
fn cse_distinct_operands_append_new_add() {
    let mut rec = Recorder::new();
    rec.record(&vec![lv(b"x"), lv(b"y"), BC::Add]).unwrap();
    let len1 = rec.ir().code_len();
    rec.record(&vec![lv(b"x"), lv(b"z"), BC::Add]).unwrap();
    // one new load for z and one new add
    assert_eq!(rec.ir().code_len(), len1 + 2);
    assert_ne!(rec.stack_at(0), rec.stack_at(1));
}

#[test]
fn store_elimination_elides_rebinding_same_ref() {
    let mut rec = Recorder::new();
    rec.record(&vec![BC::LoadConst(7), sv(b"x")]).unwrap();
    assert_eq!(rec.ir().code_len(), 2);
    // storing the reference already bound to x is a no-op
    rec.record(&vec![lv(b"x"), sv(b"x")]).unwrap();
    assert_eq!(rec.ir().code_len(), 2);
}

#[test]
fn store_of_different_ref_appends_and_rebinds() {
    let mut rec = Recorder::new();
    rec.record(&vec![BC::LoadConst(7), sv(b"x")]).unwrap();
    let len1 = rec.ir().code_len();
    rec.record(&vec![BC::LoadConst(8), sv(b"x")]).unwrap();
    // one new constant, one new store
    assert_eq!(rec.ir().code_len(), len1 + 2);
    let bound = rec.env_lookup(0).unwrap();
    assert_eq!(rec.ir().const_value(bound), Some(8));
}

#[test]
fn load_forwarding_reads_same_ref_and_emits_one_load() {
    let mut rec = Recorder::new();
    rec.record(&vec![lv(b"x"), lv(b"x")]).unwrap();
    assert_eq!(rec.ir().code_len(), 1);
    assert_eq!(rec.stack_len(), 2);
    assert_eq!(rec.stack_at(0), rec.stack_at(1));
}

#[test]
fn print_is_never_deduplicated() {
    let mut rec = Recorder::new();
    rec.record(&vec![BC::LoadConst(1), BC::Print, BC::LoadConst(1), BC::Print]).unwrap();
    // one pooled constant, two prints
    assert_eq!(rec.ir().code_len(), 3);
}

#[test]
fn recorder_stack_underflow_is_fatal() {
    let mut rec = Recorder::new();
    assert_eq!(rec.record(&vec![BC::Add]), Err(TraceError::StackUnderflow));
    let mut rec2 = Recorder::new();
    assert_eq!(
        rec2.record(&vec![BC::LoadConst(1), BC::Add]),
        Err(TraceError::StackUnderflow)
    );
    let mut rec3 = Recorder::new();
    assert_eq!(rec3.record(&vec![BC::Print]), Err(TraceError::StackUnderflow));
}

#[test]
fn recorder_refuses_call_and_return() {
    let mut rec = Recorder::new();
    assert_eq!(
        rec.record(&vec![BC::Call(b"f".to_vec(), 0)]),
        Err(TraceError::UnsupportedCall)
    );
    let mut rec2 = Recorder::new();
    assert_eq!(rec2.record(&vec![BC::Ret]), Err(TraceError::UnsupportedReturn));
}

#[test]
fn folding_wraps_like_the_vm() {
    let mut rec = Recorder::new();
    rec.record(&vec![BC::LoadConst(i64::MAX), BC::LoadConst(1), BC::Add]).unwrap();
    let r = rec.stack_at(0);
    assert_eq!(rec.ir().const_value(r), Some(i64::MIN));
}
