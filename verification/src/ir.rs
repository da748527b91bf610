//! The IR buffer: an append-only, position-addressed sequence of typed
//! instructions, together with the two interning pools (integer constants and
//! variable-name symbols). Each instruction carries a backward link to the
//! previous instruction of the same opcode; the per-opcode chain heads live in
//! a 256-slot table so a backward walk can be seeded in constant time.
//!
//! Every mutation is specified against an abstract view ([`IRView`]) by pure
//! spec transition functions, so that laws about repeated emissions can be
//! stated and proved once over the view.

use vstd::prelude::*;

verus! {

/// The reserved 16-bit index meaning "absent": no operand, no prior
/// instruction of this opcode, or an empty chain-head slot.
pub const SENTINEL: u16 = 0xffff;

/// At most this many instructions fit in the buffer: the 16-bit address space
/// minus the one reserved sentinel index.
pub const CAPACITY: usize = 0xffff;

/// The symbol pool assigns dense 16-bit indices, so it holds at most this many
/// distinct names.
pub const SYM_CAPACITY: usize = 0x10000;

/// An error that ends the current recording session. Capacity overflow of the
/// 16-bit index space, operand-stack underflow, and the two bytecode
/// operations the recorder refuses to trace are all fatal: none is recovered
/// from, per the error-handling design.
#[derive(Debug, Clone, Copy, PartialEq, Eq, Structural)]
pub enum TraceError {
    Capacity,
    StackUnderflow,
    UnsupportedCall,
    UnsupportedReturn,
}

/// The opcode tag of an IR instruction.
#[derive(Debug, Clone, Copy, PartialEq, Eq, Structural)]
pub enum IROp {
    KInt,
    Add,
    LoadVar,
    StoreVar,
    Print,
}

/// The value-kind tag: integer, or untyped/any for effectful operations.
#[derive(Debug, Clone, Copy, PartialEq, Eq, Structural)]
pub enum IRType {
    Int,
    Any,
}

/// An opaque index into the IR instruction buffer: "the result produced by the
/// instruction at this position". `Ref(SENTINEL)` marks an absent operand.
#[derive(Debug, Clone, Copy, PartialEq, Eq, Structural)]
pub struct Ref(pub u16);

/// One fixed-shape IR instruction. For `KInt`, `a` holds the constant-pool
/// index; for `LoadVar` and `StoreVar`, `a` holds the symbol index and `b` the
/// stored value (stores only); for `Add`, `a` and `b` are the operands.
#[derive(Debug, Clone, Copy, PartialEq, Eq, Structural)]
pub struct IRIns {
    pub op: IROp,
    pub ty: IRType,
    pub a: Ref,
    pub b: Ref,
    pub prev_same_op: u16,
}

/// The chain-head table slot used for an opcode.
pub open spec fn op_index(op: IROp) -> int {
    match op {
        IROp::KInt => 0,
        IROp::Add => 1,
        IROp::LoadVar => 2,
        IROp::StoreVar => 3,
        IROp::Print => 4,
    }
}

/// Executable twin of [`op_index`].
pub fn op_slot(op: IROp) -> (i: usize)
    ensures
        i as int == op_index(op),
        i < 5,
{
    match op {
        IROp::KInt => 0,
        IROp::Add => 1,
        IROp::LoadVar => 2,
        IROp::StoreVar => 3,
        IROp::Print => 4,
    }
}

/// The abstract state of one IR buffer: the instruction sequence, the 256
/// chain-head slots, the constant pool (each entry a literal value paired with
/// the reference of its unique load-constant instruction), and the symbol
/// pool.
pub struct IRView {
    pub code: Seq<IRIns>,
    pub heads: Seq<u16>,
    pub consts: Seq<(i64, Ref)>,
    pub syms: Seq<Seq<u8>>,
}

/// `h` correctly identifies the most recent instruction of opcode `op` in
/// `code`: the sentinel when there is none, otherwise the last such position.
pub open spec fn chain_ok(code: Seq<IRIns>, op: IROp, h: u16) -> bool {
    if h == SENTINEL {
        forall|j: int| 0 <= j < code.len() ==> (#[trigger] code[j]).op != op
    } else {
        &&& (h as int) < code.len()
        &&& code[h as int].op == op
        &&& forall|j: int| (h as int) < j < code.len() ==> (#[trigger] code[j]).op != op
    }
}

/// The backward link of instruction `i` is a correct chain head for the
/// prefix before `i`, with respect to `i`'s own opcode.
pub open spec fn link_ok(code: Seq<IRIns>, i: int) -> bool {
    chain_ok(code.take(i), code[i].op, code[i].prev_same_op)
}

pub open spec fn links_ok(code: Seq<IRIns>) -> bool {
    forall|i: int| 0 <= i < code.len() ==> #[trigger] link_ok(code, i)
}

/// First pool index holding value `n`, or -1 when absent.
pub open spec fn find_const(cs: Seq<(i64, Ref)>, n: i64) -> int
    decreases cs.len(),
{
    if cs.len() == 0 {
        -1
    } else if cs[0].0 == n {
        0
    } else {
        let r = find_const(cs.skip(1), n);
        if r == -1 {
            -1
        } else {
            r + 1
        }
    }
}

/// First symbol-pool index holding name `s`, or -1 when absent.
pub open spec fn find_sym(syms: Seq<Seq<u8>>, s: Seq<u8>) -> int
    decreases syms.len(),
{
    if syms.len() == 0 {
        -1
    } else if syms[0] == s {
        0
    } else {
        let r = find_sym(syms.skip(1), s);
        if r == -1 {
            -1
        } else {
            r + 1
        }
    }
}

impl IRView {
    /// Pool entry `k` is intact: its reference points at a load-constant
    /// instruction that carries exactly pool index `k`.
    pub open spec fn const_entry_ok(self, k: int) -> bool {
        let r = self.consts[k].1;
        &&& (r.0 as int) < self.code.len()
        &&& self.code[r.0 as int].op == IROp::KInt
        &&& self.code[r.0 as int].ty == IRType::Int
        &&& self.code[r.0 as int].a == Ref(k as u16)
    }

    pub open spec fn consts_wf(self) -> bool {
        &&& self.consts.len() <= self.code.len()
        &&& forall|k: int| 0 <= k < self.consts.len() ==> #[trigger] self.const_entry_ok(k)
        &&& forall|k1: int, k2: int|
            0 <= k1 < k2 < self.consts.len() ==> (#[trigger] self.consts[k1]).0 != (
            #[trigger] self.consts[k2]).0
    }

    pub open spec fn syms_wf(self) -> bool {
        &&& self.syms.len() <= SYM_CAPACITY as int
        &&& forall|i: int, j: int|
            0 <= i < j < self.syms.len() ==> #[trigger] self.syms[i] != #[trigger] self.syms[j]
    }

    /// Well-formedness of a buffer: bounded size, intact chain-head table,
    /// intact backward links, and intact, duplicate-free pools.
    pub open spec fn wf(self) -> bool {
        &&& self.code.len() <= CAPACITY as int
        &&& self.heads.len() == 256
        &&& chain_ok(self.code, IROp::KInt, self.heads[0])
        &&& chain_ok(self.code, IROp::Add, self.heads[1])
        &&& chain_ok(self.code, IROp::LoadVar, self.heads[2])
        &&& chain_ok(self.code, IROp::StoreVar, self.heads[3])
        &&& chain_ok(self.code, IROp::Print, self.heads[4])
        &&& links_ok(self.code)
        &&& self.consts_wf()
        &&& self.syms_wf()
    }

    /// The literal carried by the instruction `r` denotes, when that
    /// instruction is a load-constant with a pooled index; absent otherwise.
    pub open spec fn const_value(self, r: Ref) -> Option<i64> {
        if (r.0 as int) < self.code.len() && self.code[r.0 as int].op == IROp::KInt && (self.code[
            r.0 as int].a.0 as int) < self.consts.len() {
            Some(self.consts[self.code[r.0 as int].a.0 as int].0)
        } else {
            None
        }
    }

    /// Appending: the instruction receives the next position, its backward
    /// link is set to the current chain head of its opcode, and that head is
    /// updated; past the capacity ceiling nothing changes and the capacity
    /// error is reported.
    pub open spec fn push(self, ins: IRIns) -> (IRView, Result<Ref, TraceError>) {
        if self.code.len() < CAPACITY as int {
            let idx = self.code.len() as u16;
            let slot = op_index(ins.op);
            let ins2 = IRIns { prev_same_op: self.heads[slot], ..ins };
            let v2 = IRView {
                code: self.code.push(ins2),
                heads: self.heads.update(slot, idx),
                consts: self.consts,
                syms: self.syms,
            };
            (v2, Ok(Ref(idx)))
        } else {
            (self, Err(TraceError::Capacity))
        }
    }

    /// Emitting a constant: an existing pool entry is reused without any new
    /// instruction; otherwise a pool slot is allocated and one load-constant
    /// instruction appended.
    pub open spec fn emit_kint(self, n: i64) -> (IRView, Result<Ref, TraceError>) {
        let k = find_const(self.consts, n);
        if k >= 0 {
            (self, Ok(self.consts[k].1))
        } else {
            let kid = self.consts.len() as u16;
            let ins = IRIns {
                op: IROp::KInt,
                ty: IRType::Int,
                a: Ref(kid),
                b: Ref(SENTINEL),
                prev_same_op: SENTINEL,
            };
            let (v2, r) = self.push(ins);
            match r {
                Ok(rr) => (
                    IRView {
                        code: v2.code,
                        heads: v2.heads,
                        consts: v2.consts.push((n, rr)),
                        syms: v2.syms,
                    },
                    Ok(rr),
                ),
                Err(e) => (self, Err(e)),
            }
        }
    }

    /// Interning a name: an existing index is returned unchanged, else the
    /// next dense index is allocated; a full pool is a capacity error.
    pub open spec fn intern_sym(self, s: Seq<u8>) -> (IRView, Result<u16, TraceError>) {
        let k = find_sym(self.syms, s);
        if k >= 0 {
            (self, Ok(k as u16))
        } else if self.syms.len() < SYM_CAPACITY as int {
            let v2 = IRView {
                code: self.code,
                heads: self.heads,
                consts: self.consts,
                syms: self.syms.push(s),
            };
            (v2, Ok(self.syms.len() as u16))
        } else {
            (self, Err(TraceError::Capacity))
        }
    }
}

/// `find_const` returns -1 exactly when the value is absent, and otherwise
/// the first index holding it.
pub proof fn lemma_find_const(cs: Seq<(i64, Ref)>, n: i64)
    ensures
        find_const(cs, n) == -1 ==> forall|k: int|
            0 <= k < cs.len() ==> (#[trigger] cs[k]).0 != n,
        find_const(cs, n) != -1 ==> {
            &&& 0 <= find_const(cs, n) < cs.len()
            &&& cs[find_const(cs, n)].0 == n
            &&& forall|k: int| 0 <= k < find_const(cs, n) ==> (#[trigger] cs[k]).0 != n
        },
    decreases cs.len(),
{
    if cs.len() != 0 && cs[0].0 != n {
        lemma_find_const(cs.skip(1), n);
        assert forall|k: int| 1 <= k < cs.len() implies cs[k] == cs.skip(1)[k - 1] by {}
    }
}

/// Appending a value that was absent places it at the old pool length.
pub proof fn lemma_find_const_push(cs: Seq<(i64, Ref)>, n: i64, r: Ref)
    requires
        find_const(cs, n) == -1,
    ensures
        find_const(cs.push((n, r)), n) == cs.len(),
    decreases cs.len(),
{
    let cs2 = cs.push((n, r));
    if cs.len() == 0 {
        assert(cs2[0].0 == n);
    } else {
        assert(cs2[0] == cs[0]);
        assert(cs[0].0 != n);
        lemma_find_const(cs.skip(1), n);
        assert(find_const(cs.skip(1), n) == -1);
        lemma_find_const_push(cs.skip(1), n, r);
        assert(cs2.skip(1) =~= cs.skip(1).push((n, r)));
    }
}

/// `find_sym` returns -1 exactly when the name is absent, and otherwise the
/// first index holding it.
pub proof fn lemma_find_sym(syms: Seq<Seq<u8>>, s: Seq<u8>)
    ensures
        find_sym(syms, s) == -1 ==> forall|k: int| 0 <= k < syms.len() ==> #[trigger] syms[k] != s,
        find_sym(syms, s) != -1 ==> {
            &&& 0 <= find_sym(syms, s) < syms.len()
            &&& syms[find_sym(syms, s)] == s
            &&& forall|k: int| 0 <= k < find_sym(syms, s) ==> #[trigger] syms[k] != s
        },
    decreases syms.len(),
{
    if syms.len() != 0 && syms[0] != s {
        lemma_find_sym(syms.skip(1), s);
        assert forall|k: int| 1 <= k < syms.len() implies syms[k] == syms.skip(1)[k - 1] by {}
    }
}

/// Appending one instruction keeps a chain head correct: the head moves to
/// the new position for the appended opcode and is untouched for the others.
proof fn lemma_push_chain(code: Seq<IRIns>, ins2: IRIns, op: IROp, h: u16)
    requires
        chain_ok(code, op, h),
        code.len() < SENTINEL as int,
    ensures
        ins2.op == op ==> chain_ok(code.push(ins2), op, code.len() as u16),
        ins2.op != op ==> chain_ok(code.push(ins2), op, h),
{
    let code2 = code.push(ins2);
    assert(forall|j: int| 0 <= j < code.len() ==> code2[j] == code[j]);
    assert(code2[code.len() as int] == ins2);
}

/// Appending preserves well-formedness, and the result is as [`IRView::push`]
/// describes.
pub proof fn lemma_push_wf(v: IRView, ins: IRIns)
    requires
        v.wf(),
    ensures
        v.push(ins).0.wf(),
{
    if v.code.len() < CAPACITY as int {
        let idx = v.code.len() as u16;
        let slot = op_index(ins.op);
        let ins2 = IRIns { prev_same_op: v.heads[slot], ..ins };
        let v2 = v.push(ins).0;
        assert(chain_ok(v.code, ins2.op, v.heads[slot]));
        lemma_push_chain(v.code, ins2, IROp::KInt, v.heads[0]);
        lemma_push_chain(v.code, ins2, IROp::Add, v.heads[1]);
        lemma_push_chain(v.code, ins2, IROp::LoadVar, v.heads[2]);
        lemma_push_chain(v.code, ins2, IROp::StoreVar, v.heads[3]);
        lemma_push_chain(v.code, ins2, IROp::Print, v.heads[4]);
        assert forall|i: int| 0 <= i < v2.code.len() implies #[trigger] link_ok(v2.code, i) by {
            if i < v.code.len() {
                assert(link_ok(v.code, i));
                assert(v2.code.take(i) =~= v.code.take(i));
                assert(v2.code[i] == v.code[i]);
            } else {
                assert(v2.code.take(i) =~= v.code);
                assert(v2.code[i] == ins2);
            }
        }
        assert forall|k: int| 0 <= k < v2.consts.len() implies #[trigger] v2.const_entry_ok(k) by {
            assert(v.const_entry_ok(k));
            assert(v2.code[(v.consts[k].1).0 as int] == v.code[(v.consts[k].1).0 as int]);
        }
    }
}

/// Emitting a constant preserves well-formedness; on success the returned
/// reference resolves to exactly the emitted value.
pub proof fn lemma_emit_kint_wf(v: IRView, n: i64)
    requires
        v.wf(),
    ensures
        v.emit_kint(n).0.wf(),
        (v.emit_kint(n).1 matches Ok(r) ==> v.emit_kint(n).0.const_value(r) == Some(n)),
{
    let k = find_const(v.consts, n);
    lemma_find_const(v.consts, n);
    if k >= 0 {
        assert(v.const_entry_ok(k));
    } else {
        let kid = v.consts.len() as u16;
        let ins = IRIns {
            op: IROp::KInt,
            ty: IRType::Int,
            a: Ref(kid),
            b: Ref(SENTINEL),
            prev_same_op: SENTINEL,
        };
        lemma_push_wf(v, ins);
        if v.code.len() < CAPACITY as int {
            let vp = v.push(ins).0;
            let rr = v.push(ins).1;
            let v2 = v.emit_kint(n).0;
            assert(v2.code == vp.code && v2.heads == vp.heads);
            assert forall|j: int| 0 <= j < v2.consts.len() implies #[trigger] v2.const_entry_ok(
                j,
            ) by {
                if j < v.consts.len() {
                    assert(v.const_entry_ok(j));
                    assert(v2.code[(v.consts[j].1).0 as int] == v.code[(v.consts[j].1).0 as int]);
                } else {
                    assert(v2.consts[j] == (n, Ref(v.code.len() as u16)));
                    assert(v2.code[v.code.len() as int].a == Ref(kid));
                }
            }
            assert(v2.const_entry_ok(v.consts.len() as int));
            assert(v2.const_value(Ref(v.code.len() as u16)) == Some(n));
        }
    }
}

/// Interning preserves well-formedness.
pub proof fn lemma_intern_sym_wf(v: IRView, s: Seq<u8>)
    requires
        v.wf(),
    ensures
        v.intern_sym(s).0.wf(),
{
    let k = find_sym(v.syms, s);
    lemma_find_sym(v.syms, s);
    if k == -1 && v.syms.len() < SYM_CAPACITY as int {
        let v2 = v.intern_sym(s).0;
        assert forall|i: int, j: int| 0 <= i < j < v2.syms.len() implies #[trigger] v2.syms[i]
            != #[trigger] v2.syms[j] by {
            if j < v.syms.len() {
                assert(v.syms[i] != v.syms[j]);
            } else {
                assert(v2.syms[j] == s && v2.syms[i] == v.syms[i]);
            }
        }
        assert(v2.syms_wf());
        assert(v2.code == v.code && v2.heads == v.heads && v2.consts == v.consts);
        assert forall|kk: int| 0 <= kk < v2.consts.len() implies #[trigger] v2.const_entry_ok(
            kk,
        ) by {
            assert(v.const_entry_ok(kk));
        }
        assert(v2.wf());
    }
}

/// The IR buffer and its two interning pools. All higher-level emission goes
/// through [`IR::push`]; references handed out are stable for the buffer's
/// lifetime.
pub struct IR {
    code: Vec<IRIns>,
    last_of_op: Vec<u16>,
    consts: Vec<(i64, Ref)>,
    syms: Vec<Vec<u8>>,
}

impl View for IR {
    type V = IRView;

    closed spec fn view(&self) -> IRView {
        IRView {
            code: self.code@,
            heads: self.last_of_op@,
            consts: self.consts@,
            syms: self.syms.deep_view(),
        }
    }
}

impl IR {
    /// An empty buffer: no instructions, no pool entries, every chain-head
    /// slot holding the sentinel.
    pub fn new() -> (ir: IR)
        ensures
            ir@.wf(),
            ir@.code.len() == 0,
            ir@.consts.len() == 0,
            ir@.syms.len() == 0,
            ir@.heads.len() == 256,
            forall|c: int| 0 <= c < 256 ==> ir@.heads[c] == SENTINEL,
    {
        let mut heads: Vec<u16> = Vec::new();
        let mut i: usize = 0;
        while i < 256
            invariant
                i <= 256,
                heads@.len() == i,
                forall|c: int| 0 <= c < i ==> heads@[c] == SENTINEL,
            decreases 256 - i,
        {
            heads.push(SENTINEL);
            i = i + 1;
        }
        IR { code: Vec::new(), last_of_op: heads, consts: Vec::new(), syms: Vec::new() }
    }

    pub fn code_len(&self) -> (n: usize)
        ensures
            n == self@.code.len(),
    {
        self.code.len()
    }

    pub fn const_count(&self) -> (n: usize)
        ensures
            n == self@.consts.len(),
    {
        self.consts.len()
    }

    pub fn sym_count(&self) -> (n: usize)
        ensures
            n == self@.syms.len(),
    {
        self.syms.len()
    }

    /// The instruction at a valid position.
    pub fn ins_at(&self, i: u16) -> (ins: IRIns)
        requires
            (i as int) < self@.code.len(),
        ensures
            ins == self@.code[i as int],
    {
        self.code[i as usize]
    }

    /// The current chain head for an opcode.
    pub fn chain_head(&self, op: IROp) -> (h: u16)
        requires
            self@.heads.len() == 256,
        ensures
            h == self@.heads[op_index(op)],
    {
        self.last_of_op[op_slot(op)]
    }

    /// Appends one instruction, threading it onto its opcode's backward
    /// chain; reports a capacity error at the 16-bit address ceiling instead
    /// of wrapping the index.
    pub fn push(&mut self, ins: IRIns) -> (r: Result<Ref, TraceError>)
        requires
            old(self)@.wf(),
        ensures
            final(self)@.wf(),
            (final(self)@, r) == old(self)@.push(ins),
    {
        proof {
            lemma_push_wf(old(self)@, ins);
        }
        if self.code.len() < CAPACITY {
            let idx: u16 = self.code.len() as u16;
            let slot: usize = op_slot(ins.op);
            let prev: u16 = self.last_of_op[slot];
            let ins2 = IRIns { op: ins.op, ty: ins.ty, a: ins.a, b: ins.b, prev_same_op: prev };
            self.code.push(ins2);
            self.last_of_op[slot] = idx;
            Ok(Ref(idx))
        } else {
            Err(TraceError::Capacity)
        }
    }

    /// Emits a load-constant for `n`, reusing the pooled instruction when `n`
    /// was emitted before: at most one load-constant instruction exists per
    /// distinct literal value.
    pub fn emit_kint(&mut self, n: i64) -> (r: Result<Ref, TraceError>)
        requires
            old(self)@.wf(),
        ensures
            final(self)@.wf(),
            (final(self)@, r) == old(self)@.emit_kint(n),
    {
        proof {
            lemma_emit_kint_wf(old(self)@, n);
            lemma_find_const(old(self)@.consts, n);
        }
        match Self::scan_consts(&self.consts, n) {
            Some(k) => Ok(self.consts[k].1),
            None => {
                let kid: u16 = self.consts.len() as u16;
                let ins = IRIns {
                    op: IROp::KInt,
                    ty: IRType::Int,
                    a: Ref(kid),
                    b: Ref(SENTINEL),
                    prev_same_op: SENTINEL,
                };
                match self.push(ins) {
                    Ok(rr) => {
                        self.consts.push((n, rr));
                        Ok(rr)
                    },
                    Err(e) => Err(e),
                }
            },
        }
    }

    /// Linear scan of the pool for a value; the executable counterpart of
    /// [`find_const`].
    fn scan_consts(cs: &Vec<(i64, Ref)>, n: i64) -> (k: Option<usize>)
        ensures
            match k {
                Some(j) => find_const(cs@, n) == j as int,
                None => find_const(cs@, n) == -1,
            },
    {
        proof {
            lemma_find_const(cs@, n);
        }
        let mut i: usize = 0;
        while i < cs.len()
            invariant
                i <= cs@.len(),
                forall|j: int| 0 <= j < i ==> (#[trigger] cs@[j]).0 != n,
            decreases cs@.len() - i,
        {
            if cs[i].0 == n {
                proof {
                    lemma_find_const(cs@, n);
                }
                return Some(i);
            }
            i = i + 1;
        }
        None
    }

    /// Resolves a reference to the literal it denotes, when its instruction
    /// is a load-constant. Constant time: one instruction read and one pool
    /// read.
    pub fn const_value(&self, r: Ref) -> (v: Option<i64>)
        ensures
            v == self@.const_value(r),
    {
        let i = r.0 as usize;
        if i < self.code.len() {
            let ins = self.code[i];
            if ins.op == IROp::KInt {
                let k = ins.a.0 as usize;
                if k < self.consts.len() {
                    return Some(self.consts[k].0);
                }
            }
        }
        None
    }

    /// Interns a variable name: the same name always maps to the same dense
    /// symbol index for the buffer's lifetime.
    pub fn intern_sym(&mut self, s: &Vec<u8>) -> (r: Result<u16, TraceError>)
        requires
            old(self)@.wf(),
        ensures
            final(self)@.wf(),
            (final(self)@, r) == old(self)@.intern_sym(s@),
    {
        proof {
            lemma_intern_sym_wf(old(self)@, s@);
        }
        match Self::scan_syms(&self.syms, s) {
            Some(k) => Ok(k as u16),
            None => {
                if self.syms.len() < SYM_CAPACITY {
                    let id: u16 = self.syms.len() as u16;
                    let copy = crate::bytecode::copy_bytes(s);
                    self.syms.push(copy);
                    proof {
                        let n0 = old(self).syms@.len() as int;
                        crate::bytecode::lemma_bytes_deep_view(self.syms@[n0]);
                        assert(self@.syms =~= old(self)@.syms.push(s@));
                    }
                    Ok(id)
                } else {
                    Err(TraceError::Capacity)
                }
            },
        }
    }

    /// Linear scan of the symbol pool; the executable counterpart of
    /// [`find_sym`].
    fn scan_syms(syms: &Vec<Vec<u8>>, s: &Vec<u8>) -> (k: Option<usize>)
        ensures
            match k {
                Some(j) => find_sym(syms.deep_view(), s@) == j as int,
                None => find_sym(syms.deep_view(), s@) == -1,
            },
    {
        proof {
            lemma_find_sym(syms.deep_view(), s@);
        }
        let mut i: usize = 0;
        while i < syms.len()
            invariant
                i <= syms@.len(),
                forall|j: int| 0 <= j < i ==> syms.deep_view()[j] != s@,
            decreases syms@.len() - i,
        {
            proof {
                crate::bytecode::lemma_bytes_deep_view(syms@[i as int]);
            }
            if crate::bytecode::bytes_eq(&syms[i], s) {
                proof {
                    lemma_find_sym(syms.deep_view(), s@);
                    assert(syms.deep_view()[i as int] == syms@[i as int].deep_view());
                    assert(syms.deep_view()[i as int] == s@);
                }
                return Some(i);
            }
            i = i + 1;
        }
        None
    }

}

/// Capacity boundary: the buffer accepts exactly [`CAPACITY`] instructions.
/// Below the ceiling an append succeeds and grows the sequence by one; the
/// very next append is reported as a capacity error and changes nothing —
/// the index is never silently wrapped.
pub proof fn lemma_capacity_boundary(v: IRView, ins: IRIns)
    ensures
        v.code.len() < CAPACITY as int ==> {
            &&& v.push(ins).1 == Ok::<Ref, TraceError>(Ref(v.code.len() as u16))
            &&& v.push(ins).0.code.len() == v.code.len() + 1
        },
        v.code.len() >= CAPACITY as int ==> v.push(ins) == (v, Err::<Ref, TraceError>(
            TraceError::Capacity,
        )),
{
}

/// Constant pool deduplication: emitting the same literal twice in one
/// session yields the identical reference both times, the repeat leaves the
/// buffer untouched, and the pool holds exactly one entry for that literal.
pub proof fn lemma_constant_pool_dedup(v: IRView, n: i64)
    requires
        v.wf(),
    ensures
        ({
            let (v1, r1) = v.emit_kint(n);
            let (v2, r2) = v1.emit_kint(n);
            r1 is Ok ==> {
                &&& r2 == r1
                &&& v2 == v1
                &&& exists|k: int| 0 <= k < v1.consts.len() && (#[trigger] v1.consts[k]).0 == n
                &&& forall|k1: int, k2: int|
                    (0 <= k1 < v1.consts.len() && 0 <= k2 < v1.consts.len() && (
                    #[trigger] v1.consts[k1]).0 == n && (#[trigger] v1.consts[k2]).0 == n)
                        ==> k1 == k2
            }
        }),
{
    let k = find_const(v.consts, n);
    lemma_find_const(v.consts, n);
    lemma_emit_kint_wf(v, n);
    let (v1, r1) = v.emit_kint(n);
    if k >= 0 {
        assert(v1 == v);
        assert(v1.consts[k].0 == n);
    } else if v.code.len() < CAPACITY as int {
        let rr = Ref(v.code.len() as u16);
        lemma_find_const_push(v.consts, n, rr);
        assert(v1.consts == v.consts.push((n, rr)));
        assert(find_const(v1.consts, n) == v.consts.len());
        assert(v1.consts[v.consts.len() as int].0 == n);
    }
}

} // verus!
