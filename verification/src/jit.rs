//! The trace recorder: replays one bytecode sequence into the IR buffer,
//! keeping an explicit value stack of IR references in place of the bytecode's
//! operand stack, and applying constant folding, common-subexpression
//! elimination, redundant-load elimination and redundant-store elimination on
//! the fly.
//!
//! Every step is specified by a pure transition function over [`RecView`];
//! the optimisation laws are proved once over those transitions.
//!
//! The `call` and `return` bytecodes are intentionally not traced: the
//! recorder stops with a distinct, explicit error for each rather than
//! proceed with an inconsistent stack.

use vstd::prelude::*;

use crate::bytecode::BC;
use crate::ir::{op_index, IRIns, IROp, IRType, IRView, Ref, TraceError, CAPACITY, IR, SENTINEL};
use crate::ir::{lemma_emit_kint_wf, lemma_find_const, lemma_push_wf};

verus! {

/// The abstract state of one recording session: the IR buffer, the value
/// stack of references, and the environment mapping each symbol index to the
/// reference currently believed to hold that variable's value.
pub struct RecView {
    pub ir: IRView,
    pub stack: Seq<Ref>,
    pub env: Seq<Option<Ref>>,
}

impl RecView {
    pub open spec fn wf(self) -> bool {
        self.ir.wf()
    }
}

/// The environment entry for a symbol; symbols beyond the dense prefix are
/// unbound.
pub open spec fn env_get(env: Seq<Option<Ref>>, sym: u16) -> Option<Ref> {
    if (sym as int) < env.len() {
        env[sym as int]
    } else {
        None
    }
}

/// Binding a symbol, growing the dense prefix with unbound slots as needed.
pub open spec fn env_set(env: Seq<Option<Ref>>, sym: u16, r: Ref) -> Seq<Option<Ref>> {
    if (sym as int) < env.len() {
        env.update(sym as int, Some(r))
    } else {
        (env + Seq::new((sym as int + 1 - env.len()) as nat, |j: int| None)).update(
            sym as int,
            Some(r),
        )
    }
}

/// Whether an instruction is an addition of exactly these two operands,
/// treating the pair as unordered: addition is commutative.
pub open spec fn add_match(ins: IRIns, a: Ref, b: Ref) -> bool {
    (ins.a == a && ins.b == b) || (ins.a == b && ins.b == a)
}

/// The backward walk over the add-opcode chain: starting from head `h`,
/// the first (nearest preceding) addition with operands `{a, b}`, or -1.
pub open spec fn cse_find(code: Seq<IRIns>, h: u16, a: Ref, b: Ref) -> int
    decreases h,
{
    if h == SENTINEL || code.len() <= h as int {
        -1
    } else if add_match(code[h as int], a, b) {
        h as int
    } else {
        let p = code[h as int].prev_same_op;
        if p < h {
            cse_find(code, p, a, b)
        } else {
            -1
        }
    }
}

/// The walk is insensitive to the operand order.
pub proof fn lemma_cse_find_comm(code: Seq<IRIns>, h: u16, a: Ref, b: Ref)
    ensures
        cse_find(code, h, a, b) == cse_find(code, h, b, a),
    decreases h,
{
    if h != SENTINEL && (h as int) < code.len() && !add_match(code[h as int], a, b) {
        let p = code[h as int].prev_same_op;
        if p < h {
            lemma_cse_find_comm(code, p, a, b);
        }
    }
}

/// `emit_add`: constant folding when both operands resolve to literals (the
/// sum wraps, matching the virtual machine's arithmetic), otherwise reuse of
/// the nearest matching prior addition, otherwise a fresh add instruction.
pub open spec fn spec_emit_add(s: RecView, a: Ref, b: Ref) -> (RecView, Result<Ref, TraceError>) {
    match (s.ir.const_value(a), s.ir.const_value(b)) {
        (Some(x), Some(y)) => {
            let (ir2, r) = s.ir.emit_kint(x.wrapping_add(y));
            (RecView { ir: ir2, ..s }, r)
        },
        _ => {
            let m = cse_find(s.ir.code, s.ir.heads[op_index(IROp::Add)], a, b);
            if m >= 0 {
                (s, Ok(Ref(m as u16)))
            } else {
                let ins = IRIns {
                    op: IROp::Add,
                    ty: IRType::Int,
                    a,
                    b,
                    prev_same_op: SENTINEL,
                };
                let (ir2, r) = s.ir.push(ins);
                match r {
                    Ok(rr) => (RecView { ir: ir2, ..s }, Ok(rr)),
                    Err(e) => (s, Err(e)),
                }
            }
        },
    }
}

/// `emit_loadvar`: a cached binding is forwarded without emitting anything;
/// otherwise one load instruction is appended and the binding recorded.
pub open spec fn spec_emit_loadvar(s: RecView, sym: u16) -> (RecView, Result<Ref, TraceError>) {
    match env_get(s.env, sym) {
        Some(r) => (s, Ok(r)),
        None => {
            let ins = IRIns {
                op: IROp::LoadVar,
                ty: IRType::Int,
                a: Ref(sym),
                b: Ref(SENTINEL),
                prev_same_op: SENTINEL,
            };
            let (ir2, r) = s.ir.push(ins);
            match r {
                Ok(rr) => (RecView { ir: ir2, env: env_set(s.env, sym, rr), stack: s.stack }, Ok(rr)),
                Err(e) => (s, Err(e)),
            }
        },
    }
}

/// `emit_storevar`: storing the reference already bound to the symbol is a
/// no-op; otherwise one store instruction is appended and the binding
/// replaced.
pub open spec fn spec_emit_storevar(s: RecView, sym: u16, v: Ref) -> (
    RecView,
    Result<(), TraceError>,
) {
    if env_get(s.env, sym) == Some(v) {
        (s, Ok(()))
    } else {
        let ins = IRIns {
            op: IROp::StoreVar,
            ty: IRType::Any,
            a: Ref(sym),
            b: v,
            prev_same_op: SENTINEL,
        };
        let (ir2, r) = s.ir.push(ins);
        match r {
            Ok(_) => (RecView { ir: ir2, env: env_set(s.env, sym, v), stack: s.stack }, Ok(())),
            Err(e) => (s, Err(e)),
        }
    }
}

/// `emit_print`: print is effectful and is always appended, never folded,
/// eliminated or deduplicated.
pub open spec fn spec_emit_print(s: RecView, v: Ref) -> (RecView, Result<(), TraceError>) {
    let ins = IRIns {
        op: IROp::Print,
        ty: IRType::Any,
        a: v,
        b: Ref(SENTINEL),
        prev_same_op: SENTINEL,
    };
    let (ir2, r) = s.ir.push(ins);
    match r {
        Ok(_) => (RecView { ir: ir2, ..s }, Ok(())),
        Err(e) => (s, Err(e)),
    }
}

/// One bytecode operation, translated into zero or more IR instructions.
/// Popping from an empty value stack is a fatal stack underflow, and the
/// untraced `call`/`return` operations each stop recording with their own
/// error.
pub open spec fn rec_step(s: RecView, op: BC) -> Result<RecView, TraceError> {
    match op {
        BC::LoadConst(n) => {
            let (ir2, r) = s.ir.emit_kint(n);
            match r {
                Ok(rr) => Ok(RecView { ir: ir2, stack: s.stack.push(rr), env: s.env }),
                Err(e) => Err(e),
            }
        },
        BC::LoadVar(name) => {
            let (ir2, r) = s.ir.intern_sym(name@);
            match r {
                Ok(sym) => {
                    let (s2, r2) = spec_emit_loadvar(RecView { ir: ir2, ..s }, sym);
                    match r2 {
                        Ok(rr) => Ok(RecView { stack: s2.stack.push(rr), ..s2 }),
                        Err(e) => Err(e),
                    }
                },
                Err(e) => Err(e),
            }
        },
        BC::StoreVar(name) => {
            if s.stack.len() == 0 {
                Err(TraceError::StackUnderflow)
            } else {
                let v = s.stack.last();
                let s1 = RecView { stack: s.stack.drop_last(), ..s };
                let (ir2, r) = s1.ir.intern_sym(name@);
                match r {
                    Ok(sym) => {
                        let (s2, r2) = spec_emit_storevar(RecView { ir: ir2, ..s1 }, sym, v);
                        match r2 {
                            Ok(_) => Ok(s2),
                            Err(e) => Err(e),
                        }
                    },
                    Err(e) => Err(e),
                }
            }
        },
        BC::Add => {
            if s.stack.len() < 2 {
                Err(TraceError::StackUnderflow)
            } else {
                let b = s.stack.last();
                let a = s.stack[s.stack.len() - 2];
                let s1 = RecView { stack: s.stack.drop_last().drop_last(), ..s };
                let (s2, r) = spec_emit_add(s1, a, b);
                match r {
                    Ok(rr) => Ok(RecView { stack: s2.stack.push(rr), ..s2 }),
                    Err(e) => Err(e),
                }
            }
        },
        BC::Print => {
            if s.stack.len() == 0 {
                Err(TraceError::StackUnderflow)
            } else {
                let v = s.stack.last();
                let s1 = RecView { stack: s.stack.drop_last(), ..s };
                let (s2, r) = spec_emit_print(s1, v);
                match r {
                    Ok(_) => Ok(s2),
                    Err(e) => Err(e),
                }
            }
        },
        BC::Call(_, _) => Err(TraceError::UnsupportedCall),
        BC::Ret => Err(TraceError::UnsupportedReturn),
    }
}

/// A whole bytecode sequence, operation by operation; the first error stops
/// the recording.
pub open spec fn rec_run(s: RecView, ops: Seq<BC>) -> Result<RecView, TraceError>
    decreases ops.len(),
{
    if ops.len() == 0 {
        Ok(s)
    } else {
        match rec_step(s, ops[0]) {
            Ok(s2) => rec_run(s2, ops.skip(1)),
            Err(e) => Err(e),
        }
    }
}

/// Unfolding `rec_run` at position `i` of a longer sequence.
proof fn lemma_rec_run_step(s: RecView, ops: Seq<BC>, i: int)
    requires
        0 <= i < ops.len(),
    ensures
        rec_run(s, ops.skip(i)) == (match rec_step(s, ops[i]) {
            Ok(s2) => rec_run(s2, ops.skip(i + 1)),
            Err(e) => Err(e),
        }),
{
    assert(ops.skip(i)[0] == ops[i]);
    assert(ops.skip(i).skip(1) =~= ops.skip(i + 1));
}

/// The fold/CSE/append transition preserves well-formedness.
pub proof fn lemma_emit_add_wf(s: RecView, a: Ref, b: Ref)
    requires
        s.wf(),
    ensures
        spec_emit_add(s, a, b).0.wf(),
{
    match (s.ir.const_value(a), s.ir.const_value(b)) {
        (Some(x), Some(y)) => {
            lemma_emit_kint_wf(s.ir, x.wrapping_add(y));
        },
        _ => {
            let ins = IRIns { op: IROp::Add, ty: IRType::Int, a, b, prev_same_op: SENTINEL };
            lemma_push_wf(s.ir, ins);
        },
    }
}

pub proof fn lemma_emit_loadvar_wf(s: RecView, sym: u16)
    requires
        s.wf(),
    ensures
        spec_emit_loadvar(s, sym).0.wf(),
{
    let ins = IRIns {
        op: IROp::LoadVar,
        ty: IRType::Int,
        a: Ref(sym),
        b: Ref(SENTINEL),
        prev_same_op: SENTINEL,
    };
    lemma_push_wf(s.ir, ins);
}

pub proof fn lemma_emit_storevar_wf(s: RecView, sym: u16, v: Ref)
    requires
        s.wf(),
    ensures
        spec_emit_storevar(s, sym, v).0.wf(),
{
    let ins = IRIns {
        op: IROp::StoreVar,
        ty: IRType::Any,
        a: Ref(sym),
        b: v,
        prev_same_op: SENTINEL,
    };
    lemma_push_wf(s.ir, ins);
}

pub proof fn lemma_emit_print_wf(s: RecView, v: Ref)
    requires
        s.wf(),
    ensures
        spec_emit_print(s, v).0.wf(),
{
    let ins = IRIns {
        op: IROp::Print,
        ty: IRType::Any,
        a: v,
        b: Ref(SENTINEL),
        prev_same_op: SENTINEL,
    };
    lemma_push_wf(s.ir, ins);
}

/// The recorder for one session: exclusive owner of its IR buffer, value
/// stack and environment; no two recordings interleave over the same buffer.
pub struct Recorder {
    ir: IR,
    stack: Vec<Ref>,
    env: Vec<Option<Ref>>,
}

impl View for Recorder {
    type V = RecView;

    closed spec fn view(&self) -> RecView {
        RecView { ir: self.ir@, stack: self.stack@, env: self.env@ }
    }
}

impl Recorder {
    /// A fresh session over an empty buffer, empty stack and empty
    /// environment.
    pub fn new() -> (r: Recorder)
        ensures
            r@.wf(),
            r@.ir.code.len() == 0,
            r@.ir.consts.len() == 0,
            r@.ir.syms.len() == 0,
            r@.stack.len() == 0,
            r@.env.len() == 0,
    {
        Recorder { ir: IR::new(), stack: Vec::new(), env: Vec::new() }
    }

    /// Read access to the underlying IR buffer.
    pub fn ir(&self) -> (r: &IR)
        ensures
            r@ == self@.ir,
    {
        &self.ir
    }

    pub fn stack_len(&self) -> (n: usize)
        ensures
            n == self@.stack.len(),
    {
        self.stack.len()
    }

    pub fn stack_at(&self, i: usize) -> (r: Ref)
        requires
            (i as int) < self@.stack.len(),
        ensures
            r == self@.stack[i as int],
    {
        self.stack[i]
    }

    /// The reference currently bound to a symbol, if any.
    pub fn env_lookup(&self, sym: u16) -> (r: Option<Ref>)
        ensures
            r == env_get(self@.env, sym),
    {
        if (sym as usize) < self.env.len() {
            self.env[sym as usize]
        } else {
            None
        }
    }

    /// The executable backward chain walk; mirrors [`cse_find`].
    fn cse_scan(ir: &IR, h: u16, a: Ref, b: Ref) -> (m: Option<u16>)
        requires
            ir@.wf(),
            h == SENTINEL || (h as int) < ir@.code.len(),
        ensures
            match m {
                Some(i) => cse_find(ir@.code, h, a, b) == i as int,
                None => cse_find(ir@.code, h, a, b) == -1,
            },
    {
        let mut prev: u16 = h;
        loop
            invariant
                ir@.wf(),
                prev == SENTINEL || (prev as int) < ir@.code.len(),
                cse_find(ir@.code, prev, a, b) == cse_find(ir@.code, h, a, b),
            decreases prev,
        {
            if prev == SENTINEL {
                return None;
            }
            let ins = ir.ins_at(prev);
            if (ins.a.0 == a.0 && ins.b.0 == b.0) || (ins.a.0 == b.0 && ins.b.0 == a.0) {
                return Some(prev);
            }
            let p = ins.prev_same_op;
            proof {
                assert(crate::ir::link_ok(ir@.code, prev as int));
            }
            if p < prev {
                prev = p;
            } else {
                return None;
            }
        }
    }

    /// Folds, reuses or appends an addition of `a` and `b`; see
    /// [`spec_emit_add`].
    pub fn emit_add(&mut self, a: Ref, b: Ref) -> (r: Result<Ref, TraceError>)
        requires
            old(self)@.wf(),
        ensures
            final(self)@.wf(),
            (final(self)@, r) == spec_emit_add(old(self)@, a, b),
    {
        proof {
            lemma_emit_add_wf(old(self)@, a, b);
        }
        let va = self.ir.const_value(a);
        let vb = self.ir.const_value(b);
        if va.is_some() && vb.is_some() {
            let x = va.unwrap();
            let y = vb.unwrap();
            return self.ir.emit_kint(x.wrapping_add(y));
        }
        let head = self.ir.chain_head(IROp::Add);
        match Self::cse_scan(&self.ir, head, a, b) {
            Some(m) => Ok(Ref(m)),
            None => {
                let ins = IRIns {
                    op: IROp::Add,
                    ty: IRType::Int,
                    a,
                    b,
                    prev_same_op: SENTINEL,
                };
                self.ir.push(ins)
            },
        }
    }

    /// Forwards a cached variable binding or emits one load; see
    /// [`spec_emit_loadvar`].
    pub fn emit_loadvar(&mut self, sym: u16) -> (r: Result<Ref, TraceError>)
        requires
            old(self)@.wf(),
        ensures
            final(self)@.wf(),
            (final(self)@, r) == spec_emit_loadvar(old(self)@, sym),
    {
        proof {
            lemma_emit_loadvar_wf(old(self)@, sym);
        }
        let cached = self.env_lookup(sym);
        match cached {
            Some(rr) => Ok(rr),
            None => {
                let ins = IRIns {
                    op: IROp::LoadVar,
                    ty: IRType::Int,
                    a: Ref(sym),
                    b: Ref(SENTINEL),
                    prev_same_op: SENTINEL,
                };
                match self.ir.push(ins) {
                    Ok(rr) => {
                        Self::env_store(&mut self.env, sym, rr);
                        Ok(rr)
                    },
                    Err(e) => Err(e),
                }
            },
        }
    }

    /// Elides a redundant store or emits one; see [`spec_emit_storevar`].
    pub fn emit_storevar(&mut self, sym: u16, v: Ref) -> (r: Result<(), TraceError>)
        requires
            old(self)@.wf(),
        ensures
            final(self)@.wf(),
            (final(self)@, r) == spec_emit_storevar(old(self)@, sym, v),
    {
        proof {
            lemma_emit_storevar_wf(old(self)@, sym, v);
        }
        let cached = self.env_lookup(sym);
        let elide = match cached {
            Some(c) => c.0 == v.0,
            None => false,
        };
        if elide {
            return Ok(());
        }
        let ins = IRIns {
            op: IROp::StoreVar,
            ty: IRType::Any,
            a: Ref(sym),
            b: v,
            prev_same_op: SENTINEL,
        };
        match self.ir.push(ins) {
            Ok(_) => {
                Self::env_store(&mut self.env, sym, v);
                Ok(())
            },
            Err(e) => Err(e),
        }
    }

    /// Appends a print unconditionally; see [`spec_emit_print`].
    pub fn emit_print(&mut self, v: Ref) -> (r: Result<(), TraceError>)
        requires
            old(self)@.wf(),
        ensures
            final(self)@.wf(),
            (final(self)@, r) == spec_emit_print(old(self)@, v),
    {
        proof {
            lemma_emit_print_wf(old(self)@, v);
        }
        let ins = IRIns {
            op: IROp::Print,
            ty: IRType::Any,
            a: v,
            b: Ref(SENTINEL),
            prev_same_op: SENTINEL,
        };
        match self.ir.push(ins) {
            Ok(_) => Ok(()),
            Err(e) => Err(e),
        }
    }

    /// Binds `sym` in the executable environment; mirrors [`env_set`].
    fn env_store(env: &mut Vec<Option<Ref>>, sym: u16, r: Ref)
        ensures
            final(env)@ == env_set(old(env)@, sym, r),
    {
        while env.len() <= sym as usize
            invariant
                env@.len() >= old(env)@.len(),
                env@.len() <= sym as int + 1 || env@.len() == old(env)@.len(),
                forall|j: int| 0 <= j < old(env)@.len() ==> env@[j] == old(env)@[j],
                forall|j: int| old(env)@.len() <= j < env@.len() ==> env@[j] is None,
            decreases sym as int + 1 - env@.len(),
        {
            env.push(None);
        }
        let s: usize = sym as usize;
        env[s] = Some(r);
        proof {
            assert(final(env)@ =~= env_set(old(env)@, sym, r));
        }
    }

    /// Replays a bytecode sequence into the IR buffer, step by step per
    /// [`rec_run`]; the first structural or capacity error stops the session.
    pub fn record(&mut self, bc: &Vec<BC>) -> (r: Result<(), TraceError>)
        requires
            old(self)@.wf(),
        ensures
            final(self)@.wf(),
            (match r {
                Ok(_) => rec_run(old(self)@, bc@) == Ok::<RecView, TraceError>(final(self)@),
                Err(e) => rec_run(old(self)@, bc@) == Err::<RecView, TraceError>(e),
            }),
    {
        let n = bc.len();
        let mut i: usize = 0;
        proof {
            assert(bc@.skip(0) =~= bc@);
        }
        while i < n
            invariant
                self@.wf(),
                i <= n,
                n == bc@.len(),
                rec_run(old(self)@, bc@) == rec_run(self@, bc@.skip(i as int)),
            decreases n - i,
        {
            let ghost pre = self@;
            proof {
                lemma_rec_run_step(pre, bc@, i as int);
            }
            match &bc[i] {
                BC::LoadConst(nv) => {
                    match self.ir.emit_kint(*nv) {
                        Ok(rr) => {
                            self.stack.push(rr);
                        },
                        Err(e) => {
                            return Err(e);
                        },
                    }
                },
                BC::LoadVar(name) => {
                    match self.ir.intern_sym(name) {
                        Ok(sym) => {
                            match self.emit_loadvar(sym) {
                                Ok(rr) => {
                                    self.stack.push(rr);
                                },
                                Err(e) => {
                                    return Err(e);
                                },
                            }
                        },
                        Err(e) => {
                            return Err(e);
                        },
                    }
                },
                BC::StoreVar(name) => {
                    match self.stack.pop() {
                        Some(v) => {
                            match self.ir.intern_sym(name) {
                                Ok(sym) => {
                                    match self.emit_storevar(sym, v) {
                                        Ok(_) => {},
                                        Err(e) => {
                                            return Err(e);
                                        },
                                    }
                                },
                                Err(e) => {
                                    return Err(e);
                                },
                            }
                        },
                        None => {
                            return Err(TraceError::StackUnderflow);
                        },
                    }
                },
                BC::Add => {
                    if self.stack.len() < 2 {
                        return Err(TraceError::StackUnderflow);
                    }
                    let b = self.stack.pop().unwrap();
                    let a = self.stack.pop().unwrap();
                    match self.emit_add(a, b) {
                        Ok(rr) => {
                            self.stack.push(rr);
                        },
                        Err(e) => {
                            return Err(e);
                        },
                    }
                },
                BC::Print => {
                    match self.stack.pop() {
                        Some(v) => {
                            match self.emit_print(v) {
                                Ok(_) => {},
                                Err(e) => {
                                    return Err(e);
                                },
                            }
                        },
                        None => {
                            return Err(TraceError::StackUnderflow);
                        },
                    }
                },
                BC::Call(_, _) => {
                    return Err(TraceError::UnsupportedCall);
                },
                BC::Ret => {
                    return Err(TraceError::UnsupportedReturn);
                },
            }
            proof {
                assert(rec_step(pre, bc@[i as int]) == Ok::<RecView, TraceError>(self@));
            }
            i = i + 1;
        }
        proof {
            assert(bc@.skip(n as int) =~= Seq::<BC>::empty());
        }
        Ok(())
    }
}

/// Constant folding determinism: an addition of two constant-valued
/// references never materialises an add instruction — at most one
/// load-constant is appended — and the returned reference resolves to the
/// sum, which wraps exactly as the virtual machine's arithmetic does; when
/// the sum fits the value type it is the exact sum.
pub proof fn lemma_constant_fold(s: RecView, a: Ref, b: Ref, x: i64, y: i64)
    requires
        s.wf(),
        s.ir.const_value(a) == Some(x),
        s.ir.const_value(b) == Some(y),
    ensures
        ({
            let (s1, r) = spec_emit_add(s, a, b);
            r matches Ok(rr) ==> {
                &&& s1.ir.const_value(rr) == Some(x.wrapping_add(y))
                &&& i64::MIN <= x + y <= i64::MAX ==> s1.ir.const_value(rr) == Some((x + y) as i64)
                &&& s1.ir.code.len() <= s.ir.code.len() + 1
                &&& forall|j: int|
                    s.ir.code.len() <= j < s1.ir.code.len() ==> (#[trigger] s1.ir.code[j]).op
                        == IROp::KInt
            }
        }),
{
    let sum = x.wrapping_add(y);
    lemma_emit_kint_wf(s.ir, sum);
    lemma_find_const(s.ir.consts, sum);
}

/// Common-subexpression elimination: when `a` and `b` are not both
/// constants, repeating the addition — in either operand order — before any
/// intervening addition returns the very same reference and leaves the
/// whole buffer, chains included, unchanged.
pub proof fn lemma_cse(s: RecView, a: Ref, b: Ref)
    requires
        s.wf(),
        !(s.ir.const_value(a) is Some && s.ir.const_value(b) is Some),
    ensures
        ({
            let (s1, r1) = spec_emit_add(s, a, b);
            r1 matches Ok(rr) ==> {
                &&& spec_emit_add(s1, a, b) == (s1, Ok::<Ref, TraceError>(rr))
                &&& spec_emit_add(s1, b, a) == (s1, Ok::<Ref, TraceError>(rr))
            }
        }),
{
    let (s1, r1) = spec_emit_add(s, a, b);
    let h = s.ir.heads[op_index(IROp::Add)];
    let m = cse_find(s.ir.code, h, a, b);
    if m >= 0 {
        lemma_cse_find_comm(s.ir.code, h, a, b);
    } else if s.ir.code.len() < CAPACITY as int {
        let idx = s.ir.code.len();
        assert(s1.ir.const_value(a) == s.ir.const_value(a));
        assert(s1.ir.const_value(b) == s.ir.const_value(b));
        assert(s1.ir.heads[op_index(IROp::Add)] == idx as u16);
        assert(add_match(s1.ir.code[idx as int], a, b));
        assert(add_match(s1.ir.code[idx as int], b, a));
        assert(cse_find(s1.ir.code, idx as u16, a, b) == idx);
        assert(cse_find(s1.ir.code, idx as u16, b, a) == idx);
    }
}

/// Store elimination: storing the reference already bound to a name elides
/// the instruction entirely; storing a different reference appends exactly
/// one store instruction and rebinds the environment — after which the same
/// store repeated is elided in turn.
pub proof fn lemma_store_elimination(s: RecView, sym: u16, v: Ref)
    requires
        s.wf(),
    ensures
        env_get(s.env, sym) == Some(v) ==> spec_emit_storevar(s, sym, v) == (
            s,
            Ok::<(), TraceError>(()),
        ),
        env_get(s.env, sym) != Some(v) && s.ir.code.len() < CAPACITY as int ==> ({
            let (s1, r) = spec_emit_storevar(s, sym, v);
            &&& r == Ok::<(), TraceError>(())
            &&& s1.ir.code.len() == s.ir.code.len() + 1
            &&& s1.ir.code.last().op == IROp::StoreVar
            &&& s1.ir.code.last().a == Ref(sym)
            &&& s1.ir.code.last().b == v
            &&& env_get(s1.env, sym) == Some(v)
            &&& s1.stack == s.stack
            &&& spec_emit_storevar(s1, sym, v) == (s1, Ok::<(), TraceError>(()))
        }),
{
}

/// Stack underflow is fatal to a recording: a sequence whose next operation
/// is an addition with fewer than two values on the value stack (or a store
/// or print with none) stops with the structural error, never a default
/// value.
pub proof fn lemma_recorder_underflow_fatal(s: RecView, ops: Seq<BC>)
    requires
        ops.len() > 0,
    ensures
        ops[0] matches BC::Add && s.stack.len() < 2 ==> rec_run(s, ops) == Err::<
            RecView,
            TraceError,
        >(TraceError::StackUnderflow),
        ops[0] matches BC::StoreVar(_) && s.stack.len() == 0 ==> rec_run(s, ops) == Err::<
            RecView,
            TraceError,
        >(TraceError::StackUnderflow),
        ops[0] matches BC::Print && s.stack.len() == 0 ==> rec_run(s, ops) == Err::<
            RecView,
            TraceError,
        >(TraceError::StackUnderflow),
{
}

/// Load forwarding: reading a variable twice with no intervening store
/// yields the same reference both times, appends at most one load
/// instruction in total, and the repeat leaves the state untouched.
pub proof fn lemma_load_forwarding(s: RecView, sym: u16)
    requires
        s.wf(),
    ensures
        ({
            let (s1, r1) = spec_emit_loadvar(s, sym);
            r1 matches Ok(rr) ==> {
                &&& spec_emit_loadvar(s1, sym) == (s1, Ok::<Ref, TraceError>(rr))
                &&& s1.ir.code.len() <= s.ir.code.len() + 1
            }
        }),
{
}

} // verus!
