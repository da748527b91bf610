//! The bytecode virtual machine: a direct stack interpreter over a compiled
//! [`Module`], independent of the IR and the recorder. It owns the program's
//! observable output — the ordered sequence of printed integers — and the
//! top-level return value.
//!
//! Scoping choice (made explicit, as the design leaves it open): variable
//! lookup is strictly per-frame. A callee never observes a caller's locals;
//! reading a name that is unbound in the current frame is an
//! undefined-variable error rather than a fallthrough to enclosing frames.
//! Call frames therefore live on the host call stack, one per active `run`,
//! rather than in a shared frame list.
//!
//! Addition wraps on two's-complement overflow, the same arithmetic the
//! recorder's constant folding uses.
//!
//! Recursion depth is bounded by an explicit fuel so that runaway recursion
//! becomes a reported error instead of exhausting the host stack.

use vstd::prelude::*;

use crate::bytecode::{bytes_eq, copy_bytes, BC};
use crate::codegen::{FunctionProto, Module};

verus! {

/// The maximum depth of nested calls one execution will enter.
pub const CALL_DEPTH_LIMIT: u64 = 64;

/// A fatal execution error: structural (stack underflow, arity mismatch, a
/// sequence that falls off its end without returning), undefined-reference
/// (unknown function, unbound variable), or resource (call depth).
#[derive(Debug, Clone, Copy, PartialEq, Eq, Structural)]
pub enum VmError {
    StackUnderflow,
    ArityMismatch,
    UndefinedFunction,
    UndefinedVariable,
    MissingReturn,
    DepthExceeded,
}

/// One call frame: the bindings of the variables of the active call. A store
/// appends a binding; lookup takes the most recent one, so the frame's
/// abstract value is a map from name to current value.
pub struct Frame {
    slots: Vec<(Vec<u8>, i64)>,
}

/// The map a binding list denotes: later bindings shadow earlier ones.
pub open spec fn slots_map(s: Seq<(Vec<u8>, i64)>) -> Map<Seq<u8>, i64>
    decreases s.len(),
{
    if s.len() == 0 {
        Map::empty()
    } else {
        slots_map(s.drop_last()).insert(s.last().0@, s.last().1)
    }
}

impl View for Frame {
    type V = Map<Seq<u8>, i64>;

    closed spec fn view(&self) -> Map<Seq<u8>, i64> {
        slots_map(self.slots@)
    }
}

impl Frame {
    pub fn new() -> (f: Frame)
        ensures
            f@ == Map::<Seq<u8>, i64>::empty(),
    {
        Frame { slots: Vec::new() }
    }
}

/// First prototype with this name, or -1: the lookup the `call` instruction
/// performs.
pub open spec fn find_fun(funs: Seq<FunctionProto>, name: Seq<u8>) -> int
    decreases funs.len(),
{
    if funs.len() == 0 {
        -1
    } else if funs[0].name@ == name {
        0
    } else {
        let r = find_fun(funs.skip(1), name);
        if r == -1 {
            -1
        } else {
            r + 1
        }
    }
}

pub proof fn lemma_find_fun(funs: Seq<FunctionProto>, name: Seq<u8>)
    ensures
        find_fun(funs, name) == -1 ==> forall|k: int|
            0 <= k < funs.len() ==> (#[trigger] funs[k]).name@ != name,
        find_fun(funs, name) != -1 ==> {
            &&& 0 <= find_fun(funs, name) < funs.len()
            &&& funs[find_fun(funs, name)].name@ == name
            &&& forall|k: int|
                0 <= k < find_fun(funs, name) ==> (#[trigger] funs[k]).name@ != name
        },
    decreases funs.len(),
{
    if funs.len() != 0 && funs[0].name@ != name {
        lemma_find_fun(funs.skip(1), name);
        assert(forall|k: int| 1 <= k < funs.len() ==> funs[k] == funs.skip(1)[k - 1]);
    }
}

/// The frame a call begins with: parameter names bound to the argument
/// values, position-matched.
pub open spec fn frame_bind(params: Seq<Vec<u8>>, args: Seq<i64>) -> Map<Seq<u8>, i64>
    decreases params.len(),
{
    if params.len() == 0 {
        Map::empty()
    } else {
        frame_bind(params.drop_last(), args.drop_last()).insert(params.last()@, args.last())
    }
}

/// One `run` invocation as a state machine over the instruction index: each
/// instruction advances the index by one, `call` recurses into the named
/// prototype with one unit of fuel spent, and `return` is terminal, yielding
/// the top of stack or zero when the stack is empty. Falling off the end of
/// the sequence is an error (every well-formed prototype ends in a return).
pub open spec fn spec_run(
    funs: Seq<FunctionProto>,
    code: Seq<BC>,
    ip: int,
    stack: Seq<i64>,
    frame: Map<Seq<u8>, i64>,
    out: Seq<i64>,
    fuel: nat,
) -> Result<(i64, Map<Seq<u8>, i64>, Seq<i64>), VmError>
    decreases fuel, 1int, code.len() - ip,
{
    if ip < 0 || code.len() <= ip {
        Err(VmError::MissingReturn)
    } else {
        match code[ip] {
            BC::LoadConst(n) => spec_run(funs, code, ip + 1, stack.push(n), frame, out, fuel),
            BC::LoadVar(name) => {
                if frame.contains_key(name@) {
                    spec_run(funs, code, ip + 1, stack.push(frame[name@]), frame, out, fuel)
                } else {
                    Err(VmError::UndefinedVariable)
                }
            },
            BC::StoreVar(name) => {
                if stack.len() == 0 {
                    Err(VmError::StackUnderflow)
                } else {
                    spec_run(
                        funs,
                        code,
                        ip + 1,
                        stack.drop_last(),
                        frame.insert(name@, stack.last()),
                        out,
                        fuel,
                    )
                }
            },
            BC::Add => {
                if stack.len() < 2 {
                    Err(VmError::StackUnderflow)
                } else {
                    let b = stack.last();
                    let a = stack[stack.len() - 2];
                    spec_run(
                        funs,
                        code,
                        ip + 1,
                        stack.drop_last().drop_last().push(a.wrapping_add(b)),
                        frame,
                        out,
                        fuel,
                    )
                }
            },
            BC::Print => {
                if stack.len() == 0 {
                    Err(VmError::StackUnderflow)
                } else {
                    spec_run(
                        funs,
                        code,
                        ip + 1,
                        stack.drop_last(),
                        frame,
                        out.push(stack.last()),
                        fuel,
                    )
                }
            },
            BC::Call(fname, argc) => {
                if stack.len() < argc as int {
                    Err(VmError::StackUnderflow)
                } else if fuel == 0 {
                    Err(VmError::DepthExceeded)
                } else {
                    let args = stack.subrange(stack.len() - argc as int, stack.len() as int);
                    match spec_call(funs, fname@, args, out, (fuel - 1) as nat) {
                        Ok((rv, out2)) => spec_run(
                            funs,
                            code,
                            ip + 1,
                            stack.subrange(0, stack.len() - argc as int).push(rv),
                            frame,
                            out2,
                            fuel,
                        ),
                        Err(e) => Err(e),
                    }
                }
            },
            BC::Ret => {
                if stack.len() == 0 {
                    Ok((0, frame, out))
                } else {
                    Ok((stack.last(), frame, out))
                }
            },
        }
    }
}

/// Dispatch of a call: resolve the name, check the arity, run the
/// prototype's code on a fresh frame seeded with the arguments. The callee's
/// final frame is discarded; its return value and the grown output remain.
pub open spec fn spec_call(
    funs: Seq<FunctionProto>,
    name: Seq<u8>,
    args: Seq<i64>,
    out: Seq<i64>,
    fuel: nat,
) -> Result<(i64, Seq<i64>), VmError>
    decreases fuel, 2int, 0int,
{
    let fi = find_fun(funs, name);
    if fi < 0 {
        Err(VmError::UndefinedFunction)
    } else if funs[fi].params@.len() != args.len() {
        Err(VmError::ArityMismatch)
    } else {
        match spec_run(
            funs,
            funs[fi].code@,
            0,
            Seq::empty(),
            frame_bind(funs[fi].params@, args),
            out,
            fuel,
        ) {
            Ok((rv, _f, out2)) => Ok((rv, out2)),
            Err(e) => Err(e),
        }
    }
}

/// Stack underflow is fatal to execution: an addition reached with fewer
/// than two operands (or a store, print or call reached with too few) stops
/// the run with the structural error; no default value is substituted.
pub proof fn lemma_vm_underflow_fatal(
    funs: Seq<FunctionProto>,
    code: Seq<BC>,
    ip: int,
    stack: Seq<i64>,
    frame: Map<Seq<u8>, i64>,
    out: Seq<i64>,
    fuel: nat,
)
    requires
        0 <= ip < code.len(),
    ensures
        code[ip] matches BC::Add && stack.len() < 2 ==> spec_run(
            funs,
            code,
            ip,
            stack,
            frame,
            out,
            fuel,
        ) == Err::<(i64, Map<Seq<u8>, i64>, Seq<i64>), VmError>(VmError::StackUnderflow),
        code[ip] matches BC::StoreVar(_) && stack.len() == 0 ==> spec_run(
            funs,
            code,
            ip,
            stack,
            frame,
            out,
            fuel,
        ) == Err::<(i64, Map<Seq<u8>, i64>, Seq<i64>), VmError>(VmError::StackUnderflow),
        code[ip] matches BC::Print && stack.len() == 0 ==> spec_run(
            funs,
            code,
            ip,
            stack,
            frame,
            out,
            fuel,
        ) == Err::<(i64, Map<Seq<u8>, i64>, Seq<i64>), VmError>(VmError::StackUnderflow),
{
}

/// With every prototype ending in an explicit return — the invariant the
/// code generator establishes — execution can never fall off the end of an
/// instruction sequence: the missing-return error is unreachable.
pub proof fn lemma_no_missing_return(
    funs: Seq<FunctionProto>,
    code: Seq<BC>,
    ip: int,
    stack: Seq<i64>,
    frame: Map<Seq<u8>, i64>,
    out: Seq<i64>,
    fuel: nat,
)
    requires
        crate::codegen::ends_in_ret(code),
        0 <= ip < code.len(),
        forall|k: int|
            0 <= k < funs.len() ==> crate::codegen::ends_in_ret((#[trigger] funs[k]).code@),
    ensures
        spec_run(funs, code, ip, stack, frame, out, fuel) != Err::<
            (i64, Map<Seq<u8>, i64>, Seq<i64>),
            VmError,
        >(VmError::MissingReturn),
    decreases fuel, 1int, code.len() - ip,
{
    match code[ip] {
        BC::LoadConst(n) => {
            lemma_no_missing_return(funs, code, ip + 1, stack.push(n), frame, out, fuel);
        },
        BC::LoadVar(name) => {
            if frame.contains_key(name@) {
                lemma_no_missing_return(
                    funs,
                    code,
                    ip + 1,
                    stack.push(frame[name@]),
                    frame,
                    out,
                    fuel,
                );
            }
        },
        BC::StoreVar(name) => {
            if stack.len() > 0 {
                lemma_no_missing_return(
                    funs,
                    code,
                    ip + 1,
                    stack.drop_last(),
                    frame.insert(name@, stack.last()),
                    out,
                    fuel,
                );
            }
        },
        BC::Add => {
            if stack.len() >= 2 {
                let b = stack.last();
                let a = stack[stack.len() - 2];
                lemma_no_missing_return(
                    funs,
                    code,
                    ip + 1,
                    stack.drop_last().drop_last().push(a.wrapping_add(b)),
                    frame,
                    out,
                    fuel,
                );
            }
        },
        BC::Print => {
            if stack.len() > 0 {
                lemma_no_missing_return(
                    funs,
                    code,
                    ip + 1,
                    stack.drop_last(),
                    frame,
                    out.push(stack.last()),
                    fuel,
                );
            }
        },
        BC::Call(fname, argc) => {
            if stack.len() >= argc as int && fuel > 0 {
                let args = stack.subrange(stack.len() - argc as int, stack.len() as int);
                lemma_call_no_missing_return(funs, fname@, args, out, (fuel - 1) as nat);
                match spec_call(funs, fname@, args, out, (fuel - 1) as nat) {
                    Ok((rv, out2)) => {
                        lemma_no_missing_return(
                            funs,
                            code,
                            ip + 1,
                            stack.subrange(0, stack.len() - argc as int).push(rv),
                            frame,
                            out2,
                            fuel,
                        );
                    },
                    Err(_) => {},
                }
            }
        },
        BC::Ret => {},
    }
}

/// Companion to [`lemma_no_missing_return`] for call dispatch.
pub proof fn lemma_call_no_missing_return(
    funs: Seq<FunctionProto>,
    name: Seq<u8>,
    args: Seq<i64>,
    out: Seq<i64>,
    fuel: nat,
)
    requires
        forall|k: int|
            0 <= k < funs.len() ==> crate::codegen::ends_in_ret((#[trigger] funs[k]).code@),
    ensures
        spec_call(funs, name, args, out, fuel) != Err::<(i64, Seq<i64>), VmError>(
            VmError::MissingReturn,
        ),
    decreases fuel, 2int, 0int,
{
    let fi = find_fun(funs, name);
    lemma_find_fun(funs, name);
    if fi >= 0 && funs[fi].params@.len() == args.len() {
        lemma_no_missing_return(
            funs,
            funs[fi].code@,
            0,
            Seq::empty(),
            frame_bind(funs[fi].params@, args),
            out,
            fuel,
        );
    }
}

/// The module-level corollary: a module the code generator produced never
/// stops with the missing-return error, at any recursion budget.
pub proof fn lemma_module_never_falls_off(m: crate::codegen::Module, fuel: nat)
    requires
        crate::codegen::module_wf(m),
    ensures
        spec_run(m.funs@, m.main.code@, 0, Seq::empty(), Map::empty(), Seq::empty(), fuel) != Err::<
            (i64, Map<Seq<u8>, i64>, Seq<i64>),
            VmError,
        >(VmError::MissingReturn),
{
    lemma_no_missing_return(
        m.funs@,
        m.main.code@,
        0,
        Seq::empty(),
        Map::empty(),
        Seq::empty(),
        fuel,
    );
}

/// The virtual machine: a module to execute and the output it has produced.
pub struct VM {
    module: Module,
    out: Vec<i64>,
}

impl VM {
    /// The module this machine executes.
    pub closed spec fn spec_module(&self) -> Module {
        self.module
    }

    /// The output printed so far, in execution order.
    pub closed spec fn spec_out(&self) -> Seq<i64> {
        self.out@
    }

    pub fn new(module: Module) -> (vm: VM)
        ensures
            vm.spec_module() == module,
            vm.spec_out() == Seq::<i64>::empty(),
    {
        VM { module, out: Vec::new() }
    }

    /// Read access to the printed output.
    pub fn output(&self) -> (o: &Vec<i64>)
        ensures
            o@ == self.spec_out(),
    {
        &self.out
    }

    /// Binds `name` in the current frame (and only there).
    pub fn set(frame: &mut Frame, name: &Vec<u8>, v: i64)
        ensures
            final(frame)@ == old(frame)@.insert(name@, v),
    {
        frame.slots.push((copy_bytes(name), v));
        proof {
            assert(final(frame).slots@.drop_last() =~= old(frame).slots@);
        }
    }

    /// Reads `name` from the current frame alone: strict per-frame scoping,
    /// with an unbound name reported rather than defaulted or searched for
    /// in enclosing frames.
    pub fn get(frame: &Frame, name: &Vec<u8>) -> (r: Option<i64>)
        ensures
            r == (if frame@.contains_key(name@) {
                Some(frame@[name@])
            } else {
                None::<i64>
            }),
    {
        let n = frame.slots.len();
        let mut i: usize = n;
        proof {
            assert(frame.slots@.take(n as int) =~= frame.slots@);
        }
        while i > 0
            invariant
                i <= n,
                n == frame.slots@.len(),
                frame@.contains_key(name@) == slots_map(frame.slots@.take(i as int)).contains_key(
                    name@,
                ),
                frame@.contains_key(name@) ==> frame@[name@] == slots_map(
                    frame.slots@.take(i as int),
                )[name@],
            decreases i,
        {
            proof {
                assert(frame.slots@.take(i as int).drop_last() =~= frame.slots@.take(i - 1));
                assert(frame.slots@.take(i as int).last() == frame.slots@[i - 1]);
            }
            if bytes_eq(&frame.slots[i - 1].0, name) {
                return Some(frame.slots[i - 1].1);
            }
            i = i - 1;
        }
        proof {
            assert(frame.slots@.take(n as int) =~= frame.slots@);
        }
        None
    }

    /// Scans the prototype list for a name; the executable counterpart of
    /// [`find_fun`].
    fn lookup_fun(funs: &Vec<FunctionProto>, name: &Vec<u8>) -> (k: Option<usize>)
        ensures
            match k {
                Some(j) => find_fun(funs@, name@) == j as int,
                None => find_fun(funs@, name@) == -1,
            },
    {
        proof {
            lemma_find_fun(funs@, name@);
        }
        let mut i: usize = 0;
        while i < funs.len()
            invariant
                i <= funs@.len(),
                forall|j: int| 0 <= j < i ==> (#[trigger] funs@[j]).name@ != name@,
            decreases funs@.len() - i,
        {
            if bytes_eq(&funs[i].name, name) {
                proof {
                    lemma_find_fun(funs@, name@);
                }
                return Some(i);
            }
            i = i + 1;
        }
        None
    }

    /// Executes one instruction sequence on a private operand stack, exactly
    /// as [`spec_run`] describes, mutating the current frame and appending
    /// to the output.
    #[verifier::loop_isolation(false)]
    pub fn run_code(
        funs: &Vec<FunctionProto>,
        frame: &mut Frame,
        out: &mut Vec<i64>,
        code: &Vec<BC>,
        fuel: u64,
    ) -> (r: Result<i64, VmError>)
        ensures
            (match r {
                Ok(v) => spec_run(funs@, code@, 0, Seq::empty(), old(frame)@, old(out)@, fuel as nat)
                    == Ok::<_, VmError>((v, final(frame)@, final(out)@)),
                Err(e) => spec_run(
                    funs@,
                    code@,
                    0,
                    Seq::empty(),
                    old(frame)@,
                    old(out)@,
                    fuel as nat,
                ) == Err::<(i64, Map<Seq<u8>, i64>, Seq<i64>), VmError>(e),
            }),
        decreases fuel, 1int, 0int,
    {
        let ghost target = spec_run(
            funs@,
            code@,
            0,
            Seq::empty(),
            old(frame)@,
            old(out)@,
            fuel as nat,
        );
        let mut stack: Vec<i64> = Vec::new();
        let mut ip: usize = 0;
        loop
            invariant
                ip <= code@.len(),
                spec_run(funs@, code@, ip as int, stack@, frame@, out@, fuel as nat) == target,
            decreases code@.len() - ip,
        {
            if ip == code.len() {
                return Err(VmError::MissingReturn);
            }
            match &code[ip] {
                BC::LoadConst(n) => {
                    stack.push(*n);
                },
                BC::LoadVar(name) => {
                    match Self::get(frame, name) {
                        Some(v) => {
                            stack.push(v);
                        },
                        None => {
                            return Err(VmError::UndefinedVariable);
                        },
                    }
                },
                BC::StoreVar(name) => {
                    let ghost s0 = stack@;
                    match stack.pop() {
                        Some(v) => {
                            Self::set(frame, name, v);
                            proof {
                                assert(stack@ =~= s0.drop_last());
                            }
                        },
                        None => {
                            return Err(VmError::StackUnderflow);
                        },
                    }
                },
                BC::Add => {
                    if stack.len() < 2 {
                        return Err(VmError::StackUnderflow);
                    }
                    let ghost s0 = stack@;
                    let b = stack.pop().unwrap();
                    let a = stack.pop().unwrap();
                    stack.push(a.wrapping_add(b));
                    proof {
                        assert(stack@ =~= s0.drop_last().drop_last().push(a.wrapping_add(b)));
                    }
                },
                BC::Print => {
                    match stack.pop() {
                        Some(v) => {
                            out.push(v);
                        },
                        None => {
                            return Err(VmError::StackUnderflow);
                        },
                    }
                },
                BC::Call(fname, argc) => {
                    if stack.len() < *argc {
                        return Err(VmError::StackUnderflow);
                    }
                    if fuel == 0 {
                        return Err(VmError::DepthExceeded);
                    }
                    let ghost s0 = stack@;
                    let base = stack.len() - *argc;
                    let mut args: Vec<i64> = Vec::new();
                    let mut j: usize = base;
                    while j < stack.len()
                        invariant
                            base <= j <= stack@.len(),
                            stack@ == s0,
                            args@ == s0.subrange(base as int, j as int),
                        decreases stack@.len() - j,
                    {
                        args.push(stack[j]);
                        proof {
                            assert(args@ =~= s0.subrange(base as int, j + 1));
                        }
                        j = j + 1;
                    }
                    stack.truncate(base);
                    match Self::call_function(funs, out, fname, args, fuel - 1) {
                        Ok(rv) => {
                            stack.push(rv);
                        },
                        Err(e) => {
                            return Err(e);
                        },
                    }
                },
                BC::Ret => {
                    match stack.pop() {
                        Some(v) => {
                            return Ok(v);
                        },
                        None => {
                            return Ok(0);
                        },
                    }
                },
            }
            ip = ip + 1;
        }
    }

    /// Resolves and runs a call: unknown names and arity mismatches are
    /// fatal, and the callee executes on a fresh frame holding exactly its
    /// position-matched arguments.
    #[verifier::loop_isolation(false)]
    pub fn call_function(
        funs: &Vec<FunctionProto>,
        out: &mut Vec<i64>,
        name: &Vec<u8>,
        args: Vec<i64>,
        fuel: u64,
    ) -> (r: Result<i64, VmError>)
        ensures
            (match r {
                Ok(v) => spec_call(funs@, name@, args@, old(out)@, fuel as nat) == Ok::<
                    _,
                    VmError,
                >((v, final(out)@)),
                Err(e) => spec_call(funs@, name@, args@, old(out)@, fuel as nat) == Err::<
                    (i64, Seq<i64>),
                    VmError,
                >(e),
            }),
        decreases fuel, 2int, 0int,
    {
        let fi = match Self::lookup_fun(funs, name) {
            Some(fi) => fi,
            None => {
                return Err(VmError::UndefinedFunction);
            },
        };
        proof {
            lemma_find_fun(funs@, name@);
        }
        let proto = &funs[fi];
        if proto.params.len() != args.len() {
            return Err(VmError::ArityMismatch);
        }
        let mut frame = Frame::new();
        let mut i: usize = 0;
        while i < proto.params.len()
            invariant
                i <= proto.params@.len(),
                frame@ == frame_bind(proto.params@.take(i as int), args@.take(i as int)),
            decreases proto.params@.len() - i,
        {
            Self::set(&mut frame, &proto.params[i], args[i]);
            proof {
                assert(proto.params@.take(i + 1).drop_last() =~= proto.params@.take(i as int));
                assert(args@.take(i + 1).drop_last() =~= args@.take(i as int));
                assert(proto.params@.take(i + 1).last() == proto.params@[i as int]);
                assert(args@.take(i + 1).last() == args@[i as int]);
            }
            i = i + 1;
        }
        proof {
            assert(proto.params@.take(proto.params@.len() as int) =~= proto.params@);
            assert(args@.take(args@.len() as int) =~= args@);
        }
        Self::run_code(funs, &mut frame, out, &proto.code, fuel)
    }

    /// Runs the module's top-level prototype on an empty frame, collecting
    /// the printed output in this machine; returns the top-level return
    /// value or the error that stopped execution.
    pub fn run_main(&mut self) -> (r: Result<i64, VmError>)
        ensures
            final(self).spec_module() == old(self).spec_module(),
            (match r {
                Ok(v) => ({
                    let res = spec_run(
                        old(self).spec_module().funs@,
                        old(self).spec_module().main.code@,
                        0,
                        Seq::empty(),
                        Map::empty(),
                        old(self).spec_out(),
                        CALL_DEPTH_LIMIT as nat,
                    );
                    &&& res matches Ok(t)
                    &&& t.0 == v
                    &&& t.2 == final(self).spec_out()
                }),
                Err(e) => spec_run(
                    old(self).spec_module().funs@,
                    old(self).spec_module().main.code@,
                    0,
                    Seq::empty(),
                    Map::empty(),
                    old(self).spec_out(),
                    CALL_DEPTH_LIMIT as nat,
                ) == Err::<(i64, Map<Seq<u8>, i64>, Seq<i64>), VmError>(e),
            }),
    {
        let mut frame = Frame::new();
        VM::run_code(
            &self.module.funs,
            &mut frame,
            &mut self.out,
            &self.module.main.code,
            CALL_DEPTH_LIMIT,
        )
    }
}

} // verus!
