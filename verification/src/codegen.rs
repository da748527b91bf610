//! Lowering from the syntax tree to a bytecode [`Module`]: a set of function
//! prototypes plus one distinguished prototype for the top-level statements.
//! This stage is mechanical tree-walking; the one invariant the rest of the
//! system relies on, and which is proved here, is that every generated
//! instruction sequence ends in an explicit return (a "return zero" tail is
//! synthesised when a body has none).

use vstd::prelude::*;

use crate::ast::{Expr, Stmt};
use crate::bytecode::{copy_bytes, BC};

verus! {

/// A compiled function: its name, its ordered parameter names, and its flat
/// bytecode sequence.
#[derive(Debug)]
pub struct FunctionProto {
    pub name: Vec<u8>,
    pub params: Vec<Vec<u8>>,
    pub code: Vec<BC>,
}

/// A compiled program: the named function prototypes and the prototype
/// holding the top-level statements. Treated as immutable by the virtual
/// machine and the recorder alike.
#[derive(Debug)]
pub struct Module {
    pub funs: Vec<FunctionProto>,
    pub main: FunctionProto,
}

/// An instruction sequence that ends in an explicit return.
pub open spec fn ends_in_ret(code: Seq<BC>) -> bool {
    code.len() > 0 && code.last() matches BC::Ret
}

/// The contract every generated module satisfies: each prototype's code,
/// the main prototype's included, ends in an explicit return.
pub open spec fn module_wf(m: Module) -> bool {
    &&& ends_in_ret(m.main.code@)
    &&& forall|i: int| 0 <= i < m.funs@.len() ==> ends_in_ret((#[trigger] m.funs@[i]).code@)
}

/// Emits the code for one expression, appending to `code`. Expression code
/// always grows the sequence and never ends in a return.
#[verifier::loop_isolation(false)]
pub fn gen_expr(code: &mut Vec<BC>, e: &Expr)
    ensures
        old(code)@.is_prefix_of(final(code)@),
        final(code)@.len() > old(code)@.len(),
        !(final(code)@.last() matches BC::Ret),
    decreases e,
{
    match e {
        Expr::Number(n) => {
            code.push(BC::LoadConst(*n));
        },
        Expr::Var(v) => {
            code.push(BC::LoadVar(copy_bytes(v)));
        },
        Expr::Add(a, b) => {
            gen_expr(code, a);
            gen_expr(code, b);
            code.push(BC::Add);
            proof {
                assert(final(code)@.subrange(0, old(code)@.len() as int) =~= old(code)@);
            }
        },
        Expr::Call(name, args) => {
            let ghost entry = code@;
            let mut i: usize = 0;
            while i < args.len()
                invariant
                    i <= args@.len(),
                    entry.is_prefix_of(code@),
                decreases args@.len() - i,
            {
                proof {
                    assert(decreases_to!(*e => e->Call_1));
                    assert(decreases_to!(e->Call_1 => e->Call_1@));
                    assert(decreases_to!(e->Call_1@ => e->Call_1@[i as int]));
                    assert(e->Call_1@ == args@);
                    assert(decreases_to!(*e => args@[i as int]));
                }
                gen_expr(code, &args[i]);
                proof {
                    assert(code@.subrange(0, entry.len() as int) =~= entry);
                }
                i = i + 1;
            }
            code.push(BC::Call(copy_bytes(name), args.len()));
            proof {
                assert(final(code)@.subrange(0, entry.len() as int) =~= entry);
            }
        },
    }
}

/// Emits the code for one statement. Function definitions are handled at
/// module level and emit nothing here; a return statement's code ends in an
/// explicit return.
pub fn gen_stmt(code: &mut Vec<BC>, s: &Stmt)
    ensures
        old(code)@.is_prefix_of(final(code)@),
        (s matches Stmt::Return(_)) ==> ends_in_ret(final(code)@),
        (s matches Stmt::FunctionDef(_)) ==> final(code)@ == old(code)@,
{
    match s {
        Stmt::Assign(name, e) => {
            gen_expr(code, e);
            code.push(BC::StoreVar(copy_bytes(name)));
            proof {
                assert(final(code)@.subrange(0, old(code)@.len() as int) =~= old(code)@);
            }
        },
        Stmt::Print(e) => {
            gen_expr(code, e);
            code.push(BC::Print);
            proof {
                assert(final(code)@.subrange(0, old(code)@.len() as int) =~= old(code)@);
            }
        },
        Stmt::Return(e) => {
            gen_expr(code, e);
            code.push(BC::Ret);
            proof {
                assert(final(code)@.subrange(0, old(code)@.len() as int) =~= old(code)@);
            }
        },
        Stmt::FunctionDef(_) => {},
    }
}

/// Whether the generated sequence already ends in a return.
fn has_ret_tail(code: &Vec<BC>) -> (r: bool)
    ensures
        r == ends_in_ret(code@),
{
    if code.len() == 0 {
        return false;
    }
    match code[code.len() - 1] {
        BC::Ret => true,
        _ => false,
    }
}

fn copy_params(params: &Vec<Vec<u8>>) -> (r: Vec<Vec<u8>>)
    ensures
        r.deep_view() == params.deep_view(),
{
    let mut r: Vec<Vec<u8>> = Vec::new();
    let mut i: usize = 0;
    while i < params.len()
        invariant
            i <= params@.len(),
            r@.len() == i,
            forall|j: int| 0 <= j < i ==> r.deep_view()[j] == params.deep_view()[j],
        decreases params@.len() - i,
    {
        r.push(copy_bytes(&params[i]));
        i = i + 1;
    }
    proof {
        assert(r.deep_view() =~= params.deep_view());
    }
    r
}

/// Compiles a whole program: function definitions become prototypes (a later
/// definition of the same name replaces the earlier one), the remaining
/// statements become the main prototype, and every prototype is given an
/// explicit return tail when its body lacks one.
pub fn compile_module(stmts: Vec<Stmt>) -> (m: Module)
    ensures
        module_wf(m),
{
    let mut funs: Vec<FunctionProto> = Vec::new();
    let mut i: usize = 0;
    while i < stmts.len()
        invariant
            i <= stmts@.len(),
            forall|k: int| 0 <= k < funs@.len() ==> ends_in_ret((#[trigger] funs@[k]).code@),
        decreases stmts@.len() - i,
    {
        match &stmts[i] {
            Stmt::FunctionDef(f) => {
                let mut code: Vec<BC> = Vec::new();
                let mut j: usize = 0;
                while j < f.body.len()
                    invariant
                        j <= f.body@.len(),
                    decreases f.body@.len() - j,
                {
                    gen_stmt(&mut code, &f.body[j]);
                    j = j + 1;
                }
                if !has_ret_tail(&code) {
                    code.push(BC::LoadConst(0));
                    code.push(BC::Ret);
                }
                let proto = FunctionProto {
                    name: copy_bytes(&f.name),
                    params: copy_params(&f.params),
                    code,
                };
                match find_proto(&funs, &f.name) {
                    Some(k) => {
                        funs[k] = proto;
                    },
                    None => {
                        funs.push(proto);
                    },
                }
            },
            _ => {},
        }
        i = i + 1;
    }
    let mut main_code: Vec<BC> = Vec::new();
    let mut i2: usize = 0;
    while i2 < stmts.len()
        invariant
            i2 <= stmts@.len(),
        decreases stmts@.len() - i2,
    {
        match &stmts[i2] {
            Stmt::FunctionDef(_) => {},
            _ => {
                gen_stmt(&mut main_code, &stmts[i2]);
            },
        }
        i2 = i2 + 1;
    }
    if !has_ret_tail(&main_code) {
        main_code.push(BC::LoadConst(0));
        main_code.push(BC::Ret);
    }
    let mut main_name: Vec<u8> = Vec::new();
    main_name.push(109u8);
    main_name.push(97u8);
    main_name.push(105u8);
    main_name.push(110u8);
    let main = FunctionProto { name: main_name, params: Vec::new(), code: main_code };
    Module { funs, main }
}

/// Index of the prototype with this name, if one exists.
fn find_proto(funs: &Vec<FunctionProto>, name: &Vec<u8>) -> (k: Option<usize>)
    ensures
        k matches Some(j) ==> (j as int) < funs@.len(),
{
    let mut i: usize = 0;
    while i < funs.len()
        invariant
            i <= funs@.len(),
        decreases funs@.len() - i,
    {
        if crate::bytecode::bytes_eq(&funs[i].name, name) {
            return Some(i);
        }
        i = i + 1;
    }
    None
}

} // verus!
