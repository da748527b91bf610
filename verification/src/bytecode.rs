//! The bytecode instruction vocabulary: the wire format between the code
//! generator and its two independent consumers, the virtual machine and the
//! trace recorder. Variable and function names are byte strings.

use vstd::prelude::*;

verus! {

/// One bytecode instruction. `Add` pops the top two stack values and pushes
/// their sum; `Call` carries the callee name and the argument count; `Ret`
/// yields the top of stack (or zero when the stack is empty); `Print` pops one
/// value and emits it as program output.
#[derive(Debug)]
pub enum BC {
    LoadConst(i64),
    LoadVar(Vec<u8>),
    StoreVar(Vec<u8>),
    Add,
    Call(Vec<u8>, usize),
    Ret,
    Print,
}

/// Byte-string equality, used wherever names are compared.
pub fn bytes_eq(a: &Vec<u8>, b: &Vec<u8>) -> (r: bool)
    ensures
        r <==> a@ == b@,
{
    if a.len() != b.len() {
        proof {
            assert(a@.len() != b@.len());
        }
        return false;
    }
    let mut i: usize = 0;
    while i < a.len()
        invariant
            i <= a@.len(),
            a@.len() == b@.len(),
            forall|j: int| 0 <= j < i ==> a@[j] == b@[j],
        decreases a@.len() - i,
    {
        if a[i] != b[i] {
            return false;
        }
        i = i + 1;
    }
    proof {
        assert(a@ =~= b@);
    }
    true
}

/// A fresh copy of a byte string.
pub fn copy_bytes(s: &Vec<u8>) -> (r: Vec<u8>)
    ensures
        r@ == s@,
{
    let mut r: Vec<u8> = Vec::new();
    let mut i: usize = 0;
    while i < s.len()
        invariant
            i <= s@.len(),
            r@ == s@.take(i as int),
        decreases s@.len() - i,
    {
        r.push(s[i]);
        proof {
            assert(r@ =~= s@.take(i + 1));
        }
        i = i + 1;
    }
    proof {
        assert(s@.take(s@.len() as int) =~= s@);
    }
    r
}

/// A byte vector's deep view coincides with its plain view.
pub proof fn lemma_bytes_deep_view(v: Vec<u8>)
    ensures
        v.deep_view() == v@,
{
    assert(v.deep_view() =~= v@);
}

} // verus!
