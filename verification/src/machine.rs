//! The abstract stack machine that generated code computes on: a closed set
//! of stack operations, their semantics, an interpreter, and the laws tying
//! compiled arithmetic to ordinary evaluation.
//!
//! Every generated instruction works on one implicit stack of unsigned 64-bit
//! values; printing appends the popped value to an output sequence.

use vstd::prelude::*;
use vstd::arithmetic::div_mod::lemma_small_mod;
use vstd::wrapping::u64_specs;

use crate::ast::ExprV;
use crate::ast::LitV;
use crate::ast::OpV;

verus! {

/// An abstract stack-machine instruction.
#[derive(Debug)]
pub enum Instr {
    /// Push an integer immediate, sign-extended to 64 bits.
    PushInt(i32),
    /// Push a floating-point immediate, kept as its source text; the machine
    /// gives it no semantics.
    PushFloat(String),
    /// Pop two values, push their sum (wrapping).
    Plus,
    /// Pop the right then the left operand, push left minus right (wrapping).
    Minus,
    /// Pop two values, push the low 64 bits of their product.
    Multiply,
    /// Pop two values, push 1 when they are equal, else 0.
    Equal,
    /// Pop one value and print it in decimal on a line of its own.
    Print,
}

/// Spec-level mirror of `Instr`.
pub enum InstrV {
    PushInt(i32),
    PushFloat(Seq<char>),
    Plus,
    Minus,
    Multiply,
    Equal,
    Print,
}

impl View for Instr {
    type V = InstrV;

    open spec fn view(&self) -> InstrV {
        match *self {
            Instr::PushInt(n) => InstrV::PushInt(n),
            Instr::PushFloat(ref t) => InstrV::PushFloat(t@),
            Instr::Plus => InstrV::Plus,
            Instr::Minus => InstrV::Minus,
            Instr::Multiply => InstrV::Multiply,
            Instr::Equal => InstrV::Equal,
            Instr::Print => InstrV::Print,
        }
    }
}

/// View of an instruction sequence, elementwise.
pub open spec fn instrs_view(s: Seq<Instr>) -> Seq<InstrV> {
    s.map_values(|i: Instr| i@)
}

/// The unsigned 64-bit value that pushing an `i32` immediate leaves on the
/// stack: the immediate, sign-extended.
pub open spec fn to_u64(n: i32) -> u64 {
    if n >= 0 {
        n as u64
    } else {
        (n + 0x1_0000_0000_0000_0000) as u64
    }
}

/// One machine step on a stack and an output: the next stack and output, or
/// nothing when the machine is stuck (too few stack values, or an instruction
/// without semantics).
pub open spec fn spec_step(stack: Seq<u64>, out: Seq<u64>, i: InstrV) -> Option<
    (Seq<u64>, Seq<u64>),
> {
    match i {
        InstrV::PushInt(n) => Some((stack.push(to_u64(n)), out)),
        InstrV::PushFloat(_) => None,
        InstrV::Plus => {
            if stack.len() >= 2 {
                let r = stack.last();
                let l = stack[stack.len() - 2];
                Some((stack.drop_last().drop_last().push(u64_specs::wrapping_add(l, r)), out))
            } else {
                None
            }
        },
        InstrV::Minus => {
            if stack.len() >= 2 {
                let r = stack.last();
                let l = stack[stack.len() - 2];
                Some((stack.drop_last().drop_last().push(u64_specs::wrapping_sub(l, r)), out))
            } else {
                None
            }
        },
        InstrV::Multiply => {
            if stack.len() >= 2 {
                let r = stack.last();
                let l = stack[stack.len() - 2];
                Some((stack.drop_last().drop_last().push(u64_specs::wrapping_mul(l, r)), out))
            } else {
                None
            }
        },
        InstrV::Equal => {
            if stack.len() >= 2 {
                let r = stack.last();
                let l = stack[stack.len() - 2];
                Some(
                    (
                        stack.drop_last().drop_last().push(
                            if l == r {
                                1u64
                            } else {
                                0u64
                            },
                        ),
                        out,
                    ),
                )
            } else {
                None
            }
        },
        InstrV::Print => {
            if stack.len() >= 1 {
                Some((stack.drop_last(), out.push(stack.last())))
            } else {
                None
            }
        },
    }
}

/// Running a program: steps in order, or nothing once any step is stuck.
pub open spec fn spec_run(p: Seq<InstrV>, stack: Seq<u64>, out: Seq<u64>) -> Option<
    (Seq<u64>, Seq<u64>),
>
    decreases p.len(),
{
    if p.len() == 0 {
        Some((stack, out))
    } else {
        match spec_step(stack, out, p[0]) {
            Some(n) => spec_run(p.drop_first(), n.0, n.1),
            None => None,
        }
    }
}

/// Running a concatenation runs the parts in order.
pub proof fn lemma_run_concat(a: Seq<InstrV>, b: Seq<InstrV>, stack: Seq<u64>, out: Seq<u64>)
    ensures
        spec_run(a + b, stack, out) == (match spec_run(a, stack, out) {
            Some(m) => spec_run(b, m.0, m.1),
            None => None,
        }),
    decreases a.len(),
{
    if a.len() == 0 {
        assert(a + b =~= b);
    } else {
        assert((a + b)[0] == a[0]);
        match spec_step(stack, out, a[0]) {
            Some(m) => {
                assert((a + b).drop_first() =~= a.drop_first() + b);
                lemma_run_concat(a.drop_first(), b, m.0, m.1);
            },
            None => {},
        }
    }
}

// ---------------------------------------------------------------------------
// Compilation and evaluation, at the specification level
// ---------------------------------------------------------------------------

/// The combining instruction of a generated binary operator.
pub open spec fn binop_instr(op: OpV) -> InstrV {
    match op {
        OpV::Plus => InstrV::Plus,
        OpV::Substract => InstrV::Minus,
        OpV::Multiply => InstrV::Multiply,
        _ => InstrV::Equal,
    }
}

/// A binary operator the code generator emits code for.
pub open spec fn gen_binop(op: OpV) -> bool {
    op is Plus || op is Substract || op is Multiply || op is Equal
}

/// Arithmetic the code generator accepts: an integer or floating-point
/// literal, or one of the four generated binary operators over two such.
pub open spec fn arith(e: ExprV) -> bool
    decreases e,
{
    match e {
        ExprV::Lit(LitV::Integer(_)) => true,
        ExprV::Lit(LitV::Float(_)) => true,
        ExprV::Op { op, args } => gen_binop(op) && args.len() == 2 && arith(args[0]) && arith(
            args[1],
        ),
        _ => false,
    }
}

/// What the code generator supports in full: a comment (no code), plain
/// arithmetic, or a `print` call over arithmetic. Everything else must fail
/// with an unsupported-operation error.
pub open spec fn supported(e: ExprV) -> bool {
    ||| e is Comment
    ||| arith(e)
    ||| match e {
        ExprV::Op { op, args } => op == OpV::Call("print"@) && args.len() == 1 && arith(args[0]),
        _ => false,
    }
}

/// The instruction sequence generated for a supported expression: children
/// first, left then right, then the combining operation; `print` generates
/// its single argument and then the printing call; a comment generates
/// nothing.
pub open spec fn spec_compile(e: ExprV) -> Seq<InstrV>
    decreases e,
{
    match e {
        ExprV::Lit(LitV::Integer(n)) => seq![InstrV::PushInt(n)],
        ExprV::Lit(LitV::Float(t)) => seq![InstrV::PushFloat(t)],
        ExprV::Op { op, args } => {
            if gen_binop(op) && args.len() == 2 {
                spec_compile(args[0]) + spec_compile(args[1]) + seq![binop_instr(op)]
            } else if op == OpV::Call("print"@) && args.len() == 1 {
                spec_compile(args[0]) + seq![InstrV::Print]
            } else {
                Seq::empty()
            }
        },
        _ => Seq::empty(),
    }
}

/// An integer arithmetic expression: arithmetic without floating-point
/// leaves.
pub open spec fn int_arith(e: ExprV) -> bool
    decreases e,
{
    match e {
        ExprV::Lit(LitV::Integer(_)) => true,
        ExprV::Op { op, args } => gen_binop(op) && args.len() == 2 && int_arith(args[0])
            && int_arith(args[1]),
        _ => false,
    }
}

/// Exact evaluation with unbounded integers and standard arithmetic;
/// comparison yields 1 when equal, else 0.
pub open spec fn eval(e: ExprV) -> Option<int>
    decreases e,
{
    match e {
        ExprV::Lit(LitV::Integer(n)) => Some(n as int),
        ExprV::Op { op, args } => {
            if args.len() == 2 {
                match (eval(args[0]), eval(args[1])) {
                    (Some(l), Some(r)) => match op {
                        OpV::Plus => Some(l + r),
                        OpV::Substract => Some(l - r),
                        OpV::Multiply => Some(l * r),
                        OpV::Equal => Some(
                            if l == r {
                                1int
                            } else {
                                0int
                            },
                        ),
                        _ => None,
                    },
                    _ => None,
                }
            } else {
                None
            }
        },
        _ => None,
    }
}

/// Evaluation exactly as the 64-bit machine computes it, wrapping modulo
/// 2^64.
pub open spec fn eval_m(e: ExprV) -> u64
    decreases e,
{
    match e {
        ExprV::Lit(LitV::Integer(n)) => to_u64(n),
        ExprV::Op { op, args } => {
            if args.len() == 2 {
                let l = eval_m(args[0]);
                let r = eval_m(args[1]);
                match op {
                    OpV::Plus => u64_specs::wrapping_add(l, r),
                    OpV::Substract => u64_specs::wrapping_sub(l, r),
                    OpV::Multiply => u64_specs::wrapping_mul(l, r),
                    OpV::Equal => if l == r {
                        1u64
                    } else {
                        0u64
                    },
                    _ => 0u64,
                }
            } else {
                0u64
            }
        },
        _ => 0u64,
    }
}

/// Every subexpression's exact value lies within the machine's unsigned
/// 64-bit range.
pub open spec fn in_bounds(e: ExprV) -> bool
    decreases e,
{
    match e {
        ExprV::Lit(LitV::Integer(n)) => n >= 0,
        ExprV::Op { op, args } => {
            &&& args.len() == 2
            &&& in_bounds(args[0])
            &&& in_bounds(args[1])
            &&& match eval(e) {
                Some(v) => 0 <= v < 0x1_0000_0000_0000_0000,
                None => false,
            }
        },
        _ => false,
    }
}

/// Compiled integer arithmetic leaves exactly its machine value on top of
/// the stack, touches nothing below it, and prints nothing.
pub proof fn lemma_compile_arith(e: ExprV, stack: Seq<u64>, out: Seq<u64>)
    requires
        int_arith(e),
    ensures
        spec_run(spec_compile(e), stack, out) == Some::<(Seq<u64>, Seq<u64>)>(
            (stack.push(eval_m(e)), out),
        ),
    decreases e,
{
    match e {
        ExprV::Lit(LitV::Integer(n)) => {
            let p = seq![InstrV::PushInt(n)];
            assert(spec_compile(e) == p);
            assert(p[0] == InstrV::PushInt(n));
            assert(p.drop_first() =~= Seq::<InstrV>::empty());
            assert(spec_run(Seq::<InstrV>::empty(), stack.push(to_u64(n)), out)
                == Some::<(Seq<u64>, Seq<u64>)>((stack.push(to_u64(n)), out)));
        },
        ExprV::Op { op, args } => {
            let l = args[0];
            let r = args[1];
            let cl = spec_compile(l);
            let cr = spec_compile(r);
            let tail = seq![binop_instr(op)];
            lemma_compile_arith(l, stack, out);
            lemma_compile_arith(r, stack.push(eval_m(l)), out);
            lemma_run_concat(cl, cr, stack, out);
            lemma_run_concat(cl + cr, tail, stack, out);
            assert(spec_compile(e) == (cl + cr) + tail);
            let st2 = stack.push(eval_m(l)).push(eval_m(r));
            assert(spec_run(cl + cr, stack, out) == Some::<(Seq<u64>, Seq<u64>)>((st2, out)));
            assert(tail[0] == binop_instr(op));
            assert(st2.len() >= 2);
            assert(st2.last() == eval_m(r));
            assert(st2[st2.len() - 2] == eval_m(l));
            assert(st2.drop_last().drop_last() =~= stack);
            assert(tail.drop_first() =~= Seq::<InstrV>::empty());
            assert(spec_step(st2, out, binop_instr(op)) == Some::<(Seq<u64>, Seq<u64>)>(
                (stack.push(eval_m(e)), out),
            ));
            assert(spec_run(Seq::<InstrV>::empty(), stack.push(eval_m(e)), out)
                == Some::<(Seq<u64>, Seq<u64>)>((stack.push(eval_m(e)), out)));
        },
        _ => {},
    }
}

/// Within bounds, the machine's wrapped value is the exact value.
pub proof fn lemma_eval_m_exact(e: ExprV)
    requires
        int_arith(e),
        in_bounds(e),
    ensures
        eval(e) == Some(eval_m(e) as int),
    decreases e,
{
    match e {
        ExprV::Op { op, args } => {
            let l = args[0];
            let r = args[1];
            lemma_eval_m_exact(l);
            lemma_eval_m_exact(r);
            let lv = eval(l)->0;
            let rv = eval(r)->0;
            if op is Multiply {
                assert(lv * rv < 0x1_0000_0000_0000_0000);
                assert(lv >= 0 && rv >= 0) by {
                    lemma_in_bounds_nonneg(l);
                    lemma_in_bounds_nonneg(r);
                }
                lemma_small_mod((lv * rv) as nat, 0x1_0000_0000_0000_0000nat);
            }
        },
        _ => {},
    }
}

/// Positivity of exact values within bounds.
pub proof fn lemma_in_bounds_nonneg(e: ExprV)
    requires
        int_arith(e),
        in_bounds(e),
    ensures
        eval(e) is Some,
        0 <= eval(e)->0 < 0x1_0000_0000_0000_0000,
{
}

/// The law of printed arithmetic: for every integer arithmetic expression
/// whose subexpressions stay within the machine's range, the compiled
/// program for printing it runs without getting stuck, leaves the stack as
/// it found it, and prints exactly the value that standard arithmetic and
/// comparison semantics give the expression.
pub proof fn lemma_print_output(e: ExprV, stack: Seq<u64>, out: Seq<u64>)
    requires
        int_arith(e),
        in_bounds(e),
    ensures
        ({
            let p = ExprV::Op { op: OpV::Call("print"@), args: seq![e] };
            &&& eval(e) is Some
            &&& 0 <= eval(e)->0 < 0x1_0000_0000_0000_0000
            &&& spec_run(spec_compile(p), stack, out) == Some::<(Seq<u64>, Seq<u64>)>(
                (stack, out.push((eval(e)->0) as u64)),
            )
        }),
{
    let p = ExprV::Op { op: OpV::Call("print"@), args: seq![e] };
    lemma_in_bounds_nonneg(e);
    lemma_eval_m_exact(e);
    lemma_compile_arith(e, stack, out);
    assert(seq![e][0] == e);
    assert(!gen_binop(OpV::Call("print"@)));
    assert(spec_compile(p) == spec_compile(e) + seq![InstrV::Print]);
    lemma_run_concat(spec_compile(e), seq![InstrV::Print], stack, out);
    let st2 = stack.push(eval_m(e));
    assert(st2.drop_last() =~= stack);
    assert(st2.last() == eval_m(e));
    assert(seq![InstrV::Print][0] == InstrV::Print);
    assert(seq![InstrV::Print].drop_first() =~= Seq::<InstrV>::empty());
    assert(spec_step(st2, out, InstrV::Print) == Some::<(Seq<u64>, Seq<u64>)>(
        (stack, out.push(eval_m(e))),
    ));
    assert(spec_run(Seq::<InstrV>::empty(), stack, out.push(eval_m(e)))
        == Some::<(Seq<u64>, Seq<u64>)>((stack, out.push(eval_m(e)))));
    assert((eval(e)->0) as u64 == eval_m(e));
}

// ---------------------------------------------------------------------------
// The interpreter
// ---------------------------------------------------------------------------

fn push_int_value(n: i32) -> (v: u64)
    ensures
        v == to_u64(n),
{
    if n >= 0 {
        n as u64
    } else {
        let neg = (-(n as i64)) as u64;
        u64::MAX - neg + 1
    }
}

/// Runs a generated program on an empty stack, yielding the printed values,
/// or nothing when the machine gets stuck.
#[verifier::loop_isolation(false)]
pub fn run_program(instrs: &Vec<Instr>) -> (r: Option<Vec<u64>>)
    ensures
        match spec_run(instrs_view(instrs@), Seq::empty(), Seq::empty()) {
            Some(m) => match r {
                Some(out) => out@ == m.1,
                None => false,
            },
            None => r is None,
        },
{
    let mut stack: Vec<u64> = Vec::new();
    let mut out: Vec<u64> = Vec::new();
    let mut i: usize = 0;
    let ghost prog = instrs_view(instrs@);
    proof {
        assert(prog.skip(0) =~= prog);
    }
    while i < instrs.len()
        invariant
            0 <= i <= instrs.len(),
            spec_run(prog, Seq::empty(), Seq::empty()) == spec_run(
                prog.skip(i as int),
                stack@,
                out@,
            ),
        decreases instrs.len() - i,
    {
        let ghost rest = prog.skip(i as int);
        proof {
            assert(rest[0] == instrs@[i as int]@);
            assert(rest.drop_first() =~= prog.skip(i as int + 1));
        }
        match &instrs[i] {
            Instr::PushInt(n) => {
                stack.push(push_int_value(*n));
            },
            Instr::PushFloat(_) => {
                return None;
            },
            Instr::Plus => {
                if stack.len() < 2 {
                    return None;
                }
                let r2 = stack.pop().unwrap();
                let l = stack.pop().unwrap();
                stack.push(l.wrapping_add(r2));
            },
            Instr::Minus => {
                if stack.len() < 2 {
                    return None;
                }
                let r2 = stack.pop().unwrap();
                let l = stack.pop().unwrap();
                stack.push(l.wrapping_sub(r2));
            },
            Instr::Multiply => {
                if stack.len() < 2 {
                    return None;
                }
                let r2 = stack.pop().unwrap();
                let l = stack.pop().unwrap();
                stack.push(l.wrapping_mul(r2));
            },
            Instr::Equal => {
                if stack.len() < 2 {
                    return None;
                }
                let r2 = stack.pop().unwrap();
                let l = stack.pop().unwrap();
                stack.push(
                    if l == r2 {
                        1u64
                    } else {
                        0u64
                    },
                );
            },
            Instr::Print => {
                if stack.len() < 1 {
                    return None;
                }
                let v = stack.pop().unwrap();
                out.push(v);
            },
        }
        i = i + 1;
    }
    proof {
        assert(prog.skip(i as int) =~= Seq::<InstrV>::empty());
    }
    Some(out)
}

} // verus!
