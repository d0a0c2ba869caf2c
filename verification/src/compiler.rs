//! The code generator: turns expression trees into abstract stack-machine
//! instructions and renders them, line by line, in the fixed textual assembly
//! syntax that the external toolchain accepts. The artifact is a sequence of
//! lines: one prologue (the shared numeric-to-text routine and the entry
//! point), the generated instructions of every top-level expression in order,
//! and one epilogue (clean process termination).

use vstd::prelude::*;

use crate::ast::Expr;
use crate::ast::Literal;
use crate::ast::Operator;
use crate::ast::lemma_exprs_view;
use crate::machine::Instr;
use crate::machine::InstrV;
use crate::machine::arith;
use crate::machine::instrs_view;
use crate::machine::spec_compile;
use crate::machine::supported;
use crate::text::i32_dec_string;
use crate::text::spec_i32_dec;

verus! {

/// Failure of code generation.
#[derive(Debug)]
pub enum CompileError {
    /// The expression is parsed but uses an operation the code generator
    /// does not support.
    UnsupportedOperation,
}

/// View of the artifact's lines as character sequences.
pub open spec fn lines_view(ls: Seq<String>) -> Seq<Seq<char>> {
    ls.map_values(|s: String| s@)
}

/// The fixed prologue: the shared numeric-to-text conversion routine
/// (unsigned, base 10, by reciprocal multiplication) and the process entry
/// point.
pub open spec fn spec_prologue() -> Seq<Seq<char>> {
    seq![
        "BITS 64"@,
        "segment .text"@,
        "dump:"@,
        "    mov     r9, -3689348814741910323"@,
        "    sub     rsp, 40"@,
        "    mov     BYTE [rsp+31], 10"@,
        "    lea     rcx, [rsp+30]"@,
        ".L2:"@,
        "    mov     rax, rdi"@,
        "    lea     r8, [rsp+32]"@,
        "    mul     r9"@,
        "    mov     rax, rdi"@,
        "    sub     r8, rcx"@,
        "    shr     rdx, 3"@,
        "    lea     rsi, [rdx+rdx*4]"@,
        "    add     rsi, rsi"@,
        "    sub     rax, rsi"@,
        "    add     eax, 48"@,
        "    mov     BYTE [rcx], al"@,
        "    mov     rax, rdi"@,
        "    mov     rdi, rdx"@,
        "    mov     rdx, rcx"@,
        "    sub     rcx, 1"@,
        "    cmp     rax, 9"@,
        "    ja      .L2"@,
        "    lea     rax, [rsp+32]"@,
        "    mov     edi, 1"@,
        "    sub     rdx, rax"@,
        "    xor     eax, eax"@,
        "    lea     rsi, [rsp+32+rdx]"@,
        "    mov     rdx, r8"@,
        "    mov     rax, 1"@,
        "    syscall"@,
        "    add     rsp, 40"@,
        "    ret"@,
        "global _start"@,
        "_start:"@,
    ]
}

/// The fixed epilogue: clean process termination through the exit call.
pub open spec fn spec_epilogue() -> Seq<Seq<char>> {
    seq!["    mov rax, 60"@, "    mov rdi, 0"@, "    syscall"@]
}

/// The rendering of one abstract instruction as lines of assembly text.
pub open spec fn render_instr(i: InstrV) -> Seq<Seq<char>> {
    match i {
        InstrV::PushInt(n) => seq!["    ;; -- push  --"@, "    push "@ + spec_i32_dec(n)],
        InstrV::PushFloat(t) => seq!["    ;; -- push  --"@, "    push "@ + t],
        InstrV::Plus => seq![
            "    ;; -- plus --"@,
            "    pop rax"@,
            "    pop rbx"@,
            "    add rax, rbx"@,
            "    push rax"@,
        ],
        InstrV::Minus => seq![
            "    ;; -- minus --"@,
            "    pop rax"@,
            "    pop rbx"@,
            "    sub rbx, rax"@,
            "    push rbx"@,
        ],
        InstrV::Multiply => seq![
            "    ;; -- multiply --"@,
            "    pop rax"@,
            "    pop rbx"@,
            "    mul rbx"@,
            "    push rax"@,
        ],
        InstrV::Equal => seq![
            "    ;; -- equal --"@,
            "    mov rcx, 0"@,
            "    mov rdx, 1"@,
            "    pop rax"@,
            "    pop rbx"@,
            "    cmp rax, rbx"@,
            "    cmove rcx, rdx"@,
            "    push rcx"@,
        ],
        InstrV::Print => seq!["    ;; -- dump --"@, "    pop rdi"@, "    call dump"@],
    }
}

/// The rendering of an instruction sequence: each instruction's lines, in
/// order.
pub open spec fn render_prog(p: Seq<InstrV>) -> Seq<Seq<char>>
    decreases p.len(),
{
    if p.len() == 0 {
        Seq::empty()
    } else {
        render_instr(p[0]) + render_prog(p.drop_first())
    }
}

/// Rendering one more instruction appends its lines.
pub proof fn lemma_render_snoc(p: Seq<InstrV>, x: InstrV)
    ensures
        render_prog(p.push(x)) == render_prog(p) + render_instr(x),
    decreases p.len(),
{
    if p.len() == 0 {
        assert(p.push(x).drop_first() =~= Seq::<InstrV>::empty());
        assert(p.push(x)[0] == x);
        assert(render_prog(Seq::<InstrV>::empty()) == Seq::<Seq<char>>::empty());
        assert(render_prog(p.push(x)) =~= render_prog(p) + render_instr(x));
    } else {
        assert(p.push(x)[0] == p[0]);
        assert(p.push(x).drop_first() =~= p.drop_first().push(x));
        lemma_render_snoc(p.drop_first(), x);
        assert(render_prog(p.push(x)) =~= render_prog(p) + render_instr(x));
    }
}

/// The code generator: the open artifact, an append-only list of lines, with
/// the prologue emitted once at construction.
pub struct Compile {
    /// The artifact's lines, in order.
    pub lines: Vec<String>,
}

impl Compile {
    /// Creates a code generator whose artifact holds exactly the prologue.
    pub fn new() -> (c: Compile)
        ensures
            lines_view(c.lines@) == spec_prologue(),
    {
        let mut comp = Compile { lines: Vec::new() };
        proof {
            assert(lines_view(comp.lines@) =~= Seq::<Seq<char>>::empty());
        }
        comp.init_global_func();
        proof {
            assert(lines_view(comp.lines@) =~= spec_prologue());
        }
        comp
    }

    /// Appends one line to the artifact.
    pub fn write(&mut self, line_to_write: &str)
        ensures
            lines_view(final(self).lines@) == lines_view(old(self).lines@).push(line_to_write@),
    {
        self.lines.push(line_to_write.to_owned());
        proof {
            assert(lines_view(self.lines@) =~= lines_view(old(self).lines@).push(line_to_write@));
        }
    }

    /// Emits the prologue: the numeric-to-text routine and the entry point.
    fn init_global_func(&mut self)
        ensures
            lines_view(final(self).lines@) == lines_view(old(self).lines@) + spec_prologue(),
    {
        self.write("BITS 64");
        self.write("segment .text");
        self.write("dump:");
        self.write("    mov     r9, -3689348814741910323");
        self.write("    sub     rsp, 40");
        self.write("    mov     BYTE [rsp+31], 10");
        self.write("    lea     rcx, [rsp+30]");
        self.write(".L2:");
        self.write("    mov     rax, rdi");
        self.write("    lea     r8, [rsp+32]");
        self.write("    mul     r9");
        self.write("    mov     rax, rdi");
        self.write("    sub     r8, rcx");
        self.write("    shr     rdx, 3");
        self.write("    lea     rsi, [rdx+rdx*4]");
        self.write("    add     rsi, rsi");
        self.write("    sub     rax, rsi");
        self.write("    add     eax, 48");
        self.write("    mov     BYTE [rcx], al");
        self.write("    mov     rax, rdi");
        self.write("    mov     rdi, rdx");
        self.write("    mov     rdx, rcx");
        self.write("    sub     rcx, 1");
        self.write("    cmp     rax, 9");
        self.write("    ja      .L2");
        self.write("    lea     rax, [rsp+32]");
        self.write("    mov     edi, 1");
        self.write("    sub     rdx, rax");
        self.write("    xor     eax, eax");
        self.write("    lea     rsi, [rsp+32+rdx]");
        self.write("    mov     rdx, r8");
        self.write("    mov     rax, 1");
        self.write("    syscall");
        self.write("    add     rsp, 40");
        self.write("    ret");
        self.write("global _start");
        self.write("_start:");
        proof {
            assert(lines_view(self.lines@) =~= lines_view(old(self).lines@) + spec_prologue());
        }
    }

    /// Emits the epilogue. The artifact is complete after this; assembling,
    /// linking and running it belong to the external toolchain.
    pub fn epilogue(&mut self)
        ensures
            lines_view(final(self).lines@) == lines_view(old(self).lines@) + spec_epilogue(),
    {
        self.write("    mov rax, 60");
        self.write("    mov rdi, 0");
        self.write("    syscall");
        proof {
            assert(lines_view(self.lines@) =~= lines_view(old(self).lines@) + spec_epilogue());
        }
    }

    fn assemble_push(&mut self, number: i32)
        ensures
            lines_view(final(self).lines@) == lines_view(old(self).lines@) + render_instr(
                InstrV::PushInt(number),
            ),
    {
        let dec = i32_dec_string(number);
        let mut line = "    push ".to_owned();
        line.append(dec.as_str());
        self.write("    ;; -- push  --");
        self.write(line.as_str());
        proof {
            assert(lines_view(self.lines@) =~= lines_view(old(self).lines@) + render_instr(
                InstrV::PushInt(number),
            ));
        }
    }

    fn assemble_push_raw(&mut self, raw: &String)
        ensures
            lines_view(final(self).lines@) == lines_view(old(self).lines@) + render_instr(
                InstrV::PushFloat(raw@),
            ),
    {
        let mut line = "    push ".to_owned();
        line.append(raw.as_str());
        self.write("    ;; -- push  --");
        self.write(line.as_str());
        proof {
            assert(lines_view(self.lines@) =~= lines_view(old(self).lines@) + render_instr(
                InstrV::PushFloat(raw@),
            ));
        }
    }

    fn assemble_plus(&mut self)
        ensures
            lines_view(final(self).lines@) == lines_view(old(self).lines@) + render_instr(
                InstrV::Plus,
            ),
    {
        self.write("    ;; -- plus --");
        self.write("    pop rax");
        self.write("    pop rbx");
        self.write("    add rax, rbx");
        self.write("    push rax");
        proof {
            assert(lines_view(self.lines@) =~= lines_view(old(self).lines@) + render_instr(
                InstrV::Plus,
            ));
        }
    }

    fn assemble_minus(&mut self)
        ensures
            lines_view(final(self).lines@) == lines_view(old(self).lines@) + render_instr(
                InstrV::Minus,
            ),
    {
        self.write("    ;; -- minus --");
        self.write("    pop rax");
        self.write("    pop rbx");
        self.write("    sub rbx, rax");
        self.write("    push rbx");
        proof {
            assert(lines_view(self.lines@) =~= lines_view(old(self).lines@) + render_instr(
                InstrV::Minus,
            ));
        }
    }

    fn assemble_multiply(&mut self)
        ensures
            lines_view(final(self).lines@) == lines_view(old(self).lines@) + render_instr(
                InstrV::Multiply,
            ),
    {
        self.write("    ;; -- multiply --");
        self.write("    pop rax");
        self.write("    pop rbx");
        self.write("    mul rbx");
        self.write("    push rax");
        proof {
            assert(lines_view(self.lines@) =~= lines_view(old(self).lines@) + render_instr(
                InstrV::Multiply,
            ));
        }
    }

    fn assemble_equal(&mut self)
        ensures
            lines_view(final(self).lines@) == lines_view(old(self).lines@) + render_instr(
                InstrV::Equal,
            ),
    {
        self.write("    ;; -- equal --");
        self.write("    mov rcx, 0");
        self.write("    mov rdx, 1");
        self.write("    pop rax");
        self.write("    pop rbx");
        self.write("    cmp rax, rbx");
        self.write("    cmove rcx, rdx");
        self.write("    push rcx");
        proof {
            assert(lines_view(self.lines@) =~= lines_view(old(self).lines@) + render_instr(
                InstrV::Equal,
            ));
        }
    }

    /// Emits the call of the shared printing routine for the one runtime
    /// function name the generator knows; any other name emits nothing.
    fn assemble_function(&mut self, name: String)
        ensures
            name@ == "print"@ ==> lines_view(final(self).lines@) == lines_view(old(self).lines@)
                + render_instr(InstrV::Print),
            name@ != "print"@ ==> final(self).lines@ == old(self).lines@,
    {
        if name == "print".to_owned() {
            self.write("    ;; -- dump --");
            self.write("    pop rdi");
            self.write("    call dump");
            proof {
                assert(lines_view(self.lines@) =~= lines_view(old(self).lines@) + render_instr(
                    InstrV::Print,
                ));
            }
        }
    }

    fn emit_instr(&mut self, ins: &Instr)
        ensures
            lines_view(final(self).lines@) == lines_view(old(self).lines@) + render_instr(ins@),
    {
        match ins {
            Instr::PushInt(n) => self.assemble_push(*n),
            Instr::PushFloat(t) => self.assemble_push_raw(t),
            Instr::Plus => self.assemble_plus(),
            Instr::Minus => self.assemble_minus(),
            Instr::Multiply => self.assemble_multiply(),
            Instr::Equal => self.assemble_equal(),
            Instr::Print => self.assemble_function("print".to_owned()),
        }
    }

    /// Compiles an arithmetic expression: an integer or floating-point
    /// literal, or one of the four generated binary operators over two such.
    /// The instructions are exactly what `spec_compile` gives; anything else
    /// is unsupported.
    fn compile_arith(e: &Expr) -> (r: Result<Vec<Instr>, CompileError>)
        ensures
            match r {
                Ok(v) => arith(e@) && instrs_view(v@) == spec_compile(e@),
                Err(e2) => !arith(e@) && e2 is UnsupportedOperation,
            },
        decreases *e,
    {
        match e {
            Expr::OpLiteral(b) => {
                match &**b {
                    Literal::Integer(n) => {
                        let v = vec![Instr::PushInt(*n)];
                        proof {
                            assert(instrs_view(v@) =~= spec_compile(e@));
                        }
                        Ok(v)
                    },
                    Literal::FloatingPoint(t) => {
                        let v = vec![Instr::PushFloat(t.clone())];
                        proof {
                            assert(instrs_view(v@) =~= spec_compile(e@));
                        }
                        Ok(v)
                    },
                    _ => Err(CompileError::UnsupportedOperation),
                }
            },
            Expr::OpExpr(b) => {
                proof {
                    lemma_exprs_view(b.args@);
                }
                let bin = match &b.op {
                    Operator::Plus => true,
                    Operator::Substract => true,
                    Operator::Multiply => true,
                    Operator::Equal => true,
                    _ => false,
                };
                if bin && b.args.len() == 2 {
                    let mut v = match Compile::compile_arith(&b.args[0]) {
                        Ok(v) => v,
                        Err(e2) => {
                            return Err(e2);
                        },
                    };
                    let mut v2 = match Compile::compile_arith(&b.args[1]) {
                        Ok(v2) => v2,
                        Err(e2) => {
                            return Err(e2);
                        },
                    };
                    v.append(&mut v2);
                    let ins = match &b.op {
                        Operator::Plus => Instr::Plus,
                        Operator::Substract => Instr::Minus,
                        Operator::Multiply => Instr::Multiply,
                        _ => Instr::Equal,
                    };
                    v.push(ins);
                    proof {
                        assert(instrs_view(v@) =~= spec_compile(e@));
                    }
                    Ok(v)
                } else {
                    Err(CompileError::UnsupportedOperation)
                }
            },
            Expr::OPComment => Err(CompileError::UnsupportedOperation),
        }
    }

    /// Compiles one supported expression to abstract instructions: a comment
    /// generates nothing, `print` generates its argument and the printing
    /// call, and arithmetic generates itself; everything else fails with the
    /// unsupported-operation error, exactly when `supported` says so.
    pub fn compile_expr(e: &Expr) -> (r: Result<Vec<Instr>, CompileError>)
        ensures
            match r {
                Ok(v) => supported(e@) && instrs_view(v@) == spec_compile(e@),
                Err(e2) => !supported(e@) && e2 is UnsupportedOperation,
            },
    {
        match e {
            Expr::OPComment => {
                let v: Vec<Instr> = Vec::new();
                proof {
                    assert(instrs_view(v@) =~= spec_compile(e@));
                }
                Ok(v)
            },
            Expr::OpExpr(b) => {
                proof {
                    lemma_exprs_view(b.args@);
                }
                match &b.op {
                    Operator::Call(name) => {
                        if *name == "print".to_owned() && b.args.len() == 1 {
                            let mut v = match Compile::compile_arith(&b.args[0]) {
                                Ok(v) => v,
                                Err(e2) => {
                                    return Err(e2);
                                },
                            };
                            v.push(Instr::Print);
                            proof {
                                assert(instrs_view(v@) =~= spec_compile(e@));
                            }
                            Ok(v)
                        } else {
                            Err(CompileError::UnsupportedOperation)
                        }
                    },
                    _ => Compile::compile_arith(e),
                }
            },
            Expr::OpLiteral(_) => Compile::compile_arith(e),
        }
    }

    /// Consumes one expression and appends its generated instructions,
    /// rendered as text, to the artifact. A supported expression appends
    /// exactly the rendering of its compiled instructions; an unsupported one
    /// changes nothing and fails.
    #[verifier::loop_isolation(false)]
    pub fn evaluate(&mut self, expr: Expr) -> (r: Result<(), CompileError>)
        ensures
            match r {
                Ok(_) => supported(expr@) && lines_view(final(self).lines@) == lines_view(
                    old(self).lines@,
                ) + render_prog(spec_compile(expr@)),
                Err(e2) => {
                    &&& !supported(expr@)
                    &&& final(self).lines@ == old(self).lines@
                    &&& e2 is UnsupportedOperation
                },
            },
    {
        let instrs = match Compile::compile_expr(&expr) {
            Ok(v) => v,
            Err(e2) => {
                return Err(e2);
            },
        };
        let ghost prog = instrs_view(instrs@);
        let mut i: usize = 0;
        proof {
            assert(render_prog(prog.take(0)) =~= Seq::<Seq<char>>::empty());
            assert(lines_view(self.lines@) =~= lines_view(old(self).lines@) + render_prog(
                prog.take(0),
            ));
        }
        while i < instrs.len()
            invariant
                0 <= i <= instrs.len(),
                lines_view(self.lines@) == lines_view(old(self).lines@) + render_prog(
                    prog.take(i as int),
                ),
            decreases instrs.len() - i,
        {
            self.emit_instr(&instrs[i]);
            proof {
                assert(prog.take(i as int + 1) =~= prog.take(i as int).push(prog[i as int]));
                lemma_render_snoc(prog.take(i as int), prog[i as int]);
            }
            i = i + 1;
        }
        proof {
            assert(prog.take(instrs.len() as int) =~= prog);
        }
        Ok(())
    }
}

} // verus!
