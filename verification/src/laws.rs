//! Laws of the machine: properties that hold of every program and every
//! state, proved against the transition function [`spec_step`] and the
//! assembler's specification.

use vstd::prelude::*;

use crate::ErrorKind;
use crate::evaluator::spec_step;
use crate::evaluator::vm_wf;
use crate::evaluator::StepModel;
use crate::evaluator::VmModel;
use crate::evaluator::div_i32;
use crate::parser::InstructionKind;
use crate::parser::ValModel;
use crate::parser::ParseAcc;
use crate::parser::spec_parse_from;
use crate::parser::spec_parse_ident;
use crate::parser::spec_parse_target;
use crate::lexer::Token;
use crate::lexer::TokenValue;
use crate::lexer::TokenKind;

verus! {

/// For all integer pairs: `psh b; psh a; sub` leaves exactly `b - a` on the
/// stack (wrapped into the machine word where it overflows), and `psh b;
/// psh a; div` leaves the quotient `b / a` truncated toward zero, or fails
/// with a division-by-zero error when `a` is zero — never a wrong value.
pub proof fn lemma_sub_div_programs(m: VmModel, b: i32, a: i32)
    requires
        vm_wf(m),
        m.pending is None,
        m.instrs.len() <= usize::MAX,
        m.cur + 2 < m.instrs.len(),
        m.instrs[m.cur as int].kind == InstructionKind::Psh,
        m.instrs[m.cur as int].params == seq![ValModel::Integer(b)],
        m.instrs[m.cur + 1].kind == InstructionKind::Psh,
        m.instrs[m.cur + 1].params == seq![ValModel::Integer(a)],
    ensures
        ({
            let m1 = spec_step(m).0;
            let m2 = spec_step(m1).0;
            &&& spec_step(m).1 is Continue
            &&& spec_step(m1).1 is Continue
            &&& (m.instrs[m.cur + 2].kind == InstructionKind::Sub ==> {
                &&& spec_step(m2).1 is Continue
                &&& spec_step(m2).0.stack == m.stack.push(
                    ValModel::Integer(vstd::wrapping::i32_specs::wrapping_sub(b, a)),
                )
                &&& (i32::MIN <= b - a <= i32::MAX ==> spec_step(m2).0.stack == m.stack.push(
                    ValModel::Integer((b - a) as i32),
                ))
            })
            &&& (m.instrs[m.cur + 2].kind == InstructionKind::Div ==> {
                &&& (a != 0 ==> spec_step(m2).1 is Continue && spec_step(m2).0.stack
                    == m.stack.push(ValModel::Integer(div_i32(b, a))))
                &&& (a == 0 ==> spec_step(m2).0 == m2 && (spec_step(m2).1 matches StepModel::Fail {
                    kind,
                    ..
                } && kind == ErrorKind::DivisionByZero))
            })
        }),
{
    let m1 = spec_step(m).0;
    let m2 = spec_step(m1).0;
    assert(m1.stack =~= m.stack.push(ValModel::Integer(b)));
    assert(m2.stack =~= m.stack.push(ValModel::Integer(b)).push(ValModel::Integer(a)));
    assert(m2.stack.subrange(0, m2.stack.len() - 2) =~= m.stack);
    assert(m2.stack.last() == ValModel::Integer(a));
    assert(m2.stack[m2.stack.len() - 2] == ValModel::Integer(b));
}

/// String concatenation under `add` keeps push order: with `b` below `a` on
/// the stack, the result is the text of `b` followed by the text of `a`.
pub proof fn lemma_add_concatenates(m: VmModel, sa: Seq<char>, sb: Seq<char>)
    requires
        vm_wf(m),
        m.pending is None,
        m.cur < m.instrs.len(),
        m.instrs[m.cur as int].kind == InstructionKind::Add,
        m.stack.len() >= 2,
        m.stack.last() == ValModel::Str(sa),
        m.stack[m.stack.len() - 2] == ValModel::Str(sb),
    ensures
        spec_step(m).1 is Continue,
        spec_step(m).0.stack == m.stack.subrange(0, m.stack.len() - 2).push(
            ValModel::Str(sb + sa),
        ),
{
}

/// A string below an integer count `n >= 0`, under `mul`, becomes the string
/// repeated `n` times.
pub proof fn lemma_mul_repeats(m: VmModel, s: Seq<char>, n: i32)
    requires
        vm_wf(m),
        m.pending is None,
        m.cur < m.instrs.len(),
        m.instrs[m.cur as int].kind == InstructionKind::Mul,
        m.stack.len() >= 2,
        m.stack.last() == ValModel::Integer(n),
        m.stack[m.stack.len() - 2] == ValModel::Str(s),
        n >= 0,
    ensures
        spec_step(m).1 is Continue,
        spec_step(m).0.stack == m.stack.subrange(0, m.stack.len() - 2).push(
            ValModel::Str(crate::evaluator::seq_repeat(s, n as nat)),
        ),
{
}

/// Popping from an empty operand stack yields a stack-underflow failure for
/// every opcode that consumes operands, never a silent default — and the
/// state is left untouched.
pub proof fn lemma_empty_stack_underflow(m: VmModel)
    requires
        vm_wf(m),
        m.pending is None,
        m.cur < m.instrs.len(),
        m.stack.len() == 0,
        ({
            let instr = m.instrs[m.cur as int];
            ||| instr.kind == InstructionKind::Add
            ||| instr.kind == InstructionKind::Sub
            ||| instr.kind == InstructionKind::Mul
            ||| instr.kind == InstructionKind::Div
            ||| instr.kind == InstructionKind::Mod
            ||| instr.kind == InstructionKind::Cmp
            ||| instr.kind == InstructionKind::Rot
            ||| instr.kind == InstructionKind::Pop
            ||| instr.kind == InstructionKind::Dup
            ||| instr.kind == InstructionKind::Type
            ||| instr.kind == InstructionKind::Len
            ||| instr.kind == InstructionKind::Sys
            ||| (instr.kind == InstructionKind::Ret && m.calls.len() == 0)
            ||| (instr.kind == InstructionKind::Jnz && m.labels.contains_key(
                instr.params[0]->Str_0,
            ))
            ||| (instr.kind == InstructionKind::Jzr && m.labels.contains_key(
                instr.params[0]->Str_0,
            ))
        }),
    ensures
        spec_step(m).0 == m,
        (spec_step(m).1 matches StepModel::Fail { kind, .. } && kind == ErrorKind::StackUnderflow),
{
}

/// Round trip through a variable: `pop $x; psh $x` binds the popped value to
/// `$x` and restores exactly that value on the stack, whatever its tag.
pub proof fn lemma_pop_push_roundtrip(m: VmModel, name: Seq<char>)
    requires
        vm_wf(m),
        m.pending is None,
        m.instrs.len() <= usize::MAX,
        m.cur + 1 < m.instrs.len(),
        m.instrs[m.cur as int].kind == InstructionKind::Pop,
        m.instrs[m.cur as int].params == seq![ValModel::Variable(name)],
        m.instrs[m.cur + 1].kind == InstructionKind::Psh,
        m.instrs[m.cur + 1].params == seq![ValModel::Variable(name)],
        m.stack.len() > 0,
        name != "$_"@,
        name != "$"@,
    ensures
        spec_step(m).1 is Continue,
        spec_step(spec_step(m).0).1 is Continue,
        spec_step(spec_step(m).0).0.stack == m.stack,
        spec_step(spec_step(m).0).0.vars == m.vars.insert(name, m.stack.last()),
{
    let m1 = spec_step(m).0;
    assert(m1.vars == m.vars.insert(name, m.stack.last()));
    assert(m1.vars.contains_key(name));
    let m2 = spec_step(m1).0;
    assert(m2.stack =~= m.stack);
}

/// `run @f` pushes the calling site onto the call stack and continues right
/// after the function's marker; the operand stack is untouched.
pub proof fn lemma_run_enters(m: VmModel, name: Seq<char>)
    requires
        vm_wf(m),
        m.pending is None,
        m.cur < m.instrs.len(),
        m.instrs[m.cur as int].kind == InstructionKind::Run,
        m.instrs[m.cur as int].params == seq![ValModel::Str(name)],
        m.funcs.contains_key(name),
    ensures
        spec_step(m).1 is Continue,
        spec_step(m).0 == (VmModel {
            calls: m.calls.push(m.cur),
            cur: (m.funcs[name] + 1) as usize,
            ..m
        }),
{
}

/// `ret` with a caller on the call stack pops exactly that one entry and
/// resumes at the instruction immediately after the `run` that pushed it,
/// with the operand stack exactly as the function left it: calls and returns
/// balance strictly.
pub proof fn lemma_ret_resumes(m: VmModel, back: usize)
    requires
        vm_wf(m),
        m.pending is None,
        m.cur < m.instrs.len(),
        m.instrs[m.cur as int].kind == InstructionKind::Ret,
        m.calls.len() > 0,
        m.calls.last() == back,
    ensures
        spec_step(m).1 is Continue,
        spec_step(m).0 == (VmModel { calls: m.calls.drop_last(), cur: (back + 1) as usize, ..m }),
{
}

/// A jump resolves against the label table alone, wherever in the source the
/// label was defined: once the table holds the name, `jmp` continues right
/// after the label's marker and never fails. Forward references are resolved
/// because the assembler builds the whole table before execution starts.
pub proof fn lemma_jmp_resolves(m: VmModel, name: Seq<char>)
    requires
        vm_wf(m),
        m.pending is None,
        m.cur < m.instrs.len(),
        m.instrs[m.cur as int].kind == InstructionKind::Jmp,
        m.instrs[m.cur as int].params == seq![ValModel::Str(name)],
        m.labels.contains_key(name),
    ensures
        spec_step(m).1 is Continue,
        spec_step(m).0 == (VmModel { cur: (m.labels[name] + 1) as usize, ..m }),
{
}

/// The final program's tables keep every binding the assembler's working
/// state already held, with the same index: label and function tables only
/// grow.
pub open spec fn tables_extend(acc: ParseAcc, p: crate::parser::ProgModel) -> bool {
    &&& forall|k: Seq<char>|
        #[trigger] acc.labels.contains_key(k) ==> p.labels.contains_key(k) && p.labels[k]
            == acc.labels[k]
    &&& forall|k: Seq<char>|
        #[trigger] acc.funcs.contains_key(k) ==> p.funcs.contains_key(k) && p.funcs[k]
            == acc.funcs[k]
}

/// A token stream that assembles successfully always yields a program whose
/// function table holds the entry name: a program lacking it fails assembly
/// and never reaches execution.
pub proof fn lemma_parse_requires_entry(tokens: Seq<Token>, i: int, acc: ParseAcc)
    requires
        0 <= i,
        spec_parse_from(tokens, i, acc) is Some,
    ensures
        spec_parse_from(tokens, i, acc)->0.funcs.contains_key("@entry"@),
        tables_extend(acc, spec_parse_from(tokens, i, acc)->0),
    decreases tokens.len() - i, 2int,
{
    if i >= tokens.len() {
    } else {
        let t = tokens[i];
        match t.kind {
            TokenKind::Identifier => match t.value {
                TokenValue::Identifier(s) => {
                    lemma_parse_ident_requires_entry(tokens, i, acc, s@, t.line, t.col);
                },
                _ => {},
            },
            TokenKind::Label => {
                if i + 1 < tokens.len() && tokens[i + 1].kind == TokenKind::Punctuation
                    && crate::lexer::tv_text(tokens[i + 1].value@) == ":"@ && !acc.labels.contains_key(
                    crate::lexer::tv_text(t.value@),
                ) {
                    let name = crate::lexer::tv_text(t.value@);
                    let marker = crate::parser::InstrModel {
                        kind: InstructionKind::Lbl,
                        params: seq![ValModel::Str(name)],
                        line: t.line,
                        col: t.col,
                    };
                    let acc2 = ParseAcc {
                        instrs: acc.instrs.push(marker),
                        labels: acc.labels.insert(name, acc.instrs.len() as usize),
                        ..acc
                    };
                    lemma_parse_requires_entry(tokens, i + 2, acc2);
                    assert forall|k: Seq<char>| #[trigger] acc.labels.contains_key(k)
                        implies acc2.labels.contains_key(k) && acc2.labels[k]
                        == acc.labels[k] by {}
                }
            },
            TokenKind::Function => {
                if i + 1 < tokens.len() && tokens[i + 1].kind == TokenKind::Punctuation
                    && crate::lexer::tv_text(tokens[i + 1].value@) == ":"@ && !acc.funcs.contains_key(
                    crate::lexer::tv_text(t.value@),
                ) {
                    let name = crate::lexer::tv_text(t.value@);
                    let marker = crate::parser::InstrModel {
                        kind: InstructionKind::Fun,
                        params: seq![ValModel::Str(name)],
                        line: t.line,
                        col: t.col,
                    };
                    let acc2 = ParseAcc {
                        instrs: acc.instrs.push(marker),
                        funcs: acc.funcs.insert(name, acc.instrs.len() as usize),
                        ..acc
                    };
                    lemma_parse_requires_entry(tokens, i + 2, acc2);
                    assert forall|k: Seq<char>| #[trigger] acc.funcs.contains_key(k)
                        implies acc2.funcs.contains_key(k) && acc2.funcs[k] == acc.funcs[k] by {}
                }
            },
            _ => {},
        }
    }
}

proof fn lemma_parse_ident_requires_entry(
    tokens: Seq<Token>,
    i: int,
    acc: ParseAcc,
    s: Seq<char>,
    line: usize,
    col: usize,
)
    requires
        0 <= i < tokens.len(),
        spec_parse_ident(tokens, i, acc, s, line, col) is Some,
    ensures
        spec_parse_ident(tokens, i, acc, s, line, col)->0.funcs.contains_key("@entry"@),
        tables_extend(acc, spec_parse_ident(tokens, i, acc, s, line, col)->0),
    decreases tokens.len() - i, 1int,
{
    reveal_with_fuel(spec_parse_from, 2);
    reveal_with_fuel(spec_parse_ident, 2);
    reveal_with_fuel(spec_parse_target, 2);
    if s == "psh"@ {
        if i + 1 < tokens.len() {
            match tokens[i + 1].value {
                TokenValue::Integer(_) => lemma_psh_entry(tokens, i, acc, s, line, col),
                TokenValue::Float(_) => lemma_psh_entry(tokens, i, acc, s, line, col),
                TokenValue::String(_) => lemma_psh_entry(tokens, i, acc, s, line, col),
                TokenValue::Identifier(_) => lemma_psh_entry(tokens, i, acc, s, line, col),
                TokenValue::Buffer(_) => lemma_psh_entry(tokens, i, acc, s, line, col),
                TokenValue::Variable(_) => lemma_psh_entry(tokens, i, acc, s, line, col),
                _ => {},
            }
        }
    } else if s == "jmp"@ || s == "jnz"@ || s == "jzr"@ || s == "typ"@ || s == "run"@ {
        if s == "jmp"@ {
            lemma_target_entry(tokens, i, acc, InstructionKind::Jmp, TokenKind::Label, line, col);
        } else if s == "jnz"@ {
            lemma_target_entry(tokens, i, acc, InstructionKind::Jnz, TokenKind::Label, line, col);
        } else if s == "jzr"@ {
            lemma_target_entry(tokens, i, acc, InstructionKind::Jzr, TokenKind::Label, line, col);
        } else if s == "typ"@ {
            lemma_target_entry(
                tokens,
                i,
                acc,
                InstructionKind::Type,
                TokenKind::Identifier,
                line,
                col,
            );
        } else {
            lemma_target_entry(
                tokens,
                i,
                acc,
                InstructionKind::Run,
                TokenKind::Function,
                line,
                col,
            );
        }
    } else {
        if spec_parse_ident(tokens, i, acc, s, line, col) is Some {
            lemma_ident_rest_entry(tokens, i, acc, s, line, col);
        }
    }
}

proof fn lemma_psh_entry(
    tokens: Seq<Token>,
    i: int,
    acc: ParseAcc,
    s: Seq<char>,
    line: usize,
    col: usize,
)
    requires
        0 <= i < tokens.len(),
        s == "psh"@,
        spec_parse_ident(tokens, i, acc, s, line, col) is Some,
    ensures
        spec_parse_ident(tokens, i, acc, s, line, col)->0.funcs.contains_key("@entry"@),
        tables_extend(acc, spec_parse_ident(tokens, i, acc, s, line, col)->0),
    decreases tokens.len() - i, 0int,
{
    reveal_with_fuel(spec_parse_ident, 2);
    if i + 1 < tokens.len() {
        let value = match tokens[i + 1].value {
            TokenValue::Integer(v) => Some(ValModel::Integer(v)),
            TokenValue::Float(f) => Some(ValModel::Float(f@)),
            TokenValue::String(st) => Some(ValModel::Str(st@)),
            TokenValue::Identifier(w) => if w@ == "true"@ {
                Some(ValModel::Boolean(true))
            } else if w@ == "false"@ {
                Some(ValModel::Boolean(false))
            } else {
                None
            },
            TokenValue::Buffer(b) => if acc.bufs.contains(b@) {
                Some(ValModel::Buffer(b@))
            } else {
                None
            },
            TokenValue::Variable(v) => if acc.vars.contains(v@) {
                Some(ValModel::Variable(v@))
            } else {
                None
            },
            _ => None,
        };
        match value {
            Some(p) => {
                lemma_parse_requires_entry(
                    tokens,
                    i + 2,
                    ParseAcc {
                        instrs: acc.instrs.push(
                            crate::parser::InstrModel {
                                kind: InstructionKind::Psh,
                                params: seq![p],
                                line,
                                col,
                            },
                        ),
                        ..acc
                    },
                );
            },
            None => {},
        }
    }
}

proof fn lemma_target_entry(
    tokens: Seq<Token>,
    i: int,
    acc: ParseAcc,
    kind: InstructionKind,
    operand: TokenKind,
    line: usize,
    col: usize,
)
    requires
        0 <= i < tokens.len(),
        spec_parse_target(tokens, i, acc, kind, operand, line, col) is Some,
    ensures
        spec_parse_target(tokens, i, acc, kind, operand, line, col)->0.funcs.contains_key(
            "@entry"@,
        ),
        tables_extend(acc, spec_parse_target(tokens, i, acc, kind, operand, line, col)->0),
    decreases tokens.len() - i, 0int,
{
    reveal_with_fuel(spec_parse_target, 2);
    if !(i + 1 >= tokens.len() || tokens[i + 1].kind != operand) {
        let name = crate::lexer::tv_text(tokens[i + 1].value@);
        lemma_parse_requires_entry(
            tokens,
            i + 2,
            ParseAcc {
                instrs: acc.instrs.push(
                    crate::parser::InstrModel {
                        kind,
                        params: seq![ValModel::Str(name)],
                        line,
                        col,
                    },
                ),
                ..acc
            },
        );
    }
}

proof fn lemma_ident_rest_entry(
    tokens: Seq<Token>,
    i: int,
    acc: ParseAcc,
    s: Seq<char>,
    line: usize,
    col: usize,
)
    requires
        0 <= i < tokens.len(),
        s != "psh"@,
        s != "jmp"@,
        s != "jnz"@,
        s != "jzr"@,
        s != "typ"@,
        s != "run"@,
        spec_parse_ident(tokens, i, acc, s, line, col) is Some,
    ensures
        spec_parse_ident(tokens, i, acc, s, line, col)->0.funcs.contains_key("@entry"@),
        tables_extend(acc, spec_parse_ident(tokens, i, acc, s, line, col)->0),
    decreases tokens.len() - i, 0int,
{
    reveal_with_fuel(spec_parse_ident, 2);
    if s == "alc"@ {
        if !(i + 1 >= tokens.len() || tokens[i + 1].kind != TokenKind::Buffer) {
            let name = crate::lexer::tv_text(tokens[i + 1].value@);
            if !acc.bufs.contains(name) && !(i + 2 >= tokens.len() || tokens[i + 2].kind
                != TokenKind::Punctuation) && !(i + 3 >= tokens.len() || tokens[i + 3].kind
                != TokenKind::Integer) {
                match tokens[i + 3].value {
                    TokenValue::Integer(size) => {
                        if size >= 0 {
                            lemma_parse_requires_entry(
                                tokens,
                                i + 4,
                                ParseAcc {
                                    instrs: acc.instrs.push(
                                        crate::parser::InstrModel {
                                            kind: InstructionKind::Alc,
                                            params: seq![
                                                ValModel::Buffer(name),
                                                ValModel::Integer(size),
                                            ],
                                            line,
                                            col,
                                        },
                                    ),
                                    bufs: acc.bufs.insert(name),
                                    ..acc
                                },
                            );
                        }
                    },
                    _ => {},
                }
            }
        }
    } else if s == "pop"@ {
        if !(i + 1 >= tokens.len() || tokens[i + 1].kind != TokenKind::Variable) {
            let name = crate::lexer::tv_text(tokens[i + 1].value@);
            let vars2 = if !acc.vars.contains(name) && name != "$_"@ && name != "$"@ {
                acc.vars.insert(name)
            } else {
                acc.vars
            };
            lemma_parse_requires_entry(
                tokens,
                i + 2,
                ParseAcc {
                    instrs: acc.instrs.push(
                        crate::parser::InstrModel {
                            kind: InstructionKind::Pop,
                            params: seq![ValModel::Variable(name)],
                            line,
                            col,
                        },
                    ),
                    vars: vars2,
                    ..acc
                },
            );
        }
    } else if s == "dlc"@ {
        if i + 1 < tokens.len() {
            let t2 = tokens[i + 1];
            let name = crate::lexer::tv_text(t2.value@);
            match t2.kind {
                TokenKind::Variable => {
                    if acc.vars.contains(name) {
                        lemma_parse_requires_entry(
                            tokens,
                            i + 2,
                            ParseAcc {
                                instrs: acc.instrs.push(
                                    crate::parser::InstrModel {
                                        kind: InstructionKind::Dlc,
                                        params: seq![ValModel::Variable(name)],
                                        line,
                                        col,
                                    },
                                ),
                                vars: acc.vars.remove(name),
                                ..acc
                            },
                        );
                    }
                },
                TokenKind::Buffer => {
                    if acc.bufs.contains(name) {
                        lemma_parse_requires_entry(
                            tokens,
                            i + 2,
                            ParseAcc {
                                instrs: acc.instrs.push(
                                    crate::parser::InstrModel {
                                        kind: InstructionKind::Dlc,
                                        params: seq![ValModel::Buffer(name)],
                                        line,
                                        col,
                                    },
                                ),
                                bufs: acc.bufs.remove(name),
                                ..acc
                            },
                        );
                    }
                },
                _ => {},
            }
        }
    } else {
        let kind = if s == "add"@ {
            Some(InstructionKind::Add)
        } else if s == "sub"@ {
            Some(InstructionKind::Sub)
        } else if s == "mul"@ {
            Some(InstructionKind::Mul)
        } else if s == "div"@ {
            Some(InstructionKind::Div)
        } else if s == "mod"@ {
            Some(InstructionKind::Mod)
        } else if s == "cmp"@ {
            Some(InstructionKind::Cmp)
        } else if s == "dup"@ {
            Some(InstructionKind::Dup)
        } else if s == "rot"@ {
            Some(InstructionKind::Rot)
        } else if s == "ret"@ {
            Some(InstructionKind::Ret)
        } else if s == "sys"@ {
            Some(InstructionKind::Sys)
        } else if s == "len"@ {
            Some(InstructionKind::Len)
        } else {
            None
        };
        match kind {
            Some(k) => {
                lemma_parse_requires_entry(
                    tokens,
                    i + 1,
                    ParseAcc {
                        instrs: acc.instrs.push(
                            crate::parser::InstrModel {
                                kind: k,
                                params: Seq::empty(),
                                line,
                                col,
                            },
                        ),
                        ..acc
                    },
                );
            },
            None => {},
        }
    }
}

/// A label definition anywhere in the token stream is recorded in the label
/// table of every successfully assembled program, at the index of its marker
/// instruction: the whole stream is assembled into the table before any
/// execution, so a jump may reference a label defined later in the source.
pub proof fn lemma_label_definition_is_recorded(tokens: Seq<Token>, i: int, acc: ParseAcc)
    requires
        0 <= i < tokens.len(),
        tokens[i].kind == TokenKind::Label,
        i + 1 < tokens.len(),
        tokens[i + 1].kind == TokenKind::Punctuation,
        crate::lexer::tv_text(tokens[i + 1].value@) == ":"@,
        spec_parse_from(tokens, i, acc) is Some,
    ensures
        spec_parse_from(tokens, i, acc)->0.labels.contains_key(
            crate::lexer::tv_text(tokens[i].value@),
        ),
        spec_parse_from(tokens, i, acc)->0.labels[crate::lexer::tv_text(tokens[i].value@)]
            == acc.instrs.len() as usize,
{
    let t = tokens[i];
    let name = crate::lexer::tv_text(t.value@);
    let marker = crate::parser::InstrModel {
        kind: InstructionKind::Lbl,
        params: seq![ValModel::Str(name)],
        line: t.line,
        col: t.col,
    };
    let acc2 = ParseAcc {
        instrs: acc.instrs.push(marker),
        labels: acc.labels.insert(name, acc.instrs.len() as usize),
        ..acc
    };
    lemma_parse_requires_entry(tokens, i + 2, acc2);
    assert(acc2.labels.contains_key(name));
    assert(acc2.labels[name] == acc.instrs.len() as usize);
    assert(spec_parse_from(tokens, i, acc) == spec_parse_from(tokens, i + 2, acc2));
}

/// Allocating a buffer and asking for its length round-trips the declared
/// size: after `alc`, pushing the buffer's name and `len` pushes exactly the
/// size the buffer was allocated with.
pub proof fn lemma_alc_len_roundtrip(m: VmModel, name: Seq<char>, size: i32)
    requires
        vm_wf(m),
        m.pending is None,
        m.instrs.len() <= usize::MAX,
        m.cur + 2 < m.instrs.len(),
        m.instrs[m.cur as int].kind == InstructionKind::Alc,
        m.instrs[m.cur as int].params == seq![ValModel::Buffer(name), ValModel::Integer(size)],
        m.instrs[m.cur + 1].kind == InstructionKind::Psh,
        m.instrs[m.cur + 1].params == seq![ValModel::Buffer(name)],
        m.instrs[m.cur + 2].kind == InstructionKind::Len,
        size >= 0,
    ensures
        ({
            let m1 = spec_step(m).0;
            let m2 = spec_step(m1).0;
            &&& spec_step(m).1 is Continue
            &&& spec_step(m1).1 is Continue
            &&& spec_step(m2).1 is Continue
            &&& spec_step(m2).0.stack == m.stack.push(ValModel::Buffer(name)).push(
                ValModel::Integer(size),
            )
        }),
{
    let m1 = spec_step(m).0;
    assert(m1.bufs.contains_key(name));
    assert(m1.bufs[name].size == size as usize);
    let m2 = spec_step(m1).0;
    assert(m2.stack.last() == ValModel::Buffer(name));
    assert(m2.bufs[name].size as i32 == size);
}

} // verus!
