//! The assembler: consumes tokens, emits an ordered instruction sequence plus
//! the two name-to-index tables for labels and functions, validates
//! declare-before-use for buffers and variables, and requires an `@entry`
//! function.

use vstd::prelude::*;
use vstd::string::*;

use crate::Error;
use crate::ErrorKind;
use crate::lexer::Token;
use crate::lexer::TokenKind;
use crate::lexer::TokenValue;
use crate::table::NameMap;
use crate::text::concat3;
use crate::text::i32_to_string;
use crate::text::is_word;
use crate::text::spec_i32_string;
use crate::text::spec_parse_i32;

verus! {

/// A runtime datum: the universal tagged value of the machine.
#[derive(Debug, PartialEq)]
pub enum ValueType {
    Integer(i32),
    /// A floating-point value, kept as decimal text; the embedding program
    /// computes with it on the machine's behalf.
    Float(String),
    String(String),
    Boolean(bool),
    Buffer(String),
    Variable(String),
}

/// The mathematical value of a [`ValueType`].
#[verifier::ext_equal]
pub enum ValModel {
    Integer(i32),
    Float(Seq<char>),
    Str(Seq<char>),
    Boolean(bool),
    Buffer(Seq<char>),
    Variable(Seq<char>),
}

impl View for ValueType {
    type V = ValModel;

    open spec fn view(&self) -> ValModel {
        match self {
            ValueType::Integer(i) => ValModel::Integer(*i),
            ValueType::Float(s) => ValModel::Float(s@),
            ValueType::String(s) => ValModel::Str(s@),
            ValueType::Boolean(b) => ValModel::Boolean(*b),
            ValueType::Buffer(s) => ValModel::Buffer(s@),
            ValueType::Variable(s) => ValModel::Variable(s@),
        }
    }
}

impl Clone for ValueType {
    fn clone(&self) -> (r: Self)
        ensures
            r == *self,
    {
        match self {
            ValueType::Integer(i) => ValueType::Integer(*i),
            ValueType::Float(s) => ValueType::Float(s.clone()),
            ValueType::String(s) => ValueType::String(s.clone()),
            ValueType::Boolean(b) => ValueType::Boolean(*b),
            ValueType::Buffer(s) => ValueType::Buffer(s.clone()),
            ValueType::Variable(s) => ValueType::Variable(s.clone()),
        }
    }
}

/// How a value renders as text: its payload for textual tags, decimal digits
/// for an integer, `true`/`false` for a boolean.
pub open spec fn vt_text(v: ValModel) -> Seq<char> {
    match v {
        ValModel::Integer(i) => spec_i32_string(i as int),
        ValModel::Float(s) => s,
        ValModel::Str(s) => s,
        ValModel::Boolean(b) => if b {
            "true"@
        } else {
            "false"@
        },
        ValModel::Buffer(s) => s,
        ValModel::Variable(s) => s,
    }
}

/// What converting a value to an integer gives: the integer itself, a parsed
/// string, `0` or `1` for a boolean, and nothing for the other tags.
pub open spec fn spec_to_int(v: ValModel) -> Option<i32> {
    match v {
        ValModel::Integer(i) => Some(i),
        ValModel::Str(s) => spec_parse_i32(s),
        ValModel::Boolean(b) => Some(
            if b {
                1i32
            } else {
                0i32
            },
        ),
        ValModel::Float(_) => None,
        ValModel::Buffer(_) => None,
        ValModel::Variable(_) => None,
    }
}

impl ValueType {
    /// Renders the value as text, as the machine's `typ` opcode sees it.
    pub fn render(&self) -> (r: String)
        ensures
            r@ == vt_text(self@),
    {
        match self {
            ValueType::Integer(i) => i32_to_string(*i),
            ValueType::Float(s) => s.clone(),
            ValueType::String(s) => s.clone(),
            ValueType::Boolean(b) => {
                if *b {
                    "true".to_owned()
                } else {
                    "false".to_owned()
                }
            },
            ValueType::Buffer(s) => s.clone(),
            ValueType::Variable(s) => s.clone(),
        }
    }

    /// Converts the value to an integer where that conversion is defined.
    /// A float is refused here: the machine hands floats to the embedding
    /// program instead (see [`crate::evaluator::Request`]).
    pub fn to_int(&self) -> (r: Result<i32, String>)
        ensures
            match r {
                Ok(i) => spec_to_int(self@) == Some(i),
                Err(_) => spec_to_int(self@) is None,
            },
    {
        match self {
            ValueType::Integer(i) => Ok(*i),
            ValueType::Float(_) => Err("Cannot convert float to int".to_owned()),
            ValueType::String(s) => match crate::text::parse_i32(s.as_str()) {
                Some(i) => Ok(i),
                None => Err("Cannot convert string to int".to_owned()),
            },
            ValueType::Boolean(b) => Ok(
                if *b {
                    1
                } else {
                    0
                },
            ),
            ValueType::Buffer(_) => Err("Cannot convert buffer to int".to_owned()),
            ValueType::Variable(_) => Err("Cannot convert variable to int".to_owned()),
        }
    }
}

/// The operation tag of an instruction.
#[derive(Debug, PartialEq, Eq, Structural, Clone, Copy)]
pub enum InstructionKind {
    Add,
    Sub,
    Mul,
    Div,
    Mod,
    Cmp,
    Dup,
    Pop,
    Psh,
    Rot,
    Jmp,
    Jnz,
    Jzr,
    Type,
    Ret,
    Run,
    Sys,
    Len,
    Lbl,
    Fun,
    Dlc,
    Alc,
}

/// One assembled instruction: its opcode, the literal operands resolved at
/// assembly time, and the source position it came from.
#[derive(Debug, PartialEq)]
pub struct Instruction {
    pub kind: InstructionKind,
    pub params: Vec<ValueType>,
    pub line: usize,
    pub col: usize,
}

/// The views of a sequence of values.
pub open spec fn vals_view(s: Seq<ValueType>) -> Seq<ValModel> {
    s.map_values(|v: ValueType| v@)
}

/// The mathematical value of an [`Instruction`].
#[verifier::ext_equal]
pub struct InstrModel {
    pub kind: InstructionKind,
    pub params: Seq<ValModel>,
    pub line: usize,
    pub col: usize,
}

impl View for Instruction {
    type V = InstrModel;

    open spec fn view(&self) -> InstrModel {
        InstrModel { kind: self.kind, params: vals_view(self.params@), line: self.line, col: self.col }
    }
}

/// The assembler's output: the instruction sequence and the two tables from
/// name to instruction index.
pub struct ParserRet {
    pub instrs: Vec<Instruction>,
    pub labels: NameMap<usize>,
    pub funcs: NameMap<usize>,
}

/// The mathematical value of a [`ParserRet`].
#[verifier::ext_equal]
pub struct ProgModel {
    pub instrs: Seq<InstrModel>,
    pub labels: Map<Seq<char>, usize>,
    pub funcs: Map<Seq<char>, usize>,
}

impl View for ParserRet {
    type V = ProgModel;

    open spec fn view(&self) -> ProgModel {
        ProgModel {
            instrs: self.instrs@.map_values(|i: Instruction| i@),
            labels: self.labels@,
            funcs: self.funcs@,
        }
    }
}

impl ParserRet {
    /// The tables' internal invariants hold.
    pub open spec fn wf(&self) -> bool {
        self.labels.wf() && self.funcs.wf()
    }
}

/// An instruction's operands have the arity and the tags its opcode expects,
/// as the assembler guarantees.
pub open spec fn instr_wf(i: InstrModel) -> bool {
    match i.kind {
        InstructionKind::Psh => i.params.len() == 1,
        InstructionKind::Jmp => i.params.len() == 1 && i.params[0] is Str,
        InstructionKind::Jnz => i.params.len() == 1 && i.params[0] is Str,
        InstructionKind::Jzr => i.params.len() == 1 && i.params[0] is Str,
        InstructionKind::Run => i.params.len() == 1 && i.params[0] is Str,
        InstructionKind::Type => i.params.len() == 1 && i.params[0] is Str,
        InstructionKind::Lbl => i.params.len() == 1 && i.params[0] is Str,
        InstructionKind::Fun => i.params.len() == 1 && i.params[0] is Str,
        InstructionKind::Pop => i.params.len() == 1 && i.params[0] is Variable,
        InstructionKind::Dlc => i.params.len() == 1 && (i.params[0] is Buffer || i.params[0]
            is Variable),
        InstructionKind::Alc => i.params.len() == 2 && i.params[0] is Buffer && (i.params[1]
            matches ValModel::Integer(v) && v >= 0),
        _ => true,
    }
}

/// The program invariant the assembler establishes: every instruction is
/// well-formed and every label and function index lies inside the
/// instruction sequence.
pub open spec fn prog_wf(p: ProgModel) -> bool {
    &&& forall|j: int| 0 <= j < p.instrs.len() ==> instr_wf(#[trigger] p.instrs[j])
    &&& forall|k: Seq<char>|
        p.labels.contains_key(k) ==> (#[trigger] p.labels[k]) < p.instrs.len()
    &&& forall|k: Seq<char>| p.funcs.contains_key(k) ==> (#[trigger] p.funcs[k]) < p.instrs.len()
}

/// The set of names in a declaration list.
pub open spec fn names_set(s: Seq<String>) -> Set<Seq<char>> {
    Set::new(|n: Seq<char>| exists|i: int| 0 <= i < s.len() && (#[trigger] s[i])@ == n)
}

/// No name occurs twice in a declaration list.
pub open spec fn names_unique(s: Seq<String>) -> bool {
    forall|i: int, j: int| 0 <= i < j < s.len() ==> (#[trigger] s[i])@ != (#[trigger] s[j])@
}

fn name_list_has(v: &Vec<String>, n: &String) -> (r: bool)
    ensures
        r == names_set(v@).contains(n@),
{
    let len = v.len();
    let mut i: usize = 0;
    while i < len
        invariant
            i <= len,
            len == v@.len(),
            forall|j: int| 0 <= j < i ==> (#[trigger] v@[j])@ != n@,
        decreases len - i,
    {
        if v[i] == *n {
            return true;
        }
        i += 1;
    }
    false
}

fn name_list_push(v: &mut Vec<String>, n: String)
    requires
        names_unique(old(v)@),
        !names_set(old(v)@).contains(n@),
    ensures
        names_unique(final(v)@),
        names_set(final(v)@) == names_set(old(v)@).insert(n@),
{
    let ghost pre = v@;
    v.push(n);
    proof {
        assert(names_unique(v@)) by {
            assert forall|a: int, b: int| 0 <= a < b < v@.len() implies (#[trigger] v@[a])@
                != (#[trigger] v@[b])@ by {
                if b < v@.len() - 1 {
                    assert(pre[a] == v@[a] && pre[b] == v@[b]);
                } else {
                    assert(pre[a] == v@[a]);
                }
            }
        }
        assert(names_set(v@) =~= names_set(pre).insert(v@.last()@)) by {
            assert forall|x: Seq<char>| names_set(v@).contains(x) implies names_set(pre).insert(
                v@.last()@,
            ).contains(x) by {
                let j = choose|j: int| 0 <= j < v@.len() && (#[trigger] v@[j])@ == x;
                if j < v@.len() - 1 {
                    assert(pre[j] == v@[j]);
                }
            }
            assert forall|x: Seq<char>| names_set(pre).insert(v@.last()@).contains(x)
                implies names_set(v@).contains(x) by {
                if x == v@.last()@ {
                    assert(v@[v@.len() - 1]@ == x);
                } else {
                    let j = choose|j: int| 0 <= j < pre.len() && (#[trigger] pre[j])@ == x;
                    assert(v@[j]@ == x);
                }
            }
        }
    }
}

fn name_list_remove(v: &mut Vec<String>, n: &String)
    requires
        names_unique(old(v)@),
    ensures
        names_unique(final(v)@),
        names_set(final(v)@) == names_set(old(v)@).remove(n@),
{
    let len = v.len();
    let mut i: usize = 0;
    while i < len
        invariant
            i <= len,
            len == v@.len(),
            v@ == old(v)@,
            names_unique(v@),
            forall|j: int| 0 <= j < i ==> (#[trigger] v@[j])@ != n@,
        decreases len - i,
    {
        if v[i] == *n {
            let ghost pre = v@;
            v.remove(i);
            proof {
                assert forall|a: int, b: int| 0 <= a < b < v@.len() implies (#[trigger] v@[a])@
                    != (#[trigger] v@[b])@ by {
                    if a < i {
                        assert(pre[a] == v@[a]);
                    } else {
                        assert(pre[a + 1] == v@[a]);
                    }
                    if b < i {
                        assert(pre[b] == v@[b]);
                    } else {
                        assert(pre[b + 1] == v@[b]);
                    }
                }
                assert(names_set(v@) =~= names_set(pre).remove(n@)) by {
                    assert forall|x: Seq<char>| names_set(v@).contains(x) implies names_set(
                        pre,
                    ).remove(n@).contains(x) by {
                        let j = choose|j: int| 0 <= j < v@.len() && (#[trigger] v@[j])@ == x;
                        if j < i {
                            assert(pre[j] == v@[j]);
                            assert(pre[j]@ == x);
                        } else {
                            assert(pre[j + 1] == v@[j]);
                            assert(pre[j + 1]@ == x);
                        }
                    }
                    assert forall|x: Seq<char>| names_set(pre).remove(n@).contains(x)
                        implies names_set(v@).contains(x) by {
                        let j = choose|j: int| 0 <= j < pre.len() && (#[trigger] pre[j])@ == x;
                        if j < i {
                            assert(v@[j]@ == x);
                        } else {
                            assert(j != i);
                            assert(v@[j - 1]@ == x);
                        }
                    }
                }
            }
            return ;
        }
        i += 1;
    }
    proof {
        assert(names_set(v@) =~= names_set(old(v)@).remove(n@)) by {
            assert(!names_set(v@).contains(n@));
        }
    }
}

/// The assembler's working state: what has been emitted and declared so far.
#[verifier::ext_equal]
pub struct ParseAcc {
    pub instrs: Seq<InstrModel>,
    pub labels: Map<Seq<char>, usize>,
    pub funcs: Map<Seq<char>, usize>,
    pub bufs: Set<Seq<char>>,
    pub vars: Set<Seq<char>>,
}

/// The assembler's starting state.
pub open spec fn acc0() -> ParseAcc {
    ParseAcc {
        instrs: Seq::empty(),
        labels: Map::empty(),
        funcs: Map::empty(),
        bufs: Set::empty(),
        vars: Set::empty(),
    }
}

/// What [`parse`] produces from token position `i` onward, starting from the
/// working state `acc`: the assembled program on success, or nothing when the
/// token stream is not a program.
pub open spec fn spec_parse_from(tokens: Seq<Token>, i: int, acc: ParseAcc) -> Option<ProgModel>
    decreases tokens.len() - i, 2int,
    when 0 <= i
{
    if i >= tokens.len() {
        if acc.funcs.contains_key("@entry"@) {
            Some(ProgModel { instrs: acc.instrs, labels: acc.labels, funcs: acc.funcs })
        } else {
            None
        }
    } else {
        let t = tokens[i];
        match t.kind {
            TokenKind::Identifier => match t.value {
                TokenValue::Identifier(s) => spec_parse_ident(tokens, i, acc, s@, t.line, t.col),
                _ => None,
            },
            TokenKind::Label => {
                if i + 1 >= tokens.len() || tokens[i + 1].kind != TokenKind::Punctuation {
                    None
                } else if crate::lexer::tv_text(tokens[i + 1].value@) != ":"@ {
                    None
                } else {
                    let name = crate::lexer::tv_text(t.value@);
                    if acc.labels.contains_key(name) {
                        None
                    } else {
                        let marker = InstrModel {
                            kind: InstructionKind::Lbl,
                            params: seq![ValModel::Str(name)],
                            line: t.line,
                            col: t.col,
                        };
                        spec_parse_from(
                            tokens,
                            i + 2,
                            ParseAcc {
                                instrs: acc.instrs.push(marker),
                                labels: acc.labels.insert(name, acc.instrs.len() as usize),
                                ..acc
                            },
                        )
                    }
                }
            },
            TokenKind::Function => {
                if i + 1 >= tokens.len() || tokens[i + 1].kind != TokenKind::Punctuation {
                    None
                } else if crate::lexer::tv_text(tokens[i + 1].value@) != ":"@ {
                    None
                } else {
                    let name = crate::lexer::tv_text(t.value@);
                    if acc.funcs.contains_key(name) {
                        None
                    } else {
                        let marker = InstrModel {
                            kind: InstructionKind::Fun,
                            params: seq![ValModel::Str(name)],
                            line: t.line,
                            col: t.col,
                        };
                        spec_parse_from(
                            tokens,
                            i + 2,
                            ParseAcc {
                                instrs: acc.instrs.push(marker),
                                funcs: acc.funcs.insert(name, acc.instrs.len() as usize),
                                ..acc
                            },
                        )
                    }
                }
            },
            _ => None,
        }
    }
}

/// The dispatch of [`spec_parse_from`] on an opcode identifier.
pub open spec fn spec_parse_ident(
    tokens: Seq<Token>,
    i: int,
    acc: ParseAcc,
    s: Seq<char>,
    line: usize,
    col: usize,
) -> Option<ProgModel>
    decreases tokens.len() - i, 1int,
    when 0 <= i < tokens.len()
{
    if s == "psh"@ {
        if i + 1 >= tokens.len() {
            None
        } else {
            let value = match tokens[i + 1].value {
                TokenValue::Integer(v) => Some(ValModel::Integer(v)),
                TokenValue::Float(f) => Some(ValModel::Float(f@)),
                TokenValue::String(st) => Some(ValModel::Str(st@)),
                TokenValue::Identifier(w) => if w@ == "true"@ {
                    Some(ValModel::Boolean(true))
                } else if w@ == "false"@ {
                    Some(ValModel::Boolean(false))
                } else {
                    None
                },
                TokenValue::Buffer(b) => if acc.bufs.contains(b@) {
                    Some(ValModel::Buffer(b@))
                } else {
                    None
                },
                TokenValue::Variable(v) => if acc.vars.contains(v@) {
                    Some(ValModel::Variable(v@))
                } else {
                    None
                },
                _ => None,
            };
            match value {
                Some(p) => spec_parse_from(
                    tokens,
                    i + 2,
                    ParseAcc {
                        instrs: acc.instrs.push(
                            InstrModel {
                                kind: InstructionKind::Psh,
                                params: seq![p],
                                line,
                                col,
                            },
                        ),
                        ..acc
                    },
                ),
                None => None,
            }
        }
    } else if s == "jmp"@ {
        spec_parse_target(tokens, i, acc, InstructionKind::Jmp, TokenKind::Label, line, col)
    } else if s == "jnz"@ {
        spec_parse_target(tokens, i, acc, InstructionKind::Jnz, TokenKind::Label, line, col)
    } else if s == "jzr"@ {
        spec_parse_target(tokens, i, acc, InstructionKind::Jzr, TokenKind::Label, line, col)
    } else if s == "typ"@ {
        spec_parse_target(tokens, i, acc, InstructionKind::Type, TokenKind::Identifier, line, col)
    } else if s == "run"@ {
        spec_parse_target(tokens, i, acc, InstructionKind::Run, TokenKind::Function, line, col)
    } else if s == "alc"@ {
        if i + 1 >= tokens.len() || tokens[i + 1].kind != TokenKind::Buffer {
            None
        } else {
            let name = crate::lexer::tv_text(tokens[i + 1].value@);
            if acc.bufs.contains(name) {
                None
            } else if i + 2 >= tokens.len() || tokens[i + 2].kind != TokenKind::Punctuation {
                None
            } else if i + 3 >= tokens.len() || tokens[i + 3].kind != TokenKind::Integer {
                None
            } else {
                match tokens[i + 3].value {
                    TokenValue::Integer(size) => if size >= 0 {
                        spec_parse_from(
                            tokens,
                            i + 4,
                            ParseAcc {
                                instrs: acc.instrs.push(
                                    InstrModel {
                                        kind: InstructionKind::Alc,
                                        params: seq![
                                            ValModel::Buffer(name),
                                            ValModel::Integer(size),
                                        ],
                                        line,
                                        col,
                                    },
                                ),
                                bufs: acc.bufs.insert(name),
                                ..acc
                            },
                        )
                    } else {
                        None
                    },
                    _ => None,
                }
            }
        }
    } else if s == "pop"@ {
        if i + 1 >= tokens.len() || tokens[i + 1].kind != TokenKind::Variable {
            None
        } else {
            let name = crate::lexer::tv_text(tokens[i + 1].value@);
            let vars2 = if !acc.vars.contains(name) && name != "$_"@ && name != "$"@ {
                acc.vars.insert(name)
            } else {
                acc.vars
            };
            spec_parse_from(
                tokens,
                i + 2,
                ParseAcc {
                    instrs: acc.instrs.push(
                        InstrModel {
                            kind: InstructionKind::Pop,
                            params: seq![ValModel::Variable(name)],
                            line,
                            col,
                        },
                    ),
                    vars: vars2,
                    ..acc
                },
            )
        }
    } else if s == "dlc"@ {
        if i + 1 >= tokens.len() {
            None
        } else {
            let t2 = tokens[i + 1];
            let name = crate::lexer::tv_text(t2.value@);
            match t2.kind {
                TokenKind::Variable => {
                    if !acc.vars.contains(name) {
                        None
                    } else {
                        spec_parse_from(
                            tokens,
                            i + 2,
                            ParseAcc {
                                instrs: acc.instrs.push(
                                    InstrModel {
                                        kind: InstructionKind::Dlc,
                                        params: seq![ValModel::Variable(name)],
                                        line,
                                        col,
                                    },
                                ),
                                vars: acc.vars.remove(name),
                                ..acc
                            },
                        )
                    }
                },
                TokenKind::Buffer => {
                    if !acc.bufs.contains(name) {
                        None
                    } else {
                        spec_parse_from(
                            tokens,
                            i + 2,
                            ParseAcc {
                                instrs: acc.instrs.push(
                                    InstrModel {
                                        kind: InstructionKind::Dlc,
                                        params: seq![ValModel::Buffer(name)],
                                        line,
                                        col,
                                    },
                                ),
                                bufs: acc.bufs.remove(name),
                                ..acc
                            },
                        )
                    }
                },
                _ => None,
            }
        }
    } else {
        let kind = if s == "add"@ {
            Some(InstructionKind::Add)
        } else if s == "sub"@ {
            Some(InstructionKind::Sub)
        } else if s == "mul"@ {
            Some(InstructionKind::Mul)
        } else if s == "div"@ {
            Some(InstructionKind::Div)
        } else if s == "mod"@ {
            Some(InstructionKind::Mod)
        } else if s == "cmp"@ {
            Some(InstructionKind::Cmp)
        } else if s == "dup"@ {
            Some(InstructionKind::Dup)
        } else if s == "rot"@ {
            Some(InstructionKind::Rot)
        } else if s == "ret"@ {
            Some(InstructionKind::Ret)
        } else if s == "sys"@ {
            Some(InstructionKind::Sys)
        } else if s == "len"@ {
            Some(InstructionKind::Len)
        } else {
            None
        };
        match kind {
            Some(k) => spec_parse_from(
                tokens,
                i + 1,
                ParseAcc {
                    instrs: acc.instrs.push(
                        InstrModel { kind: k, params: Seq::empty(), line, col },
                    ),
                    ..acc
                },
            ),
            None => None,
        }
    }
}

/// The shared shape of `jmp`, `jnz`, `jzr`, `typ` and `run`: one following
/// token of a fixed kind, whose text becomes the instruction's operand.
pub open spec fn spec_parse_target(
    tokens: Seq<Token>,
    i: int,
    acc: ParseAcc,
    kind: InstructionKind,
    operand: TokenKind,
    line: usize,
    col: usize,
) -> Option<ProgModel>
    decreases tokens.len() - i, 0int,
    when 0 <= i < tokens.len()
{
    if i + 1 >= tokens.len() || tokens[i + 1].kind != operand {
        None
    } else {
        let name = crate::lexer::tv_text(tokens[i + 1].value@);
        spec_parse_from(
            tokens,
            i + 2,
            ParseAcc {
                instrs: acc.instrs.push(
                    InstrModel { kind, params: seq![ValModel::Str(name)], line, col },
                ),
                ..acc
            },
        )
    }
}

/// The token at position `i`, if the stream is that long.
pub fn current<'a>(tokens: &'a Vec<Token>, i: usize) -> (r: Option<&'a Token>)
    ensures
        match r {
            Some(t) => i < tokens@.len() && *t == tokens@[i as int],
            None => i >= tokens@.len(),
        },
{
    if i < tokens.len() {
        Some(&tokens[i])
    } else {
        None
    }
}

/// The token after position `i`, if the stream is that long.
pub fn next<'a>(tokens: &'a Vec<Token>, i: usize) -> (r: Option<&'a Token>)
    requires
        i < usize::MAX,
    ensures
        match r {
            Some(t) => i + 1 < tokens@.len() && *t == tokens@[i + 1],
            None => i + 1 >= tokens@.len(),
        },
{
    current(tokens, i + 1)
}

fn kind_name(kind: TokenKind) -> (r: String)
    ensures
        true,
{
    match kind {
        TokenKind::Identifier => "identifier".to_owned(),
        TokenKind::Label => "label".to_owned(),
        TokenKind::Function => "function".to_owned(),
        TokenKind::Integer => "integer".to_owned(),
        TokenKind::Float => "float".to_owned(),
        TokenKind::String => "string".to_owned(),
        TokenKind::Punctuation => "punctuation".to_owned(),
        TokenKind::Buffer => "buffer".to_owned(),
        TokenKind::Variable => "variable".to_owned(),
        TokenKind::DebugSymbol => "debugsymbol".to_owned(),
    }
}

proof fn lemma_instr_push(s: Seq<Instruction>, x: Instruction)
    ensures
        s.push(x).map_values(|q: Instruction| q@) == s.map_values(|q: Instruction| q@).push(x@),
{
    assert(s.push(x).map_values(|q: Instruction| q@) =~= s.map_values(|q: Instruction| q@).push(
        x@,
    ));
}

/// The token at position `i`, which must be of the given kind; otherwise an
/// assembly error.
pub fn expect<'a>(tokens: &'a Vec<Token>, i: usize, kind: TokenKind) -> (r: Result<
    &'a Token,
    Error,
>)
    ensures
        match r {
            Ok(t) => i < tokens@.len() && tokens@[i as int].kind == kind && *t == tokens@[i as int],
            Err(e) => (i >= tokens@.len() || tokens@[i as int].kind != kind) && e.kind
                == ErrorKind::AssemblyError,
        },
{
    match current(tokens, i) {
        Some(t) => {
            if t.kind == kind {
                Ok(t)
            } else {
                Err(
                    Error::new(
                        ErrorKind::AssemblyError,
                        concat3("Expected token of kind ", kind_name(kind).as_str(), ""),
                        t.line,
                        t.col,
                        &None,
                    ),
                )
            }
        },
        None => Err(
            Error::new(
                ErrorKind::AssemblyError,
                "Unexpected end of input".to_owned(),
                0,
                0,
                &None,
            ),
        ),
    }
}

/// Assembles a token stream into a program: a single linear pass that emits
/// instructions, records label and function indices, enforces
/// declare-before-use for buffers and variables, and requires an `@entry`
/// function before any execution is attempted.
#[verifier::loop_isolation(false)]
#[verifier::rlimit(100)]
pub fn parse(tokens: Vec<Token>) -> (r: Result<ParserRet, Error>)
    ensures
        match r {
            Ok(p) => {
                &&& p.wf()
                &&& prog_wf(p@)
                &&& spec_parse_from(tokens@, 0, acc0()) == Some(p@)
            },
            Err(e) => spec_parse_from(tokens@, 0, acc0()) is None && e.kind
                == ErrorKind::AssemblyError,
        },
{
    let mut instrs: Vec<Instruction> = Vec::new();
    let mut i: usize = 0;
    let mut labels: NameMap<usize> = NameMap::new();
    let mut funcs: NameMap<usize> = NameMap::new();
    let mut bufs: Vec<String> = Vec::new();
    let mut vars: Vec<String> = Vec::new();
    proof {
        assert(ParseAcc {
            instrs: instrs@.map_values(|x: Instruction| x@),
            labels: labels@,
            funcs: funcs@,
            bufs: names_set(bufs@),
            vars: names_set(vars@),
        } =~= acc0()) by {
            assert(instrs@.map_values(|x: Instruction| x@) =~= Seq::<InstrModel>::empty());
            assert(names_set(bufs@) =~= Set::<Seq<char>>::empty());
            assert(names_set(vars@) =~= Set::<Seq<char>>::empty());
        }
    }
    while i < tokens.len()
        invariant
            labels.wf(),
            funcs.wf(),
            names_unique(bufs@),
            names_unique(vars@),
            forall|j: int| 0 <= j < instrs@.len() ==> instr_wf(#[trigger] instrs@[j]@),
            forall|k: Seq<char>|
                labels@.contains_key(k) ==> (#[trigger] labels@[k]) < instrs@.len(),
            forall|k: Seq<char>| funcs@.contains_key(k) ==> (#[trigger] funcs@[k]) < instrs@.len(),
            spec_parse_from(tokens@, 0, acc0()) == spec_parse_from(
                tokens@,
                i as int,
                ParseAcc {
                    instrs: instrs@.map_values(|x: Instruction| x@),
                    labels: labels@,
                    funcs: funcs@,
                    bufs: names_set(bufs@),
                    vars: names_set(vars@),
                },
            ),
        decreases tokens@.len() - i,
    {
        let ghost pi = i as int;
        let ghost pacc = ParseAcc {
            instrs: instrs@.map_values(|x: Instruction| x@),
            labels: labels@,
            funcs: funcs@,
            bufs: names_set(bufs@),
            vars: names_set(vars@),
        };
        proof {
            reveal_strlit("psh");
            reveal_strlit("jmp");
            reveal_strlit("jnz");
            reveal_strlit("jzr");
            reveal_strlit("typ");
            reveal_strlit("run");
            reveal_strlit("alc");
            reveal_strlit("pop");
            reveal_strlit("dlc");
            reveal_strlit("add");
            reveal_strlit("sub");
            reveal_strlit("mul");
            reveal_strlit("div");
            reveal_strlit("mod");
            reveal_strlit("cmp");
            reveal_strlit("dup");
            reveal_strlit("rot");
            reveal_strlit("ret");
            reveal_strlit("sys");
            reveal_strlit("len");
        }
        let line = tokens[i].line;
        let col = tokens[i].col;
        match tokens[i].kind {
            TokenKind::Identifier => {
                let s = match &tokens[i].value {
                    TokenValue::Identifier(w) => w.clone(),
                    _ => {
                        proof {
                            reveal_with_fuel(spec_parse_from, 3);
                            reveal_with_fuel(spec_parse_from, 3);
                            assert(spec_parse_from(tokens@, pi, pacc) is None);
                        }
                        return Err(
                            Error::new(
                                ErrorKind::AssemblyError,
                                "Invalid instruction".to_owned(),
                                line,
                                col,
                                &None,
                            ),
                        );
                    },
                };
                if is_word(&s, "psh") {
                    if i + 1 >= tokens.len() {
                        proof {
                            reveal_with_fuel(spec_parse_from, 3);
                            reveal_with_fuel(spec_parse_from, 3);
                            assert(spec_parse_from(tokens@, pi, pacc) is None);
                        }
                        return Err(
                            Error::new(
                                ErrorKind::AssemblyError,
                                "Unexpected end of input".to_owned(),
                                line,
                                col,
                                &None,
                            ),
                        );
                    }
                    let value: ValueType = match &tokens[i + 1].value {
                        TokenValue::Integer(v) => ValueType::Integer(*v),
                        TokenValue::Float(f) => ValueType::Float(f.clone()),
                        TokenValue::String(st) => ValueType::String(st.clone()),
                        TokenValue::Identifier(w) => {
                            if is_word(w, "true") {
                                ValueType::Boolean(true)
                            } else if is_word(w, "false") {
                                ValueType::Boolean(false)
                            } else {
                                proof {
                                    reveal_with_fuel(spec_parse_from, 3);
                                reveal_with_fuel(spec_parse_ident, 3);
                                reveal_with_fuel(spec_parse_target, 3);
                                assert(spec_parse_from(tokens@, pi, pacc) is None);
                                }
                                return Err(
                                    Error::new(
                                        ErrorKind::AssemblyError,
                                        "Invalid value for psh".to_owned(),
                                        line,
                                        col,
                                        &None,
                                    ),
                                );
                            }
                        },
                        TokenValue::Buffer(b) => {
                            if !name_list_has(&bufs, b) {
                                proof {
                                    reveal_with_fuel(spec_parse_from, 3);
                                reveal_with_fuel(spec_parse_ident, 3);
                                reveal_with_fuel(spec_parse_target, 3);
                                assert(spec_parse_from(tokens@, pi, pacc) is None);
                                }
                                return Err(
                                    Error::new(
                                        ErrorKind::AssemblyError,
                                        concat3("Buffer ", b.as_str(), " not found"),
                                        line,
                                        col,
                                        &None,
                                    ),
                                );
                            }
                            ValueType::Buffer(b.clone())
                        },
                        TokenValue::Variable(v) => {
                            if !name_list_has(&vars, v) {
                                proof {
                                    reveal_with_fuel(spec_parse_from, 3);
                                reveal_with_fuel(spec_parse_ident, 3);
                                reveal_with_fuel(spec_parse_target, 3);
                                assert(spec_parse_from(tokens@, pi, pacc) is None);
                                }
                                return Err(
                                    Error::new(
                                        ErrorKind::AssemblyError,
                                        concat3("Variable ", v.as_str(), " not found"),
                                        line,
                                        col,
                                        &None,
                                    ),
                                );
                            }
                            ValueType::Variable(v.clone())
                        },
                        _ => {
                            proof {
                                reveal_with_fuel(spec_parse_from, 3);
                                reveal_with_fuel(spec_parse_ident, 3);
                                reveal_with_fuel(spec_parse_target, 3);
                                assert(spec_parse_from(tokens@, pi, pacc) is None);
                            }
                            return Err(
                                Error::new(
                                    ErrorKind::AssemblyError,
                                    "Invalid value for psh".to_owned(),
                                    line,
                                    col,
                                    &None,
                                ),
                            );
                        },
                    };
                    i += 2;
                    let mut params: Vec<ValueType> = Vec::new();
                    let ghost vm = value@;
                    params.push(value);
                    let instr = Instruction { kind: InstructionKind::Psh, params, line, col };
                    let ghost im = instr@;
                    proof {
                        assert(vals_view(instr.params@) =~= seq![vm]);
                        lemma_instr_push(instrs@, instr);
                    }
                    instrs.push(instr);
                    proof {
                        reveal_with_fuel(spec_parse_from, 3);
                        reveal_with_fuel(spec_parse_ident, 3);
                        reveal_with_fuel(spec_parse_target, 3);
                        assert(spec_parse_from(tokens@, pi, pacc) == spec_parse_from(
                                tokens@,
                                i as int,
                                ParseAcc {
                                    instrs: instrs@.map_values(|x: Instruction| x@),
                                    labels: labels@,
                                    funcs: funcs@,
                                    bufs: names_set(bufs@),
                                    vars: names_set(vars@),
                                },
                            ));
                    }
                } else if is_word(&s, "jmp") || is_word(&s, "jnz") || is_word(&s, "jzr")
                    || is_word(&s, "typ") || is_word(&s, "run") {
                    let kind = if is_word(&s, "jmp") {
                        InstructionKind::Jmp
                    } else if is_word(&s, "jnz") {
                        InstructionKind::Jnz
                    } else if is_word(&s, "jzr") {
                        InstructionKind::Jzr
                    } else if is_word(&s, "typ") {
                        InstructionKind::Type
                    } else {
                        InstructionKind::Run
                    };
                    let operand = if is_word(&s, "typ") {
                        TokenKind::Identifier
                    } else if is_word(&s, "run") {
                        TokenKind::Function
                    } else {
                        TokenKind::Label
                    };
                    let name = match expect(&tokens, i + 1, operand) {
                        Ok(lt) => lt.value.render(),
                        Err(e) => {
                            proof {
                                lemma_from_ident(tokens@, pi, pacc, s);
                                lemma_ident_target(tokens@, pi, pacc, s@, kind, operand, line, col);
                                lemma_target_none(tokens@, pi, pacc, kind, operand, line, col);
                                assert(spec_parse_from(tokens@, pi, pacc) is None);
                            }
                            return Err(e);
                        },
                    };
                    i += 2;
                    let mut params: Vec<ValueType> = Vec::new();
                    let ghost nm = name@;
                    params.push(ValueType::String(name));
                    let instr = Instruction { kind, params, line, col };
                    let ghost im = instr@;
                    proof {
                        assert(vals_view(instr.params@) =~= seq![ValModel::Str(nm)]);
                        lemma_instr_push(instrs@, instr);
                    }
                    instrs.push(instr);
                    proof {
                        lemma_from_ident(tokens@, pi, pacc, s);
                        lemma_ident_target(tokens@, pi, pacc, s@, kind, operand, line, col);
                        lemma_target_step(tokens@, pi, pacc, kind, operand, line, col);
                        assert(im == InstrModel {
                            kind,
                            params: seq![ValModel::Str(crate::lexer::tv_text(tokens@[pi + 1].value@))],
                            line,
                            col,
                        });
                        assert(ParseAcc {
                            instrs: pacc.instrs.push(im),
                            labels: pacc.labels,
                            funcs: pacc.funcs,
                            bufs: pacc.bufs,
                            vars: pacc.vars,
                        } =~= ParseAcc {
                            instrs: instrs@.map_values(|x: Instruction| x@),
                            labels: labels@,
                            funcs: funcs@,
                            bufs: names_set(bufs@),
                            vars: names_set(vars@),
                        });
                        assert(spec_parse_from(tokens@, pi, pacc) == spec_parse_from(
                            tokens@,
                            i as int,
                            ParseAcc {
                                instrs: instrs@.map_values(|x: Instruction| x@),
                                labels: labels@,
                                funcs: funcs@,
                                bufs: names_set(bufs@),
                                vars: names_set(vars@),
                            },
                        ));
                    }
                } else if is_word(&s, "alc") {
                    let name = match expect(&tokens, i + 1, TokenKind::Buffer) {
                        Ok(bt) => bt.value.render(),
                        Err(e) => {
                            proof {
                                reveal_with_fuel(spec_parse_from, 3);
                                reveal_with_fuel(spec_parse_ident, 3);
                                reveal_with_fuel(spec_parse_target, 3);
                                assert(spec_parse_from(tokens@, pi, pacc) is None);
                            }
                            return Err(e);
                        },
                    };
                    if name_list_has(&bufs, &name) {
                        proof {
                            reveal_with_fuel(spec_parse_from, 3);
                            reveal_with_fuel(spec_parse_from, 3);
                            assert(spec_parse_from(tokens@, pi, pacc) is None);
                        }
                        return Err(
                            Error::new(
                                ErrorKind::AssemblyError,
                                concat3("Buffer ", name.as_str(), " already exists"),
                                line,
                                col,
                                &None,
                            ),
                        );
                    }
                    match expect(&tokens, i + 2, TokenKind::Punctuation) {
                        Ok(_) => {},
                        Err(e) => {
                            proof {
                                reveal_with_fuel(spec_parse_from, 3);
                                reveal_with_fuel(spec_parse_ident, 3);
                                reveal_with_fuel(spec_parse_target, 3);
                                assert(spec_parse_from(tokens@, pi, pacc) is None);
                            }
                            return Err(e);
                        },
                    }
                    let size: i32 = match expect(&tokens, i + 3, TokenKind::Integer) {
                        Ok(st) => match &st.value {
                            TokenValue::Integer(v) => {
                                if *v < 0 {
                                    proof {
                                        reveal_with_fuel(spec_parse_from, 3);
                                reveal_with_fuel(spec_parse_ident, 3);
                                reveal_with_fuel(spec_parse_target, 3);
                                assert(spec_parse_from(tokens@, pi, pacc) is None);
                                    }
                                    return Err(
                                        Error::new(
                                            ErrorKind::AssemblyError,
                                            "Invalid buffer size".to_owned(),
                                            line,
                                            col,
                                            &None,
                                        ),
                                    );
                                }
                                *v
                            },
                            _ => {
                                proof {
                                    reveal_with_fuel(spec_parse_from, 3);
                                reveal_with_fuel(spec_parse_ident, 3);
                                reveal_with_fuel(spec_parse_target, 3);
                                assert(spec_parse_from(tokens@, pi, pacc) is None);
                                }
                                return Err(
                                    Error::new(
                                        ErrorKind::AssemblyError,
                                        "Invalid buffer size".to_owned(),
                                        line,
                                        col,
                                        &None,
                                    ),
                                );
                            },
                        },
                        Err(e) => {
                            proof {
                                reveal_with_fuel(spec_parse_from, 3);
                                reveal_with_fuel(spec_parse_ident, 3);
                                reveal_with_fuel(spec_parse_target, 3);
                                assert(spec_parse_from(tokens@, pi, pacc) is None);
                            }
                            return Err(e);
                        },
                    };
                    name_list_push(&mut bufs, name.clone());
                    i += 4;
                    let mut params: Vec<ValueType> = Vec::new();
                    let ghost nm = name@;
                    params.push(ValueType::Buffer(name));
                    params.push(ValueType::Integer(size));
                    let instr = Instruction { kind: InstructionKind::Alc, params, line, col };
                    let ghost im = instr@;
                    proof {
                        assert(vals_view(instr.params@) =~= seq![
                            ValModel::Buffer(nm),
                            ValModel::Integer(size),
                        ]);
                        lemma_instr_push(instrs@, instr);
                    }
                    instrs.push(instr);
                    proof {
                        reveal_with_fuel(spec_parse_from, 3);
                        reveal_with_fuel(spec_parse_ident, 3);
                        reveal_with_fuel(spec_parse_target, 3);
                        assert(spec_parse_from(tokens@, pi, pacc) == spec_parse_from(
                                tokens@,
                                i as int,
                                ParseAcc {
                                    instrs: instrs@.map_values(|x: Instruction| x@),
                                    labels: labels@,
                                    funcs: funcs@,
                                    bufs: names_set(bufs@),
                                    vars: names_set(vars@),
                                },
                            ));
                    }
                } else if is_word(&s, "pop") {
                    let name = match expect(&tokens, i + 1, TokenKind::Variable) {
                        Ok(vt) => vt.value.render(),
                        Err(e) => {
                            proof {
                                reveal_with_fuel(spec_parse_from, 3);
                                reveal_with_fuel(spec_parse_ident, 3);
                                reveal_with_fuel(spec_parse_target, 3);
                                assert(spec_parse_from(tokens@, pi, pacc) is None);
                            }
                            return Err(e);
                        },
                    };
                    if !name_list_has(&vars, &name) && !is_word(&name, "$_") && !is_word(
                        &name,
                        "$",
                    ) {
                        name_list_push(&mut vars, name.clone());
                    }
                    i += 2;
                    let mut params: Vec<ValueType> = Vec::new();
                    let ghost nm = name@;
                    params.push(ValueType::Variable(name));
                    let instr = Instruction { kind: InstructionKind::Pop, params, line, col };
                    let ghost im = instr@;
                    proof {
                        assert(vals_view(instr.params@) =~= seq![ValModel::Variable(nm)]);
                        lemma_instr_push(instrs@, instr);
                    }
                    instrs.push(instr);
                    proof {
                        reveal_with_fuel(spec_parse_from, 3);
                        reveal_with_fuel(spec_parse_ident, 3);
                        reveal_with_fuel(spec_parse_target, 3);
                        assert(spec_parse_from(tokens@, pi, pacc) == spec_parse_from(
                                tokens@,
                                i as int,
                                ParseAcc {
                                    instrs: instrs@.map_values(|x: Instruction| x@),
                                    labels: labels@,
                                    funcs: funcs@,
                                    bufs: names_set(bufs@),
                                    vars: names_set(vars@),
                                },
                            ));
                    }
                } else if is_word(&s, "dlc") {
                    if i + 1 >= tokens.len() {
                        proof {
                            reveal_with_fuel(spec_parse_from, 3);
                            reveal_with_fuel(spec_parse_from, 3);
                            assert(spec_parse_from(tokens@, pi, pacc) is None);
                        }
                        return Err(
                            Error::new(
                                ErrorKind::AssemblyError,
                                "Unexpected end of input".to_owned(),
                                line,
                                col,
                                &None,
                            ),
                        );
                    }
                    let value: ValueType = match tokens[i + 1].kind {
                        TokenKind::Variable => {
                            let name = tokens[i + 1].value.render();
                            if !name_list_has(&vars, &name) {
                                proof {
                                    reveal_with_fuel(spec_parse_from, 3);
                                reveal_with_fuel(spec_parse_ident, 3);
                                reveal_with_fuel(spec_parse_target, 3);
                                assert(spec_parse_from(tokens@, pi, pacc) is None);
                                }
                                return Err(
                                    Error::new(
                                        ErrorKind::AssemblyError,
                                        concat3("Variable ", name.as_str(), " not found"),
                                        line,
                                        col,
                                        &None,
                                    ),
                                );
                            }
                            name_list_remove(&mut vars, &name);
                            ValueType::Variable(name)
                        },
                        TokenKind::Buffer => {
                            let name = tokens[i + 1].value.render();
                            if !name_list_has(&bufs, &name) {
                                proof {
                                    reveal_with_fuel(spec_parse_from, 3);
                                reveal_with_fuel(spec_parse_ident, 3);
                                reveal_with_fuel(spec_parse_target, 3);
                                assert(spec_parse_from(tokens@, pi, pacc) is None);
                                }
                                return Err(
                                    Error::new(
                                        ErrorKind::AssemblyError,
                                        concat3("Buffer ", name.as_str(), " not found"),
                                        line,
                                        col,
                                        &None,
                                    ),
                                );
                            }
                            name_list_remove(&mut bufs, &name);
                            ValueType::Buffer(name)
                        },
                        _ => {
                            proof {
                                reveal_with_fuel(spec_parse_from, 3);
                                reveal_with_fuel(spec_parse_ident, 3);
                                reveal_with_fuel(spec_parse_target, 3);
                                assert(spec_parse_from(tokens@, pi, pacc) is None);
                            }
                            return Err(
                                Error::new(
                                    ErrorKind::AssemblyError,
                                    "Expected variable or buffer".to_owned(),
                                    line,
                                    col,
                                    &None,
                                ),
                            );
                        },
                    };
                    i += 2;
                    let mut params: Vec<ValueType> = Vec::new();
                    let ghost vm = value@;
                    params.push(value);
                    let instr = Instruction { kind: InstructionKind::Dlc, params, line, col };
                    let ghost im = instr@;
                    proof {
                        assert(vals_view(instr.params@) =~= seq![vm]);
                        lemma_instr_push(instrs@, instr);
                    }
                    instrs.push(instr);
                    proof {
                        reveal_with_fuel(spec_parse_from, 3);
                        reveal_with_fuel(spec_parse_ident, 3);
                        reveal_with_fuel(spec_parse_target, 3);
                        assert(spec_parse_from(tokens@, pi, pacc) == spec_parse_from(
                                tokens@,
                                i as int,
                                ParseAcc {
                                    instrs: instrs@.map_values(|x: Instruction| x@),
                                    labels: labels@,
                                    funcs: funcs@,
                                    bufs: names_set(bufs@),
                                    vars: names_set(vars@),
                                },
                            ));
                    }
                } else {
                    let kind = if is_word(&s, "add") {
                        InstructionKind::Add
                    } else if is_word(&s, "sub") {
                        InstructionKind::Sub
                    } else if is_word(&s, "mul") {
                        InstructionKind::Mul
                    } else if is_word(&s, "div") {
                        InstructionKind::Div
                    } else if is_word(&s, "mod") {
                        InstructionKind::Mod
                    } else if is_word(&s, "cmp") {
                        InstructionKind::Cmp
                    } else if is_word(&s, "dup") {
                        InstructionKind::Dup
                    } else if is_word(&s, "rot") {
                        InstructionKind::Rot
                    } else if is_word(&s, "ret") {
                        InstructionKind::Ret
                    } else if is_word(&s, "sys") {
                        InstructionKind::Sys
                    } else if is_word(&s, "len") {
                        InstructionKind::Len
                    } else {
                        proof {
                            reveal_with_fuel(spec_parse_from, 3);
                            reveal_with_fuel(spec_parse_from, 3);
                            assert(spec_parse_from(tokens@, pi, pacc) is None);
                        }
                        return Err(
                            Error::new(
                                ErrorKind::AssemblyError,
                                concat3("Invalid instruction: ", s.as_str(), ""),
                                line,
                                col,
                                &None,
                            ),
                        );
                    };
                    i += 1;
                    let instr = Instruction { kind, params: Vec::new(), line, col };
                    let ghost im = instr@;
                    proof {
                        assert(vals_view(instr.params@) =~= Seq::<ValModel>::empty());
                        lemma_instr_push(instrs@, instr);
                    }
                    instrs.push(instr);
                    proof {
                        reveal_with_fuel(spec_parse_from, 3);
                        reveal_with_fuel(spec_parse_ident, 3);
                        reveal_with_fuel(spec_parse_target, 3);
                        assert(spec_parse_from(tokens@, pi, pacc) == spec_parse_from(
                                tokens@,
                                i as int,
                                ParseAcc {
                                    instrs: instrs@.map_values(|x: Instruction| x@),
                                    labels: labels@,
                                    funcs: funcs@,
                                    bufs: names_set(bufs@),
                                    vars: names_set(vars@),
                                },
                            ));
                    }
                }
            },
            TokenKind::Label => {
                match expect(&tokens, i + 1, TokenKind::Punctuation) {
                    Ok(pt) => {
                        let txt = pt.value.render();
                        if !is_word(&txt, ":") {
                            proof {
                                reveal_with_fuel(spec_parse_from, 3);
                                reveal_with_fuel(spec_parse_ident, 3);
                                reveal_with_fuel(spec_parse_target, 3);
                                assert(spec_parse_from(tokens@, pi, pacc) is None);
                            }
                            return Err(
                                Error::new(
                                    ErrorKind::AssemblyError,
                                    "Parser: Expected ':' after label".to_owned(),
                                    line,
                                    col,
                                    &None,
                                ),
                            );
                        }
                    },
                    Err(e) => {
                        proof {
                            reveal_with_fuel(spec_parse_from, 3);
                            reveal_with_fuel(spec_parse_from, 3);
                            assert(spec_parse_from(tokens@, pi, pacc) is None);
                        }
                        return Err(e);
                    },
                }
                let name = tokens[i].value.render();
                if labels.contains(&name) {
                    proof {
                        reveal_with_fuel(spec_parse_from, 3);
                        assert(spec_parse_from(tokens@, pi, pacc) is None);
                    }
                    return Err(
                        Error::new(
                            ErrorKind::AssemblyError,
                            concat3("Parser: Label ", name.as_str(), " already exists"),
                            line,
                            col,
                            &None,
                        ),
                    );
                }
                let idx = instrs.len();
                let ghost nm = name@;
                labels.insert(name.clone(), idx);
                i += 2;
                let mut params: Vec<ValueType> = Vec::new();
                params.push(ValueType::String(name));
                let instr = Instruction { kind: InstructionKind::Lbl, params, line, col };
                let ghost im = instr@;
                proof {
                    assert(vals_view(instr.params@) =~= seq![ValModel::Str(nm)]);
                    lemma_instr_push(instrs@, instr);
                }
                instrs.push(instr);
                proof {
                    reveal_with_fuel(spec_parse_from, 3);
                    assert(spec_parse_from(tokens@, pi, pacc) == spec_parse_from(
                        tokens@,
                        i as int,
                        ParseAcc {
                            instrs: instrs@.map_values(|x: Instruction| x@),
                            labels: labels@,
                            funcs: funcs@,
                            bufs: names_set(bufs@),
                            vars: names_set(vars@),
                        },
                    ));
                }
            },
            TokenKind::Function => {
                match expect(&tokens, i + 1, TokenKind::Punctuation) {
                    Ok(pt) => {
                        let txt = pt.value.render();
                        if !is_word(&txt, ":") {
                            proof {
                                reveal_with_fuel(spec_parse_from, 3);
                                reveal_with_fuel(spec_parse_ident, 3);
                                reveal_with_fuel(spec_parse_target, 3);
                                assert(spec_parse_from(tokens@, pi, pacc) is None);
                            }
                            return Err(
                                Error::new(
                                    ErrorKind::AssemblyError,
                                    "Parser: Expected ':' after function".to_owned(),
                                    line,
                                    col,
                                    &None,
                                ),
                            );
                        }
                    },
                    Err(e) => {
                        proof {
                            reveal_with_fuel(spec_parse_from, 3);
                            reveal_with_fuel(spec_parse_from, 3);
                            assert(spec_parse_from(tokens@, pi, pacc) is None);
                        }
                        return Err(e);
                    },
                }
                let name = tokens[i].value.render();
                if funcs.contains(&name) {
                    proof {
                        reveal_with_fuel(spec_parse_from, 3);
                        assert(spec_parse_from(tokens@, pi, pacc) is None);
                    }
                    return Err(
                        Error::new(
                            ErrorKind::AssemblyError,
                            concat3("Parser: Function ", name.as_str(), " already exists"),
                            line,
                            col,
                            &None,
                        ),
                    );
                }
                let idx = instrs.len();
                let ghost nm = name@;
                funcs.insert(name.clone(), idx);
                i += 2;
                let mut params: Vec<ValueType> = Vec::new();
                params.push(ValueType::String(name));
                let instr = Instruction { kind: InstructionKind::Fun, params, line, col };
                let ghost im = instr@;
                proof {
                    assert(vals_view(instr.params@) =~= seq![ValModel::Str(nm)]);
                    lemma_instr_push(instrs@, instr);
                }
                instrs.push(instr);
                proof {
                    reveal_with_fuel(spec_parse_from, 3);
                    assert(spec_parse_from(tokens@, pi, pacc) == spec_parse_from(
                        tokens@,
                        i as int,
                        ParseAcc {
                            instrs: instrs@.map_values(|x: Instruction| x@),
                            labels: labels@,
                            funcs: funcs@,
                            bufs: names_set(bufs@),
                            vars: names_set(vars@),
                        },
                    ));
                }
            },
            _ => {
                proof {
                    reveal_with_fuel(spec_parse_from, 3);
                    assert(spec_parse_from(tokens@, pi, pacc) is None);
                }
                return Err(
                    Error::new(
                        ErrorKind::AssemblyError,
                        "Unexpected token".to_owned(),
                        line,
                        col,
                        &None,
                    ),
                );
            },
        }
    }
    let entry = "@entry".to_owned();
    if funcs.contains(&entry) {
        let p = ParserRet { instrs, labels, funcs };
        proof {
            assert(ProgModel {
                instrs: p.instrs@.map_values(|x: Instruction| x@),
                labels: p.labels@,
                funcs: p.funcs@,
            } =~= p@);
        }
        Ok(p)
    } else {
        proof {
            assert(spec_parse_from(tokens@, 0, acc0()) is None);
        }
        Err(
            Error::new(
                ErrorKind::AssemblyError,
                "Parser: No @entry function found".to_owned(),
                0,
                0,
                &None,
            ),
        )
    }
}

proof fn lemma_from_ident(tokens: Seq<Token>, i: int, acc: ParseAcc, s: String)
    requires
        0 <= i < tokens.len(),
        tokens[i].kind == TokenKind::Identifier,
        tokens[i].value == TokenValue::Identifier(s),
    ensures
        spec_parse_from(tokens, i, acc) == spec_parse_ident(
            tokens,
            i,
            acc,
            s@,
            tokens[i].line,
            tokens[i].col,
        ),
{
}

proof fn lemma_ident_target(
    tokens: Seq<Token>,
    i: int,
    acc: ParseAcc,
    s: Seq<char>,
    kind: InstructionKind,
    operand: TokenKind,
    line: usize,
    col: usize,
)
    requires
        0 <= i < tokens.len(),
        s != "psh"@,
        s == "jmp"@ || s == "jnz"@ || s == "jzr"@ || s == "typ"@ || s == "run"@,
        kind == (if s == "jmp"@ {
            InstructionKind::Jmp
        } else if s == "jnz"@ {
            InstructionKind::Jnz
        } else if s == "jzr"@ {
            InstructionKind::Jzr
        } else if s == "typ"@ {
            InstructionKind::Type
        } else {
            InstructionKind::Run
        }),
        operand == (if s == "typ"@ {
            TokenKind::Identifier
        } else if s == "run"@ {
            TokenKind::Function
        } else {
            TokenKind::Label
        }),
    ensures
        spec_parse_ident(tokens, i, acc, s, line, col) == spec_parse_target(
            tokens,
            i,
            acc,
            kind,
            operand,
            line,
            col,
        ),
{
    reveal_strlit("jmp");
    reveal_strlit("jnz");
    reveal_strlit("jzr");
    reveal_strlit("typ");
    reveal_strlit("run");
    assert("jmp"@[0] == 'j' && "jmp"@[1] == 'm' && "jmp"@[2] == 'p');
    assert("jnz"@[0] == 'j' && "jnz"@[1] == 'n' && "jnz"@[2] == 'z');
    assert("jzr"@[0] == 'j' && "jzr"@[1] == 'z' && "jzr"@[2] == 'r');
    assert("typ"@[0] == 't' && "typ"@[1] == 'y' && "typ"@[2] == 'p');
    assert("run"@[0] == 'r' && "run"@[1] == 'u' && "run"@[2] == 'n');
}

proof fn lemma_target_none(
    tokens: Seq<Token>,
    i: int,
    acc: ParseAcc,
    kind: InstructionKind,
    operand: TokenKind,
    line: usize,
    col: usize,
)
    requires
        0 <= i < tokens.len(),
        i + 1 >= tokens.len() || tokens[i + 1].kind != operand,
    ensures
        spec_parse_target(tokens, i, acc, kind, operand, line, col) is None,
{
}

proof fn lemma_target_step(
    tokens: Seq<Token>,
    i: int,
    acc: ParseAcc,
    kind: InstructionKind,
    operand: TokenKind,
    line: usize,
    col: usize,
)
    requires
        0 <= i < tokens.len(),
        i + 1 < tokens.len(),
        tokens[i + 1].kind == operand,
    ensures
        spec_parse_target(tokens, i, acc, kind, operand, line, col) == spec_parse_from(
            tokens,
            i + 2,
            ParseAcc {
                instrs: acc.instrs.push(
                    InstrModel {
                        kind,
                        params: seq![
                            ValModel::Str(crate::lexer::tv_text(tokens[i + 1].value@)),
                        ],
                        line,
                        col,
                    },
                ),
                labels: acc.labels,
                funcs: acc.funcs,
                bufs: acc.bufs,
                vars: acc.vars,
            },
        ),
{
}

} // verus!
