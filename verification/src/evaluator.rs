//! The virtual machine: executes an assembled program against an operand
//! stack, a call-return stack, a variable table and a buffer table.
//!
//! The machine itself performs no floating-point arithmetic and no operating
//! system calls. Where an instruction needs one, [`Vm::step`] returns a
//! [`Request`] for the embedding program to carry out; [`Vm::answer`] resumes
//! execution with the outcome. Everything else — integer and string
//! arithmetic, branching, calls, casts, tables and buffers — happens here,
//! against the transition function [`spec_step`].

use vstd::prelude::*;
use vstd::string::*;

use crate::Error;
use crate::ErrorKind;
use crate::lexer::byte_len;
use crate::parser::InstrModel;
use crate::parser::Instruction;
use crate::parser::InstructionKind;
use crate::parser::ParserRet;
use crate::parser::ValModel;
use crate::parser::ValueType;
use crate::parser::instr_wf;
use crate::parser::prog_wf;
use crate::parser::vals_view;
use crate::table::NameMap;
use crate::text::spec_i32_string;
use crate::text::spec_parse_bool;
use crate::text::spec_parse_i32;

verus! {

/// A named, fixed-size byte region, usable as a syscall target.
#[derive(Debug, PartialEq)]
pub struct Buffer {
    pub data: Vec<u8>,
    pub size: usize,
}

/// The mathematical value of a [`Buffer`].
#[verifier::ext_equal]
pub struct BufModel {
    pub data: Seq<u8>,
    pub size: usize,
}

impl View for Buffer {
    type V = BufModel;

    open spec fn view(&self) -> BufModel {
        BufModel { data: self.data@, size: self.size }
    }
}

impl Clone for Buffer {
    fn clone(&self) -> (r: Self)
        ensures
            r@ == self@,
    {
        let r = Buffer { data: self.data.clone(), size: self.size };
        proof {
            assert(r.data@ =~= self.data@);
        }
        r
    }
}

/// Keeps the non-zero bytes of a byte vector, in order.
pub fn trim_vec(buf: Vec<u8>) -> (r: Vec<u8>)
    ensures
        r@ == buf@.filter(|x: u8| x != 0),
{
    let mut trimmed: Vec<u8> = Vec::new();
    let mut i: usize = 0;
    proof {
        reveal_with_fuel(Seq::<u8>::filter, 2);
        assert(buf@.subrange(0, 0) =~= Seq::<u8>::empty());
    }
    while i < buf.len()
        invariant
            i <= buf@.len(),
            trimmed@ == buf@.subrange(0, i as int).filter(|x: u8| x != 0),
        decreases buf@.len() - i,
    {
        proof {
            reveal_with_fuel(Seq::<u8>::filter, 2);
            let pre = buf@.subrange(0, i as int);
            let post = buf@.subrange(0, i + 1);
            assert(post.drop_last() =~= pre);
            assert(post.last() == buf@[i as int]);
        }
        if buf[i] != 0 {
            trimmed.push(buf[i]);
        }
        i += 1;
    }
    proof {
        assert(buf@.subrange(0, buf@.len() as int) =~= buf@);
    }
    trimmed
}

/// A byte sequence with its trailing zero bytes removed.
pub open spec fn trim_trailing_zeros(s: Seq<u8>) -> Seq<u8>
    decreases s.len(),
{
    if s.len() > 0 && s.last() == 0 {
        trim_trailing_zeros(s.drop_last())
    } else {
        s
    }
}

fn trim_trailing(buf: &Vec<u8>) -> (r: Vec<u8>)
    ensures
        r@ == trim_trailing_zeros(buf@),
{
    let mut r = buf.clone();
    proof {
        assert(r@ =~= buf@);
    }
    loop
        invariant
            trim_trailing_zeros(r@) == trim_trailing_zeros(buf@),
        decreases r@.len(),
    {
        let n = r.len();
        if n == 0 {
            return r;
        }
        if r[n - 1] != 0 {
            return r;
        }
        let ghost pre = r@;
        r.pop();
        proof {
            assert(r@ =~= pre.drop_last());
        }
    }
}

/// Decodes bytes as UTF-8 text.
///
/// Relies on `String::from_utf8`: it succeeds exactly on valid UTF-8 input,
/// and then returns the text those bytes encode.
#[verifier::external_body]
fn utf8_to_string(bytes: Vec<u8>) -> (r: Option<String>)
    ensures
        r is Some <==> vstd::utf8::valid_utf8(bytes@),
        r matches Some(s) ==> s@ == vstd::utf8::decode_utf8(bytes@),
{
    String::from_utf8(bytes).ok()
}

/// A string repeated a number of times.
pub open spec fn seq_repeat(s: Seq<char>, n: nat) -> Seq<char>
    decreases n,
{
    if n == 0 {
        Seq::empty()
    } else {
        seq_repeat(s, (n - 1) as nat) + s
    }
}

fn repeat_string(s: &String, n: i32) -> (r: String)
    requires
        n >= 0,
    ensures
        r@ == seq_repeat(s@, n as nat),
{
    let mut r = String::new();
    let mut k: i32 = 0;
    proof {
        assert(r@ =~= seq_repeat(s@, 0));
    }
    while k < n
        invariant
            0 <= k <= n,
            r@ == seq_repeat(s@, k as nat),
        decreases n - k,
    {
        r.append(s.as_str());
        k += 1;
    }
    r
}

/// The binary arithmetic opcodes that floats are handed out for.
#[derive(Debug, PartialEq, Eq, Structural, Clone, Copy)]
pub enum FloatOp {
    Add,
    Sub,
    Mul,
    Div,
    Mod,
}

/// One marshalled syscall argument: a machine word, or a value whose address
/// the embedding program must take just before the call.
#[derive(Debug, PartialEq)]
pub enum SysArg {
    /// A plain machine word.
    Word(usize),
    /// A string whose bytes' address is passed.
    Str(String),
    /// The name of a machine buffer whose bytes' address is passed.
    Buf(String),
    /// A float, as text, cast to a machine word.
    FloatWord(String),
}

/// The mathematical value of a [`SysArg`].
#[verifier::ext_equal]
pub enum SysArgModel {
    Word(usize),
    Str(Seq<char>),
    Buf(Seq<char>),
    FloatWord(Seq<char>),
}

impl View for SysArg {
    type V = SysArgModel;

    open spec fn view(&self) -> SysArgModel {
        match self {
            SysArg::Word(w) => SysArgModel::Word(*w),
            SysArg::Str(s) => SysArgModel::Str(s@),
            SysArg::Buf(s) => SysArgModel::Buf(s@),
            SysArg::FloatWord(s) => SysArgModel::FloatWord(s@),
        }
    }
}

/// Work the machine cannot do itself, handed to the embedding program.
#[derive(Debug, PartialEq)]
pub enum Request {
    /// Invoke the operating system call `num` with the six arguments.
    Syscall { num: i32, args: Vec<SysArg> },
    /// Compute `b op a` on two floats given as text.
    FloatBin { op: FloatOp, a: String, b: String },
    /// Compare two floats given as text for equality.
    FloatEq { a: String, b: String },
    /// Report whether a float given as text is non-zero.
    FloatTruthy { s: String },
    /// Cast a float given as text to an integer.
    FloatToInt { s: String },
    /// Parse text as a float; the answer carries its text form, or nothing.
    FloatParse { s: String },
}

/// The mathematical value of a [`Request`].
#[verifier::ext_equal]
pub enum ReqModel {
    Syscall { num: i32, args: Seq<SysArgModel> },
    FloatBin { op: FloatOp, a: Seq<char>, b: Seq<char> },
    FloatEq { a: Seq<char>, b: Seq<char> },
    FloatTruthy { s: Seq<char> },
    FloatToInt { s: Seq<char> },
    FloatParse { s: Seq<char> },
}

impl View for Request {
    type V = ReqModel;

    open spec fn view(&self) -> ReqModel {
        match self {
            Request::Syscall { num, args } => ReqModel::Syscall {
                num: *num,
                args: args@.map_values(|a: SysArg| a@),
            },
            Request::FloatBin { op, a, b } => ReqModel::FloatBin { op: *op, a: a@, b: b@ },
            Request::FloatEq { a, b } => ReqModel::FloatEq { a: a@, b: b@ },
            Request::FloatTruthy { s } => ReqModel::FloatTruthy { s: s@ },
            Request::FloatToInt { s } => ReqModel::FloatToInt { s: s@ },
            Request::FloatParse { s } => ReqModel::FloatParse { s: s@ },
        }
    }
}

/// The embedding program's answer to a [`Request`].
#[derive(Debug, PartialEq)]
pub enum Response {
    /// The signed result of the syscall.
    Syscall(i32),
    /// The resulting float, as text.
    Float(String),
    /// The resulting truth value.
    Bool(bool),
    /// The resulting integer.
    Int(i32),
    /// The parsed float as text, or nothing when the text is no float.
    FloatOpt(Option<String>),
}

/// The mathematical value of a [`Response`].
#[verifier::ext_equal]
pub enum RespModel {
    Syscall(i32),
    Float(Seq<char>),
    Bool(bool),
    Int(i32),
    FloatOpt(Option<Seq<char>>),
}

impl View for Response {
    type V = RespModel;

    open spec fn view(&self) -> RespModel {
        match self {
            Response::Syscall(c) => RespModel::Syscall(*c),
            Response::Float(s) => RespModel::Float(s@),
            Response::Bool(b) => RespModel::Bool(*b),
            Response::Int(i) => RespModel::Int(*i),
            Response::FloatOpt(o) => match o {
                Some(s) => RespModel::FloatOpt(Some(s@)),
                None => RespModel::FloatOpt(None),
            },
        }
    }
}

/// What the machine is waiting on while a request is outstanding.
#[derive(Debug, PartialEq, Eq, Structural, Clone, Copy)]
pub enum Pending {
    /// A syscall; the answer's integer is pushed.
    Sys,
    /// A float operation; the answer's float is pushed.
    FloatPush,
    /// A float comparison; the answer's boolean is pushed.
    FloatFlag,
    /// A conditional branch on a float; the answer decides it.
    FloatBranch { target: usize, on_true: bool },
    /// A return with no caller and a float exit code.
    FloatExit,
    /// A cast to float; the answer is pushed, or the cast fails.
    FloatCast,
}

/// The outcome of one step: keep going, halt with an exit code, fail, or wait
/// for the embedding program.
#[derive(Debug, PartialEq)]
pub enum StepResult {
    Continue,
    Halt(i32),
    Failed(Error),
    Request(Request),
}

/// The mathematical value of a [`StepResult`]; of a failure it keeps the
/// category and the source position.
#[verifier::ext_equal]
pub enum StepModel {
    Continue,
    Halt(i32),
    Fail { kind: ErrorKind, line: usize, col: usize },
    Request(ReqModel),
}

impl View for StepResult {
    type V = StepModel;

    open spec fn view(&self) -> StepModel {
        match self {
            StepResult::Continue => StepModel::Continue,
            StepResult::Halt(c) => StepModel::Halt(*c),
            StepResult::Failed(e) => StepModel::Fail { kind: e.kind, line: e.line, col: e.col },
            StepResult::Request(rq) => StepModel::Request(rq@),
        }
    }
}

/// The machine's full mathematical state.
#[verifier::ext_equal]
pub struct VmModel {
    pub instrs: Seq<InstrModel>,
    pub labels: Map<Seq<char>, usize>,
    pub funcs: Map<Seq<char>, usize>,
    pub stack: Seq<ValModel>,
    pub calls: Seq<usize>,
    pub vars: Map<Seq<char>, ValModel>,
    pub bufs: Map<Seq<char>, BufModel>,
    pub cur: usize,
    pub pending: Option<Pending>,
}

/// The machine's invariant: well-formed instructions, in-range label,
/// function and return indices, buffers that hold as many bytes as their
/// size says, and an in-range instruction pointer while a request is
/// outstanding.
pub open spec fn vm_wf(m: VmModel) -> bool {
    &&& forall|j: int| 0 <= j < m.instrs.len() ==> instr_wf(#[trigger] m.instrs[j])
    &&& forall|k: Seq<char>|
        m.labels.contains_key(k) ==> (#[trigger] m.labels[k]) < m.instrs.len()
    &&& forall|k: Seq<char>| m.funcs.contains_key(k) ==> (#[trigger] m.funcs[k]) < m.instrs.len()
    &&& forall|j: int| 0 <= j < m.calls.len() ==> (#[trigger] m.calls[j]) < m.instrs.len()
    &&& forall|k: Seq<char>|
        m.bufs.contains_key(k) ==> (#[trigger] m.bufs[k]).data.len() == m.bufs[k].size
    &&& (m.pending is Some ==> m.cur < m.instrs.len())
}

/// A failure outcome at the given instruction, leaving the state as it was.
pub open spec fn fail_at(m: VmModel, k: ErrorKind, i: InstrModel) -> (VmModel, StepModel) {
    (m, StepModel::Fail { kind: k, line: i.line, col: i.col })
}

/// The state with a value pushed and the instruction pointer advanced.
pub open spec fn push_on(m: VmModel, v: ValModel) -> VmModel {
    VmModel { stack: m.stack.push(v), cur: (m.cur + 1) as usize, ..m }
}

/// Division truncating toward zero, as the machine's `div` computes it; the
/// one overflowing quotient wraps.
pub open spec fn div_i32(b: i32, a: i32) -> i32
    recommends
        a != 0,
{
    match b.checked_div(a) {
        Some(q) => q,
        None => i32::MIN,
    }
}

/// Remainder with the dividend's sign, as the machine's `mod` computes it;
/// the one overflowing case yields zero.
pub open spec fn rem_i32(b: i32, a: i32) -> i32
    recommends
        a != 0,
{
    match b.checked_rem(a) {
        Some(r) => r,
        None => 0,
    }
}

/// What a binary arithmetic opcode yields on two integers: `b op a`, with
/// `a` the value popped first.
pub open spec fn int_binop(op: FloatOp, b: i32, a: i32) -> Option<i32> {
    match op {
        FloatOp::Add => Some(vstd::wrapping::i32_specs::wrapping_add(a, b)),
        FloatOp::Sub => Some(vstd::wrapping::i32_specs::wrapping_sub(b, a)),
        FloatOp::Mul => Some(vstd::wrapping::i32_specs::wrapping_mul(a, b)),
        FloatOp::Div => if a == 0 {
            None
        } else {
            Some(div_i32(b, a))
        },
        FloatOp::Mod => if a == 0 {
            None
        } else {
            Some(rem_i32(b, a))
        },
    }
}

/// One step of an arithmetic opcode: pops `a` then `b` and dispatches on
/// their tags.
pub open spec fn spec_binop(m: VmModel, instr: InstrModel, op: FloatOp) -> (VmModel, StepModel) {
    if m.stack.len() < 2 {
        fail_at(m, ErrorKind::StackUnderflow, instr)
    } else {
        let a = m.stack.last();
        let b = m.stack[m.stack.len() - 2];
        let popped = VmModel { stack: m.stack.subrange(0, m.stack.len() - 2), ..m };
        match (a, b) {
            (ValModel::Integer(x), ValModel::Integer(y)) => match int_binop(op, y, x) {
                Some(v) => (push_on(popped, ValModel::Integer(v)), StepModel::Continue),
                None => fail_at(m, ErrorKind::DivisionByZero, instr),
            },
            (ValModel::Float(fa), ValModel::Float(fb)) => (
                VmModel { pending: Some(Pending::FloatPush), ..popped },
                StepModel::Request(ReqModel::FloatBin { op, a: fa, b: fb }),
            ),
            (ValModel::Str(sa), ValModel::Str(sb)) => if op is Add {
                (push_on(popped, ValModel::Str(sb + sa)), StepModel::Continue)
            } else {
                fail_at(m, ErrorKind::TypeMismatch, instr)
            },
            (ValModel::Str(sa), ValModel::Integer(n)) => if op is Mul {
                if n >= 0 {
                    (push_on(popped, ValModel::Str(seq_repeat(sa, n as nat))), StepModel::Continue)
                } else {
                    fail_at(m, ErrorKind::TypeMismatch, instr)
                }
            } else {
                fail_at(m, ErrorKind::TypeMismatch, instr)
            },
            (ValModel::Integer(n), ValModel::Str(sa)) => if op is Mul {
                if n >= 0 {
                    (push_on(popped, ValModel::Str(seq_repeat(sa, n as nat))), StepModel::Continue)
                } else {
                    fail_at(m, ErrorKind::TypeMismatch, instr)
                }
            } else {
                fail_at(m, ErrorKind::TypeMismatch, instr)
            },
            _ => fail_at(m, ErrorKind::TypeMismatch, instr),
        }
    }
}

/// One step of `cmp`: pops two values and pushes their equality, defined only
/// for matching tags.
pub open spec fn spec_cmp(m: VmModel, instr: InstrModel) -> (VmModel, StepModel) {
    if m.stack.len() < 2 {
        fail_at(m, ErrorKind::StackUnderflow, instr)
    } else {
        let a = m.stack.last();
        let b = m.stack[m.stack.len() - 2];
        let popped = VmModel { stack: m.stack.subrange(0, m.stack.len() - 2), ..m };
        match (a, b) {
            (ValModel::Integer(x), ValModel::Integer(y)) => (
                push_on(popped, ValModel::Boolean(x == y)),
                StepModel::Continue,
            ),
            (ValModel::Float(fa), ValModel::Float(fb)) => (
                VmModel { pending: Some(Pending::FloatFlag), ..popped },
                StepModel::Request(ReqModel::FloatEq { a: fa, b: fb }),
            ),
            (ValModel::Str(sa), ValModel::Str(sb)) => (
                push_on(popped, ValModel::Boolean(sa == sb)),
                StepModel::Continue,
            ),
            (ValModel::Boolean(x), ValModel::Boolean(y)) => (
                push_on(popped, ValModel::Boolean(x == y)),
                StepModel::Continue,
            ),
            _ => fail_at(m, ErrorKind::TypeMismatch, instr),
        }
    }
}

/// What a value on the stack renders to for a `typ` conversion: buffers are
/// decoded as UTF-8 after trimming trailing zero bytes.
pub open spec fn spec_stringify(m: VmModel, v: ValModel) -> Result<Seq<char>, ErrorKind> {
    match v {
        ValModel::Str(s) => Ok(s),
        ValModel::Integer(i) => Ok(spec_i32_string(i as int)),
        ValModel::Float(f) => Ok(f),
        ValModel::Boolean(b) => Ok(
            if b {
                "true"@
            } else {
                "false"@
            },
        ),
        ValModel::Buffer(b) => {
            if !m.bufs.contains_key(b) {
                Err(ErrorKind::UnknownBuffer)
            } else {
                let t = trim_trailing_zeros(m.bufs[b].data);
                if vstd::utf8::valid_utf8(t) {
                    Ok(vstd::utf8::decode_utf8(t))
                } else {
                    Err(ErrorKind::InvalidCast)
                }
            }
        },
        ValModel::Variable(_) => Err(ErrorKind::TypeMismatch),
    }
}

/// One step of `typ`: pops a value, renders it as text, and converts the
/// text to the requested tag.
pub open spec fn spec_typ(m: VmModel, instr: InstrModel) -> (VmModel, StepModel) {
    let target = instr.params[0]->Str_0;
    if m.stack.len() == 0 {
        fail_at(m, ErrorKind::StackUnderflow, instr)
    } else {
        let v = m.stack.last();
        let popped = VmModel { stack: m.stack.drop_last(), ..m };
        match spec_stringify(m, v) {
            Err(k) => fail_at(m, k, instr),
            Ok(s) => {
                if target == "int"@ {
                    match spec_parse_i32(s) {
                        Some(i) => (push_on(popped, ValModel::Integer(i)), StepModel::Continue),
                        None => match spec_parse_bool(s) {
                            Some(b) => (
                                push_on(
                                    popped,
                                    ValModel::Integer(
                                        if b {
                                            1i32
                                        } else {
                                            0i32
                                        },
                                    ),
                                ),
                                StepModel::Continue,
                            ),
                            None => fail_at(m, ErrorKind::InvalidCast, instr),
                        },
                    }
                } else if target == "float"@ {
                    (
                        VmModel { pending: Some(Pending::FloatCast), ..popped },
                        StepModel::Request(ReqModel::FloatParse { s }),
                    )
                } else if target == "str"@ {
                    (push_on(popped, ValModel::Str(s)), StepModel::Continue)
                } else if target == "bool"@ {
                    match spec_parse_bool(s) {
                        Some(b) => (push_on(popped, ValModel::Boolean(b)), StepModel::Continue),
                        None => fail_at(m, ErrorKind::InvalidCast, instr),
                    }
                } else {
                    fail_at(m, ErrorKind::InvalidCast, instr)
                }
            },
        }
    }
}

/// Whether a value is truthy for `jnz`/`jzr`; floats are decided by the
/// embedding program, other tags than the four scalar ones are errors.
pub open spec fn spec_truthy(v: ValModel) -> Option<bool> {
    match v {
        ValModel::Integer(n) => Some(n != 0),
        ValModel::Str(s) => Some(s.len() != 0),
        ValModel::Boolean(b) => Some(b),
        _ => None,
    }
}

/// One marshalled syscall argument, if the value can be marshalled.
pub open spec fn spec_sys_arg(m: VmModel, v: ValModel) -> Option<SysArgModel> {
    match v {
        ValModel::Integer(i) => Some(SysArgModel::Word(i as usize)),
        ValModel::Boolean(b) => Some(
            SysArgModel::Word(
                if b {
                    1usize
                } else {
                    0usize
                },
            ),
        ),
        ValModel::Variable(v2) => Some(SysArgModel::Word(byte_len(v2))),
        ValModel::Str(s) => Some(SysArgModel::Str(s)),
        ValModel::Float(f) => Some(SysArgModel::FloatWord(f)),
        ValModel::Buffer(b) => if m.bufs.contains_key(b) {
            Some(SysArgModel::Buf(b))
        } else {
            None
        },
    }
}

/// The `k`-th syscall argument value, counted from just below the syscall
/// number; a missing argument defaults to integer zero.
pub open spec fn spec_sys_val(m: VmModel, k: int) -> ValModel {
    if m.stack.len() - 2 - k >= 0 {
        m.stack[m.stack.len() - 2 - k]
    } else {
        ValModel::Integer(0)
    }
}

/// One step of `sys`: pops the syscall number and up to six arguments,
/// marshals them, and asks the embedding program to make the call.
pub open spec fn spec_sys(m: VmModel, instr: InstrModel) -> (VmModel, StepModel) {
    if m.stack.len() == 0 {
        fail_at(m, ErrorKind::StackUnderflow, instr)
    } else {
        match m.stack.last() {
            ValModel::Integer(num) => {
                if forall|k: int| 0 <= k < 6 ==> spec_sys_arg(m, #[trigger] spec_sys_val(m, k)) is Some {
                    let args = Seq::new(6, |k: int| spec_sys_arg(m, spec_sys_val(m, k))->0);
                    let left = if m.stack.len() >= 7 {
                        m.stack.len() - 7
                    } else {
                        0
                    };
                    (
                        VmModel {
                            stack: m.stack.subrange(0, left),
                            pending: Some(Pending::Sys),
                            ..m
                        },
                        StepModel::Request(ReqModel::Syscall { num, args }),
                    )
                } else {
                    fail_at(m, ErrorKind::UnknownBuffer, instr)
                }
            },
            _ => fail_at(m, ErrorKind::TypeMismatch, instr),
        }
    }
}

/// One step of the machine from a state with no outstanding request: the
/// transition for the opcode the instruction pointer rests on.
pub open spec fn spec_step(m: VmModel) -> (VmModel, StepModel) {
    if m.cur >= m.instrs.len() {
        (m, StepModel::Halt(0))
    } else {
        let instr = m.instrs[m.cur as int];
        match instr.kind {
            InstructionKind::Psh => {
                let p = instr.params[0];
                match p {
                    ValModel::Variable(name) => {
                        if m.vars.contains_key(name) {
                            (push_on(m, m.vars[name]), StepModel::Continue)
                        } else {
                            fail_at(m, ErrorKind::UnboundVariable, instr)
                        }
                    },
                    _ => (push_on(m, p), StepModel::Continue),
                }
            },
            InstructionKind::Rot => {
                if m.stack.len() < 2 {
                    fail_at(m, ErrorKind::StackUnderflow, instr)
                } else {
                    let a = m.stack.last();
                    let b = m.stack[m.stack.len() - 2];
                    (
                        VmModel {
                            stack: m.stack.subrange(0, m.stack.len() - 2).push(a).push(b),
                            cur: (m.cur + 1) as usize,
                            ..m
                        },
                        StepModel::Continue,
                    )
                }
            },
            InstructionKind::Add => spec_binop(m, instr, FloatOp::Add),
            InstructionKind::Sub => spec_binop(m, instr, FloatOp::Sub),
            InstructionKind::Mul => spec_binop(m, instr, FloatOp::Mul),
            InstructionKind::Div => spec_binop(m, instr, FloatOp::Div),
            InstructionKind::Mod => spec_binop(m, instr, FloatOp::Mod),
            InstructionKind::Cmp => spec_cmp(m, instr),
            InstructionKind::Pop => {
                if m.stack.len() == 0 {
                    fail_at(m, ErrorKind::StackUnderflow, instr)
                } else {
                    let name = instr.params[0]->Variable_0;
                    let v = m.stack.last();
                    let vars2 = if name != "$_"@ && name != "$"@ {
                        m.vars.insert(name, v)
                    } else {
                        m.vars
                    };
                    (
                        VmModel {
                            stack: m.stack.drop_last(),
                            vars: vars2,
                            cur: (m.cur + 1) as usize,
                            ..m
                        },
                        StepModel::Continue,
                    )
                }
            },
            InstructionKind::Dup => {
                if m.stack.len() == 0 {
                    fail_at(m, ErrorKind::StackUnderflow, instr)
                } else {
                    (push_on(m, m.stack.last()), StepModel::Continue)
                }
            },
            InstructionKind::Jmp => {
                let name = instr.params[0]->Str_0;
                if m.labels.contains_key(name) {
                    (
                        VmModel { cur: (m.labels[name] + 1) as usize, ..m },
                        StepModel::Continue,
                    )
                } else {
                    fail_at(m, ErrorKind::LabelOrFunctionNotFound, instr)
                }
            },
            InstructionKind::Jnz => spec_branch(m, instr, true),
            InstructionKind::Jzr => spec_branch(m, instr, false),
            InstructionKind::Type => spec_typ(m, instr),
            InstructionKind::Ret => {
                if m.calls.len() > 0 {
                    (
                        VmModel {
                            calls: m.calls.drop_last(),
                            cur: (m.calls.last() + 1) as usize,
                            ..m
                        },
                        StepModel::Continue,
                    )
                } else if m.stack.len() == 0 {
                    fail_at(m, ErrorKind::StackUnderflow, instr)
                } else {
                    let v = m.stack.last();
                    let popped = VmModel { stack: m.stack.drop_last(), ..m };
                    match v {
                        ValModel::Integer(i) => (popped, StepModel::Halt(i)),
                        ValModel::Boolean(b) => (
                            popped,
                            StepModel::Halt(
                                if b {
                                    1i32
                                } else {
                                    0i32
                                },
                            ),
                        ),
                        ValModel::Str(s) => match spec_parse_i32(s) {
                            Some(i) => (popped, StepModel::Halt(i)),
                            None => fail_at(m, ErrorKind::InvalidCast, instr),
                        },
                        ValModel::Float(f) => (
                            VmModel { pending: Some(Pending::FloatExit), ..popped },
                            StepModel::Request(ReqModel::FloatToInt { s: f }),
                        ),
                        _ => fail_at(m, ErrorKind::InvalidCast, instr),
                    }
                }
            },
            InstructionKind::Run => {
                let name = instr.params[0]->Str_0;
                if m.funcs.contains_key(name) {
                    (
                        VmModel {
                            calls: m.calls.push(m.cur),
                            cur: (m.funcs[name] + 1) as usize,
                            ..m
                        },
                        StepModel::Continue,
                    )
                } else {
                    fail_at(m, ErrorKind::LabelOrFunctionNotFound, instr)
                }
            },
            InstructionKind::Sys => spec_sys(m, instr),
            InstructionKind::Len => {
                if m.stack.len() == 0 {
                    fail_at(m, ErrorKind::StackUnderflow, instr)
                } else {
                    match m.stack.last() {
                        ValModel::Str(s) => (
                            push_on(m, ValModel::Integer(byte_len(s) as i32)),
                            StepModel::Continue,
                        ),
                        ValModel::Buffer(b) => {
                            if m.bufs.contains_key(b) {
                                (
                                    push_on(m, ValModel::Integer(m.bufs[b].size as i32)),
                                    StepModel::Continue,
                                )
                            } else {
                                fail_at(m, ErrorKind::UnknownBuffer, instr)
                            }
                        },
                        _ => fail_at(m, ErrorKind::TypeMismatch, instr),
                    }
                }
            },
            InstructionKind::Dlc => {
                match instr.params[0] {
                    ValModel::Buffer(b) => (
                        VmModel { bufs: m.bufs.remove(b), cur: (m.cur + 1) as usize, ..m },
                        StepModel::Continue,
                    ),
                    _ => (
                        VmModel {
                            vars: m.vars.remove(instr.params[0]->Variable_0),
                            cur: (m.cur + 1) as usize,
                            ..m
                        },
                        StepModel::Continue,
                    ),
                }
            },
            InstructionKind::Lbl => (
                VmModel { cur: (m.cur + 1) as usize, ..m },
                StepModel::Continue,
            ),
            InstructionKind::Fun => (
                VmModel { cur: (m.cur + 1) as usize, ..m },
                StepModel::Continue,
            ),
            InstructionKind::Alc => {
                let name = instr.params[0]->Buffer_0;
                let size = instr.params[1]->Integer_0;
                (
                    VmModel {
                        bufs: m.bufs.insert(
                            name,
                            BufModel {
                                data: Seq::new(size as nat, |j: int| 0u8),
                                size: size as usize,
                            },
                        ),
                        cur: (m.cur + 1) as usize,
                        ..m
                    },
                    StepModel::Continue,
                )
            },
        }
    }
}

/// One step of `jnz` (`on_true`) or `jzr` (`!on_true`).
pub open spec fn spec_branch(m: VmModel, instr: InstrModel, on_true: bool) -> (VmModel, StepModel) {
    let name = instr.params[0]->Str_0;
    if !m.labels.contains_key(name) {
        fail_at(m, ErrorKind::LabelOrFunctionNotFound, instr)
    } else if m.stack.len() == 0 {
        fail_at(m, ErrorKind::StackUnderflow, instr)
    } else {
        let v = m.stack.last();
        let popped = VmModel { stack: m.stack.drop_last(), ..m };
        match v {
            ValModel::Float(f) => (
                VmModel {
                    pending: Some(
                        Pending::FloatBranch { target: m.labels[name], on_true },
                    ),
                    ..popped
                },
                StepModel::Request(ReqModel::FloatTruthy { s: f }),
            ),
            _ => match spec_truthy(v) {
                Some(t) => {
                    let cur2 = if t == on_true {
                        m.labels[name]
                    } else {
                        (m.cur + 1) as usize
                    };
                    (VmModel { cur: cur2, ..popped }, StepModel::Continue)
                },
                None => fail_at(m, ErrorKind::TypeMismatch, instr),
            },
        }
    }
}

/// How an answer resumes the machine: the effect of the outstanding request's
/// completion, for each pending state and the matching answer.
pub open spec fn spec_answer(m: VmModel, r: RespModel) -> (VmModel, StepModel) {
    let cleared = VmModel { pending: None, ..m };
    let instr = m.instrs[m.cur as int];
    match (m.pending->0, r) {
        (Pending::Sys, RespModel::Syscall(c)) => (
            push_on(cleared, ValModel::Integer(c)),
            StepModel::Continue,
        ),
        (Pending::FloatPush, RespModel::Float(s)) => (
            push_on(cleared, ValModel::Float(s)),
            StepModel::Continue,
        ),
        (Pending::FloatFlag, RespModel::Bool(b)) => (
            push_on(cleared, ValModel::Boolean(b)),
            StepModel::Continue,
        ),
        (Pending::FloatBranch { target, on_true }, RespModel::Bool(t)) => (
            VmModel {
                cur: if t == on_true {
                    target
                } else {
                    (m.cur + 1) as usize
                },
                pending: None,
                ..m
            },
            StepModel::Continue,
        ),
        (Pending::FloatExit, RespModel::Int(c)) => (cleared, StepModel::Halt(c)),
        (Pending::FloatCast, RespModel::FloatOpt(o)) => match o {
            Some(s) => (push_on(cleared, ValModel::Float(s)), StepModel::Continue),
            None => (
                cleared,
                StepModel::Fail { kind: ErrorKind::InvalidCast, line: instr.line, col: instr.col },
            ),
        },
        _ => (m, StepModel::Continue),
    }
}

/// Whether an answer fits the outstanding request's pending state.
pub open spec fn response_matches(p: Pending, r: RespModel) -> bool {
    match (p, r) {
        (Pending::Sys, RespModel::Syscall(_)) => true,
        (Pending::FloatPush, RespModel::Float(_)) => true,
        (Pending::FloatFlag, RespModel::Bool(_)) => true,
        (Pending::FloatBranch { .. }, RespModel::Bool(_)) => true,
        (Pending::FloatExit, RespModel::Int(_)) => true,
        (Pending::FloatCast, RespModel::FloatOpt(_)) => true,
        _ => false,
    }
}

proof fn lemma_vals_push(s: Seq<ValueType>, x: ValueType)
    ensures
        vals_view(s.push(x)) == vals_view(s).push(x@),
{
    assert(vals_view(s.push(x)) =~= vals_view(s).push(x@));
}

proof fn lemma_vals_drop_last(s: Seq<ValueType>)
    requires
        s.len() > 0,
    ensures
        vals_view(s.drop_last()) == vals_view(s).drop_last(),
{
    assert(vals_view(s.drop_last()) =~= vals_view(s).drop_last());
}

proof fn lemma_vals_subrange(s: Seq<ValueType>, a: int, b: int)
    requires
        0 <= a <= b <= s.len(),
    ensures
        vals_view(s.subrange(a, b)) == vals_view(s).subrange(a, b),
{
    assert(vals_view(s.subrange(a, b)) =~= vals_view(s).subrange(a, b));
}

fn fail(kind: ErrorKind, msg: &str, line: usize, col: usize) -> (e: Error)
    ensures
        e.kind == kind,
        e.line == line,
        e.col == col,
{
    Error::new(kind, msg.to_owned(), line, col, &None)
}

/// The machine: an assembled program together with its execution state.
pub struct Vm {
    instrs: Vec<Instruction>,
    labels: NameMap<usize>,
    funcs: NameMap<usize>,
    stack: Vec<ValueType>,
    ret_stack: Vec<usize>,
    vars: NameMap<ValueType>,
    bufs: NameMap<Buffer>,
    cur: usize,
    pending: Option<Pending>,
}

impl View for Vm {
    type V = VmModel;

    closed spec fn view(&self) -> VmModel {
        VmModel {
            instrs: self.instrs@.map_values(|i: Instruction| i@),
            labels: self.labels@,
            funcs: self.funcs@,
            stack: vals_view(self.stack@),
            calls: self.ret_stack@,
            vars: self.vars@,
            bufs: self.bufs@,
            cur: self.cur,
            pending: self.pending,
        }
    }
}

impl Vm {
    /// The machine's internal invariant.
    pub closed spec fn inv(&self) -> bool {
        &&& self.labels.wf()
        &&& self.funcs.wf()
        &&& self.vars.wf()
        &&& self.bufs.wf()
        &&& vm_wf(self@)
    }

    /// Builds a machine for an assembled program, with the instruction
    /// pointer at the entry function; a program with no entry function is
    /// refused.
    pub fn new(parsed: ParserRet) -> (r: Result<Vm, Error>)
        requires
            parsed.wf(),
            prog_wf(parsed@),
        ensures
            match r {
                Ok(vm) => {
                    &&& vm.inv()
                    &&& parsed@.funcs.contains_key("@entry"@)
                    &&& vm@ == (VmModel {
                        instrs: parsed@.instrs,
                        labels: parsed@.labels,
                        funcs: parsed@.funcs,
                        stack: Seq::empty(),
                        calls: Seq::empty(),
                        vars: Map::empty(),
                        bufs: Map::empty(),
                        cur: parsed@.funcs["@entry"@],
                        pending: None,
                    })
                },
                Err(e) => !parsed@.funcs.contains_key("@entry"@) && e.kind
                    == ErrorKind::LabelOrFunctionNotFound,
            },
    {
        let entry = "@entry".to_owned();
        let cur = match parsed.funcs.get(&entry) {
            Some(i) => *i,
            None => {
                return Err(fail(ErrorKind::LabelOrFunctionNotFound, "Entry function not found", 0, 0));
            },
        };
        let vm = Vm {
            instrs: parsed.instrs,
            labels: parsed.labels,
            funcs: parsed.funcs,
            stack: Vec::new(),
            ret_stack: Vec::new(),
            vars: NameMap::new(),
            bufs: NameMap::new(),
            cur,
            pending: None,
        };
        proof {
            assert(vals_view(vm.stack@) =~= Seq::<ValModel>::empty());
            assert(vm@ =~= VmModel {
                instrs: parsed@.instrs,
                labels: parsed@.labels,
                funcs: parsed@.funcs,
                stack: Seq::empty(),
                calls: Seq::empty(),
                vars: Map::empty(),
                bufs: Map::empty(),
                cur,
                pending: None,
            });
        }
        Ok(vm)
    }

    /// Whether the machine is waiting on an answer to a request.
    pub fn is_pending(&self) -> (r: bool)
        ensures
            r == (self@.pending is Some),
    {
        match self.pending {
            Some(_) => true,
            None => false,
        }
    }

    /// A copy of the operand stack, bottom first.
    pub fn clone_stack(&self) -> (r: Vec<ValueType>)
        ensures
            vals_view(r@) == self@.stack,
    {
        let mut r: Vec<ValueType> = Vec::new();
        let mut i: usize = 0;
        proof {
            assert(vals_view(r@) =~= vals_view(self.stack@.subrange(0, 0)));
            lemma_vals_subrange(self.stack@, 0, 0);
        }
        while i < self.stack.len()
            invariant
                i <= self.stack@.len(),
                vals_view(r@) == vals_view(self.stack@).subrange(0, i as int),
            decreases self.stack@.len() - i,
        {
            let v = self.stack[i].clone();
            proof {
                lemma_vals_push(r@, v);
                assert(vals_view(self.stack@).subrange(0, i + 1) =~= vals_view(
                    self.stack@,
                ).subrange(0, i as int).push(self.stack@[i as int]@));
            }
            r.push(v);
            i += 1;
        }
        proof {
            assert(vals_view(self.stack@).subrange(0, self.stack@.len() as int) =~= vals_view(
                self.stack@,
            ));
        }
        r
    }

    /// A copy of a buffer's bytes, for the embedding program's syscall
    /// marshalling.
    pub fn buffer_data(&self, name: &String) -> (r: Option<Vec<u8>>)
        requires
            self.inv(),
        ensures
            match r {
                Some(d) => self@.bufs.contains_key(name@) && d@ == self@.bufs[name@].data,
                None => !self@.bufs.contains_key(name@),
            },
    {
        match self.bufs.get(name) {
            Some(b) => Some(b.data.clone()),
            None => None,
        }
    }

    /// Replaces a buffer's bytes after a syscall wrote into the embedding
    /// program's copy; refused unless the buffer exists and the length is its
    /// declared size.
    pub fn set_buffer_data(&mut self, name: &String, data: Vec<u8>) -> (r: bool)
        requires
            old(self).inv(),
        ensures
            final(self).inv(),
            r ==> old(self)@.bufs.contains_key(name@) && data@.len() == old(self)@.bufs[name@].size
                && final(self)@ == (VmModel {
                bufs: old(self)@.bufs.insert(
                    name@,
                    BufModel { data: data@, size: old(self)@.bufs[name@].size },
                ),
                ..old(self)@
            }),
            !r ==> final(self)@ == old(self)@,
    {
        let size = match self.bufs.get(name) {
            Some(b) => b.size,
            None => {
                return false;
            },
        };
        if data.len() != size {
            return false;
        }
        self.bufs.insert(name.clone(), Buffer { data, size });
        proof {
            assert(final(self)@ =~= (VmModel {
                bufs: old(self)@.bufs.insert(
                    name@,
                    BufModel { data: final(self)@.bufs[name@].data, size },
                ),
                ..old(self)@
            }));
        }
        true
    }

    fn step_binop(&mut self, op: FloatOp, under: &str, bad: &str, zero: &str) -> (r: StepResult)
        requires
            old(self).inv(),
            old(self)@.pending is None,
            old(self)@.cur < old(self)@.instrs.len(),
        ensures
            final(self).inv(),
            final(self)@ == spec_binop(
                old(self)@,
                old(self)@.instrs[old(self)@.cur as int],
                op,
            ).0,
            r@ == spec_binop(old(self)@, old(self)@.instrs[old(self)@.cur as int], op).1,
    {
        let line = self.instrs[self.cur].line;
        let col = self.instrs[self.cur].col;
        proof {
            assert(self.cur < self.instrs.len());
        }
        let n = self.stack.len();
        if n < 2 {
            return StepResult::Failed(fail(ErrorKind::StackUnderflow, under, line, col));
        }
        let a = self.stack[n - 1].clone();
        let b = self.stack[n - 2].clone();
        proof {
            lemma_vals_subrange(self.stack@, 0, n - 2);
        }
        match (a, b) {
            (ValueType::Integer(x), ValueType::Integer(y)) => {
                let v: i32 = match op {
                    FloatOp::Add => x.wrapping_add(y),
                    FloatOp::Sub => y.wrapping_sub(x),
                    FloatOp::Mul => x.wrapping_mul(y),
                    FloatOp::Div => {
                        if x == 0 {
                            return StepResult::Failed(
                                fail(ErrorKind::DivisionByZero, zero, line, col),
                            );
                        }
                        match y.checked_div(x) {
                            Some(q) => q,
                            None => i32::MIN,
                        }
                    },
                    FloatOp::Mod => {
                        if x == 0 {
                            return StepResult::Failed(
                                fail(ErrorKind::DivisionByZero, zero, line, col),
                            );
                        }
                        match y.checked_rem(x) {
                            Some(q) => q,
                            None => 0,
                        }
                    },
                };
                self.stack.truncate(n - 2);
                let ghost mid = self.stack@;
                self.stack.push(ValueType::Integer(v));
                self.cur += 1;
                proof {
                    lemma_vals_push(mid, ValueType::Integer(v));
                    assert(final(self)@ =~= spec_binop(
                        old(self)@,
                        old(self)@.instrs[old(self)@.cur as int],
                        op,
                    ).0);
                }
                StepResult::Continue
            },
            (ValueType::Float(fa), ValueType::Float(fb)) => {
                self.stack.truncate(n - 2);
                self.pending = Some(Pending::FloatPush);
                proof {
                    assert(final(self)@ =~= spec_binop(
                        old(self)@,
                        old(self)@.instrs[old(self)@.cur as int],
                        op,
                    ).0);
                }
                StepResult::Request(Request::FloatBin { op, a: fa, b: fb })
            },
            (ValueType::String(sa), ValueType::String(sb)) => {
                match op {
                    FloatOp::Add => {
                        let joined = sb.concat(sa.as_str());
                        self.stack.truncate(n - 2);
                        let ghost mid = self.stack@;
                        self.stack.push(ValueType::String(joined));
                        self.cur += 1;
                        proof {
                            lemma_vals_push(mid, self.stack@.last());
                            assert(final(self)@ =~= spec_binop(
                                old(self)@,
                                old(self)@.instrs[old(self)@.cur as int],
                                op,
                            ).0);
                        }
                        StepResult::Continue
                    },
                    _ => StepResult::Failed(fail(ErrorKind::TypeMismatch, bad, line, col)),
                }
            },
            (ValueType::String(sa), ValueType::Integer(cnt)) => {
                match op {
                    FloatOp::Mul => {
                        if cnt < 0 {
                            return StepResult::Failed(
                                fail(ErrorKind::TypeMismatch, bad, line, col),
                            );
                        }
                        let repeated = repeat_string(&sa, cnt);
                        self.stack.truncate(n - 2);
                        let ghost mid = self.stack@;
                        self.stack.push(ValueType::String(repeated));
                        self.cur += 1;
                        proof {
                            lemma_vals_push(mid, self.stack@.last());
                            assert(final(self)@ =~= spec_binop(
                                old(self)@,
                                old(self)@.instrs[old(self)@.cur as int],
                                op,
                            ).0);
                        }
                        StepResult::Continue
                    },
                    _ => StepResult::Failed(fail(ErrorKind::TypeMismatch, bad, line, col)),
                }
            },
            (ValueType::Integer(cnt), ValueType::String(sa)) => {
                match op {
                    FloatOp::Mul => {
                        if cnt < 0 {
                            return StepResult::Failed(
                                fail(ErrorKind::TypeMismatch, bad, line, col),
                            );
                        }
                        let repeated = repeat_string(&sa, cnt);
                        self.stack.truncate(n - 2);
                        let ghost mid = self.stack@;
                        self.stack.push(ValueType::String(repeated));
                        self.cur += 1;
                        proof {
                            lemma_vals_push(mid, self.stack@.last());
                            assert(final(self)@ =~= spec_binop(
                                old(self)@,
                                old(self)@.instrs[old(self)@.cur as int],
                                op,
                            ).0);
                        }
                        StepResult::Continue
                    },
                    _ => StepResult::Failed(fail(ErrorKind::TypeMismatch, bad, line, col)),
                }
            },
            _ => StepResult::Failed(fail(ErrorKind::TypeMismatch, bad, line, col)),
        }
    }

    fn step_cmp(&mut self) -> (r: StepResult)
        requires
            old(self).inv(),
            old(self)@.pending is None,
            old(self)@.cur < old(self)@.instrs.len(),
        ensures
            final(self).inv(),
            final(self)@ == spec_cmp(old(self)@, old(self)@.instrs[old(self)@.cur as int]).0,
            r@ == spec_cmp(old(self)@, old(self)@.instrs[old(self)@.cur as int]).1,
    {
        let line = self.instrs[self.cur].line;
        let col = self.instrs[self.cur].col;
        proof {
            assert(self.cur < self.instrs.len());
        }
        let n = self.stack.len();
        if n < 2 {
            return StepResult::Failed(
                fail(ErrorKind::StackUnderflow, "Equal: Stack underflow", line, col),
            );
        }
        let a = self.stack[n - 1].clone();
        let b = self.stack[n - 2].clone();
        proof {
            lemma_vals_subrange(self.stack@, 0, n - 2);
        }
        let flag: bool = match (a, b) {
            (ValueType::Integer(x), ValueType::Integer(y)) => x == y,
            (ValueType::Boolean(x), ValueType::Boolean(y)) => x == y,
            (ValueType::String(x), ValueType::String(y)) => x == y,
            (ValueType::Float(fa), ValueType::Float(fb)) => {
                self.stack.truncate(n - 2);
                self.pending = Some(Pending::FloatFlag);
                proof {
                    assert(final(self)@ =~= spec_cmp(
                        old(self)@,
                        old(self)@.instrs[old(self)@.cur as int],
                    ).0);
                }
                return StepResult::Request(Request::FloatEq { a: fa, b: fb });
            },
            _ => {
                return StepResult::Failed(
                    fail(ErrorKind::TypeMismatch, "Invalid types for equal", line, col),
                );
            },
        };
        self.stack.truncate(n - 2);
        let ghost mid = self.stack@;
        self.stack.push(ValueType::Boolean(flag));
        self.cur += 1;
        proof {
            lemma_vals_push(mid, ValueType::Boolean(flag));
            assert(final(self)@ =~= spec_cmp(
                old(self)@,
                old(self)@.instrs[old(self)@.cur as int],
            ).0);
        }
        StepResult::Continue
    }

    fn step_typ(&mut self) -> (r: StepResult)
        requires
            old(self).inv(),
            old(self)@.pending is None,
            old(self)@.cur < old(self)@.instrs.len(),
            old(self)@.instrs[old(self)@.cur as int].kind == InstructionKind::Type,
        ensures
            final(self).inv(),
            final(self)@ == spec_typ(old(self)@, old(self)@.instrs[old(self)@.cur as int]).0,
            r@ == spec_typ(old(self)@, old(self)@.instrs[old(self)@.cur as int]).1,
    {
        let line = self.instrs[self.cur].line;
        let col = self.instrs[self.cur].col;
        proof {
            assert(self.cur < self.instrs.len());
        }
        let target = match &self.instrs[self.cur].params[0] {
            ValueType::String(t) => t.clone(),
            _ => {
                proof {
                    assert(false);
                }
                vstd::pervasive::unreached()
            },
        };
        let n = self.stack.len();
        if n == 0 {
            return StepResult::Failed(
                fail(ErrorKind::StackUnderflow, "Type: Stack underflow", line, col),
            );
        }
        let v = self.stack[n - 1].clone();
        proof {
            lemma_vals_drop_last(self.stack@);
        }
        let text: String = match v {
            ValueType::String(s) => s,
            ValueType::Integer(i) => crate::text::i32_to_string(i),
            ValueType::Float(f) => f,
            ValueType::Boolean(b) => {
                if b {
                    "true".to_owned()
                } else {
                    "false".to_owned()
                }
            },
            ValueType::Buffer(bname) => {
                let trimmed = match self.bufs.get(&bname) {
                    Some(buf) => trim_trailing(&buf.data),
                    None => {
                        return StepResult::Failed(
                            fail(ErrorKind::UnknownBuffer, "Type: Buffer not found", line, col),
                        );
                    },
                };
                match utf8_to_string(trimmed) {
                    Some(s) => s,
                    None => {
                        return StepResult::Failed(
                            fail(ErrorKind::InvalidCast, "Type: Buffer is not text", line, col),
                        );
                    },
                }
            },
            ValueType::Variable(_) => {
                return StepResult::Failed(
                    fail(ErrorKind::TypeMismatch, "Type: Invalid type", line, col),
                );
            },
        };
        if crate::text::is_word(&target, "int") {
            let result: ValueType = match crate::text::parse_i32(text.as_str()) {
                Some(i) => ValueType::Integer(i),
                None => match crate::text::parse_bool(text.as_str()) {
                    Some(b) => ValueType::Integer(
                        if b {
                            1
                        } else {
                            0
                        },
                    ),
                    None => {
                        return StepResult::Failed(
                            fail(ErrorKind::InvalidCast, "Type: Invalid int or bool", line, col),
                        );
                    },
                },
            };
            self.stack.pop();
            let ghost mid = self.stack@;
            self.stack.push(result);
            self.cur += 1;
            proof {
                lemma_vals_push(mid, self.stack@.last());
                assert(final(self)@ =~= spec_typ(
                    old(self)@,
                    old(self)@.instrs[old(self)@.cur as int],
                ).0);
            }
            StepResult::Continue
        } else if crate::text::is_word(&target, "float") {
            self.stack.pop();
            self.pending = Some(Pending::FloatCast);
            proof {
                assert(final(self)@ =~= spec_typ(
                    old(self)@,
                    old(self)@.instrs[old(self)@.cur as int],
                ).0);
            }
            StepResult::Request(Request::FloatParse { s: text })
        } else if crate::text::is_word(&target, "str") {
            self.stack.pop();
            let ghost mid = self.stack@;
            self.stack.push(ValueType::String(text));
            self.cur += 1;
            proof {
                lemma_vals_push(mid, self.stack@.last());
                assert(final(self)@ =~= spec_typ(
                    old(self)@,
                    old(self)@.instrs[old(self)@.cur as int],
                ).0);
            }
            StepResult::Continue
        } else if crate::text::is_word(&target, "bool") {
            let result: ValueType = match crate::text::parse_bool(text.as_str()) {
                Some(b) => ValueType::Boolean(b),
                None => {
                    return StepResult::Failed(
                        fail(ErrorKind::InvalidCast, "Type: Invalid bool", line, col),
                    );
                },
            };
            self.stack.pop();
            let ghost mid = self.stack@;
            self.stack.push(result);
            self.cur += 1;
            proof {
                lemma_vals_push(mid, self.stack@.last());
                assert(final(self)@ =~= spec_typ(
                    old(self)@,
                    old(self)@.instrs[old(self)@.cur as int],
                ).0);
            }
            StepResult::Continue
        } else {
            StepResult::Failed(fail(ErrorKind::InvalidCast, "Type: Invalid type", line, col))
        }
    }

    #[verifier::loop_isolation(false)]
    fn step_sys(&mut self) -> (r: StepResult)
        requires
            old(self).inv(),
            old(self)@.pending is None,
            old(self)@.cur < old(self)@.instrs.len(),
        ensures
            final(self).inv(),
            final(self)@ == spec_sys(old(self)@, old(self)@.instrs[old(self)@.cur as int]).0,
            r@ == spec_sys(old(self)@, old(self)@.instrs[old(self)@.cur as int]).1,
    {
        let line = self.instrs[self.cur].line;
        let col = self.instrs[self.cur].col;
        proof {
            assert(self.cur < self.instrs.len());
        }
        let n = self.stack.len();
        if n == 0 {
            return StepResult::Failed(
                fail(ErrorKind::StackUnderflow, "Sys: Stack underflow", line, col),
            );
        }
        let num = match self.stack[n - 1].clone() {
            ValueType::Integer(num) => num,
            _ => {
                return StepResult::Failed(
                    fail(ErrorKind::TypeMismatch, "Sys: Invalid syscall number type", line, col),
                );
            },
        };
        let mut args: Vec<SysArg> = Vec::new();
        let mut k: usize = 0;
        while k < 6
            invariant
                self == old(self),
                k <= 6,
                n == self.stack@.len(),
                n >= 1,
                args@.len() == k,
                forall|j: int|
                    0 <= j < k ==> spec_sys_arg(self@, spec_sys_val(self@, j)) == Some(
                        (#[trigger] args@[j])@,
                    ),
            decreases 6 - k,
        {
            let v: ValueType = if n > k + 1 {
                self.stack[n - 2 - k].clone()
            } else {
                ValueType::Integer(0)
            };
            proof {
                assert(v@ == spec_sys_val(self@, k as int));
            }
            let arg: SysArg = match v {
                ValueType::Integer(i) => SysArg::Word(#[verifier::truncate] (i as usize)),
                ValueType::Boolean(b) => SysArg::Word(
                    if b {
                        1
                    } else {
                        0
                    },
                ),
                ValueType::Variable(name) => SysArg::Word(name.as_str().len()),
                ValueType::String(s) => SysArg::Str(s),
                ValueType::Float(f) => SysArg::FloatWord(f),
                ValueType::Buffer(bname) => {
                    if self.bufs.contains(&bname) {
                        SysArg::Buf(bname)
                    } else {
                        return StepResult::Failed(
                            fail(ErrorKind::UnknownBuffer, "Sys: Buffer not found", line, col),
                        );
                    }
                },
            };
            args.push(arg);
            k += 1;
        }
        proof {
            assert forall|j: int|
                0 <= j < 6 implies spec_sys_arg(self@, #[trigger] spec_sys_val(self@, j)) is Some by {
                assert(spec_sys_arg(self@, spec_sys_val(self@, j)) == Some(args@[j]@));
            }
            assert(args@.map_values(|a: SysArg| a@) =~= Seq::new(
                6,
                |j: int| spec_sys_arg(self@, spec_sys_val(self@, j))->0,
            ));
        }
        let left: usize = if n >= 7 {
            n - 7
        } else {
            0
        };
        proof {
            lemma_vals_subrange(self.stack@, 0, left as int);
        }
        self.stack.truncate(left);
        self.pending = Some(Pending::Sys);
        proof {
            assert(final(self)@ =~= spec_sys(
                old(self)@,
                old(self)@.instrs[old(self)@.cur as int],
            ).0);
        }
        StepResult::Request(Request::Syscall { num, args })
    }

    /// Performs the instruction under the instruction pointer; past the end
    /// of the program the machine halts with exit code zero. The transition
    /// is exactly [`spec_step`].
    pub fn step(&mut self) -> (r: StepResult)
        requires
            old(self).inv(),
            old(self)@.pending is None,
        ensures
            final(self).inv(),
            final(self)@ == spec_step(old(self)@).0,
            r@ == spec_step(old(self)@).1,
    {
        if self.cur >= self.instrs.len() {
            return StepResult::Halt(0);
        }
        let kind = self.instrs[self.cur].kind;
        let line = self.instrs[self.cur].line;
        let col = self.instrs[self.cur].col;
        match kind {
            InstructionKind::Psh => {
                let p = self.instrs[self.cur].params[0].clone();
                match p {
                    ValueType::Variable(name) => {
                        let v = match self.vars.get(&name) {
                            Some(v) => v.clone(),
                            None => {
                                return StepResult::Failed(
                                    fail(
                                        ErrorKind::UnboundVariable,
                                        "Push: Variable not found",
                                        line,
                                        col,
                                    ),
                                );
                            },
                        };
                        let ghost mid = self.stack@;
                        self.stack.push(v);
                        self.cur += 1;
                        proof {
                            lemma_vals_push(mid, self.stack@.last());
                            assert(final(self)@ =~= spec_step(old(self)@).0);
                        }
                        StepResult::Continue
                    },
                    _ => {
                        let ghost mid = self.stack@;
                        let ghost pm = p@;
                        self.stack.push(p);
                        self.cur += 1;
                        proof {
                            lemma_vals_push(mid, self.stack@.last());
                            assert(final(self)@ =~= push_on(old(self)@, pm));
                            assert(final(self)@ =~= spec_step(old(self)@).0);
                        }
                        StepResult::Continue
                    },
                }
            },
            InstructionKind::Rot => {
                let n = self.stack.len();
                if n < 2 {
                    return StepResult::Failed(
                        fail(ErrorKind::StackUnderflow, "Rot: Stack underflow", line, col),
                    );
                }
                let a = self.stack[n - 1].clone();
                let b = self.stack[n - 2].clone();
                proof {
                    lemma_vals_subrange(self.stack@, 0, n - 2);
                }
                self.stack.truncate(n - 2);
                let ghost mid0 = self.stack@;
                self.stack.push(a);
                let ghost mid1 = self.stack@;
                self.stack.push(b);
                self.cur += 1;
                proof {
                    lemma_vals_push(mid0, mid1.last());
                    lemma_vals_push(mid1, self.stack@.last());
                    assert(final(self)@ =~= spec_step(old(self)@).0);
                }
                StepResult::Continue
            },
            InstructionKind::Add => self.step_binop(
                FloatOp::Add,
                "Add: Stack underflow",
                "Invalid types for add",
                "Add: Division by zero",
            ),
            InstructionKind::Sub => self.step_binop(
                FloatOp::Sub,
                "Sub: Stack underflow",
                "Invalid types for sub",
                "Sub: Division by zero",
            ),
            InstructionKind::Mul => self.step_binop(
                FloatOp::Mul,
                "Mul: Stack underflow",
                "Invalid types for mul",
                "Mul: Division by zero",
            ),
            InstructionKind::Div => self.step_binop(
                FloatOp::Div,
                "Div: Stack underflow",
                "Invalid types for div",
                "Div: Division by zero",
            ),
            InstructionKind::Mod => self.step_binop(
                FloatOp::Mod,
                "Mod: Stack underflow",
                "Invalid types for mod",
                "Mod: Division by zero",
            ),
            InstructionKind::Cmp => self.step_cmp(),
            InstructionKind::Pop => {
                let n = self.stack.len();
                if n == 0 {
                    return StepResult::Failed(
                        fail(ErrorKind::StackUnderflow, "Pop: Stack underflow", line, col),
                    );
                }
                let name = match &self.instrs[self.cur].params[0] {
                    ValueType::Variable(v) => v.clone(),
                    _ => {
                        proof {
                            assert(false);
                        }
                        vstd::pervasive::unreached()
                    },
                };
                let v = match self.stack.pop() {
                    Some(v) => v,
                    None => {
                        proof {
                            assert(false);
                        }
                        vstd::pervasive::unreached()
                    },
                };
                proof {
                    lemma_vals_drop_last(old(self).stack@);
                }
                if !crate::text::is_word(&name, "$_") && !crate::text::is_word(&name, "$") {
                    self.vars.insert(name, v);
                }
                self.cur += 1;
                proof {
                    assert(final(self)@ =~= spec_step(old(self)@).0);
                }
                StepResult::Continue
            },
            InstructionKind::Dup => {
                let n = self.stack.len();
                if n == 0 {
                    return StepResult::Failed(
                        fail(ErrorKind::StackUnderflow, "Dup: Stack underflow", line, col),
                    );
                }
                let v = self.stack[n - 1].clone();
                let ghost mid = self.stack@;
                self.stack.push(v);
                self.cur += 1;
                proof {
                    lemma_vals_push(mid, self.stack@.last());
                    assert(final(self)@ =~= spec_step(old(self)@).0);
                }
                StepResult::Continue
            },
            InstructionKind::Jmp => {
                let name = match &self.instrs[self.cur].params[0] {
                    ValueType::String(s) => s.clone(),
                    _ => {
                        proof {
                            assert(false);
                        }
                        vstd::pervasive::unreached()
                    },
                };
                let target = match self.labels.get(&name) {
                    Some(t) => *t,
                    None => {
                        return StepResult::Failed(
                            fail(
                                ErrorKind::LabelOrFunctionNotFound,
                                "Jump: Label not found",
                                line,
                                col,
                            ),
                        );
                    },
                };
                self.cur = target + 1;
                proof {
                    assert(final(self)@ =~= spec_step(old(self)@).0);
                }
                StepResult::Continue
            },
            InstructionKind::Jnz => self.step_branch(true, "Jnz: Label not found", "Jnz: Stack underflow", "Jnz: Invalid type"),
            InstructionKind::Jzr => self.step_branch(false, "Jzr: Label not found", "Jzr: Stack underflow", "Jzr: Invalid type"),
            InstructionKind::Type => self.step_typ(),
            InstructionKind::Ret => {
                if self.ret_stack.len() > 0 {
                    let back = match self.ret_stack.pop() {
                        Some(b) => b,
                        None => {
                            proof {
                                assert(false);
                            }
                            vstd::pervasive::unreached()
                        },
                    };
                    self.cur = back + 1;
                    proof {
                        assert(final(self)@ =~= spec_step(old(self)@).0);
                    }
                    return StepResult::Continue;
                }
                let n = self.stack.len();
                if n == 0 {
                    return StepResult::Failed(
                        fail(ErrorKind::StackUnderflow, "Ret: Stack underflow", line, col),
                    );
                }
                let v = self.stack[n - 1].clone();
                proof {
                    lemma_vals_drop_last(self.stack@);
                }
                match v {
                    ValueType::Integer(i) => {
                        self.stack.pop();
                        proof {
                            assert(final(self)@ =~= spec_step(old(self)@).0);
                        }
                        StepResult::Halt(i)
                    },
                    ValueType::Boolean(b) => {
                        self.stack.pop();
                        proof {
                            assert(final(self)@ =~= spec_step(old(self)@).0);
                        }
                        StepResult::Halt(
                            if b {
                                1
                            } else {
                                0
                            },
                        )
                    },
                    ValueType::String(s) => match crate::text::parse_i32(s.as_str()) {
                        Some(i) => {
                            self.stack.pop();
                            proof {
                                assert(final(self)@ =~= spec_step(old(self)@).0);
                            }
                            StepResult::Halt(i)
                        },
                        None => StepResult::Failed(
                            fail(ErrorKind::InvalidCast, "Cannot convert string to int", line, col),
                        ),
                    },
                    ValueType::Float(f) => {
                        self.stack.pop();
                        self.pending = Some(Pending::FloatExit);
                        proof {
                            assert(final(self)@ =~= spec_step(old(self)@).0);
                        }
                        StepResult::Request(Request::FloatToInt { s: f })
                    },
                    ValueType::Buffer(_) => StepResult::Failed(
                        fail(ErrorKind::InvalidCast, "Cannot convert buffer to int", line, col),
                    ),
                    ValueType::Variable(_) => StepResult::Failed(
                        fail(ErrorKind::InvalidCast, "Cannot convert variable to int", line, col),
                    ),
                }
            },
            InstructionKind::Run => {
                let name = match &self.instrs[self.cur].params[0] {
                    ValueType::String(s) => s.clone(),
                    _ => {
                        proof {
                            assert(false);
                        }
                        vstd::pervasive::unreached()
                    },
                };
                let target = match self.funcs.get(&name) {
                    Some(t) => *t,
                    None => {
                        return StepResult::Failed(
                            fail(
                                ErrorKind::LabelOrFunctionNotFound,
                                "Run: Function not found",
                                line,
                                col,
                            ),
                        );
                    },
                };
                self.ret_stack.push(self.cur);
                self.cur = target + 1;
                proof {
                    assert(final(self)@ =~= spec_step(old(self)@).0);
                }
                StepResult::Continue
            },
            InstructionKind::Sys => self.step_sys(),
            InstructionKind::Len => {
                let n = self.stack.len();
                if n == 0 {
                    return StepResult::Failed(
                        fail(ErrorKind::StackUnderflow, "Len: Stack underflow", line, col),
                    );
                }
                let len_val: i32 = match self.stack[n - 1].clone() {
                    ValueType::String(s) => #[verifier::truncate] (s.as_str().len() as i32),
                    ValueType::Buffer(bname) => match self.bufs.get(&bname) {
                        Some(buf) => #[verifier::truncate] (buf.size as i32),
                        None => {
                            return StepResult::Failed(
                                fail(ErrorKind::UnknownBuffer, "Len: Buffer not found", line, col),
                            );
                        },
                    },
                    _ => {
                        return StepResult::Failed(
                            fail(ErrorKind::TypeMismatch, "Len: Invalid type", line, col),
                        );
                    },
                };
                let ghost mid = self.stack@;
                self.stack.push(ValueType::Integer(len_val));
                self.cur += 1;
                proof {
                    lemma_vals_push(mid, ValueType::Integer(len_val));
                    assert(final(self)@ =~= spec_step(old(self)@).0);
                }
                StepResult::Continue
            },
            InstructionKind::Dlc => {
                match &self.instrs[self.cur].params[0] {
                    ValueType::Buffer(b) => {
                        let name = b.clone();
                        self.bufs.remove(&name);
                    },
                    ValueType::Variable(v) => {
                        let name = v.clone();
                        self.vars.remove(&name);
                    },
                    _ => {
                        proof {
                            assert(false);
                        }
                        vstd::pervasive::unreached()
                    },
                }
                self.cur += 1;
                proof {
                    assert(final(self)@ =~= spec_step(old(self)@).0);
                }
                StepResult::Continue
            },
            InstructionKind::Lbl => {
                self.cur += 1;
                proof {
                    assert(final(self)@ =~= spec_step(old(self)@).0);
                }
                StepResult::Continue
            },
            InstructionKind::Fun => {
                self.cur += 1;
                proof {
                    assert(final(self)@ =~= spec_step(old(self)@).0);
                }
                StepResult::Continue
            },
            InstructionKind::Alc => {
                let name = match &self.instrs[self.cur].params[0] {
                    ValueType::Buffer(b) => b.clone(),
                    _ => {
                        proof {
                            assert(false);
                        }
                        vstd::pervasive::unreached()
                    },
                };
                let size: i32 = match &self.instrs[self.cur].params[1] {
                    ValueType::Integer(v) => *v,
                    _ => {
                        proof {
                            assert(false);
                        }
                        vstd::pervasive::unreached()
                    },
                };
                let usize_size = size as usize;
                let mut data: Vec<u8> = Vec::new();
                let mut j: usize = 0;
                while j < usize_size
                    invariant
                        j <= usize_size,
                        data@.len() == j,
                        forall|q: int| 0 <= q < j ==> data@[q] == 0u8,
                    decreases usize_size - j,
                {
                    data.push(0u8);
                    j += 1;
                }
                proof {
                    assert(data@ =~= Seq::new(size as nat, |q: int| 0u8));
                }
                self.bufs.insert(name, Buffer { data, size: usize_size });
                self.cur += 1;
                proof {
                    assert(final(self)@ =~= spec_step(old(self)@).0);
                }
                StepResult::Continue
            },
        }
    }

    fn step_branch(&mut self, on_true: bool, nolabel: &str, under: &str, bad: &str) -> (r:
        StepResult)
        requires
            old(self).inv(),
            old(self)@.pending is None,
            old(self)@.cur < old(self)@.instrs.len(),
            old(self)@.instrs[old(self)@.cur as int].kind == InstructionKind::Jnz || old(
                self,
            )@.instrs[old(self)@.cur as int].kind == InstructionKind::Jzr,
        ensures
            final(self).inv(),
            final(self)@ == spec_branch(
                old(self)@,
                old(self)@.instrs[old(self)@.cur as int],
                on_true,
            ).0,
            r@ == spec_branch(old(self)@, old(self)@.instrs[old(self)@.cur as int], on_true).1,
    {
        let line = self.instrs[self.cur].line;
        let col = self.instrs[self.cur].col;
        proof {
            assert(self.cur < self.instrs.len());
        }
        let name = match &self.instrs[self.cur].params[0] {
            ValueType::String(s) => s.clone(),
            _ => {
                proof {
                    assert(false);
                }
                vstd::pervasive::unreached()
            },
        };
        let target = match self.labels.get(&name) {
            Some(t) => *t,
            None => {
                return StepResult::Failed(
                    fail(ErrorKind::LabelOrFunctionNotFound, nolabel, line, col),
                );
            },
        };
        let n = self.stack.len();
        if n == 0 {
            return StepResult::Failed(fail(ErrorKind::StackUnderflow, under, line, col));
        }
        let v = self.stack[n - 1].clone();
        proof {
            lemma_vals_drop_last(self.stack@);
        }
        let truthy: bool = match v {
            ValueType::Integer(x) => x != 0,
            ValueType::Boolean(b) => b,
            ValueType::String(s) => !s.as_str().is_empty(),
            ValueType::Float(f) => {
                self.stack.pop();
                self.pending = Some(Pending::FloatBranch { target, on_true });
                proof {
                    assert(final(self)@ =~= spec_branch(
                        old(self)@,
                        old(self)@.instrs[old(self)@.cur as int],
                        on_true,
                    ).0);
                }
                return StepResult::Request(Request::FloatTruthy { s: f });
            },
            _ => {
                return StepResult::Failed(fail(ErrorKind::TypeMismatch, bad, line, col));
            },
        };
        self.stack.pop();
        if truthy == on_true {
            self.cur = target;
        } else {
            self.cur += 1;
        }
        proof {
            assert(final(self)@ =~= spec_branch(
                old(self)@,
                old(self)@.instrs[old(self)@.cur as int],
                on_true,
            ).0);
        }
        StepResult::Continue
    }

    /// Resumes the machine with the embedding program's answer to the
    /// outstanding request. The transition is exactly [`spec_answer`].
    pub fn answer(&mut self, resp: Response) -> (r: StepResult)
        requires
            old(self).inv(),
            old(self)@.pending matches Some(p) && response_matches(p, resp@),
        ensures
            final(self).inv(),
            final(self)@ == spec_answer(old(self)@, resp@).0,
            r@ == spec_answer(old(self)@, resp@).1,
    {
        proof {
            assert(self.cur < self.instrs.len());
        }
        let line = self.instrs[self.cur].line;
        let col = self.instrs[self.cur].col;
        let p = match self.pending {
            Some(p) => p,
            None => {
                proof {
                    assert(false);
                }
                vstd::pervasive::unreached()
            },
        };
        self.pending = None;
        match (p, resp) {
            (Pending::Sys, Response::Syscall(c)) => {
                let ghost mid = self.stack@;
                self.stack.push(ValueType::Integer(c));
                self.cur += 1;
                proof {
                    lemma_vals_push(mid, ValueType::Integer(c));
                    assert(final(self)@ =~= spec_answer(old(self)@, resp@).0);
                }
                StepResult::Continue
            },
            (Pending::FloatPush, Response::Float(s)) => {
                let ghost mid = self.stack@;
                self.stack.push(ValueType::Float(s));
                self.cur += 1;
                proof {
                    lemma_vals_push(mid, self.stack@.last());
                    assert(final(self)@ =~= spec_answer(old(self)@, resp@).0);
                }
                StepResult::Continue
            },
            (Pending::FloatFlag, Response::Bool(b)) => {
                let ghost mid = self.stack@;
                self.stack.push(ValueType::Boolean(b));
                self.cur += 1;
                proof {
                    lemma_vals_push(mid, ValueType::Boolean(b));
                    assert(final(self)@ =~= spec_answer(old(self)@, resp@).0);
                }
                StepResult::Continue
            },
            (Pending::FloatBranch { target, on_true }, Response::Bool(t)) => {
                if t == on_true {
                    self.cur = target;
                } else {
                    self.cur += 1;
                }
                proof {
                    assert(final(self)@ =~= spec_answer(old(self)@, resp@).0);
                }
                StepResult::Continue
            },
            (Pending::FloatExit, Response::Int(c)) => {
                proof {
                    assert(final(self)@ =~= spec_answer(old(self)@, resp@).0);
                }
                StepResult::Halt(c)
            },
            (Pending::FloatCast, Response::FloatOpt(o)) => match o {
                Some(s) => {
                    let ghost mid = self.stack@;
                    self.stack.push(ValueType::Float(s));
                    self.cur += 1;
                    proof {
                        lemma_vals_push(mid, self.stack@.last());
                        assert(final(self)@ =~= spec_answer(old(self)@, resp@).0);
                    }
                    StepResult::Continue
                },
                None => {
                    proof {
                        assert(final(self)@ =~= spec_answer(old(self)@, resp@).0);
                    }
                    StepResult::Failed(
                        fail(ErrorKind::InvalidCast, "Type: Invalid float", line, col),
                    )
                },
            },
            _ => {
                proof {
                    assert(false);
                }
                vstd::pervasive::unreached()
            },
        }
    }
}

} // verus!
