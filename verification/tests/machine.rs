use zasm::lexer::{lex, DebugSymbol, Token, TokenKind, TokenValue};
use zasm::parser::{parse, InstructionKind, ValueType};
use zasm::evaluator::{Request, Response, StepResult, Vm};
use zasm::ErrorKind;

/// Runs a program from source to completion, answering float requests with
/// real `f32` arithmetic and syscall requests with the placeholder answer.
fn run_source(src: &str) -> Result<(Vec<ValueType>, i32), (ErrorKind, String)> {
    let tokens = lex(src.to_string()).map_err(|e| (e.kind, e.message.clone()))?;
    let parsed = parse(tokens).map_err(|e| (e.kind, e.message.clone()))?;
    let mut vm = Vm::new(parsed).map_err(|e| (e.kind, e.message.clone()))?;
    let mut fuel = 100000;
    loop {
        fuel -= 1;
        assert!(fuel > 0, "program ran too long");
        let step = if vm.is_pending() {
            unreachable!()
        } else {
            vm.step()
        };
        match step {
            StepResult::Continue => continue,
            StepResult::Halt(code) => return Ok((vm.clone_stack(), code)),
            StepResult::Failed(e) => return Err((e.kind, e.message.clone())),
            StepResult::Request(rq) => {
                let resp = answer_request(&mut vm, rq);
                match vm.answer(resp) {
                    StepResult::Continue => continue,
                    StepResult::Halt(code) => return Ok((vm.clone_stack(), code)),
                    StepResult::Failed(e) => return Err((e.kind, e.message.clone())),
                    StepResult::Request(_) => unreachable!(),
                }
            },
        }
    }
}

fn answer_request(_vm: &mut Vm, rq: Request) -> Response {
    match rq {
        Request::Syscall { .. } => Response::Syscall(1234),
        Request::FloatBin { op, a, b } => {
            let x: f32 = a.parse().unwrap();
            let y: f32 = b.parse().unwrap();
            let r = match op {
                zasm::evaluator::FloatOp::Add => x + y,
                zasm::evaluator::FloatOp::Sub => y - x,
                zasm::evaluator::FloatOp::Mul => x * y,
                zasm::evaluator::FloatOp::Div => y / x,
                zasm::evaluator::FloatOp::Mod => y % x,
            };
            Response::Float(r.to_string())
        },
        Request::FloatEq { a, b } => {
            let x: f32 = a.parse().unwrap();
            let y: f32 = b.parse().unwrap();
            Response::Bool(x == y)
        },
        Request::FloatTruthy { s } => {
            let x: f32 = s.parse().unwrap();
            Response::Bool(x != 0.0)
        },
        Request::FloatToInt { s } => {
            let x: f32 = s.parse().unwrap();
            Response::Int(x as i32)
        },
        Request::FloatParse { s } => Response::FloatOpt(s.parse::<f32>().ok().map(|f| f.to_string())),
    }
}

#[test]
fn lex_push_int() {
    let result = lex("psh 5".to_string());
    assert_eq!(
        result,
        Ok(vec![
            Token {
                kind: TokenKind::Identifier,
                value: TokenValue::Identifier("psh".to_string()),
                line: 1,
                col: 0,
            },
            Token { kind: TokenKind::Integer, value: TokenValue::Integer(5), line: 1, col: 4 },
        ])
    );
}

#[test]
fn lex_push_unknown_char_error() {
    let result = lex("psh ?".to_string());
    let err = result.unwrap_err();
    assert_eq!(err.message, "Unexpected character: '?'".to_string());
    assert_eq!(err.kind, ErrorKind::LexError);
}

#[test]
fn lex_push_string() {
    let result = lex("psh \"hello\"".to_string());
    assert_eq!(
        result,
        Ok(vec![
            Token {
                kind: TokenKind::Identifier,
                value: TokenValue::Identifier("psh".to_string()),
                line: 1,
                col: 0,
            },
            Token {
                kind: TokenKind::String,
                value: TokenValue::String("hello".to_string()),
                line: 1,
                col: 10,
            },
        ])
    );
}

#[test]
fn lex_push_float() {
    let result = lex("psh 3.14".to_string());
    assert_eq!(
        result,
        Ok(vec![
            Token {
                kind: TokenKind::Identifier,
                value: TokenValue::Identifier("psh".to_string()),
                line: 1,
                col: 0,
            },
            Token {
                kind: TokenKind::Float,
                value: TokenValue::Float("3.14".to_string()),
                line: 1,
                col: 4,
            },
        ])
    );
}

fn entry_tokens() -> Vec<Token> {
    vec![
        Token {
            kind: TokenKind::Function,
            value: TokenValue::Function("@entry".to_string()),
            line: 1,
            col: 0,
        },
        Token { kind: TokenKind::Punctuation, value: TokenValue::Punctuation(':'), line: 1, col: 6 },
    ]
}

#[test]
fn parse_push_int() {
    let mut tokens = entry_tokens();
    tokens.push(Token {
        kind: TokenKind::Identifier,
        value: TokenValue::Identifier("psh".to_string()),
        line: 2,
        col: 0,
    });
    tokens.push(Token { kind: TokenKind::Integer, value: TokenValue::Integer(5), line: 2, col: 4 });
    let result = parse(tokens).unwrap();
    assert_eq!(result.instrs[1].kind, InstructionKind::Psh);
    assert_eq!(result.instrs[1].params, vec![ValueType::Integer(5)]);
}

#[test]
fn parse_push_float() {
    let mut tokens = entry_tokens();
    tokens.push(Token {
        kind: TokenKind::Identifier,
        value: TokenValue::Identifier("psh".to_string()),
        line: 2,
        col: 0,
    });
    tokens.push(Token {
        kind: TokenKind::Float,
        value: TokenValue::Float("3.14".to_string()),
        line: 2,
        col: 4,
    });
    let result = parse(tokens).unwrap();
    assert_eq!(result.instrs[1].kind, InstructionKind::Psh);
    assert_eq!(result.instrs[1].params, vec![ValueType::Float("3.14".to_string())]);
}

#[test]
fn parse_push_string() {
    let mut tokens = entry_tokens();
    tokens.push(Token {
        kind: TokenKind::Identifier,
        value: TokenValue::Identifier("psh".to_string()),
        line: 2,
        col: 0,
    });
    tokens.push(Token {
        kind: TokenKind::String,
        value: TokenValue::String("hello".to_string()),
        line: 2,
        col: 4,
    });
    let result = parse(tokens).unwrap();
    assert_eq!(result.instrs[1].kind, InstructionKind::Psh);
    assert_eq!(result.instrs[1].params, vec![ValueType::String("hello".to_string())]);
}

#[test]
fn parse_add() {
    let mut tokens = entry_tokens();
    tokens.push(Token {
        kind: TokenKind::Identifier,
        value: TokenValue::Identifier("add".to_string()),
        line: 2,
        col: 0,
    });
    let result = parse(tokens).unwrap();
    assert_eq!(result.instrs[1].kind, InstructionKind::Add);
    assert_eq!(result.instrs[1].params, vec![]);
}

#[test]
fn evaluate_5_plus_3() {
    let (stack, code) = run_source("@entry:\npsh 5\npsh 3\nadd").unwrap();
    assert_eq!(stack, vec![ValueType::Integer(8)]);
    assert_eq!(code, 0);
}

#[test]
fn sub_is_left_to_right() {
    let (_, code) = run_source("@entry:\npsh 5\npsh 3\nsub\nret").unwrap();
    assert_eq!(code, 2);
}

#[test]
fn div_is_left_to_right() {
    let (_, code) = run_source("@entry:\npsh 7\npsh 2\ndiv\nret").unwrap();
    assert_eq!(code, 3);
}

#[test]
fn div_by_zero_errors() {
    let (kind, _) = run_source("@entry:\npsh 7\npsh 0\ndiv\nret").unwrap_err();
    assert_eq!(kind, ErrorKind::DivisionByZero);
}

#[test]
fn add_concatenates_in_push_order() {
    let (stack, _) = run_source("@entry:\npsh \"foo\"\npsh \"bar\"\nadd").unwrap();
    assert_eq!(stack, vec![ValueType::String("foobar".to_string())]);
}

#[test]
fn mul_repeats_string() {
    let (stack, _) = run_source("@entry:\npsh \"ab\"\npsh 3\nmul").unwrap();
    assert_eq!(stack, vec![ValueType::String("ababab".to_string())]);
}

#[test]
fn binary_opcode_on_empty_stack_underflows() {
    for src in [
        "@entry:\nadd",
        "@entry:\nsub",
        "@entry:\nmul",
        "@entry:\ndiv",
        "@entry:\nmod",
        "@entry:\ncmp",
        "@entry:\nrot",
        "@entry:\npop $x",
        "@entry:\ndup",
        "@entry:\nlen",
        "@entry:\nsys",
        "@entry:\nret",
    ] {
        let (kind, _) = run_source(src).unwrap_err();
        assert_eq!(kind, ErrorKind::StackUnderflow, "for {}", src);
    }
}

#[test]
fn forward_reference_resolves() {
    let (stack, code) = run_source("@entry:\njmp .skip\npsh 1\n.skip:\npsh 2").unwrap();
    assert_eq!(stack, vec![ValueType::Integer(2)]);
    assert_eq!(code, 0);
}

#[test]
fn missing_label_fails_at_runtime() {
    let (kind, _) = run_source("@entry:\njmp .nowhere").unwrap_err();
    assert_eq!(kind, ErrorKind::LabelOrFunctionNotFound);
}

#[test]
fn alc_len_pushes_declared_size() {
    let (stack, _) = run_source("@entry:\nalc *b, 8\npsh *b\nlen").unwrap();
    assert_eq!(stack.len(), 2);
    assert_eq!(stack[1], ValueType::Integer(8));
}

#[test]
fn pop_push_restores_integer() {
    let (stack, _) = run_source("@entry:\npsh 42\npop $x\npsh $x").unwrap();
    assert_eq!(stack, vec![ValueType::Integer(42)]);
}

#[test]
fn pop_push_restores_string() {
    let (stack, _) = run_source("@entry:\npsh \"hi\"\npop $x\npsh $x").unwrap();
    assert_eq!(stack, vec![ValueType::String("hi".to_string())]);
}

#[test]
fn pop_push_restores_boolean() {
    let (stack, _) = run_source("@entry:\npsh true\npop $x\npsh $x").unwrap();
    assert_eq!(stack, vec![ValueType::Boolean(true)]);
}

#[test]
fn pop_push_restores_float() {
    let (stack, _) = run_source("@entry:\npsh 3.5\npop $x\npsh $x").unwrap();
    assert_eq!(stack, vec![ValueType::Float("3.5".to_string())]);
}

#[test]
fn pop_push_restores_buffer_ref() {
    let (stack, _) = run_source("@entry:\nalc *b, 4\npsh *b\npop $x\npsh $x").unwrap();
    assert_eq!(stack, vec![ValueType::Buffer("*b".to_string())]);
}

#[test]
fn run_and_ret_resume_after_call() {
    let (stack, code) = run_source(
        "@entry:\npsh 1\nrun @f\npsh 3\nret\n@f:\npsh 2\nret",
    )
    .unwrap();
    assert_eq!(stack, vec![ValueType::Integer(1), ValueType::Integer(2)]);
    assert_eq!(code, 3);
}

#[test]
fn missing_entry_fails_assembly() {
    let (kind, msg) = run_source("psh 1").unwrap_err();
    assert_eq!(kind, ErrorKind::AssemblyError);
    assert_eq!(msg, "Parser: No @entry function found".to_string());
}

#[test]
fn end_to_end_add_and_exit() {
    let (stack, code) = run_source("@entry:\npsh 2\npsh 3\nadd\nret").unwrap();
    assert_eq!(code, 5);
    assert!(stack.is_empty());
}

#[test]
fn undeclared_buffer_fails_assembly() {
    let (kind, msg) = run_source("@entry:\npsh *x").unwrap_err();
    assert_eq!(kind, ErrorKind::AssemblyError);
    assert_eq!(msg, "Buffer *x not found".to_string());
}

#[test]
fn undeclared_variable_fails_assembly() {
    let (kind, _) = run_source("@entry:\npsh $y").unwrap_err();
    assert_eq!(kind, ErrorKind::AssemblyError);
}

#[test]
fn duplicate_label_fails_assembly() {
    let (kind, _) = run_source("@entry:\n.a:\n.a:").unwrap_err();
    assert_eq!(kind, ErrorKind::AssemblyError);
}

#[test]
fn typ_renders_integer_as_string() {
    let (stack, _) = run_source("@entry:\npsh 5\ntyp str").unwrap();
    assert_eq!(stack, vec![ValueType::String("5".to_string())]);
}

#[test]
fn typ_parses_string_as_integer() {
    let (stack, _) = run_source("@entry:\npsh \"42\"\ntyp int").unwrap();
    assert_eq!(stack, vec![ValueType::Integer(42)]);
}

#[test]
fn typ_parses_bool_text() {
    let (stack, _) = run_source("@entry:\npsh \"true\"\ntyp bool").unwrap();
    assert_eq!(stack, vec![ValueType::Boolean(true)]);
}

#[test]
fn typ_rejects_non_numeric_text() {
    let (kind, _) = run_source("@entry:\npsh \"xy\"\ntyp int").unwrap_err();
    assert_eq!(kind, ErrorKind::InvalidCast);
}

#[test]
fn typ_decodes_buffer_text() {
    let tokens = lex("@entry:\nalc *b, 3\npsh *b\ntyp str".to_string()).unwrap();
    let parsed = parse(tokens).unwrap();
    let mut vm = Vm::new(parsed).unwrap();
    // Execute the function marker and the allocation.
    assert_eq!(vm.step(), StepResult::Continue);
    assert_eq!(vm.step(), StepResult::Continue);
    // Write text with a trailing zero byte into the buffer, as a syscall
    // would.
    assert!(vm.set_buffer_data(&"*b".to_string(), vec![104, 105, 0]));
    assert_eq!(vm.step(), StepResult::Continue);
    assert_eq!(vm.step(), StepResult::Continue);
    assert_eq!(vm.clone_stack(), vec![ValueType::String("hi".to_string())]);
}

#[test]
fn jnz_branches_on_truthy() {
    let (stack, _) = run_source("@entry:\npsh 1\njnz .t\npsh 9\n.t:\npsh 7").unwrap();
    assert_eq!(stack, vec![ValueType::Integer(7)]);
}

#[test]
fn jzr_branches_on_falsy_string() {
    let (stack, _) = run_source("@entry:\npsh \"\"\njzr .t\npsh 9\n.t:\npsh 7").unwrap();
    assert_eq!(stack, vec![ValueType::Integer(7)]);
}

#[test]
fn cmp_pushes_equality() {
    let (stack, _) = run_source("@entry:\npsh 1\npsh 1\ncmp").unwrap();
    assert_eq!(stack, vec![ValueType::Boolean(true)]);
}

#[test]
fn cmp_mismatched_tags_error() {
    let (kind, _) = run_source("@entry:\npsh 1\npsh \"1\"\ncmp").unwrap_err();
    assert_eq!(kind, ErrorKind::TypeMismatch);
}

#[test]
fn rot_swaps_top_two() {
    let (stack, _) = run_source("@entry:\npsh 1\npsh 2\nrot").unwrap();
    assert_eq!(stack, vec![ValueType::Integer(2), ValueType::Integer(1)]);
}

#[test]
fn dup_copies_top() {
    let (stack, _) = run_source("@entry:\npsh 1\ndup").unwrap();
    assert_eq!(stack, vec![ValueType::Integer(1), ValueType::Integer(1)]);
}

#[test]
fn mod_takes_remainder() {
    let (stack, _) = run_source("@entry:\npsh 7\npsh 3\nmod").unwrap();
    assert_eq!(stack, vec![ValueType::Integer(1)]);
}

#[test]
fn float_addition_through_requests() {
    let (stack, _) = run_source("@entry:\npsh 1.5\npsh 2.25\nadd").unwrap();
    assert_eq!(stack, vec![ValueType::Float("3.75".to_string())]);
}

#[test]
fn float_exit_code_through_requests() {
    let (_, code) = run_source("@entry:\npsh 6.9\nret").unwrap();
    assert_eq!(code, 6);
}

#[test]
fn syscall_request_pushes_answer() {
    let (stack, _) = run_source("@entry:\npsh 39\nsys").unwrap();
    assert_eq!(stack, vec![ValueType::Integer(1234)]);
}

#[test]
fn dlc_unbinds_variable() {
    let (kind, _) = run_source("@entry:\npsh 1\npop $x\ndlc $x\npsh $x").unwrap_err();
    assert_eq!(kind, ErrorKind::AssemblyError);
}

#[test]
fn overflowing_integer_literal_fails_lexing() {
    let (kind, msg) = run_source("@entry:\npsh 2147483648").unwrap_err();
    assert_eq!(kind, ErrorKind::LexError);
    assert_eq!(msg, "Invalid integer: '2147483648'".to_string());
}

#[test]
fn invalid_float_literal_fails_lexing() {
    let (kind, msg) = run_source("@entry:\npsh 1.2.3").unwrap_err();
    assert_eq!(kind, ErrorKind::LexError);
    assert_eq!(msg, "Invalid float: '1.2.3'".to_string());
}

#[test]
fn string_escapes_are_decoded() {
    let tokens = lex("psh \"a\\nb\"".to_string()).unwrap();
    assert_eq!(tokens[1].value, TokenValue::String("a\nb".to_string()));
}

#[test]
fn debug_symbol_lexes_to_token() {
    let tokens = lex("<main.zk:3:7>".to_string()).unwrap();
    assert_eq!(tokens.len(), 1);
    assert_eq!(
        tokens[0].value,
        TokenValue::DebugSymbol(DebugSymbol { path: "main.zk".to_string(), line: 3, col: 7 })
    );
    assert_eq!(
        tokens[0].value.as_debug_symbol(),
        Ok(DebugSymbol { path: "main.zk".to_string(), line: 3, col: 7 })
    );
}

#[test]
fn trim_vec_drops_zero_bytes() {
    assert_eq!(zasm::evaluator::trim_vec(vec![1, 0, 2, 0]), vec![1, 2]);
}

#[test]
fn could_be_finds_characters() {
    assert!(zasm::lexer::could_be(':', ":,"));
    assert!(!zasm::lexer::could_be(';', ":,"));
}

#[test]
fn until_collects_identifier_tail() {
    let chars: Vec<char> = "abc ".chars().collect();
    let (text, end) = zasm::lexer::until(&chars, 0, zasm::lexer::CharPred::IdentTail);
    assert_eq!(text, "abc".to_string());
    assert_eq!(end, 3);
}

#[test]
fn to_int_converts_scalars() {
    assert_eq!(ValueType::Integer(7).to_int(), Ok(7));
    assert_eq!(ValueType::Boolean(true).to_int(), Ok(1));
    assert_eq!(ValueType::String("19".to_string()).to_int(), Ok(19));
    assert!(ValueType::Buffer("*b".to_string()).to_int().is_err());
}

#[test]
fn wrapping_subtraction_on_overflow() {
    let (_, code) = run_source("@entry:\npsh 2147483647\npsh 1\nsub\nret").unwrap();
    assert_eq!(code, 2147483646);
    let (stack, _) = run_source("@entry:\npsh 0\npsh 2147483647\nsub\npsh 1\nsub").unwrap();
    // 0 - i32::MAX wraps nowhere; subtracting one more from i32::MIN + 1 is
    // still in range.
    assert_eq!(
        stack,
        vec![ValueType::Integer(-2147483648)]
    );
}

#[test]
fn unbound_variable_fails_at_runtime() {
    // `$x` is declared by a `pop` on a branch not taken, so assembly
    // accepts the later push, and the lookup fails only at run time.
    let (kind, _) =
        run_source("@entry:\npsh 1\njnz .skip\npop $x\n.skip:\npsh $x").unwrap_err();
    assert_eq!(kind, ErrorKind::UnboundVariable);
}

#[test]
fn stale_buffer_reference_fails_at_runtime() {
    // A buffer reference saved in a variable survives the buffer's
    // deallocation; the lookup by name is the enforcement of last resort.
    let (kind, _) = run_source(
        "@entry:\nalc *b, 4\npsh *b\npop $v\ndlc *b\npsh $v\nlen",
    )
    .unwrap_err();
    assert_eq!(kind, ErrorKind::UnknownBuffer);
}

#[test]
fn error_render_shows_position() {
    let err = lex("psh ?".to_string()).unwrap_err();
    assert_eq!(err.render(), "Unexpected character: '?' near 1:4".to_string());
}

#[test]
fn sub_on_strings_is_type_error() {
    let (kind, _) = run_source("@entry:\npsh \"ab\"\npsh \"b\"\nsub").unwrap_err();
    assert_eq!(kind, ErrorKind::TypeMismatch);
}
