use jscom::codegen::{CallInst, CodegenError, Module, Operand};
use jscom::lexer::{tokenize, LexError, Token};
use jscom::nodes::Node;
use jscom::parser::{parse_program, ParseError};
use jscom::target::{target_triple_from_version, CodeModel, OptLevel, RelocMode, TargetOptions};
use jscom::{compile, CompileError};

fn names(m: &Module) -> Vec<String> {
    m.functions.iter().map(|f| f.name.clone()).collect()
}

fn calls(m: &Module, i: usize) -> Vec<CallInst> {
    m.functions[i].body.clone().expect("a defined function")
}

fn ident(s: &str) -> Node {
    Node::Identifier { name: s.to_string() }
}

#[test]
fn hello_world_program_has_three_functions() {
    let m = compile("function foo(message) { logger(message); } foo('Hello World');").unwrap();
    assert_eq!(names(&m), vec!["logger", "main", "foo"]);
    assert!(m.functions[0].body.is_none());
    assert_eq!(m.functions[0].params, vec!["message".to_string()]);
    assert_eq!(calls(&m, 1), vec![CallInst { callee: 2, args: vec![Operand::Global(0)] }]);
    assert_eq!(calls(&m, 2), vec![CallInst { callee: 0, args: vec![Operand::Param(0)] }]);
    assert_eq!(m.strings, vec!["Hello World".to_string()]);
}

#[test]
fn single_function_with_several_parameters() {
    let m = compile("function f(a, b, c) { logger(b); } f('x', 'y', 'z');").unwrap();
    assert_eq!(m.functions.len(), 3);
    assert_eq!(m.functions[2].params.len(), 3);
    assert_eq!(calls(&m, 2), vec![CallInst { callee: 0, args: vec![Operand::Param(1)] }]);
    assert_eq!(calls(&m, 1).len(), 1);
    assert_eq!(calls(&m, 1)[0].args, vec![Operand::Global(0), Operand::Global(1), Operand::Global(2)]);
}

#[test]
fn compiling_twice_gives_the_same_module() {
    let src = "function foo(message) { logger(message); } foo('Hello World');";
    assert_eq!(compile(src).unwrap(), compile(src).unwrap());
}

#[test]
fn forward_reference_fails() {
    let r = compile("foo('x'); function foo(a) { logger(a); }");
    assert_eq!(r, Err(CompileError::Codegen(CodegenError::UndeclaredFunction)));
}

#[test]
fn assignment_in_function_body_aborts() {
    let r = compile("function f(a) { x = 1; } f('q');");
    assert_eq!(r, Err(CompileError::Codegen(CodegenError::UnsupportedStatement)));
}

#[test]
fn top_level_assignment_aborts() {
    assert_eq!(compile("x = 1;"), Err(CompileError::Codegen(CodegenError::UnsupportedStatement)));
}

#[test]
fn equal_literals_are_not_interned() {
    let m = compile("logger('x'); logger('x');").unwrap();
    assert_eq!(m.strings, vec!["x".to_string(), "x".to_string()]);
    assert_eq!(
        calls(&m, 1),
        vec![
            CallInst { callee: 0, args: vec![Operand::Global(0)] },
            CallInst { callee: 0, args: vec![Operand::Global(1)] },
        ]
    );
}

#[test]
fn integer_argument_is_left_out() {
    let m = compile("logger(5);").unwrap();
    assert_eq!(calls(&m, 1), vec![CallInst { callee: 0, args: vec![] }]);
    assert!(m.strings.is_empty());
}

#[test]
fn unbound_identifier_fails() {
    assert_eq!(compile("logger(zz);"), Err(CompileError::Codegen(CodegenError::UnboundIdentifier)));
}

#[test]
fn too_many_arguments_fails() {
    assert_eq!(compile("logger('a', 'b');"), Err(CompileError::Codegen(CodegenError::TooManyArguments)));
}

#[test]
fn property_chain_callee_is_rejected() {
    assert_eq!(compile("a.b('x');"), Err(CompileError::Codegen(CodegenError::UnsupportedCallee)));
}

#[test]
fn unnamed_function_statement_is_rejected() {
    assert_eq!(
        compile("function (a) { logger(a); }"),
        Err(CompileError::Codegen(CodegenError::UnsupportedStatement))
    );
}

#[test]
fn generate_needs_a_program() {
    let mut m = Module::new();
    assert_eq!(m.generate(Node::Empty), Err(CodegenError::MissingProgram));
}

#[test]
fn nested_declaration_is_hoisted() {
    let m = compile("function outer(a) { function inner(b) { logger(b); } inner(a); } outer('z');").unwrap();
    assert_eq!(names(&m), vec!["logger", "main", "outer", "inner"]);
    assert_eq!(calls(&m, 2), vec![CallInst { callee: 3, args: vec![Operand::Param(0)] }]);
    assert_eq!(calls(&m, 3), vec![CallInst { callee: 0, args: vec![Operand::Param(0)] }]);
}

#[test]
fn function_may_call_itself() {
    let m = compile("function f(a) { f(a); }").unwrap();
    assert_eq!(calls(&m, 2), vec![CallInst { callee: 2, args: vec![Operand::Param(0)] }]);
}

#[test]
fn duplicate_names_resolve_to_the_first() {
    let m = compile("function f(a, a) { logger(a); } function f(b) { logger(b); } f('k');").unwrap();
    assert_eq!(names(&m), vec!["logger", "main", "f", "f"]);
    assert_eq!(calls(&m, 2), vec![CallInst { callee: 0, args: vec![Operand::Param(0)] }]);
    assert_eq!(calls(&m, 1), vec![CallInst { callee: 2, args: vec![Operand::Global(0)] }]);
}

#[test]
fn empty_source_gives_stub_and_empty_main() {
    let m = compile("").unwrap();
    assert_eq!(names(&m), vec!["logger", "main"]);
    assert!(calls(&m, 1).is_empty());
}

#[test]
fn tokens_of_a_call() {
    let t = tokenize("foo.bar('hi there', 42);").unwrap();
    assert_eq!(
        t,
        vec![
            Token::Ident("foo".to_string()),
            Token::Dot,
            Token::Ident("bar".to_string()),
            Token::LParen,
            Token::Str("hi there".to_string()),
            Token::Comma,
            Token::Int("42".to_string()),
            Token::RParen,
            Token::Semi,
        ]
    );
}

#[test]
fn unexpected_character_is_reported() {
    assert_eq!(tokenize("ab #"), Err(LexError::UnexpectedChar(3)));
    assert_eq!(compile("logger(#);"), Err(CompileError::Lex(LexError::UnexpectedChar(7))));
}

#[test]
fn unterminated_string_is_reported() {
    assert_eq!(tokenize("logger('abc);"), Err(LexError::UnterminatedString(7)));
}

#[test]
fn integer_out_of_range_is_a_syntax_error() {
    assert_eq!(compile("logger(99999999999);"), Err(CompileError::Parse(ParseError::IntOutOfRange(2))));
    let m = compile("logger(2147483647);").unwrap();
    assert_eq!(calls(&m, 1)[0].args.len(), 0);
}

#[test]
fn missing_semicolon_is_a_syntax_error() {
    assert_eq!(compile("logger('a')"), Err(CompileError::Parse(ParseError::UnexpectedEnd)));
    assert_eq!(compile("logger('a') x"), Err(CompileError::Parse(ParseError::UnexpectedToken(4))));
}

#[test]
fn assignment_with_expression_parses() {
    let t = tokenize("a.b = 1 + 2;").unwrap();
    let p = parse_program(&t).unwrap();
    let expected = Node::Program {
        body: vec![Node::Assignment {
            lhs: Box::new(Node::ObjectExpression { object: Box::new(ident("a")), property: Box::new(ident("b")) }),
            rhs: Box::new(Node::BinaryExpr {
                lhs: Box::new(Node::Int(1)),
                rhs: Box::new(Node::Int(2)),
                operator: "+".to_string(),
            }),
        }],
    };
    assert_eq!(p, expected);
}

#[test]
fn unary_and_single_term_expressions_parse() {
    let p = parse_program(&tokenize("x = -(y); z = 'w';").unwrap()).unwrap();
    let expected = Node::Program {
        body: vec![
            Node::Assignment {
                lhs: Box::new(ident("x")),
                rhs: Box::new(Node::UnaryExpr { operator: "-".to_string(), rhs: Box::new(ident("y")) }),
            },
            Node::Assignment { lhs: Box::new(ident("z")), rhs: Box::new(Node::String("w".to_string())) },
        ],
    };
    assert_eq!(p, expected);
}

#[test]
fn operator_without_right_term_gives_empty_rhs() {
    let p = parse_program(&tokenize("x = a + ;").unwrap()).unwrap();
    let expected = Node::Program {
        body: vec![Node::Assignment {
            lhs: Box::new(ident("x")),
            rhs: Box::new(Node::BinaryExpr {
                lhs: Box::new(ident("a")),
                rhs: Box::new(Node::Empty),
                operator: "+".to_string(),
            }),
        }],
    };
    assert_eq!(p, expected);
}

#[test]
fn hello_world_parses_to_expected_tree() {
    let src = "function foo(message) { logger(message); } foo('Hello World');";
    let p = parse_program(&tokenize(src).unwrap()).unwrap();
    let expected = Node::Program {
        body: vec![
            Node::NamedFunction {
                id: Box::new(ident("foo")),
                parameters: vec![ident("message")],
                body: vec![Node::FuncCall { callee: Box::new(ident("logger")), arguments: vec![ident("message")] }],
            },
            Node::FuncCall {
                callee: Box::new(ident("foo")),
                arguments: vec![Node::String("Hello World".to_string())],
            },
        ],
    };
    assert_eq!(p, expected);
}

#[test]
fn dotted_chain_nests_to_the_right() {
    let p = parse_program(&tokenize("a.b.c(1, 'two', d);").unwrap()).unwrap();
    let expected = Node::Program {
        body: vec![Node::FuncCall {
            callee: Box::new(Node::ObjectExpression {
                object: Box::new(ident("a")),
                property: Box::new(Node::ObjectExpression { object: Box::new(ident("b")), property: Box::new(ident("c")) }),
            }),
            arguments: vec![Node::Int(1), Node::String("two".to_string()), ident("d")],
        }],
    };
    assert_eq!(p, expected);
}

#[test]
fn parameters_keep_duplicates_in_order() {
    let p = parse_program(&tokenize("function (a, b, a) { }").unwrap()).unwrap();
    let expected = Node::Program {
        body: vec![Node::UnnamedFunction { parameters: vec![ident("a"), ident("b"), ident("a")], body: vec![] }],
    };
    assert_eq!(p, expected);
}

#[test]
fn bad_parameter_list_is_a_syntax_error() {
    assert_eq!(parse_program(&tokenize("function f(a,) { }").unwrap()), Err(ParseError::UnexpectedToken(5)));
    assert_eq!(parse_program(&tokenize("function f(a b) { }").unwrap()), Err(ParseError::UnexpectedToken(4)));
}

#[test]
fn clone_copies_the_tree() {
    let p = parse_program(&tokenize("function f(a) { logger(a); } f('x');").unwrap()).unwrap();
    assert_eq!(p.clone(), p);
}

#[test]
fn declaration_parses_to_named_function() {
    let p = parse_program(&tokenize("function foo(a, b) { logger(a); }").unwrap()).unwrap();
    let expected = Node::Program {
        body: vec![Node::NamedFunction {
            id: Box::new(ident("foo")),
            parameters: vec![ident("a"), ident("b")],
            body: vec![Node::FuncCall { callee: Box::new(ident("logger")), arguments: vec![ident("a")] }],
        }],
    };
    assert_eq!(p, expected);
}

#[test]
fn triple_from_version_banner() {
    let banner = "clang version 15.0.0\nTarget: x86_64-pc-linux-gnu\nThread model: posix\n";
    assert_eq!(target_triple_from_version(banner), Some("x86_64-pc-linux-gnu".to_string()));
}

#[test]
fn triple_uses_first_target_line() {
    let banner = "x Target: no\nTarget:\taarch64-apple-darwin  extra\nTarget: other\n";
    assert_eq!(target_triple_from_version(banner), Some("aarch64-apple-darwin".to_string()));
}

#[test]
fn triple_missing() {
    assert_eq!(target_triple_from_version("clang version 15\nThread model: posix"), None);
    assert_eq!(target_triple_from_version("Target:"), None);
    assert_eq!(target_triple_from_version(""), None);
}

#[test]
fn target_options_are_fixed() {
    let o = TargetOptions::new("x86_64-pc-linux-gnu".to_string());
    assert_eq!(o.triple, "x86_64-pc-linux-gnu");
    assert_eq!(o.cpu, "generic");
    assert_eq!(o.features, "");
    assert_eq!(o.opt_level, OptLevel::Aggressive);
    assert_eq!(o.reloc, RelocMode::Pic);
    assert_eq!(o.code_model, CodeModel::Default);
}

