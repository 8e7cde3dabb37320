use cyclang::ast::{Expression, Type};
use cyclang::compiler::{front_end, program_steps_in_range, program_supported, steps_in_range_exec, CompileError};
use cyclang::desugar::desugar_program;
use cyclang::lexer::{ParseError, ParseErrorKind};
use cyclang::parser::parse_cyclo_program;
use cyclang::semantic::{RequireMainFunction, SemanticAnalyzer, SemanticError, ValidationRule};
use cyclang::type_resolver::TypeError;
use cyclang::typed_ast::{ResolvedType, TypedExpression};

fn parse(src: &str) -> Vec<Expression> {
    parse_cyclo_program(src).expect("the source parses")
}

#[test]
fn desugar_rewrites_a_for_loop() {
    let exprs = parse("for (let i = 0; i < 3; i++) { print(i); }");
    let out = desugar_program(exprs);
    let incr = Expression::LetStmt(
        "i".to_string(),
        Type::Unspecified,
        Box::new(Expression::Binary(
            Box::new(Expression::Variable("i".to_string())),
            "+".to_string(),
            Box::new(Expression::Number(1)),
        )),
    );
    let expected = Expression::BlockStmt(vec![
        Expression::LetStmt("i".to_string(), Type::i32, Box::new(Expression::Number(0))),
        Expression::WhileStmt(
            Box::new(Expression::Binary(
                Box::new(Expression::Variable("i".to_string())),
                "<".to_string(),
                Box::new(Expression::Number(3)),
            )),
            Box::new(Expression::BlockStmt(vec![
                Expression::Print(Box::new(Expression::Variable("i".to_string()))),
                incr,
            ])),
        ),
    ]);
    assert_eq!(out, vec![expected]);
}

#[test]
fn desugar_counts_down_for_negative_steps() {
    let exprs = parse("for (let i = 9; i > 0; i--) { print(i); }");
    let out = desugar_program(exprs);
    match &out[0] {
        Expression::BlockStmt(stmts) => match &stmts[1] {
            Expression::WhileStmt(cond, _) => match &**cond {
                Expression::Binary(_, op, _) => assert_eq!(op, ">"),
                other => panic!("unexpected condition {:?}", other),
            },
            other => panic!("unexpected statement {:?}", other),
        },
        other => panic!("unexpected node {:?}", other),
    }
}

#[test]
fn desugar_leaves_code_without_for_unchanged() {
    let src = "fn main() { let x = 1; while (x < 3) { x = x + 1; } if (x == 3) { print(x); } }";
    let exprs = parse(src);
    let out = desugar_program(parse(src));
    assert_eq!(out, exprs);
}

#[test]
fn desugar_twice_is_desugar_once() {
    let src = "fn main() { for (let i = 0; i < 2; i++) { print(i); } }";
    let once = desugar_program(parse(src));
    let twice = desugar_program(desugar_program(parse(src)));
    assert_eq!(once, twice);
}

#[test]
fn steps_check_accepts_parsed_loops_and_refuses_the_minimum() {
    assert!(program_steps_in_range(&parse("for (let i = 0; i < 2; i++) { print(i); }")));
    let bad = Expression::ForStmt(
        "i".to_string(),
        0,
        1,
        i32::MIN,
        Box::new(Expression::BlockStmt(vec![])),
    );
    assert!(!steps_in_range_exec(&bad));
}

#[test]
fn validation_requires_main() {
    let analyzer = SemanticAnalyzer::new();
    let no_main = vec![(TypedExpression::Number32 { value: 1 }, ResolvedType::I32)];
    match analyzer.validate_program(&no_main) {
        Err(SemanticError::RuleFailed { rule, reason }) => {
            assert_eq!(rule, "require-main-function");
            assert_eq!(reason, "Program must contain a 'main' function as the entry point");
        }
        Ok(()) => panic!("a program without main was accepted"),
    }
    let with_main = vec![(
        TypedExpression::FuncStmt {
            name: "main".to_string(),
            args: vec![],
            return_type: ResolvedType::Void,
            body: Box::new(TypedExpression::BlockStmt { statements: vec![] }),
        },
        ResolvedType::Void,
    )];
    assert!(analyzer.validate_program(&with_main).is_ok());
    assert!(SemanticAnalyzer::default_rules().validate_program(&with_main).is_ok());
}

#[test]
fn require_main_rule_by_itself() {
    let rule = RequireMainFunction;
    assert_eq!(rule.name(), "require-main-function");
    assert!(rule.validate(&[]).is_err());
}

#[test]
fn analyze_accepts_every_node() {
    let mut analyzer = SemanticAnalyzer::new();
    let e = TypedExpression::Binary {
        left: Box::new(TypedExpression::Number32 { value: 1 }),
        right: Box::new(TypedExpression::Number64 { value: 2 }),
        op: "+".to_string(),
    };
    assert!(analyzer.analyze(&e).is_ok());
    assert!(analyzer.analyze_number(&TypedExpression::Number32 { value: 3 }).is_ok());
    assert!(analyzer.analyze_call(&TypedExpression::BreakStmt).is_ok());
    assert!(analyzer
        .analyse_binary(&TypedExpression::BreakStmt, &"-".to_string(), &TypedExpression::BreakStmt)
        .is_ok());
}

#[test]
fn front_end_accepts_a_program_with_main() {
    let exprs = parse("fn main() { let x = 2; print(x * 3); }");
    let typed = front_end(exprs).expect("the program checks");
    assert_eq!(typed.len(), 1);
    assert!(matches!(typed[0].1, ResolvedType::Function(_, _)));
}

#[test]
fn front_end_desugars_before_resolving() {
    let exprs = parse("fn main() { for (let i = 0; i < 3; i++) { print(i); } }");
    assert!(front_end(exprs).is_ok());
}

#[test]
fn front_end_reports_type_errors() {
    let exprs = parse("fn main() { print(y); }");
    assert!(matches!(front_end(exprs), Err(CompileError::Type(TypeError::UndefinedVariable(_)))));
}

#[test]
fn front_end_reports_missing_main() {
    let exprs = parse("print(1);");
    assert!(matches!(front_end(exprs), Err(CompileError::Semantic(_))));
}

#[test]
fn readme_fibonacci_checks() {
    let src = "fn fib(i32 n) -> i32 {\n    if (n < 2) {\n        return n;\n    }\n    return fib(n - 1) + fib(n - 2);\n}\nprint(fib(20));";
    let exprs = parse(src);
    assert_eq!(exprs.len(), 2);
    assert!(matches!(&exprs[0], Expression::FuncStmt(name, _, Type::i32, _) if name == "fib"));
}

#[test]
fn parse_error_kinds() {
    assert_eq!(
        parse_cyclo_program("let x = #;"),
        Err(ParseError { offset: 8, kind: ParseErrorKind::UnexpectedCharacter })
    );
    assert_eq!(
        parse_cyclo_program("print(\"abc);"),
        Err(ParseError { offset: 6, kind: ParseErrorKind::UnterminatedString })
    );
    assert_eq!(
        parse_cyclo_program("let = 5;"),
        Err(ParseError { offset: 4, kind: ParseErrorKind::UnexpectedToken })
    );
    assert_eq!(
        parse_cyclo_program("99999999999999999999;"),
        Err(ParseError { offset: 0, kind: ParseErrorKind::InvalidNumber })
    );
}

#[test]
fn number_literals_pick_their_width() {
    assert_eq!(parse("2147483647;"), vec![Expression::Number(2147483647)]);
    assert_eq!(parse("2147483648;"), vec![Expression::Number64(2147483648)]);
    assert_eq!(parse("-2147483648;"), vec![Expression::Number(-2147483648)]);
    assert_eq!(parse("-9223372036854775808;"), vec![Expression::Number64(i64::MIN)]);
    assert!(parse_cyclo_program("9223372036854775808;").is_err());
}

#[test]
fn binary_operators_nest_to_the_right() {
    let out = parse("1 - 2 - 3;");
    let expected = Expression::Binary(
        Box::new(Expression::Number(1)),
        "-".to_string(),
        Box::new(Expression::Binary(
            Box::new(Expression::Number(2)),
            "-".to_string(),
            Box::new(Expression::Number(3)),
        )),
    );
    assert_eq!(out, vec![expected]);
}

#[test]
fn empty_program_and_comments() {
    assert_eq!(parse(""), vec![]);
    assert_eq!(parse("// nothing here\n;;"), vec![]);
}

#[test]
fn constructors_build_their_nodes() {
    assert_eq!(Expression::new_number(1), Expression::Number(1));
    assert_eq!(Expression::new_number64(2), Expression::Number64(2));
    assert_eq!(Expression::new_string("s".to_string()), Expression::String("s".to_string()));
    assert_eq!(Expression::new_bool(true), Expression::Bool(true));
    assert_eq!(Expression::new_nil(), Expression::Nil);
    assert_eq!(Expression::new_variable("v".to_string()), Expression::Variable("v".to_string()));
    assert_eq!(
        Expression::new_print_stmt(Expression::Nil),
        Expression::Print(Box::new(Expression::Nil))
    );
    assert_eq!(
        Expression::new_return_stmt(Expression::Nil),
        Expression::ReturnStmt(Box::new(Expression::Nil))
    );
    assert_eq!(
        Expression::new_if_stmt(Expression::Bool(true), Expression::Nil, None),
        Expression::IfStmt(Box::new(Expression::Bool(true)), Box::new(Expression::Nil), Box::new(None))
    );
    assert_eq!(
        Expression::new_list_index(Expression::Variable("a".to_string()), Expression::Number(0)),
        Expression::ListIndex(
            Box::new(Expression::Variable("a".to_string())),
            Box::new(Expression::Number(0))
        )
    );
}

#[test]
fn unsupported_nodes_are_found_before_resolution() {
    assert!(!program_supported(&parse("fn main() { nil; }")));
    assert!(!program_supported(&vec![Expression::BreakStmt]));
    assert!(!program_supported(&vec![Expression::FuncArg("a".to_string(), Type::i32)]));
    assert!(program_supported(&parse("fn main() { print(1); }")));
    // An earlier type error stops resolution before the `nil` is reached.
    assert!(program_supported(&parse("fn main() { print(y); nil; }")));
}

#[test]
fn parse_error_at_end_points_past_the_last_character() {
    let src = "let x = 1";
    match parse_cyclo_program(src) {
        Err(e) => {
            assert_eq!(e.offset, src.len());
            assert_eq!(e.kind, ParseErrorKind::UnexpectedToken);
        }
        Ok(_) => panic!("a statement without its semicolon parses"),
    }
}

#[test]
fn semantic_error_message_names_the_rule() {
    let analyzer = SemanticAnalyzer::new();
    let no_main = vec![(TypedExpression::Number32 { value: 1 }, ResolvedType::I32)];
    let err = analyzer.validate_program(&no_main).expect_err("a program without main is refused");
    assert_eq!(err.message(), "Validation rule 'require-main-function' failed");
}
