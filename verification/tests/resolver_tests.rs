use cyclang::ast::{Expression, Type};
use cyclang::parser::parse_cyclo_program;
use cyclang::type_resolver::{TypeError, TypeResolver};
use cyclang::typed_ast::{ResolvedType, TypedExpression};

fn resolve_source(src: &str) -> Result<Vec<(TypedExpression, ResolvedType)>, TypeError> {
    let exprs = parse_cyclo_program(src).expect("the source parses");
    let mut resolver = TypeResolver::new();
    let mut out = Vec::new();
    for e in &exprs {
        out.push(resolver.resolve_expression(e)?);
    }
    Ok(out)
}

fn last_type(src: &str) -> ResolvedType {
    let mut typed = resolve_source(src).expect("the source resolves");
    typed.pop().expect("one statement at least").1
}

#[test]
fn lookup_after_set_gives_the_type() {
    let mut r = TypeResolver::new();
    r.set_variable("x", ResolvedType::I32);
    assert_eq!(r.get_variable("x"), Some(&ResolvedType::I32));
    r.set_variable("x", ResolvedType::Bool);
    assert_eq!(r.get_variable("x"), Some(&ResolvedType::Bool));
    assert_eq!(r.get_variable("y"), None);
}

#[test]
fn closing_a_scope_forgets_its_declarations() {
    let mut r = TypeResolver::new();
    r.set_variable("outer", ResolvedType::String);
    r.incr_depth();
    r.set_variable("inner", ResolvedType::I64);
    assert_eq!(r.get_variable("inner"), Some(&ResolvedType::I64));
    r.decr_depth();
    assert_eq!(r.get_variable("inner"), None);
    assert_eq!(r.get_variable("outer"), Some(&ResolvedType::String));
}

#[test]
fn literals_have_their_types() {
    assert_eq!(last_type("5;"), ResolvedType::I32);
    assert_eq!(last_type("5000000000;"), ResolvedType::I64);
    assert_eq!(last_type("\"hi\";"), ResolvedType::String);
    assert_eq!(last_type("true;"), ResolvedType::Bool);
}

#[test]
fn binary_operation_types() {
    assert_eq!(last_type("1 + 2;"), ResolvedType::I32);
    assert_eq!(last_type("1 + 5000000000;"), ResolvedType::I64);
    assert_eq!(last_type("1 < 2;"), ResolvedType::Bool);
    assert_eq!(last_type("\"a\" == \"b\";"), ResolvedType::Bool);
    assert_eq!(
        last_type("\"a\" + \"b\";"),
        ResolvedType::Binary(
            Box::new(ResolvedType::String),
            "+".to_string(),
            Box::new(ResolvedType::String)
        )
    );
}

#[test]
fn let_declares_and_assignment_keeps_type() {
    assert_eq!(last_type("let x = 5; x;"), ResolvedType::I32);
    assert_eq!(last_type("let x: i64 = 5000000000; x = 6000000000;"), ResolvedType::Void);
    assert_eq!(
        last_type("let xs: List<i32> = [1, 2]; xs;"),
        ResolvedType::List(Box::new(ResolvedType::I32))
    );
}

#[test]
fn functions_get_function_types() {
    let t = last_type("fn add(i32 x, i32 y) -> i32 { return x + y; }");
    assert_eq!(
        t,
        ResolvedType::Function(vec![ResolvedType::I32, ResolvedType::I32], Box::new(ResolvedType::I32))
    );
}

#[test]
fn block_scope_is_closed_after_the_block() {
    match resolve_source("{ let inner = 1; } inner;") {
        Err(TypeError::UndefinedVariable(name)) => assert_eq!(name, "inner"),
        other => panic!("unexpected: {:?}", other.map(|v| v.len())),
    }
}

#[test]
fn error_undefined_variable() {
    assert!(matches!(resolve_source("y;"), Err(TypeError::UndefinedVariable(_))));
}

#[test]
fn error_reassign_mismatch() {
    assert!(matches!(
        resolve_source("let x = 1; x = true;"),
        Err(TypeError::ReassignMismatch(_, ResolvedType::I32, ResolvedType::Bool))
    ));
}

#[test]
fn error_declaration_mismatch() {
    assert!(matches!(
        resolve_source("let x: bool = 1;"),
        Err(TypeError::DeclarationMismatch(_, ResolvedType::Bool, ResolvedType::I32))
    ));
}

#[test]
fn error_if_condition_not_bool() {
    assert!(matches!(
        resolve_source("if (1) { print(1); }"),
        Err(TypeError::IfConditionNotBool(ResolvedType::I32))
    ));
}

#[test]
fn error_while_condition_not_bool() {
    assert!(matches!(
        resolve_source("while (\"s\") { print(1); }"),
        Err(TypeError::WhileConditionNotBool(ResolvedType::String))
    ));
}

#[test]
fn error_empty_list() {
    assert!(matches!(resolve_source("let xs = [];"), Err(TypeError::EmptyList)));
}

#[test]
fn error_list_element_mismatch() {
    assert!(matches!(
        resolve_source("let xs = [1, true];"),
        Err(TypeError::ListElementMismatch(ResolvedType::I32, ResolvedType::Bool))
    ));
}

#[test]
fn error_index_non_list() {
    assert!(matches!(
        resolve_source("let x = 1; let y = x[0];"),
        Err(TypeError::IndexNonList(ResolvedType::I32))
    ));
}

#[test]
fn error_index_not_i32() {
    assert!(matches!(
        resolve_source("let xs = [1]; let y = xs[true];"),
        Err(TypeError::IndexNotI32(ResolvedType::Bool))
    ));
}

#[test]
fn error_assign_element_mismatch() {
    assert!(matches!(
        resolve_source("let xs = [1]; xs[0] = true;"),
        Err(TypeError::AssignElementMismatch(ResolvedType::Bool, ResolvedType::I32))
    ));
}

#[test]
fn error_expected_func_arg() {
    let f = Expression::new_func_stmt(
        "f".to_string(),
        vec![Expression::Number(1)],
        Type::Unspecified,
        Expression::BlockStmt(vec![]),
    );
    let mut r = TypeResolver::new();
    assert!(matches!(r.resolve_expression(&f), Err(TypeError::ExpectedFuncArg)));
}

#[test]
fn error_len_non_list() {
    let e = Expression::Len(Box::new(Expression::Number(3)));
    let mut r = TypeResolver::new();
    assert!(matches!(r.resolve_expression(&e), Err(TypeError::LenNonList(ResolvedType::I32))));
}


#[test]
fn len_of_list_is_i32() {
    let e = Expression::Len(Box::new(Expression::List(vec![Expression::Number(3)])));
    let mut r = TypeResolver::new();
    let (_, t) = r.resolve_expression(&e).expect("resolves");
    assert_eq!(t, ResolvedType::I32);
}

#[test]
fn a_parameter_named_like_an_outer_variable_removes_it_with_the_function_scope() {
    match resolve_source("let x = 1; fn f(i32 x) { print(x); } print(x);") {
        Err(TypeError::UndefinedVariable(name)) => assert_eq!(name, "x"),
        other => panic!("unexpected: {:?}", other.map(|v| v.len())),
    }
}

#[test]
fn resolving_keeps_the_scope_depth() {
    let mut r = TypeResolver::new();
    r.set_variable("top", ResolvedType::Bool);
    let exprs = parse_cyclo_program("{ let a = 1; { let b = a; } } fn g(i32 p) { let q = p; }").unwrap();
    for e in &exprs {
        r.resolve_expression(e).expect("resolves");
    }
    assert_eq!(r.get_variable("a"), None);
    assert_eq!(r.get_variable("p"), None);
    // Only the outermost scope is open: closing it forgets `top`.
    r.decr_depth();
    assert_eq!(r.get_variable("top"), None);
}

fn resolve_one(e: Expression) -> Result<(TypedExpression, ResolvedType), TypeError> {
    let mut r = TypeResolver::new();
    r.resolve_expression(&e)
}

fn message_of(e: Expression) -> String {
    resolve_one(e).expect_err("the expression is refused").message()
}

#[test]
fn message_undefined_variable() {
    assert_eq!(message_of(Expression::Variable("x".to_string())), "Undefined variable: x");
}

#[test]
fn message_declaration_mismatch() {
    let e = Expression::LetStmt("x".to_string(), Type::i64, Box::new(Expression::Number(5)));
    assert_eq!(message_of(e), "Type mismatch for variable 'x': declared as I64, but value is I32");
}

#[test]
fn message_reassign_mismatch() {
    let mut r = TypeResolver::new();
    let first = Expression::LetStmt("x".to_string(), Type::Unspecified, Box::new(Expression::Number(1)));
    assert!(r.resolve_expression(&first).is_ok());
    let again = Expression::LetStmt("x".to_string(), Type::Unspecified, Box::new(Expression::Number(2)));
    assert!(matches!(r.resolve_expression(&again), Ok((TypedExpression::AssignStmt { .. }, ResolvedType::Void))));
    let wrong = Expression::LetStmt("x".to_string(), Type::Unspecified, Box::new(Expression::Bool(true)));
    let err = r.resolve_expression(&wrong).expect_err("a bool does not fit an i32 variable");
    assert_eq!(err.message(), "Cannot reassign variable 'x' of type I32 to value of type Bool");
}

#[test]
fn message_conditions_must_be_boolean() {
    let block = || Box::new(Expression::BlockStmt(vec![]));
    let if_num = Expression::IfStmt(Box::new(Expression::Number(1)), block(), Box::new(None));
    assert_eq!(message_of(if_num), "If condition must be boolean, got I32");
    let while_num = Expression::WhileStmt(Box::new(Expression::Number(1)), block());
    assert_eq!(message_of(while_num), "While condition must be boolean, got I32");
}

#[test]
fn message_list_errors() {
    assert_eq!(message_of(Expression::List(vec![])), "Empty lists are not yet supported");
    let mixed = Expression::List(vec![Expression::Number(1), Expression::Bool(true)]);
    assert_eq!(message_of(mixed), "List elements must all have the same type. Expected I32, got Bool");
    let bad_index = Expression::ListIndex(
        Box::new(Expression::List(vec![Expression::Number(1)])),
        Box::new(Expression::Number64(0)),
    );
    assert_eq!(message_of(bad_index), "List index must be i32, got I64");
    let non_list = Expression::ListIndex(Box::new(Expression::Number(1)), Box::new(Expression::Number(0)));
    assert_eq!(message_of(non_list), "Cannot index into non-list type I32");
    let len_num = Expression::Len(Box::new(Expression::Number(3)));
    assert_eq!(message_of(len_num), "len() requires a list argument, got I32");
}

#[test]
fn message_assign_element_mismatch() {
    let mut r = TypeResolver::new();
    let decl = Expression::LetStmt(
        "xs".to_string(),
        Type::Unspecified,
        Box::new(Expression::List(vec![Expression::Number(1)])),
    );
    assert!(r.resolve_expression(&decl).is_ok());
    let store = Expression::ListAssign("xs".to_string(), Box::new(Expression::Number(0)), Box::new(Expression::Bool(false)));
    let err = r.resolve_expression(&store).expect_err("a bool does not fit an i32 list");
    assert_eq!(err.message(), "Cannot assign value of type Bool to list of type I32");
}

#[test]
fn message_expected_func_arg() {
    let f = Expression::FuncStmt(
        "f".to_string(),
        vec![Expression::Number(1)],
        Type::Unspecified,
        Box::new(Expression::BlockStmt(vec![])),
    );
    assert_eq!(message_of(f), "Expected FuncArg in function arguments");
}

#[test]
fn message_writes_types_as_debug_does() {
    let types = vec![
        ResolvedType::List(Box::new(ResolvedType::String)),
        ResolvedType::Binary(Box::new(ResolvedType::Bool), "+".to_string(), Box::new(ResolvedType::I64)),
        ResolvedType::Binary(Box::new(ResolvedType::Void), "a\"b\\c\n\t\r\0\u{1}\u{7f}é".to_string(), Box::new(ResolvedType::I32)),
        ResolvedType::Function(vec![ResolvedType::I32, ResolvedType::I64], Box::new(ResolvedType::Void)),
        ResolvedType::CallStmt(vec![], Box::new(ResolvedType::Bool)),
    ];
    for t in types {
        let expected = format!("len() requires a list argument, got {:?}", t);
        assert_eq!(TypeError::LenNonList(t).message(), expected);
    }
}

#[test]
fn closing_a_scope_forgets_every_name_declared_in_it() {
    let mut r = TypeResolver::new();
    r.set_variable("outer", ResolvedType::Bool);
    r.incr_depth();
    r.set_variable("a", ResolvedType::I32);
    r.set_variable("b", ResolvedType::String);
    r.set_variable("outer", ResolvedType::I64);
    r.decr_depth();
    assert!(r.get_variable("a").is_none());
    assert!(r.get_variable("b").is_none());
    assert!(r.get_variable("outer").is_none());
}
