use cyclang::ast::Expression::{FuncArg, Number, Variable};
use cyclang::ast::{Expression, Type};
use cyclang::lexer::ParseError;
use cyclang::parser::parse_cyclo_program;
#[test]
fn test_parse_string_expression() {
    let input = r#""hello";"#;
    assert!(parse_cyclo_program(input).is_ok());
}

#[test]
fn test_parse_string_expression_err() {
    let input = r#"hello";"#;
    assert!(parse_cyclo_program(input).is_err());
}

#[test]
fn test_parse_digit() {
    let input = r#"5;"#;
    assert!(parse_cyclo_program(input).is_ok());
}

#[test]
fn test_parse_digit_err() {
    let input = r#"5"#;
    assert!(parse_cyclo_program(input).is_err());
}

#[test]
fn test_parse_number_expression() {
    let input = r#"555;"#;
    assert!(parse_cyclo_program(input).is_ok());
}

#[test]
fn test_parse_number_expression_add() {
    let input = r#"555 + 555 + 555;"#;
    assert!(parse_cyclo_program(input).is_ok());
}

#[test]
fn test_parse_number_expression_add_grouping() {
    let input = r#"(555 + 555) + (555 + 555);"#;
    assert!(parse_cyclo_program(input).is_ok());
}

#[test]
fn test_parse_minus_negative_number_expression() {
    let input = r#"-555 - 555;"#;
    assert!(parse_cyclo_program(input).is_ok());
}

#[test]
fn test_parse_minus_negative_two_number_expression() {
    let input = r#"-555 - -555;"#;
    assert!(parse_cyclo_program(input).is_ok());
}

#[test]
fn test_parse_negative_digit_expression() {
    let input = r#"-5 - 5;"#;
    match parse_cyclo_program(input) {
        Err(e) => {
            println!("{:?}", e);
        }
        _ => {}
    }
    assert!(parse_cyclo_program(input).is_ok());
}

#[test]
fn test_parse_number_expression_err() {
    let input = r#"555""#;
    assert!(parse_cyclo_program(input).is_err());
}

#[test]
fn test_parse_nil() {
    let input = r#"nil;"#;
    assert!(parse_cyclo_program(input).is_ok());
}

#[test]
fn test_parse_true_bool() {
    let input = r#"true;"#;
    assert!(parse_cyclo_program(input).is_ok());
}

#[test]
fn test_parse_false_bool() {
    let input = r#"false;"#;
    assert!(parse_cyclo_program(input).is_ok());
}

#[test]
fn test_parse_string_equals() {
    let input = r#""hello" == "hello";"#;
    assert!(parse_cyclo_program(input).is_ok());
}

#[test]
fn test_parse_bool_equals() {
    let input = r#"true == true;"#;
    assert!(parse_cyclo_program(input).is_ok());
}

#[test]
fn test_parse_nil_equals() {
    let input = r#"nil == nil;"#;
    assert!(parse_cyclo_program(input).is_ok());
}

#[test]
fn test_parse_char_equals() {
    let input = r#""h" == "h";"#;
    assert!(parse_cyclo_program(input).is_ok());
}

#[test]
fn test_parse_str_equals() {
    let input = r#""hello" == "hello";"#;
    assert!(parse_cyclo_program(input).is_ok());
}

#[test]
fn test_parse_number_equals_digit() {
    let input = r#"5 == 5;"#;
    match parse_cyclo_program(input) {
        Err(e) => {
            println!("{:?}", e);
        }
        _ => {}
    }
    assert!(parse_cyclo_program(input).is_ok());
}

#[test]
fn test_parse_number_equals_digit_rhs() {
    let input = r#"55 == 5;"#;
    assert!(parse_cyclo_program(input).is_ok());
}

#[test]
fn test_parse_number_not_equals_digit() {
    let input = r#"5 != 5;"#;
    assert!(parse_cyclo_program(input).is_ok());
}

#[test]
fn test_parse_number_lt_digit() {
    let input = r#"5 < 5;"#;
    assert!(parse_cyclo_program(input).is_ok());
}

#[test]
fn test_parse_number_lte_digit() {
    let input = r#"5 <= 5;"#;
    assert!(parse_cyclo_program(input).is_ok());
}

#[test]
fn test_parse_number_gt_digit() {
    let input = r#"5 > 5;"#;
    assert!(parse_cyclo_program(input).is_ok());
}

#[test]
fn test_parse_number_gte_digit() {
    let input = r#"5 >= 5;"#;
    assert!(parse_cyclo_program(input).is_ok());
}

#[test]
fn test_parse_number_equals() {
    let input = r#"55 == 45;"#;
    assert!(parse_cyclo_program(input).is_ok());
}

#[test]
fn test_parse_number_less_than() {
    let input = r#"55 < 45;"#;
    assert!(parse_cyclo_program(input).is_ok());
}

#[test]
fn test_parse_number_less_than_equal() {
    let input = r#"55 <= 45;"#;
    assert!(parse_cyclo_program(input).is_ok());
}

#[test]
fn test_parse_number_more_than() {
    let input = r#"55 > 45;"#;
    assert!(parse_cyclo_program(input).is_ok());
}

#[test]
fn test_parse_number_more_than_equal() {
    let input = r#"55 >= 45;"#;
    assert!(parse_cyclo_program(input).is_ok());
}

#[test]
fn test_parse_number_not_equal() {
    let input = r#"55 != 45;"#;
    assert!(parse_cyclo_program(input).is_ok());
}

#[test]
fn test_parse_bool_equals_string() {
    let input = r#"true == "hello";"#;
    assert!(parse_cyclo_program(input).is_ok());
}

#[test]
fn test_parse_let_stmt_string() {
    let input = r#"let value = "hello";"#;
    assert!(parse_cyclo_program(input).is_ok());
}

#[test]
fn test_parse_let_stmt_bool() {
    let input = r#"let value = true;"#;
    assert!(parse_cyclo_program(input).is_ok());
}

#[test]
fn test_parse_let_stmt_bool_without_comma() {
    let input = r#"let value: bool = true"#;
    assert!(parse_cyclo_program(input).is_err());
}

#[test]
fn test_parse_let_stmt_digit() {
    let input = r#"let value: i32 = 5;"#;
    assert!(parse_cyclo_program(input).is_ok());
}

#[test]
fn test_parse_let_stmt_number() {
    let input = r#"let value = 555;"#;
    assert!(parse_cyclo_program(input).is_ok());
}

#[test]
fn test_parse_let_stmt_nil() {
    let input = r#"let value = nil;"#;
    assert!(parse_cyclo_program(input).is_ok());
}

#[test]
fn test_parse_let_stmt_list() {
    let input = r#"let value: List<i32> = [1, 2, 3, 4];"#;
    assert!(parse_cyclo_program(input).is_ok());
}

#[test]
fn test_parse_let_stmt_list_string() {
    let input = r#"let value: List<string> = ["1", "2", "3", "4"];"#;
    let output: Result<Vec<Expression>, ParseError> =
        parse_cyclo_program(input);
    let list_expr = Expression::List(vec![
        Expression::String("\"1\"".to_string()),
        Expression::String("\"2\"".to_string()),
        Expression::String("\"3\"".to_string()),
        Expression::String("\"4\"".to_string()),
    ]);
    let list_type = Type::List(Box::new(Type::String));
    let let_stmt_expr =
        Expression::LetStmt("value".to_string(), list_type, Box::new(list_expr));
    assert!(output.is_ok());
    assert!(output.unwrap().contains(&let_stmt_expr))
}

#[test]
fn test_parse_let_stmt_list_of_lists_bool() {
    let input = r#"let value: List<List<bool>> = [[true,false],[true,false]];"#;
    let output: Result<Vec<Expression>, ParseError> =
        parse_cyclo_program(input);
    let list_expr = Expression::List(vec![Expression::Bool(true), Expression::Bool(false)]);
    let list_of_list_expr = Expression::List(vec![list_expr.clone(), list_expr]);
    let list_type = Type::List(Box::new(Type::Bool));
    let list_of_list_type = Type::List(Box::new(list_type));
    let let_stmt_expr = Expression::LetStmt(
        "value".to_string(),
        list_of_list_type,
        Box::new(list_of_list_expr),
    );
    assert!(output.is_ok());
    assert!(output.unwrap().contains(&let_stmt_expr))
}

#[test]
fn test_parse_let_stmt_list_of_lists_int() {
    let input = r#"let value: List<List<i32>> = [[1,2],[1,2]];"#;
    let output: Result<Vec<Expression>, ParseError> =
        parse_cyclo_program(input);
    let list_expr = Expression::List(vec![Number(1), Number(2)]);
    let list_of_list_expr = Expression::List(vec![list_expr.clone(), list_expr]);
    let list_type = Type::List(Box::new(Type::i32));
    let list_of_list_type = Type::List(Box::new(list_type));
    let let_stmt_expr = Expression::LetStmt(
        "value".to_string(),
        list_of_list_type,
        Box::new(list_of_list_expr),
    );
    assert!(output.is_ok());
    assert!(output.unwrap().contains(&let_stmt_expr))
}

#[test]
fn test_parse_let_stmt_grouping() {
    let input = r#"let value = (true == true);"#;
    assert!(parse_cyclo_program(input).is_ok());
}

#[test]
fn test_parse_let_stmt_assign() {
    let input = r#"let value = other_value;"#;
    assert!(parse_cyclo_program(input).is_ok());
}

#[test]
fn test_parse_let_stmt_bool_assign() {
    let input = r#"let value = (other_value == first_value);"#;
    assert!(parse_cyclo_program(input).is_ok());
}

#[test]
fn test_parse_print_stmt_bool_assign() {
    let input = r#"print(other_value == first_value);"#;
    assert!(parse_cyclo_program(input).is_ok());
}

#[test]
fn test_parse_multi_line_stmt() {
    let input = "
    let one = true;
    let two = false;
    let three = (two == one);
    ";
    assert!(parse_cyclo_program(input).is_ok());
}

#[test]
fn test_empty_block_stmt() {
    let input = "
    {

    }
    ";
    assert!(parse_cyclo_program(input).is_ok());
}

#[test]
fn test_block_stmt() {
    let input = "
    {
        let b = 5;
        {
            {
                fn example(i32 arg1, i32 arg2) {
                    print(arg1 + arg2);
                }
                example(5,5);
            }
            a = 5;
        }
    }
    ";
    assert!(parse_cyclo_program(input).is_ok());
}

#[test]
fn test_func_no_return() {
    let input = r#"
    fn example() {
        print(1);
    }
    fn hello() {
        print("hello");
    }
    "#;
    assert!(parse_cyclo_program(input).is_ok());
}

#[test]
fn test_fn_return_and_print() {
    let input = r#"
    fn get_ten() -> List<List<i32>> {
        return [[1,2],[1,3]];
    }
    print(get_ten());
    "#;
    let output: Result<Vec<Expression>, ParseError> =
        parse_cyclo_program(input);
    assert!(output.is_ok());
}

#[test]
fn test_fn_return_int_num() {
    let input = r#"
    fn get_ten() -> i32 {
        return 10;
    }
    let var = get_ten();
    "#;
    let output: Result<Vec<Expression>, ParseError> =
        parse_cyclo_program(input);
    let func_expr = build_basic_func_ast(
        "get_ten".into(),
        [].to_vec(),
        Type::i32,
        vec![Expression::ReturnStmt(Box::new(Expression::Number(10)))],
    );
    assert!(output.is_ok());
    assert!(output.unwrap().contains(&func_expr))
}

#[test]
fn test_fn_return_int_value() {
    let input = r#"
    fn get_value(i32 value) -> i32 {
        return value;
    }
    "#;
    let output: Result<Vec<Expression>, ParseError> =
        parse_cyclo_program(input);
    let func_expr = build_basic_func_ast(
        "get_value".into(),
        [FuncArg("value".into(), Type::i32)].to_vec(),
        Type::i32,
        vec![Expression::ReturnStmt(Box::new(Expression::Variable(
            "value".into(),
        )))],
    );
    assert!(output.is_ok());
    assert!(output.unwrap().contains(&func_expr))
}

#[test]
fn test_fn_return_string_value() {
    let input = r#"
    fn get_value(string value) -> string {
        return value;
    }
    "#;
    let output: Result<Vec<Expression>, ParseError> =
        parse_cyclo_program(input);
    let func_expr = build_basic_func_ast(
        "get_value".into(),
        [FuncArg("value".into(), Type::String)].to_vec(),
        Type::String,
        vec![Expression::ReturnStmt(Box::new(Expression::Variable(
            "value".into(),
        )))],
    );
    assert!(output.is_ok());
    // Return stmt not returning correct ast
    // Returning Binaray(Expr)
    // Instead of ReturnStmt(Binary(Expr))
    assert!(output.unwrap().contains(&func_expr))
}

#[test]
fn test_fn_return_int_add() {
    let input = r#"
    fn add(i32 x, i32 y) -> i32 {
        return x + y;
    }
    "#;
    let output: Result<Vec<Expression>, ParseError> =
        parse_cyclo_program(input);
    let func_expr = build_basic_func_ast(
        "add".into(),
        [
            FuncArg("x".into(), Type::i32),
            FuncArg("y".into(), Type::i32),
        ]
            .to_vec(),
        Type::i32,
        vec![Expression::ReturnStmt(Box::new(Expression::Binary(
            Box::new(Variable("x".into())),
            "+".into(),
            Box::new(Variable("y".into())),
        )))],
    );
    assert!(output.is_ok());
    assert!(output.unwrap().contains(&func_expr))
}

// func to validate that the return statement AST is correct
fn build_basic_func_ast(
    name: String,
    args: Vec<Expression>,
    return_type: Type,
    block_stmt: Vec<Expression>,
) -> Expression {
    let body = Expression::BlockStmt(block_stmt);
    Expression::new_func_stmt(name, args, return_type, body)
}

#[test]
fn test_fn_return_string() {
    let input = r#"
    fn hello_world() -> string {
        return "hello world";
    }
    let val = hello_world();
    "#;
    let output: Result<Vec<Expression>, ParseError> =
        parse_cyclo_program(input);
    let func_expr = build_basic_func_ast(
        "hello_world".into(),
        [].to_vec(),
        Type::String,
        vec![Expression::ReturnStmt(Box::new(Expression::String(
            "\"hello world\"".into(),
        )))],
    );
    assert!(output.is_ok());
    assert!(output.unwrap().contains(&func_expr))
}

#[test]
fn test_fn_return_bool() {
    let input = r#"
    fn hello_bool() -> bool {
        return true;
    }
    let val = hello_world();
    "#;
    let output: Result<Vec<Expression>, ParseError> =
        parse_cyclo_program(input);
    let func_expr = build_basic_func_ast(
        "hello_bool".into(),
        [].to_vec(),
        Type::Bool,
        vec![Expression::ReturnStmt(Box::new(Expression::Bool(true)))],
    );
    assert!(output.is_ok());
    assert!(output.unwrap().contains(&func_expr))
}

#[test]
fn test_fn_return_call_fn_binary_add() {
    let input = r#"
    fn sum_square(i32 x, i32 y) -> i32 {
        return square(x) + square(y);
    }
    let val = sum_square(x,y);
    "#;
    let output: Result<Vec<Expression>, ParseError> =
        parse_cyclo_program(input);
    let func_expr = build_basic_func_ast(
        "sum_square".into(),
        [
            FuncArg("x".into(), Type::i32),
            FuncArg("y".into(), Type::i32),
        ]
            .to_vec(),
        Type::i32,
        vec![Expression::ReturnStmt(Box::new(Expression::Binary(
            Box::new(Expression::CallStmt(
                "square".into(),
                vec![Variable("x".into())],
            )),
            "+".into(),
            Box::new(Expression::CallStmt(
                "square".into(),
                vec![Variable("y".into())],
            )),
        )))],
    );
    assert!(output.is_ok());
    assert!(output.unwrap().contains(&func_expr));
}

#[test]
fn test_fibonacci_fn() {
    let input = r#"
    fn fib(i32 n) -> i32 {
        if (n < 2) {
            return 0;
        }
        return fib(n-1) + fib(n-2);
    }
    fib(20);
    "#;
    let output: Result<Vec<Expression>, ParseError> =
        parse_cyclo_program(input);
    assert!(output.is_ok());
    // assert!(output.unwrap().contains(&func_expr)); to test?
}

#[test]
fn test_call_func() {
    let input = r#"
    fn hello() {
        print("hello");
    }
    hello();
    "#;
    assert!(parse_cyclo_program(input).is_ok());
}

#[test]
fn test_if_stmt() {
    let input = r#"
    if (value)
    {
        print("hello");
    }
    "#;
    assert!(parse_cyclo_program(input).is_ok());
}

#[test]
fn test_if_stmt_expression_value_comp() {
    let input = r#"
    if (value == other_value)
    {
        print("hello");
    }
    "#;
    assert!(parse_cyclo_program(input).is_ok());
}

#[test]
fn test_if_stmt_expression() {
    let input = r#"
    if (1 == 1)
    {
        print("hello");
    }
    "#;
    assert!(parse_cyclo_program(input).is_ok());
}

#[test]
fn lib_test_if_else_stmt() {
    let input = r#"
    if (value)
    {
        print("hello");
    }
    else {
        print("else");
    }
    "#;
    assert!(parse_cyclo_program(input).is_ok());
}
#[test]
fn test_while_stmt() {
    let input = r#"
    while (value)
    {
        print("hello");
        let i = 1;
    }
    "#;
    assert!(parse_cyclo_program(input).is_ok());
}
#[test]
fn test_for_loop_stmt() {
    let input = r#"
    for (let i = 0; i < 20; i++)
    {
        print(i);
    }
    "#;
    assert!(parse_cyclo_program(input).is_ok());
}

#[test]
fn test_for_loop_stmt_reverse() {
    let input = r#"
    for (let i = 40; i < 10; i--)
    {
        print(i);
    }
    "#;
    assert!(parse_cyclo_program(input).is_ok());
}

#[test]
fn test_access_and_set_value_in_list() {
    let input = r#"
    let val: i32 = array[i+1];
    array[i+1] = 1;
    "#;
    assert!(parse_cyclo_program(input).is_ok());
}
