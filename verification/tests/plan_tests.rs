use cyclang::binary_plan::{binary_plan, ArithOp, BinaryPlan, CmpOp, ListKind};
use cyclang::typed_ast::ResolvedType;

fn list(t: ResolvedType) -> ResolvedType {
    ResolvedType::List(Box::new(t))
}

#[test]
fn arithmetic_on_i32_gets_its_instruction() {
    assert_eq!(binary_plan("+", &ResolvedType::I32, &ResolvedType::I32), Ok(BinaryPlan::IntArith(ArithOp::Add)));
    assert_eq!(binary_plan("-", &ResolvedType::I32, &ResolvedType::I32), Ok(BinaryPlan::IntArith(ArithOp::Sub)));
    assert_eq!(binary_plan("*", &ResolvedType::I32, &ResolvedType::I32), Ok(BinaryPlan::IntArith(ArithOp::Mul)));
    assert_eq!(binary_plan("/", &ResolvedType::I32, &ResolvedType::I32), Ok(BinaryPlan::IntArith(ArithOp::Div)));
}

#[test]
fn arithmetic_on_other_types_is_refused() {
    assert_eq!(
        binary_plan("+", &ResolvedType::I64, &ResolvedType::I32),
        Err("Unsupported arithmetic operation + for types I64 and I32".to_string())
    );
    assert_eq!(
        binary_plan("-", &ResolvedType::String, &ResolvedType::String),
        Err("Only + operator is supported for strings, got -".to_string())
    );
}

#[test]
fn strings_and_lists_concatenate() {
    assert_eq!(binary_plan("+", &ResolvedType::String, &ResolvedType::String), Ok(BinaryPlan::StringConcat));
    assert_eq!(
        binary_plan("+", &list(ResolvedType::I32), &list(ResolvedType::I32)),
        Ok(BinaryPlan::ListConcat(ListKind::Int32))
    );
    assert_eq!(
        binary_plan("+", &list(ResolvedType::String), &list(ResolvedType::String)),
        Ok(BinaryPlan::ListConcat(ListKind::Str))
    );
    assert_eq!(
        binary_plan("+", &list(ResolvedType::Bool), &list(ResolvedType::Bool)),
        Err("List concatenation not supported for type Bool".to_string())
    );
    assert_eq!(
        binary_plan("*", &list(ResolvedType::I32), &list(ResolvedType::I32)),
        Err("Only + operator is supported for lists, got *".to_string())
    );
    assert_eq!(
        binary_plan("+", &list(ResolvedType::I32), &list(ResolvedType::String)),
        Err("Unsupported arithmetic operation + for types List(I32) and List(String)".to_string())
    );
}

#[test]
fn comparisons_pick_integer_or_string_tests() {
    assert_eq!(binary_plan("<=", &ResolvedType::I32, &ResolvedType::I32), Ok(BinaryPlan::IntCompare(CmpOp::Le)));
    assert_eq!(binary_plan("!=", &ResolvedType::Bool, &ResolvedType::Bool), Ok(BinaryPlan::IntCompare(CmpOp::Ne)));
    assert_eq!(binary_plan("==", &ResolvedType::String, &ResolvedType::String), Ok(BinaryPlan::StringEquality));
    assert_eq!(binary_plan(">", &ResolvedType::I32, &ResolvedType::String), Ok(BinaryPlan::StringEquality));
    assert_eq!(
        binary_plan("==", &ResolvedType::I64, &ResolvedType::I32),
        Err("Comparison not implemented for type: I64".to_string())
    );
    assert_eq!(
        binary_plan("<", &ResolvedType::I32, &ResolvedType::Void),
        Err("Comparison not implemented for type: Void".to_string())
    );
}

#[test]
fn other_operators_are_refused() {
    assert_eq!(binary_plan("^", &ResolvedType::I32, &ResolvedType::I32), Err("^ is not implemented yet".to_string()));
    assert_eq!(binary_plan("%", &ResolvedType::I32, &ResolvedType::I32), Err("Operator: % not implement".to_string()));
}
