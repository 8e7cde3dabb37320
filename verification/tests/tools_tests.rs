use cyclang::ast::{Expression, Type};
use cyclang::display::{format_ast, format_type};
use cyclang::highlight::{highlight_asm, highlight_ast, highlight_line, highlight_llvm_ir};
use cyclang::ir_text::{
    collect_called_functions, extract_function_def, extract_main_asm,
    extract_main_only_from_ir, extract_main_with_called_from_ir,
};
use cyclang::parser::parse_cyclo_program;
use cyclang::repl::{
    classify_input, load_path, record_input, repl_program, wrap_asm, wrap_ast, wrap_astd,
    wrap_emit, wrap_opt, wrap_print, CommandKind,
};
use cyclang::target::{get_target, Target};

fn module() -> String {
    [
        "; ModuleID = 'main'",
        "declare i32 @printf(ptr, ...)",
        "",
        "define i32 @square(i32 %0) {",
        "entry:",
        "  %1 = mul i32 %0, %0",
        "  ret i32 %1",
        "}",
        "",
        "define void @main() {",
        "entry:",
        "  %0 = call i32 @square(i32 4)",
        "  %1 = call i32 (ptr, ...) @printf(ptr @fmt, i32 %0)",
        "  %2 = call i32 @square(i32 5)",
        "  call void @llvm.donothing()",
        "  ret void",
        "}",
    ]
    .join("\n")
        + "\n"
}

fn strip_codes(s: &str) -> String {
    let mut out = String::new();
    let mut in_code = false;
    for c in s.chars() {
        if in_code {
            if c == 'm' {
                in_code = false;
            }
        } else if c == '\x1b' {
            in_code = true;
        } else {
            out.push(c);
        }
    }
    out
}

#[test]
fn target_names() {
    assert!(matches!(Target::from_str("wasm"), Some(Target::wasm)));
    assert!(matches!(Target::from_str("arm64"), Some(Target::arm64)));
    assert!(Target::from_str("riscv").is_none());
    assert_eq!(Target::wasm.get_llvm_target_name(), "wasm32-unknown-unknown-wasm");
    assert_eq!(Target::arm32.get_llvm_target_name(), "arm-unknown-linux-gnueabihf");
    assert_eq!(Target::arm64.get_llvm_target_name(), "aarch64-unknown-linux-gnu");
    assert_eq!(Target::x86_32.get_llvm_target_name(), "i386-unknown-unknown-elf");
    assert_eq!(Target::x86_64.get_llvm_target_name(), "x86_64-unknown-unknown-elf");
    assert!(matches!(get_target(Some("x86_64".to_string())), Some(Target::x86_64)));
    assert!(get_target(Some("nope".to_string())).is_none());
    assert!(get_target(None).is_none());
}

#[test]
fn main_definition_is_extracted() {
    let main = extract_main_only_from_ir(&module()).expect("main is defined");
    assert!(main.starts_with("define void @main() {\n"));
    assert!(main.ends_with("  ret void\n}\n"));
    assert_eq!(main.lines().count(), 8);
    assert_eq!(extract_main_only_from_ir("declare void @f()\n"), None);
}

#[test]
fn function_definition_by_name() {
    let sq = extract_function_def(&module(), "square").expect("square is defined");
    assert_eq!(sq, "define i32 @square(i32 %0) {\nentry:\n  %1 = mul i32 %0, %0\n  ret i32 %1\n}\n");
    assert_eq!(extract_function_def(&module(), "printf"), None);
    assert_eq!(
        extract_function_def("define void @one() { ret void }\n", "one"),
        Some("define void @one() { ret void }\n".to_string())
    );
    assert_eq!(extract_function_def("define void @open() {\n  ret void\n", "open"), None);
}

#[test]
fn called_functions_once_each_without_intrinsics_or_printf() {
    let main = extract_main_only_from_ir(&module()).unwrap();
    let called = collect_called_functions(&main);
    assert_eq!(called, vec!["square".to_string(), "fmt".to_string()]);
    let text = "call @b\ncall @a\n@c is skipped\ncall @b @llvm.x @printf @a\n";
    assert_eq!(collect_called_functions(text), vec!["b".to_string(), "a".to_string()]);
}

#[test]
fn main_with_called_definitions() {
    let out = extract_main_with_called_from_ir(&module()).expect("main is defined");
    let main = extract_main_only_from_ir(&module()).unwrap();
    let sq = extract_function_def(&module(), "square").unwrap();
    assert_eq!(out, format!("{main}\n{sq}"));
    assert_eq!(extract_main_with_called_from_ir("nothing\n"), None);
}

#[test]
fn main_assembly() {
    let listing = "\t.text\n\t.globl\tmain\nmain:\n\tpushq\t%rbp\n\tret\n\t.section\t.note\n";
    assert_eq!(
        extract_main_asm(listing),
        Some("main:\n\tpushq\t%rbp\n\tret\n".to_string())
    );
    assert_eq!(extract_main_asm("\t.text\nfoo:\n\tret\n"), None);
    assert_eq!(extract_main_asm("_main:\n  ret\n"), Some("_main:\n  ret\n".to_string()));
}

#[test]
fn type_texts() {
    assert_eq!(format_type(&Type::Unspecified), "None");
    assert_eq!(format_type(&Type::String), "string");
    assert_eq!(
        format_type(&Type::List(Box::new(Type::List(Box::new(Type::i64))))),
        "List<List<i64>>"
    );
}

#[test]
fn ast_drawing() {
    let exprs = parse_cyclo_program("let x: i32 = 1 + 2; print(x);").unwrap();
    let expected = [
        "Program",
        "├─ LetStmt(x: i32)",
        "│  └─ Binary(+)",
        "│     ├─ Number(1)",
        "│     └─ Number(2)",
        "└─ Print",
        "   └─ Variable(x)",
    ]
    .join("\n")
        + "\n";
    assert_eq!(format_ast(&exprs), expected);
}

#[test]
fn ast_drawing_of_functions_and_branches() {
    let exprs = parse_cyclo_program("fn f(i32 a) -> bool { if (a < 0) { return true; } else { return false; } }").unwrap();
    let expected = [
        "Program",
        "└─ FuncStmt(f -> bool)",
        "   ├─ Args",
        "   │  └─ FuncArg(a: i32)",
        "   └─ Body",
        "      └─ BlockStmt",
        "         └─ IfStmt",
        "            ├─ Condition",
        "            │  └─ Binary(<)",
        "            │     ├─ Variable(a)",
        "            │     └─ Number(0)",
        "            ├─ Then",
        "            │  └─ BlockStmt",
        "            │     └─ ReturnStmt",
        "            │        └─ Bool(true)",
        "            └─ Else",
        "               └─ BlockStmt",
        "                  └─ ReturnStmt",
        "                     └─ Bool(false)",
    ]
    .join("\n")
        + "\n";
    assert_eq!(format_ast(&exprs), expected);
}

#[test]
fn ast_drawing_of_loops_and_numbers() {
    let exprs = vec![
        Expression::ForStmt(
            "i".to_string(),
            -3,
            7,
            -1,
            Box::new(Expression::BlockStmt(vec![])),
        ),
        Expression::Number64(-9223372036854775808),
    ];
    let expected = [
        "Program",
        "├─ ForStmt(i = -3..7 step -1)",
        "│  └─ BlockStmt",
        "└─ Number64(-9223372036854775808)",
    ]
    .join("\n")
        + "\n";
    assert_eq!(format_ast(&exprs), expected);
}

#[test]
fn source_highlighting() {
    let line = "let x = \"hi\"; // note";
    let out = highlight_line(line);
    assert_eq!(
        out,
        "\x1b[38;5;81mlet\x1b[0m x = \x1b[38;5;114m\"hi\"\x1b[0m; \x1b[38;5;242m// note\x1b[0m"
    );
    assert_eq!(strip_codes(&out), line);
    assert_eq!(highlight_line("-5"), "\x1b[38;5;221m-5\x1b[0m");
    assert_eq!(highlight_line("i32 List"), "\x1b[38;5;75mi32\x1b[0m \x1b[38;5;75mList\x1b[0m");
}

#[test]
fn ir_highlighting() {
    let out = highlight_llvm_ir("; c\nentry:\n  ret i32 0");
    assert_eq!(
        out,
        "\x1b[38;5;242m; c\x1b[0m\n\x1b[38;5;208mentry:\x1b[0m\n  \x1b[38;5;81mret\x1b[0m \x1b[38;5;75mi32\x1b[0m \x1b[38;5;221m0\x1b[0m\n"
    );
    assert_eq!(strip_codes(&highlight_llvm_ir(&module())), module());
}

#[test]
fn asm_highlighting() {
    let out = highlight_asm("main:\n\tmovl\t$1, %eax # one");
    assert_eq!(
        out,
        "\x1b[38;5;208mmain:\x1b[0m\n\t\x1b[38;5;81mmovl\x1b[0m\t$\x1b[38;5;221m1\x1b[0m, \x1b[38;5;75m%eax\x1b[0m \x1b[38;5;242m# one\x1b[0m\n"
    );
}

#[test]
fn ast_highlighting() {
    let out = highlight_ast("Program\n└─ Print\n   └─ Number(1)\n   \n");
    assert_eq!(
        out,
        "\x1b[38;5;244mProgram\x1b[0m\n\x1b[38;5;208m└─ Print\x1b[0m\n   \x1b[38;5;114m└─ Number(1)\x1b[0m\n\n"
    );
}

#[test]
fn repl_command_sources() {
    assert_eq!(wrap_print(":print 1 + 2;;").unwrap(), "print(1 + 2);");
    assert_eq!(wrap_print(":print   ").unwrap_err(), "Usage: :print <expression>");
    assert_eq!(wrap_emit(":emit let x = 1;").unwrap(), "let x = 1;");
    assert_eq!(wrap_emit(":emit").unwrap_err(), "Usage: :emit <statement>");
    assert_eq!(wrap_opt(":opt print(1) ;").unwrap(), "print(1);");
    assert_eq!(wrap_opt(":opt").unwrap_err(), "Usage: :opt <statement>");
    assert_eq!(wrap_asm(":asm 1 + 1").unwrap(), "1 + 1;");
    assert_eq!(wrap_asm(":asm ").unwrap_err(), "Usage: :asm <statement>");
    assert_eq!(wrap_ast(":ast print(1);").unwrap(), "print(1);");
    assert_eq!(wrap_ast(":ast").unwrap_err(), "Usage: :ast <statement>");
    assert_eq!(wrap_astd(":astd print(1);").unwrap(), "print(1);");
    assert_eq!(wrap_astd(":astd").unwrap_err(), "Usage: :astd <statement>");
    assert_eq!(load_path(":load  ./examples/fib.cyc ").unwrap(), "./examples/fib.cyc");
    assert_eq!(load_path(":load").unwrap_err(), "Usage: :load <path>");
}

#[test]
fn repl_classification() {
    assert_eq!(classify_input("exit()").kind, CommandKind::Exit);
    assert_eq!(classify_input("   ").kind, CommandKind::Empty);
    let c = classify_input(">> :print 1 ");
    assert_eq!(c.kind, CommandKind::Print);
    assert_eq!(c.text, ":print 1");
    assert_eq!(classify_input(":load f.cyc").kind, CommandKind::Load);
    assert_eq!(classify_input(":emit 1;").kind, CommandKind::Emit);
    assert_eq!(classify_input(":opt 1;").kind, CommandKind::Opt);
    assert_eq!(classify_input(":asm 1;").kind, CommandKind::Asm);
    assert_eq!(classify_input(":ast 1;").kind, CommandKind::Ast);
    assert_eq!(classify_input(":astd 1;").kind, CommandKind::AstDesugar);
    let e = classify_input(">>\nlet x = 1; ");
    assert_eq!(e.kind, CommandKind::Eval);
    assert_eq!(e.text, "let x = 1; ");
}

#[test]
fn repl_program_and_memory() {
    let mut persisted: Vec<String> = Vec::new();
    assert_eq!(repl_program(&persisted, "print(1);"), "fn main() { print(1); }");
    let input = "let x = 1; fn f() { print(2); } print(x);".to_string();
    let exprs = parse_cyclo_program(&input).unwrap();
    record_input(&mut persisted, &input, &exprs);
    assert_eq!(persisted, vec![input.clone(), input.clone()]);
    let plain = "print(3);".to_string();
    record_input(&mut persisted, &plain, &parse_cyclo_program(&plain).unwrap());
    assert_eq!(persisted.len(), 2);
    assert_eq!(
        repl_program(&persisted[..1].to_vec(), "print(x);"),
        format!("fn main() {{ {input}\nprint(x); }}")
    );
}

#[test]
fn target_names_round_trip() {
    for t in [Target::wasm, Target::arm32, Target::arm64, Target::x86_32, Target::x86_64] {
        assert_eq!(Target::from_str(&format!("{:?}", t)), Some(t));
    }
    assert_eq!(Target::from_str("x86"), None);
}

fn strip_colour_codes(s: &str) -> String {
    let mut out = String::new();
    let mut in_code = false;
    for c in s.chars() {
        if in_code {
            if c == 'm' {
                in_code = false;
            }
        } else if c == '\x1b' {
            in_code = true;
        } else {
            out.push(c);
        }
    }
    out
}

#[test]
fn highlighted_ir_keeps_the_whole_text() {
    let ir = "; ModuleID = 'main'\ndefine i32 @main() {\nentry:\n  %0 = call i32 @f(i32 7, ptr @.str)\n  ret i32 0\n}\n";
    assert_eq!(strip_colour_codes(&highlight_llvm_ir(ir)), ir);
    let crlf = "entry:\r\n  ret void";
    assert_eq!(strip_colour_codes(&highlight_llvm_ir(crlf)), "entry:\n  ret void\n");
}

#[test]
fn function_definition_is_whole_lines_from_its_define() {
    let ir = "declare i32 @printf(ptr, ...)\ndefine void @f() {\n  ret void\n}\ndefine i32 @main() {\nentry:\n  ret i32 0\n}\n";
    assert_eq!(
        extract_function_def(ir, "main"),
        Some("define i32 @main() {\nentry:\n  ret i32 0\n}\n".to_string())
    );
    assert_eq!(extract_function_def(ir, "main"), extract_main_only_from_ir(ir));
    assert_eq!(extract_function_def(ir, "g"), None);
}

#[test]
fn tree_lines_all_start_with_the_prefix() {
    let exprs = parse_cyclo_program("if (true) { print(1 + 2); } else { print(3); }").expect("parses");
    let text = format_ast(&exprs);
    assert!(text.ends_with('\n'));
    let mut lines = text.lines();
    assert_eq!(lines.next(), Some("Program"));
    let first = lines.next().expect("a statement line");
    assert_eq!(first, "└─ IfStmt");
    for l in lines {
        assert!(l.starts_with("   "), "line {:?} lacks the prefix", l);
    }
}
