use lox::bytecode;
use lox::chunk::{break_index, long_index};
use lox::interpreter;
use lox::tree;
use lox::value::Value;

fn tree_run(src: &str) -> (Vec<String>, Result<(), String>) {
    let mut out: Vec<String> = Vec::new();
    let r = tree::Lox::run(src, &mut out);
    (out, r.map(|_| ()).map_err(|e| format!("{:?}", e)))
}

fn vm_run(src: &str) -> (Vec<String>, Result<(), String>) {
    let mut out: Vec<String> = Vec::new();
    let r = bytecode::Lox::run(src, &mut out);
    (out, r.map_err(|e| format!("{:?}", e)))
}

#[test]
fn arithmetic_precedence_tree() {
    let (out, r) = tree_run("print 1 + 2 * 3;");
    assert!(r.is_ok());
    assert_eq!(out, vec!["7".to_string()]);
}

#[test]
fn arithmetic_precedence_vm() {
    let (out, r) = vm_run("print 1 + 2 * 3;");
    assert!(r.is_ok());
    assert_eq!(out, vec!["7".to_string()]);
}

#[test]
fn string_concatenation_both_paths() {
    let src = "var a = \"foo\"; var b = \"bar\"; print a + b;";
    let (out, r) = tree_run(src);
    assert!(r.is_ok());
    assert_eq!(out, vec!["foobar".to_string()]);
    let (out2, r2) = vm_run(src);
    assert!(r2.is_ok());
    assert_eq!(out2, out);
}

#[test]
fn for_loop_sums() {
    let src = "var x = 0;\nfor (var i = 0; i < 3; i = i + 1) { x = x + i; }\nprint x;";
    let (out, r) = tree_run(src);
    assert!(r.is_ok());
    assert_eq!(out, vec!["3".to_string()]);
}

#[test]
fn closures_share_their_scope() {
    let src = "fun make(n) { fun inc() { n = n + 1; return n; } return inc; }\nvar c = make(10);\nprint c(); print c(); print c();";
    let (out, r) = tree_run(src);
    assert!(r.is_ok(), "{:?}", r);
    assert_eq!(out, vec!["11".to_string(), "12".to_string(), "13".to_string()]);
}

#[test]
fn number_plus_string_coerces() {
    let (out, r) = tree_run("print 1 + \"x\";");
    assert!(r.is_ok());
    assert_eq!(out, vec!["1x".to_string()]);
    let (out2, r2) = vm_run("print 1 + \"x\";");
    assert!(r2.is_ok());
    assert_eq!(out2, out);
}

#[test]
fn division_by_zero_tree_path() {
    let mut out: Vec<String> = Vec::new();
    let r = tree::Lox::run("print 1 / 0;", &mut out);
    match r {
        Err(tree::Error::Runtime(e)) => {
            assert!(matches!(e, interpreter::Error::DivisionByZero { .. }));
            assert_eq!(e.message(), "DivisionByZero [line 1] in script");
        },
        other => panic!("expected a runtime error, got {:?}", other),
    }
    assert!(out.is_empty());
}

#[test]
fn division_by_zero_vm_path_is_infinite() {
    let (out, r) = vm_run("print 1 / 0;");
    assert!(r.is_ok());
    assert_eq!(out, vec!["inf".to_string()]);
}

#[test]
fn shadowing_initializer_is_a_static_error() {
    let mut out: Vec<String> = Vec::new();
    let r = tree::Lox::run("{ var a = 1; { var a = a + 2; print a; } }", &mut out);
    match r {
        Err(tree::Error::Resolver(errs)) => {
            assert!(matches!(
                errs[0],
                lox::resolver::Error::AccessInInitializer { .. }
            ));
        },
        other => panic!("expected a resolver error, got {:?}", other),
    }
    assert!(out.is_empty());
}

#[test]
fn undefined_variable_is_reported() {
    let mut out: Vec<String> = Vec::new();
    let r = tree::Lox::run("print missing;", &mut out);
    assert!(matches!(r, Err(tree::Error::Resolver(_))));
}

#[test]
fn uninitialized_variable_is_reported() {
    let mut out: Vec<String> = Vec::new();
    let r = tree::Lox::run("var a; print a;", &mut out);
    assert!(matches!(
        r,
        Err(tree::Error::Runtime(interpreter::Error::UninitializedVariable { .. }))
    ));
}

#[test]
fn calling_a_number_is_not_callable() {
    let mut out: Vec<String> = Vec::new();
    let r = tree::Lox::run("var f = 1; f();", &mut out);
    assert!(matches!(
        r,
        Err(tree::Error::Runtime(interpreter::Error::NotCallable { .. }))
    ));
}

#[test]
fn arity_is_checked() {
    let mut out: Vec<String> = Vec::new();
    let r = tree::Lox::run("fun f(a, b) { return a; } f(1);", &mut out);
    assert!(matches!(
        r,
        Err(tree::Error::Runtime(interpreter::Error::ArityMismatch {
            expected: 2,
            got: 1,
            ..
        }))
    ));
}

#[test]
fn return_outside_a_function_fails() {
    let mut out: Vec<String> = Vec::new();
    let r = tree::Lox::run("return 1;", &mut out);
    assert!(matches!(
        r,
        Err(tree::Error::Runtime(interpreter::Error::ReturnOutsideFunction { .. }))
    ));
}

#[test]
fn negating_text_is_a_type_mismatch() {
    let mut out: Vec<String> = Vec::new();
    let r = tree::Lox::run("print -\"x\";", &mut out);
    assert!(matches!(
        r,
        Err(tree::Error::Runtime(interpreter::Error::TypeMismatch { .. }))
    ));
}

#[test]
fn parse_error_is_reported() {
    let mut out: Vec<String> = Vec::new();
    let r = tree::Lox::run("print ;", &mut out);
    assert!(matches!(r, Err(tree::Error::Parser(_))));
}

#[test]
fn if_else_and_logic() {
    let src = "var a = 5; if (a > 3) { print \"big\"; } else { print \"small\"; }";
    let (out, r) = tree_run(src);
    assert!(r.is_ok());
    assert_eq!(out, vec!["big".to_string()]);
}

#[test]
fn truthiness_of_not() {
    // zero and the empty text are truthy; only nil and false are not
    let (out, r) = tree_run("print !0; print !\"\"; print !nil; print !false;");
    assert!(r.is_ok(), "{:?}", r);
    assert_eq!(
        out,
        vec!["false".to_string(), "false".to_string(), "true".to_string(), "true".to_string()]
    );
}

#[test]
fn while_loop_counts() {
    let src = "var i = 0; while (i < 4) { i = i + 1; } print i;";
    let (out, r) = tree_run(src);
    assert!(r.is_ok());
    assert_eq!(out, vec!["4".to_string()]);
}

#[test]
fn both_paths_agree_on_shared_programs() {
    // programs inside the shared subset print the same lines on both paths
    let cases = vec![
        "print 1 + 2 * 3;",
        "print (1 + 2) * 3;",
        "print 10 - 4 / 2;",
        "print 1 < 2;",
        "print 3 <= 2;",
        "print 1 == 1;",
        "print 1 != 1;",
        "print !nil;",
        "print -(4);",
        "var a = 2; var b = 3; print a * b;",
        "var s = \"x\"; print s + \"y\";",
        "print nil;",
        "print true;",
    ];
    for src in cases {
        let (out_tree, r1) = tree_run(src);
        let (out_vm, r2) = vm_run(src);
        assert!(r1.is_ok(), "tree failed on {}: {:?}", src, r1);
        assert!(r2.is_ok(), "vm failed on {}: {:?}", src, r2);
        assert_eq!(out_tree, out_vm, "paths disagree on {}", src);
    }
}

#[test]
fn vm_undefined_global_fails() {
    let mut out: Vec<String> = Vec::new();
    let r = bytecode::Lox::run("print missing;", &mut out);
    assert!(matches!(
        r,
        Err(bytecode::Error::Runtime(lox::vm::Error::UndefinedGlobal { .. }))
    ));
}

#[test]
fn vm_assignment_keeps_value_on_stack() {
    let (out, r) = vm_run("var a = 1; print a = 5;");
    assert!(r.is_ok(), "{:?}", r);
    assert_eq!(out, vec!["5".to_string()]);
}

#[test]
fn vm_compile_error_reports() {
    let mut out: Vec<String> = Vec::new();
    let r = bytecode::Lox::run("print ;", &mut out);
    assert!(matches!(r, Err(bytecode::Error::Compiler(_))));
    assert!(out.is_empty());
}

#[test]
fn globals_persist_across_vm_runs() {
    let mut vm = lox::vm::VM::new();
    let mut out: Vec<String> = Vec::new();
    assert!(vm.interpret("var a = 41;", &mut out).is_ok());
    assert!(vm.interpret("print a + 1;", &mut out).is_ok());
    assert_eq!(out, vec!["42".to_string()]);
}

#[test]
fn chunk_index_round_trip() {
    let parts = break_index(300);
    assert_eq!(long_index(parts[0], parts[1]), 300);
    assert_eq!(long_index(0, 7), 7);
}

#[test]
fn vm_value_equality_crosses_string_kinds() {
    let a = Value::ConstString("foo".to_string());
    let b = Value::String("foo".to_string());
    assert!(a.equals(&b));
    assert!(!a.equals(&Value::Nil));
    let nan = Value::Number(f64::NAN.to_bits());
    assert!(!nan.equals(&nan));
}

#[test]
fn negative_integers_print_plainly() {
    let (out, r) = tree_run("print -3; print 0 - 7;");
    assert!(r.is_ok());
    assert_eq!(out, vec!["-3".to_string(), "-7".to_string()]);
}

#[test]
fn empty_program_prints_nothing() {
    let (out, r) = tree_run("");
    assert!(r.is_ok());
    assert!(out.is_empty());
}

#[test]
fn nested_blocks_reach_outer_names() {
    let (out, r) = tree_run("{ var a = 1; { var b = 2; print a + b; } }");
    assert!(r.is_ok(), "{:?}", r);
    assert_eq!(out, vec!["3".to_string()]);
}

#[test]
fn tree_interpreter_keeps_globals_between_runs() {
    let mut interp = interpreter::Interpreter::new();
    let mut out: Vec<String> = Vec::new();
    let first = lox::parser::Parser::new()
        .parse(lox::scanner::Scanner::new().scan("var a = 41;").unwrap())
        .unwrap();
    assert!(interp.interpret(&first, &mut out).is_ok());
    let second = lox::parser::Parser::new()
        .parse(lox::scanner::Scanner::new().scan("print a + 1;").unwrap())
        .unwrap();
    assert!(interp.interpret(&second, &mut out).is_ok());
    assert_eq!(out, vec!["42".to_string()]);
}

#[test]
fn equality_follows_value_rules() {
    let (out, r) = tree_run(
        "print 1 == 1; print \"a\" == \"a\"; print 1 == \"1\"; print nil == nil;",
    );
    assert!(r.is_ok(), "{:?}", r);
    assert_eq!(
        out,
        vec!["true".to_string(), "true".to_string(), "false".to_string(), "true".to_string()]
    );
}

#[test]
fn global_redeclaration_is_allowed() {
    let (out, r) = tree_run("var a = 1; var a = 2; print a;");
    assert!(r.is_ok());
    assert_eq!(out, vec!["2"]);
    let (out2, r2) = vm_run("var a = 1; var a = 2; print a;");
    assert!(r2.is_ok());
    assert_eq!(out2, vec!["2"]);
}

#[test]
fn var_initializer_takes_an_assignment() {
    let (out, r) = tree_run("var a = 1; var b = a = 5; print a; print b;");
    assert!(r.is_ok());
    assert_eq!(out, vec!["5", "5"]);
}
