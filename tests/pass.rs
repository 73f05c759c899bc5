use rust_cpp::{
    ArgExpr, CallExpr, CppLintPass, Diagnostic, FieldDef, HostType, IntTy, Phase, PointerWidth,
    Problem, RecordDef, Role, Step,
};

fn s(x: &str) -> String {
    x.to_string()
}

fn by_ref(t: HostType) -> ArgExpr {
    ArgExpr::Cast(Box::new(ArgExpr::Cast(Box::new(ArgExpr::AddrOf(t)))))
}

fn call(name: &str, ret: HostType, args: Vec<ArgExpr>) -> CallExpr {
    CallExpr { path: vec![s(name)], ty: ret, args }
}

fn point() -> RecordDef {
    RecordDef {
        id: 7,
        name: s("Point"),
        fields: vec![
            FieldDef { name: s("x"), ty: HostType::Int(IntTy::I32) },
            FieldDef { name: s("y"), ty: HostType::Int(IntTy::I32) },
        ],
    }
}

fn cyclic() -> Vec<RecordDef> {
    vec![
        RecordDef { id: 1, name: s("A"), fields: vec![FieldDef { name: s("b"), ty: HostType::Record(2) }] },
        RecordDef { id: 2, name: s("B"), fields: vec![FieldDef { name: s("a"), ty: HostType::Record(1) }] },
    ]
}

fn emitted(r: Result<Step, Diagnostic>) -> String {
    match r {
        Ok(Step::Emit(doc)) => doc,
        other => panic!("expected a document, got {:?}", other),
    }
}

#[test]
fn scenario_single_block_i32_by_reference_returning_u64() {
    let mut p = CppLintPass::new(PointerWidth::W64, vec![]);
    assert!(p.register_block(s("rust_cpp_1"), vec![s("arg0")], s("#include <vector>\n")));
    let doc = emitted(p.check_expr(&call(
        "rust_cpp_1",
        HostType::Int(IntTy::U64),
        vec![by_ref(HostType::Int(IntTy::I32))],
    )));
    assert!(doc.contains("\nrs::u64 rust_cpp_1(const rs::i32* arg0);\n"));
    assert!(doc.contains("#include <vector>\n"));
    assert!(doc.starts_with(&rust_cpp::render_preamble(PointerWidth::W64)));
    assert!(doc.ends_with("extern \"C\" {\nrs::u64 rust_cpp_1(const rs::i32* arg0);\n}\n"));
    assert_eq!(p.phase, Phase::Finalized);
    assert_eq!(p.blocks[0].ret_ty, Some(s("rs::u64")));
    assert_eq!(p.blocks[0].args[0].ty, Some(s("rs::i32")));
}

#[test]
fn scenario_cycle_between_two_records_aborts() {
    let mut p = CppLintPass::new(PointerWidth::W64, cyclic());
    assert!(p.register_block(s("blk"), vec![s("a")], s("")));
    let r = p.check_expr(&call("blk", HostType::Int(IntTy::I32), vec![by_ref(HostType::Record(1))]));
    assert_eq!(
        r.unwrap_err(),
        Diagnostic { block: 0, role: Role::Argument(0), problem: Problem::Cycle }
    );
    assert_eq!(p.phase, Phase::Aborted);
    assert_eq!(p.blocks[0].ret_ty, None);
    // an aborted pass hands out no document afterwards
    let again = p.check_expr(&call("blk", HostType::Int(IntTy::I32), vec![by_ref(HostType::Int(IntTy::I8))]));
    assert!(matches!(again, Ok(Step::Ignored)));
}

#[test]
fn cycle_in_return_type_aborts_on_return() {
    let mut p = CppLintPass::new(PointerWidth::W64, cyclic());
    assert!(p.register_block(s("blk"), vec![], s("")));
    let r = p.check_expr(&call("blk", HostType::Record(2), vec![]));
    assert_eq!(r.unwrap_err(), Diagnostic { block: 0, role: Role::Return, problem: Problem::Cycle });
    assert_eq!(p.phase, Phase::Aborted);
}

#[test]
fn scenario_two_blocks_share_one_record_declaration() {
    let mut p = CppLintPass::new(PointerWidth::W64, vec![point()]);
    assert!(p.register_block(s("first"), vec![s("p")], s("")));
    assert!(p.register_block(s("second"), vec![s("q")], s("")));
    let r1 = p.check_expr(&call("first", HostType::Bool, vec![by_ref(HostType::Record(7))]));
    assert!(matches!(r1, Ok(Step::Recorded)));
    let doc = emitted(p.check_expr(&call("second", HostType::Record(7), vec![by_ref(HostType::Record(7))])));
    assert_eq!(p.registry.entries.len(), 1);
    assert_eq!(p.registry.entries[0].key, 7);
    assert_eq!(doc.matches("struct Point {").count(), 1);
    assert!(doc.contains("rs::bool_ first(const rs::Point* p);"));
    assert!(doc.contains("rs::Point second(const rs::Point* q);"));
}

#[test]
fn completion_gate_emits_once_on_last_block() {
    let mut p = CppLintPass::new(PointerWidth::W32, vec![]);
    for n in ["b0", "b1", "b2"] {
        assert!(p.register_block(s(n), vec![], s("")));
    }
    let r = p.check_expr(&call("b2", HostType::F32, vec![]));
    assert!(matches!(r, Ok(Step::Recorded)));
    let r = p.check_expr(&call("b0", HostType::F64, vec![]));
    assert!(matches!(r, Ok(Step::Recorded)));
    // a second visit of a resolved block changes nothing
    let r = p.check_expr(&call("b0", HostType::Bool, vec![]));
    assert!(matches!(r, Ok(Step::Ignored)));
    assert_eq!(p.blocks[0].ret_ty, Some(s("rs::f64")));
    let doc = emitted(p.check_expr(&call("b1", HostType::Str, vec![])));
    assert!(doc.contains("\nrs::f64 b0();\n\nrs::StrSlice b1();\n\nrs::f32 b2();\n"));
    assert_eq!(p.phase, Phase::Finalized);
    let r = p.check_expr(&call("b1", HostType::Str, vec![]));
    assert!(matches!(r, Ok(Step::Ignored)));
    assert!(!p.register_block(s("late"), vec![], s("")));
}

#[test]
fn generated_document_is_deterministic() {
    let run = || {
        let mut p = CppLintPass::new(PointerWidth::W64, vec![point()]);
        p.register_block(s("x"), vec![s("a"), s("b")], s("#include <cmath>\n"));
        p.register_block(s("y"), vec![], s("#include <string>\n"));
        p.add_flag(s("-O2"));
        p.check_expr(&call("y", HostType::TraitObject, vec![])).unwrap();
        emitted(p.check_expr(&call(
            "x",
            HostType::Int(IntTy::Usize),
            vec![by_ref(HostType::Record(7)), by_ref(HostType::Slice(Box::new(HostType::Int(IntTy::U8))))],
        )))
    };
    let d1 = run();
    let d2 = run();
    assert_eq!(d1, d2);
    assert!(d1.contains("#include <cmath>\n#include <string>\n"));
    assert!(d1.contains("rs::usize x(const rs::Point* a, const rs::Slice<rs::u8>* b);"));
}

#[test]
fn argument_order_and_identifiers_are_kept() {
    let mut p = CppLintPass::new(PointerWidth::W64, vec![]);
    p.register_block(s("blk"), vec![s("z"), s("a"), s("m")], s(""));
    let doc = emitted(p.check_expr(&call(
        "blk",
        HostType::Int(IntTy::U32),
        vec![
            by_ref(HostType::Int(IntTy::I8)),
            by_ref(HostType::Int(IntTy::U16)),
            by_ref(HostType::Bool),
        ],
    )));
    assert!(doc.contains("rs::u32 blk(const rs::i8* z, const rs::u16* a, const rs::bool_* m);"));
}

#[test]
fn unsupported_capture_degrades_to_placeholder() {
    let mut p = CppLintPass::new(PointerWidth::W64, vec![]);
    p.register_block(s("blk"), vec![s("c"), s("n")], s(""));
    let doc = emitted(p.check_expr(&call(
        "blk",
        HostType::Int(IntTy::I64),
        vec![by_ref(HostType::Unsupported), by_ref(HostType::Int(IntTy::Isize))],
    )));
    assert!(doc.contains("rs::i64 blk(const rs::__Dummy* c, const rs::isize* n);"));
    assert_eq!(
        p.warnings,
        vec![Diagnostic { block: 0, role: Role::Argument(0), problem: Problem::Unsupported }]
    );
}

#[test]
fn unsupported_return_type_aborts() {
    let mut p = CppLintPass::new(PointerWidth::W64, vec![]);
    p.register_block(s("blk"), vec![s("c")], s(""));
    let r = p.check_expr(&call("blk", HostType::Unsupported, vec![by_ref(HostType::Unsupported)]));
    assert_eq!(r.unwrap_err(), Diagnostic { block: 0, role: Role::Return, problem: Problem::Unsupported });
    assert_eq!(p.phase, Phase::Aborted);
    assert!(p.warnings.is_empty());
}

#[test]
fn unknown_record_is_unsupported() {
    let mut p = CppLintPass::new(PointerWidth::W64, vec![point()]);
    p.register_block(s("blk"), vec![], s(""));
    let r = p.check_expr(&call("blk", HostType::Record(99), vec![]));
    assert_eq!(r.unwrap_err(), Diagnostic { block: 0, role: Role::Return, problem: Problem::Unsupported });
}

#[test]
fn malformed_argument_is_fatal() {
    let mut p = CppLintPass::new(PointerWidth::W64, vec![]);
    p.register_block(s("blk"), vec![s("a"), s("b")], s(""));
    let bad = ArgExpr::Cast(Box::new(ArgExpr::AddrOf(HostType::Bool)));
    let r = p.check_expr(&call("blk", HostType::Bool, vec![by_ref(HostType::Bool), bad]));
    assert_eq!(
        r.unwrap_err(),
        Diagnostic { block: 0, role: Role::Argument(1), problem: Problem::MalformedArgument }
    );
    assert_eq!(p.phase, Phase::Aborted);
}

#[test]
fn missing_argument_is_fatal() {
    let mut p = CppLintPass::new(PointerWidth::W64, vec![]);
    p.register_block(s("blk"), vec![s("a"), s("b")], s(""));
    let r = p.check_expr(&call("blk", HostType::Bool, vec![by_ref(HostType::Bool)]));
    assert_eq!(
        r.unwrap_err(),
        Diagnostic { block: 0, role: Role::Argument(1), problem: Problem::MalformedArgument }
    );
}

#[test]
fn other_calls_are_ignored() {
    let mut p = CppLintPass::new(PointerWidth::W64, vec![]);
    p.register_block(s("blk"), vec![], s(""));
    let r = p.check_expr(&call("println", HostType::Bool, vec![ArgExpr::Other]));
    assert!(matches!(r, Ok(Step::Ignored)));
    let qualified = CallExpr { path: vec![s("m"), s("blk")], ty: HostType::Bool, args: vec![] };
    assert!(matches!(p.check_expr(&qualified), Ok(Step::Ignored)));
    assert_eq!(p.phase, Phase::Scanning);
    assert_eq!(p.blocks[0].ret_ty, None);
}

#[test]
fn duplicate_block_name_is_refused() {
    let mut p = CppLintPass::new(PointerWidth::W64, vec![]);
    assert!(p.register_block(s("blk"), vec![], s("h1\n")));
    assert!(!p.register_block(s("blk"), vec![s("x")], s("h2\n")));
    assert_eq!(p.blocks.len(), 1);
    assert_eq!(p.headers, "h1\n");
}

#[test]
fn flags_are_kept_in_order() {
    let mut p = CppLintPass::new(PointerWidth::W64, vec![]);
    p.add_flag(s("-Wall"));
    p.add_flag(s("-O2"));
    assert_eq!(p.flags, vec![s("-Wall"), s("-O2")]);
}
