use rust_cpp::{
    render_preamble, EmbeddedBlock, CapturedArg, FieldDef, HostType, IntTy, PointerWidth, RecordDef,
    TypeError, TypeRegistry,
};

fn s(x: &str) -> String {
    x.to_string()
}

fn records() -> Vec<RecordDef> {
    vec![
        RecordDef {
            id: 1,
            name: s("Outer"),
            fields: vec![
                FieldDef { name: s("inner"), ty: HostType::Record(2) },
                FieldDef { name: s("tag"), ty: HostType::Int(IntTy::U8) },
            ],
        },
        RecordDef {
            id: 2,
            name: s("Inner"),
            fields: vec![FieldDef { name: s("v"), ty: HostType::Slice(Box::new(HostType::F64)) }],
        },
        RecordDef {
            id: 3,
            name: s("Bad"),
            fields: vec![FieldDef { name: s("f"), ty: HostType::Unsupported }],
        },
        RecordDef {
            id: 4,
            name: s("SelfRef"),
            fields: vec![FieldDef { name: s("next"), ty: HostType::Slice(Box::new(HostType::Record(4))) }],
        },
    ]
}

#[test]
fn translating_a_record_twice_is_idempotent() {
    let tbl = records();
    let mut reg = TypeRegistry::new();
    let a = reg.translate(&tbl, &HostType::Record(2)).unwrap();
    let decl = reg.entries[0].decl.clone();
    let b = reg.translate(&tbl, &HostType::Record(2)).unwrap();
    assert_eq!(a, "rs::Inner");
    assert_eq!(a, b);
    assert_eq!(reg.entries.len(), 1);
    assert_eq!(reg.entries[0].decl, decl);
    assert_eq!(decl, "    struct Inner {\n        rs::Slice<rs::f64> v;\n    };\n");
}

#[test]
fn nested_records_are_declared_before_use() {
    let tbl = records();
    let mut reg = TypeRegistry::new();
    assert_eq!(reg.translate(&tbl, &HostType::Record(1)).unwrap(), "rs::Outer");
    let keys: Vec<u64> = reg.entries.iter().map(|e| e.key).collect();
    assert_eq!(keys, vec![2, 1]);
    assert_eq!(
        reg.entries[1].decl,
        "    struct Outer {\n        rs::Inner inner;\n        rs::u8 tag;\n    };\n"
    );
}

#[test]
fn primitive_names() {
    let tbl = records();
    let mut reg = TypeRegistry::new();
    let cases = [
        (HostType::Int(IntTy::I8), "rs::i8"),
        (HostType::Int(IntTy::I16), "rs::i16"),
        (HostType::Int(IntTy::I32), "rs::i32"),
        (HostType::Int(IntTy::I64), "rs::i64"),
        (HostType::Int(IntTy::Isize), "rs::isize"),
        (HostType::Int(IntTy::U8), "rs::u8"),
        (HostType::Int(IntTy::U16), "rs::u16"),
        (HostType::Int(IntTy::U32), "rs::u32"),
        (HostType::Int(IntTy::U64), "rs::u64"),
        (HostType::Int(IntTy::Usize), "rs::usize"),
        (HostType::F32, "rs::f32"),
        (HostType::F64, "rs::f64"),
        (HostType::Bool, "rs::bool_"),
        (HostType::Str, "rs::StrSlice"),
        (HostType::TraitObject, "rs::TraitObject"),
        (HostType::Slice(Box::new(HostType::Str)), "rs::Slice<rs::StrSlice>"),
    ];
    for (t, n) in cases.iter() {
        assert_eq!(reg.translate(&tbl, t).unwrap(), *n);
    }
    assert!(reg.entries.is_empty());
}

#[test]
fn slice_of_record_declares_the_record() {
    let tbl = records();
    let mut reg = TypeRegistry::new();
    let n = reg.translate(&tbl, &HostType::Slice(Box::new(HostType::Record(2)))).unwrap();
    assert_eq!(n, "rs::Slice<rs::Inner>");
    assert_eq!(reg.entries.len(), 1);
}

#[test]
fn record_with_unsupported_field_is_unsupported() {
    let tbl = records();
    let mut reg = TypeRegistry::new();
    assert_eq!(reg.translate(&tbl, &HostType::Record(3)), Err(TypeError::Unsupported));
    assert_eq!(reg.translate(&tbl, &HostType::Unsupported), Err(TypeError::Unsupported));
    assert!(reg.entries.is_empty());
}

#[test]
fn self_reference_is_a_cycle() {
    let tbl = records();
    let mut reg = TypeRegistry::new();
    assert_eq!(reg.translate(&tbl, &HostType::Record(4)), Err(TypeError::Cycle));
    assert!(reg.entries.is_empty());
}

#[test]
fn preamble_follows_pointer_width() {
    let p32 = render_preamble(PointerWidth::W32);
    let p64 = render_preamble(PointerWidth::W64);
    let p16 = render_preamble(PointerWidth::W16);
    assert_ne!(p32, p64);
    assert!(p32.contains("typedef u32 usize;"));
    assert!(p32.contains("typedef i32 isize;"));
    assert!(p64.contains("typedef u64 usize;"));
    assert!(p64.contains("typedef i64 isize;"));
    assert!(p16.contains("typedef u16 usize;"));
    for p in [&p16, &p32, &p64] {
        assert!(p.contains("static_assert(sizeof(f32) == 4, \"C++ `float` isn't 32 bits wide\");"));
        assert!(p.contains("static_assert(sizeof(f64) == 8, \"C++ `double` isn't 64 bits wide\");"));
        assert!(p.contains("typedef i8 bool_;"));
    }
}

#[test]
fn function_declaration_of_unresolved_capture_uses_placeholder() {
    let b = EmbeddedBlock {
        name: s("f"),
        args: vec![
            CapturedArg { ident: s("a"), ty: Some(s("rs::u8")) },
            CapturedArg { ident: s("b"), ty: None },
        ],
        ret_ty: Some(s("rs::i16")),
    };
    assert_eq!(rust_cpp::render_fn_decl(&b), "rs::i16 f(const rs::u8* a, const rs::__Dummy* b);");
}
