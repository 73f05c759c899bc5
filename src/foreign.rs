use vstd::prelude::*;

verus! {

/// Integer types of the host language.
#[derive(Clone, Copy, Debug, PartialEq, Eq, Structural)]
pub enum IntTy {
    I8,
    I16,
    I32,
    I64,
    Isize,
    U8,
    U16,
    U32,
    U64,
    Usize,
}

/// A fully resolved host-language type, as the host's type query reports it.
/// Compound records are referred to by their canonical identity.
#[derive(Debug)]
pub enum HostType {
    Int(IntTy),
    F32,
    F64,
    Bool,
    Str,
    Slice(Box<HostType>),
    TraitObject,
    Record(u64),
    /// A type with no foreign mapping (generic, unsized, closure, ...).
    Unsupported,
}

/// One field of a host record.
#[derive(Debug)]
pub struct FieldDef {
    pub name: String,
    pub ty: HostType,
}

/// A host record definition, keyed by its canonical identity `id`.
#[derive(Debug)]
pub struct RecordDef {
    pub id: u64,
    pub name: String,
    pub fields: Vec<FieldDef>,
}

/// Why a host type could not be translated.
#[derive(Clone, Copy, Debug, PartialEq, Eq, Structural)]
pub enum TypeError {
    /// No foreign mapping exists for the type (or a record it contains).
    Unsupported,
    /// A record refers back to a record whose translation is in progress.
    Cycle,
}

/// One generated foreign declaration, keyed by the host record's identity.
#[derive(Debug)]
pub struct TypeEntry {
    pub key: u64,
    pub decl: String,
}

/// The side table of foreign record declarations, in discovery order.
pub struct TypeRegistry {
    pub entries: Vec<TypeEntry>,
}

pub type RegView = Seq<(u64, Seq<char>)>;

impl View for TypeRegistry {
    type V = RegView;

    open spec fn view(&self) -> RegView {
        self.entries@.map_values(|e: TypeEntry| (e.key, e.decl@))
    }
}

pub open spec fn int_name(k: IntTy) -> Seq<char> {
    match k {
        IntTy::I8 => "rs::i8"@,
        IntTy::I16 => "rs::i16"@,
        IntTy::I32 => "rs::i32"@,
        IntTy::I64 => "rs::i64"@,
        IntTy::Isize => "rs::isize"@,
        IntTy::U8 => "rs::u8"@,
        IntTy::U16 => "rs::u16"@,
        IntTy::U32 => "rs::u32"@,
        IntTy::U64 => "rs::u64"@,
        IntTy::Usize => "rs::usize"@,
    }
}

/// The foreign name of the opaque placeholder record.
pub open spec fn placeholder_name() -> Seq<char> {
    "rs::__Dummy"@
}

pub open spec fn record_name(r: RecordDef) -> Seq<char> {
    "rs::"@ + r.name@
}

/// Index of the first record of `tbl` at or after `i` whose identity is `id`.
pub open spec fn record_index(tbl: Seq<RecordDef>, id: u64, i: int) -> Option<int>
    decreases tbl.len() - i,
{
    if i < 0 || i >= tbl.len() {
        None
    } else if tbl[i].id == id {
        Some(i)
    } else {
        record_index(tbl, id, i + 1)
    }
}

pub open spec fn reg_has(reg: RegView, id: u64) -> bool {
    exists|j: int| 0 <= j < reg.len() && (#[trigger] reg[j]).0 == id
}

pub open spec fn keys_unique(reg: RegView) -> bool {
    forall|i: int, j: int| 0 <= i < j < reg.len() ==> (#[trigger] reg[i]).0 != (#[trigger] reg[j]).0
}

/// One member line of a generated record declaration.
pub open spec fn field_line(f: FieldDef, ty: Seq<char>) -> Seq<char> {
    "        "@ + ty + " "@ + f.name@ + ";\n"@
}

/// The member lines of the first `n` fields.
pub open spec fn fields_text(fields: Seq<FieldDef>, tys: Seq<Seq<char>>, n: int) -> Seq<char>
    decreases n,
{
    if n <= 0 {
        Seq::empty()
    } else {
        fields_text(fields, tys, n - 1) + field_line(fields[n - 1], tys[n - 1])
    }
}

/// The foreign declaration of record `r`, whose fields have foreign types `tys`.
pub open spec fn struct_decl(r: RecordDef, tys: Seq<Seq<char>>) -> Seq<char> {
    "    struct "@ + r.name@ + " {\n"@ + fields_text(r.fields@, tys, r.fields@.len() as int)
        + "    };\n"@
}

/// Number of the first `n` records of `tbl` whose translation is not in progress.
pub open spec fn unvisited(tbl: Seq<RecordDef>, stack: Seq<u64>, n: int) -> nat
    decreases n,
{
    if n <= 0 {
        0
    } else {
        unvisited(tbl, stack, n - 1) + if stack.contains(tbl[n - 1].id) {
            0nat
        } else {
            1nat
        }
    }
}

pub open spec fn type_size(t: HostType) -> nat
    decreases t,
{
    match t {
        HostType::Slice(e) => 1 + type_size(*e),
        _ => 1,
    }
}

pub open spec fn fields_size(fields: Seq<FieldDef>, i: int) -> nat
    decreases fields.len() - i,
{
    if i < 0 || i >= fields.len() {
        0
    } else {
        1 + type_size(fields[i].ty) + fields_size(fields, i + 1)
    }
}

/// Translation of `t` into a foreign type name, given the records of the host
/// (`tbl`), the declarations generated so far (`reg`), and the records whose
/// translation is in progress (`stack`). Returns the name or the error, and the
/// registry afterwards: every record met for the first time is translated field
/// by field, then declared after the records its fields need.
pub open spec fn translation(tbl: Seq<RecordDef>, reg: RegView, stack: Seq<u64>, t: HostType) -> (
    Result<Seq<char>, TypeError>,
    RegView,
)
    decreases unvisited(tbl, stack, tbl.len() as int), type_size(t),
    via translation_decreases
{
    match t {
        HostType::Int(k) => (Ok(int_name(k)), reg),
        HostType::F32 => (Ok("rs::f32"@), reg),
        HostType::F64 => (Ok("rs::f64"@), reg),
        HostType::Bool => (Ok("rs::bool_"@), reg),
        HostType::Str => (Ok("rs::StrSlice"@), reg),
        HostType::TraitObject => (Ok("rs::TraitObject"@), reg),
        HostType::Unsupported => (Err(TypeError::Unsupported), reg),
        HostType::Slice(e) => {
            let (res, r) = translation(tbl, reg, stack, *e);
            match res {
                Ok(n) => (Ok("rs::Slice<"@ + n + ">"@), r),
                Err(x) => (Err(x), r),
            }
        },
        HostType::Record(id) => match record_index(tbl, id, 0) {
            None => (Err(TypeError::Unsupported), reg),
            Some(k) => {
                if reg_has(reg, id) {
                    (Ok(record_name(tbl[k])), reg)
                } else if stack.contains(id) {
                    (Err(TypeError::Cycle), reg)
                } else {
                    let (res, r) = fields_translation(tbl, reg, stack.push(id), tbl[k].fields@, 0);
                    match res {
                        Ok(tys) => (Ok(record_name(tbl[k])), r.push((id, struct_decl(tbl[k], tys)))),
                        Err(x) => (Err(x), r),
                    }
                }
            }
        },
    }
}

/// Translation of the types of `fields[i..]` in order, threading the registry.
pub open spec fn fields_translation(
    tbl: Seq<RecordDef>,
    reg: RegView,
    stack: Seq<u64>,
    fields: Seq<FieldDef>,
    i: int,
) -> (Result<Seq<Seq<char>>, TypeError>, RegView)
    decreases unvisited(tbl, stack, tbl.len() as int), fields_size(fields, i),
{
    if i < 0 || i >= fields.len() {
        (Ok(Seq::empty()), reg)
    } else {
        let (res, r1) = translation(tbl, reg, stack, fields[i].ty);
        match res {
            Err(x) => (Err(x), r1),
            Ok(n) => {
                let (rest, r2) = fields_translation(tbl, r1, stack, fields, i + 1);
                match rest {
                    Ok(ns) => (Ok(seq![n] + ns), r2),
                    Err(x) => (Err(x), r2),
                }
            },
        }
    }
}

proof fn lemma_record_index(tbl: Seq<RecordDef>, id: u64, i: int)
    ensures
        match record_index(tbl, id, i) {
            Some(k) => 0 <= k < tbl.len() && tbl[k].id == id,
            None => true,
        },
    decreases tbl.len() - i,
{
    if 0 <= i < tbl.len() && tbl[i].id != id {
        lemma_record_index(tbl, id, i + 1);
    }
}

proof fn lemma_unvisited_push(tbl: Seq<RecordDef>, stack: Seq<u64>, id: u64, k: int, n: int)
    requires
        0 <= n <= tbl.len(),
        !stack.contains(id),
    ensures
        unvisited(tbl, stack.push(id), n) <= unvisited(tbl, stack, n),
        0 <= k < n && tbl[k].id == id ==> unvisited(tbl, stack.push(id), n) < unvisited(
            tbl,
            stack,
            n,
        ),
    decreases n,
{
    if n > 0 {
        lemma_unvisited_push(tbl, stack, id, k, n - 1);
        let x = tbl[n - 1].id;
        if stack.contains(x) {
            let j = choose|j: int| 0 <= j < stack.len() && stack[j] == x;
            assert(stack.push(id)[j] == x);
        }
        if x == id {
            assert(stack.push(id)[stack.len() as int] == x);
        }
    }
}

#[via_fn]
proof fn translation_decreases(tbl: Seq<RecordDef>, reg: RegView, stack: Seq<u64>, t: HostType) {
    if let HostType::Record(id) = t {
        lemma_record_index(tbl, id, 0);
        if let Some(k) = record_index(tbl, id, 0) {
            if !stack.contains(id) {
                lemma_unvisited_push(tbl, stack, id, k, tbl.len() as int);
            }
        }
    }
}

fn find_record(tbl: &Vec<RecordDef>, id: u64) -> (r: Option<usize>)
    ensures
        match record_index(tbl@, id, 0) {
            Some(k) => r matches Some(j) && j as int == k,
            None => r is None,
        },
{
    let mut i: usize = 0;
    while i < tbl.len()
        invariant
            i <= tbl@.len(),
            record_index(tbl@, id, 0) == record_index(tbl@, id, i as int),
        decreases tbl@.len() - i,
    {
        if tbl[i].id == id {
            return Some(i);
        }
        i = i + 1;
    }
    None
}

fn registry_has(reg: &TypeRegistry, id: u64) -> (r: bool)
    ensures
        r == reg_has(reg@, id),
{
    let mut i: usize = 0;
    while i < reg.entries.len()
        invariant
            i <= reg.entries@.len(),
            forall|j: int| 0 <= j < i ==> (#[trigger] reg@[j]).0 != id,
        decreases reg.entries@.len() - i,
    {
        if reg.entries[i].key == id {
            assert(reg@[i as int].0 == id);
            return true;
        }
        i = i + 1;
    }
    false
}

fn stack_contains(stack: &Vec<u64>, id: u64) -> (r: bool)
    ensures
        r == stack@.contains(id),
{
    let mut i: usize = 0;
    while i < stack.len()
        invariant
            i <= stack@.len(),
            forall|j: int| 0 <= j < i ==> stack@[j] != id,
        decreases stack@.len() - i,
    {
        if stack[i] == id {
            assert(stack@[i as int] == id);
            return true;
        }
        i = i + 1;
    }
    false
}

fn int_name_of(k: IntTy) -> (r: String)
    ensures
        r@ == int_name(k),
{
    let s = match k {
        IntTy::I8 => "rs::i8",
        IntTy::I16 => "rs::i16",
        IntTy::I32 => "rs::i32",
        IntTy::I64 => "rs::i64",
        IntTy::Isize => "rs::isize",
        IntTy::U8 => "rs::u8",
        IntTy::U16 => "rs::u16",
        IntTy::U32 => "rs::u32",
        IntTy::U64 => "rs::u64",
        IntTy::Usize => "rs::usize",
    };
    String::from_str(s)
}

fn record_name_of(r: &RecordDef) -> (s: String)
    ensures
        s@ == record_name(*r),
{
    let mut s = String::from_str("rs::");
    s.append(r.name.as_str());
    s
}

fn struct_decl_of(r: &RecordDef, tys: &Vec<String>) -> (s: String)
    requires
        tys@.len() == r.fields@.len(),
    ensures
        s@ == struct_decl(*r, tys@.map_values(|t: String| t@)),
{
    let ghost tv = tys@.map_values(|t: String| t@);
    let mut s = String::from_str("    struct ");
    s.append(r.name.as_str());
    s.append(" {\n");
    let ghost head = s@;
    let mut i: usize = 0;
    while i < r.fields.len()
        invariant
            i <= r.fields@.len(),
            tys@.len() == r.fields@.len(),
            tv == tys@.map_values(|t: String| t@),
            s@ == head + fields_text(r.fields@, tv, i as int),
        decreases r.fields@.len() - i,
    {
        let ghost before = s@;
        s.append("        ");
        s.append(tys[i].as_str());
        s.append(" ");
        s.append(r.fields[i].name.as_str());
        s.append(";\n");
        assert(s@ =~= before + field_line(r.fields@[i as int], tv[i as int]));
        i = i + 1;
    }
    s.append("    };\n");
    s
}

proof fn lemma_push_view(v: Seq<TypeEntry>, e: TypeEntry)
    ensures
        v.push(e).map_values(|x: TypeEntry| (x.key, x.decl@)) =~= v.map_values(
            |x: TypeEntry| (x.key, x.decl@),
        ).push((e.key, e.decl@)),
{
}

fn translate_in(
    tbl: &Vec<RecordDef>,
    reg: &mut TypeRegistry,
    stack: &mut Vec<u64>,
    t: &HostType,
) -> (r: Result<String, TypeError>)
    ensures
        final(stack)@ == old(stack)@,
        final(reg)@ == translation(tbl@, old(reg)@, old(stack)@, *t).1,
        match translation(tbl@, old(reg)@, old(stack)@, *t).0 {
            Ok(n) => r matches Ok(s) && s@ == n,
            Err(x) => r == Err::<String, TypeError>(x),
        },
    decreases unvisited(tbl@, old(stack)@, tbl@.len() as int), type_size(*t),
{
    match t {
        HostType::Int(k) => Ok(int_name_of(*k)),
        HostType::F32 => Ok(String::from_str("rs::f32")),
        HostType::F64 => Ok(String::from_str("rs::f64")),
        HostType::Bool => Ok(String::from_str("rs::bool_")),
        HostType::Str => Ok(String::from_str("rs::StrSlice")),
        HostType::TraitObject => Ok(String::from_str("rs::TraitObject")),
        HostType::Unsupported => Err(TypeError::Unsupported),
        HostType::Slice(e) => {
            match translate_in(tbl, reg, stack, &**e) {
                Ok(n) => {
                    let mut s = String::from_str("rs::Slice<");
                    s.append(n.as_str());
                    s.append(">");
                    Ok(s)
                },
                Err(x) => Err(x),
            }
        },
        HostType::Record(id) => {
            let id = *id;
            proof {
                lemma_record_index(tbl@, id, 0);
            }
            match find_record(tbl, id) {
                None => Err(TypeError::Unsupported),
                Some(k) => {
                    let rec = &tbl[k];
                    if registry_has(reg, id) {
                        Ok(record_name_of(rec))
                    } else if stack_contains(stack, id) {
                        Err(TypeError::Cycle)
                    } else {
                        proof {
                            lemma_unvisited_push(tbl@, stack@, id, k as int, tbl@.len() as int);
                        }
                        let ghost st = stack@;
                        stack.push(id);
                        let res = translate_fields(tbl, reg, stack, &rec.fields, 0);
                        stack.pop();
                        assert(stack@ =~= st);
                        match res {
                            Ok(tys) => {
                                let decl = struct_decl_of(rec, &tys);
                                let entry = TypeEntry { key: id, decl };
                                proof {
                                    lemma_push_view(reg.entries@, entry);
                                }
                                reg.entries.push(entry);
                                Ok(record_name_of(rec))
                            },
                            Err(x) => Err(x),
                        }
                    }
                },
            }
        },
    }
}

fn translate_fields(
    tbl: &Vec<RecordDef>,
    reg: &mut TypeRegistry,
    stack: &mut Vec<u64>,
    fields: &Vec<FieldDef>,
    i: usize,
) -> (r: Result<Vec<String>, TypeError>)
    requires
        i <= fields@.len(),
    ensures
        final(stack)@ == old(stack)@,
        final(reg)@ == fields_translation(tbl@, old(reg)@, old(stack)@, fields@, i as int).1,
        match fields_translation(tbl@, old(reg)@, old(stack)@, fields@, i as int).0 {
            Ok(ns) => r matches Ok(v) && v@.map_values(|s: String| s@) == ns && v@.len()
                == fields@.len() - i,
            Err(x) => r == Err::<Vec<String>, TypeError>(x),
        },
    decreases unvisited(tbl@, old(stack)@, tbl@.len() as int), fields_size(fields@, i as int),
{
    if i >= fields.len() {
        let v: Vec<String> = Vec::new();
        assert(v@.map_values(|s: String| s@) =~= Seq::<Seq<char>>::empty());
        return Ok(v);
    }
    match translate_in(tbl, reg, stack, &fields[i].ty) {
        Err(x) => Err(x),
        Ok(n) => {
            match translate_fields(tbl, reg, stack, fields, i + 1) {
                Ok(mut v) => {
                    let ghost nv = n@;
                    let ghost vv = v@;
                    v.insert(0, n);
                    assert(v@.map_values(|s: String| s@) =~= seq![nv] + vv.map_values(
                        |s: String| s@,
                    ));
                    Ok(v)
                },
                Err(x) => Err(x),
            }
        },
    }
}

impl TypeRegistry {
    /// Each host record has at most one declaration.
    pub open spec fn wf(&self) -> bool {
        keys_unique(self@)
    }

    /// An empty registry.
    pub fn new() -> (r: TypeRegistry)
        ensures
            r@ == Seq::<(u64, Seq<char>)>::empty(),
            r.wf(),
    {
        let r = TypeRegistry { entries: Vec::new() };
        assert(r@ =~= Seq::<(u64, Seq<char>)>::empty());
        r
    }

    /// Translates host type `t` into a foreign type name, declaring every
    /// record that `t` needs and that is not declared yet.
    pub fn translate(&mut self, tbl: &Vec<RecordDef>, t: &HostType) -> (r: Result<String, TypeError>)
        ensures
            final(self)@ == translation(tbl@, old(self)@, seq![], *t).1,
            match translation(tbl@, old(self)@, seq![], *t).0 {
                Ok(n) => r matches Ok(s) && s@ == n,
                Err(x) => r == Err::<String, TypeError>(x),
            },
            old(self).wf() ==> final(self).wf(),
    {
        proof {
            lemma_translation_keys(tbl@, self@, seq![], *t);
        }
        let mut stack: Vec<u64> = Vec::new();
        assert(stack@ =~= Seq::<u64>::empty());
        translate_in(tbl, self, &mut stack, t)
    }
}

/// Whether every entry of `r` from index `n` on has a key outside `stack` and
/// outside `reg`.
pub open spec fn fresh_from(r: RegView, n: int, reg: RegView, stack: Seq<u64>) -> bool {
    forall|j: int|
        n <= j < r.len() ==> !stack.contains((#[trigger] r[j]).0) && !reg_has(reg, r[j].0)
}

pub open spec fn extends(r: RegView, reg: RegView) -> bool {
    r.len() >= reg.len() && r.subrange(0, reg.len() as int) == reg
}

proof fn lemma_extends_has(r: RegView, reg: RegView, id: u64)
    requires
        extends(r, reg),
        reg_has(reg, id),
    ensures
        reg_has(r, id),
{
    let j = choose|j: int| 0 <= j < reg.len() && (#[trigger] reg[j]).0 == id;
    assert(r.subrange(0, reg.len() as int)[j] == r[j]);
}

/// A translation only appends to the registry, with keys that are neither
/// in progress nor declared before; so it keeps the keys unique.
pub proof fn lemma_translation_keys(tbl: Seq<RecordDef>, reg: RegView, stack: Seq<u64>, t: HostType)
    ensures
        extends(translation(tbl, reg, stack, t).1, reg),
        fresh_from(translation(tbl, reg, stack, t).1, reg.len() as int, reg, stack),
        keys_unique(reg) ==> keys_unique(translation(tbl, reg, stack, t).1),
    decreases unvisited(tbl, stack, tbl.len() as int), type_size(t),
{
    assert(reg.subrange(0, reg.len() as int) =~= reg);
    match t {
        HostType::Slice(e) => {
            lemma_translation_keys(tbl, reg, stack, *e);
        },
        HostType::Record(id) => {
            lemma_record_index(tbl, id, 0);
            if let Some(k) = record_index(tbl, id, 0) {
                if !reg_has(reg, id) && !stack.contains(id) {
                    let st = stack.push(id);
                    lemma_unvisited_push(tbl, stack, id, k, tbl.len() as int);
                    lemma_fields_keys(tbl, reg, st, tbl[k].fields@, 0);
                    let (res, r1) = fields_translation(tbl, reg, st, tbl[k].fields@, 0);
                    assert forall|j: int| reg.len() <= j < r1.len() implies !stack.contains(
                        (#[trigger] r1[j]).0,
                    ) by {
                        if stack.contains(r1[j].0) {
                            let q = choose|q: int| 0 <= q < stack.len() && stack[q] == r1[j].0;
                            assert(st[q] == r1[j].0);
                        }
                    }
                    if let Ok(tys) = res {
                        let r = r1.push((id, struct_decl(tbl[k], tys)));
                        assert forall|j: int| reg.len() <= j < r1.len() implies (#[trigger] r1[j]).0
                            != id by {
                            assert(st[stack.len() as int] == id);
                        }
                        assert forall|j: int|
                            reg.len() <= j < r.len() implies !stack.contains(
                            (#[trigger] r[j]).0,
                        ) && !reg_has(reg, r[j].0) by {
                            if j < r1.len() {
                                assert(r[j] == r1[j]);
                            }
                        }
                        assert(r.subrange(0, reg.len() as int) =~= r1.subrange(0, reg.len() as int));
                        if keys_unique(reg) {
                            assert forall|a: int, b: int| 0 <= a < b < r.len() implies (#[trigger] r[a]).0
                                != (#[trigger] r[b]).0 by {
                                if b == r1.len() {
                                    assert(r[a] == r1[a]);
                                    if a < reg.len() {
                                        assert(r1.subrange(0, reg.len() as int)[a] == r1[a]);
                                        assert(reg[a] == r1[a]);
                                    }
                                } else {
                                    assert(r[a] == r1[a] && r[b] == r1[b]);
                                }
                            }
                        }
                    }
                }
            }
        },
        _ => {},
    }
}

proof fn lemma_fields_keys(
    tbl: Seq<RecordDef>,
    reg: RegView,
    stack: Seq<u64>,
    fields: Seq<FieldDef>,
    i: int,
)
    ensures
        extends(fields_translation(tbl, reg, stack, fields, i).1, reg),
        fresh_from(fields_translation(tbl, reg, stack, fields, i).1, reg.len() as int, reg, stack),
        keys_unique(reg) ==> keys_unique(fields_translation(tbl, reg, stack, fields, i).1),
    decreases unvisited(tbl, stack, tbl.len() as int), fields_size(fields, i),
{
    assert(reg.subrange(0, reg.len() as int) =~= reg);
    if 0 <= i < fields.len() {
        lemma_translation_keys(tbl, reg, stack, fields[i].ty);
        let (res, r1) = translation(tbl, reg, stack, fields[i].ty);
        if res is Ok {
            lemma_fields_keys(tbl, r1, stack, fields, i + 1);
            let r2 = fields_translation(tbl, r1, stack, fields, i + 1).1;
            assert(r2.subrange(0, reg.len() as int) =~= r2.subrange(0, r1.len() as int).subrange(
                0,
                reg.len() as int,
            ));
            assert forall|j: int|
                reg.len() <= j < r2.len() implies !stack.contains((#[trigger] r2[j]).0) && !reg_has(
                reg,
                r2[j].0,
            ) by {
                if j < r1.len() {
                    assert(r2.subrange(0, r1.len() as int)[j] == r2[j]);
                } else if reg_has(reg, r2[j].0) {
                    lemma_extends_has(r1, reg, r2[j].0);
                }
            }
        }
    }
}

proof fn lemma_translation_twice(tbl: Seq<RecordDef>, reg: RegView, s1: Seq<u64>, s2: Seq<u64>, t: HostType)
    requires
        translation(tbl, reg, s1, t).0 is Ok,
    ensures
        translation(tbl, translation(tbl, reg, s1, t).1, s2, t) == translation(tbl, reg, s1, t),
        t matches HostType::Record(id) ==> reg_has(translation(tbl, reg, s1, t).1, id),
    decreases t,
{
    match t {
        HostType::Slice(e) => {
            lemma_translation_twice(tbl, reg, s1, s2, *e);
        },
        HostType::Record(id) => {
            let r = translation(tbl, reg, s1, t).1;
            if !reg_has(reg, id) {
                assert(r[r.len() - 1].0 == id);
            }
        },
        _ => {},
    }
}

/// Translating the same host type twice, the second time against the registry
/// that the first left, gives the same foreign name and leaves the registry
/// unchanged; a record translated so has exactly one declaration.
pub proof fn lemma_translate_idempotent(tbl: Seq<RecordDef>, reg: RegView, t: HostType)
    requires
        keys_unique(reg),
        translation(tbl, reg, seq![], t).0 is Ok,
    ensures
        ({
            let (res1, r1) = translation(tbl, reg, seq![], t);
            let (res2, r2) = translation(tbl, r1, seq![], t);
            &&& res2 == res1
            &&& r2 == r1
            &&& keys_unique(r2)
            &&& t matches HostType::Record(id) ==> exists|j: int|
                0 <= j < r2.len() && r2[j].0 == id && forall|q: int|
                    0 <= q < r2.len() && (#[trigger] r2[q]).0 == id ==> q == j
        }),
{
    lemma_translation_twice(tbl, reg, seq![], seq![], t);
    lemma_translation_keys(tbl, reg, seq![], t);
    let r1 = translation(tbl, reg, seq![], t).1;
    if let HostType::Record(id) = t {
        let j = choose|j: int| 0 <= j < r1.len() && (#[trigger] r1[j]).0 == id;
        assert forall|q: int| 0 <= q < r1.len() && (#[trigger] r1[q]).0 == id implies q == j by {
            if q < j {
                assert(r1[q].0 != r1[j].0);
            } else if q > j {
                assert(r1[j].0 != r1[q].0);
            }
        }
    }
}

} // verus!
