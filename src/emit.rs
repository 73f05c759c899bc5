use vstd::prelude::*;
use crate::block::{ArgView, BlockView, CapturedArg, EmbeddedBlock, blocks_view};
use crate::foreign::{RegView, TypeRegistry, placeholder_name};

verus! {

/// Pointer width of the compilation target.
#[derive(Clone, Copy, Debug, PartialEq, Eq, Structural)]
pub enum PointerWidth {
    W16,
    W32,
    W64,
}

pub const PREAMBLE_HEAD: &'static str = "
/******************************
 * rust-cpp glue for cpp! blocks *
 ******************************/

/* cstdint includes sane type definitions for integer types */
#include <cstdint>

/* the rs:: namespace contains rust-defined types */
namespace rs {
    /* A slice from rust code */
    /* Can be used to interact with, pass around, and return Rust slices */
    template<class T>
    struct Slice {
        const T*  data;
        uintptr_t len;
    };

    /* A string slice is simply a slice of utf-8 encoded characters */
    typedef Slice<uint8_t> StrSlice;

    /* A trait object is composed of a data pointer and a vtable */
    struct TraitObject {
        void* data;
        void* vtable;
    };

    /* A dummy struct which stands for incompatible types that are closed over */
    struct __Dummy;


    /* Typedefs for integral and floating point types */
    typedef uint8_t u8;
    typedef uint16_t u16;
    typedef uint32_t u32;
    typedef uint64_t u64;
    typedef ";

pub const PREAMBLE_MID: &'static str = " usize;

    typedef int8_t i8;
    typedef int16_t i16;
    typedef int32_t i32;
    typedef int64_t i64;
    typedef ";

pub const FLOAT_ASSERTS: &'static str = " isize;

    typedef float f32;
    static_assert(sizeof(f32) == 4, \"C++ `float` isn't 32 bits wide\");

    typedef double f64;
    static_assert(sizeof(f64) == 8, \"C++ `double` isn't 64 bits wide\");
";

pub const PREAMBLE_TAIL: &'static str = "
    /* We use this bool type to ensure that our bools are 1 byte wide */
    typedef i8 bool_;
}
";

pub const HEADERS_OPEN: &'static str = "
/* Headers of the cpp! blocks */
";

pub const TYPES_OPEN: &'static str = "

/* Rust types used by the cpp! blocks */
namespace rs {

";

pub const TYPES_CLOSE: &'static str = "
} // namespace rs

/* Functions of the cpp! blocks */
extern \"C\" {";

pub const DOC_END: &'static str = "}
";

/// The unsigned pointer-sized typedef target for a pointer width.
pub open spec fn uint_of(w: PointerWidth) -> Seq<char> {
    match w {
        PointerWidth::W16 => "u16"@,
        PointerWidth::W32 => "u32"@,
        PointerWidth::W64 => "u64"@,
    }
}

/// The signed pointer-sized typedef target for a pointer width.
pub open spec fn sint_of(w: PointerWidth) -> Seq<char> {
    match w {
        PointerWidth::W16 => "i16"@,
        PointerWidth::W32 => "i32"@,
        PointerWidth::W64 => "i64"@,
    }
}

/// The fixed preamble, with its pointer-sized typedefs for width `w`.
pub open spec fn preamble(w: PointerWidth) -> Seq<char> {
    PREAMBLE_HEAD@ + uint_of(w) + PREAMBLE_MID@ + sint_of(w) + FLOAT_ASSERTS@ + PREAMBLE_TAIL@
}

pub open spec fn ty_or_placeholder(o: Option<Seq<char>>) -> Seq<char> {
    match o {
        Some(t) => t,
        None => placeholder_name(),
    }
}

/// A by-reference parameter: a pointer to const of the argument's foreign type.
pub open spec fn param(a: ArgView) -> Seq<char> {
    "const "@ + ty_or_placeholder(a.1) + "* "@ + a.0
}

/// The first `n` parameters, separated by commas.
pub open spec fn params_text(args: Seq<ArgView>, n: int) -> Seq<char>
    decreases n,
{
    if n <= 0 {
        Seq::empty()
    } else if n == 1 {
        param(args[0])
    } else {
        params_text(args, n - 1) + ", "@ + param(args[n - 1])
    }
}

/// The extern function declaration of a block.
pub open spec fn fn_decl(b: BlockView) -> Seq<char> {
    ty_or_placeholder(b.ret) + " "@ + b.name + "("@ + params_text(b.args, b.args.len() as int)
        + ");"@
}

pub open spec fn fn_decls_text(bs: Seq<BlockView>, n: int) -> Seq<char>
    decreases n,
{
    if n <= 0 {
        Seq::empty()
    } else {
        fn_decls_text(bs, n - 1) + "\n"@ + fn_decl(bs[n - 1]) + "\n"@
    }
}

pub open spec fn type_decls_text(reg: RegView, n: int) -> Seq<char>
    decreases n,
{
    if n <= 0 {
        Seq::empty()
    } else {
        type_decls_text(reg, n - 1) + reg[n - 1].1
    }
}

/// The whole foreign source document.
pub open spec fn document(
    w: PointerWidth,
    headers: Seq<char>,
    reg: RegView,
    blocks: Seq<BlockView>,
) -> Seq<char> {
    preamble(w) + HEADERS_OPEN@ + headers + TYPES_OPEN@ + type_decls_text(reg, reg.len() as int)
        + TYPES_CLOSE@ + fn_decls_text(blocks, blocks.len() as int) + DOC_END@
}

/// Renders the preamble for pointer width `w`.
pub fn render_preamble(w: PointerWidth) -> (r: String)
    ensures
        r@ == preamble(w),
{
    let (u, i) = match w {
        PointerWidth::W16 => ("u16", "i16"),
        PointerWidth::W32 => ("u32", "i32"),
        PointerWidth::W64 => ("u64", "i64"),
    };
    let mut s = String::from_str(PREAMBLE_HEAD);
    s.append(u);
    s.append(PREAMBLE_MID);
    s.append(i);
    s.append(FLOAT_ASSERTS);
    s.append(PREAMBLE_TAIL);
    s
}

fn append_ty(s: &mut String, o: &Option<String>)
    ensures
        final(s)@ == old(s)@ + ty_or_placeholder(opt_view_of(o)),
{
    match o {
        Some(t) => s.append(t.as_str()),
        None => s.append("rs::__Dummy"),
    }
}

pub open spec fn opt_view_of(o: &Option<String>) -> Option<Seq<char>> {
    crate::block::opt_view(*o)
}

/// Renders the extern declaration of one block.
pub fn render_fn_decl(b: &EmbeddedBlock) -> (r: String)
    ensures
        r@ == fn_decl(b@),
{
    let ghost bv = b@;
    let mut s = String::new();
    append_ty(&mut s, &b.ret_ty);
    s.append(" ");
    s.append(b.name.as_str());
    s.append("(");
    let ghost head = s@;
    let mut i: usize = 0;
    while i < b.args.len()
        invariant
            i <= b.args@.len(),
            bv == b@,
            s@ == head + params_text(bv.args, i as int),
        decreases b.args@.len() - i,
    {
        let ghost before = s@;
        let a: &CapturedArg = &b.args[i];
        assert(bv.args[i as int] == a@);
        if i > 0 {
            s.append(", ");
        }
        s.append("const ");
        append_ty(&mut s, &a.ty);
        s.append("* ");
        s.append(a.ident.as_str());
        if i > 0 {
            assert(s@ =~= before + ", "@ + param(a@));
        } else {
            assert(s@ =~= before + param(a@));
        }
        i = i + 1;
    }
    s.append(");");
    s
}

/// Renders the whole foreign source document.
pub fn render_document(
    w: PointerWidth,
    headers: &String,
    reg: &TypeRegistry,
    blocks: &Vec<EmbeddedBlock>,
) -> (r: String)
    ensures
        r@ == document(w, headers@, reg@, blocks_view(blocks@)),
{
    let ghost bv = blocks_view(blocks@);
    let ghost rv = reg@;
    let mut s = render_preamble(w);
    s.append(HEADERS_OPEN);
    s.append(headers.as_str());
    s.append(TYPES_OPEN);
    let ghost head = s@;
    let mut i: usize = 0;
    while i < reg.entries.len()
        invariant
            i <= reg.entries@.len(),
            rv == reg@,
            s@ == head + type_decls_text(rv, i as int),
        decreases reg.entries@.len() - i,
    {
        let ghost before = s@;
        s.append(reg.entries[i].decl.as_str());
        assert(s@ =~= before + rv[i as int].1);
        i = i + 1;
    }
    s.append(TYPES_CLOSE);
    let ghost mid = s@;
    let mut j: usize = 0;
    while j < blocks.len()
        invariant
            j <= blocks@.len(),
            bv == blocks_view(blocks@),
            s@ == mid + fn_decls_text(bv, j as int),
        decreases blocks@.len() - j,
    {
        let ghost before = s@;
        let d = render_fn_decl(&blocks[j]);
        s.append("\n");
        s.append(d.as_str());
        s.append("\n");
        assert(s@ =~= before + "\n"@ + fn_decl(bv[j as int]) + "\n"@);
        j = j + 1;
    }
    s.append(DOC_END);
    s
}

/// The pointer-sized typedefs of the preamble differ between 32-bit and 64-bit
/// targets, while the float-width static assertions stand verbatim, at one and
/// the same place, whatever the target.
pub proof fn lemma_preamble_width(w: PointerWidth)
    ensures
        preamble(PointerWidth::W32) != preamble(PointerWidth::W64),
        ({
            let at = PREAMBLE_HEAD@.len() + 3 + PREAMBLE_MID@.len() + 3;
            let at = at as int;
            preamble(w).subrange(at, at + FLOAT_ASSERTS@.len() as int) == FLOAT_ASSERTS@
        }),
{
    reveal_strlit("u16");
    reveal_strlit("u32");
    reveal_strlit("u64");
    reveal_strlit("i16");
    reveal_strlit("i32");
    reveal_strlit("i64");
    let h = PREAMBLE_HEAD@.len() as int;
    assert(preamble(PointerWidth::W32)[h + 1] == '3');
    assert(preamble(PointerWidth::W64)[h + 1] == '6');
    let at = h + 3 + PREAMBLE_MID@.len() + 3;
    assert(preamble(w).subrange(at, at + FLOAT_ASSERTS@.len() as int) =~= FLOAT_ASSERTS@);
}

proof fn lemma_params_prefix(args: Seq<ArgView>, a: ArgView, n: int)
    requires
        n <= args.len(),
    ensures
        params_text(args.push(a), n) == params_text(args, n),
    decreases n,
{
    if n > 1 {
        lemma_params_prefix(args, a, n - 1);
    }
}

/// The parameter list follows capture order: one more capture appends its own
/// parameter, `const T* ident`, after the parameters of the earlier captures,
/// which stay as they were.
pub proof fn lemma_capture_appends_param(args: Seq<ArgView>, a: ArgView)
    ensures
        params_text(args.push(a), args.len() + 1 as int) == if args.len() == 0 {
            param(a)
        } else {
            params_text(args, args.len() as int) + ", "@ + param(a)
        },
{
    lemma_params_prefix(args, a, args.len() as int);
    assert(args.push(a)[args.len() as int] == a);
}

} // verus!
