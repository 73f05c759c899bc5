use vstd::prelude::*;
use crate::block::{BlockView, CapturedArg, EmbeddedBlock, all_resolved, blocks_view};
use crate::emit::{PointerWidth, document, render_document};
use crate::foreign::{
    HostType,
    RecordDef,
    RegView,
    TypeError,
    TypeRegistry,
    keys_unique,
    lemma_translation_keys,
    placeholder_name,
    translation,
};

verus! {

/// Where the recorder stands in the visit of a compilation unit.
#[derive(Clone, Copy, Debug, PartialEq, Eq, Structural)]
pub enum Phase {
    /// Call sites are being visited.
    Scanning,
    /// Every block was resolved and the document was handed out, once.
    Finalized,
    /// A fatal diagnostic stopped the pass; no document is produced.
    Aborted,
}

/// The position of a block that a diagnostic is about.
#[derive(Clone, Copy, Debug, PartialEq, Eq, Structural)]
pub enum Role {
    Return,
    Argument(usize),
}

#[derive(Clone, Copy, Debug, PartialEq, Eq, Structural)]
pub enum Problem {
    /// The type has no foreign mapping.
    Unsupported,
    /// The record types refer to each other in a cycle.
    Cycle,
    /// The argument is not the double-cast reference that the front end emits.
    MalformedArgument,
}

/// A diagnostic about block number `block` of the registry.
#[derive(Clone, Copy, Debug, PartialEq, Eq, Structural)]
pub struct Diagnostic {
    pub block: usize,
    pub role: Role,
    pub problem: Problem,
}

/// The shape of an argument expression at a block's call site.
#[derive(Debug)]
pub enum ArgExpr {
    Cast(Box<ArgExpr>),
    AddrOf(HostType),
    Other,
}

/// A call expression of the host program, with its resolved type.
#[derive(Debug)]
pub struct CallExpr {
    pub path: Vec<String>,
    pub ty: HostType,
    pub args: Vec<ArgExpr>,
}

pub struct CallView {
    pub path: Seq<Seq<char>>,
    pub ty: HostType,
    pub args: Seq<ArgExpr>,
}

impl View for CallExpr {
    type V = CallView;

    open spec fn view(&self) -> CallView {
        CallView { path: self.path@.map_values(|s: String| s@), ty: self.ty, args: self.args@ }
    }
}

/// What a visit of a call site led to.
#[derive(Debug)]
pub enum Step {
    /// The call is not a block waiting for its types.
    Ignored,
    /// The block's types were recorded; other blocks still wait.
    Recorded,
    /// The last waiting block was resolved: the foreign document to compile.
    Emit(String),
}

pub enum StepView {
    Ignored,
    Recorded,
    Emit(Seq<char>),
}

impl View for Step {
    type V = StepView;

    open spec fn view(&self) -> StepView {
        match self {
            Step::Ignored => StepView::Ignored,
            Step::Recorded => StepView::Recorded,
            Step::Emit(s) => StepView::Emit(s@),
        }
    }
}

/// The state of one compilation unit's pass: the host's record definitions,
/// the generated declarations, the blocks, the blocks' headers and compiler
/// flags, the soft diagnostics, and the phase.
pub struct CppLintPass {
    pub width: PointerWidth,
    pub records: Vec<RecordDef>,
    pub registry: TypeRegistry,
    pub blocks: Vec<EmbeddedBlock>,
    pub headers: String,
    pub flags: Vec<String>,
    pub warnings: Vec<Diagnostic>,
    pub phase: Phase,
}

pub struct PassView {
    pub width: PointerWidth,
    pub records: Seq<RecordDef>,
    pub registry: RegView,
    pub blocks: Seq<BlockView>,
    pub headers: Seq<char>,
    pub flags: Seq<Seq<char>>,
    pub warnings: Seq<Diagnostic>,
    pub phase: Phase,
}

impl View for CppLintPass {
    type V = PassView;

    open spec fn view(&self) -> PassView {
        PassView {
            width: self.width,
            records: self.records@,
            registry: self.registry@,
            blocks: blocks_view(self.blocks@),
            headers: self.headers@,
            flags: self.flags@.map_values(|s: String| s@),
            warnings: self.warnings@,
            phase: self.phase,
        }
    }
}

/// Index of the first block at or after `i` named `name`.
pub open spec fn block_index(bs: Seq<BlockView>, name: Seq<char>, i: int) -> Option<int>
    decreases bs.len() - i,
{
    if i < 0 || i >= bs.len() {
        None
    } else if bs[i].name == name {
        Some(i)
    } else {
        block_index(bs, name, i + 1)
    }
}

/// The referenced expression's type, when `a` has the shape `(&e as T1) as T2`.
pub open spec fn arg_inner(a: ArgExpr) -> Option<HostType> {
    match a {
        ArgExpr::Cast(b) => match *b {
            ArgExpr::Cast(c) => match *c {
                ArgExpr::AddrOf(t) => Some(t),
                _ => None,
            },
            _ => None,
        },
        _ => None,
    }
}

pub open spec fn inner_ty(a: ArgExpr) -> HostType {
    match arg_inner(a) {
        Some(t) => t,
        None => HostType::Unsupported,
    }
}

/// The first argument position, from `i` on, where the call's arguments do not
/// match a block with `n` captures: a malformed argument, or a missing or extra one.
pub open spec fn first_bad(args: Seq<ArgExpr>, n: int, i: int) -> Option<int>
    decreases args.len() - i,
{
    if i >= args.len() {
        if args.len() != n {
            Some(args.len() as int)
        } else {
            None
        }
    } else if i >= n || arg_inner(args[i]) is None {
        Some(i)
    } else {
        first_bad(args, n, i + 1)
    }
}

/// Resolution of the first `n` captured argument types of block `b`, each by
/// reference: the foreign names (a placeholder where no mapping exists), or the
/// position of a record cycle; the soft diagnostics; and the registry after.
pub open spec fn args_resolution(
    tbl: Seq<RecordDef>,
    reg: RegView,
    args: Seq<ArgExpr>,
    b: usize,
    n: int,
) -> (Result<Seq<Seq<char>>, int>, Seq<Diagnostic>, RegView)
    decreases n,
{
    if n <= 0 {
        (Ok(seq![]), seq![], reg)
    } else {
        let (res, warns, r) = args_resolution(tbl, reg, args, b, n - 1);
        match res {
            Err(i) => (Err(i), warns, r),
            Ok(names) => {
                let (t, r2) = translation(tbl, r, seq![], inner_ty(args[n - 1]));
                match t {
                    Ok(nm) => (Ok(names.push(nm)), warns, r2),
                    Err(TypeError::Unsupported) => (
                        Ok(names.push(placeholder_name())),
                        warns.push(
                            Diagnostic {
                                block: b,
                                role: Role::Argument((n - 1) as usize),
                                problem: Problem::Unsupported,
                            },
                        ),
                        r2,
                    ),
                    Err(TypeError::Cycle) => (Err(n - 1), warns, r2),
                }
            },
        }
    }
}

pub open spec fn problem_of(e: TypeError) -> Problem {
    match e {
        TypeError::Unsupported => Problem::Unsupported,
        TypeError::Cycle => Problem::Cycle,
    }
}

/// Block `bv` with its return type and its argument types filled in.
pub open spec fn resolved(bv: BlockView, ret: Seq<char>, names: Seq<Seq<char>>) -> BlockView {
    BlockView {
        name: bv.name,
        args: Seq::new(bv.args.len(), |i: int| (bv.args[i].0, Some(names[i]))),
        ret: Some(ret),
    }
}

/// The effect of visiting call site `c` on pass `p`: the pass afterwards and
/// the outcome. Only a call of a waiting block while scanning does anything; a
/// malformed argument, an unsupported or cyclic return type, or a cyclic
/// argument type aborts; the visit that resolves the last waiting block
/// renders the document and finalizes.
pub open spec fn visit(p: PassView, c: CallView) -> (PassView, Result<StepView, Diagnostic>) {
    if p.phase != Phase::Scanning || c.path.len() != 1 {
        (p, Ok(StepView::Ignored))
    } else {
        match block_index(p.blocks, c.path[0], 0) {
            None => (p, Ok(StepView::Ignored)),
            Some(b) => if p.blocks[b].ret is Some {
                (p, Ok(StepView::Ignored))
            } else {
                match first_bad(c.args, p.blocks[b].args.len() as int, 0) {
                    Some(i) => (
                        PassView { phase: Phase::Aborted, ..p },
                        Err(
                            Diagnostic {
                                block: b as usize,
                                role: Role::Argument(i as usize),
                                problem: Problem::MalformedArgument,
                            },
                        ),
                    ),
                    None => {
                        let (rt, r1) = translation(p.records, p.registry, seq![], c.ty);
                        match rt {
                            Err(e) => (
                                PassView { phase: Phase::Aborted, registry: r1, ..p },
                                Err(
                                    Diagnostic {
                                        block: b as usize,
                                        role: Role::Return,
                                        problem: problem_of(e),
                                    },
                                ),
                            ),
                            Ok(ret) => {
                                let (ar, warns, r2) = args_resolution(
                                    p.records,
                                    r1,
                                    c.args,
                                    b as usize,
                                    c.args.len() as int,
                                );
                                let warnings = p.warnings + warns;
                                match ar {
                                    Err(i) => (
                                        PassView {
                                            phase: Phase::Aborted,
                                            registry: r2,
                                            warnings,
                                            ..p
                                        },
                                        Err(
                                            Diagnostic {
                                                block: b as usize,
                                                role: Role::Argument(i as usize),
                                                problem: Problem::Cycle,
                                            },
                                        ),
                                    ),
                                    Ok(names) => {
                                        let blocks = p.blocks.update(
                                            b,
                                            resolved(p.blocks[b], ret, names),
                                        );
                                        if all_resolved(blocks) {
                                            (
                                                PassView {
                                                    phase: Phase::Finalized,
                                                    registry: r2,
                                                    blocks,
                                                    warnings,
                                                    ..p
                                                },
                                                Ok(
                                                    StepView::Emit(
                                                        document(p.width, p.headers, r2, blocks),
                                                    ),
                                                ),
                                            )
                                        } else {
                                            (
                                                PassView { registry: r2, blocks, warnings, ..p },
                                                Ok(StepView::Recorded),
                                            )
                                        }
                                    },
                                }
                            },
                        }
                    },
                }
            },
        }
    }
}

pub open spec fn outcome_view(r: Result<Step, Diagnostic>) -> Result<StepView, Diagnostic> {
    match r {
        Ok(s) => Ok(s@),
        Err(d) => Err(d),
    }
}

proof fn lemma_first_bad_none(args: Seq<ArgExpr>, n: int, i: int)
    requires
        0 <= i,
        first_bad(args, n, i) is None,
    ensures
        args.len() == n,
        forall|j: int| i <= j < args.len() ==> (#[trigger] arg_inner(args[j])) is Some,
    decreases args.len() - i,
{
    if i < args.len() {
        lemma_first_bad_none(args, n, i + 1);
    }
}

proof fn lemma_args_err_stable(
    tbl: Seq<RecordDef>,
    reg: RegView,
    args: Seq<ArgExpr>,
    b: usize,
    i: int,
    n: int,
)
    requires
        0 <= i < n,
        args_resolution(tbl, reg, args, b, i + 1).0 is Err,
    ensures
        args_resolution(tbl, reg, args, b, n) == args_resolution(tbl, reg, args, b, i + 1),
    decreases n,
{
    if n > i + 1 {
        lemma_args_err_stable(tbl, reg, args, b, i, n - 1);
    }
}

proof fn lemma_block_index(bs: Seq<BlockView>, name: Seq<char>, i: int)
    ensures
        match block_index(bs, name, i) {
            Some(k) => 0 <= k < bs.len() && bs[k].name == name,
            None => true,
        },
    decreases bs.len() - i,
{
    if 0 <= i < bs.len() && bs[i].name != name {
        lemma_block_index(bs, name, i + 1);
    }
}

fn find_block(blocks: &Vec<EmbeddedBlock>, name: &String) -> (r: Option<usize>)
    ensures
        match block_index(blocks_view(blocks@), name@, 0) {
            Some(k) => r matches Some(j) && j as int == k,
            None => r is None,
        },
{
    let ghost bv = blocks_view(blocks@);
    let mut i: usize = 0;
    while i < blocks.len()
        invariant
            i <= blocks@.len(),
            bv == blocks_view(blocks@),
            block_index(bv, name@, 0) == block_index(bv, name@, i as int),
        decreases blocks@.len() - i,
    {
        if blocks[i].name == *name {
            return Some(i);
        }
        i = i + 1;
    }
    None
}

fn inner_type(a: &ArgExpr) -> (r: Option<&HostType>)
    ensures
        match arg_inner(*a) {
            Some(t) => r matches Some(x) && *x == t,
            None => r is None,
        },
{
    match a {
        ArgExpr::Cast(b) => match &**b {
            ArgExpr::Cast(c) => match &**c {
                ArgExpr::AddrOf(t) => Some(t),
                _ => None,
            },
            _ => None,
        },
        _ => None,
    }
}

fn find_bad(args: &Vec<ArgExpr>, n: usize) -> (r: Option<usize>)
    ensures
        match first_bad(args@, n as int, 0) {
            Some(i) => r matches Some(j) && j as int == i,
            None => r is None,
        },
{
    let mut i: usize = 0;
    while i < args.len()
        invariant
            i <= args@.len(),
            first_bad(args@, n as int, 0) == first_bad(args@, n as int, i as int),
        decreases args@.len() - i,
    {
        if i >= n || inner_type(&args[i]).is_none() {
            return Some(i);
        }
        i = i + 1;
    }
    if args.len() != n {
        Some(args.len())
    } else {
        None
    }
}

fn blocks_resolved(blocks: &Vec<EmbeddedBlock>) -> (r: bool)
    ensures
        r == all_resolved(blocks_view(blocks@)),
{
    let ghost bv = blocks_view(blocks@);
    let mut i: usize = 0;
    while i < blocks.len()
        invariant
            i <= blocks@.len(),
            bv == blocks_view(blocks@),
            forall|j: int| 0 <= j < i ==> (#[trigger] bv[j]).ret is Some,
        decreases blocks@.len() - i,
    {
        if blocks[i].ret_ty.is_none() {
            assert(bv[i as int].ret is None);
            return false;
        }
        i = i + 1;
    }
    true
}

fn problem_from(e: TypeError) -> (r: Problem)
    ensures
        r == problem_of(e),
{
    match e {
        TypeError::Unsupported => Problem::Unsupported,
        TypeError::Cycle => Problem::Cycle,
    }
}

/// Each host record has at most one declaration, and each block name names
/// one block.
pub open spec fn pass_wf(p: PassView) -> bool {
    &&& keys_unique(p.registry)
    &&& forall|i: int, j: int|
        0 <= i < j < p.blocks.len() ==> (#[trigger] p.blocks[i]).name != (#[trigger] p.blocks[j]).name
}

proof fn lemma_args_keys(tbl: Seq<RecordDef>, reg: RegView, args: Seq<ArgExpr>, b: usize, n: int)
    requires
        keys_unique(reg),
    ensures
        keys_unique(args_resolution(tbl, reg, args, b, n).2),
    decreases n,
{
    if n > 0 {
        lemma_args_keys(tbl, reg, args, b, n - 1);
        let r = args_resolution(tbl, reg, args, b, n - 1).2;
        lemma_translation_keys(tbl, r, seq![], inner_ty(args[n - 1]));
    }
}

/// A visit keeps the pass well formed.
pub proof fn lemma_visit_wf(p: PassView, c: CallView)
    requires
        pass_wf(p),
    ensures
        pass_wf(visit(p, c).0),
{
    if p.phase == Phase::Scanning && c.path.len() == 1 {
        lemma_block_index(p.blocks, c.path[0], 0);
        if let Some(b) = block_index(p.blocks, c.path[0], 0) {
            lemma_translation_keys(p.records, p.registry, seq![], c.ty);
            let r1 = translation(p.records, p.registry, seq![], c.ty).1;
            lemma_args_keys(p.records, r1, c.args, b as usize, c.args.len() as int);
            let q = visit(p, c).0;
            assert forall|i: int, j: int| 0 <= i < j < q.blocks.len() implies (#[trigger] q.blocks[i]).name
                != (#[trigger] q.blocks[j]).name by {
                assert(q.blocks[i].name == p.blocks[i].name);
                assert(q.blocks[j].name == p.blocks[j].name);
            }
        }
    }
}

proof fn lemma_block_index_none(bs: Seq<BlockView>, name: Seq<char>, i: int)
    requires
        0 <= i,
        block_index(bs, name, i) is None,
    ensures
        forall|j: int| i <= j < bs.len() ==> (#[trigger] bs[j]).name != name,
    decreases bs.len() - i,
{
    if i < bs.len() {
        lemma_block_index_none(bs, name, i + 1);
    }
}

impl CppLintPass {
    pub open spec fn wf(&self) -> bool {
        pass_wf(self@)
    }

    /// A pass in the scanning phase, for a target of pointer width `width` and
    /// a host program whose record definitions are `records`.
    pub fn new(width: PointerWidth, records: Vec<RecordDef>) -> (r: CppLintPass)
        ensures
            r@ == (PassView {
                width,
                records: records@,
                registry: seq![],
                blocks: seq![],
                headers: seq![],
                flags: seq![],
                warnings: seq![],
                phase: Phase::Scanning,
            }),
            r.wf(),
    {
        let r = CppLintPass {
            width,
            records,
            registry: TypeRegistry::new(),
            blocks: Vec::new(),
            headers: String::new(),
            flags: Vec::new(),
            warnings: Vec::new(),
            phase: Phase::Scanning,
        };
        assert(r@.blocks =~= seq![]);
        assert(r@.flags =~= seq![]);
        assert(r@.headers =~= seq![]);
        r
    }

    /// Registers a block named `name` capturing `idents`, with its header text.
    /// Refused (false) once the pass has left the scanning phase, or when the
    /// name is taken.
    pub fn register_block(&mut self, name: String, idents: Vec<String>, header: String) -> (r: bool)
        ensures
            r == (old(self)@.phase == Phase::Scanning && block_index(
                old(self)@.blocks,
                name@,
                0,
            ) is None),
            r ==> final(self)@ == (PassView {
                blocks: old(self)@.blocks.push(
                    BlockView {
                        name: name@,
                        args: idents@.map_values(|s: String| (s@, None::<Seq<char>>)),
                        ret: None,
                    },
                ),
                headers: old(self)@.headers + header@,
                ..old(self)@
            }),
            !r ==> final(self)@ == old(self)@,
            old(self).wf() ==> final(self).wf(),
    {
        if self.phase != Phase::Scanning {
            return false;
        }
        if find_block(&self.blocks, &name).is_some() {
            return false;
        }
        proof {
            lemma_block_index_none(self@.blocks, name@, 0);
        }
        let mut args: Vec<CapturedArg> = Vec::new();
        let mut i: usize = 0;
        while i < idents.len()
            invariant
                i <= idents@.len(),
                args@.map_values(|a: CapturedArg| a@) == idents@.subrange(0, i as int).map_values(
                    |s: String| (s@, None::<Seq<char>>),
                ),
            decreases idents@.len() - i,
        {
            let ghost a0 = args@;
            let ident = idents[i].clone();
            args.push(CapturedArg { ident, ty: None });
            assert(args@.map_values(|a: CapturedArg| a@) =~= a0.map_values(|a: CapturedArg| a@).push(
                (idents@[i as int]@, None::<Seq<char>>),
            ));
            assert(idents@.subrange(0, i + 1).map_values(|s: String| (s@, None::<Seq<char>>))
                =~= idents@.subrange(0, i as int).map_values(|s: String| (s@, None::<Seq<char>>)).push(
                (idents@[i as int]@, None::<Seq<char>>),
            ));
            i = i + 1;
        }
        assert(idents@.subrange(0, idents@.len() as int) =~= idents@);
        let b = EmbeddedBlock { name, args, ret_ty: None };
        let ghost bv = b@;
        let ghost old_blocks = self.blocks@;
        self.blocks.push(b);
        assert(blocks_view(self.blocks@) =~= blocks_view(old_blocks).push(bv));
        self.headers.append(header.as_str());
        true
    }

    /// Adds a compiler flag for the foreign toolchain.
    pub fn add_flag(&mut self, flag: String)
        ensures
            final(self)@ == (PassView { flags: old(self)@.flags.push(flag@), ..old(self)@ }),
            old(self).wf() ==> final(self).wf(),
    {
        let ghost f = flag@;
        let ghost old_flags = self.flags@;
        self.flags.push(flag);
        assert(self.flags@.map_values(|s: String| s@) =~= old_flags.map_values(|s: String| s@).push(f));
    }

    /// Visits one call expression of the host program (see `visit`).
    pub fn check_expr(&mut self, call: &CallExpr) -> (r: Result<Step, Diagnostic>)
        ensures
            (final(self)@, outcome_view(r)) == visit(old(self)@, call@),
            old(self).wf() ==> final(self).wf(),
    {
        proof {
            if self.wf() {
                lemma_visit_wf(self@, call@);
            }
        }
        let ghost pi = self@;
        if self.phase != Phase::Scanning || call.path.len() != 1 {
            return Ok(Step::Ignored);
        }
        proof {
            lemma_block_index(blocks_view(self.blocks@), call@.path[0], 0);
        }
        let b = match find_block(&self.blocks, &call.path[0]) {
            None => return Ok(Step::Ignored),
            Some(b) => b,
        };
        assert(blocks_view(self.blocks@)[b as int] == self.blocks@[b as int]@);
        if self.blocks[b].ret_ty.is_some() {
            return Ok(Step::Ignored);
        }
        // The argument shapes are checked before any type is translated, so
        // that a malformed call site leaves the registry as it was.
        let n = self.blocks[b].args.len();
        if let Some(i) = find_bad(&call.args, n) {
            self.phase = Phase::Aborted;
            return Err(Diagnostic { block: b, role: Role::Argument(i), problem: Problem::MalformedArgument });
        }
        proof {
            lemma_first_bad_none(call.args@, n as int, 0);
        }
        let ret = match self.registry.translate(&self.records, &call.ty) {
            Ok(s) => s,
            Err(e) => {
                self.phase = Phase::Aborted;
                return Err(Diagnostic { block: b, role: Role::Return, problem: problem_from(e) });
            },
        };
        let ghost p0 = self@;
        let ghost r1 = self.registry@;
        assert(p0 == PassView { registry: r1, ..pi });
        let mut names: Vec<String> = Vec::new();
        assert(names@.map_values(|s: String| s@) =~= seq![]);
        assert(self.warnings@ =~= p0.warnings + seq![]);
        let mut i: usize = 0;
        while i < call.args.len()
            invariant
                i <= call.args@.len(),
                call.args@.len() == n,
                forall|j: int| 0 <= j < call.args@.len() ==> (#[trigger] arg_inner(call.args@[j])) is Some,
                b < self.blocks@.len(),
                self.width == p0.width,
                self.records@ == p0.records,
                blocks_view(self.blocks@) == p0.blocks,
                self.headers@ == p0.headers,
                self.flags@.map_values(|s: String| s@) == p0.flags,
                self.phase == Phase::Scanning,
                p0 == (PassView { registry: r1, ..pi }),
                pi == old(self)@,
                pass_wf(pi) ==> pass_wf(visit(pi, call@).0),
                pi.phase == Phase::Scanning,
                call@.path.len() == 1,
                block_index(pi.blocks, call@.path[0], 0) == Some(b as int),
                pi.blocks[b as int].ret is None,
                first_bad(call@.args, pi.blocks[b as int].args.len() as int, 0) is None,
                translation(pi.records, pi.registry, seq![], call@.ty) == (
                    Ok::<Seq<char>, TypeError>(ret@),
                    r1,
                ),
                names@.len() == i,
                ({
                    let (res, warns, reg) = args_resolution(p0.records, r1, call.args@, b, i as int);
                    &&& res == Ok::<Seq<Seq<char>>, int>(names@.map_values(|s: String| s@))
                    &&& self.warnings@ == p0.warnings + warns
                    &&& self.registry@ == reg
                }),
            decreases call.args@.len() - i,
        {
            let ghost names0 = names@;
            let ghost w0 = self.warnings@;
            assert(arg_inner(call.args@[i as int]) is Some);
            let t = inner_type(&call.args[i]).unwrap();
            match self.registry.translate(&self.records, t) {
                Ok(nm) => {
                    names.push(nm);
                },
                Err(TypeError::Unsupported) => {
                    names.push(String::from_str("rs::__Dummy"));
                    self.warnings.push(
                        Diagnostic { block: b, role: Role::Argument(i), problem: Problem::Unsupported },
                    );
                },
                Err(TypeError::Cycle) => {
                    self.phase = Phase::Aborted;
                    proof {
                        assert(args_resolution(p0.records, r1, call.args@, b, i + 1).0 == Err::<
                            Seq<Seq<char>>,
                            int,
                        >(i as int));
                        lemma_args_err_stable(p0.records, r1, call.args@, b, i as int, n as int);
                    }
                    return Err(Diagnostic { block: b, role: Role::Argument(i), problem: Problem::Cycle });
                },
            }
            assert(names@.map_values(|s: String| s@) =~= names0.map_values(|s: String| s@).push(
                names@[i as int]@,
            ));
            proof {
                assert(self.warnings@ =~= p0.warnings + args_resolution(p0.records, r1, call.args@, b, i + 1).1);
            }
            i = i + 1;
        }
        let ghost namesv = names@.map_values(|s: String| s@);
        let ghost old_bv = p0.blocks[b as int];
        let mut nargs: Vec<CapturedArg> = Vec::new();
        let mut j: usize = 0;
        while j < n
            invariant
                j <= n,
                n == call.args@.len(),
                names@.len() == n,
                namesv == names@.map_values(|s: String| s@),
                b < self.blocks@.len(),
                blocks_view(self.blocks@) == p0.blocks,
                old_bv == p0.blocks[b as int],
                old_bv.args.len() == n,
                nargs@.map_values(|a: CapturedArg| a@) == Seq::new(
                    j as nat,
                    |k: int| (old_bv.args[k].0, Some(namesv[k])),
                ),
            decreases n - j,
        {
            assert(self.blocks@[b as int]@ == old_bv);
            assert(self.blocks@[b as int].args@[j as int]@ == old_bv.args[j as int]);
            let ghost a0 = nargs@;
            let ident = self.blocks[b].args[j].ident.clone();
            let ty = names[j].clone();
            assert(namesv[j as int] == names@[j as int]@);
            nargs.push(CapturedArg { ident, ty: Some(ty) });
            assert(nargs@.map_values(|a: CapturedArg| a@) =~= a0.map_values(|a: CapturedArg| a@).push(
                (old_bv.args[j as int].0, Some(namesv[j as int])),
            ));
            assert(nargs@.map_values(|a: CapturedArg| a@) =~= Seq::new(
                (j + 1) as nat,
                |k: int| (old_bv.args[k].0, Some(namesv[k])),
            ));
            j = j + 1;
        }
        assert(self.blocks@[b as int]@ == old_bv);
        let name = self.blocks[b].name.clone();
        let nb = EmbeddedBlock { name, args: nargs, ret_ty: Some(ret) };
        assert(nb@ == resolved(old_bv, ret@, namesv));
        let ghost nbv = nb@;
        let ghost old_blocks = self.blocks@;
        self.blocks.set(b, nb);
        assert(blocks_view(self.blocks@) =~= blocks_view(old_blocks).update(b as int, nbv));
        if blocks_resolved(&self.blocks) {
            let doc = render_document(self.width, &self.headers, &self.registry, &self.blocks);
            self.phase = Phase::Finalized;
            Ok(Step::Emit(doc))
        } else {
            Ok(Step::Recorded)
        }
    }
}

/// The pass after visiting call sites `cs` in order, and the documents handed
/// out on the way.
pub open spec fn run(p: PassView, cs: Seq<CallView>) -> (PassView, Seq<Seq<char>>)
    decreases cs.len(),
{
    if cs.len() == 0 {
        (p, seq![])
    } else {
        let (q, docs) = run(p, cs.drop_last());
        let (q2, out) = visit(q, cs.last());
        match out {
            Ok(StepView::Emit(d)) => (q2, docs.push(d)),
            _ => (q2, docs),
        }
    }
}

/// A visit hands out the document exactly when, before it, some block was
/// still waiting for its return type and, after it, none is; it then leaves the
/// pass finalized. Outside the scanning phase a visit changes nothing.
pub proof fn lemma_visit_emits(p: PassView, c: CallView)
    ensures
        (visit(p, c).1 matches Ok(StepView::Emit(_))) <==> (p.phase == Phase::Scanning
            && !all_resolved(p.blocks) && all_resolved(visit(p, c).0.blocks)),
        (visit(p, c).1 matches Ok(StepView::Emit(_))) <==> (p.phase != Phase::Finalized
            && visit(p, c).0.phase == Phase::Finalized),
        p.phase != Phase::Scanning ==> visit(p, c).0 == p,
{
    if p.phase == Phase::Scanning && c.path.len() == 1 {
        lemma_block_index(p.blocks, c.path[0], 0);
        if let Some(b) = block_index(p.blocks, c.path[0], 0) {
            if p.blocks[b].ret is None {
                assert(!all_resolved(p.blocks));
            }
        }
    }
}

/// Over any sequence of visits from the scanning phase, the document is handed
/// out at most once, and it is handed out exactly when the pass ends finalized.
pub proof fn lemma_emitted_once(p: PassView, cs: Seq<CallView>)
    requires
        p.phase == Phase::Scanning,
    ensures
        run(p, cs).1.len() <= 1,
        run(p, cs).1.len() == 1 <==> run(p, cs).0.phase == Phase::Finalized,
    decreases cs.len(),
{
    if cs.len() > 0 {
        lemma_emitted_once(p, cs.drop_last());
        let q = run(p, cs.drop_last()).0;
        lemma_visit_emits(q, cs.last());
    }
}

/// Visiting the same call sites from the same pass gives the same pass and
/// the same documents, byte for byte.
pub proof fn lemma_run_deterministic(p1: PassView, p2: PassView, cs: Seq<CallView>)
    requires
        p1 == p2,
    ensures
        run(p1, cs) == run(p2, cs),
{
}

proof fn lemma_args_placeholder(
    tbl: Seq<RecordDef>,
    reg: RegView,
    args: Seq<ArgExpr>,
    b: usize,
    n: int,
    j: int,
)
    requires
        0 <= j < n <= args.len(),
        inner_ty(args[j]) == HostType::Unsupported,
        args_resolution(tbl, reg, args, b, n).0 is Ok,
    ensures
        args_resolution(tbl, reg, args, b, n).0 matches Ok(names) && names.len() == n
            && names[j] == placeholder_name(),
        args_resolution(tbl, reg, args, b, n).1.contains(
            Diagnostic { block: b, role: Role::Argument(j as usize), problem: Problem::Unsupported },
        ),
    decreases n,
{
    let prev = args_resolution(tbl, reg, args, b, n - 1);
    if n - 1 > j {
        lemma_args_placeholder(tbl, reg, args, b, n - 1, j);
        let d = Diagnostic { block: b, role: Role::Argument(j as usize), problem: Problem::Unsupported };
        let k = choose|k: int| 0 <= k < prev.1.len() && prev.1[k] == d;
        let cur = args_resolution(tbl, reg, args, b, n).1;
        assert(cur[k] == d);
    } else {
        lemma_args_len(tbl, reg, args, b, n - 1);
        let cur = args_resolution(tbl, reg, args, b, n).1;
        assert(cur[cur.len() - 1] == Diagnostic {
            block: b,
            role: Role::Argument(j as usize),
            problem: Problem::Unsupported,
        });
    }
}

proof fn lemma_args_len(tbl: Seq<RecordDef>, reg: RegView, args: Seq<ArgExpr>, b: usize, n: int)
    requires
        0 <= n,
    ensures
        args_resolution(tbl, reg, args, b, n).0 matches Ok(names) ==> names.len() == n,
    decreases n,
{
    if n > 0 {
        lemma_args_len(tbl, reg, args, b, n - 1);
    }
}

/// An unsupported type captured by reference degrades to the placeholder
/// record, with a soft diagnostic, and the visit goes on; the same type as the
/// block's return type aborts the pass with a diagnostic on the return value.
/// (The argument's degradation is stated for visits whose other types resolve.)
pub proof fn lemma_reference_vs_value(p: PassView, c: CallView, b: int, j: int)
    requires
        p.phase == Phase::Scanning,
        c.path.len() == 1,
        block_index(p.blocks, c.path[0], 0) == Some(b),
        p.blocks[b].ret is None,
        first_bad(c.args, p.blocks[b].args.len() as int, 0) is None,
        0 <= j < c.args.len(),
        inner_ty(c.args[j]) == HostType::Unsupported,
    ensures
        c.ty == HostType::Unsupported ==> visit(p, c).0.phase == Phase::Aborted && visit(p, c).1
            == Err::<StepView, Diagnostic>(
            Diagnostic { block: b as usize, role: Role::Return, problem: Problem::Unsupported },
        ),
        ({
            let (rt, r1) = translation(p.records, p.registry, seq![], c.ty);
            rt is Ok && args_resolution(p.records, r1, c.args, b as usize, c.args.len() as int).0 is Ok
                ==> {
                let q = visit(p, c).0;
                &&& visit(p, c).1 is Ok
                &&& q.phase != Phase::Aborted
                &&& q.blocks[b].args[j].1 == Some(placeholder_name())
                &&& q.warnings.contains(
                    Diagnostic {
                        block: b as usize,
                        role: Role::Argument(j as usize),
                        problem: Problem::Unsupported,
                    },
                )
            }
        }),
{
    lemma_block_index(p.blocks, c.path[0], 0);
    lemma_first_bad_none(c.args, p.blocks[b].args.len() as int, 0);
    let (rt, r1) = translation(p.records, p.registry, seq![], c.ty);
    if rt is Ok && args_resolution(p.records, r1, c.args, b as usize, c.args.len() as int).0 is Ok {
        lemma_args_placeholder(p.records, r1, c.args, b as usize, c.args.len() as int, j);
        let (ar, warns, r2) = args_resolution(p.records, r1, c.args, b as usize, c.args.len() as int);
        let d = Diagnostic { block: b as usize, role: Role::Argument(j as usize), problem: Problem::Unsupported };
        let k = choose|k: int| 0 <= k < warns.len() && warns[k] == d;
        assert((p.warnings + warns)[p.warnings.len() + k] == d);
    }
}

} // verus!
