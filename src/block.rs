use vstd::prelude::*;

verus! {

/// A captured argument of an embedded block: its identifier and, once the
/// recorder has visited the block's call site, its foreign type name.
#[derive(Debug)]
pub struct CapturedArg {
    pub ident: String,
    pub ty: Option<String>,
}

/// One embedded foreign-code block, as the front end registered it, with the
/// foreign types that the recorder fills in.
#[derive(Debug)]
pub struct EmbeddedBlock {
    pub name: String,
    pub args: Vec<CapturedArg>,
    pub ret_ty: Option<String>,
}

pub type ArgView = (Seq<char>, Option<Seq<char>>);

pub struct BlockView {
    pub name: Seq<char>,
    pub args: Seq<ArgView>,
    pub ret: Option<Seq<char>>,
}

pub open spec fn opt_view(o: Option<String>) -> Option<Seq<char>> {
    match o {
        Some(s) => Some(s@),
        None => None,
    }
}

impl View for CapturedArg {
    type V = ArgView;

    open spec fn view(&self) -> ArgView {
        (self.ident@, opt_view(self.ty))
    }
}

impl View for EmbeddedBlock {
    type V = BlockView;

    open spec fn view(&self) -> BlockView {
        BlockView {
            name: self.name@,
            args: self.args@.map_values(|a: CapturedArg| a@),
            ret: opt_view(self.ret_ty),
        }
    }
}

pub open spec fn blocks_view(bs: Seq<EmbeddedBlock>) -> Seq<BlockView> {
    bs.map_values(|b: EmbeddedBlock| b@)
}

/// Whether every block has its return type resolved.
pub open spec fn all_resolved(bs: Seq<BlockView>) -> bool {
    forall|i: int| 0 <= i < bs.len() ==> (#[trigger] bs[i]).ret is Some
}

} // verus!
