//! The calculation session, and the reference window's and the input
//! bar's data model: documented names and autocomplete candidates.

pub mod host_seams;
pub mod session;

pub use session::Calculator;

use vstd::prelude::*;
use crate::text::views_of;

verus! {

/// One documented name, as a mathematical value.
#[verifier::ext_equal]
pub struct DocModel {
    pub name: Seq<char>,
    pub signature: Seq<char>,
    pub summary: Seq<char>,
    pub examples: Seq<Seq<char>>,
}

/// The reference window's data model: one documented name.
#[derive(Debug, Clone, PartialEq, Eq, Hash)]
pub struct FunctionDoc {
    pub name: String,
    pub signature: String,
    pub summary: String,
    pub examples: Vec<String>,
}

impl View for FunctionDoc {
    type V = DocModel;

    open spec fn view(&self) -> DocModel {
        DocModel {
            name: self.name@,
            signature: self.signature@,
            summary: self.summary@,
            examples: views_of(self.examples@),
        }
    }
}

/// The views of a sequence of docs.
pub open spec fn doc_views(docs: Seq<FunctionDoc>) -> Seq<DocModel> {
    docs.map_values(|d: FunctionDoc| d@)
}

/// An exact copy of a list of strings.
pub fn copy_strings(items: &Vec<String>) -> (r: Vec<String>)
    ensures
        views_of(r@) == views_of(items@),
{
    let mut out: Vec<String> = Vec::new();
    let mut i: usize = 0;
    while i < items.len()
        invariant
            i <= items@.len(),
            views_of(out@) =~= views_of(items@.take(i as int)),
        decreases items@.len() - i,
    {
        out.push(items[i].clone());
        proof {
            assert(views_of(items@.take(i + 1)) =~= views_of(items@.take(i as int)).push(items@[i as int]@));
        }
        i += 1;
    }
    proof {
        assert(items@.take(i as int) =~= items@);
    }
    out
}

impl FunctionDoc {
    /// An exact copy.
    pub fn copy(&self) -> (r: Self)
        ensures
            r@ == self@,
    {
        FunctionDoc {
            name: self.name.clone(),
            signature: self.signature.clone(),
            summary: self.summary.clone(),
            examples: copy_strings(&self.examples),
        }
    }
}

/// One autocomplete candidate for the input bar.
#[derive(Debug, Clone, PartialEq, Eq, Hash)]
pub struct Completion {
    pub name: String,
    pub kind: CompletionKind,
}

#[derive(Debug, Clone, Copy, PartialEq, Eq, Hash)]
pub enum CompletionKind {
    Function,
    Variable,
    Constant,
}

/// The short tag shown beside a completion.
pub open spec fn badge_of(k: CompletionKind) -> Seq<char> {
    match k {
        CompletionKind::Function => "ƒ"@,
        CompletionKind::Variable => "var"@,
        CompletionKind::Constant => "const"@,
    }
}

impl CompletionKind {
    /// Short tag shown beside a completion (`ƒ` for a function, etc.).
    pub fn badge(&self) -> (r: &'static str)
        ensures
            r@ == badge_of(*self),
    {
        match self {
            CompletionKind::Function => "ƒ",
            CompletionKind::Variable => "var",
            CompletionKind::Constant => "const",
        }
    }
}

} // verus!
