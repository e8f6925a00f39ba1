//! A document composed from active atoms.
use vstd::prelude::*;

use crate::error::strs;

verus! {

/// A derived, readable document: its id (from the slug), title, the atoms it rests
/// on, in order, and its body ending with an index of those atoms.
#[derive(Clone, Debug, PartialEq, Eq)]
pub struct ComposedDoc {
    pub id: String,
    pub title: String,
    pub atoms: Vec<String>,
    pub body: String,
}

pub struct ComposedDocView {
    pub id: Seq<char>,
    pub title: Seq<char>,
    pub atoms: Seq<Seq<char>>,
    pub body: Seq<char>,
}

impl View for ComposedDoc {
    type V = ComposedDocView;

    open spec fn view(&self) -> ComposedDocView {
        ComposedDocView {
            id: self.id@,
            title: self.title@,
            atoms: strs(self.atoms@),
            body: self.body@,
        }
    }
}

} // verus!
