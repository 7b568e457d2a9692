//! Card entries of a limit list.

use vstd::prelude::*;

verus! {

/// The card pool a list applies to.
#[derive(Clone, Copy, Debug, PartialEq, Eq, Structural)]
pub enum Region {
    Ocg,
    Tcg,
}

/// How many copies of a card a deck may hold.
#[derive(Clone, Copy, Debug, PartialEq, Eq, Structural)]
pub enum Restriction {
    Forbidden,
    Limited,
    SemiLimited,
}

/// One card line of a limit list.
#[derive(Debug, PartialEq, Eq)]
pub struct CardEntry {
    pub region: Region,
    pub restriction: Restriction,
    pub japanese_name: Option<String>,
    pub english_name: Option<String>,
    pub explicit_id: Option<u32>,
    pub line_number: usize,
}

/// A `CardEntry` with its names as character sequences.
pub struct CardEntryView {
    pub region: Region,
    pub restriction: Restriction,
    pub japanese_name: Option<Seq<char>>,
    pub english_name: Option<Seq<char>>,
    pub explicit_id: Option<u32>,
    pub line_number: nat,
}

pub open spec fn opt_view(o: Option<String>) -> Option<Seq<char>> {
    match o {
        Some(s) => Some(s@),
        None => None,
    }
}

impl View for CardEntry {
    type V = CardEntryView;

    open spec fn view(&self) -> CardEntryView {
        CardEntryView {
            region: self.region,
            restriction: self.restriction,
            japanese_name: opt_view(self.japanese_name),
            english_name: opt_view(self.english_name),
            explicit_id: self.explicit_id,
            line_number: self.line_number as nat,
        }
    }
}

pub open spec fn entries_view(v: Seq<CardEntry>) -> Seq<CardEntryView> {
    v.map_values(|c: CardEntry| c@)
}

} // verus!
