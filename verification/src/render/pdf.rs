//! The Typst entry point of a year's limit-list PDF.

use vstd::prelude::*;

use crate::text::{decimal, push_decimal, push_str, string_of};

verus! {

/// The entry point that renders the list of `year`.
pub open spec fn typst_source_spec(year: u16) -> Seq<char> {
    let y = decimal(year as nat);
    "#import \"/typst/lf.typ\": render-limit-list\n\n#let limits = json(\"/"@ + y
        + "/data/lf.json\")\n\n#render-limit-list("@ + y + ", limits)\n"@
}

/// The Typst source that renders the list of `year`.
pub fn typst_source(year: u16) -> (s: String)
    ensures
        s@ == typst_source_spec(year),
{
    let mut out: Vec<char> = Vec::new();
    push_str(&mut out, "#import \"/typst/lf.typ\": render-limit-list\n\n#let limits = json(\"/");
    push_decimal(&mut out, year as u64);
    push_str(&mut out, "/data/lf.json\")\n\n#render-limit-list(");
    push_decimal(&mut out, year as u64);
    push_str(&mut out, ", limits)\n");
    string_of(&out)
}

} // verus!
