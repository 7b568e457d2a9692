//! The published site: an index of the years and a viewer for each year's PDF.

pub mod template;

use vstd::prelude::*;

use crate::text::{decimal, push_decimal, push_str, string_of};
use crate::years::normalize;

verus! {

/// Why the site cannot be assembled.
#[derive(Debug, PartialEq, Eq)]
pub enum SiteError {
    /// No year was given.
    NoYears,
    /// A year's PDF is not a file: its path.
    NotAFile(String),
}

impl SiteError {
    /// The message that reports the error.
    pub fn message(&self) -> (m: String)
        ensures
            m@ == match self {
                SiteError::NoYears => "cannot generate a site without any years"@,
                SiteError::NotAFile(p) => "limit-list PDF is not a file: "@ + p@,
            },
    {
        let mut out: Vec<char> = Vec::new();
        match self {
            SiteError::NoYears => push_str(&mut out, "cannot generate a site without any years"),
            SiteError::NotAFile(p) => {
                push_str(&mut out, "limit-list PDF is not a file: ");
                push_str(&mut out, p.as_str());
            },
        }
        string_of(&out)
    }
}

pub open spec fn decreasing(v: Seq<u16>) -> bool {
    forall|i: int, j: int| 0 <= i < j < v.len() ==> v[i] > v[j]
}

/// The years that the site shows, each once, newest first.
pub fn site_years(years: &Vec<u16>) -> (r: Result<Vec<u16>, SiteError>)
    ensures
        years@.len() == 0 ==> r matches Err(SiteError::NoYears),
        years@.len() > 0 ==> (r matches Ok(v) && decreasing(v@) && forall|y: u16|
            v@.contains(y) <==> years@.contains(y)),
{
    if years.len() == 0 {
        return Err(SiteError::NoYears);
    }
    let ascending = normalize(years);
    let mut out: Vec<u16> = Vec::new();
    let mut k: usize = ascending.len();
    while k > 0
        invariant
            k <= ascending@.len(),
            crate::years::increasing(ascending@),
            out@.len() == ascending@.len() - k,
            forall|i: int| 0 <= i < out@.len() ==> #[trigger] out@[i] == ascending@[ascending@.len() - 1 - i],
        decreases k,
    {
        out.push(ascending[k - 1]);
        k = k - 1;
    }
    assert(out@ == ascending@.reverse());
    assert forall|y: u16| out@.contains(y) <==> ascending@.contains(y) by {
        if out@.contains(y) {
            let i = choose|i: int| 0 <= i < out@.len() && out@[i] == y;
            assert(ascending@[ascending@.len() - 1 - i] == y);
        }
        if ascending@.contains(y) {
            let i = choose|i: int| 0 <= i < ascending@.len() && ascending@[i] == y;
            assert(out@[ascending@.len() - 1 - i] == y);
        }
    }
    Ok(out)
}

/// Where the PDF of `year` is built, relative to the project.
pub fn year_pdf(year: u16) -> (p: String)
    ensures
        p@ == decimal(year as nat) + "/lf/lf.pdf"@,
{
    let mut out: Vec<char> = Vec::new();
    push_decimal(&mut out, year as u64);
    push_str(&mut out, "/lf/lf.pdf");
    string_of(&out)
}

} // verus!
