//! Where a year's limit list is read from and written to, and how a run
//! over it is reported.

use vstd::prelude::*;

use crate::json::{json_nested, pretty_json};
use crate::lf::output::{grouped, write_contents};
use crate::lf::parser::ParsedList;
use crate::lf::resolver::{asked, has_name, query_names, strictly_increasing, ResolvedList};
use crate::text::{chars_of, decimal, push_decimal, push_str, string_of};

verus! {

/// The limit list of `year`.
pub fn input_path(year: u16) -> (p: String)
    ensures
        p@ == decimal(year as nat) + "/data/lf.list"@,
{
    let mut out: Vec<char> = Vec::new();
    push_decimal(&mut out, year as u64);
    push_str(&mut out, "/data/lf.list");
    string_of(&out)
}

/// The resolved card IDs of `year`, beside its list.
pub fn output_path(year: u16) -> (p: String)
    ensures
        p@ == decimal(year as nat) + "/data/lf.json"@,
{
    let mut out: Vec<char> = Vec::new();
    push_decimal(&mut out, year as u64);
    push_str(&mut out, "/data/lf.json");
    string_of(&out)
}

/// The report of a skipped line.
pub fn skipped_line(path: &str, line_number: usize, message: &str) -> (s: String)
    ensures
        s@ == path@ + ":"@ + decimal(line_number as nat) + ": skipped: "@ + message@,
{
    let mut out: Vec<char> = Vec::new();
    push_str(&mut out, path);
    push_str(&mut out, ":");
    push_decimal(&mut out, line_number as u64);
    push_str(&mut out, ": skipped: ");
    push_str(&mut out, message);
    string_of(&out)
}

/// Why a year's run stopped.
#[derive(Debug, PartialEq, Eq)]
pub enum RunError {
    /// No line of the list at this path is a valid card.
    NoValidCards(String),
    /// No card could be resolved, so the output at this path is not written.
    NothingResolved(String),
}

impl RunError {
    /// The message that reports the error.
    pub fn message(&self) -> (m: String)
        ensures
            m@ == match self {
                RunError::NoValidCards(p) => "no valid cards found in "@ + p@,
                RunError::NothingResolved(p) => "no card IDs could be resolved; "@ + p@
                    + " was not written"@,
            },
    {
        let mut out: Vec<char> = Vec::new();
        match self {
            RunError::NoValidCards(p) => {
                push_str(&mut out, "no valid cards found in ");
                push_str(&mut out, p.as_str());
            },
            RunError::NothingResolved(p) => {
                push_str(&mut out, "no card IDs could be resolved; ");
                push_str(&mut out, p.as_str());
                push_str(&mut out, " was not written");
            },
        }
        string_of(&out)
    }
}

/// A parsed list must hold at least one card.
pub fn check_parsed(path: &str, parsed: &ParsedList) -> (r: Result<(), RunError>)
    ensures
        parsed.cards@.len() > 0 ==> r is Ok,
        parsed.cards@.len() == 0 ==> (r matches Err(RunError::NoValidCards(p)) && p@ == path@),
{
    if parsed.cards.len() == 0 {
        return Err(RunError::NoValidCards(string_of(&chars_of(path))));
    }
    Ok(())
}

/// At least one card must have been resolved.
pub fn check_resolved(output: &str, resolved: &ResolvedList) -> (r: Result<(), RunError>)
    ensures
        resolved.cards@.len() > 0 ==> r is Ok,
        resolved.cards@.len() == 0 ==> (r matches Err(RunError::NothingResolved(p)) && p@
            == output@),
{
    if resolved.cards.len() == 0 {
        return Err(RunError::NothingResolved(string_of(&chars_of(output))));
    }
    Ok(())
}

/// The report of a finished run: the IDs written, where, and how many lines
/// were skipped while parsing and while resolving.
pub fn summary(parsed: &ParsedList, resolved: &ResolvedList, output: &str) -> (s: String)
    requires
        parsed.diagnostics@.len() + resolved.diagnostics@.len() <= usize::MAX,
    ensures
        s@ == "wrote "@ + decimal(resolved.cards@.len()) + " card IDs to "@ + output@ + " ("@
            + decimal(parsed.diagnostics@.len() + resolved.diagnostics@.len()) + " skipped)"@,
{
    let skipped = parsed.diagnostics.len() + resolved.diagnostics.len();
    let mut out: Vec<char> = Vec::new();
    push_str(&mut out, "wrote ");
    push_decimal(&mut out, resolved.cards.len() as u64);
    push_str(&mut out, " card IDs to ");
    push_str(&mut out, output);
    push_str(&mut out, " (");
    push_decimal(&mut out, skipped as u64);
    push_str(&mut out, " skipped)");
    string_of(&out)
}

/// The first decision of a year's run, once its list is parsed: the names
/// to look up, or, when the list holds no card, the error that ends the run
/// before any lookup.
pub fn names_to_query(input: &str, parsed: &ParsedList) -> (r: Result<Vec<String>, RunError>)
    ensures
        parsed.cards@.len() == 0 ==> (r matches Err(RunError::NoValidCards(p)) && p@ == input@),
        parsed.cards@.len() > 0 ==> (r matches Ok(names) && strictly_increasing(names@) && forall|
            x: Seq<char>,
        | #[trigger] has_name(names@, x) <==> asked(parsed.cards@, parsed.cards@.len() as int, x)),
{
    check_parsed(input, parsed)?;
    Ok(query_names(&parsed.cards))
}

/// The last decision of a year's run, once its cards are resolved: the
/// contents to write to `output` and the report of the run, or, when no
/// card was resolved, the error that ends the run with nothing written.
pub fn year_output(output: &str, parsed: &ParsedList, resolved: &ResolvedList) -> (r: Result<
    (Vec<u8>, String),
    RunError,
>)
    requires
        parsed.diagnostics@.len() + resolved.diagnostics@.len() <= usize::MAX,
    ensures
        resolved.cards@.len() == 0 ==> (r matches Err(RunError::NothingResolved(p)) && p@
            == output@),
        resolved.cards@.len() > 0 ==> (r matches Ok((bytes, report)) && bytes@ == pretty_json(
            grouped(resolved.cards@),
        ).push(0x0au8) && json_nested(bytes@) == Some(grouped(resolved.cards@)) && report@
            == "wrote "@ + decimal(resolved.cards@.len()) + " card IDs to "@ + output@ + " ("@
            + decimal(parsed.diagnostics@.len() + resolved.diagnostics@.len()) + " skipped)"@),
{
    check_resolved(output, resolved)?;
    let bytes = match write_contents(&resolved.cards) {
        Ok(bytes) => bytes,
        Err(_) => {
            return Err(RunError::NothingResolved(string_of(&chars_of(output))));
        },
    };
    Ok((bytes, summary(parsed, resolved, output)))
}

} // verus!
