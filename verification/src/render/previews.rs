//! The Typst source of the card previews, one page per card, and the naming
//! of the rendered pages.

use vstd::multiset::Multiset;
use vstd::prelude::*;

use crate::limits::{all_ids, YearLimits, YearLimitsView};
use crate::paths::{find_missing, first_missing, join, join_spec};
use crate::render::typst::{compile_arguments, compile_arguments_spec};
use crate::text::{
    law_decimal_parses,
    chars_of, decimal, parse_number, parse_unsigned, push_decimal, push_str, range_starts_with,
    starts_with, string_of, strings_view,
};

verus! {

/// The IDs of `v`, each once, where it first occurs.
pub open spec fn first_occurrences(v: Seq<u32>) -> Seq<u32>
    decreases v.len(),
{
    if v.len() == 0 {
        seq![]
    } else {
        let before = first_occurrences(v.drop_last());
        if before.contains(v.last()) {
            before
        } else {
            before.push(v.last())
        }
    }
}

/// The IDs of all lists, in order.
pub open spec fn lists_ids(lists: Seq<YearLimitsView>) -> Seq<u32>
    decreases lists.len(),
{
    if lists.len() == 0 {
        seq![]
    } else {
        lists_ids(lists.drop_last()) + all_ids(lists.last().groups)
    }
}

pub open spec fn lists_view(lists: Seq<YearLimits>) -> Seq<YearLimitsView> {
    lists.map_values(|l: YearLimits| l@)
}

/// Every card of the lists, once, in the order the lists name them.
pub fn ordered_card_ids(limit_lists: &[YearLimits]) -> (ids: Vec<u32>)
    ensures
        ids@ == first_occurrences(lists_ids(lists_view(limit_lists@))),
{
    let ghost lv = lists_view(limit_lists@);
    let mut all: Vec<u32> = Vec::new();
    let mut l: usize = 0;
    while l < limit_lists.len()
        invariant
            l <= limit_lists@.len(),
            lv == lists_view(limit_lists@),
            all@ == lists_ids(lv.take(l as int)),
        decreases limit_lists@.len() - l,
    {
        let mut ids = limit_lists[l].ids();
        assert(lv.take(l + 1).drop_last() == lv.take(l as int));
        all.append(&mut ids);
        l = l + 1;
    }
    assert(lv.take(l as int) == lv);
    let mut out: Vec<u32> = Vec::new();
    let mut k: usize = 0;
    while k < all.len()
        invariant
            k <= all@.len(),
            out@ == first_occurrences(all@.take(k as int)),
        decreases all@.len() - k,
    {
        let id = all[k];
        assert(all@.take(k + 1).drop_last() == all@.take(k as int));
        let mut seen = false;
        let mut i: usize = 0;
        while i < out.len()
            invariant
                i <= out@.len(),
                seen == out@.take(i as int).contains(id),
            decreases out@.len() - i,
        {
            let ghost before = out@.take(i as int);
            let ghost after = out@.take(i + 1);
            assert(after.drop_last() == before);
            if out[i] == id {
                assert(after[i as int] == id);
                seen = true;
            } else if seen {
                let ghost j = choose|j: int| 0 <= j < before.len() && before[j] == id;
                assert(after[j] == id);
            }
            assert(seen ==> after.contains(id));
            assert(after.contains(id) ==> seen) by {
                if after.contains(id) {
                    let j = choose|j: int| 0 <= j < after.len() && after[j] == id;
                    if j < i {
                        assert(before[j] == id);
                    }
                }
            }
            i = i + 1;
        }
        assert(out@.take(out@.len() as int) == out@);
        if !seen {
            out.push(id);
        }
        k = k + 1;
    }
    assert(all@.take(all@.len() as int) == all@);
    out
}

/// The IDs separated by `", "`.
pub open spec fn joined_ids(ids: Seq<u32>) -> Seq<char>
    decreases ids.len(),
{
    if ids.len() == 0 {
        seq![]
    } else if ids.len() == 1 {
        decimal(ids[0] as nat)
    } else {
        joined_ids(ids.drop_last()) + ", "@ + decimal(ids.last() as nat)
    }
}

/// The Typst source that renders one page per card of `ids`.
pub open spec fn typst_source_spec(ids: Seq<u32>) -> Seq<char> {
    "#import \"/vendor/typst-ygo/lib/mod.typ\": ot_card_by_id, ot_card_data\n\n#let cards = ot_card_data()\n#let ids = ("@
        + joined_ids(ids)
        + ",)\n\n#for id in ids { ot_card_by_id(id, cards: cards) }\n"@
}

/// The Typst source that renders one page per card of `identifiers`.
pub fn typst_source(identifiers: &Vec<u32>) -> (s: String)
    ensures
        s@ == typst_source_spec(identifiers@),
{
    let mut values: Vec<char> = Vec::new();
    let mut k: usize = 0;
    while k < identifiers.len()
        invariant
            k <= identifiers@.len(),
            values@ == joined_ids(identifiers@.take(k as int)),
        decreases identifiers@.len() - k,
    {
        assert(identifiers@.take(k + 1).drop_last() == identifiers@.take(k as int));
        if k > 0 {
            push_str(&mut values, ", ");
        }
        push_decimal(&mut values, identifiers[k] as u64);
        k = k + 1;
    }
    assert(identifiers@.take(identifiers@.len() as int) == identifiers@);
    let mut out: Vec<char> = Vec::new();
    push_str(
        &mut out,
        "#import \"/vendor/typst-ygo/lib/mod.typ\": ot_card_by_id, ot_card_data\n\n#let cards = ot_card_data()\n#let ids = (",
    );
    out.append(&mut values);
    push_str(&mut out, ",)\n\n#for id in ids { ot_card_by_id(id, cards: cards) }\n");
    string_of(&out)
}

/// Why the name of a rendered page could not be read.
#[derive(Clone, Copy, Debug, PartialEq, Eq, Structural)]
pub enum PageNameError {
    /// The name is not `page-<number>.png`.
    Unexpected,
    /// The number is not a page number.
    InvalidNumber,
}

/// `s` ends with `p`.
pub open spec fn ends_with(s: Seq<char>, p: Seq<char>) -> bool {
    p.len() <= s.len() && s.skip(s.len() - p.len()) == p
}

/// The page number in the name of a rendered page, `page-<number>.png`.
pub open spec fn page_number_spec(name: Seq<char>) -> Result<u32, PageNameError> {
    let prefix = "page-"@;
    let suffix = ".png"@;
    if !starts_with(name, prefix) {
        Err(PageNameError::Unexpected)
    } else {
        let rest = name.skip(prefix.len() as int);
        if !ends_with(rest, suffix) {
            Err(PageNameError::Unexpected)
        } else {
            match parse_unsigned(rest.take(rest.len() - suffix.len()), u32::MAX as nat) {
                Some(n) => Ok(n as u32),
                None => Err(PageNameError::InvalidNumber),
            }
        }
    }
}

/// Reads the page number from the file name of a rendered page.
pub fn page_number(file_name: &str) -> (r: Result<u32, PageNameError>)
    ensures
        r == page_number_spec(file_name@),
{
    let name = chars_of(file_name);
    let prefix = chars_of("page-");
    let suffix = chars_of(".png");
    assert(name@.subrange(0, name@.len() as int) == name@);
    if !range_starts_with(&name, 0, name.len(), &prefix) {
        return Err(PageNameError::Unexpected);
    }
    let start = prefix.len();
    let ghost rest = name@.skip(start as int);
    if suffix.len() > name.len() - start {
        return Err(PageNameError::Unexpected);
    }
    let end = name.len() - suffix.len();
    assert(rest.skip(rest.len() - suffix@.len()) == name@.subrange(end as int, name@.len() as int));
    if !range_starts_with(&name, end, name.len(), &suffix) {
        assert(name@.subrange(end as int, name@.len() as int).take(suffix@.len() as int)
            == name@.subrange(end as int, name@.len() as int));
        return Err(PageNameError::Unexpected);
    }
    assert(name@.subrange(end as int, name@.len() as int).take(suffix@.len() as int)
        == name@.subrange(end as int, name@.len() as int));
    assert(rest.take(rest.len() - suffix@.len()) == name@.subrange(start as int, end as int));
    match parse_number(&name, start, end, 0xffff_ffff) {
        Some(n) => Ok(n as u32),
        None => Err(PageNameError::InvalidNumber),
    }
}

/// The pages are in increasing order of page number.
pub open spec fn by_page(pages: Seq<(u32, String)>) -> bool {
    forall|i: int, j: int| 0 <= i < j < pages.len() ==> pages[i].0 <= pages[j].0
}

/// The rendered pages, each with its page number, put in page order.
pub fn sort_pages(pages: Vec<(u32, String)>) -> (sorted: Vec<(u32, String)>)
    ensures
        by_page(sorted@),
        sorted@.to_multiset() == pages@.to_multiset(),
{
    broadcast use vstd::multiset::group_multiset_axioms;
    let ghost all = pages@;
    let mut rest = pages;
    let mut out: Vec<(u32, String)> = Vec::new();
    assert(out@.to_multiset() =~= Multiset::<(u32, String)>::empty()) by {
        broadcast use vstd::seq_lib::group_to_multiset_ensures;
    }
    while rest.len() > 0
        invariant
            by_page(out@),
            out@.to_multiset().add(rest@.to_multiset()) == all.to_multiset(),
        decreases rest@.len(),
    {
        let ghost before = rest@;
        let page = rest.pop().unwrap();
        proof {
            assert(before == rest@.push(page));
            vstd::seq_lib::to_multiset_build(rest@, page);
        }
        let mut j: usize = 0;
        while j < out.len() && out[j].0 <= page.0
            invariant
                j <= out@.len(),
                forall|i: int| 0 <= i < j ==> out@[i].0 <= page.0,
            decreases out@.len() - j,
        {
            j = j + 1;
        }
        let ghost prior = out@;
        proof {
            vstd::seq_lib::to_multiset_insert(prior, j as int, page);
        }
        out.insert(j, page);
        assert(by_page(out@)) by {
            assert forall|a: int, b: int| 0 <= a < b < out@.len() implies out@[a].0 <= out@[b].0 by {
                if b < j {
                    assert(out@[a] == prior[a] && out@[b] == prior[b]);
                } else if b == j {
                    assert(out@[a] == prior[a]);
                } else if a < j {
                    assert(out@[a] == prior[a] && out@[b] == prior[b - 1]);
                    if j < prior.len() {
                        assert(prior[j as int].0 > page.0);
                        assert(prior[j as int].0 <= prior[b - 1].0);
                    }
                } else if a == j {
                    assert(out@[b] == prior[b - 1]);
                    assert(prior[j as int].0 > page.0);
                    assert(prior[j as int].0 <= prior[b - 1].0);
                } else {
                    assert(out@[a] == prior[a - 1] && out@[b] == prior[b - 1]);
                }
            }
        }
        assert(out@.to_multiset().add(rest@.to_multiset()) =~= all.to_multiset());
    }
    assert(rest@.to_multiset() =~= Multiset::<(u32, String)>::empty()) by {
        broadcast use vstd::seq_lib::group_to_multiset_ensures;
        assert(rest@ =~= Seq::<(u32, String)>::empty());
    }
    assert(out@.to_multiset() =~= all.to_multiset());
    out
}

/// The renames that name the rendered pages after their cards: the pages in
/// page order, page `k` renamed to the preview name of the `k`-th card; an
/// error when the pages are not as many as the cards.
pub fn page_renames(pages: Vec<(u32, String)>, identifiers: &Vec<u32>) -> (r: Result<
    Vec<(String, String)>,
    PreviewError,
>)
    ensures
        pages@.len() != identifiers@.len() ==> (r matches Err(
            PreviewError::PageCountMismatch(p, c),
        ) && p == pages@.len() && c == identifiers@.len()),
        pages@.len() == identifiers@.len() ==> (r matches Ok(renames) && renames@.len()
            == identifiers@.len() && exists|sorted: Seq<(u32, String)>|
            #![trigger by_page(sorted)]
            by_page(sorted) && sorted.to_multiset() == pages@.to_multiset() && sorted.len()
                == renames@.len() && forall|k: int|
                0 <= k < renames@.len() ==> (#[trigger] renames@[k]).0 == sorted[k].1
                    && renames@[k].1@ == decimal(identifiers@[k] as nat) + ".png"@),
{
    let count = pages.len();
    let sorted = sort_pages(pages);
    proof {
        vstd::seq_lib::to_multiset_len(sorted@);
        vstd::seq_lib::to_multiset_len(pages@);
    }
    let names = preview_names(count, identifiers)?;
    let mut renames: Vec<(String, String)> = Vec::new();
    let mut k: usize = 0;
    while k < names.len()
        invariant
            k <= names@.len() == identifiers@.len() == sorted@.len(),
            renames@.len() == k,
            forall|j: int|
                0 <= j < k ==> (#[trigger] renames@[j]).0 == sorted@[j].1 && renames@[j].1
                    == names@[j],
        decreases names@.len() - k,
    {
        renames.push((sorted[k].1.clone(), names[k].clone()));
        k = k + 1;
    }
    assert(by_page(sorted@));
    Ok(renames)
}

/// The font directories under the template workspace.
pub open spec fn font_paths_spec(workspace: Seq<char>) -> Seq<Seq<char>> {
    seq![join_spec(workspace, "assets/ot/font"@), join_spec(workspace, "assets/rd/font"@)]
}

/// The files of the template workspace that rendering previews reads.
pub open spec fn workspace_files_spec(workspace: Seq<char>) -> Seq<Seq<char>> {
    seq![join_spec(workspace, "lib/mod.typ"@), join_spec(workspace, "assets/ot/card/ot.json"@)]
}

/// The font directories that Typst may need.
pub fn font_candidates(workspace: &str) -> (paths: Vec<String>)
    ensures
        strings_view(paths@) == font_paths_spec(workspace@),
{
    let v = vec![join(workspace, "assets/ot/font"), join(workspace, "assets/rd/font")];
    assert(strings_view(v@) == seq![v@[0]@, v@[1]@]);
    v
}

/// The files that rendering previews needs in the template workspace.
pub fn workspace_files(workspace: &str) -> (paths: Vec<String>)
    ensures
        strings_view(paths@) == workspace_files_spec(workspace@),
{
    let v = vec![join(workspace, "lib/mod.typ"), join(workspace, "assets/ot/card/ot.json")];
    assert(strings_view(v@) == seq![v@[0]@, v@[1]@]);
    v
}

/// The font directories that Typst is pointed to, given whether each of
/// `font_candidates` is a directory; the first that is not is an error.
pub fn font_paths(workspace: &str, are_directories: &Vec<bool>) -> (r: Result<
    Vec<String>,
    PreviewError,
>)
    requires
        are_directories@.len() == 2,
    ensures
        match first_missing(font_paths_spec(workspace@), are_directories@) {
            Some(p) => r matches Err(PreviewError::FontDirectoryMissing(q)) && q@ == p,
            None => r matches Ok(paths) && strings_view(paths@) == font_paths_spec(workspace@),
        },
{
    let paths = font_candidates(workspace);
    match find_missing(&paths, are_directories) {
        Some(p) => Err(PreviewError::FontDirectoryMissing(p)),
        None => Ok(paths),
    }
}

/// Checks that the template workspace holds the files that rendering needs,
/// given whether each of `workspace_files` is a file.
pub fn validate_workspace(workspace: &str, are_files: &Vec<bool>) -> (r: Result<(), PreviewError>)
    requires
        are_files@.len() == 2,
    ensures
        match first_missing(workspace_files_spec(workspace@), are_files@) {
            Some(p) => r matches Err(PreviewError::WorkspaceFileMissing(q)) && q@ == p,
            None => r is Ok,
        },
{
    let paths = workspace_files(workspace);
    match find_missing(&paths, are_files) {
        Some(p) => Err(PreviewError::WorkspaceFileMissing(p)),
        None => Ok(()),
    }
}

/// Why previews cannot be rendered.
#[derive(Debug, PartialEq, Eq)]
pub enum PreviewError {
    /// The resolution is outside 36..=144 pixels per inch.
    ResolutionOutOfRange,
    /// The lists name no card.
    NoCards,
    /// A file of the template workspace is missing.
    WorkspaceFileMissing(String),
    /// A font directory of the template workspace is missing.
    FontDirectoryMissing(String),
    /// Typst rendered this many pages for this many cards.
    PageCountMismatch(usize, usize),
}

impl PreviewError {
    /// The message that reports the error.
    pub fn message(&self) -> (m: String)
        ensures
            m@ == match self {
                PreviewError::ResolutionOutOfRange => "preview PPI must be between 36 and 144"@,
                PreviewError::NoCards => "no card IDs found to render"@,
                PreviewError::WorkspaceFileMissing(p) => "required typst-ygo file is missing: "@
                    + p@ + "; run `prepare` first"@,
                PreviewError::FontDirectoryMissing(p) =>
                    "required Typst font directory is missing: "@ + p@,
                PreviewError::PageCountMismatch(pages, cards) => "Typst rendered "@ + decimal(
                    *pages as nat,
                ) + " pages for "@ + decimal(*cards as nat) + " cards"@,
            },
    {
        let mut out: Vec<char> = Vec::new();
        match self {
            PreviewError::ResolutionOutOfRange => {
                push_str(&mut out, "preview PPI must be between 36 and 144");
            },
            PreviewError::NoCards => {
                push_str(&mut out, "no card IDs found to render");
            },
            PreviewError::WorkspaceFileMissing(p) => {
                push_str(&mut out, "required typst-ygo file is missing: ");
                push_str(&mut out, p.as_str());
                push_str(&mut out, "; run `prepare` first");
            },
            PreviewError::FontDirectoryMissing(p) => {
                push_str(&mut out, "required Typst font directory is missing: ");
                push_str(&mut out, p.as_str());
            },
            PreviewError::PageCountMismatch(pages, cards) => {
                push_str(&mut out, "Typst rendered ");
                push_decimal(&mut out, *pages as u64);
                push_str(&mut out, " pages for ");
                push_decimal(&mut out, *cards as u64);
                push_str(&mut out, " cards");
            },
        }
        string_of(&out)
    }
}

/// Checks a rendering request: the resolution and the cards.
pub fn check_request(ppi: u16, identifiers: &Vec<u32>) -> (r: Result<(), PreviewError>)
    ensures
        !(36 <= ppi <= 144) ==> r matches Err(PreviewError::ResolutionOutOfRange),
        36 <= ppi <= 144 && identifiers@.len() == 0 ==> r matches Err(PreviewError::NoCards),
        36 <= ppi <= 144 && identifiers@.len() > 0 ==> r is Ok,
{
    if !(36 <= ppi && ppi <= 144) {
        return Err(PreviewError::ResolutionOutOfRange);
    }
    if identifiers.len() == 0 {
        return Err(PreviewError::NoCards);
    }
    Ok(())
}

/// The file name of each card's preview, in page order; the pages must be
/// as many as the cards.
pub fn preview_names(pages: usize, identifiers: &Vec<u32>) -> (r: Result<Vec<String>, PreviewError>)
    ensures
        pages != identifiers@.len() ==> (r matches Err(PreviewError::PageCountMismatch(p, c))
            && p == pages && c == identifiers@.len()),
        pages == identifiers@.len() ==> (r matches Ok(names) && names@.len() == pages && forall|
            k: int,
        |
            0 <= k < pages ==> (#[trigger] names@[k])@ == decimal(identifiers@[k] as nat)
                + ".png"@),
{
    if pages != identifiers.len() {
        return Err(PreviewError::PageCountMismatch(pages, identifiers.len()));
    }
    let mut names: Vec<String> = Vec::new();
    let mut k: usize = 0;
    while k < identifiers.len()
        invariant
            k <= identifiers@.len(),
            names@.len() == k,
            forall|j: int| 0 <= j < k ==> (#[trigger] names@[j])@ == decimal(identifiers@[j] as nat)
                + ".png"@,
        decreases identifiers@.len() - k,
    {
        let mut name: Vec<char> = Vec::new();
        push_decimal(&mut name, identifiers[k] as u64);
        push_str(&mut name, ".png");
        names.push(string_of(&name));
        k = k + 1;
    }
    Ok(names)
}

/// The arguments of the Typst run that renders the previews: the project's
/// compile arguments, the resolution, the generated source and the pattern
/// of the page images.
pub fn render_arguments(
    project_root: &str,
    fonts: &Vec<String>,
    ppi: u16,
    source: &str,
    output_pattern: &str,
) -> (args: Vec<String>)
    ensures
        strings_view(args@) == compile_arguments_spec(project_root@, strings_view(fonts@)) + seq![
            "--ppi"@,
            decimal(ppi as nat),
            source@,
            output_pattern@,
        ],
{
    let mut args = compile_arguments(project_root, fonts);
    let ghost before = strings_view(args@);
    args.push(string_of(&chars_of("--ppi")));
    let mut digits: Vec<char> = Vec::new();
    push_decimal(&mut digits, ppi as u64);
    args.push(string_of(&digits));
    args.push(string_of(&chars_of(source)));
    args.push(string_of(&chars_of(output_pattern)));
    assert(strings_view(args@) == before + seq![
        "--ppi"@,
        decimal(ppi as nat),
        source@,
        output_pattern@,
    ]);
    args
}

/// The name of the page image of page `n` reads back as `n`.
pub proof fn law_page_number_roundtrip(n: u32)
    ensures
        page_number_spec("page-"@ + decimal(n as nat) + ".png"@) == Ok::<u32, PageNameError>(n),
{
    let prefix = "page-"@;
    let suffix = ".png"@;
    let d = decimal(n as nat);
    let name = prefix + d + suffix;
    law_decimal_parses(n as nat, u32::MAX as nat);
    assert(name.take(prefix.len() as int) == prefix);
    let rest = name.skip(prefix.len() as int);
    assert(rest == d + suffix);
    assert(rest.skip(rest.len() - suffix.len()) == suffix);
    assert(rest.take(rest.len() - suffix.len()) == d);
}

/// Each ID of `v` once, in the order of first occurrence: no ID twice, and
/// every ID of `v` is there.
pub proof fn law_first_occurrences(v: Seq<u32>)
    ensures
        forall|i: int, j: int|
            0 <= i < j < first_occurrences(v).len() ==> first_occurrences(v)[i]
                != first_occurrences(v)[j],
        forall|x: u32| first_occurrences(v).contains(x) <==> v.contains(x),
    decreases v.len(),
{
    if v.len() > 0 {
        let before = first_occurrences(v.drop_last());
        law_first_occurrences(v.drop_last());
        assert forall|x: u32| first_occurrences(v).contains(x) <==> v.contains(x) by {
            if v.contains(x) {
                let k = choose|k: int| 0 <= k < v.len() && v[k] == x;
                if k < v.len() - 1 {
                    assert(v.drop_last()[k] == x);
                    assert(v.drop_last().contains(x));
                }
                if before.contains(x) {
                    let j = choose|j: int| 0 <= j < before.len() && before[j] == x;
                    assert(first_occurrences(v)[j] == x);
                } else {
                    assert(first_occurrences(v) == before.push(x));
                    assert(first_occurrences(v)[before.len() as int] == x);
                }
            }
            if first_occurrences(v).contains(x) {
                if before.contains(x) {
                    assert(v.drop_last().contains(x));
                    let k = choose|k: int| 0 <= k < v.drop_last().len() && v.drop_last()[k] == x;
                    assert(v[k] == x);
                } else {
                    let k = choose|k: int|
                        0 <= k < first_occurrences(v).len() && first_occurrences(v)[k] == x;
                    assert(k == before.len());
                    assert(v[v.len() - 1] == x);
                }
            }
        }
    }
}

} // verus!
