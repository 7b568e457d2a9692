//! Paths, as strings joined the way `Path::join` joins them on Unix.

use vstd::prelude::*;

use crate::text::{chars_of, push_str, string_of, strings_view};

verus! {

/// `base` joined with `rel`: an absolute `rel` replaces `base`; otherwise a
/// `/` separates them unless `base` is empty or already ends with one.
pub open spec fn join_spec(base: Seq<char>, rel: Seq<char>) -> Seq<char> {
    if rel.len() > 0 && rel[0] == '/' {
        rel
    } else if base.len() > 0 && base.last() != '/' {
        base + seq!['/'] + rel
    } else {
        base + rel
    }
}

/// Joins a relative path onto a base path.
pub fn join(base: &str, rel: &str) -> (p: String)
    ensures
        p@ == join_spec(base@, rel@),
{
    let b = chars_of(base);
    let mut r = chars_of(rel);
    if r.len() > 0 && r[0] == '/' {
        return string_of(&r);
    }
    let mut out = b;
    if out.len() > 0 && out[out.len() - 1] != '/' {
        out.push('/');
    }
    out.append(&mut r);
    string_of(&out)
}

/// The directory under which fetched data is cached.
pub open spec fn cache_root() -> Seq<char> {
    ".cache/ygo-wcs-lf"@
}

/// The cache location of `relative`.
pub fn path(relative: &str) -> (p: String)
    ensures
        p@ == join_spec(cache_root(), relative@),
{
    join(".cache/ygo-wcs-lf", relative)
}

/// The paths of `paths` whose entry in `exists` is false, in order.
pub open spec fn missing_spec(paths: Seq<Seq<char>>, exists: Seq<bool>) -> Seq<Seq<char>>
    decreases paths.len(),
{
    if paths.len() == 0 {
        seq![]
    } else if exists[paths.len() - 1] {
        missing_spec(paths.drop_last(), exists)
    } else {
        missing_spec(paths.drop_last(), exists).push(paths.last())
    }
}

/// The paths that do not exist, given whether each exists.
pub fn missing(paths: &Vec<String>, exists: &Vec<bool>) -> (m: Vec<String>)
    requires
        paths@.len() == exists@.len(),
    ensures
        strings_view(m@) == missing_spec(strings_view(paths@), exists@),
{
    let ghost all = strings_view(paths@);
    let mut m: Vec<String> = Vec::new();
    let mut k: usize = 0;
    while k < paths.len()
        invariant
            k <= paths@.len() == exists@.len(),
            all == strings_view(paths@),
            strings_view(m@) == missing_spec(all.take(k as int), exists@),
        decreases paths@.len() - k,
    {
        let ghost t = all.take(k + 1);
        assert(t.drop_last() == all.take(k as int));
        assert(t.last() == paths@[k as int]@);
        if !exists[k] {
            let ghost before = m@;
            m.push(paths[k].clone());
            assert(strings_view(m@) == strings_view(before).push(paths@[k as int]@));
        }
        k = k + 1;
    }
    assert(all.take(paths@.len() as int) == all);
    m
}

/// The items separated by `", "`.
pub open spec fn list_spec(items: Seq<Seq<char>>) -> Seq<char>
    decreases items.len(),
{
    if items.len() == 0 {
        seq![]
    } else if items.len() == 1 {
        items[0]
    } else {
        list_spec(items.drop_last()) + ", "@ + items.last()
    }
}

/// Lists the items for a message.
pub fn list(items: &Vec<String>) -> (s: String)
    ensures
        s@ == list_spec(strings_view(items@)),
{
    let ghost all = strings_view(items@);
    let mut out: Vec<char> = Vec::new();
    let mut k: usize = 0;
    while k < items.len()
        invariant
            k <= items@.len(),
            all == strings_view(items@),
            out@ == list_spec(all.take(k as int)),
        decreases items@.len() - k,
    {
        let ghost t = all.take(k + 1);
        assert(t.drop_last() == all.take(k as int));
        if k > 0 {
            push_str(&mut out, ", ");
        } else {
            assert(t[0] == items@[0]@);
        }
        push_str(&mut out, items[k].as_str());
        k = k + 1;
    }
    assert(all.take(items@.len() as int) == all);
    string_of(&out)
}

/// The first path of `paths` whose entry in `present` is false.
pub open spec fn first_missing(paths: Seq<Seq<char>>, present: Seq<bool>) -> Option<Seq<char>>
    decreases paths.len(),
{
    if paths.len() == 0 {
        None
    } else if !present[0] {
        Some(paths[0])
    } else {
        first_missing(paths.drop_first(), present.drop_first())
    }
}

/// The first path that is not present, given whether each is.
pub fn find_missing(paths: &Vec<String>, present: &Vec<bool>) -> (r: Option<String>)
    requires
        paths@.len() == present@.len(),
    ensures
        match r {
            Some(p) => first_missing(strings_view(paths@), present@) == Some(p@),
            None => first_missing(strings_view(paths@), present@) is None,
        },
{
    let ghost all = strings_view(paths@);
    assert(all.skip(0) == all);
    assert(present@.skip(0) == present@);
    let mut k: usize = 0;
    while k < paths.len()
        invariant
            k <= paths@.len() == present@.len(),
            all == strings_view(paths@),
            first_missing(all, present@) == first_missing(all.skip(k as int), present@.skip(
                k as int,
            )),
        decreases paths@.len() - k,
    {
        assert(all.skip(k as int)[0] == paths@[k as int]@);
        assert(present@.skip(k as int)[0] == present@[k as int]);
        if !present[k] {
            return Some(paths[k].clone());
        }
        assert(all.skip(k as int).drop_first() == all.skip(k + 1));
        assert(present@.skip(k as int).drop_first() == present@.skip(k + 1));
        k = k + 1;
    }
    None
}

} // verus!
