//! Deciding what to do with each entry of a downloaded tar archive: where a
//! path may be extracted to, and which kinds of entry are allowed.

use vstd::prelude::*;

use crate::text::{chars_of, push_str, string_of};

verus! {

/// The parts of `s` between its slashes, empty ones included.
pub open spec fn parts(s: Seq<char>) -> Seq<Seq<char>>
    decreases s.len(),
{
    if s.len() == 0 {
        seq![seq![]]
    } else if s.last() == '/' {
        parts(s.drop_last()).push(seq![])
    } else {
        let p = parts(s.drop_last());
        p.update(p.len() - 1, p.last().push(s.last()))
    }
}

proof fn lemma_parts_len(s: Seq<char>)
    ensures
        parts(s).len() >= 1,
    decreases s.len(),
{
    if s.len() > 0 {
        lemma_parts_len(s.drop_last());
    }
}

/// A part names a file or directory (it is neither empty nor `.`).
pub open spec fn is_name(part: Seq<char>) -> bool {
    part.len() > 0 && part != "."@
}

/// The parts that name something, in order.
pub open spec fn names(ps: Seq<Seq<char>>) -> Seq<Seq<char>>
    decreases ps.len(),
{
    if ps.len() == 0 {
        seq![]
    } else if is_name(ps.last()) {
        names(ps.drop_last()).push(ps.last())
    } else {
        names(ps.drop_last())
    }
}

/// Some part climbs to the parent directory.
pub open spec fn climbs(ps: Seq<Seq<char>>) -> bool
    decreases ps.len(),
{
    if ps.len() == 0 {
        false
    } else {
        ps.last() == ".."@ || climbs(ps.drop_last())
    }
}

/// The names joined by single slashes.
pub open spec fn joined(ns: Seq<Seq<char>>) -> Seq<char>
    decreases ns.len(),
{
    if ns.len() == 0 {
        seq![]
    } else if ns.len() == 1 {
        ns[0]
    } else {
        joined(ns.drop_last()) + "/"@ + ns.last()
    }
}

/// `s` holds no slash.
pub open spec fn no_slash(s: Seq<char>) -> bool {
    forall|i: int| 0 <= i < s.len() ==> s[i] != '/'
}

proof fn lemma_parts_no_slash(s: Seq<char>)
    ensures
        forall|i: int| 0 <= i < parts(s).len() ==> no_slash(#[trigger] parts(s)[i]),
    decreases s.len(),
{
    lemma_parts_len(s);
    if s.len() > 0 {
        lemma_parts_no_slash(s.drop_last());
        lemma_parts_len(s.drop_last());
        let p = parts(s.drop_last());
        if s.last() != '/' {
            assert(no_slash(p.last()));
            assert(no_slash(p.last().push(s.last())));
        }
        assert forall|i: int| 0 <= i < parts(s).len() implies no_slash(#[trigger] parts(s)[i]) by {
            if i < p.len() - 1 {
                assert(parts(s)[i] == p[i]);
            }
        }
    }
}

proof fn lemma_parts_append(t: Seq<char>, x: Seq<char>)
    requires
        no_slash(x),
    ensures
        parts(t + x) == parts(t).update(parts(t).len() - 1, parts(t).last() + x),
    decreases x.len(),
{
    lemma_parts_len(t);
    if x.len() == 0 {
        assert(t + x == t);
        assert(parts(t).last() + x == parts(t).last());
        assert(parts(t).update(parts(t).len() - 1, parts(t).last()) == parts(t));
    } else {
        lemma_parts_append(t, x.drop_last());
        assert((t + x).drop_last() == t + x.drop_last());
        assert((t + x).last() == x.last());
        assert((parts(t).last() + x.drop_last()).push(x.last()) == parts(t).last() + x);
    }
}

proof fn lemma_parts_joined(ns: Seq<Seq<char>>)
    requires
        ns.len() > 0,
        forall|i: int| 0 <= i < ns.len() ==> no_slash(#[trigger] ns[i]),
    ensures
        parts(joined(ns)) == ns,
    decreases ns.len(),
{
    if ns.len() == 1 {
        lemma_parts_append(seq![], ns[0]);
        assert(Seq::<char>::empty() + ns[0] == ns[0]);
        assert(parts(Seq::<char>::empty()) == seq![Seq::<char>::empty()]);
        assert(Seq::<char>::empty() + ns[0] == ns[0]);
        assert(seq![Seq::<char>::empty()].update(0, ns[0]) == ns);
    } else {
        let init = ns.drop_last();
        lemma_parts_joined(init);
        reveal_strlit("/");
        let a = joined(init) + "/"@;
        assert(a.drop_last() == joined(init));
        assert(a.last() == '/');
        assert(parts(a) == init.push(seq![]));
        lemma_parts_append(a, ns.last());
        assert(joined(ns) == a + ns.last());
        assert(Seq::<char>::empty() + ns.last() == ns.last());
        assert(init.push(seq![]).update(init.len() as int, ns.last()) == ns);
    }
}

proof fn lemma_names_from_parts(ps: Seq<Seq<char>>)
    ensures
        forall|i: int|
            0 <= i < names(ps).len() ==> is_name(#[trigger] names(ps)[i]) && ps.contains(
                names(ps)[i],
            ),
    decreases ps.len(),
{
    if ps.len() > 0 {
        lemma_names_from_parts(ps.drop_last());
        let n = names(ps.drop_last());
        assert forall|i: int| 0 <= i < names(ps).len() implies is_name(#[trigger] names(ps)[i])
            && ps.contains(names(ps)[i]) by {
            if i < n.len() {
                assert(names(ps)[i] == n[i]);
                let j = choose|j: int| 0 <= j < ps.drop_last().len() && ps.drop_last()[j] == n[i];
                assert(ps[j] == n[i]);
            } else {
                assert(names(ps)[i] == ps.last());
                assert(ps[ps.len() - 1] == ps.last());
            }
        }
    }
}

proof fn lemma_climbs_contains(ps: Seq<Seq<char>>, x: Seq<char>)
    requires
        !climbs(ps),
        ps.contains(x),
    ensures
        x != ".."@,
    decreases ps.len(),
{
    let j = choose|j: int| 0 <= j < ps.len() && ps[j] == x;
    if j < ps.len() - 1 {
        assert(ps.drop_last()[j] == x);
        lemma_climbs_contains(ps.drop_last(), x);
    }
}

/// A path that is extracted to is relative and stays below the
/// destination: split at its slashes, every part names a file or directory
/// (none is empty or `.`), and none is `..`.
pub proof fn law_safe_path_stays_inside(path: Seq<char>, safe: Seq<char>)
    requires
        safe_relative_path_spec(path) == Ok::<Seq<char>, ()>(safe),
    ensures
        forall|i: int|
            0 <= i < parts(safe).len() ==> is_name(#[trigger] parts(safe)[i]) && parts(safe)[i]
                != ".."@,
{
    let ps = parts(path);
    let ns = names(ps);
    lemma_parts_no_slash(path);
    lemma_names_from_parts(ps);
    assert forall|i: int| 0 <= i < ns.len() implies no_slash(#[trigger] ns[i]) by {
        let j = choose|j: int| 0 <= j < ps.len() && ps[j] == ns[i];
        assert(no_slash(ps[j]));
    }
    lemma_parts_joined(ns);
    assert forall|i: int| 0 <= i < parts(safe).len() implies is_name(#[trigger] parts(safe)[i])
        && parts(safe)[i] != ".."@ by {
        lemma_climbs_contains(ps, ns[i]);
    }
}

/// Why an archive entry was refused.
#[derive(Debug, PartialEq, Eq)]
pub enum ArchiveError {
    /// The path is absolute or climbs out of the destination.
    UnsafePath(String),
    /// The path names nothing.
    EmptyPath,
    /// The entry is neither a directory, a file nor metadata.
    EntryTypeNotAllowed(String),
}

impl ArchiveError {
    /// The message that reports the error.
    pub fn message(&self) -> (m: String)
        ensures
            m@ == match self {
                ArchiveError::UnsafePath(p) => "unsafe archive path: "@ + p@,
                ArchiveError::EmptyPath => "archive path is empty"@,
                ArchiveError::EntryTypeNotAllowed(p) => "archive entry type is not allowed: "@
                    + p@,
            },
    {
        let mut out: Vec<char> = Vec::new();
        match self {
            ArchiveError::UnsafePath(p) => {
                push_str(&mut out, "unsafe archive path: ");
                push_str(&mut out, p.as_str());
            },
            ArchiveError::EmptyPath => {
                push_str(&mut out, "archive path is empty");
            },
            ArchiveError::EntryTypeNotAllowed(p) => {
                push_str(&mut out, "archive entry type is not allowed: ");
                push_str(&mut out, p.as_str());
            },
        }
        string_of(&out)
    }
}

/// Where an entry whose path is `path` may be extracted to, relative to the
/// destination: its names joined by slashes, with `.` and empty parts left
/// out. An absolute path, or one with a `..` part, is unsafe.
pub open spec fn safe_relative_path_spec(path: Seq<char>) -> Result<Seq<char>, ()> {
    if path.len() > 0 && path[0] == '/' {
        Err(())
    } else if climbs(parts(path)) {
        Err(())
    } else if names(parts(path)).len() == 0 {
        Err(())
    } else {
        Ok(joined(names(parts(path))))
    }
}

/// Closes the part `cur`: a name is appended to `out`, a `..` is noted.
fn close_part(
    out: &mut Vec<char>,
    named: &mut bool,
    climbed: &mut bool,
    cur: Vec<char>,
    Ghost(done): Ghost<Seq<Seq<char>>>,
)
    requires
        old(out)@ == joined(names(done)),
        *old(named) == (names(done).len() > 0),
        *old(climbed) == climbs(done),
    ensures
        final(out)@ == joined(names(done.push(cur@))),
        *final(named) == (names(done.push(cur@)).len() > 0),
        *final(climbed) == climbs(done.push(cur@)),
{
    let ghost p = done.push(cur@);
    assert(p.drop_last() == done);
    proof {
        reveal_strlit(".");
        reveal_strlit("..");
    }
    if cur.len() == 2 && cur[0] == '.' && cur[1] == '.' {
        assert(cur@ == ".."@);
        *climbed = true;
    }
    proof {
        if cur@ == ".."@ {
            assert(cur@[0] == '.' && cur@[1] == '.');
        }
        if cur@ == "."@ {
            assert(cur@.len() == 1 && cur@[0] == '.');
        }
    }
    if cur.len() > 0 && !(cur.len() == 1 && cur[0] == '.') {
        assert(is_name(cur@));
        let ghost ns = names(done);
        assert(names(p) == ns.push(cur@));
        assert(ns.push(cur@).drop_last() == ns);
        let mut part = cur;
        if *named {
            proof {
                reveal_strlit("/");
            }
            out.push('/');
        } else {
            assert(ns.push(cur@)[0] == cur@);
        }
        out.append(&mut part);
        *named = true;
    } else {
        proof {
            if cur@.len() == 1 {
                assert(cur@ == "."@);
            }
        }
    }
}

/// The relative path under which an archive entry is extracted, or why it
/// may not be.
pub fn safe_relative_path(path: &str) -> (r: Result<String, ArchiveError>)
    ensures
        match r {
            Ok(safe) => safe_relative_path_spec(path@) == Ok::<Seq<char>, ()>(safe@),
            Err(ArchiveError::UnsafePath(p)) => p@ == path@ && (path@.len() > 0 && path@[0]
                == '/' || climbs(parts(path@))),
            Err(ArchiveError::EmptyPath) => !(path@.len() > 0 && path@[0] == '/') && !climbs(
                parts(path@),
            ) && names(parts(path@)).len() == 0,
            Err(_) => false,
        },
{
    let s = chars_of(path);
    if s.len() > 0 && s[0] == '/' {
        return Err(ArchiveError::UnsafePath(string_of(&s)));
    }
    let mut out: Vec<char> = Vec::new();
    let mut named = false;
    let mut climbed = false;
    let mut cur: Vec<char> = Vec::new();
    let mut i: usize = 0;
    while i < s.len()
        invariant
            i <= s@.len(),
            s@ == path@,
            ({
                let p = parts(s@.take(i as int));
                &&& p.len() >= 1
                &&& cur@ == p.last()
                &&& out@ == joined(names(p.drop_last()))
                &&& named == (names(p.drop_last()).len() > 0)
                &&& climbed == climbs(p.drop_last())
            }),
        decreases s@.len() - i,
    {
        let ghost p = parts(s@.take(i as int));
        proof {
            lemma_parts_len(s@.take(i as int));
            assert(s@.take(i + 1).drop_last() == s@.take(i as int));
            assert(s@.take(i + 1).last() == s@[i as int]);
        }
        if s[i] == '/' {
            assert(parts(s@.take(i + 1)).drop_last() == p);
            let part = cur;
            close_part(&mut out, &mut named, &mut climbed, part, Ghost(p.drop_last()));
            assert(p.drop_last().push(p.last()) == p);
            cur = Vec::new();
        } else {
            let ghost q = parts(s@.take(i + 1));
            assert(q == p.update(p.len() - 1, p.last().push(s@[i as int])));
            assert(q.drop_last() == p.drop_last());
            cur.push(s[i]);
        }
        i = i + 1;
    }
    let ghost p = parts(s@);
    assert(s@.take(i as int) == s@);
    proof {
        lemma_parts_len(s@);
    }
    close_part(&mut out, &mut named, &mut climbed, cur, Ghost(p.drop_last()));
    assert(p.drop_last().push(p.last()) == p);
    if climbed {
        return Err(ArchiveError::UnsafePath(string_of(&s)));
    }
    if !named {
        return Err(ArchiveError::EmptyPath);
    }
    Ok(string_of(&out))
}

/// The type of a tar entry, one variant for each that the tar format names.
#[derive(Clone, Copy, Debug, PartialEq, Eq, Structural)]
pub enum EntryKind {
    Regular,
    Link,
    Symlink,
    Char,
    Block,
    Directory,
    Fifo,
    Continuous,
    GnuLongName,
    GnuLongLink,
    GnuSparse,
    XGlobalHeader,
    XHeader,
    Other(u8),
}

/// An entry that only describes other entries: pax extension headers and
/// GNU long names and links. It creates nothing on the file system.
pub open spec fn is_metadata_spec(kind: EntryKind) -> bool {
    kind == EntryKind::XGlobalHeader || kind == EntryKind::XHeader || kind
        == EntryKind::GnuLongName || kind == EntryKind::GnuLongLink
}

/// Whether an entry is metadata for other entries.
pub fn is_metadata(kind: EntryKind) -> (b: bool)
    ensures
        b == is_metadata_spec(kind),
{
    match kind {
        EntryKind::XGlobalHeader | EntryKind::XHeader | EntryKind::GnuLongName
        | EntryKind::GnuLongLink => true,
        _ => false,
    }
}

/// What extracting an entry does.
#[derive(Debug, PartialEq, Eq)]
pub enum EntryAction {
    /// Nothing: the entry is metadata.
    Skip,
    /// Creates the directory at this relative path.
    CreateDirectory(String),
    /// Writes the file at this relative path.
    WriteFile(String),
}

/// What to do with an archive entry whose path is `path` and whose type is
/// `kind`: its path must be safe whatever its type; metadata is skipped,
/// directories are created, regular and contiguous files written, and any
/// other type (links, devices, sparse files) refused.
pub fn entry_action(path: &str, kind: EntryKind) -> (r: Result<EntryAction, ArchiveError>)
    ensures
        (path@.len() > 0 && path@[0] == '/' || climbs(parts(path@))) ==> (r matches Err(
            ArchiveError::UnsafePath(p),
        ) && p@ == path@),
        !(path@.len() > 0 && path@[0] == '/' || climbs(parts(path@))) && names(parts(path@)).len()
            == 0 ==> r matches Err(ArchiveError::EmptyPath),
        safe_relative_path_spec(path@) matches Ok(safe) ==> {
            if is_metadata_spec(kind) {
                r == Ok::<EntryAction, ArchiveError>(EntryAction::Skip)
            } else if kind == EntryKind::Directory {
                r matches Ok(EntryAction::CreateDirectory(p)) && p@ == safe
            } else if kind == EntryKind::Regular || kind == EntryKind::Continuous {
                r matches Ok(EntryAction::WriteFile(p)) && p@ == safe
            } else {
                r matches Err(ArchiveError::EntryTypeNotAllowed(p)) && p@ == safe
            }
        },
{
    let relative = safe_relative_path(path)?;
    if is_metadata(kind) {
        return Ok(EntryAction::Skip);
    }
    match kind {
        EntryKind::Directory => Ok(EntryAction::CreateDirectory(relative)),
        EntryKind::Regular | EntryKind::Continuous => Ok(EntryAction::WriteFile(relative)),
        _ => Err(ArchiveError::EntryTypeNotAllowed(relative)),
    }
}

} // verus!
