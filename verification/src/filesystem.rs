//! Containment decisions of the read-only reader: which requested paths lie
//! inside an approved root, and when a file may be read.

use vstd::prelude::*;

use crate::app_paths::{join_path, path_joined};
use crate::text::{
    concat, decimal, has_prefix, push_decimal, push_text, same_text, slash_joined, slash_segments,
    split_slash, starts_with,
};

verus! {

/// Why a contained read was refused or failed.
#[derive(Debug, PartialEq, Eq)]
pub enum ReadError {
    PathMustBeAbsolute,
    RootMustBeDirectory { path: String },
    OutsideApprovedRoot { path: String, resolved: String },
    NotAFile { path: String },
    FileTooLarge { path: String, actual: u64, limit: u64 },
    Unavailable { path: String, message: String },
    NotUtf8 { path: String, message: String },
    Snapshot(String),
}

impl ReadError {
    /// The readable description of the error.
    pub fn describe(&self) -> (r: String)
        ensures
            r@ == (match self {
                ReadError::PathMustBeAbsolute => "path must be absolute"@,
                ReadError::RootMustBeDirectory { path } => "approved root is not a directory: "@
                    + path@,
                ReadError::OutsideApprovedRoot { path, resolved } => "path "@ + path@
                    + " resolves outside the approved root to "@ + resolved@,
                ReadError::NotAFile { path } => "path is not a regular file: "@ + path@,
                ReadError::FileTooLarge { path, actual, limit } => "file "@ + path@ + " is "@
                    + decimal(*actual as nat) + " bytes, above the "@ + decimal(*limit as nat)
                    + " byte limit"@,
                ReadError::Unavailable { path, message } => "path is unavailable: "@ + path@
                    + ": "@ + message@,
                ReadError::NotUtf8 { path, message } => "file is not UTF-8: "@ + path@ + ": "@
                    + message@,
                ReadError::Snapshot(m) => "could not create a stable source snapshot: "@ + m@,
            }),
    {
        match self {
            ReadError::PathMustBeAbsolute => "path must be absolute".to_owned(),
            ReadError::RootMustBeDirectory { path } => concat(
                "approved root is not a directory: ",
                path.as_str(),
            ),
            ReadError::OutsideApprovedRoot { path, resolved } => {
                let mut r = concat("path ", path.as_str());
                push_text(&mut r, " resolves outside the approved root to ");
                push_text(&mut r, resolved.as_str());
                r
            },
            ReadError::NotAFile { path } => concat("path is not a regular file: ", path.as_str()),
            ReadError::FileTooLarge { path, actual, limit } => {
                let mut r = concat("file ", path.as_str());
                push_text(&mut r, " is ");
                push_decimal(&mut r, *actual);
                push_text(&mut r, " bytes, above the ");
                push_decimal(&mut r, *limit);
                push_text(&mut r, " byte limit");
                r
            },
            ReadError::Unavailable { path, message } => {
                let mut r = concat("path is unavailable: ", path.as_str());
                push_text(&mut r, ": ");
                push_text(&mut r, message.as_str());
                r
            },
            ReadError::NotUtf8 { path, message } => {
                let mut r = concat("file is not UTF-8: ", path.as_str());
                push_text(&mut r, ": ");
                push_text(&mut r, message.as_str());
                r
            },
            ReadError::Snapshot(m) => concat("could not create a stable source snapshot: ", m.as_str()),
        }
    }
}

/// The path components of an absolute path after its root: its `/`
/// segments without empty and `.` segments, as `Path::components` yields
/// them.
pub open spec fn normal_components(segments: Seq<Seq<char>>) -> Seq<Seq<char>>
    decreases segments.len(),
{
    if segments.len() == 0 {
        Seq::empty()
    } else {
        let rest = normal_components(segments.drop_last());
        let s = segments.last();
        if s.len() == 0 || s == seq!['.'] {
            rest
        } else {
            rest.push(s)
        }
    }
}

/// The components of a path.
pub open spec fn components_of(path: Seq<char>) -> Seq<Seq<char>> {
    normal_components(slash_segments(path))
}

/// The components of `path` below `root`, when `root`'s components are a
/// prefix of `path`'s, as `Path::strip_prefix` finds them.
pub open spec fn below(path: Seq<char>, root: Seq<char>) -> Option<Seq<Seq<char>>> {
    let p = components_of(path);
    let r = components_of(root);
    if r.len() <= p.len() && p.take(r.len() as int) == r {
        Some(p.skip(r.len() as int))
    } else {
        None
    }
}

/// Where a requested absolute path lies relative to the reader's roots:
/// below the canonical root, else below the root as approved; it is refused
/// when it is relative, below neither root, or climbs with `..`. The result
/// is the relative path, its components joined with `/`.
pub open spec fn contained_relative_of(
    requested: Seq<char>,
    canonical_root: Seq<char>,
    approved_root: Seq<char>,
) -> Result<Seq<char>, ReadErrorKind> {
    if !has_prefix(requested, "/"@) {
        Err(ReadErrorKind::PathMustBeAbsolute)
    } else {
        let rel = match below(requested, canonical_root) {
            Some(r) => Some(r),
            None => below(requested, approved_root),
        };
        match rel {
            None => Err(ReadErrorKind::OutsideApprovedRoot),
            Some(r) => if r.contains(seq!['.', '.']) {
                Err(ReadErrorKind::OutsideApprovedRoot)
            } else {
                Ok(slash_joined(r))
            },
        }
    }
}

/// The kind of a containment refusal.
#[derive(PartialEq, Eq, Structural)]
pub enum ReadErrorKind {
    PathMustBeAbsolute,
    OutsideApprovedRoot,
}

fn components(path: &str) -> (r: Vec<String>)
    ensures
        r@.map_values(|s: String| s@) == components_of(path@),
{
    let segments = split_slash(path);
    let ghost sv = segments@.map_values(|s: String| s@);
    let mut out: Vec<String> = Vec::new();
    let mut i: usize = 0;
    while i < segments.len()
        invariant
            i <= segments@.len(),
            sv == segments@.map_values(|s: String| s@),
            sv == slash_segments(path@),
            out@.map_values(|s: String| s@) == normal_components(sv.take(i as int)),
        decreases segments@.len() - i,
    {
        let s = &segments[i];
        assert(sv.take(i + 1).drop_last() =~= sv.take(i as int));
        assert(sv.take(i + 1).last() == s@);
        proof {
            reveal_strlit(".");
        }
        let dot = same_text(s.as_str(), ".");
        assert(dot == (s@ == seq!['.'])) by {
            assert("."@ =~= seq!['.']);
        }
        if s.unicode_len() == 0 || dot {
        } else {
            let ghost before = out@;
            out.push(s.clone());
            assert(out@.map_values(|s: String| s@) =~= before.map_values(|s: String| s@).push(sv[i as int]));
        }
        i = i + 1;
    }
    assert(sv.take(segments@.len() as int) =~= sv);
    out
}

fn strip_components(path: &Vec<String>, root: &Vec<String>) -> (r: Option<Vec<String>>)
    ensures
        ({
            let p = path@.map_values(|s: String| s@);
            let q = root@.map_values(|s: String| s@);
            match r {
                Some(rest) => q.len() <= p.len() && p.take(q.len() as int) == q && rest@.map_values(
                    |s: String| s@,
                ) == p.skip(q.len() as int),
                None => !(q.len() <= p.len() && p.take(q.len() as int) == q),
            }
        }),
{
    let ghost p = path@.map_values(|s: String| s@);
    let ghost q = root@.map_values(|s: String| s@);
    if root.len() > path.len() {
        return None;
    }
    let mut i: usize = 0;
    while i < root.len()
        invariant
            root@.len() <= path@.len(),
            i <= root@.len(),
            p == path@.map_values(|s: String| s@),
            q == root@.map_values(|s: String| s@),
            forall|k: int| 0 <= k < i ==> p[k] == q[k],
        decreases root@.len() - i,
    {
        if !same_text(path[i].as_str(), root[i].as_str()) {
            assert(p.take(q.len() as int)[i as int] != q[i as int]);
            return None;
        }
        i = i + 1;
    }
    assert(p.take(q.len() as int) =~= q);
    let mut rest: Vec<String> = Vec::new();
    let mut j: usize = root.len();
    while j < path.len()
        invariant
            root@.len() <= j <= path@.len(),
            p == path@.map_values(|s: String| s@),
            rest@.map_values(|s: String| s@) == p.subrange(root@.len() as int, j as int),
        decreases path@.len() - j,
    {
        let ghost before = rest@;
        rest.push(path[j].clone());
        assert(rest@.map_values(|s: String| s@) =~= before.map_values(|s: String| s@).push(p[j as int]));
        assert(p.subrange(root@.len() as int, j + 1) =~= p.subrange(root@.len() as int, j as int).push(p[j as int]));
        j = j + 1;
    }
    assert(p.subrange(root@.len() as int, path@.len() as int) =~= p.skip(q.len() as int));
    Some(rest)
}

fn join_components(parts: &Vec<String>) -> (r: String)
    ensures
        r@ == slash_joined(parts@.map_values(|s: String| s@)),
{
    let ghost pv = parts@.map_values(|s: String| s@);
    if parts.len() == 0 {
        return String::new();
    }
    let mut out = parts[0].clone();
    let mut i: usize = 1;
    while i < parts.len()
        invariant
            1 <= i <= parts@.len(),
            pv == parts@.map_values(|s: String| s@),
            out@ == slash_joined(pv.take(i as int)),
        decreases parts@.len() - i,
    {
        push_text(&mut out, "/");
        push_text(&mut out, parts[i].as_str());
        assert(pv.take(i + 1).drop_last() =~= pv.take(i as int));
        i = i + 1;
    }
    assert(pv.take(parts@.len() as int) =~= pv);
    out
}

/// Maps a requested absolute path to its relative path inside the roots,
/// refusing relative paths, paths outside both roots and paths that climb
/// with `..`. The root itself maps to the empty relative path.
pub fn contained_relative_allow_root(
    requested: &str,
    canonical_root: &str,
    approved_root: &str,
) -> (r: Result<String, ReadError>)
    ensures
        match r {
            Ok(rel) => contained_relative_of(requested@, canonical_root@, approved_root@) == Ok::<
                Seq<char>,
                ReadErrorKind,
            >(rel@),
            Err(ReadError::PathMustBeAbsolute) => contained_relative_of(
                requested@,
                canonical_root@,
                approved_root@,
            ) == Err::<Seq<char>, ReadErrorKind>(ReadErrorKind::PathMustBeAbsolute),
            Err(ReadError::OutsideApprovedRoot { path, resolved }) => contained_relative_of(
                requested@,
                canonical_root@,
                approved_root@,
            ) == Err::<Seq<char>, ReadErrorKind>(ReadErrorKind::OutsideApprovedRoot) && path@
                == requested@ && resolved@ == requested@,
            Err(_) => false,
        },
{
    if !starts_with(requested, "/") {
        return Err(ReadError::PathMustBeAbsolute);
    }
    let parts = components(requested);
    let canonical = components(canonical_root);
    let rel = match strip_components(&parts, &canonical) {
        Some(r) => r,
        None => {
            let approved = components(approved_root);
            match strip_components(&parts, &approved) {
                Some(r) => r,
                None => {
                    return Err(
                        ReadError::OutsideApprovedRoot {
                            path: requested.to_owned(),
                            resolved: requested.to_owned(),
                        },
                    );
                },
            }
        },
    };
    let ghost rv = rel@.map_values(|s: String| s@);
    assert(has_prefix(requested@, "/"@));
    assert((match below(requested@, canonical_root@) {
        Some(r) => Some(r),
        None => below(requested@, approved_root@),
    }) == Some(rv));
    let mut i: usize = 0;
    while i < rel.len()
        invariant
            i <= rel@.len(),
            rv == rel@.map_values(|s: String| s@),
            has_prefix(requested@, "/"@),
            (match below(requested@, canonical_root@) {
                Some(r) => Some(r),
                None => below(requested@, approved_root@),
            }) == Some(rv),
            forall|k: int| 0 <= k < i ==> rv[k] != seq!['.', '.'],
        decreases rel@.len() - i,
    {
        proof {
            reveal_strlit("..");
        }
        let up = same_text(rel[i].as_str(), "..");
        assert(rv[i as int] == rel@[i as int]@);
        assert(up == (rv[i as int] == seq!['.', '.'])) by {
            assert(".."@ =~= seq!['.', '.']);
        }
        if up {
            assert(rv.contains(seq!['.', '.'])) by {
                assert(rv[i as int] == seq!['.', '.']);
            }
            return Err(
                ReadError::OutsideApprovedRoot {
                    path: requested.to_owned(),
                    resolved: requested.to_owned(),
                },
            );
        }
        i = i + 1;
    }
    Ok(join_components(&rel))
}

/// As `contained_relative_allow_root`, also refusing the root itself.
pub fn contained_relative(requested: &str, canonical_root: &str, approved_root: &str) -> (r: Result<
    String,
    ReadError,
>)
    ensures
        match r {
            Ok(rel) => contained_relative_of(requested@, canonical_root@, approved_root@) == Ok::<
                Seq<char>,
                ReadErrorKind,
            >(rel@) && rel@.len() > 0,
            Err(ReadError::PathMustBeAbsolute) => contained_relative_of(
                requested@,
                canonical_root@,
                approved_root@,
            ) == Err::<Seq<char>, ReadErrorKind>(ReadErrorKind::PathMustBeAbsolute),
            Err(ReadError::OutsideApprovedRoot { path, resolved }) => (contained_relative_of(
                requested@,
                canonical_root@,
                approved_root@,
            ) == Err::<Seq<char>, ReadErrorKind>(ReadErrorKind::OutsideApprovedRoot)
                || contained_relative_of(requested@, canonical_root@, approved_root@) == Ok::<
                Seq<char>,
                ReadErrorKind,
            >(Seq::<char>::empty())) && path@ == requested@ && resolved@ == requested@,
            Err(_) => false,
        },
{
    let rel = contained_relative_allow_root(requested, canonical_root, approved_root)?;
    if rel.unicode_len() == 0 {
        assert(rel@ =~= Seq::<char>::empty());
        return Err(
            ReadError::OutsideApprovedRoot { path: requested.to_owned(), resolved: requested.to_owned() },
        );
    }
    Ok(rel)
}

/// Admits a file for reading: it must be a regular file within the byte
/// limit.
pub fn validate_metadata(path: &str, is_file: bool, len: u64, limit: u64) -> (r: Result<(), ReadError>)
    ensures
        !is_file ==> (r matches Err(ReadError::NotAFile { path: p }) && p@ == path@),
        is_file && len > limit ==> (r matches Err(ReadError::FileTooLarge { path: p, actual, limit: l })
            && p@ == path@ && actual == len && l == limit),
        is_file && len <= limit ==> r is Ok,
{
    if !is_file {
        return Err(ReadError::NotAFile { path: path.to_owned() });
    }
    if len > limit {
        return Err(ReadError::FileTooLarge { path: path.to_owned(), actual: len, limit });
    }
    Ok(())
}

/// Checks the number of bytes actually read against the limit.
pub fn check_read_size(path: &str, read_len: u64, limit: u64) -> (r: Result<(), ReadError>)
    ensures
        read_len > limit ==> (r matches Err(ReadError::FileTooLarge { path: p, actual, limit: l })
            && p@ == path@ && actual == read_len && l == limit),
        read_len <= limit ==> r is Ok,
{
    if read_len > limit {
        Err(ReadError::FileTooLarge { path: path.to_owned(), actual: read_len, limit })
    } else {
        Ok(())
    }
}

/// Maps a failure of the capability-restricted directory handle: a denied
/// permission means the path escaped the root.
pub fn map_capability_error(path: &str, permission_denied: bool, message: String) -> (r: ReadError)
    ensures
        permission_denied ==> (r matches ReadError::OutsideApprovedRoot { path: p, resolved }
            && p@ == path@ && resolved@ == path@),
        !permission_denied ==> (r matches ReadError::Unavailable { path: p, message: m }
            && p@ == path@ && m@ == message@),
{
    if permission_denied {
        ReadError::OutsideApprovedRoot { path: path.to_owned(), resolved: path.to_owned() }
    } else {
        ReadError::Unavailable { path: path.to_owned(), message }
    }
}

/// Whether the walk may record another entry.
pub fn walk_may_continue(cancelled: bool, recorded: usize, max_entries: usize) -> (r: bool)
    ensures
        r == (!cancelled && recorded < max_entries),
{
    !cancelled && recorded < max_entries
}

/// Whether the walk descends into a directory entry: below the depth
/// limit and not named by an exclusion.
pub fn should_descend(is_dir: bool, depth: usize, max_depth: usize, name: &str, exclusions: &Vec<String>) -> (r: bool)
    ensures
        r == (is_dir && depth < max_depth && !exclusions@.map_values(|e: String| e@).contains(name@)),
{
    if !is_dir || depth >= max_depth {
        return false;
    }
    let ghost ev = exclusions@.map_values(|e: String| e@);
    let mut i: usize = 0;
    while i < exclusions.len()
        invariant
            i <= exclusions@.len(),
            ev == exclusions@.map_values(|e: String| e@),
            forall|k: int| 0 <= k < i ==> ev[k] != name@,
        decreases exclusions@.len() - i,
    {
        if same_text(exclusions[i].as_str(), name) {
            assert(ev[i as int] == name@);
            return false;
        }
        i = i + 1;
    }
    assert(!ev.contains(name@));
    true
}

/// What a walked directory entry is, by its file type.
#[derive(Clone, Copy, Debug, PartialEq, Eq, Structural)]
pub enum EntryKind {
    Directory,
    File,
    Symlink,
    Other,
}

/// One result of a walk: an entry under the canonical root, or a path the
/// walk could not read.
#[derive(Debug, PartialEq, Eq)]
pub enum WalkRecord {
    Entry { path: String, kind: EntryKind },
    Unreadable { path: String, message: String },
}

/// Mathematical view of a walk result.
pub enum WalkRecordView {
    Entry { path: Seq<char>, kind: EntryKind },
    Unreadable { path: Seq<char>, message: Seq<char> },
}

impl View for WalkRecord {
    type V = WalkRecordView;

    open spec fn view(&self) -> WalkRecordView {
        match self {
            WalkRecord::Entry { path, kind } => WalkRecordView::Entry { path: path@, kind: *kind },
            WalkRecord::Unreadable { path, message } => WalkRecordView::Unreadable {
                path: path@,
                message: message@,
            },
        }
    }
}

/// A directory the walk still has to list: its path relative to the root,
/// its depth below the starting directory, and the handle under which the
/// caller keeps it open (the starting directory has handle 0, every other
/// directory the number of results recorded when it was found).
#[derive(Debug, PartialEq, Eq)]
pub struct PendingDirectory {
    pub relative: String,
    pub depth: usize,
    pub handle: usize,
}

pub open spec fn pending_view(d: PendingDirectory) -> (Seq<char>, usize, usize) {
    (d.relative@, d.depth, d.handle)
}

/// The path relative to the root reached from `start` through the
/// directory names `names`.
pub open spec fn path_below(start: Seq<char>, names: Seq<Seq<char>>) -> Seq<char>
    decreases names.len(),
{
    if names.len() == 0 {
        start
    } else {
        path_joined(path_below(start, names.drop_last()), names.last())
    }
}

/// Whether none of `names` is an excluded directory name.
pub open spec fn none_excluded(names: Seq<Seq<char>>, exclusions: Seq<Seq<char>>) -> bool {
    forall|k: int| 0 <= k < names.len() ==> !exclusions.contains(#[trigger] names[k])
}

/// Whether `d` is the directory reached from `start` through `names`,
/// within the depth limit and through no excluded directory.
pub open spec fn directory_within(
    d: PendingDirectory,
    names: Seq<Seq<char>>,
    start: Seq<char>,
    max_depth: usize,
    exclusions: Seq<Seq<char>>,
) -> bool {
    &&& d.relative@ == path_below(start, names)
    &&& d.depth == names.len()
    &&& names.len() <= max_depth
    &&& none_excluded(names, exclusions)
}

/// Whether a recorded result lies below `start` through `names`: an entry
/// one to `max_depth + 1` levels down, inside no excluded directory; a path
/// that could not be read at most as deep.
pub open spec fn record_within(
    r: WalkRecordView,
    names: Seq<Seq<char>>,
    root: Seq<char>,
    start: Seq<char>,
    max_depth: usize,
    exclusions: Seq<Seq<char>>,
) -> bool {
    match r {
        WalkRecordView::Entry { path, .. } => {
            &&& path == path_joined(root, path_below(start, names))
            &&& 1 <= names.len() <= max_depth + 1
            &&& none_excluded(names.drop_last(), exclusions)
        },
        WalkRecordView::Unreadable { path, .. } => {
            &&& path == path_joined(root, path_below(start, names))
            &&& names.len() <= max_depth + 1
        },
    }
}

/// A bounded depth-first walk below a starting directory of an approved
/// root. The walk hands out the directory to list; the caller reports what
/// it found there and opens the subdirectory the walk offers; the walk
/// decides what is recorded and where it descends.
pub struct DirectoryWalk {
    canonical_root: String,
    start: String,
    max_depth: usize,
    max_entries: usize,
    exclusions: Vec<String>,
    results: Vec<WalkRecord>,
    pending: Vec<PendingDirectory>,
    current: Option<PendingDirectory>,
    offered: Option<PendingDirectory>,
    result_names: Ghost<Seq<Seq<Seq<char>>>>,
    pending_names: Ghost<Seq<Seq<Seq<char>>>>,
    current_names: Ghost<Seq<Seq<char>>>,
    offered_names: Ghost<Seq<Seq<char>>>,
}

pub open spec fn optional_pending_view(d: Option<PendingDirectory>) -> Option<(Seq<char>, usize, usize)> {
    match d {
        Some(x) => Some(pending_view(x)),
        None => None,
    }
}

fn copy_directory(d: &PendingDirectory) -> (r: PendingDirectory)
    ensures
        r == *d,
{
    PendingDirectory { relative: d.relative.clone(), depth: d.depth, handle: d.handle }
}

impl DirectoryWalk {
    pub closed spec fn root_view(&self) -> Seq<char> {
        self.canonical_root@
    }

    pub closed spec fn start_view(&self) -> Seq<char> {
        self.start@
    }

    pub closed spec fn max_depth_view(&self) -> usize {
        self.max_depth
    }

    pub closed spec fn max_entries_view(&self) -> usize {
        self.max_entries
    }

    pub closed spec fn exclusions_view(&self) -> Seq<Seq<char>> {
        self.exclusions@.map_values(|e: String| e@)
    }

    pub closed spec fn results_view(&self) -> Seq<WalkRecordView> {
        self.results@.map_values(|r: WalkRecord| r@)
    }

    pub closed spec fn pending_seq(&self) -> Seq<(Seq<char>, usize, usize)> {
        self.pending@.map_values(|d: PendingDirectory| pending_view(d))
    }

    /// The directory being listed, if any.
    pub closed spec fn current_view(&self) -> Option<(Seq<char>, usize, usize)> {
        optional_pending_view(self.current)
    }

    /// The subdirectory offered for listing by the last recorded entry.
    pub closed spec fn offered_view(&self) -> Option<(Seq<char>, usize, usize)> {
        optional_pending_view(self.offered)
    }

    pub closed spec fn frame(&self, other: &Self) -> bool {
        &&& self.canonical_root == other.canonical_root
        &&& self.start == other.start
        &&& self.max_depth == other.max_depth
        &&& self.max_entries == other.max_entries
        &&& self.exclusions == other.exclusions
    }

    /// The walk never holds more results than its entry limit; every
    /// result lies below the starting directory as `record_within` says,
    /// and every directory it may still list lies within the depth limit
    /// and inside no excluded directory.
    pub closed spec fn wf(&self) -> bool {
        let ex = self.exclusions_view();
        &&& self.results@.len() <= self.max_entries
        &&& self.result_names@.len() == self.results@.len()
        &&& forall|i: int|
            0 <= i < self.results@.len() ==> record_within(
                #[trigger] self.results@[i]@,
                self.result_names@[i],
                self.canonical_root@,
                self.start@,
                self.max_depth,
                ex,
            )
        &&& self.pending_names@.len() == self.pending@.len()
        &&& forall|i: int|
            0 <= i < self.pending@.len() ==> directory_within(
                #[trigger] self.pending@[i],
                self.pending_names@[i],
                self.start@,
                self.max_depth,
                ex,
            )
        &&& (self.current matches Some(d) ==> directory_within(
            d,
            self.current_names@,
            self.start@,
            self.max_depth,
            ex,
        ))
        &&& (self.offered matches Some(d) ==> directory_within(
            d,
            self.offered_names@,
            self.start@,
            self.max_depth,
            ex,
        ))
    }

    /// A walk that starts with the directory at `start_relative`, open under
    /// handle 0.
    pub fn new(
        canonical_root: &str,
        start_relative: String,
        max_depth: usize,
        max_entries: usize,
        exclusions: Vec<String>,
    ) -> (w: Self)
        ensures
            w.wf(),
            w.root_view() == canonical_root@,
            w.start_view() == start_relative@,
            w.max_depth_view() == max_depth,
            w.max_entries_view() == max_entries,
            w.exclusions_view() == exclusions@.map_values(|e: String| e@),
            w.results_view() == Seq::<WalkRecordView>::empty(),
            w.pending_seq() == seq![(start_relative@, 0usize, 0usize)],
            w.current_view() is None,
            w.offered_view() is None,
    {
        let first = PendingDirectory { relative: start_relative.clone(), depth: 0, handle: 0 };
        let w = DirectoryWalk {
            canonical_root: canonical_root.to_owned(),
            start: start_relative,
            max_depth,
            max_entries,
            exclusions,
            results: Vec::new(),
            pending: vec![first],
            current: None,
            offered: None,
            result_names: Ghost(Seq::empty()),
            pending_names: Ghost(Seq::empty().push(Seq::<Seq<char>>::empty())),
            current_names: Ghost(Seq::empty()),
            offered_names: Ghost(Seq::empty()),
        };
        assert(w.results_view() =~= Seq::<WalkRecordView>::empty());
        assert(w.pending_seq() =~= seq![(w.pending@[0].relative@, 0usize, 0usize)]);
        assert(none_excluded(Seq::<Seq<char>>::empty(), w.exclusions_view()));
        w
    }

    /// Whether another entry may be recorded: the walk is not cancelled
    /// and below its entry limit.
    pub fn may_record(&self, cancelled: bool) -> (r: bool)
        ensures
            r == (!cancelled && self.results_view().len() < self.max_entries_view()),
    {
        proof {
            assert(self.results_view().len() == self.results@.len());
        }
        !cancelled && self.results.len() < self.max_entries
    }

    /// The next directory to list, most recently found first; none once the
    /// walk is cancelled, full, or has nothing left to list. The directory
    /// handed out becomes the current one, and nothing is offered yet.
    pub fn next_directory(&mut self, cancelled: bool) -> (r: Option<PendingDirectory>)
        requires
            old(self).wf(),
        ensures
            final(self).wf(),
            final(self).frame(old(self)),
            final(self).results_view() == old(self).results_view(),
            final(self).offered_view() is None,
            final(self).current_view() == optional_pending_view(r),
            (cancelled || old(self).results_view().len() >= old(self).max_entries_view()
                || old(self).pending_seq().len() == 0) ==> r is None && final(self).pending_seq()
                == old(self).pending_seq(),
            !(cancelled || old(self).results_view().len() >= old(self).max_entries_view()
                || old(self).pending_seq().len() == 0) ==> (r matches Some(d) && pending_view(d)
                == old(self).pending_seq().last() && final(self).pending_seq()
                == old(self).pending_seq().drop_last()),
            r matches Some(d) ==> d.depth <= old(self).max_depth_view(),
    {
        self.offered = None;
        if cancelled || self.results.len() >= self.max_entries || self.pending.len() == 0 {
            self.current = None;
            return None;
        }
        let ghost before = self.pending@;
        let ghost names = self.pending_names@;
        let d = self.pending.pop().unwrap();
        self.pending_names = Ghost(names.drop_last());
        self.current_names = Ghost(names.last());
        self.current = Some(copy_directory(&d));
        proof {
            assert(self.pending@ =~= before.drop_last());
            assert(directory_within(before.last(), names.last(), self.start@, self.max_depth, self.exclusions_view()));
            assert(self.pending_seq() =~= before.map_values(|d: PendingDirectory| pending_view(d)).drop_last());
            assert forall|i: int| 0 <= i < self.pending@.len() implies directory_within(
                #[trigger] self.pending@[i],
                self.pending_names@[i],
                self.start@,
                self.max_depth,
                self.exclusions_view(),
            ) by {
                assert(self.pending@[i] == before[i]);
            }
        }
        Some(d)
    }

    /// Records that the current directory (`name` absent) or its entry
    /// `name` could not be read, while the walk has room for it.
    pub fn record_unreadable(&mut self, name: Option<&str>, message: String)
        requires
            old(self).wf(),
        ensures
            final(self).wf(),
            final(self).frame(old(self)),
            final(self).pending_seq() == old(self).pending_seq(),
            final(self).current_view() == old(self).current_view(),
            final(self).offered_view() == old(self).offered_view(),
            final(self).results_view() == match old(self).current_view() {
                Some((relative, _, _)) => if old(self).results_view().len() < old(self).max_entries_view() {
                    old(self).results_view().push(
                        WalkRecordView::Unreadable {
                            path: path_joined(
                                old(self).root_view(),
                                match name {
                                    Some(n) => path_joined(relative, n@),
                                    None => relative,
                                },
                            ),
                            message: message@,
                        },
                    )
                } else {
                    old(self).results_view()
                },
                None => old(self).results_view(),
            },
    {
        if self.results.len() >= self.max_entries {
            return;
        }
        let relative = match &self.current {
            Some(d) => match name {
                Some(n) => join_path(d.relative.as_str(), n),
                None => d.relative.clone(),
            },
            None => {
                return;
            },
        };
        let ghost names = match name {
            Some(n) => self.current_names@.push(n@),
            None => self.current_names@,
        };
        let path = join_path(self.canonical_root.as_str(), relative.as_str());
        let record = WalkRecord::Unreadable { path, message };
        let ghost before = self.results@;
        let ghost before_names = self.result_names@;
        self.results.push(record);
        self.result_names = Ghost(before_names.push(names));
        proof {
            assert(self.results@.map_values(|r: WalkRecord| r@) =~= before.map_values(
                |r: WalkRecord| r@,
            ).push(record@));
            if name is Some {
                assert(names.drop_last() =~= self.current_names@);
            }
            assert forall|i: int| 0 <= i < self.results@.len() implies record_within(
                #[trigger] self.results@[i]@,
                self.result_names@[i],
                self.canonical_root@,
                self.start@,
                self.max_depth,
                self.exclusions_view(),
            ) by {
                if i < before.len() {
                    assert(self.results@[i] == before[i]);
                }
            }
        }
    }

    /// Records the entry `name` of kind `kind` found in the current
    /// directory. When the entry is a directory above the depth limit whose
    /// name is not excluded, it is offered for listing and its handle, the
    /// number of results recorded so far, is returned.
    pub fn record_entry(&mut self, name: &str, kind: EntryKind) -> (handle: Option<usize>)
        requires
            old(self).wf(),
        ensures
            final(self).wf(),
            final(self).frame(old(self)),
            final(self).pending_seq() == old(self).pending_seq(),
            final(self).current_view() == old(self).current_view(),
            (old(self).current_view() is None || old(self).results_view().len()
                >= old(self).max_entries_view()) ==> final(self).results_view() == old(self).results_view()
                && handle is None && final(self).offered_view() is None,
            match old(self).current_view() {
                Some((relative, depth, _)) => old(self).results_view().len() < old(self).max_entries_view()
                    ==> {
                    &&& final(self).results_view() == old(self).results_view().push(
                        WalkRecordView::Entry {
                            path: path_joined(old(self).root_view(), path_joined(relative, name@)),
                            kind,
                        },
                    )
                    &&& if kind == EntryKind::Directory && depth < old(self).max_depth_view()
                        && !old(self).exclusions_view().contains(name@) {
                        handle == Some(final(self).results_view().len() as usize)
                            && final(self).offered_view() == Some(
                            (
                                path_joined(relative, name@),
                                (depth + 1) as usize,
                                final(self).results_view().len() as usize,
                            ),
                        )
                    } else {
                        handle is None && final(self).offered_view() is None
                    }
                },
                None => true,
            },
    {
        self.offered = None;
        if self.results.len() >= self.max_entries {
            return None;
        }
        let (relative, depth) = match &self.current {
            Some(d) => (join_path(d.relative.as_str(), name), d.depth),
            None => {
                return None;
            },
        };
        let ghost names = self.current_names@.push(name@);
        let path = join_path(self.canonical_root.as_str(), relative.as_str());
        let record = WalkRecord::Entry { path, kind };
        let ghost before = self.results@;
        let ghost before_names = self.result_names@;
        self.results.push(record);
        self.result_names = Ghost(before_names.push(names));
        proof {
            assert(names.drop_last() =~= self.current_names@);
            assert(self.results@.map_values(|r: WalkRecord| r@) =~= before.map_values(
                |r: WalkRecord| r@,
            ).push(record@));
            assert forall|i: int| 0 <= i < self.results@.len() implies record_within(
                #[trigger] self.results@[i]@,
                self.result_names@[i],
                self.canonical_root@,
                self.start@,
                self.max_depth,
                self.exclusions_view(),
            ) by {
                if i < before.len() {
                    assert(self.results@[i] == before[i]);
                }
            }
        }
        let is_directory = match kind {
            EntryKind::Directory => true,
            _ => false,
        };
        if is_directory && should_descend(true, depth, self.max_depth, name, &self.exclusions) {
            let handle = self.results.len();
            self.offered = Some(PendingDirectory { relative, depth: depth + 1, handle });
            self.offered_names = Ghost(names);
            proof {
                assert forall|k: int| 0 <= k < names.len() implies !self.exclusions_view().contains(
                    #[trigger] names[k],
                ) by {
                    if k < names.len() - 1 {
                        assert(names[k] == self.current_names@[k]);
                    }
                }
            }
            Some(handle)
        } else {
            None
        }
    }

    /// Plans to list the subdirectory the last recorded entry offered, once
    /// the caller has opened it.
    pub fn admit_child(&mut self)
        requires
            old(self).wf(),
        ensures
            final(self).wf(),
            final(self).frame(old(self)),
            final(self).results_view() == old(self).results_view(),
            final(self).current_view() == old(self).current_view(),
            final(self).offered_view() is None,
            final(self).pending_seq() == match old(self).offered_view() {
                Some(d) => old(self).pending_seq().push(d),
                None => old(self).pending_seq(),
            },
    {
        let offered = self.offered.take();
        match offered {
            Some(child) => {
                let ghost before = self.pending@;
                let ghost before_names = self.pending_names@;
                let ghost cv = pending_view(child);
                self.pending.push(child);
                self.pending_names = Ghost(before_names.push(self.offered_names@));
                proof {
                    assert(self.pending_seq() =~= before.map_values(|d: PendingDirectory| pending_view(d)).push(cv));
                    assert forall|i: int| 0 <= i < self.pending@.len() implies directory_within(
                        #[trigger] self.pending@[i],
                        self.pending_names@[i],
                        self.start@,
                        self.max_depth,
                        self.exclusions_view(),
                    ) by {
                        if i < before.len() {
                            assert(self.pending@[i] == before[i]);
                        }
                    }
                }
            },
            None => {},
        }
    }

    /// The results, in the order they were recorded.
    pub fn finish(self) -> (r: Vec<WalkRecord>)
        requires
            self.wf(),
        ensures
            r@.map_values(|x: WalkRecord| x@) == self.results_view(),
            r@.len() <= self.max_entries_view(),
    {
        self.results
    }
}

/// A walk never records more results than its entry limit; every entry it
/// records lies below the starting directory, one to `max_depth + 1`
/// levels down, inside no excluded directory; and every directory it may
/// still list lies within the depth limit.
pub proof fn law_walk_respects_its_bounds(w: DirectoryWalk)
    requires
        w.wf(),
    ensures
        w.results_view().len() <= w.max_entries_view(),
        forall|i: int| 0 <= i < w.pending_seq().len() ==> (#[trigger] w.pending_seq()[i]).1
            <= w.max_depth_view(),
        forall|i: int|
            0 <= i < w.results_view().len() ==> (#[trigger] w.results_view()[i] matches WalkRecordView::Entry {
                path,
                ..
            } ==> exists|names: Seq<Seq<char>>|
                path == path_joined(w.root_view(), #[trigger] path_below(w.start_view(), names))
                    && 1 <= names.len() <= w.max_depth_view() + 1 && none_excluded(
                    names.drop_last(),
                    w.exclusions_view(),
                )),
{
    assert forall|i: int| 0 <= i < w.pending_seq().len() implies (#[trigger] w.pending_seq()[i]).1
        <= w.max_depth_view() by {
        assert(w.pending_seq()[i] == pending_view(w.pending@[i]));
    }
    assert forall|i: int| 0 <= i < w.results_view().len() implies (#[trigger] w.results_view()[i] matches WalkRecordView::Entry {
        path,
        ..
    } ==> exists|names: Seq<Seq<char>>|
        path == path_joined(w.root_view(), #[trigger] path_below(w.start_view(), names))
            && 1 <= names.len() <= w.max_depth_view() + 1 && none_excluded(
            names.drop_last(),
            w.exclusions_view(),
        )) by {
        assert(w.results_view()[i] == w.results@[i]@);
        let names = w.result_names@[i];
        assert(record_within(w.results@[i]@, names, w.canonical_root@, w.start@, w.max_depth, w.exclusions_view()));
        if w.results_view()[i] is Entry {
            assert(path_below(w.start_view(), names) == path_below(w.start@, names));
        }
    }
}

} // verus!
