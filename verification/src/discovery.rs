//! Project discovery: the scan policy, the records a scan produces, and the
//! decisions taken for every entry of a bounded directory walk.

use std::sync::Arc;
use std::sync::atomic::AtomicBool;

use sha2::Digest;
use vstd::prelude::*;

use crate::catalog::ScanStopReason;
use vstd::utf8::encode_utf8;

use crate::text::{
    chars_less, chars_lt, concat, decimal, forward_slashes, has_prefix, lowercase,
    normalize_separators, push_char, push_decimal, push_text, same_text, starts_with, strip_prefix,
    to_lowercase,
    trim, trimmed,
};

verus! {

/// Bounds of one discovery or indexing pass.
#[derive(Debug)]
pub struct ScanPolicy {
    pub exclusions: Vec<String>,
    pub max_depth: usize,
    pub max_entries: usize,
    pub max_file_bytes: u64,
    pub timeout_ms: u64,
}

/// A directory recognised as a project.
#[derive(Debug, PartialEq, Eq)]
pub struct ProjectCandidate {
    pub id: String,
    pub name: String,
    pub root_path: String,
    pub git: Option<GitContext>,
}

/// Git metadata read from a working tree.
#[derive(Debug, PartialEq, Eq)]
pub struct GitContext {
    pub branch: String,
}

/// A non-fatal problem met during a scan.
#[derive(Debug, PartialEq, Eq)]
pub struct ScanWarning {
    pub code: String,
    pub path: String,
    pub message: String,
}

/// Everything one discovery pass reports.
#[derive(Debug, PartialEq, Eq)]
pub struct DiscoveryResult {
    pub projects: Vec<ProjectCandidate>,
    pub warnings: Vec<ScanWarning>,
    pub cancelled: bool,
    pub entries_inspected: usize,
}

impl Clone for GitContext {
    fn clone(&self) -> (r: Self)
        ensures
            r == *self,
    {
        GitContext { branch: self.branch.clone() }
    }
}

impl Clone for ProjectCandidate {
    fn clone(&self) -> (r: Self)
        ensures
            r == *self,
    {
        let git = match &self.git {
            Some(g) => Some(g.clone()),
            None => None,
        };
        ProjectCandidate {
            id: self.id.clone(),
            name: self.name.clone(),
            root_path: self.root_path.clone(),
            git,
        }
    }
}

impl Clone for ScanWarning {
    fn clone(&self) -> (r: Self)
        ensures
            r == *self,
    {
        ScanWarning {
            code: self.code.clone(),
            path: self.path.clone(),
            message: self.message.clone(),
        }
    }
}

impl Default for ScanPolicy {
    fn default() -> (r: Self)
        ensures
            r.exclusions@.len() == 7,
            r.exclusions@[0]@ == ".git"@,
            r.exclusions@[1]@ == "node_modules"@,
            r.exclusions@[2]@ == "target"@,
            r.exclusions@[3]@ == ".cache"@,
            r.exclusions@[4]@ == ".next"@,
            r.exclusions@[5]@ == "dist"@,
            r.exclusions@[6]@ == "build"@,
            r.max_depth == 8,
            r.max_entries == 50_000,
            r.max_file_bytes == 2 * 1024 * 1024,
            r.timeout_ms == 30_000,
    {
        ScanPolicy {
            exclusions: vec![
                ".git".to_owned(),
                "node_modules".to_owned(),
                "target".to_owned(),
                ".cache".to_owned(),
                ".next".to_owned(),
                "dist".to_owned(),
                "build".to_owned(),
            ],
            max_depth: 8,
            max_entries: 50_000,
            max_file_bytes: 2 * 1024 * 1024,
            timeout_ms: 30_000,
        }
    }
}

/// A flag shared between a scan and whoever may cancel it.
#[derive(Debug)]
pub struct CancellationToken(pub Arc<AtomicBool>);

impl Clone for CancellationToken {
    /// Another handle on the same flag.
    fn clone(&self) -> (r: Self)
        ensures
            r == *self,
    {
        CancellationToken(Arc::clone(&self.0))
    }
}

impl CancellationToken {
    /// A token that is not cancelled.
    pub fn new() -> Self {
        CancellationToken(Arc::new(AtomicBool::new(false)))
    }

    /// Asks every holder of this token to stop.
    pub fn cancel(&self) {
        self.0.store(true, std::sync::atomic::Ordering::Release);
    }

    /// Whether cancellation was requested. Another thread may request it at
    /// any time, so nothing is promised of the answer.
    pub fn is_cancelled(&self) -> bool {
        self.0.load(std::sync::atomic::Ordering::Acquire)
    }
}

impl Default for DiscoveryResult {
    fn default() -> (r: Self)
        ensures
            r@ == empty_discovery(),
    {
        let r = DiscoveryResult {
            projects: Vec::new(),
            warnings: Vec::new(),
            cancelled: false,
            entries_inspected: 0,
        };
        assert(r@.projects =~= Seq::<ProjectView>::empty());
        assert(r@.warnings =~= Seq::<WarningView>::empty());
        r
    }
}

/// Mathematical view of a warning.
pub struct WarningView {
    pub code: Seq<char>,
    pub path: Seq<char>,
    pub message: Seq<char>,
}

impl View for ScanWarning {
    type V = WarningView;

    open spec fn view(&self) -> WarningView {
        WarningView { code: self.code@, path: self.path@, message: self.message@ }
    }
}

/// Mathematical view of a git context: the branch name.
impl View for GitContext {
    type V = Seq<char>;

    open spec fn view(&self) -> Seq<char> {
        self.branch@
    }
}

/// Mathematical view of a project candidate.
pub struct ProjectView {
    pub id: Seq<char>,
    pub name: Seq<char>,
    pub root_path: Seq<char>,
    pub git: Option<Seq<char>>,
}

pub open spec fn git_view(g: Option<GitContext>) -> Option<Seq<char>> {
    match g {
        Some(c) => Some(c@),
        None => None,
    }
}

impl View for ProjectCandidate {
    type V = ProjectView;

    open spec fn view(&self) -> ProjectView {
        ProjectView { id: self.id@, name: self.name@, root_path: self.root_path@, git: git_view(self.git) }
    }
}

/// Mathematical view of a discovery result.
pub struct DiscoveryView {
    pub projects: Seq<ProjectView>,
    pub warnings: Seq<WarningView>,
    pub cancelled: bool,
    pub entries_inspected: usize,
}

impl View for DiscoveryResult {
    type V = DiscoveryView;

    open spec fn view(&self) -> DiscoveryView {
        DiscoveryView {
            projects: self.projects@.map_values(|p: ProjectCandidate| p@),
            warnings: self.warnings@.map_values(|w: ScanWarning| w@),
            cancelled: self.cancelled,
            entries_inspected: self.entries_inspected,
        }
    }
}

/// A result that found nothing yet.
pub open spec fn empty_discovery() -> DiscoveryView {
    DiscoveryView { projects: Seq::empty(), warnings: Seq::empty(), cancelled: false, entries_inspected: 0 }
}

/// The warning `warning(code, path, message)` builds.
pub open spec fn warning_of(code: Seq<char>, path: Seq<char>, message: Seq<char>) -> WarningView {
    WarningView { code, path: forward_slashes(path), message }
}

/// A warning about `path`, whose separators are normalized.
pub fn warning(code: &str, path: &str, message: String) -> (w: ScanWarning)
    ensures
        w@ == warning_of(code@, path@, message@),
{
    ScanWarning { code: code.to_owned(), path: normalize_separators(path), message }
}

/// What the scan does when cancellation was requested before the walk.
pub fn cancelled_before_walk() -> (r: DiscoveryResult)
    ensures
        r@ == (DiscoveryView { cancelled: true, ..empty_discovery() }),
{
    let mut r = DiscoveryResult::default();
    r.cancelled = true;
    r
}

/// The decision taken before each walked entry is looked at.
pub open spec fn admit_model(
    r: DiscoveryView,
    cancelled: bool,
    timed_out: bool,
    timeout_ms: u64,
    max_entries: usize,
    root: Seq<char>,
) -> (DiscoveryView, bool) {
    if cancelled {
        (DiscoveryView { cancelled: true, ..r }, false)
    } else if timed_out {
        (
            DiscoveryView {
                warnings: r.warnings.push(
                    warning_of(
                        "scan_timeout"@,
                        root,
                        "Scan stopped after "@ + decimal(timeout_ms as nat) + " ms"@,
                    ),
                ),
                ..r
            },
            false,
        )
    } else if r.entries_inspected >= max_entries {
        (
            DiscoveryView {
                warnings: r.warnings.push(
                    warning_of(
                        "entry_limit_reached"@,
                        root,
                        "Scan stopped after "@ + decimal(max_entries as nat) + " entries"@,
                    ),
                ),
                ..r
            },
            false,
        )
    } else {
        (DiscoveryView { entries_inspected: (r.entries_inspected + 1) as usize, ..r }, true)
    }
}

proof fn lemma_push_warning_view(ws: Seq<ScanWarning>, w: ScanWarning)
    ensures
        ws.push(w).map_values(|x: ScanWarning| x@) == ws.map_values(|x: ScanWarning| x@).push(w@),
{
    assert(ws.push(w).map_values(|x: ScanWarning| x@) =~= ws.map_values(|x: ScanWarning| x@).push(w@));
}

proof fn lemma_push_project_view(ps: Seq<ProjectCandidate>, p: ProjectCandidate)
    ensures
        ps.push(p).map_values(|x: ProjectCandidate| x@) == ps.map_values(|x: ProjectCandidate| x@).push(p@),
{
    assert(ps.push(p).map_values(|x: ProjectCandidate| x@) =~= ps.map_values(|x: ProjectCandidate| x@).push(p@));
}

fn push_warning(r: &mut DiscoveryResult, w: ScanWarning)
    ensures
        final(r)@ == (DiscoveryView { warnings: old(r)@.warnings.push(w@), ..old(r)@ }),
{
    proof {
        lemma_push_warning_view(r.warnings@, w);
    }
    r.warnings.push(w);
}

/// Decides whether the walk goes on to the next entry: it stops on
/// cancellation, on timeout and at the entry limit, and otherwise counts the
/// entry.
pub fn admit_entry(
    r: &mut DiscoveryResult,
    cancelled: bool,
    timed_out: bool,
    policy: &ScanPolicy,
    root: &str,
) -> (go_on: bool)
    ensures
        (final(r)@, go_on) == admit_model(
            old(r)@,
            cancelled,
            timed_out,
            policy.timeout_ms,
            policy.max_entries,
            root@,
        ),
{
    admit_with(r, cancelled, timed_out, policy.timeout_ms, policy.max_entries, root)
}

fn admit_with(
    r: &mut DiscoveryResult,
    cancelled: bool,
    timed_out: bool,
    timeout_ms: u64,
    max_entries: usize,
    root: &str,
) -> (go_on: bool)
    ensures
        (final(r)@, go_on) == admit_model(old(r)@, cancelled, timed_out, timeout_ms, max_entries, root@),
{
    if cancelled {
        r.cancelled = true;
        return false;
    }
    if timed_out {
        let mut message = "Scan stopped after ".to_owned();
        push_decimal(&mut message, timeout_ms);
        push_text(&mut message, " ms");
        push_warning(r, warning("scan_timeout", root, message));
        return false;
    }
    if r.entries_inspected >= max_entries {
        let mut message = "Scan stopped after ".to_owned();
        push_decimal(&mut message, max_entries as u64);
        push_text(&mut message, " entries");
        push_warning(r, warning("entry_limit_reached", root, message));
        return false;
    }
    r.entries_inspected = r.entries_inspected + 1;
    true
}

/// Admission never counts more entries than the policy allows, and a
/// cancelled walk stops without recording anything but the cancellation.
pub proof fn law_admission_respects_entry_limit(
    r: DiscoveryView,
    cancelled: bool,
    timed_out: bool,
    timeout_ms: u64,
    max_entries: usize,
    root: Seq<char>,
)
    requires
        r.entries_inspected <= max_entries,
    ensures
        admit_model(r, cancelled, timed_out, timeout_ms, max_entries, root).0.entries_inspected
            <= max_entries,
        cancelled ==> admit_model(r, cancelled, timed_out, timeout_ms, max_entries, root) == (
        DiscoveryView { cancelled: true, ..r }, false),
{
}

/// Records a walk entry that could not be read.
pub fn record_unreadable(r: &mut DiscoveryResult, root: &str, message: String)
    ensures
        final(r)@ == (DiscoveryView {
            warnings: old(r)@.warnings.push(
                WarningView { code: "path_unreadable"@, path: forward_slashes(root@), message: message@ },
            ),
            ..old(r)@
        }),
{
    push_warning(r, warning("path_unreadable", root, message));
}

/// Where a symbolic link found by the walk resolves.
pub enum SymlinkResolution {
    /// Inside the approved root.
    Contained,
    /// Outside the approved root, to the given path.
    Escapes { resolved: String },
    /// Resolution failed with the given message.
    Unavailable { message: String },
}

/// The warning a symbolic link produces, if any.
pub open spec fn symlink_warning(path: Seq<char>, resolution: SymlinkResolution) -> Option<WarningView> {
    match resolution {
        SymlinkResolution::Contained => None,
        SymlinkResolution::Escapes { resolved } => Some(
            warning_of(
                "symlink_escape"@,
                path,
                "Skipped symlink resolving outside approved root: "@ + resolved@,
            ),
        ),
        SymlinkResolution::Unavailable { message } => Some(
            warning_of("symlink_unavailable"@, path, message@),
        ),
    }
}

/// Records a symbolic link found by the walk; links are never followed.
pub fn record_symlink(r: &mut DiscoveryResult, path: &str, resolution: SymlinkResolution)
    ensures
        final(r)@ == (match symlink_warning(path@, resolution) {
            Some(w) => DiscoveryView { warnings: old(r)@.warnings.push(w), ..old(r)@ },
            None => old(r)@,
        }),
{
    match resolution {
        SymlinkResolution::Contained => {},
        SymlinkResolution::Escapes { resolved } => {
            let message = concat("Skipped symlink resolving outside approved root: ", resolved.as_str());
            push_warning(r, warning("symlink_escape", path, message));
        },
        SymlinkResolution::Unavailable { message } => {
            push_warning(r, warning("symlink_unavailable", path, message));
        },
    }
}

/// The git context a `HEAD` file describes: its trimmed text, without the
/// `ref: refs/heads/` prefix when present.
pub open spec fn branch_of_head(head: Seq<char>) -> Seq<char> {
    let t = trimmed(head);
    if has_prefix(t, "ref: refs/heads/"@) {
        t.skip(16)
    } else {
        t
    }
}

/// Reads the branch out of the text of a `HEAD` file.
pub fn git_context_from_head(head: &str) -> (r: Result<GitContext, String>)
    ensures
        match r {
            Ok(g) => g.branch@ == branch_of_head(head@) && branch_of_head(head@).len() > 0,
            Err(e) => branch_of_head(head@).len() == 0 && e@ == "Git HEAD is empty"@,
        },
{
    let t = trim(head);
    proof {
        reveal_strlit("ref: refs/heads/");
    }
    let branch = match strip_prefix(t.as_str(), "ref: refs/heads/") {
        Some(rest) => rest,
        None => t,
    };
    if branch.unicode_len() == 0 {
        return Err("Git HEAD is empty".to_owned());
    }
    Ok(GitContext { branch })
}

/// A `HEAD` that points at `refs/heads/<branch>` names the whole branch,
/// slashes included; any other `HEAD` (a detached commit, say) names its
/// trimmed text as it stands.
pub proof fn law_head_names_the_whole_branch(head: Seq<char>, branch: Seq<char>)
    ensures
        trimmed(head) == "ref: refs/heads/"@ + branch ==> branch_of_head(head) == branch,
        !has_prefix(trimmed(head), "ref: refs/heads/"@) ==> branch_of_head(head) == trimmed(head),
        "ref: refs/heads/"@.len() == 16,
{
    reveal_strlit("ref: refs/heads/");
    let p = "ref: refs/heads/"@;
    if trimmed(head) == p + branch {
        assert((p + branch).take(16) =~= p);
        assert((p + branch).skip(16) =~= branch);
    }
}

/// The SHA-256 digest of `data`, as `sha2::Sha256::digest` computes it.
pub uninterp spec fn sha256_digest(data: Seq<u8>) -> Seq<u8>;

/// Calls `sha2::Sha256::digest`. Claimed: the result is the digest of the
/// bytes, the same for the same bytes, and it is 32 bytes long.
#[verifier::external_body]
pub(crate) fn sha256(data: &[u8]) -> (r: Vec<u8>)
    ensures
        r@ == sha256_digest(data@),
        r@.len() == 32,
{
    sha2::Sha256::digest(data).to_vec()
}

/// The lower-case hexadecimal digit for `d < 16`.
pub open spec fn hex_digit(d: nat) -> char {
    if d < 10 {
        crate::text::digit_char(d)
    } else if d == 10 {
        'a'
    } else if d == 11 {
        'b'
    } else if d == 12 {
        'c'
    } else if d == 13 {
        'd'
    } else if d == 14 {
        'e'
    } else {
        'f'
    }
}

/// Lower-case hexadecimal notation of a byte string, two digits per byte.
pub open spec fn hex_lower(b: Seq<u8>) -> Seq<char>
    decreases b.len(),
{
    if b.len() == 0 {
        Seq::empty()
    } else {
        hex_lower(b.drop_last()).push(hex_digit((b.last() / 16) as nat)).push(
            hex_digit((b.last() % 16) as nat),
        )
    }
}

proof fn lemma_hex_len(b: Seq<u8>)
    ensures
        hex_lower(b).len() == 2 * b.len(),
    decreases b.len(),
{
    if b.len() > 0 {
        lemma_hex_len(b.drop_last());
    }
}

fn hex_char(d: u8) -> (c: char)
    requires
        d < 16,
    ensures
        c == hex_digit(d as nat),
{
    if d < 10 {
        match d {
            0 => '0',
            1 => '1',
            2 => '2',
            3 => '3',
            4 => '4',
            5 => '5',
            6 => '6',
            7 => '7',
            8 => '8',
            _ => '9',
        }
    } else if d == 10 {
        'a'
    } else if d == 11 {
        'b'
    } else if d == 12 {
        'c'
    } else if d == 13 {
        'd'
    } else if d == 14 {
        'e'
    } else {
        'f'
    }
}

pub(crate) fn hex_string(b: &Vec<u8>) -> (r: String)
    ensures
        r@ == hex_lower(b@),
{
    let mut out = String::new();
    let mut i: usize = 0;
    while i < b.len()
        invariant
            i <= b@.len(),
            out@ == hex_lower(b@.take(i as int)),
        decreases b@.len() - i,
    {
        let x = b[i];
        push_char(&mut out, hex_char(x / 16));
        push_char(&mut out, hex_char(x % 16));
        assert(b@.take(i + 1).drop_last() =~= b@.take(i as int));
        i = i + 1;
    }
    assert(b@.take(b@.len() as int) =~= b@);
    out
}

/// The stable identifier derived from `value`: the prefix, an underscore,
/// and the first 24 hexadecimal digits of the SHA-256 digest of the UTF-8
/// bytes of `value`.
pub open spec fn stable_id_of(prefix: Seq<char>, value: Seq<char>) -> Seq<char> {
    prefix + "_"@ + hex_lower(sha256_digest(encode_utf8(value))).take(24)
}

/// Derives a stable identifier for `value`.
pub fn stable_id(prefix: &str, value: &str) -> (r: String)
    ensures
        r@ == stable_id_of(prefix@, value@),
{
    let digest = sha256(value.as_bytes());
    let hex = hex_string(&digest);
    proof {
        lemma_hex_len(digest@);
    }
    let mut r = prefix.to_owned();
    push_text(&mut r, "_");
    push_text(&mut r, hex.as_str().substring_char(0, 24));
    r
}

/// Start of the last `/`-separated segment of `s`.
pub open spec fn segment_start(s: Seq<char>) -> nat
    decreases s.len(),
{
    if s.len() == 0 {
        0
    } else if s.last() == '/' {
        s.len()
    } else {
        segment_start(s.drop_last())
    }
}

pub proof fn lemma_segment_start_bound(s: Seq<char>)
    ensures
        segment_start(s) <= s.len(),
        s.len() > 0 && s.last() != '/' ==> segment_start(s) < s.len(),
        forall|i: int| segment_start(s) <= i < s.len() ==> s[i] != '/',
        segment_start(s) > 0 ==> s[segment_start(s) - 1] == '/',
    decreases s.len(),
{
    if s.len() > 0 && s.last() != '/' {
        lemma_segment_start_bound(s.drop_last());
        assert forall|i: int| segment_start(s) <= i < s.len() implies s[i] != '/' by {
            if i < s.len() - 1 {
                assert(s.drop_last()[i] == s[i]);
            }
        }
        if segment_start(s) > 0 {
            assert(s.drop_last()[segment_start(s) - 1] == s[segment_start(s) - 1]);
        }
    }
}

proof fn lemma_segment_start_take(s: Seq<char>, k: int)
    requires
        0 <= k <= s.len(),
        forall|i: int| k <= i < s.len() ==> s[i] != '/',
    ensures
        segment_start(s) == segment_start(s.take(k)),
    decreases s.len() - k,
{
    if k < s.len() {
        assert(s.drop_last().take(k) =~= s.take(k));
        lemma_segment_start_take(s.drop_last(), k);
    } else {
        assert(s.take(k) =~= s);
    }
}

/// The last component of a path: its last segment other than empty and
/// `.` segments.
pub open spec fn last_component(s: Seq<char>) -> Option<Seq<char>>
    decreases s.len(),
{
    if s.len() == 0 {
        None
    } else if s.last() == '/' {
        last_component(s.drop_last())
    } else {
        let k = segment_start(s);
        proof {
            lemma_segment_start_bound(s);
        }
        if s.skip(k as int) == seq!['.'] {
            last_component(s.take(k as int))
        } else {
            Some(s.skip(k as int))
        }
    }
}

/// The file name of a path, as `Path::file_name` reports it: the last
/// component unless it is `..`.
pub open spec fn file_name_of(s: Seq<char>) -> Option<Seq<char>> {
    match last_component(s) {
        Some(c) => if c == seq!['.', '.'] {
            None
        } else {
            Some(c)
        },
        None => None,
    }
}

fn last_component_exec(s: &str) -> (r: Option<String>)
    ensures
        match r {
            Some(c) => last_component(s@) == Some(c@),
            None => last_component(s@) is None,
        },
    decreases s@.len(),
{
    let n = s.unicode_len();
    if n == 0 {
        return None;
    }
    if s.get_char(n - 1) == '/' {
        let rest = s.substring_char(0, n - 1);
        assert(rest@ =~= s@.drop_last());
        return last_component_exec(rest);
    }
    let mut k: usize = n;
    while k > 0 && s.get_char(k - 1) != '/'
        invariant
            n == s@.len(),
            k <= n,
            forall|i: int| k <= i < n ==> s@[i] != '/',
        decreases k,
    {
        k = k - 1;
    }
    proof {
        lemma_segment_start_take(s@, k as int);
        lemma_segment_start_bound(s@);
        if k > 0 {
            assert(s@.take(k as int).last() == '/');
        }
    }
    let seg = s.substring_char(k, n);
    assert(seg@ =~= s@.skip(k as int));
    if seg.unicode_len() == 1 && seg.get_char(0) == '.' {
        assert(seg@ =~= seq!['.']);
        let head = s.substring_char(0, k);
        assert(head@ =~= s@.take(k as int));
        last_component_exec(head)
    } else {
        assert(seg@ != seq!['.']) by {
            if seg@.len() == 1 {
                assert(seg@[0] != '.');
            }
        }
        Some(seg.to_owned())
    }
}

/// The file name of a path.
pub fn file_name(s: &str) -> (r: Option<String>)
    ensures
        match r {
            Some(c) => file_name_of(s@) == Some(c@),
            None => file_name_of(s@) is None,
        },
{
    match last_component_exec(s) {
        Some(c) => {
            if c.unicode_len() == 2 && c.as_str().get_char(0) == '.' && c.as_str().get_char(1) == '.' {
                assert(c@ =~= seq!['.', '.']);
                None
            } else {
                assert(c@ != seq!['.', '.']) by {
                    if c@.len() == 2 {
                        assert(c@[0] != '.' || c@[1] != '.');
                    }
                }
                Some(c)
            }
        },
        None => None,
    }
}

/// The name a project is shown under: its directory's file name, or its
/// whole path when the path has none.
pub open spec fn project_name_of(path: Seq<char>) -> Seq<char> {
    match file_name_of(path) {
        Some(n) => if n.len() > 0 {
            n
        } else {
            forward_slashes(path)
        },
        None => forward_slashes(path),
    }
}

/// The paths already added as projects, by their views.
pub open spec fn seen_view(seen: Seq<String>) -> Seq<Seq<char>> {
    seen.map_values(|s: String| s@)
}

/// Whether `path` was not yet added as a project.
pub fn project_is_new(seen: &Vec<String>, path: &str) -> (r: bool)
    ensures
        r == !seen_view(seen@).contains(forward_slashes(path@)),
{
    let root_path = normalize_separators(path);
    let mut i: usize = 0;
    while i < seen.len()
        invariant
            i <= seen@.len(),
            root_path@ == forward_slashes(path@),
            forall|j: int| 0 <= j < i ==> seen@[j]@ != root_path@,
        decreases seen@.len() - i,
    {
        if same_text(seen[i].as_str(), root_path.as_str()) {
            assert(seen_view(seen@)[i as int] == root_path@);
            return false;
        }
        i = i + 1;
    }
    assert(!seen_view(seen@).contains(root_path@)) by {
        if seen_view(seen@).contains(root_path@) {
            let j = choose|j: int| 0 <= j < seen_view(seen@).len() && seen_view(seen@)[j] == root_path@;
            assert(seen@[j]@ == root_path@);
        }
    }
    true
}

/// The project that `add_project` records for `path` and its git outcome.
pub open spec fn project_of(path: Seq<char>, git: Result<GitContext, String>) -> ProjectView {
    ProjectView {
        id: stable_id_of("project"@, forward_slashes(path)),
        name: project_name_of(path),
        root_path: forward_slashes(path),
        git: match git {
            Ok(g) => Some(g@),
            Err(_) => None,
        },
    }
}

/// Records the project rooted at `path` unless it was already recorded; a
/// failed git inspection adds a `git_unavailable` warning and leaves the
/// project without git context.
pub fn add_project(
    r: &mut DiscoveryResult,
    seen: &mut Vec<String>,
    path: &str,
    git: Result<GitContext, String>,
)
    ensures
        seen_view(old(seen)@).contains(forward_slashes(path@)) ==> final(r)@ == old(r)@,
        seen_view(old(seen)@).contains(forward_slashes(path@)) ==> final(seen)@ == old(seen)@,
        !seen_view(old(seen)@).contains(forward_slashes(path@)) ==> {
            &&& seen_view(final(seen)@) == seen_view(old(seen)@).push(forward_slashes(path@))
            &&& final(r)@ == DiscoveryView {
                projects: old(r)@.projects.push(project_of(path@, git)),
                warnings: match git {
                    Ok(_) => old(r)@.warnings,
                    Err(m) => old(r)@.warnings.push(warning_of("git_unavailable"@, path@, m@)),
                },
                ..old(r)@
            }
        },
{
    if !project_is_new(seen, path) {
        return ;
    }
    let root_path = normalize_separators(path);
    proof {
        assert(seen_view(seen@.push(root_path)) =~= seen_view(seen@).push(root_path@));
    }
    seen.push(root_path.clone());
    let git_context = match git {
        Ok(g) => Some(g),
        Err(message) => {
            push_warning(r, warning("git_unavailable", path, message));
            None
        },
    };
    let name = match file_name(path) {
        Some(n) => {
            if n.unicode_len() > 0 {
                n
            } else {
                root_path.clone()
            }
        },
        None => root_path.clone(),
    };
    let project = ProjectCandidate {
        id: stable_id("project", root_path.as_str()),
        name,
        root_path,
        git: git_context,
    };
    proof {
        lemma_push_project_view(r.projects@, project);
    }
    r.projects.push(project);
}

/// Whether the approved root itself must be recorded as the only project:
/// nothing was found and the scan was not cancelled.
pub fn needs_root_project(r: &DiscoveryResult) -> (b: bool)
    ensures
        b == (r@.projects.len() == 0 && !r@.cancelled),
{
    r.projects.len() == 0 && !r.cancelled
}

/// Project order of a discovery result: case-insensitive name first, then
/// root path.
pub open spec fn project_before(p: ProjectView, q: ProjectView) -> bool {
    chars_lt(lowercase(p.name), lowercase(q.name)) || (lowercase(p.name) == lowercase(q.name)
        && chars_lt(p.root_path, q.root_path))
}

/// Whether two projects sort alike.
pub open spec fn same_sort_key(p: ProjectView, q: ProjectView) -> bool {
    lowercase(p.name) == lowercase(q.name) && p.root_path == q.root_path
}

/// Whether projects are in discovery order.
pub open spec fn projects_sorted(s: Seq<ProjectView>) -> bool {
    forall|i: int, j: int| 0 <= i < j < s.len() ==> !project_before(s[j], s[i])
}

/// The project order is a strict weak order whose ties are exactly equal
/// sort keys.
pub proof fn lemma_project_order(p: ProjectView, q: ProjectView, r: ProjectView)
    ensures
        !project_before(p, p),
        project_before(p, q) && project_before(q, r) ==> project_before(p, r),
        !project_before(p, q) && !project_before(q, p) <==> same_sort_key(p, q),
        same_sort_key(p, q) && project_before(r, p) ==> project_before(r, q),
        same_sort_key(p, q) && project_before(p, r) ==> project_before(q, r),
{
    crate::text::lemma_chars_lt_irreflexive(lowercase(p.name));
    crate::text::lemma_chars_lt_irreflexive(p.root_path);
    crate::text::lemma_chars_lt_total(lowercase(p.name), lowercase(q.name));
    crate::text::lemma_chars_lt_total(p.root_path, q.root_path);
    crate::text::lemma_chars_lt_asymmetric(lowercase(p.name), lowercase(q.name));
    crate::text::lemma_chars_lt_asymmetric(p.root_path, q.root_path);
    if project_before(p, q) && project_before(q, r) {
        if chars_lt(lowercase(p.name), lowercase(q.name)) && chars_lt(lowercase(q.name), lowercase(r.name)) {
            crate::text::lemma_chars_lt_transitive(lowercase(p.name), lowercase(q.name), lowercase(r.name));
        }
        if chars_lt(p.root_path, q.root_path) && chars_lt(q.root_path, r.root_path) {
            crate::text::lemma_chars_lt_transitive(p.root_path, q.root_path, r.root_path);
        }
    }
}

fn project_before_exec(key_p: &String, p: &ProjectCandidate, key_q: &String, q: &ProjectCandidate) -> (r: bool)
    requires
        key_p@ == lowercase(p.name@),
        key_q@ == lowercase(q.name@),
    ensures
        r == project_before(p@, q@),
{
    if chars_less(key_p.as_str(), key_q.as_str()) {
        return true;
    }
    same_text(key_p.as_str(), key_q.as_str()) && chars_less(p.root_path.as_str(), q.root_path.as_str())
}

pub open spec fn project_views(s: Seq<ProjectCandidate>) -> Seq<ProjectView> {
    s.map_values(|p: ProjectCandidate| p@)
}

/// Sorts the projects of a discovery result by case-insensitive name, then
/// root path, keeping everything else.
pub fn sort_projects(r: &mut DiscoveryResult)
    ensures
        final(r)@.projects.to_multiset() == old(r)@.projects.to_multiset(),
        projects_sorted(final(r)@.projects),
        final(r)@.warnings == old(r)@.warnings,
        final(r)@.cancelled == old(r)@.cancelled,
        final(r)@.entries_inspected == old(r)@.entries_inspected,
{
    broadcast use vstd::seq_lib::group_to_multiset_ensures;

    let mut out: Vec<ProjectCandidate> = Vec::new();
    let mut keys: Vec<String> = Vec::new();
    let n = r.projects.len();
    let mut i: usize = 0;
    while i < n
        invariant
            n == r.projects@.len(),
            i <= n,
            out@.len() == keys@.len(),
            forall|k: int| 0 <= k < keys@.len() ==> keys@[k]@ == lowercase(#[trigger] out@[k].name@),
            project_views(out@).to_multiset() == project_views(r.projects@.take(i as int)).to_multiset(),
            projects_sorted(project_views(out@)),
        decreases n - i,
    {
        let item = r.projects[i].clone();
        let key = to_lowercase(item.name.as_str());
        let mut pos: usize = 0;
        while pos < out.len() && !project_before_exec(&key, &item, &keys[pos], &out[pos])
            invariant
                out@.len() == keys@.len(),
                pos <= out@.len(),
                key@ == lowercase(item.name@),
                forall|k: int| 0 <= k < keys@.len() ==> keys@[k]@ == lowercase(#[trigger] out@[k].name@),
                forall|k: int| 0 <= k < pos ==> !project_before(item@, #[trigger] project_views(out@)[k]),
            decreases out@.len() - pos,
        {
            pos = pos + 1;
        }
        let ghost before = project_views(out@);
        proof {
            assert forall|a: int, b: int|
                0 <= a < b < before.len() + 1 implies !project_before(
                #[trigger] before.insert(pos as int, item@)[b],
                #[trigger] before.insert(pos as int, item@)[a],
            ) by {
                let s = before.insert(pos as int, item@);
                if a < pos && b == pos {
                } else if a == pos && b > pos {
                    let x = before[b - 1];
                    let y = before[pos as int];
                    lemma_project_order(item@, y, x);
                    lemma_project_order(y, x, item@);
                    lemma_project_order(x, item@, y);
                    if b - 1 > pos {
                        assert(!project_before(x, y));
                        lemma_project_order(x, y, item@);
                        lemma_project_order(y, x, item@);
                    }
                } else if b < pos {
                    assert(s[a] == before[a] && s[b] == before[b]);
                } else if a > pos {
                    assert(s[a] == before[a - 1] && s[b] == before[b - 1]);
                } else {
                    assert(s[a] == before[a] && s[b] == before[b - 1]);
                }
            }
            assert(project_views(out@.insert(pos as int, item)) =~= before.insert(pos as int, item@));
            assert(r.projects@.take(i + 1) =~= r.projects@.take(i as int).push(r.projects@[i as int]));
            assert(project_views(r.projects@.take(i + 1)) =~= project_views(r.projects@.take(i as int)).push(item@));
        }
        out.insert(pos, item);
        keys.insert(pos, key);
        proof {
            vstd::seq_lib::to_multiset_insert(before, pos as int, item@);
            vstd::seq_lib::to_multiset_build(project_views(r.projects@.take(i as int)), item@);
            assert(project_views(out@) == before.insert(pos as int, item@));
        }
        i = i + 1;
    }
    assert(r.projects@.take(n as int) =~= r.projects@);
    r.projects = out;
}

/// The reason a `.git` entry that is not a directory is not inspected.
pub fn worktree_pointer_message() -> (m: String)
    ensures
        m@ == "Git worktree pointers are not inspected in v1"@,
{
    "Git worktree pointers are not inspected in v1".to_owned()
}

/// One entry of the walk, with what the reader found out about it: a path
/// that could not be read, a symbolic link and where it resolves, a
/// directory with the outcome of its git inspection when it is a working
/// tree (its `.git` is a directory), or anything else.
pub enum WalkedEntry {
    Unreadable { message: String },
    Symlink { path: String, resolution: SymlinkResolution },
    Directory { path: String, git: Option<Result<GitContext, String>> },
    Other,
}

/// The root paths of projects.
pub open spec fn root_paths(ps: Seq<ProjectView>) -> Seq<Seq<char>> {
    ps.map_values(|p: ProjectView| p.root_path)
}

/// Whether no two projects share a root path.
pub open spec fn distinct_roots(ps: Seq<ProjectView>) -> bool {
    forall|i: int, j: int| 0 <= i < j < ps.len() ==> #[trigger] ps[i].root_path != #[trigger] ps[j].root_path
}

/// The result after the project at `path` was found with `git`: recorded
/// once, with a `git_unavailable` warning when its inspection failed.
pub open spec fn project_added(v: DiscoveryView, path: Seq<char>, git: Result<GitContext, String>) -> DiscoveryView {
    if root_paths(v.projects).contains(forward_slashes(path)) {
        v
    } else {
        DiscoveryView {
            projects: v.projects.push(project_of(path, git)),
            warnings: match git {
                Ok(_) => v.warnings,
                Err(m) => v.warnings.push(warning_of("git_unavailable"@, path, m@)),
            },
            ..v
        }
    }
}

/// The result after one admitted entry of the walk below `root`.
pub open spec fn walked_entry_model(v: DiscoveryView, root: Seq<char>, entry: WalkedEntry) -> DiscoveryView {
    match entry {
        WalkedEntry::Unreadable { message } => DiscoveryView {
            warnings: v.warnings.push(warning_of("path_unreadable"@, root, message@)),
            ..v
        },
        WalkedEntry::Symlink { path, resolution } => match symlink_warning(path@, resolution) {
            Some(w) => DiscoveryView { warnings: v.warnings.push(w), ..v },
            None => v,
        },
        WalkedEntry::Directory { path, git } => match git {
            Some(g) => if below_root(path@, root) {
                project_added(v, path@, g)
            } else {
                v
            },
            None => v,
        },
        WalkedEntry::Other => v,
    }
}

/// Whether `path` lies under `root`, both with forward slashes.
pub open spec fn below_root(path: Seq<char>, root: Seq<char>) -> bool {
    has_prefix(forward_slashes(path), forward_slashes(root))
}

/// Whether every project root lies under `root`.
pub open spec fn roots_below(ps: Seq<ProjectView>, root: Seq<char>) -> bool {
    forall|i: int| 0 <= i < ps.len() ==> has_prefix(#[trigger] ps[i].root_path, forward_slashes(root))
}

/// One discovery pass below a root in progress: the result so far, the
/// root paths already recorded, and the policy's limits.
pub struct Discovery {
    result: DiscoveryResult,
    seen: Vec<String>,
    root: String,
    root_slashes: String,
    timeout_ms: u64,
    max_entries: usize,
}

impl View for Discovery {
    type V = DiscoveryView;

    closed spec fn view(&self) -> DiscoveryView {
        self.result@
    }
}

proof fn lemma_distinct_roots_counts(ps: Seq<ProjectView>, x: ProjectView)
    requires
        distinct_roots(ps),
    ensures
        ps.to_multiset().count(x) <= 1,
    decreases ps.len(),
{
    broadcast use vstd::seq_lib::group_to_multiset_ensures;

    if ps.len() > 0 {
        let init = ps.drop_last();
        assert(ps =~= init.push(ps.last()));
        assert(distinct_roots(init)) by {
            assert forall|i: int, j: int| 0 <= i < j < init.len() implies #[trigger] init[i].root_path
                != #[trigger] init[j].root_path by {
                assert(init[i] == ps[i] && init[j] == ps[j]);
            }
        }
        lemma_distinct_roots_counts(init, x);
        if x == ps.last() {
            assert(!init.contains(x)) by {
                if init.contains(x) {
                    let k = choose|k: int| 0 <= k < init.len() && init[k] == x;
                    assert(ps[k] == x && ps[ps.len() - 1] == x);
                    assert(ps[k].root_path != ps[ps.len() - 1].root_path);
                }
            }
        }
    }
}

/// Reordering projects keeps their root paths distinct.
proof fn lemma_distinct_roots_permutation(a: Seq<ProjectView>, b: Seq<ProjectView>)
    requires
        distinct_roots(a),
        a.to_multiset() == b.to_multiset(),
    ensures
        distinct_roots(b),
{
    broadcast use vstd::seq_lib::group_to_multiset_ensures, vstd::multiset::group_multiset_axioms;

    assert forall|i: int, j: int| 0 <= i < j < b.len() implies #[trigger] b[i].root_path
        != #[trigger] b[j].root_path by {
        if b[i].root_path == b[j].root_path {
            if b[i] == b[j] {
                let rest = b.remove(j);
                assert(rest[i] == b[i]);
                assert(rest.contains(b[i]));
                assert(rest.to_multiset().count(b[i]) > 0);
                assert(rest.to_multiset() =~= b.to_multiset().remove(b[j]));
                assert(b.to_multiset().count(b[i]) >= 2);
                lemma_distinct_roots_counts(a, b[i]);
            } else {
                assert(b.contains(b[i]) && b.contains(b[j]));
                assert(b.to_multiset().count(b[i]) > 0 && b.to_multiset().count(b[j]) > 0);
                assert(a.to_multiset().count(b[i]) > 0 && a.to_multiset().count(b[j]) > 0);
                assert(a.contains(b[i]) && a.contains(b[j]));
                let p = choose|p: int| 0 <= p < a.len() && a[p] == b[i];
                let q = choose|q: int| 0 <= q < a.len() && a[q] == b[j];
                if p < q {
                    assert(a[p].root_path != a[q].root_path);
                } else {
                    assert(a[q].root_path != a[p].root_path);
                }
            }
        }
    }
}

proof fn lemma_project_added(v: DiscoveryView, path: Seq<char>, git: Result<GitContext, String>)
    requires
        distinct_roots(v.projects),
    ensures
        distinct_roots(project_added(v, path, git).projects),
        root_paths(project_added(v, path, git).projects) == if root_paths(v.projects).contains(
            forward_slashes(path),
        ) {
            root_paths(v.projects)
        } else {
            root_paths(v.projects).push(forward_slashes(path))
        },
{
    let w = project_added(v, path, git);
    if !root_paths(v.projects).contains(forward_slashes(path)) {
        assert(root_paths(w.projects) =~= root_paths(v.projects).push(forward_slashes(path)));
        assert forall|i: int, j: int| 0 <= i < j < w.projects.len() implies #[trigger] w.projects[i].root_path
            != #[trigger] w.projects[j].root_path by {
            if j == w.projects.len() - 1 {
                assert(root_paths(v.projects)[i] == v.projects[i].root_path);
                assert(w.projects[i] == v.projects[i]);
            } else {
                assert(w.projects[i] == v.projects[i] && w.projects[j] == v.projects[j]);
            }
        }
    }
}

proof fn lemma_roots_below_added(v: DiscoveryView, root: Seq<char>, path: Seq<char>, git: Result<GitContext, String>)
    requires
        roots_below(v.projects, root),
        below_root(path, root),
    ensures
        roots_below(project_added(v, path, git).projects, root),
{
    let w = project_added(v, path, git);
    assert forall|i: int| 0 <= i < w.projects.len() implies has_prefix(
        #[trigger] w.projects[i].root_path,
        forward_slashes(root),
    ) by {
        if i < v.projects.len() {
            assert(w.projects[i] == v.projects[i]);
        }
    }
}

proof fn lemma_roots_below_permutation(a: Seq<ProjectView>, b: Seq<ProjectView>, root: Seq<char>)
    requires
        roots_below(a, root),
        a.to_multiset() == b.to_multiset(),
    ensures
        roots_below(b, root),
{
    broadcast use vstd::seq_lib::group_to_multiset_ensures;

    assert forall|i: int| 0 <= i < b.len() implies has_prefix(#[trigger] b[i].root_path, forward_slashes(root)) by {
        assert(b.contains(b[i]));
        assert(b.to_multiset().count(b[i]) > 0);
        assert(a.to_multiset().count(b[i]) > 0);
        assert(a.contains(b[i]));
        let k = choose|k: int| 0 <= k < a.len() && a[k] == b[i];
        assert(has_prefix(a[k].root_path, forward_slashes(root)));
    }
}

impl Discovery {
    pub closed spec fn max_entries_view(&self) -> usize {
        self.max_entries
    }

    pub closed spec fn timeout_ms_view(&self) -> u64 {
        self.timeout_ms
    }

    /// The root the pass runs below.
    pub closed spec fn root_view(&self) -> Seq<char> {
        self.root@
    }

    /// The recorded root paths are those of the projects, no two alike, all
    /// under the pass's root, and no more entries were counted than the
    /// limit allows.
    pub closed spec fn wf(&self) -> bool {
        &&& seen_view(self.seen@) == root_paths(self.result@.projects)
        &&& distinct_roots(self.result@.projects)
        &&& roots_below(self.result@.projects, self.root@)
        &&& self.root_slashes@ == forward_slashes(self.root@)
        &&& self.result@.entries_inspected <= self.max_entries
    }

    /// A pass below `root` under `policy` that found nothing yet.
    pub fn new(policy: &ScanPolicy, root: &str) -> (d: Self)
        ensures
            d.wf(),
            d@ == empty_discovery(),
            d.root_view() == root@,
            d.max_entries_view() == policy.max_entries,
            d.timeout_ms_view() == policy.timeout_ms,
    {
        let d = Discovery {
            result: DiscoveryResult::default(),
            seen: Vec::new(),
            root: root.to_owned(),
            root_slashes: normalize_separators(root),
            timeout_ms: policy.timeout_ms,
            max_entries: policy.max_entries,
        };
        assert(seen_view(d.seen@) =~= root_paths(d.result@.projects));
        d
    }

    /// Decides, before the next entry, whether the walk goes on, as
    /// `admit_entry` does under the pass's policy and root.
    pub fn admit_next(&mut self, cancelled: bool, timed_out: bool) -> (go_on: bool)
        requires
            old(self).wf(),
        ensures
            final(self).wf(),
            final(self).root_view() == old(self).root_view(),
            final(self).max_entries_view() == old(self).max_entries_view(),
            final(self).timeout_ms_view() == old(self).timeout_ms_view(),
            (final(self)@, go_on) == admit_model(
                old(self)@,
                cancelled,
                timed_out,
                old(self).timeout_ms_view(),
                old(self).max_entries_view(),
                old(self).root_view(),
            ),
    {
        admit_with(&mut self.result, cancelled, timed_out, self.timeout_ms, self.max_entries, self.root.as_str())
    }

    /// Decides, before the next entry, whether the walk goes on when the
    /// scan's budget reports `stop`: a cancellation, a passed deadline, or
    /// neither, as `admit_next` decides it.
    pub fn admit_after(&mut self, stop: Option<ScanStopReason>) -> (go_on: bool)
        requires
            old(self).wf(),
        ensures
            final(self).wf(),
            final(self).root_view() == old(self).root_view(),
            final(self).max_entries_view() == old(self).max_entries_view(),
            final(self).timeout_ms_view() == old(self).timeout_ms_view(),
            (final(self)@, go_on) == admit_model(
                old(self)@,
                stop == Some(ScanStopReason::Cancelled),
                stop == Some(ScanStopReason::TimedOut),
                old(self).timeout_ms_view(),
                old(self).max_entries_view(),
                old(self).root_view(),
            ),
    {
        let (cancelled, timed_out) = match stop {
            Some(ScanStopReason::Cancelled) => (true, false),
            Some(ScanStopReason::TimedOut) => (false, true),
            None => (false, false),
        };
        self.admit_next(cancelled, timed_out)
    }

    /// Whether git must be inspected for the directory at `path`: it is a
    /// working tree not recorded yet.
    pub fn wants_project(&self, path: &str) -> (r: bool)
        requires
            self.wf(),
        ensures
            r == !root_paths(self@.projects).contains(forward_slashes(path@)),
    {
        project_is_new(&self.seen, path)
    }

    /// Records one admitted entry of the walk. A directory outside the
    /// pass's root is no project of this pass.
    pub fn record(&mut self, entry: WalkedEntry)
        requires
            old(self).wf(),
        ensures
            final(self).wf(),
            final(self).root_view() == old(self).root_view(),
            final(self).max_entries_view() == old(self).max_entries_view(),
            final(self).timeout_ms_view() == old(self).timeout_ms_view(),
            final(self)@ == walked_entry_model(old(self)@, old(self).root_view(), entry),
    {
        let ghost v = self@;
        match entry {
            WalkedEntry::Unreadable { message } => record_unreadable(&mut self.result, self.root.as_str(), message),
            WalkedEntry::Symlink { path, resolution } => record_symlink(&mut self.result, path.as_str(), resolution),
            WalkedEntry::Directory { path, git } => match git {
                Some(g) => {
                    let normalized = normalize_separators(path.as_str());
                    if starts_with(normalized.as_str(), self.root_slashes.as_str()) {
                        proof {
                            lemma_project_added(v, path@, g);
                            lemma_roots_below_added(v, self.root@, path@, g);
                        }
                        add_project(&mut self.result, &mut self.seen, path.as_str(), g);
                    }
                },
                None => {},
            },
            WalkedEntry::Other => {},
        }
    }

    /// Whether the approved root itself must be recorded as the only
    /// project: nothing was found and the pass was not cancelled.
    pub fn needs_root_project(&self) -> (b: bool)
        ensures
            b == (self@.projects.len() == 0 && !self@.cancelled),
    {
        needs_root_project(&self.result)
    }

    /// Ends the pass: when nothing was found and the pass was not
    /// cancelled, the root is recorded with `root_git`, the outcome of its
    /// git inspection, which the caller supplies exactly then; then the
    /// projects are put in order. Projects keep distinct root paths, all
    /// under the root; no more entries were counted than the limit allows;
    /// and a pass that was not cancelled yields at least one project.
    pub fn finish(self, root_git: Option<Result<GitContext, String>>) -> (r: DiscoveryResult)
        requires
            self.wf(),
            self@.projects.len() == 0 && !self@.cancelled ==> root_git is Some,
        ensures
            ({
                let pre = match root_git {
                    Some(g) => if self@.projects.len() == 0 && !self@.cancelled {
                        project_added(self@, self.root_view(), g)
                    } else {
                        self@
                    },
                    None => self@,
                };
                &&& r@.projects.to_multiset() == pre.projects.to_multiset()
                &&& r@.warnings == pre.warnings
                &&& r@.cancelled == pre.cancelled
                &&& r@.entries_inspected == pre.entries_inspected
            }),
            projects_sorted(r@.projects),
            distinct_roots(r@.projects),
            roots_below(r@.projects, self.root_view()),
            r@.entries_inspected <= self.max_entries_view(),
            !r@.cancelled ==> r@.projects.len() > 0,
    {
        broadcast use vstd::seq_lib::group_to_multiset_ensures;

        let mut d = self;
        let ghost v = d@;
        match root_git {
            Some(g) => {
                if needs_root_project(&d.result) {
                    proof {
                        lemma_project_added(v, d.root@, g);
                        let fr = forward_slashes(d.root@);
                        assert(fr.take(fr.len() as int) =~= fr);
                        assert(below_root(d.root@, d.root@));
                        lemma_roots_below_added(v, d.root@, d.root@, g);
                    }
                    let root = d.root.clone();
                    add_project(&mut d.result, &mut d.seen, root.as_str(), g);
                    assert(d.result@.projects.len() == 1);
                }
            },
            None => {},
        }
        let ghost pre = d.result@;
        sort_projects(&mut d.result);
        proof {
            lemma_distinct_roots_permutation(pre.projects, d.result@.projects);
            lemma_roots_below_permutation(pre.projects, d.result@.projects, d.root@);
            assert(pre.projects.to_multiset().len() == pre.projects.len());
            assert(d.result@.projects.to_multiset().len() == d.result@.projects.len());
            if root_git is Some && v.projects.len() == 0 && !v.cancelled {
                assert(pre.projects.len() == 1);
            }
        }
        d.result
    }
}

} // verus!
