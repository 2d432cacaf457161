//! Catalog decisions: which files are Markdown, which members carry task
//! progress, and how interrupted indexing is reported.

use std::time::{Duration, Instant};

use vstd::prelude::*;

use crate::discovery::{
    CancellationToken, GitContext, ScanPolicy, ScanWarning, WarningView, file_name, file_name_of,
    warning, warning_of,
};
use crate::text::{chars_of, decimal, ends_with, has_suffix, push_decimal, push_text, same_text};

verus! {

/// The extension of a path, as `Path::extension` reports it: the part of
/// the file name after its last dot, when that dot is not the first
/// character.
pub open spec fn extension_of(path: Seq<char>) -> Option<Seq<char>> {
    match file_name_of(path) {
        Some(name) => {
            let k = last_dot(name);
            if k > 0 {
                Some(name.skip(k + 1))
            } else {
                None
            }
        },
        None => None,
    }
}

/// Index of the last `.` of `s`, or -1.
pub open spec fn last_dot(s: Seq<char>) -> int
    decreases s.len(),
{
    if s.len() == 0 {
        -1
    } else if s.last() == '.' {
        s.len() - 1
    } else {
        last_dot(s.drop_last())
    }
}

proof fn lemma_last_dot(s: Seq<char>)
    ensures
        -1 <= last_dot(s) < s.len(),
        last_dot(s) >= 0 ==> s[last_dot(s)] == '.',
        forall|i: int| last_dot(s) < i < s.len() ==> s[i] != '.',
    decreases s.len(),
{
    if s.len() > 0 && s.last() != '.' {
        lemma_last_dot(s.drop_last());
        assert forall|i: int| last_dot(s) < i < s.len() implies s[i] != '.' by {
            if i < s.len() - 1 {
                assert(s.drop_last()[i] == s[i]);
            }
        }
        if last_dot(s) >= 0 {
            assert(s.drop_last()[last_dot(s)] == s[last_dot(s)]);
        }
    }
}

proof fn lemma_last_dot_take(s: Seq<char>, k: int)
    requires
        0 <= k <= s.len(),
        forall|i: int| k <= i < s.len() ==> s[i] != '.',
    ensures
        last_dot(s) == last_dot(s.take(k)),
    decreases s.len() - k,
{
    if k < s.len() {
        assert(s.drop_last().take(k) =~= s.take(k));
        lemma_last_dot_take(s.drop_last(), k);
    } else {
        assert(s.take(k) =~= s);
    }
}

/// Whether a character sequence is `md` in any ASCII case.
pub open spec fn is_md_ignoring_case(e: Seq<char>) -> bool {
    e.len() == 2 && (e[0] == 'm' || e[0] == 'M') && (e[1] == 'd' || e[1] == 'D')
}

/// Whether a project-relative path names a Markdown file: its extension is
/// `md` in any ASCII case.
pub open spec fn is_markdown_path(relative: Seq<char>) -> bool {
    match extension_of(relative) {
        Some(e) => is_md_ignoring_case(e),
        None => false,
    }
}

/// Whether a project-relative path names a Markdown file.
pub fn is_markdown(relative: &str) -> (r: bool)
    ensures
        r == is_markdown_path(relative@),
{
    match file_name(relative) {
        None => false,
        Some(name) => {
            let cs = chars_of(name.as_str());
            let n = cs.len();
            let mut k: usize = n;
            while k > 0 && cs[k - 1] != '.'
                invariant
                    cs@ == name@,
                    n == name@.len(),
                    k <= n,
                    forall|i: int| k <= i < n ==> name@[i] != '.',
                decreases k,
            {
                k = k - 1;
            }
            proof {
                lemma_last_dot_take(name@, k as int);
                lemma_last_dot(name@.take(k as int));
                if k > 0 {
                    assert(name@.take(k as int).last() == '.');
                }
            }
            if k <= 1 {
                return false;
            }
            let ghost e = name@.skip(k as int);
            assert(e.len() == n - k);
            if n - k != 2 {
                return false;
            }
            assert(e[0] == cs@[k as int] && e[1] == cs@[k + 1]);
            (cs[k] == 'm' || cs[k] == 'M') && (cs[k + 1] == 'd' || cs[k + 1] == 'D')
        },
    }
}

/// Whether a bundle member carries the task list.
pub open spec fn is_tasks_path(relative: Seq<char>) -> bool {
    relative == "tasks.md"@ || has_suffix(relative, "/tasks.md"@)
}

/// Whether a bundle member carries the task list.
pub fn is_tasks_member(relative_path: &str) -> (r: bool)
    ensures
        r == is_tasks_path(relative_path@),
{
    same_text(relative_path, "tasks.md") || ends_with(relative_path, "/tasks.md")
}

/// Why indexing of a project stopped early.
#[derive(Clone, Copy, Debug, PartialEq, Eq, Structural)]
pub enum ScanStopReason {
    Cancelled,
    TimedOut,
}

/// The warning recorded when indexing of the project at `path` stopped
/// early; it says that the index holds bounded partial results.
pub open spec fn partial_warning_of(reason: ScanStopReason, path: Seq<char>, timeout_ms: u64) -> WarningView {
    match reason {
        ScanStopReason::Cancelled => warning_of(
            "artifact_index_cancelled"@,
            path,
            "Artifact indexing was cancelled; the index contains bounded partial results"@,
        ),
        ScanStopReason::TimedOut => warning_of(
            "artifact_index_timeout"@,
            path,
            "Artifact indexing stopped after "@ + decimal(timeout_ms as nat)
                + " ms; the index contains bounded partial results"@,
        ),
    }
}

/// Builds the warning for a project whose indexing stopped early.
pub fn partial_warning(reason: ScanStopReason, path: &str, policy: &ScanPolicy) -> (w: ScanWarning)
    ensures
        w@ == partial_warning_of(reason, path@, policy.timeout_ms),
{
    match reason {
        ScanStopReason::Cancelled => warning(
            "artifact_index_cancelled",
            path,
            "Artifact indexing was cancelled; the index contains bounded partial results".to_owned(),
        ),
        ScanStopReason::TimedOut => {
            let mut message = "Artifact indexing stopped after ".to_owned();
            push_decimal(&mut message, policy.timeout_ms);
            push_text(&mut message, " ms; the index contains bounded partial results");
            warning("artifact_index_timeout", path, message)
        },
    }
}

#[verifier::external_type_specification]
#[verifier::external_body]
pub struct ExInstant(Instant);

/// Calls `Instant::now`. Nothing is claimed of the instant it returns.
#[verifier::external_body]
fn instant_now() -> Instant {
    Instant::now()
}

/// Calls `Instant::elapsed`. The answer depends on the clock, so nothing
/// is claimed of it.
#[verifier::external_body]
fn elapsed_since(started: &Instant) -> Duration {
    started.elapsed()
}

/// Calls `Duration::as_millis`. The duration is opaque here, so nothing is
/// claimed of the answer.
#[verifier::external_body]
fn whole_millis(d: &Duration) -> u128 {
    d.as_millis()
}

/// Why indexing must stop: cancellation first, then a passed deadline.
pub fn stop_reason_of(cancelled: bool, deadline_passed: bool) -> (r: Option<ScanStopReason>)
    ensures
        r == if cancelled {
            Some(ScanStopReason::Cancelled)
        } else if deadline_passed {
            Some(ScanStopReason::TimedOut)
        } else {
            None::<ScanStopReason>
        },
{
    if cancelled {
        Some(ScanStopReason::Cancelled)
    } else if deadline_passed {
        Some(ScanStopReason::TimedOut)
    } else {
        None
    }
}

/// The time and cancellation budget of indexing one project.
pub struct ProjectScanBudget {
    pub started: Instant,
    pub timeout_ms: u64,
    pub cancellation: CancellationToken,
}

impl ProjectScanBudget {
    /// A budget that starts now, lasts the policy's timeout and watches the
    /// caller's cancellation flag itself, not a copy of it.
    pub fn new(policy: &ScanPolicy, cancellation: &CancellationToken) -> (r: Self)
        ensures
            r.timeout_ms == policy.timeout_ms,
            r.cancellation == *cancellation,
    {
        ProjectScanBudget {
            started: instant_now(),
            timeout_ms: policy.timeout_ms,
            cancellation: cancellation.clone(),
        }
    }

    /// Why indexing must stop, if it must, as `stop_reason_of` decides it
    /// from the cancellation flag and whether the whole milliseconds elapsed
    /// since the start reach the timeout. Both depend on other threads and
    /// the clock; a zero timeout always stops.
    pub fn stop_reason(&self) -> (r: Option<ScanStopReason>)
        ensures
            self.timeout_ms == 0 ==> r is Some,
    {
        let cancelled = self.cancellation.is_cancelled();
        let elapsed = whole_millis(&elapsed_since(&self.started));
        stop_reason_of(cancelled, elapsed >= self.timeout_ms as u128)
    }
}

/// Why a catalog lookup failed.
#[derive(Debug, PartialEq, Eq)]
pub enum CatalogError {
    NotFound,
    Read(String),
}

impl CatalogError {
    /// The readable description of the error.
    pub fn describe(&self) -> (r: String)
        ensures
            r@ == (match self {
                CatalogError::NotFound => "indexed Markdown ID was not found in the current index"@,
                CatalogError::Read(m) => "artifact could not be read safely: "@ + m@,
            }),
    {
        match self {
            CatalogError::NotFound => "indexed Markdown ID was not found in the current index".to_owned(),
            CatalogError::Read(m) => crate::text::concat("artifact could not be read safely: ", m.as_str()),
        }
    }
}

/// The error for a selected artifact that could not be read: the reader's
/// reason, or that no snapshot is available.
pub fn selected_artifact_unreadable(relative_path: &str, reason: Option<&str>) -> (r: CatalogError)
    ensures
        r matches CatalogError::Read(m) && m@ == "Selected artifact "@ + relative_path@
            + " could not be read: "@ + match reason {
            Some(m) => m@,
            None => "snapshot is unavailable"@,
        },
{
    let mut message = crate::text::concat("Selected artifact ", relative_path);
    push_text(&mut message, " could not be read: ");
    match reason {
        Some(m) => push_text(&mut message, m),
        None => push_text(&mut message, "snapshot is unavailable"),
    }
    CatalogError::Read(message)
}

/// The error for a selected artifact whose text is not UTF-8.
pub fn selected_artifact_not_utf8(relative_path: &str) -> (r: CatalogError)
    ensures
        r matches CatalogError::Read(m) && m@ == "Selected artifact "@ + relative_path@
            + " is not UTF-8"@,
{
    let mut message = crate::text::concat("Selected artifact ", relative_path);
    push_text(&mut message, " is not UTF-8");
    CatalogError::Read(message)
}

/// The warning for a task list that is not UTF-8.
pub fn progress_unavailable_warning(relative_path: &str) -> (r: String)
    ensures
        r@ == relative_path@ + " is not UTF-8; deterministic progress is unavailable"@,
{
    crate::text::concat(relative_path, " is not UTF-8; deterministic progress is unavailable")
}

/// The warning for a member that could not be read for a detail view.
pub fn partial_detail_warning(relative_path: &str, error: &str) -> (r: String)
    ensures
        r@ == relative_path@ + " could not be read; deterministic detail is partial: "@ + error@,
{
    let mut message = crate::text::concat(relative_path, " could not be read; deterministic detail is partial: ");
    push_text(&mut message, error);
    message
}

/// A Markdown document opened from the index, read fresh from disk.
pub struct MarkdownDetail {
    pub root_id: String,
    pub document_id: String,
    pub project_id: String,
    pub project_name: String,
    pub project_root: String,
    pub git: Option<GitContext>,
    pub relative_path: String,
    pub absolute_path: String,
    pub source_modified_unix_nanos: Option<u128>,
    pub markdown: String,
}

} // verus!
