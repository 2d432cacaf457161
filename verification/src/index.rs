//! Index snapshots and the per-root scan coordinator that decides which
//! scan may publish its snapshot.

use vstd::prelude::*;

use crate::api::ApiError;
use crate::discovery::{ProjectCandidate, ScanWarning, WarningView};
use crate::text::{concat, push_text, same_text, slash_joined, slash_segments, split_slash};

verus! {

/// Schema version written into every freshly built snapshot.
pub const CURRENT_INDEX_SCHEMA_VERSION: u32 = 1;

/// One project of an index snapshot.
#[derive(Debug, PartialEq, Eq)]
pub struct IndexedProject {
    pub project: ProjectCandidate,
    pub source_count: usize,
}

/// The published result of one scan of an approved root.
#[derive(Debug, PartialEq, Eq)]
pub struct IndexSnapshot {
    pub schema_version: u32,
    pub root_id: String,
    pub generation: u64,
    pub indexed_at: String,
    pub configuration_revision: u64,
    pub projects: Vec<IndexedProject>,
    pub warnings: Vec<ScanWarning>,
}

impl Clone for IndexedProject {
    fn clone(&self) -> (r: Self)
        ensures
            r == *self,
    {
        IndexedProject { project: self.project.clone(), source_count: self.source_count }
    }
}

/// Mathematical view of an index snapshot.
pub struct SnapshotView {
    pub schema_version: u32,
    pub root_id: Seq<char>,
    pub generation: u64,
    pub indexed_at: Seq<char>,
    pub configuration_revision: u64,
    pub projects: Seq<IndexedProject>,
    pub warnings: Seq<ScanWarning>,
}

impl View for IndexSnapshot {
    type V = SnapshotView;

    open spec fn view(&self) -> SnapshotView {
        SnapshotView {
            schema_version: self.schema_version,
            root_id: self.root_id@,
            generation: self.generation,
            indexed_at: self.indexed_at@,
            configuration_revision: self.configuration_revision,
            projects: self.projects@,
            warnings: self.warnings@,
        }
    }
}

/// The view of an optional snapshot.
pub open spec fn snapshot_option_view(s: Option<IndexSnapshot>) -> Option<SnapshotView> {
    match s {
        Some(x) => Some(x@),
        None => None,
    }
}

impl Clone for IndexSnapshot {
    fn clone(&self) -> (r: Self)
        ensures
            r@ == self@,
    {
        let projects = self.projects.clone();
        assert(projects@ =~= self.projects@);
        let warnings = self.warnings.clone();
        assert(warnings@ =~= self.warnings@);
        IndexSnapshot {
            schema_version: self.schema_version,
            root_id: self.root_id.clone(),
            generation: self.generation,
            indexed_at: self.indexed_at.clone(),
            configuration_revision: self.configuration_revision,
            projects,
            warnings,
        }
    }
}

/// The right to publish one scan of one root.
#[derive(Debug, PartialEq, Eq)]
pub struct ScanPermit {
    pub root_id: String,
    pub generation: u64,
    pub configuration_revision: u64,
    pub admitted: bool,
}

/// Whether a completed scan was published.
#[derive(Clone, Copy, Debug, PartialEq, Eq, Structural)]
pub enum CompletionDisposition {
    Accepted,
    Superseded,
}

/// Mathematical view of a permit.
pub struct PermitView {
    pub root_id: Seq<char>,
    pub generation: u64,
    pub configuration_revision: u64,
    pub admitted: bool,
}

impl View for ScanPermit {
    type V = PermitView;

    open spec fn view(&self) -> PermitView {
        PermitView {
            root_id: self.root_id@,
            generation: self.generation,
            configuration_revision: self.configuration_revision,
            admitted: self.admitted,
        }
    }
}

/// What the coordinator remembers of one root.
pub struct RootScanState {
    pub latest_generation: u64,
    pub configuration_revision: u64,
    pub current: Option<IndexSnapshot>,
    pub failure: Option<String>,
}

/// Mathematical view of a root's scan state.
pub struct RootScanView {
    pub latest_generation: u64,
    pub configuration_revision: u64,
    pub current: Option<SnapshotView>,
    pub failure: Option<Seq<char>>,
}

pub open spec fn failure_view(f: Option<String>) -> Option<Seq<char>> {
    match f {
        Some(s) => Some(s@),
        None => None,
    }
}

impl View for RootScanState {
    type V = RootScanView;

    open spec fn view(&self) -> RootScanView {
        RootScanView {
            latest_generation: self.latest_generation,
            configuration_revision: self.configuration_revision,
            current: snapshot_option_view(self.current),
            failure: failure_view(self.failure),
        }
    }
}

/// The state a root has before anything happened to it.
pub open spec fn fresh_root() -> RootScanView {
    RootScanView { latest_generation: 0, configuration_revision: 0, current: None, failure: None }
}

/// One root and its state.
pub struct RootEntry {
    pub root_id: String,
    pub state: RootScanState,
}

/// Mathematical view of the coordinator: the state of every known root and
/// the last generation handed out.
pub struct CoordinatorView {
    pub roots: Map<Seq<char>, RootScanView>,
    pub next_generation: u64,
}

/// Hands out scan generations and decides which scan results become the
/// current index of each root.
pub struct ScanCoordinator {
    roots: Vec<RootEntry>,
    next_generation: u64,
}

pub open spec fn keys_unique(s: Seq<RootEntry>) -> bool {
    forall|i: int, j: int|
        0 <= i < s.len() && 0 <= j < s.len() && i != j ==> s[i].root_id@ != s[j].root_id@
}

pub open spec fn entry_map(s: Seq<RootEntry>) -> Map<Seq<char>, RootScanView>
    decreases s.len(),
{
    if s.len() == 0 {
        Map::empty()
    } else {
        entry_map(s.drop_last()).insert(s.last().root_id@, s.last().state@)
    }
}

proof fn lemma_entry_map_dom(s: Seq<RootEntry>, k: Seq<char>)
    ensures
        entry_map(s).contains_key(k) <==> exists|i: int| 0 <= i < s.len() && s[i].root_id@ == k,
    decreases s.len(),
{
    if s.len() > 0 {
        lemma_entry_map_dom(s.drop_last(), k);
        if entry_map(s).contains_key(k) && k != s.last().root_id@ {
            let i = choose|i: int| 0 <= i < s.drop_last().len() && s.drop_last()[i].root_id@ == k;
            assert(s[i].root_id@ == k);
        }
        if exists|i: int| 0 <= i < s.len() && s[i].root_id@ == k {
            let i = choose|i: int| 0 <= i < s.len() && s[i].root_id@ == k;
            if i < s.len() - 1 {
                assert(s.drop_last()[i].root_id@ == k);
            }
        }
    }
}

proof fn lemma_entry_map_lookup(s: Seq<RootEntry>, i: int)
    requires
        keys_unique(s),
        0 <= i < s.len(),
    ensures
        entry_map(s).contains_key(s[i].root_id@),
        entry_map(s)[s[i].root_id@] == s[i].state@,
    decreases s.len(),
{
    if i < s.len() - 1 {
        assert(keys_unique(s.drop_last()));
        lemma_entry_map_lookup(s.drop_last(), i);
        assert(s.drop_last()[i] == s[i]);
        assert(s[i].root_id@ != s.last().root_id@);
    }
}

proof fn lemma_entry_map_update(s: Seq<RootEntry>, i: int, e: RootEntry)
    requires
        keys_unique(s),
        0 <= i < s.len(),
        e.root_id@ == s[i].root_id@,
    ensures
        keys_unique(s.update(i, e)),
        entry_map(s.update(i, e)) == entry_map(s).insert(e.root_id@, e.state@),
    decreases s.len(),
{
    let t = s.update(i, e);
    assert(keys_unique(t));
    if i == s.len() - 1 {
        assert(t.drop_last() =~= s.drop_last());
        assert(entry_map(t) =~= entry_map(s).insert(e.root_id@, e.state@));
    } else {
        assert(keys_unique(s.drop_last()));
        lemma_entry_map_update(s.drop_last(), i, e);
        assert(t.drop_last() =~= s.drop_last().update(i, e));
        assert(s.last().root_id@ != e.root_id@);
        assert(entry_map(t) =~= entry_map(s).insert(e.root_id@, e.state@));
    }
}

proof fn lemma_entry_map_push(s: Seq<RootEntry>, e: RootEntry)
    requires
        keys_unique(s),
        forall|i: int| 0 <= i < s.len() ==> s[i].root_id@ != e.root_id@,
    ensures
        keys_unique(s.push(e)),
        entry_map(s.push(e)) == entry_map(s).insert(e.root_id@, e.state@),
{
    assert(s.push(e).drop_last() =~= s);
}

proof fn lemma_entry_map_remove(s: Seq<RootEntry>, i: int)
    requires
        keys_unique(s),
        0 <= i < s.len(),
    ensures
        keys_unique(s.remove(i)),
        entry_map(s.remove(i)) == entry_map(s).remove(s[i].root_id@),
    decreases s.len(),
{
    let t = s.remove(i);
    let k = s[i].root_id@;
    assert(keys_unique(t));
    if i == s.len() - 1 {
        assert(t =~= s.drop_last());
        lemma_entry_map_dom(t, k);
        assert(entry_map(t) =~= entry_map(s).remove(k));
    } else {
        assert(keys_unique(s.drop_last()));
        lemma_entry_map_remove(s.drop_last(), i);
        assert(t.drop_last() =~= s.drop_last().remove(i));
        assert(t.last() == s.last());
        assert(s.last().root_id@ != k);
        assert(entry_map(t) =~= entry_map(s).remove(k));
    }
}

/// Result of beginning a scan.
pub open spec fn begin_model(v: CoordinatorView, root_id: Seq<char>, revision: u64) -> (
    CoordinatorView,
    PermitView,
) {
    let generation = (v.next_generation + 1) as u64;
    let state = if v.roots.contains_key(root_id) {
        v.roots[root_id]
    } else {
        fresh_root()
    };
    let admitted = revision >= state.configuration_revision;
    let next_state = if admitted {
        RootScanView {
            latest_generation: generation,
            configuration_revision: revision,
            current: state.current,
            failure: None,
        }
    } else {
        state
    };
    (
        CoordinatorView {
            roots: v.roots.insert(root_id, next_state),
            next_generation: generation,
        },
        PermitView { root_id, generation, configuration_revision: revision, admitted },
    )
}

/// Whether a completed scan may publish its snapshot.
pub open spec fn completion_accepted(
    v: CoordinatorView,
    permit: PermitView,
    snapshot: SnapshotView,
) -> bool {
    &&& v.roots.contains_key(permit.root_id)
    &&& v.roots[permit.root_id].latest_generation == permit.generation
    &&& v.roots[permit.root_id].configuration_revision == permit.configuration_revision
    &&& snapshot.generation == permit.generation
    &&& snapshot.configuration_revision == permit.configuration_revision
    &&& snapshot.root_id == permit.root_id
}

/// State after a completed scan.
pub open spec fn complete_model(v: CoordinatorView, permit: PermitView, snapshot: SnapshotView) -> CoordinatorView {
    if completion_accepted(v, permit, snapshot) {
        let s = v.roots[permit.root_id];
        CoordinatorView {
            roots: v.roots.insert(
                permit.root_id,
                RootScanView { current: Some(snapshot), failure: None, ..s },
            ),
            ..v
        }
    } else {
        v
    }
}

/// State after a failed scan.
pub open spec fn fail_model(v: CoordinatorView, permit: PermitView, message: Seq<char>) -> CoordinatorView {
    if v.roots.contains_key(permit.root_id) && v.roots[permit.root_id].latest_generation
        == permit.generation && v.roots[permit.root_id].configuration_revision
        == permit.configuration_revision {
        let s = v.roots[permit.root_id];
        CoordinatorView {
            roots: v.roots.insert(permit.root_id, RootScanView { failure: Some(message), ..s }),
            ..v
        }
    } else {
        v
    }
}

pub open spec fn saturating_succ(x: u64) -> u64 {
    if x == u64::MAX {
        x
    } else {
        (x + 1) as u64
    }
}

/// State after a cancelled scan.
pub open spec fn cancel_model(v: CoordinatorView, permit: PermitView) -> CoordinatorView {
    if v.roots.contains_key(permit.root_id) && v.roots[permit.root_id].latest_generation
        == permit.generation {
        let s = v.roots[permit.root_id];
        CoordinatorView {
            roots: v.roots.insert(
                permit.root_id,
                RootScanView { latest_generation: saturating_succ(s.latest_generation), ..s },
            ),
            ..v
        }
    } else {
        v
    }
}

/// State after a cached snapshot is offered at startup.
pub open spec fn hydrate_model(v: CoordinatorView, snapshot: SnapshotView) -> CoordinatorView {
    let next = if v.next_generation >= snapshot.generation {
        v.next_generation
    } else {
        snapshot.generation
    };
    let key = snapshot.root_id;
    let state = if v.roots.contains_key(key) {
        v.roots[key]
    } else {
        fresh_root()
    };
    let older = snapshot.configuration_revision < state.configuration_revision || (
    snapshot.configuration_revision == state.configuration_revision && snapshot.generation
        < state.latest_generation);
    let next_state = if older {
        state
    } else {
        RootScanView {
            latest_generation: snapshot.generation,
            configuration_revision: snapshot.configuration_revision,
            current: Some(snapshot),
            failure: state.failure,
        }
    };
    CoordinatorView { roots: v.roots.insert(key, next_state), next_generation: next }
}

/// State after a root is forgotten.
pub open spec fn forget_model(v: CoordinatorView, root_id: Seq<char>) -> CoordinatorView {
    CoordinatorView { roots: v.roots.remove(root_id), ..v }
}

/// The current snapshot of a root, if any.
pub open spec fn current_model(v: CoordinatorView, root_id: Seq<char>) -> Option<SnapshotView> {
    if v.roots.contains_key(root_id) {
        v.roots[root_id].current
    } else {
        None
    }
}

/// The last failure of a root, if any.
pub open spec fn failure_model(v: CoordinatorView, root_id: Seq<char>) -> Option<Seq<char>> {
    if v.roots.contains_key(root_id) {
        v.roots[root_id].failure
    } else {
        None
    }
}

impl View for ScanCoordinator {
    type V = CoordinatorView;

    closed spec fn view(&self) -> CoordinatorView {
        CoordinatorView { roots: entry_map(self.roots@), next_generation: self.next_generation }
    }
}

impl Default for ScanCoordinator {
    fn default() -> (r: Self)
        ensures
            r.wf(),
            r@.roots == Map::<Seq<char>, RootScanView>::empty(),
            r@.next_generation == 0,
    {
        ScanCoordinator::new()
    }
}

impl ScanCoordinator {
    /// Well-formedness: every root appears once.
    pub closed spec fn wf(&self) -> bool {
        keys_unique(self.roots@)
    }

    /// A coordinator that knows no root.
    pub fn new() -> (r: Self)
        ensures
            r.wf(),
            r@.roots == Map::<Seq<char>, RootScanView>::empty(),
            r@.next_generation == 0,
    {
        let r = ScanCoordinator { roots: Vec::new(), next_generation: 0 };
        assert(r@.roots =~= Map::<Seq<char>, RootScanView>::empty());
        r
    }

    fn position(&self, root_id: &str) -> (r: Option<usize>)
        requires
            self.wf(),
        ensures
            match r {
                Some(i) => i < self.roots@.len() && self.roots@[i as int].root_id@ == root_id@,
                None => forall|i: int|
                    0 <= i < self.roots@.len() ==> self.roots@[i].root_id@ != root_id@,
            },
            r is Some <==> self@.roots.contains_key(root_id@),
    {
        let mut i: usize = 0;
        while i < self.roots.len()
            invariant
                i <= self.roots@.len(),
                forall|j: int| 0 <= j < i ==> self.roots@[j].root_id@ != root_id@,
            decreases self.roots@.len() - i,
        {
            if same_text(self.roots[i].root_id.as_str(), root_id) {
                proof {
                    lemma_entry_map_dom(self.roots@, root_id@);
                }
                return Some(i);
            }
            i = i + 1;
        }
        proof {
            lemma_entry_map_dom(self.roots@, root_id@);
        }
        None
    }

    fn replace_state(&mut self, i: usize, state: RootScanState)
        requires
            old(self).wf(),
            i < old(self).roots@.len(),
        ensures
            final(self).wf(),
            final(self).next_generation == old(self).next_generation,
            final(self).roots@.len() == old(self).roots@.len(),
            final(self)@.roots == old(self)@.roots.insert(old(self).roots@[i as int].root_id@, state@),
            final(self)@.next_generation == old(self)@.next_generation,
    {
        let root_id = self.roots[i].root_id.clone();
        let entry = RootEntry { root_id, state };
        proof {
            lemma_entry_map_update(self.roots@, i as int, entry);
        }
        self.roots.set(i, entry);
    }

    /// The last generation handed out; a further scan can begin while it is
    /// below `u64::MAX`.
    pub fn last_generation(&self) -> (r: u64)
        ensures
            r == self@.next_generation,
    {
        self.next_generation
    }

    /// Begins a scan at configuration revision 0.
    pub fn begin(&mut self, root_id: &str) -> (permit: ScanPermit)
        requires
            old(self).wf(),
            old(self)@.next_generation < u64::MAX,
        ensures
            final(self).wf(),
            (final(self)@, permit@) == begin_model(old(self)@, root_id@, 0),
    {
        self.begin_for_revision(root_id, 0)
    }

    /// Begins a scan of `root_id` under `configuration_revision`. The scan
    /// is admitted unless the root already ran under a newer revision.
    pub fn begin_for_revision(&mut self, root_id: &str, configuration_revision: u64) -> (permit: ScanPermit)
        requires
            old(self).wf(),
            old(self)@.next_generation < u64::MAX,
        ensures
            final(self).wf(),
            (final(self)@, permit@) == begin_model(old(self)@, root_id@, configuration_revision),
    {
        let ghost before = self@;
        self.next_generation = self.next_generation + 1;
        let generation = self.next_generation;
        let admitted;
        match self.position(root_id) {
            Some(i) => {
                let old_state = &self.roots[i].state;
                admitted = configuration_revision >= old_state.configuration_revision;
                if admitted {
                    let current = match &old_state.current {
                        Some(s) => Some(s.clone()),
                        None => None,
                    };
                    let state = RootScanState {
                        latest_generation: generation,
                        configuration_revision,
                        current,
                        failure: None,
                    };
                    proof {
                        lemma_entry_map_lookup(self.roots@, i as int);
                    }
                    self.replace_state(i, state);
                } else {
                    proof {
                        lemma_entry_map_lookup(self.roots@, i as int);
                        assert(self@.roots.insert(root_id@, self@.roots[root_id@]) =~= self@.roots);
                    }
                }
            },
            None => {
                admitted = configuration_revision >= 0;
                let state = RootScanState {
                    latest_generation: generation,
                    configuration_revision,
                    current: None,
                    failure: None,
                };
                let entry = RootEntry { root_id: root_id.to_owned(), state };
                proof {
                    lemma_entry_map_push(self.roots@, entry);
                }
                self.roots.push(entry);
            },
        }
        let permit = ScanPermit {
            root_id: root_id.to_owned(),
            generation,
            configuration_revision,
            admitted,
        };
        assert(self@.roots =~= begin_model(before, root_id@, configuration_revision).0.roots);
        permit
    }

    /// Publishes `snapshot` when `permit` still owns the latest scan of its
    /// root under the root's current revision, and the snapshot belongs to
    /// that scan.
    pub fn complete(&mut self, permit: &ScanPermit, snapshot: IndexSnapshot) -> (r: CompletionDisposition)
        requires
            old(self).wf(),
        ensures
            final(self).wf(),
            final(self)@ == complete_model(old(self)@, permit@, snapshot@),
            (r == CompletionDisposition::Accepted) == completion_accepted(old(self)@, permit@, snapshot@),
    {
        match self.position(permit.root_id.as_str()) {
            None => CompletionDisposition::Superseded,
            Some(i) => {
                proof {
                    lemma_entry_map_lookup(self.roots@, i as int);
                }
                let state = &self.roots[i].state;
                if state.latest_generation != permit.generation
                    || state.configuration_revision != permit.configuration_revision
                    || snapshot.generation != permit.generation
                    || snapshot.configuration_revision != permit.configuration_revision
                    || !same_text(snapshot.root_id.as_str(), permit.root_id.as_str()) {
                    return CompletionDisposition::Superseded;
                }
                let next = RootScanState {
                    latest_generation: state.latest_generation,
                    configuration_revision: state.configuration_revision,
                    current: Some(snapshot),
                    failure: None,
                };
                self.replace_state(i, next);
                CompletionDisposition::Accepted
            },
        }
    }

    /// Records a failure of the scan that owns `permit`, keeping the
    /// current snapshot.
    pub fn fail(&mut self, permit: &ScanPermit, message: String)
        requires
            old(self).wf(),
        ensures
            final(self).wf(),
            final(self)@ == fail_model(old(self)@, permit@, message@),
    {
        match self.position(permit.root_id.as_str()) {
            None => {},
            Some(i) => {
                proof {
                    lemma_entry_map_lookup(self.roots@, i as int);
                }
                let state = &self.roots[i].state;
                if state.latest_generation == permit.generation
                    && state.configuration_revision == permit.configuration_revision {
                    let current = match &state.current {
                        Some(s) => Some(s.clone()),
                        None => None,
                    };
                    let next = RootScanState {
                        latest_generation: state.latest_generation,
                        configuration_revision: state.configuration_revision,
                        current,
                        failure: Some(message),
                    };
                    self.replace_state(i, next);
                }
            },
        }
    }

    /// Retires the scan that owns `permit` so its result can no longer be
    /// published.
    pub fn cancel(&mut self, permit: &ScanPermit)
        requires
            old(self).wf(),
        ensures
            final(self).wf(),
            final(self)@ == cancel_model(old(self)@, permit@),
    {
        match self.position(permit.root_id.as_str()) {
            None => {},
            Some(i) => {
                proof {
                    lemma_entry_map_lookup(self.roots@, i as int);
                }
                let state = &self.roots[i].state;
                if state.latest_generation == permit.generation {
                    let current = match &state.current {
                        Some(s) => Some(s.clone()),
                        None => None,
                    };
                    let failure = match &state.failure {
                        Some(f) => Some(f.clone()),
                        None => None,
                    };
                    let next = RootScanState {
                        latest_generation: state.latest_generation.saturating_add(1),
                        configuration_revision: state.configuration_revision,
                        current,
                        failure,
                    };
                    self.replace_state(i, next);
                }
            },
        }
    }

    /// Discards everything known about a root.
    pub fn forget(&mut self, root_id: &str)
        requires
            old(self).wf(),
        ensures
            final(self).wf(),
            final(self)@ == forget_model(old(self)@, root_id@),
    {
        match self.position(root_id) {
            None => {
                proof {
                    assert(self@.roots.remove(root_id@) =~= self@.roots);
                }
            },
            Some(i) => {
                proof {
                    lemma_entry_map_remove(self.roots@, i as int);
                }
                self.roots.remove(i);
            },
        }
    }

    /// The published snapshot of a root.
    pub fn current(&self, root_id: &str) -> (r: Option<IndexSnapshot>)
        requires
            self.wf(),
        ensures
            snapshot_option_view(r) == current_model(self@, root_id@),
    {
        match self.position(root_id) {
            None => None,
            Some(i) => {
                proof {
                    lemma_entry_map_lookup(self.roots@, i as int);
                }
                match &self.roots[i].state.current {
                    Some(s) => Some(s.clone()),
                    None => None,
                }
            },
        }
    }

    /// The failure recorded for a root's latest scan.
    pub fn failure(&self, root_id: &str) -> (r: Option<String>)
        requires
            self.wf(),
        ensures
            failure_view(r) == failure_model(self@, root_id@),
    {
        match self.position(root_id) {
            None => None,
            Some(i) => {
                proof {
                    lemma_entry_map_lookup(self.roots@, i as int);
                }
                match &self.roots[i].state.failure {
                    Some(s) => Some(s.clone()),
                    None => None,
                }
            },
        }
    }

    /// Offers a cached snapshot; it becomes current unless the root already
    /// holds a newer revision or a newer generation of the same revision.
    pub fn hydrate(&mut self, snapshot: IndexSnapshot)
        requires
            old(self).wf(),
        ensures
            final(self).wf(),
            final(self)@ == hydrate_model(old(self)@, snapshot@),
    {
        let ghost before = self@;
        if self.next_generation < snapshot.generation {
            self.next_generation = snapshot.generation;
        }
        match self.position(snapshot.root_id.as_str()) {
            Some(i) => {
                proof {
                    lemma_entry_map_lookup(self.roots@, i as int);
                }
                let state = &self.roots[i].state;
                if snapshot.configuration_revision < state.configuration_revision || (
                snapshot.configuration_revision == state.configuration_revision
                    && snapshot.generation < state.latest_generation) {
                    proof {
                        assert(self@.roots.insert(snapshot@.root_id, self@.roots[snapshot@.root_id])
                            =~= self@.roots);
                    }
                    return ;
                }
                let failure = match &state.failure {
                    Some(f) => Some(f.clone()),
                    None => None,
                };
                let next = RootScanState {
                    latest_generation: snapshot.generation,
                    configuration_revision: snapshot.configuration_revision,
                    current: Some(snapshot),
                    failure,
                };
                self.replace_state(i, next);
            },
            None => {
                let older = snapshot.configuration_revision < 0 || (snapshot.configuration_revision
                    == 0 && snapshot.generation < 0);
                let root_id = snapshot.root_id.clone();
                let state = if older {
                    RootScanState {
                        latest_generation: 0,
                        configuration_revision: 0,
                        current: None,
                        failure: None,
                    }
                } else {
                    RootScanState {
                        latest_generation: snapshot.generation,
                        configuration_revision: snapshot.configuration_revision,
                        current: Some(snapshot),
                        failure: None,
                    }
                };
                let entry = RootEntry { root_id, state };
                proof {
                    lemma_entry_map_push(self.roots@, entry);
                }
                self.roots.push(entry);
            },
        }
    }
}

/// Stores and loads index snapshots; implemented by the application's
/// database and by tests.
pub trait IndexPersistence {
    /// Whether this store may answer `saved` when asked to save `snapshot`.
    /// A store that does not describe its answers may give any.
    closed spec fn may_answer_save(&self, snapshot: SnapshotView, saved: Result<(), Seq<char>>) -> bool {
        true
    }

    /// Saves `snapshot`; the answer is one the store may give for it.
    fn save_index(&self, snapshot: &IndexSnapshot) -> (r: Result<(), String>)
        ensures
            self.may_answer_save(snapshot@, save_view(r)),
    ;

    fn load_index(&self, root_id: &str) -> Result<Option<IndexSnapshot>, String>;
}

/// What is left to do once a scan's index was built.
#[derive(Debug, PartialEq, Eq)]
pub enum ScanFinish {
    /// The root's re-check failed with this error.
    Refused(ApiError),
    /// The scan was cancelled; nothing is published.
    Cancelled,
    /// The index was published and is to be cached.
    Save(IndexSnapshot),
    /// A newer scan of the root superseded this one.
    Superseded,
}

/// Settles a scan whose index was built: when the root's re-check failed,
/// a vanished root (`root_not_found`) is forgotten and any other failure
/// fails the permit; a cancelled scan cancels its permit; otherwise the
/// index completes the permit, and an accepted index is to be cached.
pub fn finish_scan(
    c: &mut ScanCoordinator,
    permit: &ScanPermit,
    root_check: Result<(), ApiError>,
    cancelled: bool,
    index: IndexSnapshot,
) -> (r: ScanFinish)
    requires
        old(c).wf(),
    ensures
        final(c).wf(),
        match root_check {
            Err(e) => r == ScanFinish::Refused(e) && final(c)@ == if e.code@ == "root_not_found"@ {
                forget_model(old(c)@, permit.root_id@)
            } else {
                fail_model(old(c)@, permit@, e.message@)
            },
            Ok(()) => if cancelled {
                r == ScanFinish::Cancelled && final(c)@ == cancel_model(old(c)@, permit@)
            } else {
                &&& final(c)@ == complete_model(old(c)@, permit@, index@)
                &&& if completion_accepted(old(c)@, permit@, index@) {
                    r matches ScanFinish::Save(s) && s@ == index@
                } else {
                    r == ScanFinish::Superseded
                }
            },
        },
{
    match root_check {
        Err(e) => {
            proof {
                reveal_strlit("root_not_found");
            }
            if same_text(e.code, "root_not_found") {
                c.forget(permit.root_id.as_str());
            } else {
                c.fail(permit, e.message.clone());
            }
            ScanFinish::Refused(e)
        },
        Ok(()) => {
            if cancelled {
                c.cancel(permit);
                ScanFinish::Cancelled
            } else {
                let kept = index.clone();
                match c.complete(permit, index) {
                    CompletionDisposition::Accepted => ScanFinish::Save(kept),
                    CompletionDisposition::Superseded => ScanFinish::Superseded,
                }
            }
        },
    }
}

/// Why a scan request is refused: its permit was not admitted because a
/// newer configuration revision is already active for the root.
pub fn admission_refusal(permit: &ScanPermit) -> (r: Option<ApiError>)
    ensures
        r is None <==> permit.admitted,
        r matches Some(e) ==> e.code@ == "scan_superseded"@ && e.message@
            == "A newer scan configuration is already active"@,
{
    if permit.admitted {
        None
    } else {
        Some(ApiError::new("scan_superseded", "A newer scan configuration is already active".to_owned()))
    }
}

/// The warning a scan reports when its published index could not be
/// cached: exactly when the cache write failed, quoting the failure.
pub fn cache_write_warning(root_path: &str, saved: Result<(), String>) -> (r: Option<ScanWarning>)
    ensures
        match saved {
            Ok(()) => r is None,
            Err(e) => r matches Some(w) && w@ == (WarningView {
                code: "cache_write_failed"@,
                path: root_path@,
                message: "The new index is usable in memory but could not be cached: "@ + e@,
            }),
        },
{
    match saved {
        Ok(()) => None,
        Err(error) => Some(
            ScanWarning {
                code: "cache_write_failed".to_owned(),
                path: root_path.to_owned(),
                message: concat("The new index is usable in memory but could not be cached: ", error.as_str()),
            },
        ),
    }
}

/// The answer of a cache write, by its view.
pub open spec fn save_view(saved: Result<(), String>) -> Result<(), Seq<char>> {
    match saved {
        Ok(()) => Ok(()),
        Err(e) => Err(e@),
    }
}

/// The index currently shown, with the problems met while keeping it.
pub struct IndexSession {
    current: Option<IndexSnapshot>,
    operational_warnings: Vec<String>,
}

impl Default for IndexSession {
    fn default() -> (r: Self)
        ensures
            r.current_view() is None,
            r.warnings_view().len() == 0,
    {
        IndexSession { current: None, operational_warnings: Vec::new() }
    }
}

impl IndexSession {
    pub closed spec fn current_view(&self) -> Option<SnapshotView> {
        snapshot_option_view(self.current)
    }

    pub closed spec fn warnings_view(&self) -> Seq<Seq<char>> {
        self.operational_warnings@.map_values(|w: String| w@)
    }

    /// The warnings after a cache write answered `saved`: one warning that
    /// quotes the failure is added exactly when the write failed.
    pub open spec fn warnings_after_save(before: Seq<Seq<char>>, saved: Result<(), Seq<char>>) -> Seq<Seq<char>> {
        match saved {
            Ok(()) => before,
            Err(e) => before.push("Index is usable in memory but could not be cached: "@ + e),
        }
    }

    /// Records the answer of a cache write.
    pub fn record_save(&mut self, saved: Result<(), String>)
        ensures
            final(self).current_view() == old(self).current_view(),
            final(self).warnings_view() == Self::warnings_after_save(
                old(self).warnings_view(),
                save_view(saved),
            ),
    {
        match saved {
            Ok(()) => {},
            Err(error) => {
                let ghost before = self.warnings_view();
                let w = concat("Index is usable in memory but could not be cached: ", error.as_str());
                self.operational_warnings.push(w);
                assert(self.warnings_view() =~= before.push(
                    "Index is usable in memory but could not be cached: "@ + error@,
                ));
            },
        }
    }

    /// Makes `snapshot` current, asks `persistence` to cache it and records
    /// the answer with `record_save`. A cache failure leaves the new index
    /// usable and adds one warning that quotes the failure. Where the store
    /// has only one answer for the snapshot, the warnings are those that
    /// answer leaves.
    pub fn publish<P: IndexPersistence + ?Sized>(&mut self, snapshot: IndexSnapshot, persistence: &P)
        ensures
            final(self).current_view() == Some(snapshot@),
            exists|saved: Result<(), Seq<char>>|
                #[trigger] persistence.may_answer_save(snapshot@, saved)
                    && final(self).warnings_view() == Self::warnings_after_save(
                    old(self).warnings_view(),
                    saved,
                ),
            forall|saved: Result<(), Seq<char>>|
                (forall|other: Result<(), Seq<char>>|
                    #[trigger] persistence.may_answer_save(snapshot@, other) ==> other == saved)
                    ==> final(self).warnings_view() == #[trigger] Self::warnings_after_save(
                    old(self).warnings_view(),
                    saved,
                ),
    {
        let saved = persistence.save_index(&snapshot);
        self.current = Some(snapshot);
        let ghost sv = save_view(saved);
        self.record_save(saved);
        assert(self.warnings_view() == Self::warnings_after_save(old(self).warnings_view(), sv));
    }

    /// The current index.
    pub fn current(&self) -> (r: Option<&IndexSnapshot>)
        ensures
            match r {
                Some(s) => self.current_view() == Some(s@),
                None => self.current_view() is None,
            },
    {
        match &self.current {
            Some(s) => Some(s),
            None => None,
        }
    }

    /// The warnings recorded so far.
    pub fn operational_warnings(&self) -> (r: &[String])
        ensures
            r@.map_values(|w: String| w@) == self.warnings_view(),
    {
        self.operational_warnings.as_slice()
    }
}

/// The record key of an OpenSpec change member: the change directory
/// `openspec/changes/<name>`, or `openspec/changes/archive/<name>` for an
/// archived change, when the path lies strictly inside it.
pub open spec fn openspec_record_key_of(relative_path: Seq<char>) -> Option<Seq<char>> {
    let parts = slash_segments(relative_path);
    if parts.len() < 2 || parts[0] != "openspec"@ || parts[1] != "changes"@ {
        None
    } else {
        let length: int = if parts.len() > 2 && parts[2] == "archive"@ {
            4
        } else {
            3
        };
        if parts.len() > length {
            Some(slash_joined(parts.take(length)))
        } else {
            None
        }
    }
}

/// The record key of an OpenSpec change member.
pub fn openspec_record_key(relative_path: &str) -> (r: Option<String>)
    ensures
        match r {
            Some(k) => openspec_record_key_of(relative_path@) == Some(k@),
            None => openspec_record_key_of(relative_path@) is None,
        },
{
    let parts = split_slash(relative_path);
    let ghost pv = parts@.map_values(|p: String| p@);
    if parts.len() < 2 || !same_text(parts[0].as_str(), "openspec") || !same_text(parts[1].as_str(), "changes") {
        return None;
    }
    let length: usize = if parts.len() > 2 && same_text(parts[2].as_str(), "archive") {
        4
    } else {
        3
    };
    if parts.len() <= length {
        return None;
    }
    let mut key = parts[0].clone();
    let mut i: usize = 1;
    while i < length
        invariant
            1 <= i <= length,
            length < parts@.len(),
            pv == parts@.map_values(|p: String| p@),
            key@ == slash_joined(pv.take(i as int)),
        decreases length - i,
    {
        push_text(&mut key, "/");
        push_text(&mut key, parts[i].as_str());
        assert(pv.take(i + 1).drop_last() =~= pv.take(i as int));
        i = i + 1;
    }
    Some(key)
}

/// A scan superseded by a later admitted scan of the same root can never
/// publish its snapshot, whatever that snapshot holds.
pub proof fn law_superseded_scan_cannot_publish(
    v: CoordinatorView,
    root_id: Seq<char>,
    first_revision: u64,
    second_revision: u64,
    snapshot: SnapshotView,
)
    requires
        v.next_generation < u64::MAX - 1,
        begin_model(begin_model(v, root_id, first_revision).0, root_id, second_revision).1.admitted,
    ensures
        ({
            let (v1, first) = begin_model(v, root_id, first_revision);
            let (v2, second) = begin_model(v1, root_id, second_revision);
            &&& !completion_accepted(v2, first, snapshot)
            &&& complete_model(v2, first, snapshot) == v2
        }),
{
}

/// Once a scan of a root is admitted under a revision, a later scan of that
/// root is admitted exactly when its revision is at least as new.
pub proof fn law_admission_follows_revision_order(
    v: CoordinatorView,
    root_id: Seq<char>,
    first_revision: u64,
    second_revision: u64,
)
    requires
        v.next_generation < u64::MAX - 1,
        begin_model(v, root_id, first_revision).1.admitted,
    ensures
        begin_model(begin_model(v, root_id, first_revision).0, root_id, second_revision).1.admitted
            <==> second_revision >= first_revision,
{
}

/// Every scan gets a generation larger than all generations handed out
/// before it, so two permits never share a generation.
pub proof fn law_generations_strictly_increase(
    v: CoordinatorView,
    first_root: Seq<char>,
    first_revision: u64,
    second_root: Seq<char>,
    second_revision: u64,
)
    requires
        v.next_generation < u64::MAX - 1,
    ensures
        ({
            let (v1, first) = begin_model(v, first_root, first_revision);
            let (v2, second) = begin_model(v1, second_root, second_revision);
            &&& v.next_generation < first.generation
            &&& first.generation < second.generation
            &&& second.generation == v2.next_generation
        }),
{
}

/// An admitted scan that completes with its own snapshot before any other
/// scan of the root begins is published, and clears the root's failure.
pub proof fn law_admitted_scan_publishes_its_snapshot(
    v: CoordinatorView,
    root_id: Seq<char>,
    revision: u64,
    snapshot: SnapshotView,
)
    requires
        v.next_generation < u64::MAX,
        begin_model(v, root_id, revision).1.admitted,
        snapshot.root_id == root_id,
        snapshot.generation == begin_model(v, root_id, revision).1.generation,
        snapshot.configuration_revision == revision,
    ensures
        ({
            let (v1, permit) = begin_model(v, root_id, revision);
            let v2 = complete_model(v1, permit, snapshot);
            &&& completion_accepted(v1, permit, snapshot)
            &&& current_model(v2, root_id) == Some(snapshot)
            &&& failure_model(v2, root_id) == None::<Seq<char>>
        }),
{
}

/// A failed scan never changes any root's current snapshot.
pub proof fn law_failure_preserves_current(
    v: CoordinatorView,
    permit: PermitView,
    message: Seq<char>,
    root_id: Seq<char>,
)
    ensures
        current_model(fail_model(v, permit, message), root_id) == current_model(v, root_id),
{
}

/// A cancelled scan can no longer publish.
pub proof fn law_cancelled_scan_cannot_publish(
    v: CoordinatorView,
    permit: PermitView,
    snapshot: SnapshotView,
)
    requires
        v.roots.contains_key(permit.root_id),
        v.roots[permit.root_id].latest_generation == permit.generation,
        permit.generation < u64::MAX,
    ensures
        !completion_accepted(cancel_model(v, permit), permit, snapshot),
        current_model(cancel_model(v, permit), permit.root_id) == current_model(v, permit.root_id),
{
}

/// After a root is forgotten it has no current snapshot or failure, and no
/// scan begun before can publish for it.
pub proof fn law_forgotten_root_rejects_delayed_completion(
    v: CoordinatorView,
    permit: PermitView,
    snapshot: SnapshotView,
)
    ensures
        current_model(forget_model(v, permit.root_id), permit.root_id) == None::<SnapshotView>,
        failure_model(forget_model(v, permit.root_id), permit.root_id) == None::<Seq<char>>,
        !completion_accepted(forget_model(v, permit.root_id), permit, snapshot),
{
}

/// A cached snapshot older than what a root already holds (an older
/// revision, or an older generation of the same revision) leaves the root's
/// current snapshot unchanged.
pub proof fn law_hydrating_older_snapshot_keeps_current(v: CoordinatorView, snapshot: SnapshotView)
    requires
        v.roots.contains_key(snapshot.root_id),
        snapshot.configuration_revision < v.roots[snapshot.root_id].configuration_revision || (
        snapshot.configuration_revision == v.roots[snapshot.root_id].configuration_revision
            && snapshot.generation < v.roots[snapshot.root_id].latest_generation),
    ensures
        current_model(hydrate_model(v, snapshot), snapshot.root_id) == current_model(
            v,
            snapshot.root_id,
        ),
        hydrate_model(v, snapshot).roots[snapshot.root_id] == v.roots[snapshot.root_id],
{
}

/// Operations on one root never change what is recorded for another root.
pub proof fn law_roots_are_independent(
    v: CoordinatorView,
    root_id: Seq<char>,
    revision: u64,
    permit: PermitView,
    snapshot: SnapshotView,
    message: Seq<char>,
    other: Seq<char>,
)
    requires
        other != root_id,
        other != permit.root_id,
        other != snapshot.root_id,
        v.next_generation < u64::MAX,
    ensures
        current_model(begin_model(v, root_id, revision).0, other) == current_model(v, other),
        current_model(complete_model(v, permit, snapshot), other) == current_model(v, other),
        current_model(fail_model(v, permit, message), other) == current_model(v, other),
        current_model(cancel_model(v, permit), other) == current_model(v, other),
        current_model(forget_model(v, root_id), other) == current_model(v, other),
        current_model(hydrate_model(v, snapshot), other) == current_model(v, other),
{
}

/// Cancelling a scan that is not its root's latest scan changes nothing:
/// only the scan that currently owns a root can be cancelled.
pub proof fn law_cancelling_a_stale_scan_changes_nothing(v: CoordinatorView, permit: PermitView)
    requires
        v.roots.contains_key(permit.root_id) ==> v.roots[permit.root_id].latest_generation
            != permit.generation,
    ensures
        cancel_model(v, permit) == v,
{
}

/// When a newer scan of a root replaces an older one and the older one is
/// then cancelled, the newer scan still publishes its own snapshot.
pub proof fn law_cancelling_the_replaced_scan_spares_the_newer_one(
    v: CoordinatorView,
    root_id: Seq<char>,
    first_revision: u64,
    second_revision: u64,
    snapshot: SnapshotView,
)
    requires
        v.next_generation < u64::MAX - 1,
        begin_model(begin_model(v, root_id, first_revision).0, root_id, second_revision).1.admitted,
        snapshot.root_id == root_id,
        snapshot.generation == begin_model(begin_model(v, root_id, first_revision).0, root_id, second_revision).1.generation,
        snapshot.configuration_revision == second_revision,
    ensures
        ({
            let (v1, first) = begin_model(v, root_id, first_revision);
            let (v2, second) = begin_model(v1, root_id, second_revision);
            let v3 = cancel_model(v2, first);
            &&& v3 == v2
            &&& completion_accepted(v3, second, snapshot)
            &&& current_model(complete_model(v3, second, snapshot), root_id) == Some(snapshot)
        }),
{
}

/// A failure reported by a scan that is not its root's latest scan (an
/// older generation, or another configuration revision) changes nothing.
pub proof fn law_failure_of_a_stale_scan_changes_nothing(
    v: CoordinatorView,
    permit: PermitView,
    message: Seq<char>,
)
    requires
        v.roots.contains_key(permit.root_id) ==> (v.roots[permit.root_id].latest_generation
            != permit.generation || v.roots[permit.root_id].configuration_revision
            != permit.configuration_revision),
    ensures
        fail_model(v, permit, message) == v,
        failure_model(fail_model(v, permit, message), permit.root_id) == failure_model(v, permit.root_id),
{
}

/// The failure of an admitted scan that is still its root's latest scan is
/// recorded for the root; once a newer scan of the root began, the older
/// scan's failure is ignored and the root reports no failure.
pub proof fn law_only_the_latest_scan_records_failure(
    v: CoordinatorView,
    root_id: Seq<char>,
    first_revision: u64,
    second_revision: u64,
    message: Seq<char>,
)
    requires
        v.next_generation < u64::MAX - 1,
        begin_model(v, root_id, first_revision).1.admitted,
        begin_model(begin_model(v, root_id, first_revision).0, root_id, second_revision).1.admitted,
    ensures
        ({
            let (v1, first) = begin_model(v, root_id, first_revision);
            let (v2, second) = begin_model(v1, root_id, second_revision);
            &&& failure_model(fail_model(v1, first, message), root_id) == Some(message)
            &&& fail_model(v2, first, message) == v2
            &&& failure_model(fail_model(v2, first, message), root_id) == None::<Seq<char>>
            &&& failure_model(fail_model(v2, second, message), root_id) == Some(message)
        }),
{
}

/// Hydrating a snapshot never hands its generation out again: the last
/// generation handed out is afterwards at least the snapshot's and at
/// least what it was, and it is the larger of the two.
pub proof fn law_hydrating_keeps_generations_ahead(v: CoordinatorView, snapshot: SnapshotView)
    ensures
        hydrate_model(v, snapshot).next_generation >= snapshot.generation,
        hydrate_model(v, snapshot).next_generation >= v.next_generation,
        hydrate_model(v, snapshot).next_generation == snapshot.generation
            || hydrate_model(v, snapshot).next_generation == v.next_generation,
{
}

/// A scan begun after a snapshot was hydrated gets a generation newer than
/// the snapshot's, for any root and revision.
pub proof fn law_scans_after_hydrating_are_newer(
    v: CoordinatorView,
    snapshot: SnapshotView,
    root_id: Seq<char>,
    revision: u64,
)
    requires
        hydrate_model(v, snapshot).next_generation < u64::MAX,
    ensures
        begin_model(hydrate_model(v, snapshot), root_id, revision).1.generation > snapshot.generation,
{
}

/// A hydrated snapshot that is not older than what its root holds becomes
/// the root's current snapshot.
pub proof fn law_hydrating_a_newer_snapshot_makes_it_current(v: CoordinatorView, snapshot: SnapshotView)
    requires
        v.roots.contains_key(snapshot.root_id) ==> (snapshot.configuration_revision
            > v.roots[snapshot.root_id].configuration_revision || (snapshot.configuration_revision
            == v.roots[snapshot.root_id].configuration_revision && snapshot.generation
            >= v.roots[snapshot.root_id].latest_generation)),
    ensures
        current_model(hydrate_model(v, snapshot), snapshot.root_id) == Some(snapshot),
{
}

} // verus!
