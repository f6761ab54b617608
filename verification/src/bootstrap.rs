//! Bootstrap: reconstructing a ready engine at startup from the most
//! recent published snapshot plus its write-ahead log, as a state machine.
//!
//! The decisions live here, verified; the embedding process drives the
//! machine: it asks `action` what to perform (a local probe, a remote
//! listing or download, opening the engine, replay, validation), performs
//! it, and hands the outcome back through `step`.  Any failing action is
//! fatal to the bootstrap and simply abandons the machine — no engine
//! handle is produced on a fatal path.

use vstd::prelude::*;

verus! {

use crate::naming::spec_current_object;
use crate::naming::spec_pointer_snapshot_id;
use crate::naming::spec_snapshot_prefix;
use crate::naming::current_object;
use crate::naming::pointer_snapshot_id;
use crate::naming::snapshot_prefix;

/// Where a bootstrap stands.  It starts at `CheckLocal`; `Ready` means a
/// validated engine handle exists.
pub enum BootstrapState {
    /// Probe whether the local path already holds engine files.
    CheckLocal,
    /// Probe whether the remote `{name}-current` pointer object exists.
    CheckPointer,
    /// Download the pointer object and read its content.
    FetchPointer,
    /// List the files of snapshot `snapshot` (path and size).
    ListFiles { snapshot: u128 },
    /// Download the listed files one by one into the local path.
    Fetching { snapshot: u128, files: Vec<String>, next: usize },
    /// Open the engine over the local path; `snapshot` is the snapshot
    /// whose logs must then be replayed, if any.
    Open { pending: Option<u128> },
    /// Replay the write-ahead-log chunks of snapshot `snapshot`.
    Replay { snapshot: u128 },
    /// Validate the engine's on-disk indexes; failure here is fatal.
    Validate,
    /// The engine handle is ready.
    Ready,
}

/// What the embedding process reports back after performing an action.
pub enum BootstrapEvent {
    /// Whether the local path already holds engine files.
    LocalPresent(bool),
    /// Whether the remote pointer object exists.
    PointerPresent(bool),
    /// The decoded content of the pointer object.
    PointerContent(String),
    /// The names of the files of the snapshot being fetched.
    FileList(Vec<String>),
    /// One file was downloaded and copied into the local path.
    FileFetched,
    /// The engine was opened (or created) over the local path.
    EngineOpened,
    /// The write-ahead log was replayed.
    LogsReplayed,
    /// The engine's indexes validated.
    IndexesValid,
}

/// What the embedding process must perform next.
pub enum BootstrapAction {
    /// Check the local path for engine files: local I/O only.
    ProbeLocal,
    /// List the remote object of this exact name.
    ListCurrentMarker(String),
    /// Download the remote pointer object of this name and decode it.
    DownloadPointer(String),
    /// List, with metadata, the remote files under this snapshot prefix.
    ListSnapshotFiles(String),
    /// Download this remote file and copy it into the local path.
    DownloadFile(String),
    /// Open the engine over the local path, creating it if empty.
    OpenEngine,
    /// Replay the write-ahead-log chunks of this snapshot.
    ReplayLogs(u128),
    /// Ask the engine to validate all its indexes.
    ValidateIndexes,
    /// Nothing left to do.
    Finished,
}

/// An action that touches the remote store at all.
pub open spec fn is_remote_action(a: BootstrapAction) -> bool {
    match a {
        BootstrapAction::ListCurrentMarker(_) => true,
        BootstrapAction::DownloadPointer(_) => true,
        BootstrapAction::ListSnapshotFiles(_) => true,
        BootstrapAction::DownloadFile(_) => true,
        BootstrapAction::ReplayLogs(_) => true,
        _ => false,
    }
}

/// An action that downloads remote content (replay downloads every chunk
/// it applies).
pub open spec fn is_download_action(a: BootstrapAction) -> bool {
    match a {
        BootstrapAction::DownloadPointer(_) => true,
        BootstrapAction::DownloadFile(_) => true,
        BootstrapAction::ReplayLogs(_) => true,
        _ => false,
    }
}

/// The transition relation of the bootstrap machine.  An event that does
/// not answer the current state leaves the state unchanged.
pub open spec fn spec_step(
    name: Seq<char>,
    s: BootstrapState,
    e: BootstrapEvent,
) -> BootstrapState {
    match (s, e) {
        (BootstrapState::CheckLocal, BootstrapEvent::LocalPresent(present)) => {
            if present {
                // Use the existing local store; skip remote entirely.
                BootstrapState::Open { pending: None }
            } else {
                BootstrapState::CheckPointer
            }
        },
        (BootstrapState::CheckPointer, BootstrapEvent::PointerPresent(present)) => {
            if present {
                BootstrapState::FetchPointer
            } else {
                // No current pointer: create the store from scratch.
                BootstrapState::Open { pending: None }
            }
        },
        (BootstrapState::FetchPointer, BootstrapEvent::PointerContent(content)) => {
            match spec_pointer_snapshot_id(name, content@) {
                Some(id) => BootstrapState::ListFiles { snapshot: id },
                // Unparseable pointer content degrades silently to a
                // fresh store; it is not an error.
                None => BootstrapState::Open { pending: None },
            }
        },
        (BootstrapState::ListFiles { snapshot }, BootstrapEvent::FileList(files)) => {
            if files@.len() == 0 {
                BootstrapState::Open { pending: Some(snapshot) }
            } else {
                BootstrapState::Fetching { snapshot, files, next: 0 }
            }
        },
        (BootstrapState::Fetching { snapshot, files, next }, BootstrapEvent::FileFetched) => {
            if next + 1 < files@.len() {
                BootstrapState::Fetching { snapshot, files, next: (next + 1) as usize }
            } else {
                BootstrapState::Open { pending: Some(snapshot) }
            }
        },
        (BootstrapState::Open { pending }, BootstrapEvent::EngineOpened) => {
            match pending {
                Some(id) => BootstrapState::Replay { snapshot: id },
                None => BootstrapState::Validate,
            }
        },
        (BootstrapState::Replay { snapshot: _ }, BootstrapEvent::LogsReplayed) => {
            BootstrapState::Validate
        },
        (BootstrapState::Validate, BootstrapEvent::IndexesValid) => BootstrapState::Ready,
        (other, _) => other,
    }
}

/// Whether `a` is the action that state `s` asks for, under store `name`.
pub open spec fn action_matches(name: Seq<char>, s: BootstrapState, a: BootstrapAction) -> bool {
    match s {
        BootstrapState::CheckLocal => a is ProbeLocal,
        BootstrapState::CheckPointer => a matches BootstrapAction::ListCurrentMarker(p) && p@
            == spec_current_object(name),
        BootstrapState::FetchPointer => a matches BootstrapAction::DownloadPointer(p) && p@
            == spec_current_object(name),
        BootstrapState::ListFiles { snapshot } => a matches BootstrapAction::ListSnapshotFiles(p)
            && p@ == spec_snapshot_prefix(name, snapshot as nat),
        BootstrapState::Fetching { snapshot: _, files, next } => {
            if next < files@.len() {
                a matches BootstrapAction::DownloadFile(f) && f == files@[next as int]
            } else {
                a is OpenEngine
            }
        },
        BootstrapState::Open { pending: _ } => a is OpenEngine,
        BootstrapState::Replay { snapshot } => a matches BootstrapAction::ReplayLogs(id) && id
            == snapshot,
        BootstrapState::Validate => a is ValidateIndexes,
        BootstrapState::Ready => a is Finished,
    }
}

impl BootstrapState {
    /// The state a bootstrap starts in.
    pub fn start() -> (r: Self)
        ensures
            r is CheckLocal,
    {
        BootstrapState::CheckLocal
    }

    /// The action the embedding process must perform in this state.
    pub fn action(&self, name: &str) -> (r: BootstrapAction)
        ensures
            action_matches(name@, *self, r),
    {
        match self {
            BootstrapState::CheckLocal => BootstrapAction::ProbeLocal,
            BootstrapState::CheckPointer => BootstrapAction::ListCurrentMarker(
                current_object(name),
            ),
            BootstrapState::FetchPointer => BootstrapAction::DownloadPointer(
                current_object(name),
            ),
            BootstrapState::ListFiles { snapshot } => BootstrapAction::ListSnapshotFiles(
                snapshot_prefix(name, *snapshot),
            ),
            BootstrapState::Fetching { snapshot: _, files, next } => {
                if *next < files.len() {
                    BootstrapAction::DownloadFile(files[*next].clone())
                } else {
                    BootstrapAction::OpenEngine
                }
            },
            BootstrapState::Open { pending: _ } => BootstrapAction::OpenEngine,
            BootstrapState::Replay { snapshot } => BootstrapAction::ReplayLogs(*snapshot),
            BootstrapState::Validate => BootstrapAction::ValidateIndexes,
            BootstrapState::Ready => BootstrapAction::Finished,
        }
    }

    /// Advance on the outcome the embedding process reports.
    pub fn step(self, name: &str, e: BootstrapEvent) -> (r: BootstrapState)
        ensures
            r == spec_step(name@, self, e),
    {
        match (self, e) {
            (BootstrapState::CheckLocal, BootstrapEvent::LocalPresent(present)) => {
                if present {
                    BootstrapState::Open { pending: None }
                } else {
                    BootstrapState::CheckPointer
                }
            },
            (BootstrapState::CheckPointer, BootstrapEvent::PointerPresent(present)) => {
                if present {
                    BootstrapState::FetchPointer
                } else {
                    BootstrapState::Open { pending: None }
                }
            },
            (BootstrapState::FetchPointer, BootstrapEvent::PointerContent(content)) => {
                match pointer_snapshot_id(name, content.as_str()) {
                    Some(id) => BootstrapState::ListFiles { snapshot: id },
                    None => BootstrapState::Open { pending: None },
                }
            },
            (BootstrapState::ListFiles { snapshot }, BootstrapEvent::FileList(files)) => {
                if files.len() == 0 {
                    BootstrapState::Open { pending: Some(snapshot) }
                } else {
                    BootstrapState::Fetching { snapshot, files, next: 0 }
                }
            },
            (
                BootstrapState::Fetching { snapshot, files, next },
                BootstrapEvent::FileFetched,
            ) => {
                let n = files.len();
                if next < n && next + 1 < n {
                    BootstrapState::Fetching { snapshot, files, next: next + 1 }
                } else {
                    BootstrapState::Open { pending: Some(snapshot) }
                }
            },
            (BootstrapState::Open { pending }, BootstrapEvent::EngineOpened) => {
                match pending {
                    Some(id) => BootstrapState::Replay { snapshot: id },
                    None => BootstrapState::Validate,
                }
            },
            (BootstrapState::Replay { snapshot: _ }, BootstrapEvent::LogsReplayed) => {
                BootstrapState::Validate
            },
            (BootstrapState::Validate, BootstrapEvent::IndexesValid) => BootstrapState::Ready,
            (other, _) => other,
        }
    }
}

/// The state after driving the machine from `CheckLocal` through `events`.
pub open spec fn state_after(name: Seq<char>, events: Seq<BootstrapEvent>) -> BootstrapState
    decreases events.len(),
{
    if events.len() == 0 {
        BootstrapState::CheckLocal
    } else {
        spec_step(name, state_after(name, events.drop_last()), events.last())
    }
}

/// States on the purely local route: the engine is opened over the local
/// path as it stands and validated, with no remote traffic left.
pub open spec fn local_route(s: BootstrapState) -> bool {
    ||| s == (BootstrapState::Open { pending: None })
    ||| s is Validate
    ||| s is Ready
}

proof fn lemma_local_route_step(name: Seq<char>, s: BootstrapState, e: BootstrapEvent)
    requires
        local_route(s),
    ensures
        local_route(spec_step(name, s, e)),
{
}

proof fn lemma_local_route_action(name: Seq<char>, s: BootstrapState, a: BootstrapAction)
    requires
        local_route(s),
        action_matches(name, s, a),
    ensures
        !is_remote_action(a),
{
}

proof fn lemma_existing_local_route(name: Seq<char>, events: Seq<BootstrapEvent>)
    requires
        events.len() >= 1,
        events[0] == BootstrapEvent::LocalPresent(true),
    ensures
        local_route(state_after(name, events)),
    decreases events.len(),
{
    if events.len() == 1 {
        assert(events.drop_last() =~= Seq::<BootstrapEvent>::empty());
        assert(events.last() == events[0]);
    } else {
        lemma_existing_local_route(name, events.drop_last());
        lemma_local_route_step(name, state_after(name, events.drop_last()), events.last());
    }
}

/// Existing-local bootstrap: when the first probe finds engine files in
/// the local path, no state the machine can ever reach asks for a remote
/// listing or download — the store is opened and validated from local
/// state alone, whatever events follow.
pub proof fn lemma_existing_local_no_remote(
    name: Seq<char>,
    events: Seq<BootstrapEvent>,
    a: BootstrapAction,
)
    requires
        events.len() >= 1 ==> events[0] == BootstrapEvent::LocalPresent(true),
        action_matches(name, state_after(name, events), a),
    ensures
        !is_remote_action(a),
{
    if events.len() == 0 {
    } else {
        lemma_existing_local_route(name, events);
        lemma_local_route_action(name, state_after(name, events), a);
    }
}

proof fn lemma_fresh_route(name: Seq<char>, events: Seq<BootstrapEvent>)
    requires
        events.len() >= 2,
        events[0] == BootstrapEvent::LocalPresent(false),
        events[1] == BootstrapEvent::PointerPresent(false),
    ensures
        local_route(state_after(name, events)),
    decreases events.len(),
{
    if events.len() == 2 {
        let first = events.drop_last();
        assert(first =~= seq![events[0]]);
        assert(first.drop_last() =~= Seq::<BootstrapEvent>::empty());
        assert(state_after(name, Seq::<BootstrapEvent>::empty()) == BootstrapState::CheckLocal);
        assert(first.last() == events[0]);
        assert(state_after(name, first) == BootstrapState::CheckPointer);
        assert(events.last() == events[1]);
    } else {
        lemma_fresh_route(name, events.drop_last());
        lemma_local_route_step(name, state_after(name, events.drop_last()), events.last());
    }
}

/// Fresh bootstrap: when the local path is empty and no remote pointer
/// object exists, the machine reaches exactly the state that creates an
/// empty local engine, and no state it passes through or can ever reach
/// asks for a download — the one remote operation on this route is the
/// listing that probed for the pointer object.
pub proof fn lemma_fresh_bootstrap_no_download(
    name: Seq<char>,
    events: Seq<BootstrapEvent>,
    a: BootstrapAction,
)
    requires
        events.len() >= 1 ==> events[0] == BootstrapEvent::LocalPresent(false),
        events.len() >= 2 ==> events[1] == BootstrapEvent::PointerPresent(false),
        action_matches(name, state_after(name, events), a),
    ensures
        !is_download_action(a),
        events.len() == 2 ==> state_after(name, events) == (BootstrapState::Open {
            pending: None,
        }),
{
    if events.len() == 0 {
    } else if events.len() == 1 {
        assert(events.drop_last() =~= Seq::<BootstrapEvent>::empty());
        assert(state_after(name, Seq::<BootstrapEvent>::empty()) == BootstrapState::CheckLocal);
        assert(events.last() == events[0]);
        assert(state_after(name, events) == BootstrapState::CheckPointer);
    } else {
        lemma_fresh_route(name, events);
        lemma_local_route_action(name, state_after(name, events), a);
        if events.len() == 2 {
            let first = events.drop_last();
            assert(first =~= seq![events[0]]);
            assert(first.drop_last() =~= Seq::<BootstrapEvent>::empty());
            assert(state_after(name, Seq::<BootstrapEvent>::empty())
                == BootstrapState::CheckLocal);
            assert(first.last() == events[0]);
            assert(state_after(name, first) == BootstrapState::CheckPointer);
            assert(events.last() == events[1]);
        }
    }
}

} // verus!
