//! The cleanup engine: for one cache location, the sequence
//! existence check → size measurement → authorization → deletion →
//! optional recreation → outcome, as a state machine.
//!
//! The engine decides; the caller acts. The caller asks the run for its next
//! action, performs it (checks the path, measures it, asks the user, removes
//! files), and hands the result back as an event. A dry run only ever asks
//! for the existence check and the measurement.

use crate::registry::{CacheCategory, Removal};
use vstd::prelude::*;

verus! {

/// How one cleanup target ended.
#[derive(Debug, Clone, Copy, PartialEq, Eq, Structural)]
pub enum TargetStatus {
    /// Absent, too small, declined, or only measured (dry run).
    Skipped,
    /// Removed whole, or cleaned by its own tool.
    Deleted,
    /// Whole removal failed; some files were removed one by one.
    PartiallyDeleted,
    /// Nothing could be removed.
    Failed,
}

/// The result of one cleanup target. In a dry run `bytes_freed` is the size
/// that would be freed, and `attempted` is false. For a target cleaned by its
/// own tool, that figure is the whole measured size: an upper bound, since
/// the tool may leave part of it in place.
#[derive(Debug, Clone, Copy, PartialEq, Eq, Structural)]
pub struct CleanupOutcome {
    pub status: TargetStatus,
    pub bytes_freed: u64,
    pub attempted: bool,
    pub succeeded: bool,
}

/// How a cleanup target is to be handled.
#[derive(Debug, Clone, Copy, PartialEq, Eq, Structural)]
pub struct TargetConfig {
    pub category: CacheCategory,
    pub removal: Removal,
    /// Measure and report only.
    pub dry_run: bool,
    /// Blanket authorization: no per-target confirmation is asked.
    pub authorized: bool,
    /// Sizes at or below this are not worth cleaning: the target is skipped.
    pub floor: u64,
}

/// Where a cleanup target stands.
#[derive(Debug, Clone, Copy, PartialEq, Eq, Structural)]
pub enum CleanupState {
    Unmeasured,
    /// The path exists and is to be measured.
    Located,
    /// Measured at `bytes`; waiting for the user's answer.
    AwaitingConfirmation { bytes: u64 },
    RemovingTree { bytes: u64 },
    RemovingFiles { bytes: u64 },
    RunningTool { bytes: u64 },
    Remeasuring { bytes: u64 },
    Recreating { bytes: u64 },
    Done { outcome: CleanupOutcome },
}

/// What the caller is to do next.
#[derive(Debug, Clone, Copy, PartialEq, Eq, Structural)]
pub enum CleanupAction {
    /// Report whether the path exists: `Exists`.
    CheckExists,
    /// Report the size of the path: `Measured`.
    Measure,
    /// Ask the user whether to clean `bytes`: `Answered`.
    Confirm { bytes: u64 },
    /// Remove the whole subtree: `TreeRemoved`.
    RemoveTree,
    /// Remove each regular file on its own: `FilesRemoved` with the bytes removed.
    RemoveFiles,
    /// Run the category's cleaning tool: `ToolFinished`.
    RunTool,
    /// Measure the path again after the tool ran (zero when gone): `Measured`.
    Remeasure,
    /// Create the now-removed directory again, best effort: `Recreated`.
    Recreate,
    /// Nothing left to do; the outcome is in the state.
    Finished,
}

/// What the caller observed when it performed an action.
#[derive(Debug, Clone, Copy, PartialEq, Eq, Structural)]
pub enum CleanupEvent {
    Exists(bool),
    Measured(u64),
    Answered(bool),
    TreeRemoved(bool),
    FilesRemoved(u64),
    ToolFinished(bool),
    Recreated(bool),
}

/// The floor of a registry entry of the category: developer-tool caches of
/// 1 MiB or less are not worth cleaning; any other non-empty cache is.
pub open spec fn size_floor(c: CacheCategory) -> u64 {
    match c {
        CacheCategory::DevToolCache => 1048576,
        _ => 0,
    }
}

/// System-managed cache roots are recreated after removal.
pub open spec fn recreates(c: CacheCategory) -> bool {
    c == CacheCategory::SystemCache
}

pub open spec fn outcome(status: TargetStatus, bytes: u64, attempted: bool) -> CleanupOutcome {
    CleanupOutcome {
        status,
        bytes_freed: bytes,
        attempted,
        succeeded: attempted && (status == TargetStatus::Deleted || status
            == TargetStatus::PartiallyDeleted),
    }
}

pub open spec fn skipped() -> CleanupState {
    CleanupState::Done { outcome: outcome(TargetStatus::Skipped, 0, false) }
}

pub open spec fn removal_start(cfg: TargetConfig, bytes: u64) -> CleanupState {
    match cfg.removal {
        Removal::DeleteTree => CleanupState::RemovingTree { bytes },
        Removal::Tool(_) => CleanupState::RunningTool { bytes },
    }
}

/// The action that each state asks of the caller.
pub open spec fn action_of(s: CleanupState) -> CleanupAction {
    match s {
        CleanupState::Unmeasured => CleanupAction::CheckExists,
        CleanupState::Located => CleanupAction::Measure,
        CleanupState::AwaitingConfirmation { bytes } => CleanupAction::Confirm { bytes },
        CleanupState::RemovingTree { .. } => CleanupAction::RemoveTree,
        CleanupState::RemovingFiles { .. } => CleanupAction::RemoveFiles,
        CleanupState::RunningTool { .. } => CleanupAction::RunTool,
        CleanupState::Remeasuring { .. } => CleanupAction::Remeasure,
        CleanupState::Recreating { .. } => CleanupAction::Recreate,
        CleanupState::Done { .. } => CleanupAction::Finished,
    }
}

/// The state after the caller reports `e` in state `s`. An event that does
/// not answer the state's action changes nothing.
pub open spec fn after(cfg: TargetConfig, s: CleanupState, e: CleanupEvent) -> CleanupState {
    match (s, e) {
        (CleanupState::Unmeasured, CleanupEvent::Exists(found)) => {
            if found {
                CleanupState::Located
            } else {
                skipped()
            }
        },
        (CleanupState::Located, CleanupEvent::Measured(bytes)) => {
            if bytes <= cfg.floor {
                skipped()
            } else if cfg.dry_run {
                CleanupState::Done { outcome: outcome(TargetStatus::Skipped, bytes, false) }
            } else if cfg.authorized {
                removal_start(cfg, bytes)
            } else {
                CleanupState::AwaitingConfirmation { bytes }
            }
        },
        (CleanupState::AwaitingConfirmation { bytes }, CleanupEvent::Answered(yes)) => {
            if yes {
                removal_start(cfg, bytes)
            } else {
                skipped()
            }
        },
        (CleanupState::RemovingTree { bytes }, CleanupEvent::TreeRemoved(ok)) => {
            if !ok {
                CleanupState::RemovingFiles { bytes }
            } else if recreates(cfg.category) {
                CleanupState::Recreating { bytes }
            } else {
                CleanupState::Done { outcome: outcome(TargetStatus::Deleted, bytes, true) }
            }
        },
        (CleanupState::RemovingFiles { bytes }, CleanupEvent::FilesRemoved(removed)) => {
            let freed = if removed < bytes {
                removed
            } else {
                bytes
            };
            if freed == 0 {
                CleanupState::Done { outcome: outcome(TargetStatus::Failed, 0, true) }
            } else {
                CleanupState::Done { outcome: outcome(TargetStatus::PartiallyDeleted, freed, true) }
            }
        },
        (CleanupState::RunningTool { bytes }, CleanupEvent::ToolFinished(ok)) => {
            if ok {
                CleanupState::Remeasuring { bytes }
            } else {
                CleanupState::Done { outcome: outcome(TargetStatus::Failed, 0, true) }
            }
        },
        (CleanupState::Remeasuring { bytes }, CleanupEvent::Measured(left)) => {
            let freed = if left < bytes {
                (bytes - left) as u64
            } else {
                0
            };
            CleanupState::Done { outcome: outcome(TargetStatus::Deleted, freed, true) }
        },
        (CleanupState::Recreating { bytes }, CleanupEvent::Recreated(_)) => {
            CleanupState::Done { outcome: outcome(TargetStatus::Deleted, bytes, true) }
        },
        _ => s,
    }
}

/// The state after the events `es`, from the start.
pub open spec fn run_state(cfg: TargetConfig, es: Seq<CleanupEvent>) -> CleanupState
    decreases es.len(),
{
    if es.len() == 0 {
        CleanupState::Unmeasured
    } else {
        after(cfg, run_state(cfg, es.drop_last()), es.last())
    }
}

/// Whether an action changes the file system.
pub open spec fn mutates(a: CleanupAction) -> bool {
    match a {
        CleanupAction::RemoveTree | CleanupAction::RemoveFiles | CleanupAction::RunTool
        | CleanupAction::Recreate => true,
        _ => false,
    }
}

/// The measured size that a state carries, if any.
pub open spec fn held_bytes(s: CleanupState) -> Option<u64> {
    match s {
        CleanupState::AwaitingConfirmation { bytes } => Some(bytes),
        CleanupState::RemovingTree { bytes } => Some(bytes),
        CleanupState::RemovingFiles { bytes } => Some(bytes),
        CleanupState::RunningTool { bytes } => Some(bytes),
        CleanupState::Remeasuring { bytes } => Some(bytes),
        CleanupState::Recreating { bytes } => Some(bytes),
        _ => None,
    }
}

/// The action that a state asks of the caller.
pub fn next_action(s: &CleanupState) -> (r: CleanupAction)
    ensures
        r == action_of(*s),
{
    match s {
        CleanupState::Unmeasured => CleanupAction::CheckExists,
        CleanupState::Located => CleanupAction::Measure,
        CleanupState::AwaitingConfirmation { bytes } => CleanupAction::Confirm { bytes: *bytes },
        CleanupState::RemovingTree { .. } => CleanupAction::RemoveTree,
        CleanupState::RemovingFiles { .. } => CleanupAction::RemoveFiles,
        CleanupState::RunningTool { .. } => CleanupAction::RunTool,
        CleanupState::Remeasuring { .. } => CleanupAction::Remeasure,
        CleanupState::Recreating { .. } => CleanupAction::Recreate,
        CleanupState::Done { .. } => CleanupAction::Finished,
    }
}

fn make_outcome(status: TargetStatus, bytes: u64, attempted: bool) -> (r: CleanupOutcome)
    ensures
        r == outcome(status, bytes, attempted),
{
    let succeeded = attempted && (match status {
        TargetStatus::Deleted | TargetStatus::PartiallyDeleted => true,
        _ => false,
    });
    CleanupOutcome { status, bytes_freed: bytes, attempted, succeeded }
}

fn start_removal(cfg: TargetConfig, bytes: u64) -> (r: CleanupState)
    ensures
        r == removal_start(cfg, bytes),
{
    match cfg.removal {
        Removal::DeleteTree => CleanupState::RemovingTree { bytes },
        Removal::Tool(_) => CleanupState::RunningTool { bytes },
    }
}

/// The state after the caller reports `e` in state `s`.
pub fn advance(cfg: TargetConfig, s: CleanupState, e: CleanupEvent) -> (r: CleanupState)
    ensures
        r == after(cfg, s, e),
{
    let skip = CleanupState::Done { outcome: make_outcome(TargetStatus::Skipped, 0, false) };
    match (s, e) {
        (CleanupState::Unmeasured, CleanupEvent::Exists(found)) => {
            if found {
                CleanupState::Located
            } else {
                skip
            }
        },
        (CleanupState::Located, CleanupEvent::Measured(bytes)) => {
            if bytes <= cfg.floor {
                skip
            } else if cfg.dry_run {
                CleanupState::Done { outcome: make_outcome(TargetStatus::Skipped, bytes, false) }
            } else if cfg.authorized {
                start_removal(cfg, bytes)
            } else {
                CleanupState::AwaitingConfirmation { bytes }
            }
        },
        (CleanupState::AwaitingConfirmation { bytes }, CleanupEvent::Answered(yes)) => {
            if yes {
                start_removal(cfg, bytes)
            } else {
                skip
            }
        },
        (CleanupState::RemovingTree { bytes }, CleanupEvent::TreeRemoved(ok)) => {
            if !ok {
                CleanupState::RemovingFiles { bytes }
            } else if cfg.category == CacheCategory::SystemCache {
                CleanupState::Recreating { bytes }
            } else {
                CleanupState::Done { outcome: make_outcome(TargetStatus::Deleted, bytes, true) }
            }
        },
        (CleanupState::RemovingFiles { bytes }, CleanupEvent::FilesRemoved(removed)) => {
            let freed = if removed < bytes {
                removed
            } else {
                bytes
            };
            if freed == 0 {
                CleanupState::Done { outcome: make_outcome(TargetStatus::Failed, 0, true) }
            } else {
                CleanupState::Done {
                    outcome: make_outcome(TargetStatus::PartiallyDeleted, freed, true),
                }
            }
        },
        (CleanupState::RunningTool { bytes }, CleanupEvent::ToolFinished(ok)) => {
            if ok {
                CleanupState::Remeasuring { bytes }
            } else {
                CleanupState::Done { outcome: make_outcome(TargetStatus::Failed, 0, true) }
            }
        },
        (CleanupState::Remeasuring { bytes }, CleanupEvent::Measured(left)) => {
            let freed = if left < bytes {
                bytes - left
            } else {
                0
            };
            CleanupState::Done { outcome: make_outcome(TargetStatus::Deleted, freed, true) }
        },
        (CleanupState::Recreating { bytes }, CleanupEvent::Recreated(_)) => {
            CleanupState::Done { outcome: make_outcome(TargetStatus::Deleted, bytes, true) }
        },
        _ => s,
    }
}


/// A cleanup of one target in progress.
pub struct TargetRun {
    pub config: TargetConfig,
    pub state: CleanupState,
}

impl TargetRun {
    /// A run that has not looked at the target yet.
    pub fn new(config: TargetConfig) -> (r: TargetRun)
        ensures
            r.config == config,
            r.state == CleanupState::Unmeasured,
    {
        TargetRun { config, state: CleanupState::Unmeasured }
    }

    pub fn action(&self) -> (r: CleanupAction)
        ensures
            r == action_of(self.state),
    {
        next_action(&self.state)
    }

    /// Takes in what the caller observed when performing the last action.
    pub fn handle(&mut self, e: CleanupEvent)
        ensures
            final(self).config == old(self).config,
            final(self).state == after(old(self).config, old(self).state, e),
    {
        self.state = advance(self.config, self.state, e);
    }

    /// The outcome, once the run is finished.
    pub fn outcome(&self) -> (r: Option<CleanupOutcome>)
        ensures
            match self.state {
                CleanupState::Done { outcome } => r == Some(outcome),
                _ => r is None,
            },
    {
        match self.state {
            CleanupState::Done { outcome } => Some(outcome),
            _ => None,
        }
    }
}

/// The size measured in the run of `es`: the `Measured` event taken in by the
/// `Located` state.
pub open spec fn run_measured(cfg: TargetConfig, es: Seq<CleanupEvent>) -> Option<u64>
    decreases es.len(),
{
    if es.len() == 0 {
        None
    } else if run_state(cfg, es.drop_last()) == CleanupState::Located && es.last() is Measured {
        Some(es.last()->Measured_0)
    } else {
        run_measured(cfg, es.drop_last())
    }
}

proof fn lemma_run_push(cfg: TargetConfig, es: Seq<CleanupEvent>, e: CleanupEvent)
    ensures
        run_state(cfg, es.push(e)) == after(cfg, run_state(cfg, es), e),
        run_measured(cfg, es.push(e)) == (if run_state(cfg, es) == CleanupState::Located
            && e is Measured {
            Some(e->Measured_0)
        } else {
            run_measured(cfg, es)
        }),
{
    assert(es.push(e).drop_last() =~= es);
}

/// A dry run never asks for anything that changes the file system: whatever
/// the caller reports, its every action is an existence check, a
/// measurement, or the end.
pub proof fn lemma_dry_run_only_looks(cfg: TargetConfig, es: Seq<CleanupEvent>)
    requires
        cfg.dry_run,
    ensures
        !mutates(action_of(run_state(cfg, es))),
        run_state(cfg, es) is Unmeasured || run_state(cfg, es) is Located || run_state(
            cfg,
            es,
        ) is Done,
    decreases es.len(),
{
    if es.len() > 0 {
        lemma_dry_run_only_looks(cfg, es.drop_last());
        assert(es.drop_last().push(es.last()) =~= es);
        lemma_run_push(cfg, es.drop_last(), es.last());
    }
}

/// Once a system cache's tree has been removed whole, the next action is to
/// create the directory again, and the target then ends deleted with its
/// measured size freed, whether or not the creation succeeded.
pub proof fn lemma_system_cache_recreated(
    cfg: TargetConfig,
    es: Seq<CleanupEvent>,
    bytes: u64,
    created: bool,
)
    requires
        cfg.category == CacheCategory::SystemCache,
        run_state(cfg, es) == (CleanupState::RemovingTree { bytes }),
    ensures
        action_of(run_state(cfg, es.push(CleanupEvent::TreeRemoved(true))))
            == CleanupAction::Recreate,
        run_state(
            cfg,
            es.push(CleanupEvent::TreeRemoved(true)).push(CleanupEvent::Recreated(created)),
        ) == (CleanupState::Done { outcome: outcome(TargetStatus::Deleted, bytes, true) }),
{
    lemma_run_push(cfg, es, CleanupEvent::TreeRemoved(true));
    lemma_run_push(cfg, es.push(CleanupEvent::TreeRemoved(true)), CleanupEvent::Recreated(created));
}

/// A run never reports more bytes freed than it measured: the size measured
/// is carried unchanged to the end, and every outcome frees at most that.
pub proof fn lemma_freed_within_measured(cfg: TargetConfig, es: Seq<CleanupEvent>)
    ensures
        held_bytes(run_state(cfg, es)) is Some ==> run_measured(cfg, es) == held_bytes(
            run_state(cfg, es),
        ),
        run_state(cfg, es) is Done ==> (run_state(cfg, es)->outcome.bytes_freed == 0 || (
        run_measured(cfg, es) is Some && run_state(cfg, es)->outcome.bytes_freed <= run_measured(
            cfg,
            es,
        )->0)),
    decreases es.len(),
{
    if es.len() > 0 {
        let init = es.drop_last();
        lemma_freed_within_measured(cfg, init);
        assert(init.push(es.last()) =~= es);
        lemma_run_push(cfg, init, es.last());
    }
}

/// The bytes freed by the outcomes that succeeded.
pub open spec fn freed_total(os: Seq<CleanupOutcome>) -> nat
    decreases os.len(),
{
    if os.len() == 0 {
        0
    } else {
        freed_total(os.drop_last()) + if os.last().succeeded {
            os.last().bytes_freed as nat
        } else {
            0
        }
    }
}

/// `n`, or the largest `u64` when `n` does not fit.
pub open spec fn capped(n: nat) -> u64 {
    if n > u64::MAX {
        u64::MAX
    } else {
        n as u64
    }
}

/// The aggregate of a batch: the bytes freed by the targets that succeeded.
pub fn total_freed(outcomes: &Vec<CleanupOutcome>) -> (r: u64)
    ensures
        r == capped(freed_total(outcomes@)),
{
    let mut acc: u64 = 0;
    let mut i: usize = 0;
    while i < outcomes.len()
        invariant
            i <= outcomes.len(),
            acc == capped(freed_total(outcomes@.take(i as int))),
        decreases outcomes.len() - i,
    {
        assert(outcomes@.take(i + 1).drop_last() =~= outcomes@.take(i as int));
        if outcomes[i].succeeded {
            acc = acc.saturating_add(outcomes[i].bytes_freed);
        }
        i = i + 1;
    }
    assert(outcomes@.take(outcomes.len() as int) =~= outcomes@);
    acc
}

/// The bytes that the outcomes report: freed by the targets that succeeded,
/// or, in a dry run, the sizes that would be freed.
pub open spec fn reported_total(os: Seq<CleanupOutcome>) -> nat
    decreases os.len(),
{
    if os.len() == 0 {
        0
    } else {
        reported_total(os.drop_last()) + os.last().bytes_freed as nat
    }
}

/// What a batch reports: freed, or in a dry run the bytes that would be freed.
pub fn total_reported(outcomes: &Vec<CleanupOutcome>) -> (r: u64)
    ensures
        r == capped(reported_total(outcomes@)),
{
    let mut acc: u64 = 0;
    let mut i: usize = 0;
    while i < outcomes.len()
        invariant
            i <= outcomes.len(),
            acc == capped(reported_total(outcomes@.take(i as int))),
        decreases outcomes.len() - i,
    {
        assert(outcomes@.take(i + 1).drop_last() =~= outcomes@.take(i as int));
        acc = acc.saturating_add(outcomes[i].bytes_freed);
        i = i + 1;
    }
    assert(outcomes@.take(outcomes.len() as int) =~= outcomes@);
    acc
}

/// A finished target reports bytes only when it succeeded or was only
/// measured: an absent, declined or failed target reports none.
pub proof fn lemma_reported_bytes_freed_or_measured(cfg: TargetConfig, es: Seq<CleanupEvent>)
    ensures
        run_state(cfg, es) is Done && run_state(cfg, es)->outcome.bytes_freed > 0 ==> (run_state(
            cfg,
            es,
        )->outcome.succeeded || (!run_state(cfg, es)->outcome.attempted && cfg.dry_run)),
    decreases es.len(),
{
    if es.len() > 0 {
        let init = es.drop_last();
        lemma_reported_bytes_freed_or_measured(cfg, init);
        assert(init.push(es.last()) =~= es);
        lemma_run_push(cfg, init, es.last());
    }
}

/// One regular file met by the file-by-file pass.
#[derive(Debug, Clone, Copy, PartialEq, Eq, Structural)]
pub struct FileRemoval {
    pub bytes: u64,
    pub removed: bool,
}

/// The bytes of the files that were removed.
pub open spec fn removed_total(fs: Seq<FileRemoval>) -> nat
    decreases fs.len(),
{
    if fs.len() == 0 {
        0
    } else {
        removed_total(fs.drop_last()) + if fs.last().removed {
            fs.last().bytes as nat
        } else {
            0
        }
    }
}

/// What the file-by-file pass freed: the sizes of the files it removed; a
/// file that could not be removed counts nothing.
pub fn freed_by_file_pass(files: &Vec<FileRemoval>) -> (r: u64)
    ensures
        r == capped(removed_total(files@)),
{
    let mut acc: u64 = 0;
    let mut i: usize = 0;
    while i < files.len()
        invariant
            i <= files.len(),
            acc == capped(removed_total(files@.take(i as int))),
        decreases files.len() - i,
    {
        assert(files@.take(i + 1).drop_last() =~= files@.take(i as int));
        if files[i].removed {
            acc = acc.saturating_add(files[i].bytes);
        }
        i = i + 1;
    }
    assert(files@.take(files.len() as int) =~= files@);
    acc
}


/// The batch after the events `es`, from the start: the outcomes of the
/// finished targets, the state of the target in progress, the events that
/// each finished target took in, and those the target in progress took in.
/// Once every target is finished, further events change nothing.
pub open spec fn batch_fold(cs: Seq<TargetConfig>, es: Seq<CleanupEvent>) -> (
    Seq<CleanupOutcome>,
    CleanupState,
    Seq<Seq<CleanupEvent>>,
    Seq<CleanupEvent>,
)
    decreases es.len(),
{
    if es.len() == 0 {
        (Seq::empty(), CleanupState::Unmeasured, Seq::empty(), Seq::empty())
    } else {
        let (os, s, segs, cur) = batch_fold(cs, es.drop_last());
        let e = es.last();
        if os.len() >= cs.len() {
            (os, s, segs, cur)
        } else {
            let next = after(cs[os.len() as int], s, e);
            match next {
                CleanupState::Done { outcome } => (
                    os.push(outcome),
                    CleanupState::Unmeasured,
                    segs.push(cur.push(e)),
                    Seq::empty(),
                ),
                _ => (os, next, segs, cur.push(e)),
            }
        }
    }
}

/// In a batch every target runs as if alone: the outcome recorded for each
/// finished target is the outcome of that target's own run on the events it
/// took in, whatever became of the targets before it (absent, declined,
/// failed); and the target in progress stands where its own run stands.
pub proof fn lemma_batch_targets_run_alone(cs: Seq<TargetConfig>, es: Seq<CleanupEvent>)
    ensures
        ({
            let (os, s, segs, cur) = batch_fold(cs, es);
            &&& os.len() <= cs.len()
            &&& segs.len() == os.len()
            &&& forall|k: int|
                0 <= k < os.len() ==> run_state(cs[k], #[trigger] segs[k]) == (CleanupState::Done {
                    outcome: os[k],
                })
            &&& os.len() < cs.len() ==> s == run_state(cs[os.len() as int], cur) && !(s is Done)
        }),
    decreases es.len(),
{
    if es.len() > 0 {
        let init = es.drop_last();
        let e = es.last();
        lemma_batch_targets_run_alone(cs, init);
        let (os, s, segs, cur) = batch_fold(cs, init);
        if os.len() < cs.len() {
            let m = os.len() as int;
            lemma_run_push(cs[m], cur, e);
            let next = after(cs[m], s, e);
            if next is Done {
                let (os2, s2, segs2, cur2) = batch_fold(cs, es);
                assert(os2 == os.push(next->outcome));
                assert(segs2 == segs.push(cur.push(e)));
                assert forall|k: int| 0 <= k < os2.len() implies run_state(
                    cs[k],
                    #[trigger] segs2[k],
                ) == (CleanupState::Done { outcome: os2[k] }) by {
                    if k < m {
                        assert(segs2[k] == segs[k]);
                        assert(os2[k] == os[k]);
                    }
                }
                assert(run_state(cs[m + 1], Seq::<CleanupEvent>::empty()) == CleanupState::Unmeasured);
                assert(cur2 == Seq::<CleanupEvent>::empty());
            }
        }
    }
}

/// A cleanup over a list of targets, one after the other. Each target runs
/// on its own: whether one is absent, declined, or fails, the next one
/// starts afresh.
pub struct BatchRun {
    configs: Vec<TargetConfig>,
    outcomes: Vec<CleanupOutcome>,
    state: CleanupState,
    history: Ghost<Seq<CleanupEvent>>,
}

impl BatchRun {
    pub closed spec fn targets(&self) -> Seq<TargetConfig> {
        self.configs@
    }

    /// The outcomes of the targets finished so far, in order.
    pub closed spec fn finished(&self) -> Seq<CleanupOutcome> {
        self.outcomes@
    }

    /// The state of the target in progress.
    pub closed spec fn current(&self) -> CleanupState {
        self.state
    }

    /// The events taken in so far, in order.
    pub closed spec fn events(&self) -> Seq<CleanupEvent> {
        self.history@
    }

    pub open spec fn is_complete(&self) -> bool {
        self.finished().len() == self.targets().len()
    }

    /// The batch stands where `batch_fold` of its events puts it.
    pub open spec fn follows_events(&self) -> bool {
        &&& self.finished() == batch_fold(self.targets(), self.events()).0
        &&& self.current() == batch_fold(self.targets(), self.events()).1
    }

    pub closed spec fn wf(&self) -> bool {
        &&& self.outcomes@.len() <= self.configs@.len()
        &&& self.outcomes@.len() < self.configs@.len() ==> !(self.state is Done)
        &&& self.follows_events()
    }

    /// A batch over `configs`, with the first target not yet looked at.
    pub fn new(configs: Vec<TargetConfig>) -> (r: BatchRun)
        ensures
            r.wf(),
            r.targets() == configs@,
            r.finished() == Seq::<CleanupOutcome>::empty(),
            r.current() == CleanupState::Unmeasured,
            r.events() == Seq::<CleanupEvent>::empty(),
            r.follows_events(),
    {
        let r = BatchRun {
            configs,
            outcomes: Vec::new(),
            state: CleanupState::Unmeasured,
            history: Ghost(Seq::empty()),
        };
        assert(r.outcomes@ =~= Seq::<CleanupOutcome>::empty());
        r
    }

    /// The index of the target in progress and the action it asks for; none
    /// once every target is finished.
    pub fn pending(&self) -> (r: Option<(usize, CleanupAction)>)
        requires
            self.wf(),
        ensures
            match r {
                None => self.is_complete(),
                Some((i, a)) => !self.is_complete() && i == self.finished().len() && a
                    == action_of(self.current()),
            },
    {
        if self.outcomes.len() == self.configs.len() {
            None
        } else {
            Some((self.outcomes.len(), next_action(&self.state)))
        }
    }

    /// Takes in what the caller observed for the target in progress. When the
    /// target finishes, its outcome is recorded and the next target starts.
    pub fn handle(&mut self, e: CleanupEvent)
        requires
            old(self).wf(),
        ensures
            final(self).wf(),
            final(self).targets() == old(self).targets(),
            final(self).events() == old(self).events().push(e),
            final(self).follows_events(),
            old(self).is_complete() ==> final(self).finished() == old(self).finished(),
            !old(self).is_complete() ==> ({
                let next = after(
                    old(self).targets()[old(self).finished().len() as int],
                    old(self).current(),
                    e,
                );
                match next {
                    CleanupState::Done { outcome } => final(self).finished() == old(
                        self,
                    ).finished().push(outcome) && final(self).current()
                        == CleanupState::Unmeasured,
                    _ => final(self).finished() == old(self).finished() && final(self).current()
                        == next,
                }
            }),
    {
        let ghost es = self.history@;
        self.history = Ghost(es.push(e));
        assert(self.history@.drop_last() =~= es);
        let i = self.outcomes.len();
        if i == self.configs.len() {
            return;
        }
        let next = advance(self.configs[i], self.state, e);
        match next {
            CleanupState::Done { outcome } => {
                self.outcomes.push(outcome);
                self.state = CleanupState::Unmeasured;
            },
            _ => {
                self.state = next;
            },
        }
    }

    /// The outcomes of the targets finished so far.
    pub fn outcomes(&self) -> (r: &Vec<CleanupOutcome>)
        ensures
            r@ == self.finished(),
    {
        &self.outcomes
    }

    /// The aggregate so far: the bytes freed by the targets that succeeded.
    pub fn total(&self) -> (r: u64)
        ensures
            r == capped(freed_total(self.finished())),
    {
        total_freed(&self.outcomes)
    }
}

} // verus!
