//! The lifecycle controller: composing launch plans, and driving one close
//! operation as a state machine — graceful first, forceful only once
//! seventy percent of the time budget has elapsed. The embedding program
//! performs the actions (spawn, signal, sleep, re-snapshot) and reports the
//! observations back.

use vstd::prelude::*;

use crate::errors::{ErrorKind, OpError};
use crate::model::{spec_launch_args, Instance};
use crate::process::{
    has_proc, proc_of, snapshot_wf, spec_is_helper, spec_main_pids, spec_manual_match, CtxView,
    Platform, ProcView, ProcessRecord, ScanContext,
};

verus! {

/// Where a close operation stands.
#[derive(Clone, Copy, Debug, PartialEq, Eq, Structural)]
pub enum ClosePhase {
    /// The graceful signal was sent; the driver polls until the deadline.
    Polling,
    /// The deadline passed; the driver re-snapshots before the forceful
    /// signal, since new helpers may have spawned meanwhile.
    Escalated,
    /// The forceful signal was sent; one last liveness check remains after
    /// a short grace period.
    FinalCheck,
    /// The operation is complete.
    Done,
}

/// What the driver must do next.
pub enum CloseAction {
    /// Send the graceful termination signal to these root pids.
    SendGraceful(Vec<u32>),
    /// Wait this many milliseconds, then observe liveness and poll again.
    WaitPoll(u64),
    /// Take a fresh snapshot and hand the still-matching pids to
    /// `escalate`.
    Escalate,
    /// Send the forceful termination signal to these pids, wait a short
    /// grace period, then report the last liveness check.
    SendForceful(Vec<u32>),
    /// The operation is over with this outcome.
    Finished(Result<(), OpError>),
}

/// One close operation's state.
pub struct CloseSession {
    pub budget_ms: u64,
    pub phase: ClosePhase,
    pub escalated_elapsed_ms: u64,
}

/// The graceful deadline: seventy percent of the budget, rounded down as
/// the controller computes it.
pub open spec fn graceful_deadline(budget_ms: u64) -> int {
    (budget_ms * 7) / 10
}

/// A session never reaches the escalated phases before the deadline.
pub open spec fn session_wf(s: CloseSession) -> bool {
    (s.phase == ClosePhase::Escalated || s.phase == ClosePhase::FinalCheck)
        ==> s.escalated_elapsed_ms as int >= graceful_deadline(s.budget_ms)
}

impl CloseSession {
    /// Opens a close attempt over the root pids observed now. With no live
    /// root the operation is already complete — success, and no signal is
    /// ever sent.
    pub fn begin(roots: &Vec<u32>, budget_ms: u64) -> (r: (CloseSession, CloseAction))
        requires
            budget_ms <= u64::MAX / 7,
        ensures
            r.0.budget_ms == budget_ms,
            session_wf(r.0),
            roots@.len() == 0 ==> r.0.phase == ClosePhase::Done && (r.1 matches
                CloseAction::Finished(res) && res is Ok),
            roots@.len() > 0 ==> r.0.phase == ClosePhase::Polling && (r.1 matches
                CloseAction::SendGraceful(p) && p@ == roots@),
    {
        if roots.len() == 0 {
            (
                CloseSession { budget_ms, phase: ClosePhase::Done, escalated_elapsed_ms: 0 },
                CloseAction::Finished(Ok(())),
            )
        } else {
            (
                CloseSession { budget_ms, phase: ClosePhase::Polling, escalated_elapsed_ms: 0 },
                CloseAction::SendGraceful(roots.clone()),
            )
        }
    }

    /// One poll during the graceful phase. The application gone means
    /// success; before the deadline the driver keeps polling at the fixed
    /// interval; at or past the deadline the session escalates — never
    /// earlier.
    pub fn poll(&mut self, elapsed_ms: u64, still_running: bool) -> (r: CloseAction)
        requires
            old(self).phase == ClosePhase::Polling,
            old(self).budget_ms <= u64::MAX / 7,
        ensures
            final(self).budget_ms == old(self).budget_ms,
            session_wf(*final(self)),
            !still_running ==> final(self).phase == ClosePhase::Done && (r matches
                CloseAction::Finished(res) && res is Ok),
            still_running && (elapsed_ms as int) < graceful_deadline(old(self).budget_ms)
                ==> final(self).phase == ClosePhase::Polling && r == CloseAction::WaitPoll(500u64),
            still_running && (elapsed_ms as int) >= graceful_deadline(old(self).budget_ms)
                ==> final(self).phase == ClosePhase::Escalated
                && final(self).escalated_elapsed_ms == elapsed_ms && r == CloseAction::Escalate,
    {
        if !still_running {
            self.phase = ClosePhase::Done;
            return CloseAction::Finished(Ok(()));
        }
        let deadline = (self.budget_ms * 7) / 10;
        if elapsed_ms < deadline {
            CloseAction::WaitPoll(500)
        } else {
            self.phase = ClosePhase::Escalated;
            self.escalated_elapsed_ms = elapsed_ms;
            CloseAction::Escalate
        }
    }

    /// The forceful signal, aimed at every still-matching process of the
    /// fresh snapshot. Only reachable once the deadline has passed.
    pub fn escalate(&mut self, remaining: &Vec<u32>) -> (r: CloseAction)
        requires
            old(self).phase == ClosePhase::Escalated,
            session_wf(*old(self)),
        ensures
            final(self).budget_ms == old(self).budget_ms,
            final(self).escalated_elapsed_ms == old(self).escalated_elapsed_ms,
            final(self).phase == ClosePhase::FinalCheck,
            session_wf(*final(self)),
            r matches CloseAction::SendForceful(p) && p@ == remaining@,
    {
        self.phase = ClosePhase::FinalCheck;
        CloseAction::SendForceful(remaining.clone())
    }

    /// The last liveness check after the forceful signal and grace period:
    /// failure is reported only if the application is still detected.
    pub fn final_check(&mut self, still_running: bool) -> (r: CloseAction)
        requires
            old(self).phase == ClosePhase::FinalCheck,
        ensures
            final(self).phase == ClosePhase::Done,
            session_wf(*final(self)),
            !still_running ==> (r matches CloseAction::Finished(res) && res is Ok),
            still_running ==> (r matches CloseAction::Finished(res) && res matches Err(e)
                && e.kind == ErrorKind::Termination),
    {
        self.phase = ClosePhase::Done;
        if still_running {
            CloseAction::Finished(
                Err(
                    OpError::new(
                        ErrorKind::Termination,
                        "Unable to close Antigravity process, please close manually and retry".to_owned(),
                    ),
                ),
            )
        } else {
            CloseAction::Finished(Ok(()))
        }
    }
}

/// A pid whose record is known and not a helper: a candidate for the main
/// process of a running copy.
pub open spec fn spec_main_candidate(procs: Seq<ProcView>, pid: u32) -> bool {
    has_proc(procs, pid) && !spec_is_helper(proc_of(procs, pid))
}

/// A candidate that also matches the user-configured executable path.
pub open spec fn spec_manual_candidate(procs: Seq<ProcView>, pid: u32, ctx: CtxView) -> bool {
    spec_main_candidate(procs, pid) && spec_manual_match(proc_of(procs, pid), ctx)
}

/// The pid to aim the graceful signal at, among the application's pids: a
/// candidate matching the manual override when one exists, else some
/// non-helper candidate; nothing when every pid is a helper or unknown.
pub fn identify_main_pid(
    snapshot: &Vec<ProcessRecord>,
    ctx: &ScanContext,
    pids: &Vec<u32>,
) -> (r: Option<u32>)
    requires
        snapshot_wf(snapshot.deep_view()),
    ensures
        match r {
            Some(p) => pids@.contains(p) && spec_main_candidate(snapshot.deep_view(), p),
            None => forall|t: int|
                0 <= t < pids@.len() ==> !spec_main_candidate(
                    snapshot.deep_view(),
                    #[trigger] pids@[t],
                ),
        },
        (exists|t: int|
            0 <= t < pids@.len() && spec_manual_candidate(
                snapshot.deep_view(),
                #[trigger] pids@[t],
                ctx@,
            )) ==> r is Some && spec_manual_candidate(snapshot.deep_view(), r->0, ctx@),
{
    let ghost procs = snapshot.deep_view();
    let mut fallback: Option<u32> = None;
    let mut t: usize = 0;
    while t < pids.len()
        invariant
            t <= pids.len(),
            snapshot_wf(procs),
            procs == snapshot.deep_view(),
            procs.len() == snapshot.len(),
            forall|j: int| 0 <= j < snapshot.len() ==> procs[j] == snapshot[j]@,
            forall|s: int| 0 <= s < t ==> !spec_manual_candidate(procs, #[trigger] pids@[s], ctx@),
            match fallback {
                Some(f) => pids@.contains(f) && spec_main_candidate(procs, f),
                None => forall|s: int|
                    0 <= s < t ==> !spec_main_candidate(procs, #[trigger] pids@[s]),
            },
        decreases pids.len() - t,
    {
        let pid = pids[t];
        match crate::process::find_proc(snapshot, pid) {
            Some(k) => {
                proof {
                    let gk = choose|gk: int| 0 <= gk < procs.len() && procs[gk].pid == pid;
                    assert(procs[gk].pid == pid);
                    assert(gk == k as int);
                    assert(proc_of(procs, pid) == procs[k as int]);
                }
                if !crate::process::is_helper_process(&snapshot[k]) {
                    proof {
                        assert(pids@[t as int] == pid);
                        assert(pids@.contains(pid));
                    }
                    if crate::process::manual_match(&snapshot[k], ctx) {
                        return Some(pid);
                    }
                    if fallback.is_none() {
                        fallback = Some(pid);
                    }
                }
            },
            None => {},
        }
        t = t + 1;
    }
    fallback
}

/// Opens the close of the whole application: the graceful signal aims at
/// one identified main process when there is one — letting it coordinate
/// its own children's shutdown — else at every detected pid; with nothing
/// detected the close is already complete and no signal is sent.
pub fn close_antigravity(
    snapshot: &Vec<ProcessRecord>,
    ctx: &ScanContext,
    excluded: &Vec<u32>,
    budget_ms: u64,
) -> (r: (CloseSession, CloseAction))
    requires
        snapshot_wf(snapshot.deep_view()),
        budget_ms <= u64::MAX / 7,
    ensures
        r.0.budget_ms == budget_ms,
        session_wf(r.0),
        spec_main_pids(snapshot.deep_view(), ctx@, excluded@).len() == 0 ==> r.0.phase
            == ClosePhase::Done && (r.1 matches CloseAction::Finished(res) && res is Ok),
        spec_main_pids(snapshot.deep_view(), ctx@, excluded@).len() > 0 ==> r.0.phase
            == ClosePhase::Polling && (r.1 matches CloseAction::SendGraceful(targets) && {
            let pids = spec_main_pids(snapshot.deep_view(), ctx@, excluded@);
            ||| (exists|m: u32|
                targets@ =~= seq![m] && pids.contains(m) && spec_main_candidate(
                    snapshot.deep_view(),
                    m,
                ))
            ||| (targets@ == pids && forall|t: int|
                0 <= t < pids.len() ==> !spec_main_candidate(snapshot.deep_view(), #[trigger] pids[t]))
        }),
{
    let pids = crate::process::get_antigravity_pids(snapshot, ctx, excluded);
    if pids.len() == 0 {
        return CloseSession::begin(&pids, budget_ms);
    }
    let main = identify_main_pid(snapshot, ctx, &pids);
    match main {
        Some(m) => {
            let mut targets: Vec<u32> = Vec::new();
            targets.push(m);
            let r = CloseSession::begin(&targets, budget_ms);
            proof {
                assert(targets@ =~= seq![m]);
            }
            r
        },
        None => CloseSession::begin(&pids, budget_ms),
    }
}

/// The program and arguments one spawn runs.
#[derive(Debug)]
pub struct StartPlan {
    pub program: String,
    pub args: Vec<String>,
}

/// Composes the spawn of one instance: the instance's own executable
/// override wins, else the path discovered from a running process or the
/// standard locations; the arguments are the instance's launch arguments.
/// Fails exactly when no executable can be resolved.
pub fn start_instance(instance: &Instance, resolved_exe: Option<String>) -> (r: Result<
    StartPlan,
    OpError,
>)
    ensures
        match r {
            Ok(plan) => {
                &&& plan.program@ == (if instance@.antigravity_executable is Some {
                    instance@.antigravity_executable->0
                } else {
                    resolved_exe.deep_view()->0
                })
                &&& (instance@.antigravity_executable is None ==> resolved_exe is Some)
                &&& plan.args.deep_view() == spec_launch_args(instance@)
            },
            Err(e) => e.kind == ErrorKind::Launch && instance@.antigravity_executable is None
                && resolved_exe is None,
        },
{
    let program: String = match &instance.antigravity_executable {
        Some(p) => p.clone(),
        None => match resolved_exe {
            Some(p) => p,
            None => {
                return Err(
                    OpError::new(
                        ErrorKind::Launch,
                        "Cannot find Antigravity executable".to_owned(),
                    ),
                );
            },
        },
    };
    let args = instance.get_launch_args();
    Ok(StartPlan { program, args })
}

/// Composes the spawn of one instance with explicitly given arguments, for
/// a restart with the previously captured command line.
pub fn start_instance_with_args(
    instance: &Instance,
    args: Vec<String>,
    resolved_exe: Option<String>,
) -> (r: Result<StartPlan, OpError>)
    ensures
        match r {
            Ok(plan) => {
                &&& plan.program@ == (if instance@.antigravity_executable is Some {
                    instance@.antigravity_executable->0
                } else {
                    resolved_exe.deep_view()->0
                })
                &&& (instance@.antigravity_executable is None ==> resolved_exe is Some)
                &&& plan.args.deep_view() == args.deep_view()
            },
            Err(e) => e.kind == ErrorKind::Launch && instance@.antigravity_executable is None
                && resolved_exe is None,
        },
{
    let program: String = match &instance.antigravity_executable {
        Some(p) => p.clone(),
        None => match resolved_exe {
            Some(p) => p,
            None => {
                return Err(
                    OpError::new(
                        ErrorKind::Launch,
                        "Cannot find Antigravity executable".to_owned(),
                    ),
                );
            },
        },
    };
    Ok(StartPlan { program, args })
}

/// The saved launch arguments, or none.
pub open spec fn opt_args(o: Option<Seq<Seq<char>>>) -> Seq<Seq<char>> {
    match o {
        None => Seq::empty(),
        Some(a) => a,
    }
}

/// The program and arguments that start the whole application: the
/// corrected manual path when one exists on disk — a macOS bundle is opened
/// through the launcher — else the platform's own launch mechanism; the
/// saved arguments follow.
pub open spec fn spec_global_start(
    platform: Platform,
    manual_exe: Option<Seq<char>>,
    saved: Seq<Seq<char>>,
) -> (Seq<char>, Seq<Seq<char>>) {
    match platform {
        Platform::MacOs => match manual_exe {
            Some(m) => {
                let c = crate::text::spec_bundle_trim(m);
                if crate::text::ends_with_seq(c, ".app"@) {
                    ("open"@, seq!["-a"@, c] + saved)
                } else {
                    (c, saved)
                }
            },
            None => ("open"@, seq!["-a"@, "Antigravity"@] + saved),
        },
        Platform::Windows => match manual_exe {
            Some(m) => (m, saved),
            None => ("cmd"@, seq!["/C"@, "start"@, "antigravity://"@] + saved),
        },
        Platform::Linux => match manual_exe {
            Some(m) => (m, saved),
            None => ("antigravity"@, saved),
        },
    }
}

/// Composes the spawn that starts the whole application. The caller passes
/// the manual override only when its path exists on disk; a macOS path
/// inside an application bundle is corrected to the bundle root first.
pub fn start_antigravity(
    platform: Platform,
    manual_exe: &Option<String>,
    saved_args: &Option<Vec<String>>,
) -> (r: StartPlan)
    ensures
        r.program@ == spec_global_start(
            platform,
            manual_exe.deep_view(),
            opt_args(saved_args.deep_view()),
        ).0,
        r.args.deep_view() == spec_global_start(
            platform,
            manual_exe.deep_view(),
            opt_args(saved_args.deep_view()),
        ).1,
{
    let saved: Vec<String> = clone_args(saved_args);
    let ghost sv = opt_args(saved_args.deep_view());
    match platform {
        Platform::MacOs => {
            match manual_exe {
                Some(m) => {
                    let corrected = crate::text::bundle_trim(m.as_str());
                    if crate::text::ends_with_str(corrected.as_str(), ".app") {
                        let mut args: Vec<String> = Vec::new();
                        args.push("-a".to_owned());
                        args.push(corrected);
                        let mut rest = saved;
                        args.append(&mut rest);
                        proof {
                            assert(args.deep_view() =~= seq!["-a"@, crate::text::spec_bundle_trim(
                                m@,
                            )] + sv);
                        }
                        StartPlan { program: "open".to_owned(), args }
                    } else {
                        StartPlan { program: corrected, args: saved }
                    }
                },
                None => {
                    let mut args: Vec<String> = Vec::new();
                    args.push("-a".to_owned());
                    args.push("Antigravity".to_owned());
                    let mut rest = saved;
                    args.append(&mut rest);
                    proof {
                        assert(args.deep_view() =~= seq!["-a"@, "Antigravity"@] + sv);
                    }
                    StartPlan { program: "open".to_owned(), args }
                },
            }
        },
        Platform::Windows => {
            match manual_exe {
                Some(m) => StartPlan { program: m.clone(), args: saved },
                None => {
                    let mut args: Vec<String> = Vec::new();
                    args.push("/C".to_owned());
                    args.push("start".to_owned());
                    args.push("antigravity://".to_owned());
                    let mut rest = saved;
                    args.append(&mut rest);
                    proof {
                        assert(args.deep_view() =~= seq!["/C"@, "start"@, "antigravity://"@]
                            + sv);
                    }
                    StartPlan { program: "cmd".to_owned(), args }
                },
            }
        },
        Platform::Linux => {
            match manual_exe {
                Some(m) => StartPlan { program: m.clone(), args: saved },
                None => StartPlan { program: "antigravity".to_owned(), args: saved },
            }
        },
    }
}

/// A copy of the saved arguments, or an empty list.
fn clone_args(saved_args: &Option<Vec<String>>) -> (r: Vec<String>)
    ensures
        r.deep_view() == opt_args(saved_args.deep_view()),
{
    match saved_args {
        None => Vec::new(),
        Some(args) => {
            let mut out: Vec<String> = Vec::new();
            let mut i: usize = 0;
            while i < args.len()
                invariant
                    i <= args.len(),
                    args.deep_view().len() == args.len(),
                    forall|j: int| 0 <= j < args.len() ==> args.deep_view()[j] == args[j]@,
                    out.deep_view() == args.deep_view().take(i as int),
                decreases args.len() - i,
            {
                let ghost out0 = out.deep_view();
                let a = args[i].clone();
                out.push(a);
                proof {
                    assert(out.deep_view() =~= out0.push(args.deep_view()[i as int]));
                    assert(args.deep_view().take(i + 1) =~= out0.push(
                        args.deep_view()[i as int],
                    ));
                }
                i = i + 1;
            }
            proof {
                assert(args.deep_view().take(args.len() as int) =~= args.deep_view());
            }
            out
        },
    }
}

/// Opens the close of one instance: the graceful signal aims at every root
/// process the binder matches to the directory; with none matched the close
/// is already complete and no signal is sent.
pub fn close_instance(
    snapshot: &Vec<ProcessRecord>,
    self_pid: u32,
    user_data_dir: &str,
    default_data_dir: &Option<String>,
    budget_ms: u64,
) -> (r: (CloseSession, CloseAction))
    requires
        snapshot_wf(snapshot.deep_view()),
        budget_ms <= u64::MAX / 7,
    ensures
        r.0.budget_ms == budget_ms,
        session_wf(r.0),
        (forall|i: int|
            0 <= i < snapshot.deep_view().len() && crate::process::is_walk_source(
                #[trigger] snapshot.deep_view()[i],
                self_pid,
            ) ==> !crate::process::spec_root_matches_dir(
                snapshot.deep_view(),
                crate::process::spec_find_root(
                    snapshot.deep_view(),
                    snapshot.deep_view()[i].pid,
                    crate::process::walk_fuel(),
                ),
                user_data_dir@,
                default_data_dir.deep_view(),
            )) ==> r.0.phase == ClosePhase::Done && (r.1 matches CloseAction::Finished(res)
            && res is Ok),
        (exists|i: int|
            0 <= i < snapshot.deep_view().len() && crate::process::is_walk_source(
                #[trigger] snapshot.deep_view()[i],
                self_pid,
            ) && crate::process::spec_root_matches_dir(
                snapshot.deep_view(),
                crate::process::spec_find_root(
                    snapshot.deep_view(),
                    snapshot.deep_view()[i].pid,
                    crate::process::walk_fuel(),
                ),
                user_data_dir@,
                default_data_dir.deep_view(),
            )) ==> r.0.phase == ClosePhase::Polling && (r.1 matches CloseAction::SendGraceful(
            targets,
        ) && targets@.no_duplicates() && (forall|k: int|
            0 <= k < targets@.len() ==> crate::process::is_root_of_some(
                snapshot.deep_view(),
                self_pid,
                #[trigger] targets@[k],
            ) && crate::process::spec_root_matches_dir(
                snapshot.deep_view(),
                targets@[k],
                user_data_dir@,
                default_data_dir.deep_view(),
            )) && (forall|i: int|
            0 <= i < snapshot.deep_view().len() && crate::process::is_walk_source(
                #[trigger] snapshot.deep_view()[i],
                self_pid,
            ) && crate::process::spec_root_matches_dir(
                snapshot.deep_view(),
                crate::process::spec_find_root(
                    snapshot.deep_view(),
                    snapshot.deep_view()[i].pid,
                    crate::process::walk_fuel(),
                ),
                user_data_dir@,
                default_data_dir.deep_view(),
            ) ==> targets@.contains(
                crate::process::spec_find_root(
                    snapshot.deep_view(),
                    snapshot.deep_view()[i].pid,
                    crate::process::walk_fuel(),
                ),
            ))),
{
    let roots = crate::process::get_all_instance_root_pids(
        snapshot,
        self_pid,
        user_data_dir,
        default_data_dir,
    );
    proof {
        let ghost procs = snapshot.deep_view();
        if roots@.len() > 0 {
            assert(crate::process::is_root_of_some(procs, self_pid, roots@[0]));
        }
        if exists|i: int|
            0 <= i < procs.len() && crate::process::is_walk_source(
                #[trigger] procs[i],
                self_pid,
            ) && crate::process::spec_root_matches_dir(
                procs,
                crate::process::spec_find_root(procs, procs[i].pid, crate::process::walk_fuel()),
                user_data_dir@,
                default_data_dir.deep_view(),
            ) {
            let i = choose|i: int|
                0 <= i < procs.len() && crate::process::is_walk_source(
                    #[trigger] procs[i],
                    self_pid,
                ) && crate::process::spec_root_matches_dir(
                    procs,
                    crate::process::spec_find_root(
                        procs,
                        procs[i].pid,
                        crate::process::walk_fuel(),
                    ),
                    user_data_dir@,
                    default_data_dir.deep_view(),
                );
            assert(roots@.contains(
                crate::process::spec_find_root(procs, procs[i].pid, crate::process::walk_fuel()),
            ));
            assert(roots@.len() > 0);
        }
    }
    CloseSession::begin(&roots, budget_ms)
}

} // verus!
