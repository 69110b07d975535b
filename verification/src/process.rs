//! The process model: one snapshot of the live process table as plain
//! values, and the pure heuristics over it — classifying a process as a
//! main, helper or unrelated process, resolving helper chains to their root
//! process, and binding root processes to instance data directories.

use vstd::prelude::*;

use crate::text::{
    backslashed, bundle_match, contains_seq, contains_sub, join_spaces, lower_join, lower_of,
    lowercase, lowered_all, spec_bundle_match, str_eq,
};

verus! {

/// The mathematical content of a `ProcessRecord`.
pub ghost struct ProcView {
    pub pid: u32,
    pub parent_pid: Option<u32>,
    pub name: Seq<char>,
    pub exe_path: Seq<char>,
    pub args: Seq<Seq<char>>,
}

/// One process of a snapshot, as plain values: its pid, its parent's pid if
/// known, the process name, the executable path (empty when unknown), and
/// the command-line arguments.
pub struct ProcessRecord {
    pub pid: u32,
    pub parent_pid: Option<u32>,
    pub name: String,
    pub exe_path: String,
    pub args: Vec<String>,
}

impl View for ProcessRecord {
    type V = ProcView;

    open spec fn view(&self) -> ProcView {
        ProcView {
            pid: self.pid,
            parent_pid: self.parent_pid,
            name: self.name@,
            exe_path: self.exe_path@,
            args: self.args.deep_view(),
        }
    }
}

impl DeepView for ProcessRecord {
    type V = ProcView;

    open spec fn deep_view(&self) -> ProcView {
        self.view()
    }
}

/// The operating system family whose heuristics apply.
#[derive(Clone, Copy, Debug, PartialEq, Eq, Structural)]
pub enum Platform {
    MacOs,
    Windows,
    Linux,
}

/// The mathematical content of a `ScanContext`.
pub ghost struct CtxView {
    pub platform: Platform,
    pub self_pid: u32,
    pub self_exe: Option<Seq<char>>,
    pub manual_exe: Option<Seq<char>>,
}

/// What a scan needs to know about its surroundings: the platform, the
/// supervisor's own pid and canonical executable path (for self-exclusion),
/// and the user-configured executable override, if any.
pub struct ScanContext {
    pub platform: Platform,
    pub self_pid: u32,
    pub self_exe: Option<String>,
    pub manual_exe: Option<String>,
}

impl View for ScanContext {
    type V = CtxView;

    open spec fn view(&self) -> CtxView {
        CtxView {
            platform: self.platform,
            self_pid: self.self_pid,
            self_exe: self.self_exe.deep_view(),
            manual_exe: self.manual_exe.deep_view(),
        }
    }
}

/// A snapshot is well formed when its pids are unique, as in an OS process
/// table.
pub open spec fn snapshot_wf(procs: Seq<ProcView>) -> bool {
    forall|i: int, j: int| 0 <= i < j < procs.len() ==> procs[i].pid != procs[j].pid
}

/// Relies on sysinfo: `System::refresh_processes` with all processes
/// selected, then the per-process accessors `parent`, `name`, `exe` and
/// `cmd`, each converted to plain values. The process table keys the entries
/// by pid, so the pids are unique; nothing else can be promised of what the
/// machine reports.
#[verifier::external_body]
pub fn take_snapshot() -> (r: Vec<ProcessRecord>)
    ensures
        snapshot_wf(r.deep_view()),
{
    let mut system = sysinfo::System::new();
    system.refresh_processes(sysinfo::ProcessesToUpdate::All, true);
    let mut out = Vec::new();
    for (pid, p) in system.processes() {
        out.push(ProcessRecord {
            pid: pid.as_u32(),
            parent_pid: p.parent().map(|q| q.as_u32()),
            name: p.name().to_string_lossy().to_string(),
            exe_path: p.exe().map(|e| e.to_string_lossy().to_string()).unwrap_or_default(),
            args: p.cmd().iter().map(|a| a.to_string_lossy().to_string()).collect(),
        });
    }
    out
}

/// The lowercased process name.
pub open spec fn lower_name(p: ProcView) -> Seq<char> {
    lower_of(p.name)
}

/// The lowercased executable path.
pub open spec fn lower_exe(p: ProcView) -> Seq<char> {
    lower_of(p.exe_path)
}

/// The command line: every argument lowercased, joined with spaces.
pub open spec fn lower_cmdline(p: ProcView) -> Seq<char> {
    join_spaces(lowered_all(p.args))
}

/// The helper rule: a process-role marker in the command line, a helper
/// keyword in the process name, or the crash-handler marker in the
/// executable path.
pub open spec fn spec_is_helper(p: ProcView) -> bool {
    ||| contains_seq(lower_cmdline(p), "--type="@)
    ||| contains_seq(lower_name(p), "helper"@)
    ||| contains_seq(lower_name(p), "plugin"@)
    ||| contains_seq(lower_name(p), "renderer"@)
    ||| contains_seq(lower_name(p), "gpu"@)
    ||| contains_seq(lower_name(p), "crashpad"@)
    ||| contains_seq(lower_name(p), "utility"@)
    ||| contains_seq(lower_name(p), "audio"@)
    ||| contains_seq(lower_name(p), "sandbox"@)
    ||| contains_seq(lower_name(p), "language_server"@)
    ||| contains_seq(lower_exe(p), "crashpad"@)
}

/// Whether the process is a helper/renderer/GPU/crash-handler child.
pub fn is_helper_process(p: &ProcessRecord) -> (r: bool)
    ensures
        r == spec_is_helper(p@),
{
    let name_l = lowercase(p.name.as_str());
    let exe_l = lowercase(p.exe_path.as_str());
    let args_l = lower_join(&p.args);
    contains_sub(args_l.as_str(), "--type=") || contains_sub(name_l.as_str(), "helper")
        || contains_sub(name_l.as_str(), "plugin") || contains_sub(name_l.as_str(), "renderer")
        || contains_sub(name_l.as_str(), "gpu") || contains_sub(name_l.as_str(), "crashpad")
        || contains_sub(name_l.as_str(), "utility") || contains_sub(name_l.as_str(), "audio")
        || contains_sub(name_l.as_str(), "sandbox") || contains_sub(
        name_l.as_str(),
        "language_server",
    ) || contains_sub(exe_l.as_str(), "crashpad")
}

/// The platform rule for "belongs to the target application": bundle-path
/// containment on macOS, the exact lowercased executable name on Windows, a
/// name or path substring on Linux — there excluding the supervisor's own
/// product-name substring.
pub open spec fn spec_belongs_to_app(p: ProcView, platform: Platform) -> bool {
    match platform {
        Platform::MacOs => contains_seq(lower_exe(p), "antigravity.app"@),
        Platform::Windows => lower_name(p) == "antigravity.exe"@,
        Platform::Linux => (contains_seq(lower_name(p), "antigravity"@) || contains_seq(
            lower_exe(p),
            "/antigravity"@,
        )) && !contains_seq(lower_name(p), "tools"@),
    }
}

/// Whether the process belongs to the target application by the platform
/// rule.
pub fn belongs_to_app(p: &ProcessRecord, platform: Platform) -> (r: bool)
    ensures
        r == spec_belongs_to_app(p@, platform),
{
    let name_l = lowercase(p.name.as_str());
    let exe_l = lowercase(p.exe_path.as_str());
    match platform {
        Platform::MacOs => contains_sub(exe_l.as_str(), "antigravity.app"),
        Platform::Windows => str_eq(name_l.as_str(), "antigravity.exe"),
        Platform::Linux => (contains_sub(name_l.as_str(), "antigravity") || contains_sub(
            exe_l.as_str(),
            "/antigravity",
        )) && !contains_sub(name_l.as_str(), "tools"),
    }
}

/// The manual-override rule: the user-configured executable path matches the
/// process — on macOS by shared application-bundle root, elsewhere exactly.
pub open spec fn spec_manual_match(p: ProcView, ctx: CtxView) -> bool {
    match ctx.manual_exe {
        None => false,
        Some(m) => match ctx.platform {
            Platform::MacOs => spec_bundle_match(m, p.exe_path),
            _ => p.exe_path == m,
        },
    }
}

/// Whether the user-configured executable path matches the process.
pub fn manual_match(p: &ProcessRecord, ctx: &ScanContext) -> (r: bool)
    ensures
        r == spec_manual_match(p@, ctx@),
{
    match &ctx.manual_exe {
        None => false,
        Some(m) => match ctx.platform {
            Platform::MacOs => bundle_match(m.as_str(), p.exe_path.as_str()),
            _ => str_eq(p.exe_path.as_str(), m.as_str()),
        },
    }
}

/// The self-exclusion rule: the supervisor's own pid and executable path are
/// never classified as the target application.
pub open spec fn spec_excluded_self(p: ProcView, ctx: CtxView) -> bool {
    p.pid == ctx.self_pid || (ctx.self_exe is Some && p.exe_path == ctx.self_exe->0)
}

/// A main process of the target application: not the supervisor itself, not
/// a helper, and either matching the manual override or the platform rule.
pub open spec fn spec_is_main(p: ProcView, ctx: CtxView) -> bool {
    &&& !spec_excluded_self(p, ctx)
    &&& !spec_is_helper(p)
    &&& (spec_manual_match(p, ctx) || spec_belongs_to_app(p, ctx.platform))
}

/// Whether the process is a main process of the target application.
pub fn is_main_process(p: &ProcessRecord, ctx: &ScanContext) -> (r: bool)
    ensures
        r == spec_is_main(p@, ctx@),
{
    if p.pid == ctx.self_pid {
        return false;
    }
    match &ctx.self_exe {
        Some(e) => {
            if str_eq(p.exe_path.as_str(), e.as_str()) {
                return false;
            }
        },
        None => {},
    }
    if is_helper_process(p) {
        return false;
    }
    manual_match(p, ctx) || belongs_to_app(p, ctx.platform)
}

/// Some process of the snapshot is a main process of the target application.
pub open spec fn spec_any_main(procs: Seq<ProcView>, ctx: CtxView) -> bool {
    exists|i: int| 0 <= i < procs.len() && spec_is_main(procs[i], ctx)
}

/// Whether the target application is running at all: some process of the
/// snapshot classifies as one of its main processes.
pub fn is_antigravity_running(snapshot: &Vec<ProcessRecord>, ctx: &ScanContext) -> (r: bool)
    ensures
        r == spec_any_main(snapshot.deep_view(), ctx@),
{
    let ghost procs = snapshot.deep_view();
    let mut i: usize = 0;
    while i < snapshot.len()
        invariant
            i <= snapshot.len(),
            procs == snapshot.deep_view(),
            procs.len() == snapshot.len(),
            forall|j: int| 0 <= j < snapshot.len() ==> procs[j] == snapshot[j]@,
            forall|j: int| 0 <= j < i ==> !spec_is_main(procs[j], ctx@),
        decreases snapshot.len() - i,
    {
        if is_main_process(&snapshot[i], ctx) {
            proof {
                assert(spec_is_main(procs[i as int], ctx@));
            }
            return true;
        }
        i = i + 1;
    }
    false
}

/// The pids of the snapshot's main application processes, in snapshot
/// order, with the pids of `excluded` left out.
pub open spec fn spec_main_pids(procs: Seq<ProcView>, ctx: CtxView, excluded: Seq<u32>) -> Seq<
    u32,
>
    decreases procs.len(),
{
    if procs.len() == 0 {
        Seq::empty()
    } else {
        let rest = spec_main_pids(procs.drop_last(), ctx, excluded);
        if spec_is_main(procs.last(), ctx) && !excluded.contains(procs.last().pid) {
            rest.push(procs.last().pid)
        } else {
            rest
        }
    }
}

/// The pids of every main application process of the snapshot, skipping the
/// pids of `excluded` — on Linux, the caller passes its own process family.
pub fn get_antigravity_pids(
    snapshot: &Vec<ProcessRecord>,
    ctx: &ScanContext,
    excluded: &Vec<u32>,
) -> (r: Vec<u32>)
    ensures
        r@ == spec_main_pids(snapshot.deep_view(), ctx@, excluded@),
{
    let ghost procs = snapshot.deep_view();
    let mut out: Vec<u32> = Vec::new();
    let mut i: usize = 0;
    while i < snapshot.len()
        invariant
            i <= snapshot.len(),
            procs == snapshot.deep_view(),
            procs.len() == snapshot.len(),
            forall|j: int| 0 <= j < snapshot.len() ==> procs[j] == snapshot[j]@,
            out@ == spec_main_pids(procs.take(i as int), ctx@, excluded@),
        decreases snapshot.len() - i,
    {
        proof {
            assert(procs.take(i + 1).drop_last() =~= procs.take(i as int));
            assert(procs.take(i + 1).last() == procs[i as int]);
        }
        if is_main_process(&snapshot[i], ctx) && !contains_u32(excluded, snapshot[i].pid) {
            out.push(snapshot[i].pid);
        }
        i = i + 1;
    }
    proof {
        assert(procs.take(snapshot.len() as int) =~= procs);
    }
    out
}

/// Some record of the snapshot carries `pid`.
pub open spec fn has_proc(procs: Seq<ProcView>, pid: u32) -> bool {
    exists|i: int| 0 <= i < procs.len() && procs[i].pid == pid
}

/// The record carrying `pid`.
pub open spec fn proc_of(procs: Seq<ProcView>, pid: u32) -> ProcView {
    procs[choose|i: int| 0 <= i < procs.len() && procs[i].pid == pid]
}

/// The root-walk name rule: the lowercased name is the application's
/// executable name, or begins with the application name without carrying
/// the supervisor's product-name substring.
pub open spec fn spec_is_app_name(lname: Seq<char>) -> bool {
    ||| lname == "antigravity.exe"@
    ||| lname == "antigravity"@
    ||| (crate::text::starts_with_seq(lname, "antigravity"@) && !contains_seq(lname, "tools"@))
}

/// Whether the process name matches the root-walk name rule.
pub fn is_app_name(name: &str) -> (r: bool)
    ensures
        r == spec_is_app_name(lower_of(name@)),
{
    let l = lowercase(name);
    str_eq(l.as_str(), "antigravity.exe") || str_eq(l.as_str(), "antigravity")
        || (crate::text::starts_with_str(l.as_str(), "antigravity") && !contains_sub(
        l.as_str(),
        "tools",
    ))
}

/// The terminal ancestor of the walk from `pid`: parent links are followed
/// while the parent exists in the snapshot and matches the name rule, for
/// at most `fuel` hops; a missing record or parent ends the walk.
pub open spec fn spec_find_root(procs: Seq<ProcView>, pid: u32, fuel: nat) -> u32
    decreases fuel,
{
    if fuel == 0 || !has_proc(procs, pid) {
        pid
    } else {
        match proc_of(procs, pid).parent_pid {
            None => pid,
            Some(pp) => {
                if has_proc(procs, pp) && spec_is_app_name(lower_of(proc_of(procs, pp).name)) {
                    spec_find_root(procs, pp, (fuel - 1) as nat)
                } else {
                    pid
                }
            },
        }
    }
}

/// The bound on the ancestor walk, tolerating cyclic or missing data.
pub open spec fn walk_fuel() -> nat {
    10
}

/// The position of the record carrying `pid`, if any.
pub fn find_proc(snapshot: &Vec<ProcessRecord>, pid: u32) -> (r: Option<usize>)
    ensures
        match r {
            Some(i) => i < snapshot.len() && snapshot.deep_view()[i as int].pid == pid,
            None => !has_proc(snapshot.deep_view(), pid),
        },
{
    let mut i: usize = 0;
    while i < snapshot.len()
        invariant
            i <= snapshot.len(),
            snapshot.deep_view().len() == snapshot.len(),
            forall|j: int| 0 <= j < snapshot.len() ==> snapshot.deep_view()[j] == snapshot[j]@,
            forall|j: int| 0 <= j < i ==> snapshot.deep_view()[j].pid != pid,
        decreases snapshot.len() - i,
    {
        if snapshot[i].pid == pid {
            return Some(i);
        }
        i = i + 1;
    }
    None
}

/// The root process of the ancestor chain starting at `start_pid`.
pub fn find_root_pid(snapshot: &Vec<ProcessRecord>, start_pid: u32) -> (r: u32)
    requires
        snapshot_wf(snapshot.deep_view()),
    ensures
        r == spec_find_root(snapshot.deep_view(), start_pid, walk_fuel()),
{
    let ghost procs = snapshot.deep_view();
    let mut current = start_pid;
    let mut fuel: u32 = 10;
    while fuel > 0
        invariant
            snapshot_wf(procs),
            procs == snapshot.deep_view(),
            procs.len() == snapshot.len(),
            forall|j: int| 0 <= j < snapshot.len() ==> procs[j] == snapshot[j]@,
            fuel <= 10,
            spec_find_root(procs, start_pid, walk_fuel()) == spec_find_root(
                procs,
                current,
                fuel as nat,
            ),
        decreases fuel,
    {
        let i = match find_proc(snapshot, current) {
            None => {
                return current;
            },
            Some(i) => i,
        };
        proof {
            let gi = choose|gi: int| 0 <= gi < procs.len() && procs[gi].pid == current;
            assert(procs[gi].pid == current);
            assert(gi == i as int);
            assert(proc_of(procs, current) == procs[i as int]);
        }
        let pp = match snapshot[i].parent_pid {
            None => {
                return current;
            },
            Some(pp) => pp,
        };
        let k = match find_proc(snapshot, pp) {
            None => {
                return current;
            },
            Some(k) => k,
        };
        proof {
            let gk = choose|gk: int| 0 <= gk < procs.len() && procs[gk].pid == pp;
            assert(procs[gk].pid == pp);
            assert(gk == k as int);
            assert(proc_of(procs, pp) == procs[k as int]);
        }
        if is_app_name(snapshot[k].name.as_str()) {
            current = pp;
            fuel = fuel - 1;
        } else {
            return current;
        }
    }
    current
}

/// A process the root walk starts from: named like the application and not
/// the supervisor itself.
pub open spec fn is_walk_source(p: ProcView, self_pid: u32) -> bool {
    p.pid != self_pid && spec_is_app_name(lower_of(p.name))
}

/// `p` is the root of some walk source of the snapshot.
pub open spec fn is_root_of_some(procs: Seq<ProcView>, self_pid: u32, p: u32) -> bool {
    exists|i: int|
        0 <= i < procs.len() && is_walk_source(#[trigger] procs[i], self_pid) && spec_find_root(
            procs,
            procs[i].pid,
            walk_fuel(),
        ) == p
}

/// The deduplicated set of root processes over every walk source of the
/// snapshot: each element is the root of some source, and every source's
/// root is an element.
pub fn collect_root_pids(snapshot: &Vec<ProcessRecord>, self_pid: u32) -> (r: Vec<u32>)
    requires
        snapshot_wf(snapshot.deep_view()),
    ensures
        r@.no_duplicates(),
        forall|k: int|
            0 <= k < r@.len() ==> is_root_of_some(snapshot.deep_view(), self_pid, #[trigger] r@[k]),
        forall|i: int|
            0 <= i < snapshot.deep_view().len() && is_walk_source(
                #[trigger] snapshot.deep_view()[i],
                self_pid,
            ) ==> r@.contains(
                spec_find_root(snapshot.deep_view(), snapshot.deep_view()[i].pid, walk_fuel()),
            ),
{
    let ghost procs = snapshot.deep_view();
    let mut out: Vec<u32> = Vec::new();
    let mut i: usize = 0;
    while i < snapshot.len()
        invariant
            i <= snapshot.len(),
            snapshot_wf(procs),
            procs == snapshot.deep_view(),
            procs.len() == snapshot.len(),
            forall|j: int| 0 <= j < snapshot.len() ==> procs[j] == snapshot[j]@,
            out@.no_duplicates(),
            forall|k: int|
                0 <= k < out@.len() ==> is_root_of_some(procs, self_pid, #[trigger] out@[k]),
            forall|t: int|
                0 <= t < i && is_walk_source(#[trigger] procs[t], self_pid) ==> out@.contains(
                    spec_find_root(procs, procs[t].pid, walk_fuel()),
                ),
        decreases snapshot.len() - i,
    {
        if snapshot[i].pid != self_pid && is_app_name(snapshot[i].name.as_str()) {
            let root = find_root_pid(snapshot, snapshot[i].pid);
            let ghost out0 = out@;
            if !contains_u32(&out, root) {
                out.push(root);
                proof {
                    assert forall|a: int, b: int|
                        0 <= a < b < out@.len() implies out@[a] != out@[b] by {
                        if b == out@.len() - 1 {
                            assert(!out0.contains(root));
                        }
                    }
                    assert(out@[out@.len() - 1] == root);
                    assert(out@.contains(root));
                    assert(is_walk_source(procs[i as int], self_pid));
                    assert(spec_find_root(procs, procs[i as int].pid, walk_fuel()) == root);
                    assert(is_root_of_some(procs, self_pid, root));
                    assert forall|k: int|
                        0 <= k < out@.len() implies is_root_of_some(
                        procs,
                        self_pid,
                        #[trigger] out@[k],
                    ) by {
                        if k < out0.len() {
                            assert(out@[k] == out0[k]);
                        } else {
                            assert(out@[k] == root);
                        }
                    }
                    assert forall|t: int|
                        0 <= t < out0.len() implies out@.contains(out0[t]) by {
                        assert(out@[t] == out0[t]);
                    }
                }
            }
            proof {
                assert(out@.contains(root));
            }
        }
        i = i + 1;
    }
    out
}

/// The command line of the record carrying `root`, lowercased and joined;
/// empty when no record carries it.
pub open spec fn root_cmdline(procs: Seq<ProcView>, root: u32) -> Seq<char> {
    if has_proc(procs, root) {
        lower_cmdline(proc_of(procs, root))
    } else {
        Seq::empty()
    }
}

/// A root process launched without the data-directory flag: by the
/// default-instance rule its command line is known and carries no
/// `--user-data-dir` at all.
pub open spec fn spec_root_is_default(procs: Seq<ProcView>, root: u32) -> bool {
    root_cmdline(procs, root).len() > 0 && !contains_seq(
        root_cmdline(procs, root),
        "--user-data-dir"@,
    )
}

/// Some walk source resolves to a root process launched without the
/// data-directory flag.
pub open spec fn spec_default_running(procs: Seq<ProcView>, self_pid: u32) -> bool {
    exists|i: int|
        0 <= i < procs.len() && is_walk_source(#[trigger] procs[i], self_pid)
            && spec_root_is_default(procs, spec_find_root(procs, procs[i].pid, walk_fuel()))
}

/// Whether the root's command line is known, non-empty and free of the
/// data-directory flag.
fn root_is_default(snapshot: &Vec<ProcessRecord>, root: u32) -> (r: bool)
    requires
        snapshot_wf(snapshot.deep_view()),
    ensures
        r == spec_root_is_default(snapshot.deep_view(), root),
{
    let ghost procs = snapshot.deep_view();
    match find_proc(snapshot, root) {
        Some(k) => {
            proof {
                let gk = choose|gk: int| 0 <= gk < procs.len() && procs[gk].pid == root;
                assert(procs[gk].pid == root);
                assert(gk == k as int);
                assert(proc_of(procs, root) == procs[k as int]);
            }
            let args_l = lower_join(&snapshot[k].args);
            !args_l.as_str().is_empty() && !contains_sub(args_l.as_str(), "--user-data-dir")
        },
        None => false,
    }
}

/// Whether the default instance is running: some root process of the
/// application was launched without the data-directory flag.
pub fn is_default_instance_running(snapshot: &Vec<ProcessRecord>, self_pid: u32) -> (r: bool)
    requires
        snapshot_wf(snapshot.deep_view()),
    ensures
        r == spec_default_running(snapshot.deep_view(), self_pid),
{
    let ghost procs = snapshot.deep_view();
    let roots = collect_root_pids(snapshot, self_pid);
    let mut t: usize = 0;
    while t < roots.len()
        invariant
            t <= roots.len(),
            snapshot_wf(procs),
            procs == snapshot.deep_view(),
            forall|k: int|
                0 <= k < roots@.len() ==> is_root_of_some(procs, self_pid, #[trigger] roots@[k]),
            forall|i: int|
                0 <= i < procs.len() && is_walk_source(#[trigger] procs[i], self_pid)
                    ==> roots@.contains(spec_find_root(procs, procs[i].pid, walk_fuel())),
            forall|s: int| 0 <= s < t ==> !spec_root_is_default(procs, #[trigger] roots@[s]),
        decreases roots.len() - t,
    {
        let root = roots[t];
        if root_is_default(snapshot, root) {
            proof {
                assert(is_root_of_some(procs, self_pid, root));
                let i = choose|i: int|
                    0 <= i < procs.len() && is_walk_source(#[trigger] procs[i], self_pid)
                        && spec_find_root(procs, procs[i].pid, walk_fuel()) == root;
                assert(spec_default_running(procs, self_pid));
            }
            return true;
        }
        t = t + 1;
    }
    proof {
        assert forall|i: int|
            0 <= i < procs.len() && is_walk_source(
                #[trigger] procs[i],
                self_pid,
            ) implies !spec_root_is_default(procs, spec_find_root(procs, procs[i].pid, walk_fuel()))
            by {
            let root = spec_find_root(procs, procs[i].pid, walk_fuel());
            assert(roots@.contains(root));
            let s = choose|s: int| 0 <= s < roots@.len() && roots@[s] == root;
            assert(!spec_root_is_default(procs, roots@[s]));
        }
    }
    false
}

/// The directory is treated as the default instance's: it equals the
/// platform's default data directory, or carries the application name
/// without an instance suffix.
pub open spec fn spec_is_default_dir(dir: Seq<char>, default_dir: Option<Seq<char>>) -> bool {
    ||| (default_dir is Some && dir == default_dir->0)
    ||| (contains_seq(lower_of(dir), "antigravity"@) && !contains_seq(
        lower_of(dir),
        "antigravity-"@,
    ))
}

/// The root's command line with path separators normalized.
pub open spec fn root_cmdline_norm(procs: Seq<ProcView>, root: u32) -> Seq<char> {
    backslashed(root_cmdline(procs, root))
}

/// The binder rule for one root process: for the default directory, its
/// command line carries no explicit data-directory argument; otherwise, the
/// normalized directory occurs in the normalized command line.
pub open spec fn spec_root_matches_dir(
    procs: Seq<ProcView>,
    root: u32,
    dir: Seq<char>,
    default_dir: Option<Seq<char>>,
) -> bool {
    if spec_is_default_dir(dir, default_dir) {
        !contains_seq(root_cmdline_norm(procs, root), "--user-data-dir="@)
    } else {
        contains_seq(root_cmdline_norm(procs, root), backslashed(lower_of(dir)))
    }
}

/// Whether the binder rule holds of `root` for `user_data_dir`.
fn root_matches_dir(
    snapshot: &Vec<ProcessRecord>,
    root: u32,
    user_data_dir: &str,
    default_data_dir: &Option<String>,
) -> (r: bool)
    requires
        snapshot_wf(snapshot.deep_view()),
    ensures
        r == spec_root_matches_dir(
            snapshot.deep_view(),
            root,
            user_data_dir@,
            default_data_dir.deep_view(),
        ),
{
    let ghost procs = snapshot.deep_view();
    let dir_l = lowercase(user_data_dir);
    let by_default_path = match default_data_dir {
        Some(d) => str_eq(user_data_dir, d.as_str()),
        None => false,
    };
    let is_default = by_default_path || (contains_sub(dir_l.as_str(), "antigravity")
        && !contains_sub(dir_l.as_str(), "antigravity-"));
    let args_norm: String = match find_proc(snapshot, root) {
        Some(k) => {
            proof {
                let gk = choose|gk: int| 0 <= gk < procs.len() && procs[gk].pid == root;
                assert(procs[gk].pid == root);
                assert(gk == k as int);
                assert(proc_of(procs, root) == procs[k as int]);
            }
            let joined = lower_join(&snapshot[k].args);
            crate::text::backslash_str(joined.as_str())
        },
        None => {
            proof {
                assert(backslashed(Seq::<char>::empty()) =~= Seq::<char>::empty());
            }
            String::new()
        },
    };
    if is_default {
        !contains_sub(args_norm.as_str(), "--user-data-dir=")
    } else {
        let dir_norm = crate::text::backslash_str(dir_l.as_str());
        contains_sub(args_norm.as_str(), dir_norm.as_str())
    }
}

/// The root processes of the instance bound to `user_data_dir`: the
/// deduplicated roots of the snapshot, kept when the binder rule holds —
/// helper processes are never consulted.
pub fn get_all_instance_root_pids(
    snapshot: &Vec<ProcessRecord>,
    self_pid: u32,
    user_data_dir: &str,
    default_data_dir: &Option<String>,
) -> (r: Vec<u32>)
    requires
        snapshot_wf(snapshot.deep_view()),
    ensures
        r@.no_duplicates(),
        forall|k: int|
            0 <= k < r@.len() ==> is_root_of_some(snapshot.deep_view(), self_pid, #[trigger] r@[k])
                && spec_root_matches_dir(
                snapshot.deep_view(),
                r@[k],
                user_data_dir@,
                default_data_dir.deep_view(),
            ),
        forall|i: int|
            0 <= i < snapshot.deep_view().len() && is_walk_source(
                #[trigger] snapshot.deep_view()[i],
                self_pid,
            ) && spec_root_matches_dir(
                snapshot.deep_view(),
                spec_find_root(snapshot.deep_view(), snapshot.deep_view()[i].pid, walk_fuel()),
                user_data_dir@,
                default_data_dir.deep_view(),
            ) ==> r@.contains(
                spec_find_root(snapshot.deep_view(), snapshot.deep_view()[i].pid, walk_fuel()),
            ),
{
    let ghost procs = snapshot.deep_view();
    let roots = collect_root_pids(snapshot, self_pid);
    let mut out: Vec<u32> = Vec::new();
    let mut t: usize = 0;
    while t < roots.len()
        invariant
            t <= roots.len(),
            snapshot_wf(procs),
            procs == snapshot.deep_view(),
            roots@.no_duplicates(),
            forall|k: int|
                0 <= k < roots@.len() ==> is_root_of_some(procs, self_pid, #[trigger] roots@[k]),
            forall|i: int|
                0 <= i < procs.len() && is_walk_source(#[trigger] procs[i], self_pid)
                    ==> roots@.contains(spec_find_root(procs, procs[i].pid, walk_fuel())),
            out@.no_duplicates(),
            forall|k: int|
                0 <= k < out@.len() ==> is_root_of_some(procs, self_pid, #[trigger] out@[k])
                    && spec_root_matches_dir(
                    procs,
                    out@[k],
                    user_data_dir@,
                    default_data_dir.deep_view(),
                ),
            forall|s: int|
                0 <= s < t && spec_root_matches_dir(
                    procs,
                    #[trigger] roots@[s],
                    user_data_dir@,
                    default_data_dir.deep_view(),
                ) ==> out@.contains(roots@[s]),
        decreases roots.len() - t,
    {
        let root = roots[t];
        if root_matches_dir(snapshot, root, user_data_dir, default_data_dir) {
            let ghost out0 = out@;
            if !contains_u32(&out, root) {
                out.push(root);
                proof {
                    assert forall|a: int, b: int|
                        0 <= a < b < out@.len() implies out@[a] != out@[b] by {
                        if b == out@.len() - 1 {
                            assert(!out0.contains(root));
                        }
                    }
                    assert(out@[out@.len() - 1] == root);
                    assert forall|k: int|
                        0 <= k < out@.len() implies is_root_of_some(
                        procs,
                        self_pid,
                        #[trigger] out@[k],
                    ) && spec_root_matches_dir(
                        procs,
                        out@[k],
                        user_data_dir@,
                        default_data_dir.deep_view(),
                    ) by {
                        if k < out0.len() {
                            assert(out@[k] == out0[k]);
                        } else {
                            assert(out@[k] == root);
                        }
                    }
                    assert forall|s: int|
                        0 <= s < out0.len() implies out@.contains(out0[s]) by {
                        assert(out@[s] == out0[s]);
                    }
                }
            }
            proof {
                assert(out@.contains(root));
            }
        }
        t = t + 1;
    }
    proof {
        assert forall|i: int|
            0 <= i < procs.len() && is_walk_source(#[trigger] procs[i], self_pid)
                && spec_root_matches_dir(
                procs,
                spec_find_root(procs, procs[i].pid, walk_fuel()),
                user_data_dir@,
                default_data_dir.deep_view(),
            ) implies out@.contains(spec_find_root(procs, procs[i].pid, walk_fuel())) by {
            let root = spec_find_root(procs, procs[i].pid, walk_fuel());
            assert(roots@.contains(root));
            let s = choose|s: int| 0 <= s < roots@.len() && roots@[s] == root;
            assert(out@.contains(roots@[s]));
        }
    }
    out
}

/// The broad per-process name rule used when collecting every process of an
/// instance, helpers included.
pub open spec fn spec_belongs_wide(p: ProcView, platform: Platform) -> bool {
    match platform {
        Platform::MacOs => contains_seq(lower_exe(p), "antigravity.app"@),
        Platform::Windows => lower_name(p) == "antigravity.exe"@ || crate::text::starts_with_seq(
            lower_name(p),
            "antigravity"@,
        ),
        Platform::Linux => contains_seq(lower_name(p), "antigravity"@) || contains_seq(
            lower_exe(p),
            "/antigravity"@,
        ),
    }
}

/// The normalized directory occurs in the process's normalized command line.
pub open spec fn spec_args_contain_dir(p: ProcView, dir: Seq<char>) -> bool {
    contains_seq(backslashed(lower_cmdline(p)), backslashed(lower_of(dir)))
}

/// A process of the instance bound to `dir`: not the supervisor, named like
/// the application in the broad sense, and carrying the directory in its
/// command line.
pub open spec fn spec_instance_proc(p: ProcView, ctx: CtxView, dir: Seq<char>) -> bool {
    !spec_excluded_self(p, ctx) && spec_belongs_wide(p, ctx.platform) && spec_args_contain_dir(
        p,
        dir,
    )
}

/// Whether the process belongs to the instance bound to `user_data_dir`.
fn is_instance_proc(p: &ProcessRecord, ctx: &ScanContext, user_data_dir: &str) -> (r: bool)
    ensures
        r == spec_instance_proc(p@, ctx@, user_data_dir@),
{
    if p.pid == ctx.self_pid {
        return false;
    }
    match &ctx.self_exe {
        Some(e) => {
            if str_eq(p.exe_path.as_str(), e.as_str()) {
                return false;
            }
        },
        None => {},
    }
    let name_l = lowercase(p.name.as_str());
    let exe_l = lowercase(p.exe_path.as_str());
    let wide = match ctx.platform {
        Platform::MacOs => contains_sub(exe_l.as_str(), "antigravity.app"),
        Platform::Windows => str_eq(name_l.as_str(), "antigravity.exe")
            || crate::text::starts_with_str(name_l.as_str(), "antigravity"),
        Platform::Linux => contains_sub(name_l.as_str(), "antigravity") || contains_sub(
            exe_l.as_str(),
            "/antigravity",
        ),
    };
    if !wide {
        return false;
    }
    let args_norm = crate::text::backslash_str(lower_join(&p.args).as_str());
    let dir_norm = crate::text::backslash_str(lowercase(user_data_dir).as_str());
    contains_sub(args_norm.as_str(), dir_norm.as_str())
}

/// The pids of the instance's processes, in snapshot order.
pub open spec fn spec_instance_pids(procs: Seq<ProcView>, ctx: CtxView, dir: Seq<char>) -> Seq<
    u32,
>
    decreases procs.len(),
{
    if procs.len() == 0 {
        Seq::empty()
    } else {
        let rest = spec_instance_pids(procs.drop_last(), ctx, dir);
        if spec_instance_proc(procs.last(), ctx, dir) {
            rest.push(procs.last().pid)
        } else {
            rest
        }
    }
}

/// Every process — main and helper — of the instance bound to
/// `user_data_dir`, in snapshot order.
pub fn get_instance_pids(
    snapshot: &Vec<ProcessRecord>,
    ctx: &ScanContext,
    user_data_dir: &str,
) -> (r: Vec<u32>)
    ensures
        r@ == spec_instance_pids(snapshot.deep_view(), ctx@, user_data_dir@),
{
    let ghost procs = snapshot.deep_view();
    let mut out: Vec<u32> = Vec::new();
    let mut i: usize = 0;
    while i < snapshot.len()
        invariant
            i <= snapshot.len(),
            procs == snapshot.deep_view(),
            procs.len() == snapshot.len(),
            forall|j: int| 0 <= j < snapshot.len() ==> procs[j] == snapshot[j]@,
            out@ == spec_instance_pids(procs.take(i as int), ctx@, user_data_dir@),
        decreases snapshot.len() - i,
    {
        proof {
            assert(procs.take(i + 1).drop_last() =~= procs.take(i as int));
            assert(procs.take(i + 1).last() == procs[i as int]);
        }
        if is_instance_proc(&snapshot[i], ctx, user_data_dir) {
            out.push(snapshot[i].pid);
        }
        i = i + 1;
    }
    proof {
        assert(procs.take(snapshot.len() as int) =~= procs);
    }
    out
}

/// Whether the instance bound to `user_data_dir` has a live process.
pub fn is_instance_running(
    snapshot: &Vec<ProcessRecord>,
    ctx: &ScanContext,
    user_data_dir: &str,
) -> (r: bool)
    ensures
        r == exists|i: int|
            0 <= i < snapshot.deep_view().len() && spec_instance_proc(
                #[trigger] snapshot.deep_view()[i],
                ctx@,
                user_data_dir@,
            ),
{
    let ghost procs = snapshot.deep_view();
    let mut i: usize = 0;
    while i < snapshot.len()
        invariant
            i <= snapshot.len(),
            procs == snapshot.deep_view(),
            procs.len() == snapshot.len(),
            forall|j: int| 0 <= j < snapshot.len() ==> procs[j] == snapshot[j]@,
            forall|j: int|
                0 <= j < i ==> !spec_instance_proc(#[trigger] procs[j], ctx@, user_data_dir@),
        decreases snapshot.len() - i,
    {
        if is_instance_proc(&snapshot[i], ctx, user_data_dir) {
            proof {
                assert(spec_instance_proc(procs[i as int], ctx@, user_data_dir@));
            }
            return true;
        }
        i = i + 1;
    }
    false
}

/// A process the root-argument search starts from: named like the
/// application and carrying the directory in its command line.
pub open spec fn spec_arp_source(p: ProcView, dir: Seq<char>) -> bool {
    spec_is_app_name(lower_of(p.name)) && spec_args_contain_dir(p, dir)
}

/// The full command line of the instance's root process: from some process
/// carrying the directory, the ancestor walk's root is resolved and its
/// arguments are handed back when known and non-empty.
pub fn get_instance_root_process_args(
    snapshot: &Vec<ProcessRecord>,
    user_data_dir: &str,
) -> (r: Option<Vec<String>>)
    requires
        snapshot_wf(snapshot.deep_view()),
    ensures
        match r {
            Some(args) => args.deep_view().len() > 0 && exists|i: int|
                0 <= i < snapshot.deep_view().len() && spec_arp_source(
                    #[trigger] snapshot.deep_view()[i],
                    user_data_dir@,
                ) && {
                    let root = spec_find_root(
                        snapshot.deep_view(),
                        snapshot.deep_view()[i].pid,
                        walk_fuel(),
                    );
                    has_proc(snapshot.deep_view(), root) && proc_of(snapshot.deep_view(), root).args
                        == args.deep_view()
                },
            None => forall|i: int|
                0 <= i < snapshot.deep_view().len() && spec_arp_source(
                    #[trigger] snapshot.deep_view()[i],
                    user_data_dir@,
                ) ==> {
                    let root = spec_find_root(
                        snapshot.deep_view(),
                        snapshot.deep_view()[i].pid,
                        walk_fuel(),
                    );
                    !(has_proc(snapshot.deep_view(), root) && proc_of(
                        snapshot.deep_view(),
                        root,
                    ).args.len() > 0)
                },
        },
{
    let ghost procs = snapshot.deep_view();
    let mut i: usize = 0;
    while i < snapshot.len()
        invariant
            i <= snapshot.len(),
            snapshot_wf(procs),
            procs == snapshot.deep_view(),
            procs.len() == snapshot.len(),
            forall|j: int| 0 <= j < snapshot.len() ==> procs[j] == snapshot[j]@,
            forall|j: int|
                0 <= j < i && spec_arp_source(#[trigger] procs[j], user_data_dir@) ==> {
                    let root = spec_find_root(procs, procs[j].pid, walk_fuel());
                    !(has_proc(procs, root) && proc_of(procs, root).args.len() > 0)
                },
        decreases snapshot.len() - i,
    {
        let source = if is_app_name(snapshot[i].name.as_str()) {
            let args_norm = crate::text::backslash_str(lower_join(&snapshot[i].args).as_str());
            let dir_norm = crate::text::backslash_str(lowercase(user_data_dir).as_str());
            contains_sub(args_norm.as_str(), dir_norm.as_str())
        } else {
            false
        };
        if source {
            let root = find_root_pid(snapshot, snapshot[i].pid);
            match find_proc(snapshot, root) {
                Some(k) => {
                    proof {
                        let gk = choose|gk: int| 0 <= gk < procs.len() && procs[gk].pid == root;
                        assert(procs[gk].pid == root);
                        assert(gk == k as int);
                        assert(proc_of(procs, root) == procs[k as int]);
                    }
                    if snapshot[k].args.len() > 0 {
                        let args = snapshot[k].args.clone();
                        proof {
                            assert(args.deep_view() =~= procs[k as int].args);
                            assert(spec_arp_source(procs[i as int], user_data_dir@));
                        }
                        return Some(args);
                    }
                },
                None => {},
            }
        }
        i = i + 1;
    }
    None
}

/// The pids of the snapshot, in order.
pub open spec fn pids_of(procs: Seq<ProcView>) -> Seq<u32> {
    procs.map_values(|p: ProcView| p.pid)
}

/// The caller's own process family: itself, everything reachable downward
/// over parent links, and its ancestor chain (bounded) — the set the
/// supervisor must never signal. The result holds a child-closed set of
/// pids around the caller, plus the ancestors.
pub fn get_self_family_pids(snapshot: &Vec<ProcessRecord>, self_pid: u32) -> (r: Vec<u32>)
    ensures
        r@.contains(self_pid),
        r@.no_duplicates(),
        exists|desc: Seq<u32>|
            #![auto]
            desc.contains(self_pid) && (forall|x: u32| desc.contains(x) ==> r@.contains(x)) && (
            forall|i: int|
                0 <= i < snapshot.deep_view().len() && snapshot.deep_view()[i].parent_pid is Some
                    && desc.contains(snapshot.deep_view()[i].parent_pid->0) ==> desc.contains(
                    (#[trigger] snapshot.deep_view()[i]).pid,
                )),
{
    let ghost procs = snapshot.deep_view();
    let mut family: Vec<u32> = Vec::new();
    family.push(self_pid);
    proof {
        assert(family@[0] == self_pid);
        assert(family@.contains(self_pid));
    }
    let ghost base = family@;
    proof {
        assert(base.len() <= 1);
    }
    let mut changed = true;
    while changed
        invariant
            procs == snapshot.deep_view(),
            procs.len() == snapshot.len(),
            forall|j: int| 0 <= j < snapshot.len() ==> procs[j] == snapshot[j]@,
            base.no_duplicates(),
            base.len() <= 1,
            family@.no_duplicates(),
            family@.contains(self_pid),
            forall|x: u32| family@.contains(x) ==> base.contains(x) || pids_of(procs).contains(x),
            family@.len() <= base.len() + procs.len(),
            !changed ==> forall|j: int|
                0 <= j < procs.len() && procs[j].parent_pid is Some && family@.contains(
                    procs[j].parent_pid->0,
                ) ==> family@.contains((#[trigger] procs[j]).pid),
        decreases base.len() + procs.len() + 1 - family@.len(), (if changed {
            1int
        } else {
            0int
        }),
    {
        let ghost fam_round = family@;
        let mut round_changed = false;
        let mut i: usize = 0;
        while i < snapshot.len()
            invariant
                i <= snapshot.len(),
                procs == snapshot.deep_view(),
                procs.len() == snapshot.len(),
                forall|j: int| 0 <= j < snapshot.len() ==> procs[j] == snapshot[j]@,
                family@.no_duplicates(),
                fam_round.contains(self_pid),
                fam_round.len() <= family@.len(),
                forall|t: int| 0 <= t < fam_round.len() ==> family@[t] == fam_round[t],
                forall|x: u32|
                    family@.contains(x) ==> base.contains(x) || pids_of(procs).contains(x),
                round_changed ==> family@.len() > fam_round.len(),
                !round_changed ==> family@ == fam_round,
                !round_changed ==> forall|j: int|
                    0 <= j < i && procs[j].parent_pid is Some && family@.contains(
                        procs[j].parent_pid->0,
                    ) ==> family@.contains((#[trigger] procs[j]).pid),
            decreases snapshot.len() - i,
        {
            match snapshot[i].parent_pid {
                Some(pp) => {
                    if contains_u32(&family, pp) && !contains_u32(&family, snapshot[i].pid) {
                        let ghost fam0 = family@;
                        family.push(snapshot[i].pid);
                        round_changed = true;
                        proof {
                            assert forall|a: int, b: int|
                                0 <= a < b < family@.len() implies family@[a] != family@[b] by {
                                if b == family@.len() - 1 {
                                    assert(!fam0.contains(procs[i as int].pid));
                                }
                            }
                            assert(family@[family@.len() - 1] == procs[i as int].pid);
                            assert(pids_of(procs)[i as int] == procs[i as int].pid);
                            assert(pids_of(procs).contains(procs[i as int].pid));
                            assert forall|x: u32|
                                family@.contains(x) implies base.contains(x) || pids_of(
                                procs,
                            ).contains(x) by {
                                let t = choose|t: int| 0 <= t < family@.len() && family@[t] == x;
                                if t < fam0.len() {
                                    assert(fam0[t] == x);
                                    assert(fam0.contains(x));
                                }
                            }
                            assert forall|t: int|
                                0 <= t < fam_round.len() implies family@[t] == fam_round[t] by {
                                assert(family@[t] == fam0[t]);
                            }
                        }
                    }
                },
                None => {},
            }
            i = i + 1;
        }
        changed = round_changed;
        proof {
            let t = choose|t: int| 0 <= t < fam_round.len() && fam_round[t] == self_pid;
            assert(family@[t] == self_pid);
            assert(family@.contains(self_pid));
            broadcast use vstd::set::group_set_axioms;
            broadcast use vstd::seq_lib::seq_to_set_is_finite;

            family@.unique_seq_to_set();
            base.unique_seq_to_set();
            pids_of(procs).lemma_cardinality_of_set();
            let u = base.to_set().union(pids_of(procs).to_set());
            assert forall|x: u32| family@.to_set().contains(x) implies u.contains(x) by {
                assert(family@.contains(x));
            }
            vstd::set_lib::lemma_len_subset(family@.to_set(), u);
            vstd::set_lib::lemma_len_union(base.to_set(), pids_of(procs).to_set());
        }
    }
    let ghost desc = family@;
    let mut current = self_pid;
    let mut hops: usize = 0;
    while hops < 10
        invariant
            procs == snapshot.deep_view(),
            procs.len() == snapshot.len(),
            forall|j: int| 0 <= j < snapshot.len() ==> procs[j] == snapshot[j]@,
            family@.no_duplicates(),
            family@.contains(self_pid),
            hops <= 10,
            desc.len() <= family@.len(),
            forall|t: int| 0 <= t < desc.len() ==> family@[t] == desc[t],
            forall|j: int|
                0 <= j < procs.len() && procs[j].parent_pid is Some && desc.contains(
                    procs[j].parent_pid->0,
                ) ==> desc.contains((#[trigger] procs[j]).pid),
            desc.contains(self_pid),
        decreases 10 - hops,
    {
        let mut stop = true;
        match find_proc(snapshot, current) {
            Some(i) => {
                match snapshot[i].parent_pid {
                    Some(pp) => {
                        if !contains_u32(&family, pp) {
                            let ghost fam0 = family@;
                            family.push(pp);
                            proof {
                                assert forall|a: int, b: int|
                                    0 <= a < b < family@.len() implies family@[a] != family@[b] by {
                                    if b == family@.len() - 1 {
                                        assert(!fam0.contains(pp));
                                    }
                                }
                                let t = choose|t: int| 0 <= t < fam0.len() && fam0[t] == self_pid;
                                assert(family@[t] == self_pid);
                                assert(family@.contains(self_pid));
                                assert forall|t: int|
                                    0 <= t < desc.len() implies family@[t] == desc[t] by {
                                    assert(family@[t] == fam0[t]);
                                }
                            }
                            current = pp;
                            stop = false;
                        }
                    },
                    None => {},
                }
            },
            None => {},
        }
        if stop {
            hops = 10;
        } else {
            hops = hops + 1;
        }
    }
    proof {
        assert forall|x: u32| desc.contains(x) implies family@.contains(x) by {
            let t = choose|t: int| 0 <= t < desc.len() && desc[t] == x;
            assert(family@[t] == x);
        }
    }
    family
}

/// The path the discovery heuristic inspects: the first command-line
/// argument, or the executable path when the command line is empty.
pub open spec fn info_cmd_path(p: ProcView) -> Seq<char> {
    if p.args.len() > 0 {
        p.args[0]
    } else {
        p.exe_path
    }
}

/// The launch arguments without the leading program path.
pub open spec fn rest_args(p: ProcView) -> Seq<Seq<char>> {
    if p.args.len() > 0 {
        p.args.drop_first()
    } else {
        Seq::empty()
    }
}

/// The discovery veto: the helper rule extended by embedded-runtime markers
/// in the remaining arguments.
pub open spec fn spec_info_helper(p: ProcView) -> bool {
    ||| contains_seq(join_spaces(lowered_all(rest_args(p))), "--type="@)
    ||| contains_seq(join_spaces(lowered_all(rest_args(p))), "node-ipc"@)
    ||| contains_seq(join_spaces(lowered_all(rest_args(p))), "nodeipc"@)
    ||| contains_seq(join_spaces(lowered_all(rest_args(p))), "max-old-space-size"@)
    ||| contains_seq(join_spaces(lowered_all(rest_args(p))), "node_modules"@)
    ||| contains_seq(lower_name(p), "helper"@)
    ||| contains_seq(lower_name(p), "plugin"@)
    ||| contains_seq(lower_name(p), "renderer"@)
    ||| contains_seq(lower_name(p), "gpu"@)
    ||| contains_seq(lower_name(p), "crashpad"@)
    ||| contains_seq(lower_name(p), "utility"@)
    ||| contains_seq(lower_name(p), "audio"@)
    ||| contains_seq(lower_name(p), "sandbox"@)
    ||| contains_seq(lower_of(info_cmd_path(p)), "crashpad"@)
}

/// A process the discovery accepts: a known executable, not the supervisor,
/// not vetoed as a helper, and matching the platform's discovery rule on
/// the inspected path.
pub open spec fn spec_info_match(p: ProcView, ctx: CtxView) -> bool {
    &&& p.exe_path.len() > 0
    &&& !spec_excluded_self(p, ctx)
    &&& !spec_info_helper(p)
    &&& match ctx.platform {
        Platform::MacOs => contains_seq(lower_of(info_cmd_path(p)), "antigravity.app"@)
            && !contains_seq(lower_of(info_cmd_path(p)), "frameworks"@),
        Platform::Windows => lower_name(p) == "antigravity.exe"@,
        Platform::Linux => (lower_name(p) == "antigravity"@ || contains_seq(
            lower_of(info_cmd_path(p)),
            "/antigravity"@,
        )) && !contains_seq(lower_name(p), "tools"@),
    }
}

/// The discovered executable path: on macOS trimmed to the application
/// bundle when the raw path carries one, else the raw path.
pub open spec fn spec_info_path(p: ProcView, platform: Platform) -> Seq<char> {
    if platform == Platform::MacOs && contains_seq(p.exe_path, ".app"@) {
        p.exe_path.subrange(
            0,
            (choose|ia: int| crate::text::first_match_at(p.exe_path, ".app"@, ia))
                + ".app"@.len(),
        )
    } else {
        p.exe_path
    }
}

/// Whether the discovery accepts the process.
fn is_info_match(p: &ProcessRecord, ctx: &ScanContext) -> (r: bool)
    ensures
        r == spec_info_match(p@, ctx@),
{
    if p.exe_path.as_str().is_empty() {
        return false;
    }
    if p.pid == ctx.self_pid {
        return false;
    }
    match &ctx.self_exe {
        Some(e) => {
            if str_eq(p.exe_path.as_str(), e.as_str()) {
                return false;
            }
        },
        None => {},
    }
    let rest = rest_args_exec(p);
    let rest_l = lower_join(&rest);
    let name_l = lowercase(p.name.as_str());
    let cmd_path = if p.args.len() > 0 {
        p.args[0].clone()
    } else {
        p.exe_path.clone()
    };
    proof {
        assert(cmd_path@ == info_cmd_path(p@));
    }
    let cmd_l = lowercase(cmd_path.as_str());
    let veto = contains_sub(rest_l.as_str(), "--type=") || contains_sub(
        rest_l.as_str(),
        "node-ipc",
    ) || contains_sub(rest_l.as_str(), "nodeipc") || contains_sub(
        rest_l.as_str(),
        "max-old-space-size",
    ) || contains_sub(rest_l.as_str(), "node_modules") || contains_sub(name_l.as_str(), "helper")
        || contains_sub(name_l.as_str(), "plugin") || contains_sub(name_l.as_str(), "renderer")
        || contains_sub(name_l.as_str(), "gpu") || contains_sub(name_l.as_str(), "crashpad")
        || contains_sub(name_l.as_str(), "utility") || contains_sub(name_l.as_str(), "audio")
        || contains_sub(name_l.as_str(), "sandbox") || contains_sub(cmd_l.as_str(), "crashpad");
    if veto {
        return false;
    }
    match ctx.platform {
        Platform::MacOs => contains_sub(cmd_l.as_str(), "antigravity.app") && !contains_sub(
            cmd_l.as_str(),
            "frameworks",
        ),
        Platform::Windows => str_eq(name_l.as_str(), "antigravity.exe"),
        Platform::Linux => (str_eq(name_l.as_str(), "antigravity") || contains_sub(
            cmd_l.as_str(),
            "/antigravity",
        )) && !contains_sub(name_l.as_str(), "tools"),
    }
}

/// The arguments without the leading program path.
fn rest_args_exec(p: &ProcessRecord) -> (r: Vec<String>)
    ensures
        r.deep_view() == rest_args(p@),
{
    let mut out: Vec<String> = Vec::new();
    let mut i: usize = 1;
    if p.args.len() == 0 {
        proof {
            assert(out.deep_view() =~= rest_args(p@));
        }
        return out;
    }
    while i < p.args.len()
        invariant
            1 <= i <= p.args.len(),
            p@.args.len() == p.args.len(),
            forall|j: int| 0 <= j < p.args.len() ==> p@.args[j] == p.args[j]@,
            out.deep_view() == p@.args.subrange(1, i as int),
        decreases p.args.len() - i,
    {
        let ghost out0 = out.deep_view();
        let a = p.args[i].clone();
        out.push(a);
        proof {
            assert(out.deep_view() =~= out0.push(p@.args[i as int]));
            assert(p@.args.subrange(1, i + 1) =~= p@.args.subrange(1, i as int).push(
                p@.args[i as int],
            ));
        }
        i = i + 1;
    }
    proof {
        assert(p@.args.subrange(1, p.args.len() as int) =~= rest_args(p@));
    }
    out
}

/// The discovered executable path of the process.
fn info_path_exec(p: &ProcessRecord, platform: Platform) -> (r: String)
    ensures
        r@ == spec_info_path(p@, platform),
{
    match platform {
        Platform::MacOs => {
            match crate::text::find_sub(p.exe_path.as_str(), ".app") {
                Some(ia) => {
                    let n = p.exe_path.as_str().unicode_len();
                    let m = ".app".unicode_len();
                    proof {
                        assert(ia + m <= n);
                    }
                    let pa = p.exe_path.as_str().substring_char(0, ia + m);
                    proof {
                        assert(crate::text::first_match_at(p@.exe_path, ".app"@, ia as int));
                        let gx = choose|gx: int|
                            crate::text::first_match_at(p@.exe_path, ".app"@, gx);
                        assert(gx == ia as int);
                        assert(contains_seq(p@.exe_path, ".app"@));
                    }
                    pa.to_owned()
                },
                None => {
                    proof {
                        if contains_seq(p@.exe_path, ".app"@) {
                            let w = choose|w: int| crate::text::matches_at(p@.exe_path, ".app"@, w);
                            assert(false);
                        }
                    }
                    p.exe_path.clone()
                },
            }
        },
        _ => p.exe_path.clone(),
    }
}

/// The executable path and launch arguments of a running main process of
/// the application, discovered from the snapshot, if any process matches.
pub fn get_process_info(snapshot: &Vec<ProcessRecord>, ctx: &ScanContext) -> (r: (
    Option<String>,
    Option<Vec<String>>,
))
    ensures
        (r.0 is Some) == (exists|i: int|
            0 <= i < snapshot.deep_view().len() && spec_info_match(
                #[trigger] snapshot.deep_view()[i],
                ctx@,
            )),
        (r.1 is Some) == (r.0 is Some),
        r.0 is Some ==> exists|i: int|
            0 <= i < snapshot.deep_view().len() && spec_info_match(
                #[trigger] snapshot.deep_view()[i],
                ctx@,
            ) && r.0->0@ == spec_info_path(snapshot.deep_view()[i], ctx@.platform)
                && r.1->0.deep_view() == rest_args(snapshot.deep_view()[i]),
{
    let ghost procs = snapshot.deep_view();
    let mut i: usize = 0;
    while i < snapshot.len()
        invariant
            i <= snapshot.len(),
            procs == snapshot.deep_view(),
            procs.len() == snapshot.len(),
            forall|j: int| 0 <= j < snapshot.len() ==> procs[j] == snapshot[j]@,
            forall|j: int| 0 <= j < i ==> !spec_info_match(#[trigger] procs[j], ctx@),
        decreases snapshot.len() - i,
    {
        if is_info_match(&snapshot[i], ctx) {
            let path = info_path_exec(&snapshot[i], ctx.platform);
            let args = rest_args_exec(&snapshot[i]);
            proof {
                assert(spec_info_match(procs[i as int], ctx@));
            }
            return (Some(path), Some(args));
        }
        i = i + 1;
    }
    (None, None)
}

/// The executable path of a running main process, if any; the most reliable
/// way to locate the installation.
pub fn get_path_from_running_process(snapshot: &Vec<ProcessRecord>, ctx: &ScanContext) -> (r:
    Option<String>)
    ensures
        (r is Some) == (exists|i: int|
            0 <= i < snapshot.deep_view().len() && spec_info_match(
                #[trigger] snapshot.deep_view()[i],
                ctx@,
            )),
        r is Some ==> exists|i: int|
            0 <= i < snapshot.deep_view().len() && spec_info_match(
                #[trigger] snapshot.deep_view()[i],
                ctx@,
            ) && r->0@ == spec_info_path(snapshot.deep_view()[i], ctx@.platform),
{
    let (path, _) = get_process_info(snapshot, ctx);
    path
}

/// The launch arguments of a running main process, if any.
pub fn get_args_from_running_process(snapshot: &Vec<ProcessRecord>, ctx: &ScanContext) -> (r:
    Option<Vec<String>>)
    ensures
        (r is Some) == (exists|i: int|
            0 <= i < snapshot.deep_view().len() && spec_info_match(
                #[trigger] snapshot.deep_view()[i],
                ctx@,
            )),
        r is Some ==> exists|i: int|
            0 <= i < snapshot.deep_view().len() && spec_info_match(
                #[trigger] snapshot.deep_view()[i],
                ctx@,
            ) && r->0.deep_view() == rest_args(snapshot.deep_view()[i]),
{
    let (_, args) = get_process_info(snapshot, ctx);
    args
}

/// The application's executable path, in priority order: a running main
/// process, else the first existing standard install location, which the
/// caller resolves and hands in.
pub fn get_antigravity_executable_path(
    snapshot: &Vec<ProcessRecord>,
    ctx: &ScanContext,
    standard_location: Option<String>,
) -> (r: Option<String>)
    ensures
        (exists|i: int|
            0 <= i < snapshot.deep_view().len() && spec_info_match(
                #[trigger] snapshot.deep_view()[i],
                ctx@,
            )) ==> r is Some && exists|i: int|
            0 <= i < snapshot.deep_view().len() && spec_info_match(
                #[trigger] snapshot.deep_view()[i],
                ctx@,
            ) && r->0@ == spec_info_path(snapshot.deep_view()[i], ctx@.platform),
        !(exists|i: int|
            0 <= i < snapshot.deep_view().len() && spec_info_match(
                #[trigger] snapshot.deep_view()[i],
                ctx@,
            )) ==> r == standard_location,
{
    let found = get_path_from_running_process(snapshot, ctx);
    match found {
        Some(path) => Some(path),
        None => standard_location,
    }
}

/// The standard install locations to probe, most preferred first; the
/// caller supplies the platform's environment directories and keeps the
/// first location that exists on disk.
pub fn standard_location_candidates(
    platform: Platform,
    home: &Option<String>,
    local_appdata: &Option<String>,
    program_files: &Option<String>,
    program_files_x86: &Option<String>,
) -> (r: Vec<String>)
    ensures
        r.deep_view() == spec_standard_candidates(
            platform,
            home.deep_view(),
            local_appdata.deep_view(),
            program_files.deep_view(),
            program_files_x86.deep_view(),
        ),
{
    let mut out: Vec<String> = Vec::new();
    match platform {
        Platform::MacOs => {
            out.push("/Applications/Antigravity.app".to_owned());
            proof {
                assert(out.deep_view() =~= spec_standard_candidates(
                    platform,
                    home.deep_view(),
                    local_appdata.deep_view(),
                    program_files.deep_view(),
                    program_files_x86.deep_view(),
                ));
            }
        },
        Platform::Windows => {
            match local_appdata {
                Some(la) => {
                    let p = la.clone().concat("\\Programs\\Antigravity\\Antigravity.exe");
                    out.push(p);
                },
                None => {},
            }
            let pf: String = match program_files {
                Some(p) => p.clone(),
                None => "C:\\Program Files".to_owned(),
            };
            out.push(pf.concat("\\Antigravity\\Antigravity.exe"));
            let pfx: String = match program_files_x86 {
                Some(p) => p.clone(),
                None => "C:\\Program Files (x86)".to_owned(),
            };
            out.push(pfx.concat("\\Antigravity\\Antigravity.exe"));
            proof {
                assert(out.deep_view() =~= spec_standard_candidates(
                    platform,
                    home.deep_view(),
                    local_appdata.deep_view(),
                    program_files.deep_view(),
                    program_files_x86.deep_view(),
                ));
            }
        },
        Platform::Linux => {
            match home {
                Some(h) => {
                    let p = h.clone().concat("/.local/bin/antigravity");
                    out.push(p);
                },
                None => {},
            }
            out.push("/usr/bin/antigravity".to_owned());
            out.push("/opt/Antigravity/antigravity".to_owned());
            out.push("/usr/share/antigravity/antigravity".to_owned());
            proof {
                assert(out.deep_view() =~= spec_standard_candidates(
                    platform,
                    home.deep_view(),
                    local_appdata.deep_view(),
                    program_files.deep_view(),
                    program_files_x86.deep_view(),
                ));
            }
        },
    }
    out
}

/// The standard install locations per platform.
pub open spec fn spec_standard_candidates(
    platform: Platform,
    home: Option<Seq<char>>,
    local_appdata: Option<Seq<char>>,
    program_files: Option<Seq<char>>,
    program_files_x86: Option<Seq<char>>,
) -> Seq<Seq<char>> {
    match platform {
        Platform::MacOs => seq!["/Applications/Antigravity.app"@],
        Platform::Windows => (if local_appdata is Some {
            seq![local_appdata->0 + "\\Programs\\Antigravity\\Antigravity.exe"@]
        } else {
            Seq::empty()
        }) + seq![
            (if program_files is Some {
                program_files->0
            } else {
                "C:\\Program Files"@
            }) + "\\Antigravity\\Antigravity.exe"@,
            (if program_files_x86 is Some {
                program_files_x86->0
            } else {
                "C:\\Program Files (x86)"@
            }) + "\\Antigravity\\Antigravity.exe"@,
        ],
        Platform::Linux => (if home is Some {
            seq![home->0 + "/.local/bin/antigravity"@]
        } else {
            Seq::empty()
        }) + seq![
            "/usr/bin/antigravity"@,
            "/opt/Antigravity/antigravity"@,
            "/usr/share/antigravity/antigravity"@,
        ],
    }
}

/// The platform's default user data directory, built from the environment
/// directories the caller supplies.
pub fn default_user_data_dir(
    platform: Platform,
    home: &Option<String>,
    appdata: &Option<String>,
) -> (r: Option<String>)
    ensures
        r.deep_view() == spec_default_user_data_dir(platform, home.deep_view(), appdata.deep_view()),
{
    match platform {
        Platform::MacOs => match home {
            Some(h) => Some(h.clone().concat("/Library/Application Support/Antigravity")),
            None => None,
        },
        Platform::Windows => match appdata {
            Some(a) => Some(a.clone().concat("\\Antigravity")),
            None => None,
        },
        Platform::Linux => match home {
            Some(h) => Some(h.clone().concat("/.config/Antigravity")),
            None => None,
        },
    }
}

/// The platform's default user data directory.
pub open spec fn spec_default_user_data_dir(
    platform: Platform,
    home: Option<Seq<char>>,
    appdata: Option<Seq<char>>,
) -> Option<Seq<char>> {
    match platform {
        Platform::MacOs => match home {
            Some(h) => Some(h + "/Library/Application Support/Antigravity"@),
            None => None,
        },
        Platform::Windows => match appdata {
            Some(a) => Some(a + "\\Antigravity"@),
            None => None,
        },
        Platform::Linux => match home {
            Some(h) => Some(h + "/.config/Antigravity"@),
            None => None,
        },
    }
}

/// The directory values named by the first `n` arguments, in order: the
/// value following a bare `--user-data-dir` flag, or the suffix of a
/// `--user-data-dir=` argument.
pub open spec fn dir_candidates_upto(args: Seq<Seq<char>>, n: int) -> Seq<Seq<char>>
    decreases n,
{
    if n <= 0 || n > args.len() {
        Seq::empty()
    } else {
        let rest = dir_candidates_upto(args, n - 1);
        let i = n - 1;
        if args[i] == "--user-data-dir"@ && i + 1 < args.len() {
            rest.push(args[i + 1])
        } else if crate::text::starts_with_seq(args[i], "--user-data-dir="@) {
            rest.push(args[i].subrange("--user-data-dir="@.len() as int, args[i].len() as int))
        } else {
            rest
        }
    }
}

/// The directory values an argument list names, in order.
pub open spec fn dir_arg_candidates(args: Seq<Seq<char>>) -> Seq<Seq<char>> {
    dir_candidates_upto(args, args.len() as int)
}

/// The directory values named by `None` or an argument list.
pub open spec fn opt_dir_candidates(args: Option<Seq<Seq<char>>>) -> Seq<Seq<char>> {
    match args {
        None => Seq::empty(),
        Some(a) => dir_arg_candidates(a),
    }
}

/// The directory values named by one argument list.
fn dir_candidates_exec(args: &Vec<String>) -> (r: Vec<String>)
    ensures
        r.deep_view() == dir_arg_candidates(args.deep_view()),
{
    let ghost av = args.deep_view();
    let mut out: Vec<String> = Vec::new();
    let mut i: usize = 0;
    while i < args.len()
        invariant
            i <= args.len(),
            av == args.deep_view(),
            av.len() == args.len(),
            forall|j: int| 0 <= j < args.len() ==> av[j] == args[j]@,
            out.deep_view() == dir_candidates_upto(av, i as int),
        decreases args.len() - i,
    {
        let ghost out0 = out.deep_view();
        if crate::text::str_eq(args[i].as_str(), "--user-data-dir") && i + 1 < args.len() {
            let v = args[i + 1].clone();
            out.push(v);
            proof {
                assert(out.deep_view() =~= out0.push(av[i as int + 1]));
            }
        } else if crate::text::starts_with_str(args[i].as_str(), "--user-data-dir=") {
            let a = args[i].as_str();
            let n = a.unicode_len();
            let m = "--user-data-dir=".unicode_len();
            proof {
                assert(m <= n);
            }
            let suffix = a.substring_char(m, n);
            out.push(suffix.to_owned());
            proof {
                assert(out.deep_view() =~= out0.push(
                    av[i as int].subrange("--user-data-dir="@.len() as int, av[i as int].len() as int),
                ));
            }
        }
        i = i + 1;
    }
    out
}

/// The candidate user data directories, most preferred first: those named
/// by the saved configuration arguments, then those named by a running
/// process's arguments. The caller keeps the first candidate that exists on
/// disk.
pub fn get_user_data_dir_from_process(
    config_args: &Option<Vec<String>>,
    process_args: &Option<Vec<String>>,
) -> (r: Vec<String>)
    ensures
        r.deep_view() == opt_dir_candidates(config_args.deep_view()) + opt_dir_candidates(
            process_args.deep_view(),
        ),
{
    let mut out: Vec<String> = Vec::new();
    match config_args {
        Some(args) => {
            let mut c = dir_candidates_exec(args);
            out.append(&mut c);
        },
        None => {},
    }
    match process_args {
        Some(args) => {
            let mut c = dir_candidates_exec(args);
            out.append(&mut c);
        },
        None => {},
    }
    proof {
        assert(out.deep_view() =~= opt_dir_candidates(config_args.deep_view())
            + opt_dir_candidates(process_args.deep_view()));
    }
    out
}

/// Whether `v` holds `x`.
pub fn contains_u32(v: &Vec<u32>, x: u32) -> (r: bool)
    ensures
        r == v@.contains(x),
{
    let mut i: usize = 0;
    while i < v.len()
        invariant
            i <= v.len(),
            forall|j: int| 0 <= j < i ==> v@[j] != x,
        decreases v.len() - i,
    {
        if v[i] == x {
            return true;
        }
        i = i + 1;
    }
    false
}

} // verus!
