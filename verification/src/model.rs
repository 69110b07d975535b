//! The instance data model: one isolated application profile, its summary
//! projection, and the catalogue index of summaries.

use vstd::prelude::*;

verus! {

/// Relies on chrono's `Utc::now().timestamp()`: the current wall-clock time in
/// whole seconds since the epoch. Nothing can be promised of its value.
#[verifier::external_body]
pub(crate) fn now_timestamp() -> i64 {
    chrono::Utc::now().timestamp()
}

/// Relies on uuid's `Uuid::new_v4()` rendered through `Display`: a freshly
/// drawn random identifier. Nothing can be promised of its value.
#[verifier::external_body]
pub(crate) fn new_uuid() -> String {
    uuid::Uuid::new_v4().to_string()
}

/// The mathematical content of an `Instance`.
pub ghost struct InstanceView {
    pub id: Seq<char>,
    pub name: Seq<char>,
    pub user_data_dir: Seq<char>,
    pub antigravity_executable: Option<Seq<char>>,
    pub extra_args: Seq<Seq<char>>,
    pub account_ids: Seq<Seq<char>>,
    pub current_account_id: Option<Seq<char>>,
    pub is_default: bool,
    pub last_launch_args: Option<Seq<Seq<char>>>,
    pub last_root_pid: Option<u32>,
    pub created_at: i64,
}

/// One isolated application profile: a private data directory, bound
/// accounts, and the launch configuration.
#[derive(Debug)]
pub struct Instance {
    pub id: String,
    pub name: String,
    pub user_data_dir: String,
    pub antigravity_executable: Option<String>,
    pub extra_args: Vec<String>,
    pub account_ids: Vec<String>,
    pub current_account_id: Option<String>,
    pub is_default: bool,
    pub last_launch_args: Option<Vec<String>>,
    pub last_root_pid: Option<u32>,
    pub created_at: i64,
}

impl View for Instance {
    type V = InstanceView;

    open spec fn view(&self) -> InstanceView {
        InstanceView {
            id: self.id@,
            name: self.name@,
            user_data_dir: self.user_data_dir@,
            antigravity_executable: self.antigravity_executable.deep_view(),
            extra_args: self.extra_args.deep_view(),
            account_ids: self.account_ids.deep_view(),
            current_account_id: self.current_account_id.deep_view(),
            is_default: self.is_default,
            last_launch_args: self.last_launch_args.deep_view(),
            last_root_pid: self.last_root_pid,
            created_at: self.created_at,
        }
    }
}

impl DeepView for Instance {
    type V = InstanceView;

    open spec fn deep_view(&self) -> InstanceView {
        self.view()
    }
}

/// An instance is well formed when its bound account list has no duplicates.
pub open spec fn instance_wf(v: InstanceView) -> bool {
    forall|i: int, j: int|
        0 <= i < j < v.account_ids.len() ==> v.account_ids[i] != v.account_ids[j]
}

/// The launch arguments an instance is started with: the data-directory flag
/// followed by the directory — omitted for the default instance — then the
/// extra arguments.
pub open spec fn spec_launch_args(v: InstanceView) -> Seq<Seq<char>> {
    if v.is_default {
        v.extra_args
    } else {
        seq!["--user-data-dir"@, v.user_data_dir] + v.extra_args
    }
}

/// The account list after binding `account`: unchanged when already bound,
/// else extended by it.
pub open spec fn spec_bind(ids: Seq<Seq<char>>, account: Seq<char>) -> Seq<Seq<char>> {
    if ids.contains(account) {
        ids
    } else {
        ids.push(account)
    }
}

/// Keeping every account other than `account`.
pub open spec fn other_than(account: Seq<char>) -> spec_fn(Seq<char>) -> bool {
    |a: Seq<char>| a != account
}

/// The account list after unbinding `account`: every occurrence removed.
pub open spec fn spec_unbind(ids: Seq<Seq<char>>, account: Seq<char>) -> Seq<Seq<char>> {
    ids.filter(other_than(account))
}

impl Instance {
    /// A fresh non-default instance; the creation timestamp is read from the
    /// system clock.
    pub fn new(id: String, name: String, user_data_dir: String) -> (r: Instance)
        ensures
            r@.id == id@,
            r@.name == name@,
            r@.user_data_dir == user_data_dir@,
            r@.antigravity_executable is None,
            r@.extra_args =~= Seq::<Seq<char>>::empty(),
            r@.account_ids =~= Seq::<Seq<char>>::empty(),
            r@.current_account_id is None,
            !r@.is_default,
            r@.last_launch_args is None,
            r@.last_root_pid is None,
            instance_wf(r@),
    {
        Instance {
            id,
            name,
            user_data_dir,
            antigravity_executable: None,
            extra_args: Vec::new(),
            account_ids: Vec::new(),
            current_account_id: None,
            is_default: false,
            last_launch_args: None,
            last_root_pid: None,
            created_at: now_timestamp(),
        }
    }

    /// The default instance created on first-run migration; its identifier is
    /// drawn at random.
    pub fn new_default(user_data_dir: String) -> (r: Instance)
        ensures
            r@.name == "默认实例"@,
            r@.user_data_dir == user_data_dir@,
            r@.antigravity_executable is None,
            r@.extra_args =~= Seq::<Seq<char>>::empty(),
            r@.account_ids =~= Seq::<Seq<char>>::empty(),
            r@.current_account_id is None,
            r@.is_default,
            r@.last_launch_args is None,
            r@.last_root_pid is None,
            instance_wf(r@),
    {
        let id = new_uuid();
        let name: String = "默认实例".to_owned();
        let mut instance = Instance::new(id, name, user_data_dir);
        instance.is_default = true;
        instance
    }

    /// Whether `account_id` is bound to this instance.
    pub fn has_account(&self, account_id: &str) -> (r: bool)
        ensures
            r == self@.account_ids.contains(account_id@),
    {
        let mut i: usize = 0;
        while i < self.account_ids.len()
            invariant
                i <= self.account_ids.len(),
                self@.account_ids.len() == self.account_ids.len(),
                forall|j: int|
                    0 <= j < self.account_ids.len() ==> self@.account_ids[j]
                        == self.account_ids[j]@,
                forall|j: int| 0 <= j < i ==> self@.account_ids[j] != account_id@,
            decreases self.account_ids.len() - i,
        {
            if crate::text::str_eq(self.account_ids[i].as_str(), account_id) {
                proof {
                    assert(self@.account_ids[i as int] == account_id@);
                }
                return true;
            }
            proof {
                assert(self@.account_ids[i as int] != account_id@);
            }
            i = i + 1;
        }
        false
    }

    /// Binds `account_id`; a repeat binding leaves the list unchanged.
    pub fn bind_account(&mut self, account_id: String)
        ensures
            final(self)@ == (InstanceView {
                account_ids: spec_bind(old(self)@.account_ids, account_id@),
                ..old(self)@
            }),
            instance_wf(old(self)@) ==> instance_wf(final(self)@),
    {
        if !self.has_account(account_id.as_str()) {
            self.account_ids.push(account_id);
            proof {
                assert(final(self)@.account_ids =~= spec_bind(
                    old(self)@.account_ids,
                    account_id@,
                ));
            }
        }
    }

    /// Unbinds `account_id`; every occurrence is removed.
    pub fn unbind_account(&mut self, account_id: &str)
        ensures
            final(self)@ == (InstanceView {
                account_ids: spec_unbind(old(self)@.account_ids, account_id@),
                ..old(self)@
            }),
            instance_wf(old(self)@) ==> instance_wf(final(self)@),
    {
        let ghost pred = other_than(account_id@);
        let mut kept: Vec<String> = Vec::new();
        let mut i: usize = 0;
        while i < self.account_ids.len()
            invariant
                i <= self.account_ids.len(),
                pred == other_than(account_id@),
                self@.account_ids.len() == self.account_ids.len(),
                forall|j: int|
                    0 <= j < self.account_ids.len() ==> self@.account_ids[j]
                        == self.account_ids[j]@,
                kept.deep_view() == self@.account_ids.take(i as int).filter(pred),
            decreases self.account_ids.len() - i,
        {
            proof {
                reveal(Seq::filter);
                assert(self@.account_ids.take(i + 1).drop_last() =~= self@.account_ids.take(
                    i as int,
                ));
                assert(self@.account_ids.take(i + 1).last() == self@.account_ids[i as int]);
            }
            let ghost kept0 = kept.deep_view();
            if !crate::text::str_eq(self.account_ids[i].as_str(), account_id) {
                let a = self.account_ids[i].clone();
                proof {
                    assert(a@ == self@.account_ids[i as int]);
                }
                kept.push(a);
                proof {
                    reveal(Seq::filter);
                    assert(kept.deep_view() =~= kept0.push(self@.account_ids[i as int]));
                    assert(self@.account_ids.take(i + 1).last() != account_id@);
                    assert(pred(self@.account_ids.take(i + 1).last()));
                    assert(self@.account_ids.take(i + 1).filter(pred) == kept0.push(
                        self@.account_ids[i as int],
                    ));
                }
            } else {
                proof {
                    reveal(Seq::filter);
                    assert(!pred(self@.account_ids.take(i + 1).last()));
                    assert(self@.account_ids.take(i + 1).filter(pred) == kept0);
                }
            }
            i = i + 1;
        }
        proof {
            assert(self@.account_ids.take(self.account_ids.len() as int) =~= self@.account_ids);
        }
        self.account_ids = kept;
        proof {
            if instance_wf(old(self)@) {
                lemma_filter_keeps_distinct(old(self)@.account_ids, pred);
            }
        }
    }

    /// The full launch argument list; the default instance never receives the
    /// data-directory flag.
    pub fn get_launch_args(&self) -> (r: Vec<String>)
        ensures
            r.deep_view() == spec_launch_args(self@),
    {
        let mut args: Vec<String> = Vec::new();
        if !self.is_default {
            args.push("--user-data-dir".to_owned());
            args.push(self.user_data_dir.clone());
        }
        let mut i: usize = 0;
        while i < self.extra_args.len()
            invariant
                i <= self.extra_args.len(),
                self@.extra_args.len() == self.extra_args.len(),
                forall|j: int|
                    0 <= j < self.extra_args.len() ==> self@.extra_args[j] == self.extra_args[j]@,
                args.deep_view() =~= if self.is_default {
                    self@.extra_args.take(i as int)
                } else {
                    seq!["--user-data-dir"@, self@.user_data_dir] + self@.extra_args.take(i as int)
                },
            decreases self.extra_args.len() - i,
        {
            let ghost args0 = args.deep_view();
            let a = self.extra_args[i].clone();
            proof {
                assert(a@ == self@.extra_args[i as int]);
            }
            args.push(a);
            proof {
                assert(args.deep_view() =~= args0.push(self@.extra_args[i as int]));
                assert(args.deep_view() =~= if self.is_default {
                    self@.extra_args.take(i + 1)
                } else {
                    seq!["--user-data-dir"@, self@.user_data_dir] + self@.extra_args.take(i + 1)
                });
            }
            i = i + 1;
        }
        proof {
            assert(self@.extra_args.take(self.extra_args.len() as int) =~= self@.extra_args);
            assert(args.deep_view() =~= spec_launch_args(self@));
        }
        args
    }
}

impl Clone for Instance {
    /// A field-for-field copy.
    fn clone(&self) -> (r: Instance)
        ensures
            r@ == self@,
    {
        let r = Instance {
            id: self.id.clone(),
            name: self.name.clone(),
            user_data_dir: self.user_data_dir.clone(),
            antigravity_executable: self.antigravity_executable.clone(),
            extra_args: self.extra_args.clone(),
            account_ids: self.account_ids.clone(),
            current_account_id: self.current_account_id.clone(),
            is_default: self.is_default,
            last_launch_args: self.last_launch_args.clone(),
            last_root_pid: self.last_root_pid,
            created_at: self.created_at,
        };
        proof {
            assert(r.extra_args.deep_view() =~= self.extra_args.deep_view());
            assert(r.account_ids.deep_view() =~= self.account_ids.deep_view());
            assert(r.antigravity_executable.deep_view() =~= self.antigravity_executable.deep_view());
            assert(r.current_account_id.deep_view() =~= self.current_account_id.deep_view());
            if self.last_launch_args is Some {
                assert(r.last_launch_args->0.deep_view() =~= self.last_launch_args->0.deep_view());
            }
            assert(r.last_launch_args.deep_view() =~= self.last_launch_args.deep_view());
        }
        r
    }
}

impl Clone for InstanceSummary {
    /// A field-for-field copy.
    fn clone(&self) -> (r: InstanceSummary)
        ensures
            r@ == self@,
    {
        InstanceSummary {
            id: self.id.clone(),
            name: self.name.clone(),
            user_data_dir: self.user_data_dir.clone(),
            is_default: self.is_default,
            account_count: self.account_count,
        }
    }
}

/// Every element of a filtered sequence occurs in the original.
proof fn lemma_filter_elems(s: Seq<Seq<char>>, pred: spec_fn(Seq<char>) -> bool)
    ensures
        forall|i: int| 0 <= i < s.filter(pred).len() ==> s.contains(#[trigger] s.filter(pred)[i]),
    decreases s.len(),
{
    reveal(Seq::filter);
    if s.len() > 0 {
        lemma_filter_elems(s.drop_last(), pred);
        let rest = s.drop_last().filter(pred);
        assert forall|i: int| 0 <= i < s.filter(pred).len() implies s.contains(
            #[trigger] s.filter(pred)[i],
        ) by {
            if i < rest.len() {
                let e = rest[i];
                let k = choose|k: int| 0 <= k < s.drop_last().len() && s.drop_last()[k] == e;
                assert(s[k] == e);
            } else {
                assert(s[s.len() - 1] == s.filter(pred)[i]);
            }
        }
    }
}

/// Filtering a duplicate-free sequence keeps it duplicate-free.
proof fn lemma_filter_keeps_distinct(ids: Seq<Seq<char>>, pred: spec_fn(Seq<char>) -> bool)
    requires
        forall|i: int, j: int| 0 <= i < j < ids.len() ==> ids[i] != ids[j],
    ensures
        forall|i: int, j: int|
            0 <= i < j < ids.filter(pred).len() ==> ids.filter(pred)[i] != ids.filter(pred)[j],
    decreases ids.len(),
{
    reveal(Seq::filter);
    if ids.len() > 0 {
        lemma_filter_keeps_distinct(ids.drop_last(), pred);
        lemma_filter_elems(ids.drop_last(), pred);
        let rest = ids.drop_last().filter(pred);
        assert forall|i: int, j: int|
            0 <= i < j < ids.filter(pred).len() implies ids.filter(pred)[i] != ids.filter(
            pred,
        )[j] by {
            if pred(ids.last()) && j == rest.len() {
                let e = rest[i];
                let k = choose|k: int| 0 <= k < ids.drop_last().len() && ids.drop_last()[k] == e;
                assert(ids[k] == e);
            }
        }
    }
}

/// Binding is idempotent: binding the same account a second time leaves
/// the account list exactly as the first binding left it.
pub proof fn lemma_bind_idempotent(ids: Seq<Seq<char>>, account: Seq<char>)
    ensures
        spec_bind(spec_bind(ids, account), account) == spec_bind(ids, account),
{
    if !ids.contains(account) {
        assert(spec_bind(ids, account)[ids.len() as int] == account);
        assert(spec_bind(ids, account).contains(account));
    }
}

/// The launch arguments of a non-default instance always begin with the
/// data-directory flag immediately followed by the directory; those of the
/// default instance never carry the flag, provided its extra arguments do
/// not themselves carry it.
pub proof fn lemma_launch_args_directory_flag(v: InstanceView)
    requires
        v.is_default ==> !v.extra_args.contains("--user-data-dir"@),
    ensures
        v.is_default ==> !spec_launch_args(v).contains("--user-data-dir"@),
        !v.is_default ==> spec_launch_args(v).len() >= 2 && spec_launch_args(v)[0]
            == "--user-data-dir"@ && spec_launch_args(v)[1] == v.user_data_dir,
{
    if !v.is_default {
        assert(spec_launch_args(v)[0] == "--user-data-dir"@);
        assert(spec_launch_args(v)[1] == v.user_data_dir);
    }
}

/// The mathematical content of an `InstanceSummary`.
pub ghost struct SummaryView {
    pub id: Seq<char>,
    pub name: Seq<char>,
    pub user_data_dir: Seq<char>,
    pub is_default: bool,
    pub account_count: usize,
}

/// The lightweight projection of an instance kept in the catalogue index.
pub struct InstanceSummary {
    pub id: String,
    pub name: String,
    pub user_data_dir: String,
    pub is_default: bool,
    pub account_count: usize,
}

impl View for InstanceSummary {
    type V = SummaryView;

    open spec fn view(&self) -> SummaryView {
        SummaryView {
            id: self.id@,
            name: self.name@,
            user_data_dir: self.user_data_dir@,
            is_default: self.is_default,
            account_count: self.account_count,
        }
    }
}

impl DeepView for InstanceSummary {
    type V = SummaryView;

    open spec fn deep_view(&self) -> SummaryView {
        self.view()
    }
}

/// The summary an instance projects to.
pub open spec fn spec_summary_of(v: InstanceView) -> SummaryView {
    SummaryView {
        id: v.id,
        name: v.name,
        user_data_dir: v.user_data_dir,
        is_default: v.is_default,
        account_count: v.account_ids.len() as usize,
    }
}

impl InstanceSummary {
    /// The summary projection of `instance`.
    pub fn from_instance(instance: &Instance) -> (r: InstanceSummary)
        ensures
            r@ == spec_summary_of(instance@),
    {
        InstanceSummary {
            id: instance.id.clone(),
            name: instance.name.clone(),
            user_data_dir: instance.user_data_dir.clone(),
            is_default: instance.is_default,
            account_count: instance.account_ids.len(),
        }
    }
}

/// The mathematical content of an `InstanceIndex`.
pub ghost struct IndexView {
    pub version: Seq<char>,
    pub instances: Seq<SummaryView>,
}

/// The catalogue of instances: a format version and the ordered summaries.
pub struct InstanceIndex {
    pub version: String,
    pub instances: Vec<InstanceSummary>,
}

impl View for InstanceIndex {
    type V = IndexView;

    open spec fn view(&self) -> IndexView {
        IndexView { version: self.version@, instances: self.instances.deep_view() }
    }
}

impl DeepView for InstanceIndex {
    type V = IndexView;

    open spec fn deep_view(&self) -> IndexView {
        self.view()
    }
}

impl InstanceIndex {
    /// An empty catalogue at the current format version.
    pub fn new() -> (r: InstanceIndex)
        ensures
            r@.version == "1.0"@,
            r@.instances =~= Seq::<SummaryView>::empty(),
    {
        InstanceIndex { version: "1.0".to_owned(), instances: Vec::new() }
    }
}

impl Default for InstanceIndex {
    fn default() -> (r: InstanceIndex)
        ensures
            r@.version == "1.0"@,
            r@.instances =~= Seq::<SummaryView>::empty(),
    {
        InstanceIndex::new()
    }
}

} // verus!
