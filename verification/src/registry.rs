//! The in-memory instance registry: the catalogue index plus the full
//! records, mutated under exact contracts. Persistence (reading and writing
//! the index file and one record file per instance, under the global
//! mutation lock) is the embedding program's concern; every rule about what
//! the store holds lives here.

use vstd::prelude::*;

use crate::errors::{ErrorKind, OpError};
use crate::model::{
    spec_bind, spec_summary_of, spec_unbind, instance_wf, Instance, InstanceIndex,
    InstanceSummary, InstanceView, SummaryView,
};
use crate::text::str_eq;
use vstd::pervasive::VecAdditionalExecFns;

verus! {

broadcast use vstd::seq_lib::group_seq_lib_default;

/// The mathematical content of a `Registry`.
pub ghost struct RegistryView {
    pub version: Seq<char>,
    pub summaries: Seq<SummaryView>,
    pub records: Seq<InstanceView>,
}

/// The registry: the summary index and the full records it refers to.
/// A summary may dangle (its record was lost); listing self-heals that.
pub struct Registry {
    pub index: InstanceIndex,
    pub records: Vec<Instance>,
}

impl View for Registry {
    type V = RegistryView;

    open spec fn view(&self) -> RegistryView {
        RegistryView {
            version: self.index.version@,
            summaries: self.index.instances.deep_view(),
            records: self.records.deep_view(),
        }
    }
}

/// Some record carries `id`.
pub open spec fn has_record(recs: Seq<InstanceView>, id: Seq<char>) -> bool {
    exists|i: int| 0 <= i < recs.len() && recs[i].id == id
}

/// The position of the record carrying `id`.
pub open spec fn record_idx(recs: Seq<InstanceView>, id: Seq<char>) -> int {
    choose|i: int| 0 <= i < recs.len() && recs[i].id == id
}

/// The record carrying `id`.
pub open spec fn record_of(recs: Seq<InstanceView>, id: Seq<char>) -> InstanceView {
    recs[record_idx(recs, id)]
}

/// The records after storing `v`: the record with the same id is replaced,
/// or `v` is appended — the semantics of writing one record file per id.
pub open spec fn spec_put(recs: Seq<InstanceView>, v: InstanceView) -> Seq<InstanceView> {
    if has_record(recs, v.id) {
        recs.update(record_idx(recs, v.id), v)
    } else {
        recs.push(v)
    }
}

/// Some record is the default instance.
pub open spec fn has_default(recs: Seq<InstanceView>) -> bool {
    exists|i: int| 0 <= i < recs.len() && recs[i].is_default
}

/// The default record.
pub open spec fn default_of(recs: Seq<InstanceView>) -> InstanceView {
    recs[choose|i: int| 0 <= i < recs.len() && recs[i].is_default]
}

/// A summary is backed when a record carries its id.
pub open spec fn backed(recs: Seq<InstanceView>) -> spec_fn(SummaryView) -> bool {
    |s: SummaryView| has_record(recs, s.id)
}

/// A summary carries another id than `id`.
pub open spec fn sum_other_than(id: Seq<char>) -> spec_fn(SummaryView) -> bool {
    |s: SummaryView| s.id != id
}

/// A record carries another id than `id`.
pub open spec fn rec_other_than(id: Seq<char>) -> spec_fn(InstanceView) -> bool {
    |r: InstanceView| r.id != id
}

/// The instances the index refers to, in index order, skipping summaries
/// whose record is gone.
pub open spec fn listed_views(sums: Seq<SummaryView>, recs: Seq<InstanceView>) -> Seq<InstanceView>
    decreases sums.len(),
{
    if sums.len() == 0 {
        Seq::empty()
    } else {
        let rest = listed_views(sums.drop_last(), recs);
        if has_record(recs, sums.last().id) {
            rest.push(record_of(recs, sums.last().id))
        } else {
            rest
        }
    }
}

/// The instances the registry lists.
pub open spec fn listed(v: RegistryView) -> Seq<InstanceView> {
    listed_views(v.summaries, v.records)
}

/// Registry well-formedness: record ids are unique, at most one record is
/// the default instance, every record has an index entry, and each record
/// is itself well formed.
pub open spec fn registry_wf(v: RegistryView) -> bool {
    &&& forall|i: int, j: int|
        0 <= i < j < v.records.len() ==> v.records[i].id != v.records[j].id
    &&& forall|i: int, j: int|
        0 <= i < j < v.records.len() ==> !(v.records[i].is_default && v.records[j].is_default)
    &&& forall|i: int|
        0 <= i < v.records.len() ==> has_record_summary(v.summaries, v.records[i].id)
    &&& forall|i: int| 0 <= i < v.records.len() ==> instance_wf(v.records[i])
}

/// Some summary carries `id`.
pub open spec fn has_record_summary(sums: Seq<SummaryView>, id: Seq<char>) -> bool {
    exists|j: int| 0 <= j < sums.len() && sums[j].id == id
}

/// Every listed instance is a record.
proof fn lemma_listed_elems(sums: Seq<SummaryView>, recs: Seq<InstanceView>)
    ensures
        forall|k: int|
            0 <= k < listed_views(sums, recs).len() ==> recs.contains(
                #[trigger] listed_views(sums, recs)[k],
            ),
    decreases sums.len(),
{
    if sums.len() > 0 {
        lemma_listed_elems(sums.drop_last(), recs);
        let lv = listed_views(sums, recs);
        let rest = listed_views(sums.drop_last(), recs);
        assert forall|k: int| 0 <= k < lv.len() implies recs.contains(#[trigger] lv[k]) by {
            if k < rest.len() {
                assert(lv[k] == rest[k]);
                assert(recs.contains(rest[k]));
            } else {
                let idx = record_idx(recs, sums.last().id);
                assert(recs[idx] == lv[k]);
                assert(recs.contains(recs[idx]));
            }
        }
    }
}

/// A record whose id some summary carries is listed.
proof fn lemma_listed_complete(sums: Seq<SummaryView>, recs: Seq<InstanceView>, t: int)
    requires
        0 <= t < recs.len(),
        has_record_summary(sums, recs[t].id),
        forall|i: int, j: int| 0 <= i < j < recs.len() ==> recs[i].id != recs[j].id,
    ensures
        listed_views(sums, recs).contains(recs[t]),
    decreases sums.len(),
{
    let lv = listed_views(sums, recs);
    if sums.len() > 0 {
        if sums.last().id == recs[t].id {
            let idx = record_idx(recs, recs[t].id);
            assert(recs[idx].id == recs[t].id);
            assert(idx == t);
            assert(lv.last() == recs[t]);
            assert(lv.contains(recs[t]));
        } else {
            assert(has_record_summary(sums.drop_last(), recs[t].id)) by {
                let j = choose|j: int| 0 <= j < sums.len() && sums[j].id == recs[t].id;
                assert(sums.drop_last()[j] == sums[j]);
            }
            lemma_listed_complete(sums.drop_last(), recs, t);
            let rest = listed_views(sums.drop_last(), recs);
            let k = choose|k: int| 0 <= k < rest.len() && rest[k] == recs[t];
            if has_record(recs, sums.last().id) {
                assert(lv[k] == recs[t]);
            }
        }
    }
}

impl Registry {
    /// An empty registry, as on first run.
    pub fn new() -> (r: Registry)
        ensures
            registry_wf(r@),
            r@.summaries =~= Seq::<SummaryView>::empty(),
            r@.records =~= Seq::<InstanceView>::empty(),
    {
        Registry { index: InstanceIndex::new(), records: Vec::new() }
    }

    /// The position of the record carrying `instance_id`, if any.
    fn find_record(&self, instance_id: &str) -> (r: Option<usize>)
        ensures
            match r {
                Some(i) => 0 <= i < self@.records.len() && self@.records[i as int].id
                    == instance_id@ && forall|j: int|
                    0 <= j < i ==> self@.records[j].id != instance_id@,
                None => !has_record(self@.records, instance_id@),
            },
    {
        let mut i: usize = 0;
        while i < self.records.len()
            invariant
                i <= self.records.len(),
                self@.records.len() == self.records.len(),
                forall|j: int|
                    0 <= j < self.records.len() ==> self@.records[j] == self.records[j]@,
                forall|j: int| 0 <= j < i ==> self@.records[j].id != instance_id@,
            decreases self.records.len() - i,
        {
            if str_eq(self.records[i].id.as_str(), instance_id) {
                return Some(i);
            }
            i = i + 1;
        }
        None
    }

    /// Stores `instance`, replacing the record with the same id or appending.
    fn put_record(&mut self, instance: Instance)
        requires
            forall|i: int, j: int|
                0 <= i < j < old(self)@.records.len() ==> old(self)@.records[i].id != old(
                    self,
                )@.records[j].id,
        ensures
            final(self)@.records == spec_put(old(self)@.records, instance@),
            final(self)@.summaries == old(self)@.summaries,
            final(self)@.version == old(self)@.version,
    {
        let found = self.find_record(instance.id.as_str());
        match found {
            Some(i) => {
                proof {
                    let gi = record_idx(old(self)@.records, instance@.id);
                    assert(old(self)@.records[gi].id == instance@.id);
                    assert(gi == i as int);
                }
                self.records.set(i, instance);
                proof {
                    assert(final(self)@.records =~= spec_put(old(self)@.records, instance@));
                }
            },
            None => {
                self.records.push(instance);
                proof {
                    assert(final(self)@.records =~= spec_put(old(self)@.records, instance@));
                }
            },
        }
    }

    /// Lists every instance the index refers to, in index order, and prunes
    /// index entries whose record is gone, so the next index save no longer
    /// carries them.
    pub fn list_instances(&mut self) -> (r: Vec<Instance>)
        requires
            registry_wf(old(self)@),
        ensures
            registry_wf(final(self)@),
            r.deep_view() == listed(old(self)@),
            final(self)@.records == old(self)@.records,
            final(self)@.version == old(self)@.version,
            final(self)@.summaries == old(self)@.summaries.filter(backed(old(self)@.records)),
            listed(final(self)@) == listed(old(self)@),
    {
        let ghost sums = self@.summaries;
        let ghost recs = self@.records;
        let mut out: Vec<Instance> = Vec::new();
        let mut kept: Vec<InstanceSummary> = Vec::new();
        let mut i: usize = 0;
        while i < self.index.instances.len()
            invariant
                i <= self.index.instances.len(),
                sums == self@.summaries,
                recs == self@.records,
                registry_wf(self@),
                sums.len() == self.index.instances.len(),
                forall|j: int|
                    0 <= j < self.index.instances.len() ==> sums[j] == self.index.instances[j]@,
                out.deep_view() == listed_views(sums.take(i as int), recs),
                kept.deep_view() == sums.take(i as int).filter(backed(recs)),
            decreases self.index.instances.len() - i,
        {
            proof {
                reveal(Seq::filter);
                assert(sums.take(i + 1).drop_last() =~= sums.take(i as int));
                assert(sums.take(i + 1).last() == sums[i as int]);
            }
            let sid = self.index.instances[i].id.clone();
            let ghost out0 = out.deep_view();
            let ghost kept0 = kept.deep_view();
            match self.find_record(sid.as_str()) {
                Some(k) => {
                    let inst = self.records[k].clone();
                    out.push(inst);
                    let s = self.index.instances[i].clone();
                    kept.push(s);
                    proof {
                        let gi = record_idx(recs, sums[i as int].id);
                        assert(recs[gi].id == sums[i as int].id);
                        assert(gi == k as int);
                        assert(out.deep_view() =~= out0.push(record_of(recs, sums[i as int].id)));
                        assert(kept.deep_view() =~= kept0.push(sums[i as int]));
                        assert(backed(recs)(sums.take(i + 1).last()));
                        assert(kept.deep_view() == sums.take(i + 1).filter(backed(recs)));
                    }
                },
                None => {
                    proof {
                        assert(!backed(recs)(sums.take(i + 1).last()));
                        assert(out.deep_view() == listed_views(sums.take(i + 1), recs));
                        assert(kept.deep_view() == sums.take(i + 1).filter(backed(recs)));
                    }
                },
            }
            i = i + 1;
        }
        proof {
            assert(sums.take(sums.len() as int) =~= sums);
        }
        self.index.instances = kept;
        proof {
            lemma_prune_keeps_wf(old(self)@, final(self)@);
            lemma_prune_keeps_listed(sums, recs);
        }
        out
    }
}

impl Registry {
    /// Creates a new non-default instance. Fails with a conflict, changing
    /// nothing, exactly when the directory is already used by an index entry.
    pub fn create_instance(
        &mut self,
        name: String,
        user_data_dir: String,
        extra_args: Vec<String>,
    ) -> (r: Result<Instance, OpError>)
        requires
            registry_wf(old(self)@),
        ensures
            registry_wf(final(self)@),
            match r {
                Err(e) => e.kind == ErrorKind::Conflict && final(self)@ == old(self)@ && exists|
                    i: int,
                |
                    0 <= i < old(self)@.summaries.len() && old(self)@.summaries[i].user_data_dir
                        == user_data_dir@,
                Ok(inst) => {
                    &&& forall|i: int|
                        0 <= i < old(self)@.summaries.len()
                            ==> old(self)@.summaries[i].user_data_dir != user_data_dir@
                    &&& inst@.name == name@
                    &&& inst@.user_data_dir == user_data_dir@
                    &&& inst@.extra_args == extra_args.deep_view()
                    &&& inst@.account_ids =~= Seq::<Seq<char>>::empty()
                    &&& !inst@.is_default
                    &&& inst@.current_account_id is None
                    &&& final(self)@.records == spec_put(old(self)@.records, inst@)
                    &&& final(self)@.summaries == old(self)@.summaries.push(
                        spec_summary_of(inst@),
                    )
                    &&& final(self)@.version == old(self)@.version
                },
            },
    {
        let mut i: usize = 0;
        while i < self.index.instances.len()
            invariant
                i <= self.index.instances.len(),
                self@ == old(self)@,
                registry_wf(self@),
                self@.summaries.len() == self.index.instances.len(),
                forall|j: int|
                    0 <= j < self.index.instances.len() ==> self@.summaries[j]
                        == self.index.instances[j]@,
                forall|j: int| 0 <= j < i ==> self@.summaries[j].user_data_dir != user_data_dir@,
            decreases self.index.instances.len() - i,
        {
            if str_eq(self.index.instances[i].user_data_dir.as_str(), user_data_dir.as_str()) {
                let mut message: String = "user_data_dir already in use by instance: ".to_owned();
                message.append(self.index.instances[i].name.as_str());
                proof {
                    assert(self@.summaries[i as int].user_data_dir == user_data_dir@);
                }
                return Err(OpError::new(ErrorKind::Conflict, message));
            }
            i = i + 1;
        }
        let instance_id = crate::model::new_uuid();
        let mut instance = Instance::new(instance_id, name, user_data_dir);
        instance.extra_args = extra_args;
        let summary = InstanceSummary::from_instance(&instance);
        let ghost v0 = self@;
        self.put_record(instance.clone());
        self.index.instances.push(summary);
        proof {
            assert(final(self)@.summaries =~= v0.summaries.push(spec_summary_of(instance@)));
            let n = v0.summaries.len() as int;
            assert(final(self)@.summaries[n].id == instance@.id);
            assert(has_record_summary(final(self)@.summaries, instance@.id));
            assert forall|id: Seq<char>|
                has_record_summary(v0.summaries, id) implies #[trigger] has_record_summary(
                final(self)@.summaries,
                id,
            ) by {
                let j = choose|j: int| 0 <= j < v0.summaries.len() && v0.summaries[j].id == id;
                assert(final(self)@.summaries[j].id == id);
            }
            lemma_put_keeps_wf(v0, final(self)@, instance@);
        }
        Ok(instance)
    }

    /// Deletes the instance. The default instance is refused with a conflict
    /// and nothing changes; an unknown id is reported as not found.
    pub fn delete_instance(&mut self, instance_id: &str) -> (r: Result<(), OpError>)
        requires
            registry_wf(old(self)@),
        ensures
            registry_wf(final(self)@),
            match r {
                Err(e) => final(self)@ == old(self)@ && (if has_record(
                    old(self)@.records,
                    instance_id@,
                ) {
                    e.kind == ErrorKind::Conflict && record_of(
                        old(self)@.records,
                        instance_id@,
                    ).is_default
                } else {
                    e.kind == ErrorKind::NotFound
                }),
                Ok(()) => {
                    &&& has_record(old(self)@.records, instance_id@)
                    &&& !record_of(old(self)@.records, instance_id@).is_default
                    &&& final(self)@.records == old(self)@.records.filter(
                        rec_other_than(instance_id@),
                    )
                    &&& final(self)@.summaries == old(self)@.summaries.filter(
                        sum_other_than(instance_id@),
                    )
                    &&& final(self)@.version == old(self)@.version
                },
            },
    {
        let found = self.find_record(instance_id);
        let k = match found {
            None => {
                let mut message: String = "Instance not found: ".to_owned();
                message.append(instance_id);
                return Err(OpError::new(ErrorKind::NotFound, message));
            },
            Some(k) => k,
        };
        proof {
            let gi = record_idx(self@.records, instance_id@);
            assert(self@.records[gi].id == instance_id@);
            assert(gi == k as int);
        }
        if self.records[k].is_default {
            return Err(
                OpError::new(ErrorKind::Conflict, "Cannot delete default instance".to_owned()),
            );
        }
        let ghost v0 = self@;
        let mut kept_sums: Vec<InstanceSummary> = Vec::new();
        let mut i: usize = 0;
        while i < self.index.instances.len()
            invariant
                i <= self.index.instances.len(),
                self@ == v0,
                v0.summaries.len() == self.index.instances.len(),
                forall|j: int|
                    0 <= j < self.index.instances.len() ==> v0.summaries[j]
                        == self.index.instances[j]@,
                kept_sums.deep_view() == v0.summaries.take(i as int).filter(
                    sum_other_than(instance_id@),
                ),
            decreases self.index.instances.len() - i,
        {
            proof {
                reveal(Seq::filter);
                assert(v0.summaries.take(i + 1).drop_last() =~= v0.summaries.take(i as int));
                assert(v0.summaries.take(i + 1).last() == v0.summaries[i as int]);
            }
            let ghost kept0 = kept_sums.deep_view();
            if !str_eq(self.index.instances[i].id.as_str(), instance_id) {
                let s = self.index.instances[i].clone();
                kept_sums.push(s);
                proof {
                    assert(kept_sums.deep_view() =~= kept0.push(v0.summaries[i as int]));
                    assert(sum_other_than(instance_id@)(v0.summaries[i as int]));
                }
            } else {
                proof {
                    assert(!sum_other_than(instance_id@)(v0.summaries[i as int]));
                }
            }
            i = i + 1;
        }
        let mut kept_recs: Vec<Instance> = Vec::new();
        let mut t: usize = 0;
        while t < self.records.len()
            invariant
                t <= self.records.len(),
                self@ == v0,
                v0.records.len() == self.records.len(),
                forall|j: int| 0 <= j < self.records.len() ==> v0.records[j] == self.records[j]@,
                kept_recs.deep_view() == v0.records.take(t as int).filter(
                    rec_other_than(instance_id@),
                ),
            decreases self.records.len() - t,
        {
            proof {
                reveal(Seq::filter);
                assert(v0.records.take(t + 1).drop_last() =~= v0.records.take(t as int));
                assert(v0.records.take(t + 1).last() == v0.records[t as int]);
            }
            let ghost kept0 = kept_recs.deep_view();
            if !str_eq(self.records[t].id.as_str(), instance_id) {
                let rec = self.records[t].clone();
                kept_recs.push(rec);
                proof {
                    assert(kept_recs.deep_view() =~= kept0.push(v0.records[t as int]));
                    assert(rec_other_than(instance_id@)(v0.records[t as int]));
                }
            } else {
                proof {
                    assert(!rec_other_than(instance_id@)(v0.records[t as int]));
                }
            }
            t = t + 1;
        }
        proof {
            assert(v0.summaries.take(v0.summaries.len() as int) =~= v0.summaries);
            assert(v0.records.take(v0.records.len() as int) =~= v0.records);
        }
        self.index.instances = kept_sums;
        self.records = kept_recs;
        proof {
            lemma_delete_keeps_wf(v0, final(self)@, instance_id@);
        }
        Ok(())
    }

    /// Overwrites the record of an existing instance and refreshes its index
    /// summary; an unknown id is reported as not found and nothing changes.
    pub fn update_instance(&mut self, instance: &Instance) -> (r: Result<(), OpError>)
        requires
            registry_wf(old(self)@),
            instance_wf(instance@),
            instance@.is_default ==> forall|i: int|
                0 <= i < old(self)@.records.len() && old(self)@.records[i].id != instance@.id
                    ==> !old(self)@.records[i].is_default,
        ensures
            registry_wf(final(self)@),
            match r {
                Err(e) => e.kind == ErrorKind::NotFound && final(self)@ == old(self)@
                    && !has_record(old(self)@.records, instance@.id),
                Ok(()) => {
                    &&& has_record(old(self)@.records, instance@.id)
                    &&& final(self)@.records == spec_put(old(self)@.records, instance@)
                    &&& final(self)@.version == old(self)@.version
                    &&& summaries_refreshed(
                        old(self)@.summaries,
                        final(self)@.summaries,
                        spec_summary_of(instance@),
                    )
                },
            },
    {
        let found = self.find_record(instance.id.as_str());
        if found.is_none() {
            let mut message: String = "Instance not found: ".to_owned();
            message.append(instance.id.as_str());
            return Err(OpError::new(ErrorKind::NotFound, message));
        }
        let ghost v0 = self@;
        self.put_record(instance.clone());
        self.refresh_summary(&InstanceSummary::from_instance(instance));
        proof {
            lemma_refresh_keeps_ids(v0.summaries, final(self)@.summaries, spec_summary_of(
                instance@,
            ));
            let gi = record_idx(v0.records, instance@.id);
            assert(v0.records[gi].id == instance@.id);
            assert(has_record_summary(v0.summaries, instance@.id));
            lemma_put_keeps_wf(v0, final(self)@, instance@);
        }
        Ok(())
    }

    /// Rewrites the first index summary carrying `summary.id`, if any.
    fn refresh_summary(&mut self, summary: &InstanceSummary)
        ensures
            final(self)@.records == old(self)@.records,
            final(self)@.version == old(self)@.version,
            summaries_refreshed(old(self)@.summaries, final(self)@.summaries, summary@),
    {
        let mut i: usize = 0;
        while i < self.index.instances.len()
            invariant
                i <= self.index.instances.len(),
                self@ == old(self)@,
                self@.summaries.len() == self.index.instances.len(),
                forall|j: int|
                    0 <= j < self.index.instances.len() ==> self@.summaries[j]
                        == self.index.instances[j]@,
                forall|j: int| 0 <= j < i ==> self@.summaries[j].id != summary@.id,
            decreases self.index.instances.len() - i,
        {
            if str_eq(self.index.instances[i].id.as_str(), summary.id.as_str()) {
                self.index.instances.set(i, summary.clone());
                proof {
                    assert(final(self)@.summaries =~= old(self)@.summaries.update(
                        i as int,
                        summary@,
                    ));
                    assert(old(self)@.summaries[i as int].id == summary@.id);
                    assert(has_record_summary(old(self)@.summaries, summary@.id));
                    let ghost sums0 = old(self)@.summaries;
                    let ghost sums1 = final(self)@.summaries;
                    assert(0 <= i < sums0.len() && sums0[i as int].id == summary@.id && (forall|
                        j: int,
                    | 0 <= j < i ==> sums0[j].id != summary@.id) && sums1 == sums0.update(
                        i as int,
                        summary@,
                    ));
                }
                return ;
            }
            i = i + 1;
        }
        proof {
            assert(!has_record_summary(self@.summaries, summary@.id));
        }
    }
}

/// Refreshing one summary keeps every id that the index carried, and makes
/// the refreshed id present where it was present.
proof fn lemma_refresh_keeps_ids(sums0: Seq<SummaryView>, sums1: Seq<SummaryView>, s: SummaryView)
    requires
        summaries_refreshed(sums0, sums1, s),
    ensures
        forall|id: Seq<char>|
            has_record_summary(sums0, id) ==> #[trigger] has_record_summary(sums1, id),
{
    if has_record_summary(sums0, s.id) {
        let i = choose|i: int|
            0 <= i < sums0.len() && sums0[i].id == s.id && (forall|j: int|
                0 <= j < i ==> sums0[j].id != s.id) && sums1 == sums0.update(i, s);
        assert forall|id: Seq<char>|
            has_record_summary(sums0, id) implies #[trigger] has_record_summary(sums1, id) by {
            let j = choose|j: int| 0 <= j < sums0.len() && sums0[j].id == id;
            if j == i {
                assert(sums1[i].id == s.id);
                assert(sums0[i].id == id);
            } else {
                assert(sums1[j].id == id);
            }
        }
    }
}

/// `v` with `account` bound.
pub open spec fn spec_with_bound(v: InstanceView, account: Seq<char>) -> InstanceView {
    InstanceView { account_ids: spec_bind(v.account_ids, account), ..v }
}

/// `v` with `account` unbound.
pub open spec fn spec_with_unbound(v: InstanceView, account: Seq<char>) -> InstanceView {
    InstanceView { account_ids: spec_unbind(v.account_ids, account), ..v }
}

/// `v` with `account` as the active account.
pub open spec fn spec_with_current(v: InstanceView, account: Seq<char>) -> InstanceView {
    InstanceView { current_account_id: Some(account), ..v }
}

/// An instance that has `account` bound.
pub open spec fn with_account(account: Seq<char>) -> spec_fn(InstanceView) -> bool {
    |v: InstanceView| v.account_ids.contains(account)
}

impl Registry {
    /// The default instance, if one exists; listing side effects apply.
    pub fn get_default_instance(&mut self) -> (r: Result<Option<Instance>, OpError>)
        requires
            registry_wf(old(self)@),
        ensures
            registry_wf(final(self)@),
            final(self)@.records == old(self)@.records,
            final(self)@.version == old(self)@.version,
            final(self)@.summaries == old(self)@.summaries.filter(backed(old(self)@.records)),
            match r {
                Ok(opt) => match opt {
                    Some(d) => has_default(old(self)@.records) && d@ == default_of(
                        old(self)@.records,
                    ),
                    None => !has_default(old(self)@.records),
                },
                Err(e) => false,
            },
    {
        let ghost v0 = self@;
        let insts = self.list_instances();
        let ghost lv = listed(v0);
        let mut i: usize = 0;
        while i < insts.len()
            invariant
                i <= insts.len(),
                registry_wf(v0),
                v0 == old(self)@,
                registry_wf(self@),
                self@.records == v0.records,
                self@.version == v0.version,
                self@.summaries == v0.summaries.filter(backed(v0.records)),
                insts.deep_view() == lv,
                lv == listed(v0),
                insts.len() == lv.len(),
                forall|j: int| 0 <= j < insts.len() ==> insts[j]@ == lv[j],
                forall|j: int| 0 <= j < i ==> !lv[j].is_default,
            decreases insts.len() - i,
        {
            if insts[i].is_default {
                proof {
                    lemma_listed_elems(v0.summaries, v0.records);
                    assert(v0.records.contains(lv[i as int]));
                    let a = choose|a: int|
                        0 <= a < v0.records.len() && v0.records[a] == lv[i as int];
                    assert(has_default(v0.records));
                    let b = choose|b: int| 0 <= b < v0.records.len() && v0.records[b].is_default;
                    assert(a == b);
                }
                return Ok(Some(insts[i].clone()));
            }
            i = i + 1;
        }
        proof {
            if has_default(v0.records) {
                let b = choose|b: int| 0 <= b < v0.records.len() && v0.records[b].is_default;
                lemma_listed_complete(v0.summaries, v0.records, b);
                let k = choose|k: int| 0 <= k < lv.len() && lv[k] == v0.records[b];
                assert(!lv[k].is_default);
            }
        }
        Ok(None)
    }

    /// Returns the default instance, creating it — bound to `user_data_dir`
    /// — when none exists yet; never creates a second default.
    pub fn ensure_default_instance(&mut self, user_data_dir: String) -> (r: Result<
        Instance,
        OpError,
    >)
        requires
            registry_wf(old(self)@),
        ensures
            registry_wf(final(self)@),
            match r {
                Err(e) => false,
                Ok(inst) => {
                    &&& inst@.is_default
                    &&& has_default(final(self)@.records)
                    &&& inst@ == default_of(final(self)@.records)
                    &&& final(self)@.version == old(self)@.version
                    &&& if has_default(old(self)@.records) {
                        &&& inst@ == default_of(old(self)@.records)
                        &&& final(self)@.records == old(self)@.records
                        &&& final(self)@.summaries == old(self)@.summaries.filter(
                            backed(old(self)@.records),
                        )
                    } else {
                        &&& inst@.user_data_dir == user_data_dir@
                        &&& inst@.account_ids =~= Seq::<Seq<char>>::empty()
                        &&& final(self)@.records == spec_put(old(self)@.records, inst@)
                        &&& final(self)@.summaries == old(self)@.summaries.filter(
                            backed(old(self)@.records),
                        ).push(spec_summary_of(inst@))
                    }
                },
            },
    {
        let existing = self.get_default_instance();
        match existing {
            Ok(Some(instance)) => {
                return Ok(instance);
            },
            _ => {},
        }
        let ghost v1 = self@;
        let instance = Instance::new_default(user_data_dir);
        let summary = InstanceSummary::from_instance(&instance);
        self.put_record(instance.clone());
        self.index.instances.push(summary);
        proof {
            assert(final(self)@.summaries =~= v1.summaries.push(spec_summary_of(instance@)));
            let n = v1.summaries.len() as int;
            assert(final(self)@.summaries[n].id == instance@.id);
            assert(has_record_summary(final(self)@.summaries, instance@.id));
            assert forall|id: Seq<char>|
                has_record_summary(v1.summaries, id) implies #[trigger] has_record_summary(
                final(self)@.summaries,
                id,
            ) by {
                let j = choose|j: int| 0 <= j < v1.summaries.len() && v1.summaries[j].id == id;
                assert(final(self)@.summaries[j].id == id);
            }
            lemma_put_keeps_wf(v1, final(self)@, instance@);
            if !has_record(v1.records, instance@.id) {
                let n = final(self)@.records.len() - 1;
                assert(final(self)@.records[n] == instance@);
                assert(has_default(final(self)@.records));
                let gd = choose|gd: int|
                    0 <= gd < final(self)@.records.len() && final(self)@.records[gd].is_default;
                lemma_default_unique(final(self)@, gd, n);
            } else {
                let gi = record_idx(v1.records, instance@.id);
                assert(final(self)@.records[gi] == instance@);
                assert(has_default(final(self)@.records));
                let gd = choose|gd: int|
                    0 <= gd < final(self)@.records.len() && final(self)@.records[gd].is_default;
                lemma_default_unique(final(self)@, gd, gi);
            }
        }
        Ok(instance)
    }

    /// Binds `account_id` to the instance and refreshes the summary's
    /// account count; binding twice changes nothing further.
    pub fn bind_account_to_instance(&mut self, account_id: &str, instance_id: &str) -> (r: Result<
        (),
        OpError,
    >)
        requires
            registry_wf(old(self)@),
        ensures
            registry_wf(final(self)@),
            match r {
                Err(e) => e.kind == ErrorKind::NotFound && final(self)@ == old(self)@
                    && !has_record(old(self)@.records, instance_id@),
                Ok(()) => {
                    &&& has_record(old(self)@.records, instance_id@)
                    &&& final(self)@.records == spec_put(
                        old(self)@.records,
                        spec_with_bound(record_of(old(self)@.records, instance_id@), account_id@),
                    )
                    &&& final(self)@.version == old(self)@.version
                    &&& summaries_counted(
                        old(self)@.summaries,
                        final(self)@.summaries,
                        instance_id@,
                        spec_with_bound(
                            record_of(old(self)@.records, instance_id@),
                            account_id@,
                        ).account_ids.len() as usize,
                    )
                },
            },
    {
        let found = self.find_record(instance_id);
        let k = match found {
            None => {
                let mut message: String = "Instance not found: ".to_owned();
                message.append(instance_id);
                return Err(OpError::new(ErrorKind::NotFound, message));
            },
            Some(k) => k,
        };
        proof {
            let gi = record_idx(self@.records, instance_id@);
            assert(self@.records[gi].id == instance_id@);
            assert(gi == k as int);
        }
        let mut instance = self.records[k].clone();
        instance.bind_account(account_id.to_owned());
        let count = instance.account_ids.len();
        let ghost v0 = self@;
        let ghost bound = spec_with_bound(record_of(v0.records, instance_id@), account_id@);
        proof {
            assert(instance@ == bound);
            assert(instance_wf(record_of(v0.records, instance_id@)));
        }
        self.put_record(instance);
        self.set_summary_count(instance_id, count);
        proof {
            lemma_counted_keeps_ids(v0.summaries, final(self)@.summaries, instance_id@, count);
            assert(has_record_summary(v0.summaries, instance_id@));
            lemma_put_keeps_wf(v0, final(self)@, bound);
        }
        Ok(())
    }

    /// Unbinds `account_id` from the instance and refreshes the summary's
    /// account count.
    pub fn unbind_account_from_instance(
        &mut self,
        account_id: &str,
        instance_id: &str,
    ) -> (r: Result<(), OpError>)
        requires
            registry_wf(old(self)@),
        ensures
            registry_wf(final(self)@),
            match r {
                Err(e) => e.kind == ErrorKind::NotFound && final(self)@ == old(self)@
                    && !has_record(old(self)@.records, instance_id@),
                Ok(()) => {
                    &&& has_record(old(self)@.records, instance_id@)
                    &&& final(self)@.records == spec_put(
                        old(self)@.records,
                        spec_with_unbound(
                            record_of(old(self)@.records, instance_id@),
                            account_id@,
                        ),
                    )
                    &&& final(self)@.version == old(self)@.version
                    &&& summaries_counted(
                        old(self)@.summaries,
                        final(self)@.summaries,
                        instance_id@,
                        spec_with_unbound(
                            record_of(old(self)@.records, instance_id@),
                            account_id@,
                        ).account_ids.len() as usize,
                    )
                },
            },
    {
        let found = self.find_record(instance_id);
        let k = match found {
            None => {
                let mut message: String = "Instance not found: ".to_owned();
                message.append(instance_id);
                return Err(OpError::new(ErrorKind::NotFound, message));
            },
            Some(k) => k,
        };
        proof {
            let gi = record_idx(self@.records, instance_id@);
            assert(self@.records[gi].id == instance_id@);
            assert(gi == k as int);
        }
        let mut instance = self.records[k].clone();
        instance.unbind_account(account_id);
        let count = instance.account_ids.len();
        let ghost v0 = self@;
        let ghost unbound = spec_with_unbound(record_of(v0.records, instance_id@), account_id@);
        proof {
            assert(instance@ == unbound);
            assert(instance_wf(record_of(v0.records, instance_id@)));
        }
        self.put_record(instance);
        self.set_summary_count(instance_id, count);
        proof {
            lemma_counted_keeps_ids(v0.summaries, final(self)@.summaries, instance_id@, count);
            assert(has_record_summary(v0.summaries, instance_id@));
            lemma_put_keeps_wf(v0, final(self)@, unbound);
        }
        Ok(())
    }

    /// Makes `account_id` the instance's active account; it must already be
    /// bound, else the call fails as not found and nothing changes.
    pub fn set_current_account_for_instance(
        &mut self,
        instance_id: &str,
        account_id: &str,
    ) -> (r: Result<(), OpError>)
        requires
            registry_wf(old(self)@),
        ensures
            registry_wf(final(self)@),
            match r {
                Err(e) => e.kind == ErrorKind::NotFound && final(self)@ == old(self)@ && !(
                has_record(old(self)@.records, instance_id@) && record_of(
                    old(self)@.records,
                    instance_id@,
                ).account_ids.contains(account_id@)),
                Ok(()) => {
                    &&& has_record(old(self)@.records, instance_id@)
                    &&& record_of(old(self)@.records, instance_id@).account_ids.contains(
                        account_id@,
                    )
                    &&& final(self)@.records == spec_put(
                        old(self)@.records,
                        spec_with_current(
                            record_of(old(self)@.records, instance_id@),
                            account_id@,
                        ),
                    )
                    &&& final(self)@.summaries == old(self)@.summaries
                    &&& final(self)@.version == old(self)@.version
                },
            },
    {
        let found = self.find_record(instance_id);
        let k = match found {
            None => {
                let mut message: String = "Instance not found: ".to_owned();
                message.append(instance_id);
                return Err(OpError::new(ErrorKind::NotFound, message));
            },
            Some(k) => k,
        };
        proof {
            let gi = record_idx(self@.records, instance_id@);
            assert(self@.records[gi].id == instance_id@);
            assert(gi == k as int);
        }
        if !self.records[k].has_account(account_id) {
            let mut message: String = "Account ".to_owned();
            message.append(account_id);
            message.append(" is not bound to instance ");
            message.append(instance_id);
            return Err(OpError::new(ErrorKind::NotFound, message));
        }
        let mut instance = self.records[k].clone();
        instance.current_account_id = Some(account_id.to_owned());
        let ghost v0 = self@;
        let ghost updated = spec_with_current(record_of(v0.records, instance_id@), account_id@);
        proof {
            assert(instance@ == updated);
            assert(instance_wf(record_of(v0.records, instance_id@)));
        }
        self.put_record(instance);
        proof {
            assert(has_record_summary(v0.summaries, instance_id@));
            lemma_put_keeps_wf(v0, final(self)@, updated);
        }
        Ok(())
    }

    /// The first listed instance that has `account_id` bound, if any;
    /// listing side effects apply.
    pub fn get_instance_for_account(&mut self, account_id: &str) -> (r: Result<
        Option<Instance>,
        OpError,
    >)
        requires
            registry_wf(old(self)@),
        ensures
            registry_wf(final(self)@),
            final(self)@.records == old(self)@.records,
            final(self)@.version == old(self)@.version,
            final(self)@.summaries == old(self)@.summaries.filter(backed(old(self)@.records)),
            match r {
                Ok(opt) => match opt {
                    Some(inst) => exists|i: int|
                        0 <= i < listed(old(self)@).len() && listed(old(self)@)[i] == inst@
                            && inst@.account_ids.contains(account_id@) && (forall|j: int|
                            0 <= j < i ==> !listed(old(self)@)[j].account_ids.contains(
                                account_id@,
                            )),
                    None => forall|i: int|
                        0 <= i < listed(old(self)@).len() ==> !listed(
                            old(self)@,
                        )[i].account_ids.contains(account_id@),
                },
                Err(e) => false,
            },
    {
        let ghost v0 = self@;
        let insts = self.list_instances();
        let ghost lv = listed(v0);
        let mut i: usize = 0;
        while i < insts.len()
            invariant
                i <= insts.len(),
                v0 == old(self)@,
                registry_wf(self@),
                self@.records == v0.records,
                self@.version == v0.version,
                self@.summaries == v0.summaries.filter(backed(v0.records)),
                insts.deep_view() == lv,
                lv == listed(v0),
                insts.len() == lv.len(),
                forall|j: int| 0 <= j < insts.len() ==> insts[j]@ == lv[j],
                forall|j: int| 0 <= j < i ==> !lv[j].account_ids.contains(account_id@),
            decreases insts.len() - i,
        {
            if insts[i].has_account(account_id) {
                let found = insts[i].clone();
                proof {
                    assert(0 <= i < lv.len() && lv[i as int] == found@
                        && found@.account_ids.contains(account_id@) && (forall|j: int|
                        0 <= j < i ==> !lv[j].account_ids.contains(account_id@)));
                }
                return Ok(Some(found));
            }
            i = i + 1;
        }
        Ok(None)
    }

    /// Every listed instance that has `account_id` bound, in listed order;
    /// listing side effects apply.
    pub fn get_instances_for_account(&mut self, account_id: &str) -> (r: Result<
        Vec<Instance>,
        OpError,
    >)
        requires
            registry_wf(old(self)@),
        ensures
            registry_wf(final(self)@),
            final(self)@.records == old(self)@.records,
            final(self)@.version == old(self)@.version,
            final(self)@.summaries == old(self)@.summaries.filter(backed(old(self)@.records)),
            match r {
                Ok(v) => v.deep_view() == listed(old(self)@).filter(with_account(account_id@)),
                Err(e) => false,
            },
    {
        let ghost v0 = self@;
        let insts = self.list_instances();
        let ghost lv = listed(v0);
        let mut out: Vec<Instance> = Vec::new();
        let mut i: usize = 0;
        while i < insts.len()
            invariant
                i <= insts.len(),
                insts.deep_view() == lv,
                insts.len() == lv.len(),
                forall|j: int| 0 <= j < insts.len() ==> insts[j]@ == lv[j],
                out.deep_view() == lv.take(i as int).filter(with_account(account_id@)),
            decreases insts.len() - i,
        {
            proof {
                reveal(Seq::filter);
                assert(lv.take(i + 1).drop_last() =~= lv.take(i as int));
                assert(lv.take(i + 1).last() == lv[i as int]);
            }
            let ghost out0 = out.deep_view();
            if insts[i].has_account(account_id) {
                let inst = insts[i].clone();
                out.push(inst);
                proof {
                    assert(out.deep_view() =~= out0.push(lv[i as int]));
                    assert(with_account(account_id@)(lv.take(i + 1).last()));
                }
            } else {
                proof {
                    assert(!with_account(account_id@)(lv.take(i + 1).last()));
                }
            }
            i = i + 1;
        }
        proof {
            assert(lv.take(lv.len() as int) =~= lv);
        }
        Ok(out)
    }

    /// Sets the account count on the first index summary carrying
    /// `instance_id`, if any.
    fn set_summary_count(&mut self, instance_id: &str, count: usize)
        ensures
            final(self)@.records == old(self)@.records,
            final(self)@.version == old(self)@.version,
            summaries_counted(old(self)@.summaries, final(self)@.summaries, instance_id@, count),
    {
        let mut i: usize = 0;
        while i < self.index.instances.len()
            invariant
                i <= self.index.instances.len(),
                self@ == old(self)@,
                self@.summaries.len() == self.index.instances.len(),
                forall|j: int|
                    0 <= j < self.index.instances.len() ==> self@.summaries[j]
                        == self.index.instances[j]@,
                forall|j: int| 0 <= j < i ==> self@.summaries[j].id != instance_id@,
            decreases self.index.instances.len() - i,
        {
            if str_eq(self.index.instances[i].id.as_str(), instance_id) {
                let mut s = self.index.instances[i].clone();
                s.account_count = count;
                self.index.instances.set(i, s);
                proof {
                    let ghost sums0 = old(self)@.summaries;
                    let ghost sums1 = final(self)@.summaries;
                    assert(sums1 =~= sums0.update(
                        i as int,
                        SummaryView { account_count: count, ..sums0[i as int] },
                    ));
                    assert(sums0[i as int].id == instance_id@);
                    assert(has_record_summary(sums0, instance_id@));
                    assert(0 <= i < sums0.len() && sums0[i as int].id == instance_id@ && (forall|
                        j: int,
                    | 0 <= j < i ==> sums0[j].id != instance_id@) && sums1 == sums0.update(
                        i as int,
                        SummaryView { account_count: count, ..sums0[i as int] },
                    ));
                }
                return ;
            }
            i = i + 1;
        }
        proof {
            assert(!has_record_summary(self@.summaries, instance_id@));
        }
    }
}

/// The summary list after setting one instance's account count: the first
/// summary carrying the id has its count replaced, or — with no such
/// summary — the list is unchanged.
pub open spec fn summaries_counted(
    sums0: Seq<SummaryView>,
    sums1: Seq<SummaryView>,
    id: Seq<char>,
    count: usize,
) -> bool {
    if has_record_summary(sums0, id) {
        exists|i: int|
            0 <= i < sums0.len() && sums0[i].id == id && (forall|j: int|
                0 <= j < i ==> sums0[j].id != id) && sums1 == sums0.update(
                i,
                SummaryView { account_count: count, ..sums0[i] },
            )
    } else {
        sums1 == sums0
    }
}

/// Setting one summary's account count keeps every id the index carried.
proof fn lemma_counted_keeps_ids(
    sums0: Seq<SummaryView>,
    sums1: Seq<SummaryView>,
    id: Seq<char>,
    count: usize,
)
    requires
        summaries_counted(sums0, sums1, id, count),
    ensures
        forall|x: Seq<char>|
            has_record_summary(sums0, x) ==> #[trigger] has_record_summary(sums1, x),
{
    if has_record_summary(sums0, id) {
        let i = choose|i: int|
            0 <= i < sums0.len() && sums0[i].id == id && (forall|j: int|
                0 <= j < i ==> sums0[j].id != id) && sums1 == sums0.update(
                i,
                SummaryView { account_count: count, ..sums0[i] },
            );
        assert forall|x: Seq<char>|
            has_record_summary(sums0, x) implies #[trigger] has_record_summary(sums1, x) by {
            let j = choose|j: int| 0 <= j < sums0.len() && sums0[j].id == x;
            if j == i {
                assert(sums1[i].id == sums0[i].id);
            } else {
                assert(sums1[j].id == x);
            }
        }
    }
}

/// The summary list after refreshing the projection of one instance: the
/// first summary carrying its id is replaced, or — with no such summary —
/// the list is unchanged.
pub open spec fn summaries_refreshed(
    sums0: Seq<SummaryView>,
    sums1: Seq<SummaryView>,
    s: SummaryView,
) -> bool {
    if has_record_summary(sums0, s.id) {
        exists|i: int|
            0 <= i < sums0.len() && sums0[i].id == s.id && (forall|j: int|
                0 <= j < i ==> sums0[j].id != s.id) && sums1 == sums0.update(i, s)
    } else {
        sums1 == sums0
    }
}

/// Storing a well-formed record whose summary is present keeps the registry
/// well formed, provided a default record may only be stored where it is the
/// sole default.
proof fn lemma_put_keeps_wf(v0: RegistryView, v1: RegistryView, inst: InstanceView)
    requires
        registry_wf(v0),
        instance_wf(inst),
        inst.is_default ==> forall|i: int|
            0 <= i < v0.records.len() && v0.records[i].id != inst.id ==> !v0.records[i].is_default,
        v1.records == spec_put(v0.records, inst),
        has_record_summary(v1.summaries, inst.id),
        forall|id: Seq<char>|
            has_record_summary(v0.summaries, id) ==> #[trigger] has_record_summary(
                v1.summaries,
                id,
            ),
    ensures
        registry_wf(v1),
{
    if has_record(v0.records, inst.id) {
        let gi = record_idx(v0.records, inst.id);
        assert(v0.records[gi].id == inst.id);
        assert(v1.records =~= v0.records.update(gi, inst));
    }
}

/// Deleting one non-default record and its summaries keeps the registry
/// well formed.
proof fn lemma_delete_keeps_wf(v0: RegistryView, v1: RegistryView, id: Seq<char>)
    requires
        registry_wf(v0),
        v1.records == v0.records.filter(rec_other_than(id)),
        v1.summaries == v0.summaries.filter(sum_other_than(id)),
    ensures
        registry_wf(v1),
{
    lemma_rec_filter_sub(v0.records, rec_other_than(id));
    assert forall|i: int, j: int| 0 <= i < j < v1.records.len() implies v1.records[i].id
        != v1.records[j].id by {
        let a = choose|a: int| 0 <= a < v0.records.len() && v0.records[a] == v1.records[i];
        let b = choose|b: int| 0 <= b < v0.records.len() && v0.records[b] == v1.records[j];
        lemma_rec_filter_distinct_positions(v0.records, rec_other_than(id), i, j);
    }
    assert forall|i: int, j: int| 0 <= i < j < v1.records.len() implies !(v1.records[i].is_default
        && v1.records[j].is_default) by {
        lemma_rec_filter_distinct_positions(v0.records, rec_other_than(id), i, j);
    }
    assert forall|i: int| 0 <= i < v1.records.len() implies has_record_summary(
        v1.summaries,
        v1.records[i].id,
    ) by {
        assert(v0.records.contains(v1.records[i]));
        let a = choose|a: int| 0 <= a < v0.records.len() && v0.records[a] == v1.records[i];
        let rid = v1.records[i].id;
        let j = choose|j: int| 0 <= j < v0.summaries.len() && v0.summaries[j].id == rid;
        assert(rec_other_than(id)(v1.records[i]));
        assert(sum_other_than(id)(v0.summaries[j]));
        assert(v0.summaries.filter(sum_other_than(id)).contains(v0.summaries[j]));
        let k = choose|k: int|
            0 <= k < v1.summaries.len() && v1.summaries[k] == v0.summaries[j];
        assert(v1.summaries[k].id == rid);
    }
    assert forall|i: int| 0 <= i < v1.records.len() implies instance_wf(v1.records[i]) by {
        assert(v0.records.contains(v1.records[i]));
        let a = choose|a: int| 0 <= a < v0.records.len() && v0.records[a] == v1.records[i];
        assert(instance_wf(v0.records[a]));
    }
}

/// Every element of a filtered record sequence occurs in the original.
proof fn lemma_rec_filter_sub(s: Seq<InstanceView>, pred: spec_fn(InstanceView) -> bool)
    ensures
        forall|i: int|
            0 <= i < s.filter(pred).len() ==> s.contains(#[trigger] s.filter(pred)[i]),
    decreases s.len(),
{
    reveal(Seq::filter);
    if s.len() > 0 {
        lemma_rec_filter_sub(s.drop_last(), pred);
        let rest = s.drop_last().filter(pred);
        assert forall|i: int| 0 <= i < s.filter(pred).len() implies s.contains(
            #[trigger] s.filter(pred)[i],
        ) by {
            if i < rest.len() {
                let e = rest[i];
                let k = choose|k: int| 0 <= k < s.drop_last().len() && s.drop_last()[k] == e;
                assert(s[k] == e);
            } else {
                assert(s[s.len() - 1] == s.filter(pred)[i]);
            }
        }
    }
}

/// Two positions of a filtered record sequence come from two distinct
/// positions of the original, in order.
proof fn lemma_rec_filter_distinct_positions(
    s: Seq<InstanceView>,
    pred: spec_fn(InstanceView) -> bool,
    i: int,
    j: int,
)
    requires
        0 <= i < j < s.filter(pred).len(),
    ensures
        exists|a: int, b: int|
            0 <= a < b < s.len() && s[a] == s.filter(pred)[i] && s[b] == s.filter(pred)[j],
    decreases s.len(),
{
    reveal(Seq::filter);
    if s.len() > 0 {
        let rest = s.drop_last().filter(pred);
        if j < rest.len() {
            lemma_rec_filter_distinct_positions(s.drop_last(), pred, i, j);
            let (a, b) = choose|a: int, b: int|
                0 <= a < b < s.drop_last().len() && s.drop_last()[a] == rest[i] && s.drop_last()[b]
                    == rest[j];
            assert(s[a] == s.filter(pred)[i] && s[b] == s.filter(pred)[j]);
        } else {
            assert(pred(s.last()) && j == rest.len());
            lemma_rec_filter_sub(s.drop_last(), pred);
            let a = choose|a: int|
                0 <= a < s.drop_last().len() && s.drop_last()[a] == rest[i];
            let b = s.len() - 1;
            assert(s[a] == s.filter(pred)[i] && s[b] == s.filter(pred)[j]);
        }
    }
}

/// Some instance of the list has `account` bound.
pub open spec fn bound_anywhere(insts: Seq<InstanceView>, account: Seq<char>) -> bool {
    exists|i: int| 0 <= i < insts.len() && (#[trigger] insts[i]).account_ids.contains(account)
}

/// The default instance's account list after the migration fold: each
/// account, in order, is bound to it unless some instance of the frozen
/// list already has it.
pub open spec fn spec_migrated(
    accts: Seq<Seq<char>>,
    insts: Seq<InstanceView>,
    accounts: Seq<Seq<char>>,
) -> Seq<Seq<char>>
    decreases accounts.len(),
{
    if accounts.len() == 0 {
        accts
    } else {
        let prev = spec_migrated(accts, insts, accounts.drop_last());
        if bound_anywhere(insts, accounts.last()) {
            prev
        } else {
            spec_bind(prev, accounts.last())
        }
    }
}

/// An instance of the registry is live: the default instance by the
/// no-directory-argument rule, any other by its directory occurring in a
/// root command line.
pub open spec fn spec_instance_live(
    v: InstanceView,
    procs: Seq<crate::process::ProcView>,
    ctx: crate::process::CtxView,
) -> bool {
    if v.is_default {
        crate::process::spec_default_running(procs, ctx.self_pid)
    } else {
        exists|i: int|
            0 <= i < procs.len() && crate::process::spec_instance_proc(
                #[trigger] procs[i],
                ctx,
                v.user_data_dir,
            )
    }
}

/// The liveness test over one snapshot.
pub open spec fn live_pred(
    procs: Seq<crate::process::ProcView>,
    ctx: crate::process::CtxView,
) -> spec_fn(InstanceView) -> bool {
    |v: InstanceView| spec_instance_live(v, procs, ctx)
}

/// With a well-formed registry the default instance is unique: any two
/// default records are the same record. Hence ensuring the default twice
/// returns the same instance both times, and a second default is never
/// created.
pub proof fn lemma_default_unique(v: RegistryView, i: int, j: int)
    requires
        registry_wf(v),
        0 <= i < v.records.len(),
        0 <= j < v.records.len(),
        v.records[i].is_default,
        v.records[j].is_default,
    ensures
        i == j,
        v.records[i] == default_of(v.records),
{
    let c = choose|c: int| 0 <= c < v.records.len() && v.records[c].is_default;
    assert(c == i && c == j);
}

impl Registry {
    /// Records the account as the instance's active account without
    /// touching the binding list — the unchecked ephemeral switch — and
    /// reports whether the instance is currently live, so the caller knows
    /// whether an in-place switch action is also needed.
    pub fn switch_account_in_instance(
        &mut self,
        instance_id: &str,
        account_id: &str,
        snapshot: &Vec<crate::process::ProcessRecord>,
        ctx: &crate::process::ScanContext,
    ) -> (r: Result<bool, OpError>)
        requires
            registry_wf(old(self)@),
            crate::process::snapshot_wf(snapshot.deep_view()),
        ensures
            registry_wf(final(self)@),
            match r {
                Err(e) => e.kind == ErrorKind::NotFound && final(self)@ == old(self)@
                    && !has_record(old(self)@.records, instance_id@),
                Ok(running) => {
                    &&& has_record(old(self)@.records, instance_id@)
                    &&& final(self)@.records == spec_put(
                        old(self)@.records,
                        spec_with_current(
                            record_of(old(self)@.records, instance_id@),
                            account_id@,
                        ),
                    )
                    &&& final(self)@.summaries == old(self)@.summaries
                    &&& final(self)@.version == old(self)@.version
                    &&& running == spec_instance_live(
                        record_of(old(self)@.records, instance_id@),
                        snapshot.deep_view(),
                        ctx@,
                    )
                },
            },
    {
        let found = self.find_record(instance_id);
        let k = match found {
            None => {
                let mut message: String = "Instance not found: ".to_owned();
                message.append(instance_id);
                return Err(OpError::new(ErrorKind::NotFound, message));
            },
            Some(k) => k,
        };
        proof {
            let gi = record_idx(self@.records, instance_id@);
            assert(self@.records[gi].id == instance_id@);
            assert(gi == k as int);
        }
        let mut instance = self.records[k].clone();
        instance.current_account_id = Some(account_id.to_owned());
        let is_default = instance.is_default;
        let user_data_dir = instance.user_data_dir.clone();
        let ghost v0 = self@;
        let ghost updated = spec_with_current(record_of(v0.records, instance_id@), account_id@);
        proof {
            assert(instance@ == updated);
            assert(instance_wf(record_of(v0.records, instance_id@)));
        }
        self.put_record(instance);
        proof {
            assert(has_record_summary(v0.summaries, instance_id@));
            lemma_put_keeps_wf(v0, final(self)@, updated);
        }
        let running = if is_default {
            crate::process::is_default_instance_running(snapshot, ctx.self_pid)
        } else {
            crate::process::is_instance_running(snapshot, ctx, user_data_dir.as_str())
        };
        Ok(running)
    }

    /// Every listed instance that is currently live, in listed order;
    /// listing side effects apply.
    pub fn get_running_instances(
        &mut self,
        snapshot: &Vec<crate::process::ProcessRecord>,
        ctx: &crate::process::ScanContext,
    ) -> (r: Result<Vec<Instance>, OpError>)
        requires
            registry_wf(old(self)@),
            crate::process::snapshot_wf(snapshot.deep_view()),
        ensures
            registry_wf(final(self)@),
            final(self)@.records == old(self)@.records,
            final(self)@.version == old(self)@.version,
            final(self)@.summaries == old(self)@.summaries.filter(backed(old(self)@.records)),
            match r {
                Ok(v) => v.deep_view() == listed(old(self)@).filter(
                    live_pred(snapshot.deep_view(), ctx@),
                ),
                Err(e) => false,
            },
    {
        let ghost v0 = self@;
        let ghost procs = snapshot.deep_view();
        let insts = self.list_instances();
        let ghost lv = listed(v0);
        let ghost pred = live_pred(procs, ctx@);
        let mut out: Vec<Instance> = Vec::new();
        let mut i: usize = 0;
        while i < insts.len()
            invariant
                i <= insts.len(),
                procs == snapshot.deep_view(),
                pred == live_pred(procs, ctx@),
                crate::process::snapshot_wf(procs),
                insts.deep_view() == lv,
                insts.len() == lv.len(),
                forall|j: int| 0 <= j < insts.len() ==> insts[j]@ == lv[j],
                out.deep_view() == lv.take(i as int).filter(pred),
            decreases insts.len() - i,
        {
            proof {
                reveal(Seq::filter);
                assert(lv.take(i + 1).drop_last() =~= lv.take(i as int));
                assert(lv.take(i + 1).last() == lv[i as int]);
            }
            let ghost out0 = out.deep_view();
            let live = if insts[i].is_default {
                crate::process::is_default_instance_running(snapshot, ctx.self_pid)
            } else {
                crate::process::is_instance_running(
                    snapshot,
                    ctx,
                    insts[i].user_data_dir.as_str(),
                )
            };
            if live {
                let inst = insts[i].clone();
                out.push(inst);
                proof {
                    assert(out.deep_view() =~= out0.push(lv[i as int]));
                    assert(pred(lv.take(i + 1).last()));
                }
            } else {
                proof {
                    assert(!pred(lv.take(i + 1).last()));
                }
            }
            i = i + 1;
        }
        proof {
            assert(lv.take(lv.len() as int) =~= lv);
        }
        Ok(out)
    }
}

/// A record whose account list is empty never makes an account "bound
/// anywhere", so the migration fold ignores it.
proof fn lemma_migrated_ignores_empty(
    accts: Seq<Seq<char>>,
    insts: Seq<InstanceView>,
    d: InstanceView,
    accounts: Seq<Seq<char>>,
)
    requires
        d.account_ids.len() == 0,
    ensures
        spec_migrated(accts, insts.push(d), accounts) == spec_migrated(accts, insts, accounts),
    decreases accounts.len(),
{
    if accounts.len() > 0 {
        lemma_migrated_ignores_empty(accts, insts, d, accounts.drop_last());
        let a = accounts.last();
        assert(bound_anywhere(insts.push(d), a) == bound_anywhere(insts, a)) by {
            if bound_anywhere(insts.push(d), a) {
                let i = choose|i: int|
                    0 <= i < insts.push(d).len() && (#[trigger] insts.push(d)[i]).account_ids.contains(a);
                if i < insts.len() {
                    assert(insts[i].account_ids.contains(a));
                }
            }
            if bound_anywhere(insts, a) {
                let i = choose|i: int|
                    0 <= i < insts.len() && (#[trigger] insts[i]).account_ids.contains(a);
                assert(insts.push(d)[i].account_ids.contains(a));
            }
        }
    }
}

/// Extending the records by one whose id no summary carries and no record
/// holds does not change what the summaries list.
proof fn lemma_listed_extend(sums: Seq<SummaryView>, recs: Seq<InstanceView>, d: InstanceView)
    requires
        forall|i: int, j: int| 0 <= i < j < recs.len() ==> recs[i].id != recs[j].id,
        !has_record(recs, d.id),
        forall|j: int| 0 <= j < sums.len() ==> has_record(recs, (#[trigger] sums[j]).id),
    ensures
        listed_views(sums, recs.push(d)) == listed_views(sums, recs),
    decreases sums.len(),
{
    let recs1 = recs.push(d);
    if sums.len() > 0 {
        assert(forall|j: int|
            0 <= j < sums.drop_last().len() ==> has_record(
                recs,
                (#[trigger] sums.drop_last()[j]).id,
            ));
        lemma_listed_extend(sums.drop_last(), recs, d);
        let id = sums.last().id;
        assert(has_record(recs, id));
        let gi = record_idx(recs, id);
        assert(recs[gi].id == id);
        assert(recs1[gi].id == id);
        assert(has_record(recs1, id));
        let gj = record_idx(recs1, id);
        assert(recs1[gj].id == id);
        assert(gj != recs.len()) by {
            if gj == recs.len() {
                assert(recs1[gj] == d);
            }
        }
        assert(gj == gi);
        assert(record_of(recs1, id) == record_of(recs, id));
    }
}

impl Registry {
    /// Binds every not-yet-bound account of the caller's account list to
    /// the default instance, creating the default — at
    /// `fallback_user_data_dir` — when none exists. First-run migration.
    pub fn migrate_accounts_to_default_instance(
        &mut self,
        account_ids: &Vec<String>,
        fallback_user_data_dir: String,
    ) -> (r: Result<(), OpError>)
        requires
            registry_wf(old(self)@),
        ensures
            registry_wf(final(self)@),
            r is Ok,
            has_default(final(self)@.records),
            final(self)@.version == old(self)@.version,
            has_default(old(self)@.records) || !has_record(
                old(self)@.records,
                default_of(final(self)@.records).id,
            ) ==> default_of(final(self)@.records).account_ids == spec_migrated(
                if has_default(old(self)@.records) {
                    default_of(old(self)@.records).account_ids
                } else {
                    Seq::empty()
                },
                listed(old(self)@),
                account_ids.deep_view(),
            ),
            has_default(old(self)@.records) ==> default_of(final(self)@.records)
                == (InstanceView {
                account_ids: spec_migrated(
                    default_of(old(self)@.records).account_ids,
                    listed(old(self)@),
                    account_ids.deep_view(),
                ),
                ..default_of(old(self)@.records)
            }),
            !has_default(old(self)@.records) ==> default_of(final(self)@.records).user_data_dir
                == fallback_user_data_dir@,
            forall|i: int|
                0 <= i < old(self)@.records.len() && !old(self)@.records[i].is_default
                    && old(self)@.records[i].id != default_of(final(self)@.records).id
                    ==> final(self)@.records.contains(#[trigger] old(self)@.records[i]),
    {
        let ghost v0 = self@;
        let default_result = self.ensure_default_instance(fallback_user_data_dir);
        let mut default_instance = match default_result {
            Ok(d) => d,
            Err(e) => {
                return Err(e);
            },
        };
        let ghost v1 = self@;
        let ghost d0 = default_instance@;
        let instances = self.list_instances();
        let ghost v2 = self@;
        let ghost insts = listed(v1);
        proof {
            assert(v2.records == v1.records);
            if has_default(v0.records) {
                lemma_prune_keeps_listed(v0.summaries, v0.records);
                assert(insts == listed(v0));
            } else {
                if !has_record(v0.records, d0.id) {
                    assert(v1.records =~= v0.records.push(d0));
                    assert(v1.summaries =~= v0.summaries.filter(backed(v0.records)).push(
                        spec_summary_of(d0),
                    ));
                    let pruned = v0.summaries.filter(backed(v0.records));
                    assert(forall|j: int|
                        0 <= j < pruned.len() ==> has_record(v0.records, (#[trigger] pruned[j]).id))
                        by {
                        lemma_sum_filter_backed(v0.summaries, v0.records);
                    }
                    assert(v1.summaries.drop_last() =~= pruned);
                    assert(v1.summaries.last() == spec_summary_of(d0));
                    assert(listed_views(v1.summaries, v1.records) == listed_views(
                        pruned,
                        v1.records,
                    ).push(record_of(v1.records, d0.id))) by {
                        assert(v1.records[v0.records.len() as int] == d0);
                        assert(has_record(v1.records, d0.id));
                    }
                    lemma_listed_extend(pruned, v0.records, d0);
                    lemma_prune_keeps_listed(v0.summaries, v0.records);
                    let gi = record_idx(v1.records, d0.id);
                    assert(v1.records[gi].id == d0.id);
                    assert forall|t: int|
                        0 <= t < v1.records.len() && v1.records[t].id == d0.id implies v1.records[t]
                        == d0 by {
                        if t < v0.records.len() {
                            assert(has_record(v0.records, d0.id));
                        }
                    }
                    assert(record_of(v1.records, d0.id) == d0);
                    assert(insts =~= listed(v0).push(d0));
                    lemma_migrated_ignores_empty(
                        d0.account_ids,
                        listed(v0),
                        d0,
                        account_ids.deep_view(),
                    );
                }
            }
        }
        let ghost insts = listed(v1);
        proof {
            let gd = choose|gd: int| 0 <= gd < v1.records.len() && v1.records[gd].is_default;
            lemma_default_unique(v1, gd, gd);
            lemma_listed_complete(v1.summaries, v1.records, gd);
            assert(insts.contains(d0));
            assert(instance_wf(d0));
        }
        let mut bound_count: usize = 0;
        let ghost accounts = account_ids.deep_view();
        let mut i: usize = 0;
        while i < account_ids.len()
            invariant
                i <= account_ids.len(),
                bound_count <= i,
                accounts == account_ids.deep_view(),
                accounts.len() == account_ids.len(),
                forall|j: int| 0 <= j < account_ids.len() ==> accounts[j] == account_ids[j]@,
                instances.deep_view() == insts,
                insts.contains(d0),
                instance_wf(d0),
                default_instance@ == (InstanceView {
                    account_ids: spec_migrated(d0.account_ids, insts, accounts.take(i as int)),
                    ..d0
                }),
                instance_wf(default_instance@),
                bound_count == 0 ==> spec_migrated(d0.account_ids, insts, accounts.take(i as int))
                    == d0.account_ids,
                bound_count > 0 ==> spec_migrated(d0.account_ids, insts, accounts.take(i as int)).len()
                    > d0.account_ids.len(),
            decreases account_ids.len() - i,
        {
            proof {
                assert(accounts.take(i + 1).drop_last() =~= accounts.take(i as int));
                assert(accounts.take(i + 1).last() == accounts[i as int]);
            }
            let already = any_has_account(&instances, account_ids[i].as_str());
            proof {
                if !already && bound_count == 0 {
                    let gk = choose|gk: int| 0 <= gk < insts.len() && insts[gk] == d0;
                    assert(!insts[gk].account_ids.contains(accounts[i as int]));
                }
            }
            if !already {
                default_instance.bind_account(account_ids[i].clone());
                bound_count = bound_count + 1;
            }
            i = i + 1;
        }
        proof {
            assert(accounts.take(account_ids.len() as int) =~= accounts);
        }
        if bound_count > 0 {
            let ghost v3 = self@;
            let ghost dmig = default_instance@;
            let count = default_instance.account_ids.len();
            let id_for_count = default_instance.id.clone();
            proof {
                let gd = choose|gd: int| 0 <= gd < v3.records.len() && v3.records[gd].is_default;
                lemma_default_unique(v3, gd, gd);
                assert(v3.records[gd].id == d0.id);
                assert(has_record_summary(v3.summaries, d0.id));
                assert forall|t: int|
                    0 <= t < v3.records.len() && v3.records[t].id != dmig.id implies !v3.records[
                    t].is_default by {
                    if v3.records[t].is_default {
                        lemma_default_unique(v3, t, gd);
                    }
                }
            }
            self.put_record(default_instance);
            self.set_summary_count(id_for_count.as_str(), count);
            proof {
                lemma_counted_keeps_ids(
                    v3.summaries,
                    final(self)@.summaries,
                    id_for_count@,
                    count,
                );
                lemma_put_keeps_wf(v3, final(self)@, dmig);
            }
        }
        proof {
            lemma_migrate_post(v0, v1, final(self)@, d0, insts, accounts);
        }
        Ok(())
    }
}

/// Every backed summary's id has a record.
proof fn lemma_sum_filter_backed(sums: Seq<SummaryView>, recs: Seq<InstanceView>)
    ensures
        forall|j: int|
            0 <= j < sums.filter(backed(recs)).len() ==> has_record(
                recs,
                (#[trigger] sums.filter(backed(recs))[j]).id,
            ),
    decreases sums.len(),
{
    reveal(Seq::filter);
    if sums.len() > 0 {
        lemma_sum_filter_backed(sums.drop_last(), recs);
        let rest = sums.drop_last().filter(backed(recs));
        assert forall|j: int|
            0 <= j < sums.filter(backed(recs)).len() implies has_record(
            recs,
            (#[trigger] sums.filter(backed(recs))[j]).id,
        ) by {
            if j < rest.len() {
                assert(sums.filter(backed(recs))[j] == rest[j]);
            } else {
                assert(backed(recs)(sums.last()));
            }
        }
    }
}

/// The migration postcondition, proved from the intermediate states.
proof fn lemma_migrate_post(
    v0: RegistryView,
    v1: RegistryView,
    v2: RegistryView,
    d0: InstanceView,
    insts: Seq<InstanceView>,
    accounts: Seq<Seq<char>>,
)
    requires
        registry_wf(v0),
        registry_wf(v1),
        registry_wf(v2),
        d0.is_default,
        has_default(v1.records),
        d0 == default_of(v1.records),
        insts == listed(v1),
        has_default(v0.records) ==> d0 == default_of(v0.records) && v1.records == v0.records
            && insts == listed(v0),
        !has_default(v0.records) ==> v1.records == spec_put(v0.records, d0)
            && d0.account_ids.len() == 0 && (!has_record(v0.records, d0.id) ==> spec_migrated(
            d0.account_ids,
            insts,
            accounts,
        ) == spec_migrated(Seq::empty(), listed(v0), accounts)),
        ({
            let newa = spec_migrated(d0.account_ids, insts, accounts);
            v2.records == v1.records || v2.records == spec_put(
                v1.records,
                (InstanceView { account_ids: newa, ..d0 }),
            )
        }),
        ({
            let newa = spec_migrated(d0.account_ids, insts, accounts);
            newa == d0.account_ids ==> v2.records == v1.records
        }),
        ({
            let newa = spec_migrated(d0.account_ids, insts, accounts);
            newa != d0.account_ids ==> v2.records == spec_put(
                v1.records,
                (InstanceView { account_ids: newa, ..d0 }),
            )
        }),
    ensures
        has_default(v2.records),
        has_default(v0.records) || !has_record(v0.records, default_of(v2.records).id)
            ==> default_of(v2.records).account_ids == spec_migrated(
            if has_default(v0.records) {
                default_of(v0.records).account_ids
            } else {
                Seq::empty()
            },
            listed(v0),
            accounts,
        ),
        has_default(v0.records) ==> default_of(v2.records) == (InstanceView {
            account_ids: spec_migrated(
                default_of(v0.records).account_ids,
                listed(v0),
                accounts,
            ),
            ..default_of(v0.records)
        }),
        !has_default(v0.records) ==> default_of(v2.records).user_data_dir == d0.user_data_dir,
        forall|i: int|
            0 <= i < v0.records.len() && !v0.records[i].is_default && v0.records[i].id
                != default_of(v2.records).id ==> v2.records.contains(#[trigger] v0.records[i]),
{
    let newa = spec_migrated(d0.account_ids, insts, accounts);
    let dnew = InstanceView { account_ids: newa, ..d0 };
    let gd1 = choose|g: int| 0 <= g < v1.records.len() && v1.records[g].is_default;
    assert(v1.records[gd1] == default_of(v1.records));
    if newa == d0.account_ids {
        assert(v2.records == v1.records);
        assert(has_default(v2.records));
        assert(default_of(v2.records) == d0);
        assert(default_of(v2.records).account_ids == newa);
    } else {
        assert(v2.records == spec_put(v1.records, dnew));
        assert(has_record(v1.records, d0.id)) by {
            assert(v1.records[gd1].id == d0.id);
        }
        let gi = record_idx(v1.records, dnew.id);
        assert(v1.records[gi].id == d0.id);
        assert(v2.records =~= v1.records.update(gi, dnew));
        assert(v2.records[gi] == dnew);
        assert(has_default(v2.records));
        let gd2 = choose|g: int| 0 <= g < v2.records.len() && v2.records[g].is_default;
        lemma_default_unique(v2, gd2, gi);
        assert(default_of(v2.records) == dnew);
    }
    if has_default(v0.records) {
    } else {
        if !has_record(v0.records, d0.id) {
            assert(v1.records =~= v0.records.push(d0));
        }
    }
    assert forall|i: int|
        0 <= i < v0.records.len() && !v0.records[i].is_default && v0.records[i].id != default_of(
            v2.records,
        ).id implies v2.records.contains(#[trigger] v0.records[i]) by {
        assert(default_of(v2.records).id == d0.id);
        if has_default(v0.records) {
            assert(v1.records[i] == v0.records[i]);
            if v2.records == v1.records {
                assert(v2.records[i] == v0.records[i]);
            } else {
                let gi = record_idx(v1.records, dnew.id);
                assert(v1.records[gi].id == d0.id);
                assert(gi != i);
                assert(v2.records[i] == v0.records[i]);
            }
        } else {
            if !has_record(v0.records, d0.id) {
                assert(v1.records[i] == v0.records[i]);
                if v2.records == v1.records {
                    assert(v2.records[i] == v0.records[i]);
                } else {
                    let gi = record_idx(v1.records, dnew.id);
                    assert(v1.records[gi].id == d0.id);
                    assert(gi != i);
                    assert(v2.records[i] == v0.records[i]);
                }
            } else {
                let gp = record_idx(v0.records, d0.id);
                assert(v0.records[gp].id == d0.id);
                assert(v1.records =~= v0.records.update(gp, d0));
                assert(gp != i);
                assert(v1.records[i] == v0.records[i]);
                if v2.records == v1.records {
                    assert(v2.records[i] == v0.records[i]);
                } else {
                    let gi = record_idx(v1.records, dnew.id);
                    assert(v1.records[gi].id == d0.id);
                    assert(gi != i);
                    assert(v2.records[i] == v0.records[i]);
                }
            }
        }
    }
}

/// Whether the strings are pairwise different.
fn strings_distinct(v: &Vec<String>) -> (r: bool)
    ensures
        r == (forall|i: int, j: int| 0 <= i < j < v.deep_view().len() ==> v.deep_view()[i]
            != v.deep_view()[j]),
{
    let ghost dv = v.deep_view();
    let mut i: usize = 0;
    while i < v.len()
        invariant
            i <= v.len(),
            dv == v.deep_view(),
            dv.len() == v.len(),
            forall|t: int| 0 <= t < v.len() ==> dv[t] == v[t]@,
            forall|a: int, b: int| 0 <= a < b < v.len() && a < i ==> dv[a] != dv[b],
        decreases v.len() - i,
    {
        let mut j: usize = i + 1;
        while j < v.len()
            invariant
                i < j <= v.len() || (i + 1 == j && j >= v.len()),
                i < v.len(),
                dv == v.deep_view(),
                dv.len() == v.len(),
                forall|t: int| 0 <= t < v.len() ==> dv[t] == v[t]@,
                forall|b: int| i < b < j ==> dv[i as int] != dv[b],
            decreases v.len() - j,
        {
            if str_eq(v[i].as_str(), v[j].as_str()) {
                proof {
                    assert(dv[i as int] == dv[j as int]);
                }
                return false;
            }
            j = j + 1;
        }
        i = i + 1;
    }
    true
}

impl Registry {
    /// Whether the registry is well formed. The embedding program runs this
    /// on a store loaded from disk before trusting it.
    pub fn check_wf(&self) -> (b: bool)
        ensures
            b == registry_wf(self@),
    {
        let ghost v = self@;
        let n = self.records.len();
        let mut i: usize = 0;
        while i < n
            invariant
                i <= n,
                v == self@,
                n == self.records.len(),
                v.records.len() == n,
                forall|t: int| 0 <= t < n ==> v.records[t] == self.records[t]@,
                v.summaries.len() == self.index.instances.len(),
                forall|t: int|
                    0 <= t < self.index.instances.len() ==> v.summaries[t]
                        == self.index.instances[t]@,
                forall|a: int, b: int|
                    0 <= a < b < n && a < i ==> v.records[a].id != v.records[b].id,
                forall|a: int, b: int|
                    0 <= a < b < n && a < i ==> !(v.records[a].is_default
                        && v.records[b].is_default),
                forall|t: int| 0 <= t < i ==> has_record_summary(v.summaries, v.records[t].id),
                forall|t: int| 0 <= t < i ==> instance_wf(#[trigger] v.records[t]),
            decreases n - i,
        {
            let mut j: usize = i + 1;
            while j < n
                invariant
                    i < n,
                    i < j <= n || (i + 1 == j && j >= n),
                    v == self@,
                    n == self.records.len(),
                    v.records.len() == n,
                    forall|t: int| 0 <= t < n ==> v.records[t] == self.records[t]@,
                    forall|b: int| i < b < j ==> v.records[i as int].id != v.records[b].id,
                    forall|b: int|
                        i < b < j ==> !(v.records[i as int].is_default
                            && v.records[b].is_default),
                decreases n - j,
            {
                if str_eq(self.records[i].id.as_str(), self.records[j].id.as_str()) {
                    proof {
                        assert(v.records[i as int].id == v.records[j as int].id);
                        assert(!registry_wf(v));
                    }
                    return false;
                }
                if self.records[i].is_default && self.records[j].is_default {
                    proof {
                        assert(v.records[i as int].is_default && v.records[j as int].is_default);
                        assert(!registry_wf(v));
                    }
                    return false;
                }
                j = j + 1;
            }
            let mut found = false;
            let mut k: usize = 0;
            while k < self.index.instances.len()
                invariant
                    k <= self.index.instances.len(),
                    i < n,
                    v == self@,
                    n == self.records.len(),
                    v.records.len() == n,
                    forall|t: int| 0 <= t < n ==> v.records[t] == self.records[t]@,
                    v.summaries.len() == self.index.instances.len(),
                    forall|t: int|
                        0 <= t < self.index.instances.len() ==> v.summaries[t]
                            == self.index.instances[t]@,
                    found ==> has_record_summary(v.summaries, v.records[i as int].id),
                    !found ==> forall|t: int|
                        0 <= t < k ==> v.summaries[t].id != v.records[i as int].id,
                decreases self.index.instances.len() - k,
            {
                if str_eq(self.index.instances[k].id.as_str(), self.records[i].id.as_str()) {
                    proof {
                        assert(v.summaries[k as int].id == v.records[i as int].id);
                    }
                    found = true;
                    k = self.index.instances.len();
                } else {
                    k = k + 1;
                }
            }
            if !found {
                return false;
            }
            if !strings_distinct(&self.records[i].account_ids) {
                proof {
                    assert(self.records[i as int]@.account_ids == self.records[
                        i as int].account_ids.deep_view());
                    assert(!instance_wf(v.records[i as int]));
                }
                return false;
            }
            i = i + 1;
        }
        true
    }
}

/// Whether any instance of the list has `account_id` bound.
fn any_has_account(instances: &Vec<Instance>, account_id: &str) -> (r: bool)
    ensures
        r == bound_anywhere(instances.deep_view(), account_id@),
{
    let mut i: usize = 0;
    while i < instances.len()
        invariant
            i <= instances.len(),
            instances.deep_view().len() == instances.len(),
            forall|j: int| 0 <= j < instances.len() ==> instances.deep_view()[j] == instances[j]@,
            forall|j: int|
                0 <= j < i ==> !(#[trigger] instances.deep_view()[j]).account_ids.contains(
                    account_id@,
                ),
        decreases instances.len() - i,
    {
        if instances[i].has_account(account_id) {
            proof {
                assert(instances.deep_view()[i as int].account_ids.contains(account_id@));
            }
            return true;
        }
        i = i + 1;
    }
    false
}

/// Pruning unbacked summaries keeps the registry well formed.
proof fn lemma_prune_keeps_wf(v0: RegistryView, v1: RegistryView)
    requires
        registry_wf(v0),
        v1.records == v0.records,
        v1.summaries == v0.summaries.filter(backed(v0.records)),
    ensures
        registry_wf(v1),
{
    assert forall|i: int| 0 <= i < v1.records.len() implies has_record_summary(
        v1.summaries,
        v1.records[i].id,
    ) by {
        let id = v1.records[i].id;
        let j = choose|j: int| 0 <= j < v0.summaries.len() && v0.summaries[j].id == id;
        assert(backed(v0.records)(v0.summaries[j]));
        assert(v0.summaries.filter(backed(v0.records)).contains(v0.summaries[j]));
        let k = choose|k: int|
            0 <= k < v1.summaries.len() && v1.summaries[k] == v0.summaries[j];
        assert(v1.summaries[k].id == id);
    }
}

/// Pruning unbacked summaries does not change what is listed.
proof fn lemma_prune_keeps_listed(sums: Seq<SummaryView>, recs: Seq<InstanceView>)
    ensures
        listed_views(sums.filter(backed(recs)), recs) == listed_views(sums, recs),
    decreases sums.len(),
{
    reveal(Seq::filter);
    if sums.len() > 0 {
        lemma_prune_keeps_listed(sums.drop_last(), recs);
        if backed(recs)(sums.last()) {
            assert(sums.filter(backed(recs)) == sums.drop_last().filter(backed(recs)).push(
                sums.last(),
            ));
            let f = sums.drop_last().filter(backed(recs)).push(sums.last());
            assert(f.drop_last() =~= sums.drop_last().filter(backed(recs)));
            assert(listed_views(sums.filter(backed(recs)), recs) == listed_views(
                sums,
                recs,
            ));
        }
    }
}

} // verus!
