use multi_instance::errors::ErrorKind;
use multi_instance::model::{Instance, InstanceIndex, InstanceSummary};
use multi_instance::registry::Registry;

fn fresh_registry() -> Registry {
    Registry::new()
}

#[test]
fn binding_is_idempotent_on_instance() {
    let mut inst = Instance::new("id-1".into(), "Work".into(), "/data/work".into());
    inst.bind_account("acc1".into());
    let once = inst.account_ids.clone();
    inst.bind_account("acc1".into());
    assert_eq!(inst.account_ids, once);
    assert_eq!(inst.account_ids.len(), 1);
}

#[test]
fn binding_is_idempotent_in_registry() {
    let mut reg = fresh_registry();
    let inst = reg
        .create_instance("Work".into(), "/data/work".into(), vec![])
        .unwrap();
    reg.bind_account_to_instance("acc1", inst.id.as_str()).unwrap();
    reg.bind_account_to_instance("acc1", inst.id.as_str()).unwrap();
    let listed = reg.list_instances();
    assert_eq!(listed.len(), 1);
    assert_eq!(listed[0].account_ids, vec![String::from("acc1")]);
}

#[test]
fn create_with_used_directory_conflicts_and_changes_nothing() {
    let mut reg = fresh_registry();
    reg.create_instance("A".into(), "/data/a".into(), vec![]).unwrap();
    let records_before = reg.records.len();
    let index_before = reg.index.instances.len();
    let err = reg
        .create_instance("B".into(), "/data/a".into(), vec![])
        .unwrap_err();
    assert_eq!(err.kind(), ErrorKind::Conflict);
    assert_eq!(reg.records.len(), records_before);
    assert_eq!(reg.index.instances.len(), index_before);
}

#[test]
fn ensure_default_twice_returns_same_instance() {
    let mut reg = fresh_registry();
    let first = reg.ensure_default_instance("/default/dir".into()).unwrap();
    let second = reg.ensure_default_instance("/other/dir".into()).unwrap();
    assert_eq!(first.id, second.id);
    assert!(first.is_default && second.is_default);
    let defaults = reg
        .records
        .iter()
        .filter(|r| r.is_default)
        .count();
    assert_eq!(defaults, 1);
}

#[test]
fn launch_args_include_directory_flag_only_for_non_default() {
    let inst = Instance::new("id-1".into(), "Work".into(), "/data/work".into());
    let args = inst.get_launch_args();
    assert_eq!(
        args,
        vec![String::from("--user-data-dir"), String::from("/data/work")]
    );

    let def = Instance::new_default("/default/dir".into());
    let args = def.get_launch_args();
    assert!(args.is_empty());
    assert!(!args.contains(&String::from("--user-data-dir")));
}

#[test]
fn list_prunes_dangling_index_entries() {
    let inst = Instance::new("live".into(), "Live".into(), "/data/live".into());
    let live_summary = InstanceSummary::from_instance(&inst);
    let dangling = InstanceSummary {
        id: "gone".into(),
        name: "Gone".into(),
        user_data_dir: "/data/gone".into(),
        is_default: false,
        account_count: 0,
    };
    let mut reg = Registry {
        index: InstanceIndex { version: "1.0".into(), instances: vec![live_summary, dangling] },
        records: vec![inst],
    };
    assert!(reg.check_wf());
    let listed = reg.list_instances();
    assert_eq!(listed.len(), 1);
    assert_eq!(listed[0].id, "live");
    // the dangling entry is absent from the index that the next save writes
    assert_eq!(reg.index.instances.len(), 1);
    assert_eq!(reg.index.instances[0].id, "live");
}

#[test]
fn delete_default_instance_fails_with_conflict() {
    let mut reg = fresh_registry();
    let def = reg.ensure_default_instance("/default/dir".into()).unwrap();
    let err = reg.delete_instance(def.id.as_str()).unwrap_err();
    assert_eq!(err.kind(), ErrorKind::Conflict);
    // the record remains
    assert!(reg.records.iter().any(|r| r.id == def.id));
}

#[test]
fn delete_unknown_instance_reports_not_found() {
    let mut reg = fresh_registry();
    let err = reg.delete_instance("missing").unwrap_err();
    assert_eq!(err.kind(), ErrorKind::NotFound);
}

#[test]
fn delete_removes_record_and_index_entry() {
    let mut reg = fresh_registry();
    let inst = reg
        .create_instance("A".into(), "/data/a".into(), vec![])
        .unwrap();
    reg.delete_instance(inst.id.as_str()).unwrap();
    assert!(reg.records.is_empty());
    assert!(reg.index.instances.is_empty());
}

#[test]
fn set_current_account_scenario() {
    // create instance "Work" at /data/work; bind "acc1";
    // set_current_account("acc1") succeeds; set_current_account("acc2")
    // fails; unbind "acc1"; set_current_account("acc1") now fails too.
    let mut reg = fresh_registry();
    let inst = reg
        .create_instance("Work".into(), "/data/work".into(), vec![])
        .unwrap();
    reg.bind_account_to_instance("acc1", inst.id.as_str()).unwrap();

    assert!(reg.set_current_account_for_instance(inst.id.as_str(), "acc1").is_ok());

    let err = reg
        .set_current_account_for_instance(inst.id.as_str(), "acc2")
        .unwrap_err();
    assert_eq!(err.kind(), ErrorKind::NotFound);

    reg.unbind_account_from_instance("acc1", inst.id.as_str()).unwrap();
    let err = reg
        .set_current_account_for_instance(inst.id.as_str(), "acc1")
        .unwrap_err();
    assert_eq!(err.kind(), ErrorKind::NotFound);
}

#[test]
fn account_lookups_follow_bindings() {
    let mut reg = fresh_registry();
    let a = reg.create_instance("A".into(), "/d/a".into(), vec![]).unwrap();
    let b = reg.create_instance("B".into(), "/d/b".into(), vec![]).unwrap();
    reg.bind_account_to_instance("acc", a.id.as_str()).unwrap();
    reg.bind_account_to_instance("acc", b.id.as_str()).unwrap();

    let first = reg.get_instance_for_account("acc").unwrap().unwrap();
    assert_eq!(first.id, a.id);
    let all = reg.get_instances_for_account("acc").unwrap();
    assert_eq!(all.len(), 2);
    assert!(reg.get_instance_for_account("nobody").unwrap().is_none());
}

#[test]
fn update_instance_refreshes_record_and_summary() {
    let mut reg = fresh_registry();
    let mut inst = reg
        .create_instance("Old Name".into(), "/d/x".into(), vec![])
        .unwrap();
    inst.name = "New Name".into();
    reg.update_instance(&inst).unwrap();
    let listed = reg.list_instances();
    assert_eq!(listed[0].name, "New Name");
    assert_eq!(reg.index.instances[0].name, "New Name");

    let ghost_inst = Instance::new("nope".into(), "X".into(), "/d/y".into());
    let err = reg.update_instance(&ghost_inst).unwrap_err();
    assert_eq!(err.kind(), ErrorKind::NotFound);
}

#[test]
fn migrate_binds_unbound_accounts_to_default() {
    let mut reg = fresh_registry();
    let other = reg.create_instance("A".into(), "/d/a".into(), vec![]).unwrap();
    reg.bind_account_to_instance("taken", other.id.as_str()).unwrap();

    let accounts = vec![String::from("taken"), String::from("fresh")];
    reg.migrate_accounts_to_default_instance(&accounts, "/default/dir".into()).unwrap();

    let def = reg.get_default_instance().unwrap().unwrap();
    assert_eq!(def.account_ids, vec![String::from("fresh")]);
    // the already-bound account stayed where it was
    let a = reg.get_instances_for_account("taken").unwrap();
    assert_eq!(a.len(), 1);
    assert_eq!(a[0].id, other.id);
}

#[test]
fn unbind_account_removes_binding() {
    let mut reg = fresh_registry();
    let inst = reg.create_instance("A".into(), "/d/a".into(), vec![]).unwrap();
    reg.bind_account_to_instance("x", inst.id.as_str()).unwrap();
    reg.bind_account_to_instance("y", inst.id.as_str()).unwrap();
    reg.unbind_account_from_instance("x", inst.id.as_str()).unwrap();
    let listed = reg.list_instances();
    assert_eq!(listed[0].account_ids, vec![String::from("y")]);
    assert_eq!(reg.index.instances[0].account_count, 1);
}

#[test]
fn check_wf_rejects_duplicate_ids_and_second_default() {
    let a = Instance::new("same".into(), "A".into(), "/d/a".into());
    let b = Instance::new("same".into(), "B".into(), "/d/b".into());
    let sa = InstanceSummary::from_instance(&a);
    let sb = InstanceSummary::from_instance(&b);
    let reg = Registry {
        index: InstanceIndex { version: "1.0".into(), instances: vec![sa, sb] },
        records: vec![a, b],
    };
    assert!(!reg.check_wf());

    let mut d1 = Instance::new("d1".into(), "D1".into(), "/d/1".into());
    d1.is_default = true;
    let mut d2 = Instance::new("d2".into(), "D2".into(), "/d/2".into());
    d2.is_default = true;
    let s1 = InstanceSummary::from_instance(&d1);
    let s2 = InstanceSummary::from_instance(&d2);
    let reg = Registry {
        index: InstanceIndex { version: "1.0".into(), instances: vec![s1, s2] },
        records: vec![d1, d2],
    };
    assert!(!reg.check_wf());
}

#[test]
fn switch_account_updates_pointer_without_binding() {
    let mut reg = fresh_registry();
    let inst = reg.create_instance("A".into(), "/d/a".into(), vec![]).unwrap();
    let snapshot: Vec<multi_instance::process::ProcessRecord> = vec![];
    let ctx = multi_instance::process::ScanContext {
        platform: multi_instance::process::Platform::Linux,
        self_pid: 1,
        self_exe: None,
        manual_exe: None,
    };
    let running = reg
        .switch_account_in_instance(inst.id.as_str(), "ephemeral", &snapshot, &ctx)
        .unwrap();
    assert!(!running);
    let listed = reg.list_instances();
    assert_eq!(listed[0].current_account_id, Some(String::from("ephemeral")));
    // the binding list was not touched
    assert!(listed[0].account_ids.is_empty());
}
