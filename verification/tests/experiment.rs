use quantaradar::experiment::{
    ExperimentRegistry, ExperimentStatus, ParameterChange, RegistryCounts, RegistryError,
};

type Config = Vec<String>;
type Metrics = (f64, usize);

fn change(path: &str) -> ParameterChange {
    ParameterChange { path: path.to_string(), old_value: "a".to_string(), new_value: "b".to_string() }
}

#[test]
fn registry_create_update_and_promote() {
    let mut reg: ExperimentRegistry<Config, Metrics> = ExperimentRegistry::new();
    let id = reg.create("test".to_string(), vec!["trend".to_string()], None, "abc".to_string(), vec![change("x")]);
    let exp = reg.get(id).unwrap();
    assert_eq!(exp.status, ExperimentStatus::Created);
    assert_eq!(exp.name, "test");
    assert_eq!(exp.lineage.git_commit, "0.2.0");
    assert_eq!(exp.lineage.data_manifest, "pending");
    assert_eq!(exp.lineage.config_hash, "abc");
    // No parent: no changes recorded.
    assert!(exp.lineage.parameter_changes.is_empty());
    assert!(exp.created_at > 1_600_000_000_000);
    assert_eq!(reg.metrics_of(id), Err(RegistryError::NoMetrics));

    reg.update_metrics(id, (1.5, 50)).unwrap();
    assert_eq!(reg.get(id).unwrap().status, ExperimentStatus::Completed);
    assert_eq!(reg.metrics_of(id), Ok(&(1.5, 50)));

    reg.promote(id).unwrap();
    assert_eq!(reg.get(id).unwrap().status, ExperimentStatus::Promoted);
    assert_eq!(reg.promoted().len(), 1);
    assert_eq!(reg.promoted()[0].id, id);
    assert_eq!(
        reg.counts(),
        RegistryCounts { active_experiments: 0, total_experiments: 1, promoted_count: 1, retired_count: 0 }
    );
}

#[test]
fn registry_unknown_ids_are_refused() {
    let mut reg: ExperimentRegistry<Config, Metrics> = ExperimentRegistry::new();
    assert_eq!(reg.update_metrics(7, (0.0, 0)), Err(RegistryError::NotFound));
    assert_eq!(reg.promote(7), Err(RegistryError::NotFound));
    assert_eq!(reg.retire(7, "x".to_string()), Err(RegistryError::NotFound));
    assert_eq!(reg.metrics_of(7), Err(RegistryError::NotFound));
    assert!(reg.get(7).is_none());
    assert!(reg.list().is_empty());
}

#[test]
fn registry_child_records_parent_changes() {
    let mut reg: ExperimentRegistry<Config, Metrics> = ExperimentRegistry::new();
    let parent = reg.create("p".to_string(), vec![], None, "h1".to_string(), vec![]);
    let child = reg.create("c".to_string(), vec![], Some(parent), "h2".to_string(), vec![change("fee_bps")]);
    let c = reg.get(child).unwrap();
    assert_eq!(c.parent_id, Some(parent));
    assert_eq!(c.lineage.parent_experiment, Some(parent));
    assert_eq!(c.lineage.parameter_changes.len(), 1);
    assert_eq!(c.lineage.parameter_changes[0].path, "fee_bps");
    // A parent the registry does not know gives no changes.
    let orphan = reg.create("o".to_string(), vec![], Some(12345), "h3".to_string(), vec![change("x")]);
    assert!(reg.get(orphan).unwrap().lineage.parameter_changes.is_empty());
    assert_eq!(reg.list().len(), 3);
    assert_ne!(parent, child);
}

#[test]
fn registry_retire_records_lineage() {
    let mut reg: ExperimentRegistry<Config, Metrics> = ExperimentRegistry::new();
    let id = reg.create("r".to_string(), vec![], None, "h".to_string(), vec![]);
    reg.retire(id, "drawdown".to_string()).unwrap();
    let e = reg.get(id).unwrap();
    assert_eq!(e.status, ExperimentStatus::Retired);
    let last = e.lineage.parameter_changes.last().unwrap();
    assert_eq!(last.path, "status");
    assert_eq!(last.old_value, "active");
    assert_eq!(last.new_value, "drawdown");
    assert_eq!(reg.retired().len(), 1);
    assert_eq!(reg.counts().retired_count, 1);
}

#[test]
fn experiment_ids_are_version_four() {
    let mut reg: ExperimentRegistry<Config, Metrics> = ExperimentRegistry::new();
    let id = reg.create("v".to_string(), vec![], None, String::new(), vec![]);
    assert_eq!(id & 0xF000_C000_0000_0000_0000u128, 0x4000_8000_0000_0000_0000u128);
}

#[test]
fn registry_retired_experiment_stays_on_record() {
    let mut reg: ExperimentRegistry<Config, Metrics> = ExperimentRegistry::new();
    let a = reg.create("a".to_string(), vec![], None, "h".to_string(), vec![]);
    let b = reg.create("b".to_string(), vec![], None, "h".to_string(), vec![]);
    reg.update_metrics(a, (0.5, 10)).unwrap();
    let n = reg.list().len();
    reg.retire(b, "no edge".to_string()).unwrap();
    assert_eq!(reg.list().len(), n);
    assert_eq!(reg.get(b).unwrap().status, ExperimentStatus::Retired);
    assert_eq!(reg.get(a).unwrap().status, ExperimentStatus::Completed);
    assert_eq!(reg.retired()[0].id, b);
}
