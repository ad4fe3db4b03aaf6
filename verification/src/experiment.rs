//! Experiment registry records: life-cycle states, lineage changes and
//! promotion decisions.
use vstd::prelude::*;
use crate::clock::utc_now_millis;

verus! {

/// Life cycle of an experiment.
#[derive(Debug, Clone, Copy, PartialEq, Eq, Structural)]
pub enum ExperimentStatus {
    Created,
    Running,
    Completed,
    Promoted,
    Retired,
    Failed,
}

/// One changed parameter in an experiment's lineage.
#[derive(Debug, Clone)]
pub struct ParameterChange {
    pub path: String,
    pub old_value: String,
    pub new_value: String,
}

/// Whether a challenger is promoted, and why.
#[derive(Debug, Clone)]
pub struct PromotionDecision {
    pub promote: bool,
    pub reason: String,
}

/// The lineage record of retiring an experiment for `reason`: its status
/// moves from "active" to the reason.
pub fn retirement_change(reason: String) -> (c: ParameterChange)
    ensures
        c.path@ == "status"@,
        c.old_value@ == "active"@,
        c.new_value == reason,
{
    ParameterChange { path: "status".to_owned(), old_value: "active".to_owned(), new_value: reason }
}

/// The status after metrics are recorded.
pub fn status_after_metrics() -> (s: ExperimentStatus)
    ensures
        s == ExperimentStatus::Completed,
{
    ExperimentStatus::Completed
}

/// Draws a fresh identifier with `uuid::Uuid::new_v4` (random bits from
/// the operating system, version 4 and RFC 4122 variant set), as a `u128`.
/// Stated: the version and variant bits, which the source sets on every
/// outcome; the rest rests on chance.
#[verifier::external_body]
fn new_experiment_id() -> (id: u128)
    ensures
        id & 0xF000_C000_0000_0000_0000u128 == 0x4000_8000_0000_0000_0000u128,
{
    uuid::Uuid::new_v4().as_u128()
}

/// Where an experiment comes from: the code version, the configuration's
/// hash, the data manifest, the parent and the changes against it.
#[derive(Debug)]
pub struct LineageRecord {
    pub git_commit: String,
    pub config_hash: String,
    pub data_manifest: String,
    pub parent_experiment: Option<u128>,
    pub parameter_changes: Vec<ParameterChange>,
}

/// One experiment: a configuration `C` and, once run, its metrics `M`.
/// `created_at` is in milliseconds since the Unix epoch.
#[derive(Debug)]
pub struct Experiment<C, M> {
    pub id: u128,
    pub name: String,
    pub created_at: i64,
    pub parent_id: Option<u128>,
    pub config: C,
    pub status: ExperimentStatus,
    pub metrics: Option<M>,
    pub lineage: LineageRecord,
}

/// Why a registry operation failed.
#[derive(Debug, Clone, Copy, PartialEq, Eq, Structural)]
pub enum RegistryError {
    /// No experiment has the identifier.
    NotFound,
    /// The experiment has no metrics yet.
    NoMetrics,
}

/// No two experiments of `s` share an identifier.
pub open spec fn ids_distinct<C, M>(s: Seq<Experiment<C, M>>) -> bool {
    forall|i: int, j: int| 0 <= i < j < s.len() ==> s[i].id != s[j].id
}

/// Some experiment of `s` has identifier `id`.
pub open spec fn has_id<C, M>(s: Seq<Experiment<C, M>>, id: u128) -> bool {
    exists|i: int| 0 <= i < s.len() && #[trigger] s[i].id == id
}

/// Where the experiment with identifier `id` stands in `s`.
pub open spec fn position<C, M>(s: Seq<Experiment<C, M>>, id: u128) -> int {
    choose|i: int| 0 <= i < s.len() && #[trigger] s[i].id == id
}

/// Abstract state of an [`ExperimentRegistry`]: the experiments, and the
/// identifiers promoted and retired, in order.
pub struct RegistryView<C, M> {
    pub experiments: Seq<Experiment<C, M>>,
    pub promoted: Seq<u128>,
    pub retired: Seq<u128>,
}

/// How many experiments are running, how many there are, and how many were
/// promoted and retired.
#[derive(Debug, Clone, Copy, PartialEq, Eq, Structural)]
pub struct RegistryCounts {
    pub active_experiments: usize,
    pub total_experiments: usize,
    pub promoted_count: usize,
    pub retired_count: usize,
}

/// The experiments of `s` with status `status`.
pub open spec fn count_status<C, M>(s: Seq<Experiment<C, M>>, status: ExperimentStatus) -> nat
    decreases s.len(),
{
    if s.len() == 0 {
        0
    } else {
        count_status(s.drop_last(), status) + if s.last().status == status { 1nat } else { 0nat }
    }
}

/// The registry of experiments, with the record of promotions and
/// retirements.
#[derive(Debug)]
pub struct ExperimentRegistry<C, M> {
    experiments: Vec<Experiment<C, M>>,
    promoted: Vec<u128>,
    retired: Vec<u128>,
}

impl<C, M> View for ExperimentRegistry<C, M> {
    type V = RegistryView<C, M>;

    closed spec fn view(&self) -> RegistryView<C, M> {
        RegistryView { experiments: self.experiments@, promoted: self.promoted@, retired: self.retired@ }
    }
}

/// `e` is the experiment `old` with status `status`.
pub open spec fn with_status<C, M>(old: Experiment<C, M>, e: Experiment<C, M>, status: ExperimentStatus) -> bool {
    &&& e.id == old.id
    &&& e.name == old.name
    &&& e.created_at == old.created_at
    &&& e.parent_id == old.parent_id
    &&& e.config == old.config
    &&& e.status == status
    &&& e.metrics == old.metrics
    &&& e.lineage.git_commit == old.lineage.git_commit
    &&& e.lineage.config_hash == old.lineage.config_hash
    &&& e.lineage.data_manifest == old.lineage.data_manifest
    &&& e.lineage.parent_experiment == old.lineage.parent_experiment
}

impl<C, M> ExperimentRegistry<C, M> {
    #[verifier::type_invariant]
    spec fn well_formed(self) -> bool {
        &&& ids_distinct(self.experiments@)
        &&& forall|k: int| 0 <= k < self.promoted@.len() ==> has_id(self.experiments@, #[trigger] self.promoted@[k])
        &&& forall|k: int| 0 <= k < self.retired@.len() ==> has_id(self.experiments@, #[trigger] self.retired@[k])
    }

    /// An empty registry.
    pub fn new() -> (r: Self)
        ensures
            r@.experiments == Seq::<Experiment<C, M>>::empty(),
            r@.promoted == Seq::<u128>::empty(),
            r@.retired == Seq::<u128>::empty(),
            ids_distinct(r@.experiments),
    {
        ExperimentRegistry { experiments: Vec::new(), promoted: Vec::new(), retired: Vec::new() }
    }

    /// Where the experiment `id` stands, if the registry has it.
    fn find(&self, id: u128) -> (r: Option<usize>)
        ensures
            match r {
                Some(i) => i < self@.experiments.len() && self@.experiments[i as int].id == id
                    && position(self@.experiments, id) == i,
                None => !has_id(self@.experiments, id),
            },
    {
        proof {
            use_type_invariant(self);
        }
        let mut i: usize = 0;
        while i < self.experiments.len()
            invariant
                i <= self.experiments.len(),
                forall|j: int| 0 <= j < i ==> self.experiments@[j].id != id,
                ids_distinct(self.experiments@),
            decreases self.experiments.len() - i,
        {
            if self.experiments[i].id == id {
                proof {
                    assert(self.experiments@[i as int].id == id);
                    let p = position(self.experiments@, id);
                    assert(self.experiments@[p].id == id);
                }
                return Some(i);
            }
            i = i + 1;
        }
        None
    }

    /// The experiment `id`, if the registry has it.
    pub fn get(&self, id: u128) -> (e: Option<&Experiment<C, M>>)
        ensures
            match e {
                Some(x) => has_id(self@.experiments, id) && *x == self@.experiments[position(self@.experiments, id)],
                None => !has_id(self@.experiments, id),
            },
            ids_distinct(self@.experiments),
    {
        proof {
            use_type_invariant(self);
        }
        match self.find(id) {
            Some(i) => Some(&self.experiments[i]),
            None => None,
        }
    }

    /// Every experiment, in the order they were created.
    pub fn list(&self) -> (l: &[Experiment<C, M>])
        ensures
            l@ == self@.experiments,
            ids_distinct(self@.experiments),
    {
        proof {
            use_type_invariant(self);
        }
        self.experiments.as_slice()
    }

    /// The metrics of experiment `id`: `NotFound` when the registry has no
    /// such experiment, `NoMetrics` when it has not been run.
    pub fn metrics_of(&self, id: u128) -> (r: Result<&M, RegistryError>)
        ensures
            !has_id(self@.experiments, id) ==> r == Err::<&M, RegistryError>(RegistryError::NotFound),
            has_id(self@.experiments, id) ==> match self@.experiments[position(self@.experiments, id)].metrics {
                Some(m) => r == Ok::<&M, RegistryError>(&m),
                None => r == Err::<&M, RegistryError>(RegistryError::NoMetrics),
            },
    {
        match self.find(id) {
            None => Err(RegistryError::NotFound),
            Some(i) => match &self.experiments[i].metrics {
                Some(m) => Ok(m),
                None => Err(RegistryError::NoMetrics),
            },
        }
    }

    /// The counts of the monitoring snapshot.
    pub fn counts(&self) -> (c: RegistryCounts)
        ensures
            c.active_experiments == count_status(self@.experiments, ExperimentStatus::Running),
            c.total_experiments == self@.experiments.len(),
            c.promoted_count == self@.promoted.len(),
            c.retired_count == self@.retired.len(),
    {
        let mut active: usize = 0;
        let mut i: usize = 0;
        while i < self.experiments.len()
            invariant
                i <= self.experiments.len(),
                active == count_status(self.experiments@.take(i as int), ExperimentStatus::Running),
                active <= i,
            decreases self.experiments.len() - i,
        {
            proof {
                assert(self.experiments@.take(i as int + 1).drop_last() =~= self.experiments@.take(i as int));
            }
            if self.experiments[i].status == ExperimentStatus::Running {
                active = active + 1;
            }
            i = i + 1;
        }
        proof {
            assert(self.experiments@.take(i as int) =~= self.experiments@);
        }
        RegistryCounts {
            active_experiments: active,
            total_experiments: self.experiments.len(),
            promoted_count: self.promoted.len(),
            retired_count: self.retired.len(),
        }
    }
}

impl<C, M> ExperimentRegistry<C, M> {
    /// Takes the registry's parts out, leaving it empty.
    fn take_parts(&mut self) -> (parts: (Vec<Experiment<C, M>>, Vec<u128>, Vec<u128>))
        ensures
            parts.0@ == old(self)@.experiments,
            parts.1@ == old(self)@.promoted,
            parts.2@ == old(self)@.retired,
            ids_distinct(parts.0@),
            forall|k: int| 0 <= k < parts.1@.len() ==> has_id(parts.0@, #[trigger] parts.1@[k]),
            forall|k: int| 0 <= k < parts.2@.len() ==> has_id(parts.0@, #[trigger] parts.2@[k]),
    {
        proof {
            use_type_invariant(&*self);
        }
        let mut taken = ExperimentRegistry::new();
        std::mem::swap(self, &mut taken);
        proof {
            use_type_invariant(&taken);
        }
        let ExperimentRegistry { experiments, promoted, retired } = taken;
        (experiments, promoted, retired)
    }

    /// Records `metrics` for experiment `id`, which is then completed;
    /// `NotFound` (and no change) when the registry has no such experiment.
    pub fn update_metrics(&mut self, id: u128, metrics: M) -> (r: Result<(), RegistryError>)
        ensures
            (r is Ok) == has_id(old(self)@.experiments, id),
            r is Err ==> r == Err::<(), RegistryError>(RegistryError::NotFound) && final(self)@ == old(self)@,
            r is Ok ==> {
                let i = position(old(self)@.experiments, id);
                &&& final(self)@.experiments == old(self)@.experiments.update(i, Experiment {
                    status: ExperimentStatus::Completed,
                    metrics: Some(metrics),
                    ..old(self)@.experiments[i]
                })
                &&& final(self)@.promoted == old(self)@.promoted
                &&& final(self)@.retired == old(self)@.retired
                &&& position(final(self)@.experiments, id) == i
            },
            ids_distinct(final(self)@.experiments),
    {
        proof {
            use_type_invariant(&*self);
        }
        let found = self.find(id);
        match found {
            None => Err(RegistryError::NotFound),
            Some(i) => {
                let (mut exps, promoted, retired) = self.take_parts();
                let mut e = exps.remove(i);
                e.status = ExperimentStatus::Completed;
                e.metrics = Some(metrics);
                exps.insert(i, e);
                proof {
                    lemma_same_ids(old(self)@.experiments, exps@, i as int);
                }
                *self = ExperimentRegistry { experiments: exps, promoted, retired };
                Ok(())
            },
        }
    }

    /// Promotes experiment `id`: its status becomes `Promoted` and it is
    /// recorded as promoted; `NotFound` (and no change) when the registry
    /// has no such experiment.
    pub fn promote(&mut self, id: u128) -> (r: Result<(), RegistryError>)
        ensures
            (r is Ok) == has_id(old(self)@.experiments, id),
            r is Err ==> r == Err::<(), RegistryError>(RegistryError::NotFound) && final(self)@ == old(self)@,
            r is Ok ==> {
                let i = position(old(self)@.experiments, id);
                &&& final(self)@.experiments == old(self)@.experiments.update(i, Experiment {
                    status: ExperimentStatus::Promoted,
                    ..old(self)@.experiments[i]
                })
                &&& final(self)@.promoted == old(self)@.promoted.push(id)
                &&& final(self)@.retired == old(self)@.retired
                &&& position(final(self)@.experiments, id) == i
            },
            ids_distinct(final(self)@.experiments),
    {
        proof {
            use_type_invariant(&*self);
        }
        let found = self.find(id);
        match found {
            None => Err(RegistryError::NotFound),
            Some(i) => {
                let (mut exps, mut promoted, retired) = self.take_parts();
                let mut e = exps.remove(i);
                e.status = ExperimentStatus::Promoted;
                exps.insert(i, e);
                promoted.push(id);
                proof {
                    lemma_same_ids(old(self)@.experiments, exps@, i as int);
                    assert(exps@[i as int].id == id);
                }
                *self = ExperimentRegistry { experiments: exps, promoted, retired };
                Ok(())
            },
        }
    }

    /// Retires experiment `id` for `reason`: its status becomes `Retired`,
    /// its lineage records the status change from "active" to the reason,
    /// and it is recorded as retired; `NotFound` (and no change) when the
    /// registry has no such experiment.
    pub fn retire(&mut self, id: u128, reason: String) -> (r: Result<(), RegistryError>)
        ensures
            (r is Ok) == has_id(old(self)@.experiments, id),
            r is Err ==> r == Err::<(), RegistryError>(RegistryError::NotFound) && final(self)@ == old(self)@,
            r is Ok ==> {
                let i = position(old(self)@.experiments, id);
                let before = old(self)@.experiments[i];
                let after = final(self)@.experiments[i];
                &&& final(self)@.experiments.len() == old(self)@.experiments.len()
                &&& forall|j: int| 0 <= j < old(self)@.experiments.len() && j != i
                    ==> final(self)@.experiments[j] == old(self)@.experiments[j]
                &&& with_status(before, after, ExperimentStatus::Retired)
                &&& after.lineage.parameter_changes@.len() == before.lineage.parameter_changes@.len() + 1
                &&& after.lineage.parameter_changes@.drop_last() == before.lineage.parameter_changes@
                &&& after.lineage.parameter_changes@.last().path@ == "status"@
                &&& after.lineage.parameter_changes@.last().old_value@ == "active"@
                &&& after.lineage.parameter_changes@.last().new_value == reason
                &&& final(self)@.promoted == old(self)@.promoted
                &&& final(self)@.retired == old(self)@.retired.push(id)
                &&& position(final(self)@.experiments, id) == i
            },
            ids_distinct(final(self)@.experiments),
    {
        proof {
            use_type_invariant(&*self);
        }
        let found = self.find(id);
        match found {
            None => Err(RegistryError::NotFound),
            Some(i) => {
                let (mut exps, promoted, mut retired) = self.take_parts();
                let mut e = exps.remove(i);
                let ghost before = e;
                e.status = ExperimentStatus::Retired;
                e.lineage.parameter_changes.push(retirement_change(reason));
                proof {
                    assert(e.lineage.parameter_changes@.drop_last() =~= before.lineage.parameter_changes@);
                }
                exps.insert(i, e);
                retired.push(id);
                proof {
                    lemma_same_ids(old(self)@.experiments, exps@, i as int);
                    assert(exps@[i as int].id == id);
                }
                *self = ExperimentRegistry { experiments: exps, promoted, retired };
                Ok(())
            },
        }
    }

    /// Registers a new experiment `name` with `config`, derived from
    /// `parent_id` if given, and returns its fresh identifier. The lineage
    /// records the code version, `config_hash`, a pending data manifest,
    /// the parent, and `parent_changes` (the configuration changes against
    /// the parent) when the registry has that parent, none otherwise. The
    /// experiment is created now, with no metrics. An identifier already in
    /// use is taken over by the new experiment.
    pub fn create(&mut self, name: String, config: C, parent_id: Option<u128>, config_hash: String,
        parent_changes: Vec<ParameterChange>) -> (id: u128)
        ensures
            has_id(final(self)@.experiments, id),
            ({
                let e = final(self)@.experiments[position(final(self)@.experiments, id)];
                &&& e.id == id
                &&& e.name == name
                &&& e.parent_id == parent_id
                &&& e.config == config
                &&& e.status == ExperimentStatus::Created
                &&& e.metrics is None
                &&& e.lineage.git_commit@ == "0.2.0"@
                &&& e.lineage.config_hash == config_hash
                &&& e.lineage.data_manifest@ == "pending"@
                &&& e.lineage.parent_experiment == parent_id
                &&& e.lineage.parameter_changes@ == (if parent_id matches Some(p) && has_id(old(self)@.experiments, p) {
                    parent_changes@
                } else {
                    Seq::<ParameterChange>::empty()
                })
                &&& final(self)@.experiments == (if has_id(old(self)@.experiments, id) {
                    old(self)@.experiments.update(position(old(self)@.experiments, id), e)
                } else {
                    old(self)@.experiments.push(e)
                })
            }),
            final(self)@.promoted == old(self)@.promoted,
            final(self)@.retired == old(self)@.retired,
            ids_distinct(final(self)@.experiments),
    {
        let id = new_experiment_id();
        let created_at = utc_now_millis();
        let has_parent = match parent_id {
            Some(p) => self.find(p).is_some(),
            None => false,
        };
        let changes = if has_parent { parent_changes } else { Vec::new() };
        let lineage = LineageRecord {
            git_commit: "0.2.0".to_owned(),
            config_hash,
            data_manifest: "pending".to_owned(),
            parent_experiment: parent_id,
            parameter_changes: changes,
        };
        let e = Experiment {
            id,
            name,
            created_at,
            parent_id,
            config,
            status: ExperimentStatus::Created,
            metrics: None,
            lineage,
        };
        let found = self.find(id);
        let (mut exps, promoted, retired) = self.take_parts();
        let ghost old_exps = exps@;
        match found {
            Some(i) => {
                let _ = exps.remove(i);
                exps.insert(i, e);
                proof {
                    lemma_same_ids(old_exps, exps@, i as int);
                    assert(exps@ =~= old_exps.update(i as int, e));
                    assert(exps@[i as int].id == id);
                    lemma_position_of_distinct(exps@, i as int);
                }
            },
            None => {
                exps.push(e);
                proof {
                    let n = old_exps.len() as int;
                    assert(exps@[n].id == id);
                    assert forall|a: int, b: int| 0 <= a < b < exps@.len() implies exps@[a].id != exps@[b].id by {
                        if b == n {
                            assert(old_exps[a].id != id);
                        } else {
                            assert(exps@[a] == old_exps[a]);
                            assert(exps@[b] == old_exps[b]);
                        }
                    }
                    assert forall|k: int| 0 <= k < promoted@.len() implies has_id(exps@, #[trigger] promoted@[k]) by {
                        let w = choose|w: int| 0 <= w < old_exps.len() && #[trigger] old_exps[w].id == promoted@[k];
                        assert(exps@[w] == old_exps[w]);
                    }
                    assert forall|k: int| 0 <= k < retired@.len() implies has_id(exps@, #[trigger] retired@[k]) by {
                        let w = choose|w: int| 0 <= w < old_exps.len() && #[trigger] old_exps[w].id == retired@[k];
                        assert(exps@[w] == old_exps[w]);
                    }
                    lemma_position_of_distinct(exps@, n);
                }
            },
        }
        *self = ExperimentRegistry { experiments: exps, promoted, retired };
        id
    }

    /// The promoted experiments, in the order they were promoted.
    pub fn promoted(&self) -> (v: Vec<&Experiment<C, M>>)
        ensures
            v@.len() == self@.promoted.len(),
            forall|k: int| 0 <= k < v@.len() ==>
                *(#[trigger] v@[k]) == self@.experiments[position(self@.experiments, self@.promoted[k])],
    {
        proof {
            use_type_invariant(self);
        }
        let mut v: Vec<&Experiment<C, M>> = Vec::new();
        let mut k: usize = 0;
        while k < self.promoted.len()
            invariant
                k <= self.promoted.len(),
                v@.len() == k,
                forall|q: int| 0 <= q < self.promoted@.len() ==> has_id(self.experiments@, #[trigger] self.promoted@[q]),
                forall|q: int| 0 <= q < k ==>
                    *(#[trigger] v@[q]) == self@.experiments[position(self@.experiments, self@.promoted[q])],
            decreases self.promoted.len() - k,
        {
            proof {
                assert(has_id(self.experiments@, self.promoted@[k as int]));
            }
            match self.find(self.promoted[k]) {
                Some(i) => {
                    v.push(&self.experiments[i]);
                },
                None => {},
            }
            k = k + 1;
        }
        v
    }

    /// The retired experiments, in the order they were retired.
    pub fn retired(&self) -> (v: Vec<&Experiment<C, M>>)
        ensures
            v@.len() == self@.retired.len(),
            forall|k: int| 0 <= k < v@.len() ==>
                *(#[trigger] v@[k]) == self@.experiments[position(self@.experiments, self@.retired[k])],
    {
        proof {
            use_type_invariant(self);
        }
        let mut v: Vec<&Experiment<C, M>> = Vec::new();
        let mut k: usize = 0;
        while k < self.retired.len()
            invariant
                k <= self.retired.len(),
                v@.len() == k,
                forall|q: int| 0 <= q < self.retired@.len() ==> has_id(self.experiments@, #[trigger] self.retired@[q]),
                forall|q: int| 0 <= q < k ==>
                    *(#[trigger] v@[q]) == self@.experiments[position(self@.experiments, self@.retired[q])],
            decreases self.retired.len() - k,
        {
            proof {
                assert(has_id(self.experiments@, self.retired@[k as int]));
            }
            match self.find(self.retired[k]) {
                Some(i) => {
                    v.push(&self.experiments[i]);
                },
                None => {},
            }
            k = k + 1;
        }
        v
    }
}

/// Replacing the experiment at `i` by one with the same identifier keeps
/// the identifiers, so distinctness and membership carry over.
proof fn lemma_same_ids<C, M>(before: Seq<Experiment<C, M>>, after: Seq<Experiment<C, M>>, i: int)
    requires
        0 <= i < before.len(),
        after.len() == before.len(),
        after[i].id == before[i].id,
        forall|j: int| 0 <= j < before.len() && j != i ==> after[j] == before[j],
    ensures
        forall|j: int| 0 <= j < before.len() ==> after[j].id == before[j].id,
        ids_distinct(before) ==> ids_distinct(after),
        forall|x: u128| has_id(before, x) <==> has_id(after, x),
        forall|x: u128| has_id(before, x) ==> position(after, x) == position(before, x) || !ids_distinct(before),
{
    assert forall|x: u128| has_id(before, x) <==> has_id(after, x) by {
        if has_id(before, x) {
            let w = choose|w: int| 0 <= w < before.len() && #[trigger] before[w].id == x;
            assert(after[w].id == x);
        }
        if has_id(after, x) {
            let w = choose|w: int| 0 <= w < after.len() && #[trigger] after[w].id == x;
            assert(before[w].id == x);
        }
    }
    if ids_distinct(before) {
        assert forall|x: u128| has_id(before, x) implies position(after, x) == position(before, x) by {
            let p = position(before, x);
            let q = position(after, x);
            assert(before[p].id == x);
            assert(after[q].id == x);
            assert(before[q].id == x);
        }
    }
}

/// In a sequence with distinct identifiers, the position of an entry's
/// identifier is that entry's index.
proof fn lemma_position_of_distinct<C, M>(s: Seq<Experiment<C, M>>, i: int)
    requires
        ids_distinct(s),
        0 <= i < s.len(),
    ensures
        position(s, s[i].id) == i,
{
    let x = s[i].id;
    assert(has_id(s, x));
    let p = position(s, x);
    assert(s[p].id == x);
}

/// After a promotion the experiment is found with status `Promoted`, and
/// its identifier is the newest entry of the promotion record, which grew
/// by one.
pub proof fn lemma_promotion_recorded<C, M>(before: RegistryView<C, M>, after: RegistryView<C, M>, id: u128)
    requires
        has_id(before.experiments, id),
        ids_distinct(before.experiments),
        after.experiments == before.experiments.update(position(before.experiments, id), Experiment {
            status: ExperimentStatus::Promoted,
            ..before.experiments[position(before.experiments, id)]
        }),
        after.promoted == before.promoted.push(id),
    ensures
        has_id(after.experiments, id),
        after.experiments[position(after.experiments, id)].status == ExperimentStatus::Promoted,
        after.promoted.last() == id,
        after.promoted.len() == before.promoted.len() + 1,
{
    let i = position(before.experiments, id);
    assert(before.experiments[i].id == id);
    assert(after.experiments[i].id == id);
    lemma_same_ids(before.experiments, after.experiments, i);
    lemma_position_of_distinct(after.experiments, i);
}

/// A retired experiment stays on record: after a retirement (the entry of
/// `id` replaced by itself with status `Retired`, every other entry kept)
/// the registry still has as many experiments, `id` is found with status
/// `Retired`, and it is the newest entry of the retirement record, which
/// grew by one.
pub proof fn lemma_retirement_recorded<C, M>(before: RegistryView<C, M>, after: RegistryView<C, M>, id: u128)
    requires
        has_id(before.experiments, id),
        ids_distinct(before.experiments),
        after.experiments.len() == before.experiments.len(),
        forall|j: int| 0 <= j < before.experiments.len() && j != position(before.experiments, id)
            ==> after.experiments[j] == before.experiments[j],
        with_status(before.experiments[position(before.experiments, id)],
            after.experiments[position(before.experiments, id)], ExperimentStatus::Retired),
        after.retired == before.retired.push(id),
    ensures
        has_id(after.experiments, id),
        after.experiments.len() == before.experiments.len(),
        after.experiments[position(after.experiments, id)].status == ExperimentStatus::Retired,
        after.retired.last() == id,
        after.retired.len() == before.retired.len() + 1,
{
    let i = position(before.experiments, id);
    assert(before.experiments[i].id == id);
    assert(after.experiments[i].id == id);
    lemma_same_ids(before.experiments, after.experiments, i);
    lemma_position_of_distinct(after.experiments, i);
}

/// No experiment is ever dropped from the registry: replacing the entry of
/// an experiment by one with the same identifier (what metrics, promotion
/// and retirement do) and adding one (what creation does) keep every
/// identifier the registry had, so failed experiments stay on record.
pub proof fn lemma_experiments_kept<C, M>(before: Seq<Experiment<C, M>>, i: int, e: Experiment<C, M>, x: u128)
    requires
        has_id(before, x),
    ensures
        0 <= i < before.len() && e.id == before[i].id ==> has_id(before.update(i, e), x),
        has_id(before.push(e), x),
{
    let w = choose|w: int| 0 <= w < before.len() && #[trigger] before[w].id == x;
    if 0 <= i < before.len() && e.id == before[i].id {
        assert(before.update(i, e)[w].id == x);
    }
    assert(before.push(e)[w].id == x);
}

} // verus!
