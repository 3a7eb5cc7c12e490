//! Variants of a run, workers, and decisions on tasks.
use vstd::prelude::*;

use crate::error::{list_view, result_view, views, Error, Fault};
use crate::json::{parse_required, stored_value};
use crate::ledger::{key1, key2, Ledger, LedgerState};
use crate::order::{lists, tell_flagged, Told};
use crate::rows::{ReviewRecord, ReviewState, VariantRow, VariantState, WorkerRow, WorkerState};
use crate::table::{has_prefix, under, without, Row};
use crate::text::{copy_opt, opt_text, text_of, texts};
use crate::time::{datetime_text, timestamp, Moment};
use crate::types::{
    RegisterVariantsRequest, RegisterWorkerRequest, ReviewRequest, VariantInput, VariantInputState,
    VariantRecord, VariantRecordState, WorkerRecord, WorkerRecordState,
};

verus! {

/// The variants after those of one dimension were added, one after the other.
pub open spec fn variants_added(
    variants: Map<Seq<Seq<char>>, VariantState>,
    run_id: Seq<char>,
    dimension: Seq<char>,
    inputs: Seq<VariantInputState>,
) -> Map<Seq<Seq<char>>, VariantState>
    decreases inputs.len(),
{
    if inputs.len() == 0 {
        variants
    } else {
        let input = inputs.last();
        variants_added(variants, run_id, dimension, inputs.drop_last()).insert(
            seq![run_id, dimension, input.name],
            VariantState { config_json: input.config, digest: input.digest },
        )
    }
}

/// Two of the variants have the same name.
pub open spec fn name_twice(inputs: Seq<VariantInputState>) -> bool {
    exists|i: int, j: int|
        0 <= i < j < inputs.len() && (#[trigger] inputs[i]).name == (#[trigger] inputs[j]).name
}

/// What the database says of two variants with the same name.
pub open spec fn name_refusal() -> Fault {
    Fault::Sqlite(
        "UNIQUE constraint failed: variants.run_id, variants.dimension, variants.name"@,
    )
}

/// The variants of the run along the dimension are replaced.
pub open spec fn variants_replaced(
    state: LedgerState,
    run_id: Seq<char>,
    dimension: Seq<char>,
    inputs: Seq<VariantInputState>,
) -> LedgerState {
    LedgerState {
        variants: variants_added(
            without(state.variants, seq![run_id, dimension]),
            run_id,
            dimension,
            inputs,
        ),
        ..state
    }
}

/// The variants of a run.
pub open spec fn variants_of(run_id: Seq<char>) -> spec_fn(Seq<Seq<char>>, VariantState) -> bool {
    |key: Seq<Seq<char>>, variant: VariantState| under(seq![run_id], key)
}

impl Told for VariantRow {
    type Record = VariantRecord;

    open spec fn tell(key: Seq<Seq<char>>, row: VariantState) -> Result<VariantRecordState, Fault> {
        match stored_value(row.config_json) {
            Ok(config) => Ok(
                VariantRecordState {
                    run_id: key[0],
                    dimension: key[1],
                    name: key[2],
                    config,
                    digest: row.digest,
                },
            ),
            Err(fault) => Err(fault),
        }
    }

    fn record(&self) -> (record: Result<VariantRecord, Error>) {
        match parse_required(self.config_json.as_str()) {
            Ok(config) => Ok(
                VariantRecord {
                    run_id: self.run_id.clone(),
                    dimension: self.dimension.clone(),
                    name: self.name.clone(),
                    config,
                    digest: self.digest.clone(),
                },
            ),
            Err(error) => Err(error),
        }
    }
}

/// The worker is known from now on as it says.
pub open spec fn worker_registered(
    state: LedgerState,
    worker_id: Seq<char>,
    hostname: Option<Seq<char>>,
    process_id: Option<u32>,
    resources: Seq<char>,
    now: Moment,
) -> LedgerState {
    LedgerState {
        workers: state.workers.insert(
            seq![worker_id],
            WorkerState {
                hostname,
                process_id,
                resources_json: resources,
                heartbeat_at: datetime_text(now.secs),
            },
        ),
        ..state
    }
}

/// Every worker.
pub open spec fn every_worker() -> spec_fn(Seq<Seq<char>>, WorkerState) -> bool {
    |key: Seq<Seq<char>>, worker: WorkerState| true
}

impl Told for WorkerRow {
    type Record = WorkerRecord;

    open spec fn tell(key: Seq<Seq<char>>, row: WorkerState) -> Result<WorkerRecordState, Fault> {
        match stored_value(row.resources_json) {
            Ok(resources) => Ok(
                WorkerRecordState {
                    worker_id: key[0],
                    hostname: row.hostname,
                    process_id: row.process_id,
                    resources,
                    heartbeat_at: row.heartbeat_at,
                },
            ),
            Err(fault) => Err(fault),
        }
    }

    fn record(&self) -> (record: Result<WorkerRecord, Error>) {
        match parse_required(self.resources_json.as_str()) {
            Ok(resources) => Ok(
                WorkerRecord {
                    worker_id: self.worker_id.clone(),
                    hostname: copy_opt(&self.hostname),
                    process_id: self.process_id,
                    resources,
                    heartbeat_at: self.heartbeat_at.clone(),
                },
            ),
            Err(error) => Err(error),
        }
    }
}

/// The decision as it is kept.
pub open spec fn review_kept(req: ReviewRequest, now: Moment) -> ReviewState {
    ReviewState {
        run_id: req.run_id@,
        kind: req.kind@,
        task_id: req.task_id@,
        reviewer: req.reviewer@,
        decision: req.decision,
        note: opt_text(req.note),
        timestamp: datetime_text(now.secs),
    }
}

fn any_name_twice(inputs: &Vec<VariantInput>) -> (found: bool)
    ensures
        found == name_twice(views(inputs@)),
{
    let ghost said = views(inputs@);
    for j in 0..inputs.len()
        invariant
            said == views(inputs@),
            forall|a: int, b: int|
                0 <= a < b < j ==> (#[trigger] said[a]).name != (#[trigger] said[b]).name,
    {
        for i in 0..j
            invariant
                said == views(inputs@),
                j < inputs@.len(),
                forall|a: int| 0 <= a < i ==> (#[trigger] said[a]).name != said[j as int].name,
        {
            if inputs[i].name == inputs[j].name {
                assert(said[i as int].name == said[j as int].name);
                return true;
            }
        }
    }
    false
}

impl Ledger {
    fn add_variants(
        &mut self,
        run_id: &String,
        dimension: &String,
        inputs: &Vec<VariantInput>,
    )
        requires
            old(self).wf(),
        ensures
            final(self).wf(),
            final(self)@ == (LedgerState {
                variants: variants_added(
                    old(self)@.variants,
                    run_id@,
                    dimension@,
                    views(inputs@),
                ),
                ..old(self)@
            }),
    {
        for i in 0..inputs.len()
            invariant
                self.wf(),
                self@ == (LedgerState {
                    variants: variants_added(
                        old(self)@.variants,
                        run_id@,
                        dimension@,
                        views(inputs@.take(i as int)),
                    ),
                    ..old(self)@
                }),
        {
            let input = &inputs[i];
            self.variants.put(
                VariantRow {
                    run_id: run_id.clone(),
                    dimension: dimension.clone(),
                    name: input.name.clone(),
                    config_json: text_of(input.config.text()),
                    digest: input.digest.clone(),
                },
            );
            proof {
                let more = views(inputs@.take(i + 1));
                assert(more.drop_last() =~= views(inputs@.take(i as int)));
                assert(more.last() == input@);
            }
        }
        assert(inputs@.take(inputs@.len() as int) =~= inputs@);
    }

    /// Replaces the variants of a run along one dimension; returns all variants of the run.
    pub fn register_variants(&mut self, req: RegisterVariantsRequest) -> (records: Result<
        Vec<VariantRecord>,
        Error,
    >)
        requires
            old(self).wf(),
        ensures
            final(self).wf(),
            if name_twice(views(req.variants@)) {
                final(self)@ == old(self)@ && list_view(records) == Err::<
                    Seq<VariantRecordState>,
                    Fault,
                >(name_refusal())
            } else {
                final(self)@ == variants_replaced(
                    old(self)@,
                    req.run_id@,
                    req.dimension@,
                    views(req.variants@),
                ) && lists::<VariantRow>(
                    final(self)@.variants,
                    variants_of(req.run_id@),
                    list_view(records),
                )
            },
    {
        if any_name_twice(&req.variants) {
            return Err(
                Error::Sqlite(
                    text_of(
                        "UNIQUE constraint failed: variants.run_id, variants.dimension, variants.name",
                    ),
                ),
            );
        }
        self.variants.drop_under(&key2(&req.run_id, &req.dimension));
        self.add_variants(&req.run_id, &req.dimension, &req.variants);
        assert(self@ =~= variants_replaced(
            old(self)@,
            req.run_id@,
            req.dimension@,
            views(req.variants@),
        ));
        self.list_variants(req.run_id.as_str())
    }

    /// The variants of a run, by dimension and name.
    pub fn list_variants(&self, run_id: &str) -> (records: Result<Vec<VariantRecord>, Error>)
        requires
            self.wf(),
        ensures
            lists::<VariantRow>(self@.variants, variants_of(run_id@), list_view(records)),
    {
        let prefix = key1(&text_of(run_id));
        let rows = self.variants.rows();
        let mut flags: Vec<bool> = Vec::new();
        for i in 0..rows.len()
            invariant
                texts(prefix@) == seq![run_id@],
                flags@.len() == i,
                forall|j: int|
                    0 <= j < i ==> #[trigger] flags@[j] == variants_of(run_id@)(
                        rows@[j].key(),
                        rows@[j]@,
                    ),
        {
            flags.push(has_prefix(&rows[i], &prefix));
        }
        tell_flagged(rows, &flags, Ghost(variants_of(run_id@)))
    }

    /// Makes a worker known.
    pub fn register_worker_at(&mut self, req: RegisterWorkerRequest, now: Moment) -> (record:
        Result<WorkerRecord, Error>)
        requires
            old(self).wf(),
            now.valid(),
        ensures
            final(self).wf(),
            final(self)@ == worker_registered(
                old(self)@,
                req.worker_id@,
                opt_text(req.hostname),
                req.process_id,
                req.resources@,
                now,
            ),
            result_view(record) == Ok::<WorkerRecordState, Fault>(
                WorkerRecordState {
                    worker_id: req.worker_id@,
                    hostname: opt_text(req.hostname),
                    process_id: req.process_id,
                    resources: req.resources@,
                    heartbeat_at: datetime_text(now.secs),
                },
            ),
    {
        self.workers.put(
            WorkerRow {
                worker_id: req.worker_id.clone(),
                hostname: copy_opt(&req.hostname),
                process_id: req.process_id,
                resources_json: text_of(req.resources.text()),
                heartbeat_at: timestamp(now),
            },
        );
        Ok(
            WorkerRecord {
                worker_id: req.worker_id,
                hostname: req.hostname,
                process_id: req.process_id,
                resources: req.resources,
                heartbeat_at: timestamp(now),
            },
        )
    }

    /// Every worker, by its id.
    pub fn list_workers(&self) -> (records: Result<Vec<WorkerRecord>, Error>)
        requires
            self.wf(),
        ensures
            lists::<WorkerRow>(self@.workers, every_worker(), list_view(records)),
    {
        let rows = self.workers.rows();
        let mut flags: Vec<bool> = Vec::new();
        for i in 0..rows.len()
            invariant
                flags@.len() == i,
                forall|j: int| 0 <= j < i ==> #[trigger] flags@[j],
        {
            flags.push(true);
        }
        tell_flagged(rows, &flags, Ghost(every_worker()))
    }

    /// Records a decision on a task.
    pub fn mark_reviewed_at(&mut self, req: ReviewRequest, now: Moment) -> (record: Result<
        ReviewRecord,
        Error,
    >)
        requires
            old(self).wf(),
            now.valid(),
        ensures
            final(self).wf(),
            final(self)@ == (LedgerState {
                reviews: old(self)@.reviews.push(review_kept(req, now)),
                ..old(self)@
            }),
            result_view(record) == Ok::<ReviewState, Fault>(review_kept(req, now)),
    {
        let kept = ReviewRecord {
            run_id: req.run_id.clone(),
            kind: req.kind.clone(),
            task_id: req.task_id.clone(),
            reviewer: req.reviewer.clone(),
            decision: req.decision,
            note: copy_opt(&req.note),
            timestamp: timestamp(now),
        };
        self.reviews.push(kept);
        assert(views(self.reviews@) =~= views(old(self).reviews@).push(kept@));
        Ok(
            ReviewRecord {
                run_id: req.run_id,
                kind: req.kind,
                task_id: req.task_id,
                reviewer: req.reviewer,
                decision: req.decision,
                note: req.note,
                timestamp: timestamp(now),
            },
        )
    }
}

} // verus!
