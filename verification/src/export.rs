//! Exports: what each kind of export consists of, and the text of those that are plain text.
use vstd::prelude::*;

use crate::csv::{csv_line, csv_row, field_texts};
use crate::error::{result_view, views, Error, Fault};
use crate::failure::{class_label, failure_class_label};
use crate::ledger::{key1, Ledger, LedgerState};
use crate::order::lists;
use crate::report::{countable, lists_failures, summed_up};
use crate::rows::{FailureRecord, FailureState, TaskRow};
use crate::tasks::wanted_tasks;
use crate::text::{decimal, decimal_text, text_of, texts};
use crate::time::Moment;
use crate::types::{
    counted, ExportKind, ExportRequest, ExportResponse, ExportState, RunSummary, RunSummaryState,
    SummaryRequest, TaskRecord, TaskRecordState,
};

verus! {

/// What an export consists of. Values are still to be written as JSON.
#[derive(Debug, Clone, PartialEq, Eq)]
pub enum Export {
    /// The summary of the run.
    Manifest(RunSummary),
    /// The current tasks of the run, one line each.
    TaskResults(Vec<TaskRecord>),
    /// The failures of the run.
    FailureReport(Vec<FailureRecord>),
    /// The summary of the run, as a member named `summary`.
    Metrics(RunSummary),
    /// Plain text.
    Text(ExportResponse),
}

/// What an `Export` says.
pub enum ExportParts {
    Manifest(RunSummaryState),
    TaskResults(Seq<TaskRecordState>),
    FailureReport(Seq<FailureState>),
    Metrics(RunSummaryState),
    Text(ExportState),
}

impl View for Export {
    type V = ExportParts;

    open spec fn view(&self) -> ExportParts {
        match self {
            Export::Manifest(summary) => ExportParts::Manifest(summary@),
            Export::TaskResults(records) => ExportParts::TaskResults(views(records@)),
            Export::FailureReport(records) => ExportParts::FailureReport(views(records@)),
            Export::Metrics(summary) => ExportParts::Metrics(summary@),
            Export::Text(response) => ExportParts::Text(response@),
        }
    }
}

/// The content type of each kind of export.
pub open spec fn media_type(kind: ExportKind) -> Seq<char> {
    match kind {
        ExportKind::ManifestJson => "application/json"@,
        ExportKind::TaskResultsJsonl => "application/x-ndjson"@,
        ExportKind::FailureReportJson => "application/json"@,
        ExportKind::FailureReportCsv => "text/csv"@,
        ExportKind::AggregateMetricsJson => "application/json"@,
        ExportKind::AggregateMetricsCsv => "text/csv"@,
    }
}

/// Names the content type of an export.
pub fn content_type(kind: ExportKind) -> (name: &'static str)
    ensures
        name@ == media_type(kind),
{
    match kind {
        ExportKind::ManifestJson => "application/json",
        ExportKind::TaskResultsJsonl => "application/x-ndjson",
        ExportKind::FailureReportJson => "application/json",
        ExportKind::FailureReportCsv => "text/csv",
        ExportKind::AggregateMetricsJson => "application/json",
        ExportKind::AggregateMetricsCsv => "text/csv",
    }
}

/// The texts one after the other.
pub open spec fn joined(list: Seq<Seq<char>>) -> Seq<char>
    decreases list.len(),
{
    if list.len() == 0 {
        Seq::empty()
    } else {
        joined(list.drop_last()) + list.last()
    }
}

/// Writes lines one after the other, each with a line feed.
pub fn json_lines(lines: &Vec<String>) -> (body: String)
    ensures
        body@ == joined(Seq::new(lines@.len(), |i: int| lines@[i]@.push('\n'))),
{
    let ghost whole = Seq::new(lines@.len(), |i: int| lines@[i]@.push('\n'));
    let mut body = String::new();
    for i in 0..lines.len()
        invariant
            whole == Seq::new(lines@.len(), |i: int| lines@[i]@.push('\n')),
            body@ == joined(whole.take(i as int)),
    {
        body.append(lines[i].as_str());
        body.push('\n');
        assert(whole.take(i + 1).drop_last() =~= whole.take(i as int));
        assert(body@ =~= joined(whole.take(i + 1)));
    }
    assert(whole.take(whole.len() as int) =~= whole);
    body
}

/// The row of a failure in the report.
pub open spec fn failure_line(failure: FailureState) -> Seq<char> {
    csv_line(
        seq![
            failure.run_id,
            failure.step_name,
            failure.input_digest,
            decimal(failure.attempt as nat),
            class_label(failure.failure_class),
            failure.error_type,
            failure.message,
            failure.timestamp,
        ],
    )
}

/// The report of failures: a header and a row for each.
pub open spec fn failure_table(failures: Seq<FailureState>) -> Seq<char> {
    "run_id,step_name,input_digest,attempt,failure_class,error_type,message,timestamp\n"@ + joined(
        Seq::new(failures.len(), |i: int| failure_line(failures[i])),
    )
}

/// The line of a count: what is counted, the status, and the number.
pub open spec fn count_line(metric: Seq<char>, count: (Seq<char>, u32)) -> Seq<char> {
    ((metric.push(',') + count.0).push(',') + decimal(count.1 as nat)).push('\n')
}

/// The lines of counts.
pub open spec fn count_lines(metric: Seq<char>, counts: Seq<(Seq<char>, u32)>) -> Seq<char> {
    joined(Seq::new(counts.len(), |i: int| count_line(metric, counts[i])))
}

/// The counts of a run: a header, then the steps, then the tasks.
pub open spec fn metric_table(summary: RunSummaryState) -> Seq<char> {
    "metric,status,count\n"@ + count_lines("steps"@, summary.step_counts) + count_lines(
        "tasks"@,
        summary.task_counts,
    )
}

/// Writes the report of failures.
pub fn failure_csv(failures: &Vec<FailureRecord>) -> (body: String)
    ensures
        body@ == failure_table(views(failures@)),
{
    let ghost said = views(failures@);
    let ghost lines = Seq::new(said.len(), |i: int| failure_line(said[i]));
    let mut body = text_of(
        "run_id,step_name,input_digest,attempt,failure_class,error_type,message,timestamp\n",
    );
    let ghost header = body@;
    assert(header + joined(lines.take(0)) =~= header);
    for i in 0..failures.len()
        invariant
            said == views(failures@),
            lines == Seq::new(said.len(), |i: int| failure_line(said[i])),
            body@ == header + joined(lines.take(i as int)),
    {
        let failure = &failures[i];
        let attempt = decimal_text(failure.attempt as u64);
        let fields = [
            failure.run_id.as_str(),
            failure.step_name.as_str(),
            failure.input_digest.as_str(),
            attempt.as_str(),
            failure_class_label(&failure.failure_class),
            failure.error_type.as_str(),
            failure.message.as_str(),
            failure.timestamp.as_str(),
        ];
        proof {
            let failure = said[i as int];
            assert(field_texts(fields) =~= seq![
                failure.run_id,
                failure.step_name,
                failure.input_digest,
                decimal(failure.attempt as nat),
                class_label(failure.failure_class),
                failure.error_type,
                failure.message,
                failure.timestamp,
            ]);
        }
        body.append(csv_row(fields).as_str());
        assert(lines.take(i + 1).drop_last() =~= lines.take(i as int));
        assert(body@ =~= header + joined(lines.take(i + 1)));
    }
    assert(lines.take(lines.len() as int) =~= lines);
    body
}

/// Writes the lines of counts after what is there.
fn write_counts(body: &mut String, metric: &str, counts: &Vec<(String, u32)>)
    ensures
        final(body)@ == old(body)@ + count_lines(metric@, counted(counts@)),
{
    let ghost before = body@;
    let ghost said = counted(counts@);
    let ghost lines = Seq::new(said.len(), |i: int| count_line(metric@, said[i]));
    assert(before + joined(lines.take(0)) =~= before);
    for i in 0..counts.len()
        invariant
            said == counted(counts@),
            lines == Seq::new(said.len(), |i: int| count_line(metric@, said[i])),
            body@ == before + joined(lines.take(i as int)),
    {
        body.append(metric);
        body.push(',');
        body.append(counts[i].0.as_str());
        body.push(',');
        body.append(decimal_text(counts[i].1 as u64).as_str());
        body.push('\n');
        assert(lines.take(i + 1).drop_last() =~= lines.take(i as int));
        assert(lines.take(i + 1).last() == count_line(metric@, said[i as int]));
        assert(body@ =~= before + joined(lines.take(i + 1)));
    }
    assert(lines.take(lines.len() as int) =~= lines);
}

/// Writes the counts of a run.
pub fn metric_csv(summary: &RunSummary) -> (body: String)
    ensures
        body@ == metric_table(summary@),
{
    let mut body = text_of("metric,status,count\n");
    write_counts(&mut body, "steps", &summary.step_counts);
    write_counts(&mut body, "tasks", &summary.task_counts);
    body
}

/// An export of that kind tells the numbers of the run.
pub open spec fn tells_numbers(kind: ExportKind) -> bool {
    match kind {
        ExportKind::ManifestJson => true,
        ExportKind::AggregateMetricsJson => true,
        ExportKind::AggregateMetricsCsv => true,
        _ => false,
    }
}

/// What an export of that kind consists of.
pub open spec fn exports(
    state: LedgerState,
    run_id: Seq<char>,
    kind: ExportKind,
    now: Moment,
    export: Result<ExportParts, Fault>,
) -> bool {
    match kind {
        ExportKind::ManifestJson => match summed_up(state, run_id, now) {
            Ok(summary) => export == Ok::<ExportParts, Fault>(ExportParts::Manifest(summary)),
            Err(fault) => export == Err::<ExportParts, Fault>(fault),
        },
        ExportKind::AggregateMetricsJson => match summed_up(state, run_id, now) {
            Ok(summary) => export == Ok::<ExportParts, Fault>(ExportParts::Metrics(summary)),
            Err(fault) => export == Err::<ExportParts, Fault>(fault),
        },
        ExportKind::AggregateMetricsCsv => match summed_up(state, run_id, now) {
            Ok(summary) => export == Ok::<ExportParts, Fault>(
                ExportParts::Text(
                    ExportState { content_type: media_type(kind), body: metric_table(summary) },
                ),
            ),
            Err(fault) => export == Err::<ExportParts, Fault>(fault),
        },
        ExportKind::TaskResultsJsonl => match export {
            Ok(ExportParts::TaskResults(records)) => lists::<TaskRow>(
                state.tasks,
                wanted_tasks(state, seq![run_id], Seq::empty(), Seq::empty()),
                Ok(records),
            ),
            Ok(_) => false,
            Err(fault) => lists::<TaskRow>(
                state.tasks,
                wanted_tasks(state, seq![run_id], Seq::empty(), Seq::empty()),
                Err(fault),
            ),
        },
        ExportKind::FailureReportJson => export matches Ok(ExportParts::FailureReport(failures))
            && lists_failures(state.failures, run_id, failures),
        ExportKind::FailureReportCsv => exists|failures: Seq<FailureState>|
            #[trigger] lists_failures(state.failures, run_id, failures) && export == Ok::<
                ExportParts,
                Fault,
            >(
                ExportParts::Text(
                    ExportState { content_type: media_type(kind), body: failure_table(failures) },
                ),
            ),
    }
}

impl Ledger {
    /// What an export of a run consists of.
    pub fn export_at(&self, req: ExportRequest, now: Moment) -> (export: Result<Export, Error>)
        requires
            self.wf(),
            tells_numbers(req.kind) ==> countable(self@, req.run_id@),
            now.valid(),
        ensures
            exports(self@, req.run_id@, req.kind, now, result_view(export)),
    {
        match req.kind {
            ExportKind::TaskResultsJsonl => {
                let none: Vec<String> = Vec::new();
                assert(texts(none@) =~= Seq::<Seq<char>>::empty());
                match self.tell_tasks(&key1(&req.run_id), &none, &none) {
                    Ok(records) => Ok(Export::TaskResults(records)),
                    Err(error) => Err(error),
                }
            },
            ExportKind::FailureReportJson => Ok(
                Export::FailureReport(self.failure_records(req.run_id.as_str())),
            ),
            ExportKind::FailureReportCsv => {
                let failures = self.failure_records(req.run_id.as_str());
                Ok(
                    Export::Text(
                        ExportResponse {
                            content_type: text_of(content_type(req.kind)),
                            body: failure_csv(&failures),
                        },
                    ),
                )
            },
            ExportKind::ManifestJson => match self.summary_at(
                SummaryRequest { run_id: req.run_id },
                now,
            ) {
                Ok(summary) => Ok(Export::Manifest(summary)),
                Err(error) => Err(error),
            },
            ExportKind::AggregateMetricsJson => match self.summary_at(
                SummaryRequest { run_id: req.run_id },
                now,
            ) {
                Ok(summary) => Ok(Export::Metrics(summary)),
                Err(error) => Err(error),
            },
            ExportKind::AggregateMetricsCsv => match self.summary_at(
                SummaryRequest { run_id: req.run_id },
                now,
            ) {
                Ok(summary) => Ok(
                    Export::Text(
                        ExportResponse {
                            content_type: text_of(content_type(req.kind)),
                            body: metric_csv(&summary),
                        },
                    ),
                ),
                Err(error) => Err(error),
            },
        }
    }
}

} // verus!
