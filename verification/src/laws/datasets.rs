//! Datasets over several registrations.
use vstd::prelude::*;
use vstd::set_lib::lemma_map_size;

use crate::datasets::{
    current_count, current_under, dataset_numbers, dataset_registered, is_current, is_first,
    lemma_some_first, next_generation, registers, statuses_add_up,
};
use crate::error::Fault;
use crate::history::{orderly, same_result};
use crate::json::reads_back;
use crate::laws::work::finished_work_is_preserved;
use crate::ledger::LedgerState;
use crate::order::{is_listing, lemma_told_each, listing_is_unique, lists, told};
use crate::rows::TaskRow;
use crate::table::{keys_where, under};
use crate::tasks::{task_told, wanted_tasks};
use crate::time::Moment;
use crate::types::{TaskInputState, TaskRecordState};
use crate::unified::work_begun;
use crate::work::{fresh, ClaimState, OutcomeState};

verus! {

/// The digests of the inputs, one by one.
pub open spec fn digests(inputs: Seq<TaskInputState>) -> Seq<Seq<char>> {
    Seq::new(inputs.len(), |i: int| inputs[i].input_digest)
}

/// The key of an input of the dataset is registered.
proof fn lemma_registers(
    run_id: Seq<char>,
    kind: Seq<char>,
    inputs: Seq<TaskInputState>,
    digest: Seq<char>,
)
    ensures
        registers(run_id, kind, inputs, seq![run_id, kind, digest]) <==> digests(inputs).contains(
            digest,
        ),
{
    let key = seq![run_id, kind, digest];
    assert(key == seq![run_id, kind, key[2]]);
    if digests(inputs).contains(digest) {
        let i = choose|i: int| 0 <= i < digests(inputs).len() && digests(inputs)[i] == digest;
        lemma_some_first(inputs, i, digest);
    }
    if registers(run_id, kind, inputs, key) {
        let i = choose|i: int| is_first(inputs, i, key[2]);
        assert(digests(inputs)[i] == digest);
    }
}

/// After a registration exactly the registered tasks of the dataset count.
pub proof fn only_the_latest_registration_counts(
    state: LedgerState,
    run_id: Seq<char>,
    kind: Seq<char>,
    inputs: Seq<TaskInputState>,
    now: Moment,
    key: Seq<Seq<char>>,
)
    requires
        orderly(state),
        next_generation(state.datasets, seq![run_id, kind]) <= u32::MAX,
        under(seq![run_id, kind], key),
    ensures
        ({
            let after = dataset_registered(state, run_id, kind, inputs, now);
            after.tasks.contains_key(key) && is_current(after.datasets, key, after.tasks[key])
                <==> registers(run_id, kind, inputs, key)
        }),
{
    let after = dataset_registered(state, run_id, kind, inputs, now);
    let at = seq![run_id, kind];
    assert(key.take(2) =~= at);
    if !registers(run_id, kind, inputs, key) && after.tasks.contains_key(key) {
        assert(state.tasks.contains_key(key));
        assert(state.tasks[key].generation <= state.datasets[key.take(2)]);
    }
}

/// Identical inputs collapse to one task: a registration leaves as many tasks in the dataset as it
/// has different inputs.
pub proof fn identical_inputs_collapse(
    state: LedgerState,
    run_id: Seq<char>,
    kind: Seq<char>,
    inputs: Seq<TaskInputState>,
    now: Moment,
)
    requires
        orderly(state),
        next_generation(state.datasets, seq![run_id, kind]) <= u32::MAX,
    ensures
        current_count(dataset_registered(state, run_id, kind, inputs, now), seq![run_id, kind])
            == digests(inputs).to_set().len(),
{
    let after = dataset_registered(state, run_id, kind, inputs, now);
    let prefix = seq![run_id, kind];
    let made = digests(inputs).to_set();
    let counted = keys_where(after.tasks, current_under(after, prefix));
    let key_of = |digest: Seq<char>| seq![run_id, kind, digest];
    assert forall|key: Seq<Seq<char>>|
        counted.contains(key) <==> made.map(key_of).contains(key) by {
        if counted.contains(key) {
            only_the_latest_registration_counts(state, run_id, kind, inputs, now, key);
            assert(key == key_of(key[2]));
            lemma_registers(run_id, kind, inputs, key[2]);
            assert(made.contains(key[2]));
        }
        if made.map(key_of).contains(key) {
            let digest = choose|digest: Seq<char>| made.contains(digest) && key == key_of(digest);
            lemma_registers(run_id, kind, inputs, digest);
            assert(key.take(2) =~= prefix);
            only_the_latest_registration_counts(state, run_id, kind, inputs, now, key);
        }
    }
    assert(counted =~= made.map(key_of));
    assert forall|a: Seq<char>, b: Seq<char>|
        made.contains(a) && made.contains(b) && #[trigger] key_of(a) == #[trigger] key_of(
            b,
        ) implies a == b by {
        assert(key_of(a)[2] == a);
        assert(key_of(b)[2] == b);
    }
    vstd::seq_lib::seq_to_set_is_finite(digests(inputs));
    lemma_map_size(made, counted, key_of);
}

/// A registration adds no more tasks than it has inputs.
pub proof fn registration_adds_at_most_its_inputs(
    state: LedgerState,
    run_id: Seq<char>,
    kind: Seq<char>,
    inputs: Seq<TaskInputState>,
    now: Moment,
)
    requires
        state.tasks.dom().finite(),
    ensures
        ({
            let after = dataset_registered(state, run_id, kind, inputs, now).tasks;
            after.dom().finite() && after.dom().len() <= state.tasks.dom().len() + inputs.len()
        }),
{
    let after = dataset_registered(state, run_id, kind, inputs, now).tasks;
    let keys = Seq::new(inputs.len(), |i: int| seq![run_id, kind, inputs[i].input_digest]);
    vstd::seq_lib::seq_to_set_is_finite(keys);
    keys.lemma_cardinality_of_set();
    assert forall|key: Seq<Seq<char>>| after.dom().contains(key) implies state.tasks.dom().union(
        keys.to_set(),
    ).contains(key) by {
        if registers(run_id, kind, inputs, key) {
            let i = choose|i: int| is_first(inputs, i, key[2]);
            assert(keys[i] == key);
        }
    }
    vstd::set_lib::lemma_len_union(state.tasks.dom(), keys.to_set());
    vstd::set_lib::lemma_len_subset(after.dom(), state.tasks.dom().union(keys.to_set()));
}

/// Of identical inputs the first wins: the task has its label, category and position.
pub proof fn first_of_identical_inputs_wins(
    state: LedgerState,
    run_id: Seq<char>,
    kind: Seq<char>,
    inputs: Seq<TaskInputState>,
    now: Moment,
    i: int,
)
    requires
        inputs.len() <= u32::MAX,
        0 <= i < inputs.len(),
        is_first(inputs, i, inputs[i].input_digest),
    ensures
        ({
            let key = seq![run_id, kind, inputs[i].input_digest];
            let task = dataset_registered(state, run_id, kind, inputs, now).tasks[key];
            &&& task.label == inputs[i].label
            &&& task.category == inputs[i].category
            &&& task.position == i
        }),
{
    let key = seq![run_id, kind, inputs[i].input_digest];
    assert(key == seq![run_id, kind, key[2]]);
    assert(registers(run_id, kind, inputs, key));
    let j = choose|j: int| is_first(inputs, j, key[2]);
    if j < i {
        assert(inputs[j].input_digest != key[2]);
    } else if i < j {
        assert(inputs[i].input_digest != key[2]);
    }
}

/// An input that was never registered becomes a pending task without an attempt; a changed input
/// is such a one, as its digest is another.
pub proof fn new_input_is_pending(
    state: LedgerState,
    run_id: Seq<char>,
    kind: Seq<char>,
    inputs: Seq<TaskInputState>,
    now: Moment,
    digest: Seq<char>,
)
    requires
        digests(inputs).contains(digest),
        !state.tasks.contains_key(seq![run_id, kind, digest]),
    ensures
        dataset_registered(state, run_id, kind, inputs, now).tasks[seq![run_id, kind, digest]].work
            == fresh(now),
{
    lemma_registers(run_id, kind, inputs, digest);
}

/// An input that is left out of a registration no longer counts, but its row is kept as it is.
pub proof fn left_out_input_is_set_aside(
    state: LedgerState,
    run_id: Seq<char>,
    kind: Seq<char>,
    inputs: Seq<TaskInputState>,
    now: Moment,
    digest: Seq<char>,
)
    requires
        orderly(state),
        next_generation(state.datasets, seq![run_id, kind]) <= u32::MAX,
        !digests(inputs).contains(digest),
        state.tasks.contains_key(seq![run_id, kind, digest]),
    ensures
        ({
            let key = seq![run_id, kind, digest];
            let after = dataset_registered(state, run_id, kind, inputs, now);
            &&& after.tasks.contains_key(key)
            &&& after.tasks[key] == state.tasks[key]
            &&& !is_current(after.datasets, key, after.tasks[key])
        }),
{
    let key = seq![run_id, kind, digest];
    lemma_registers(run_id, kind, inputs, digest);
    assert(key.take(2) =~= seq![run_id, kind]);
    only_the_latest_registration_counts(state, run_id, kind, inputs, now, key);
}

/// Registering an input again keeps its task as it was: completed outputs are reused.
pub proof fn registered_again_keeps_its_result(
    state: LedgerState,
    run_id: Seq<char>,
    kind: Seq<char>,
    inputs: Seq<TaskInputState>,
    now: Moment,
    digest: Seq<char>,
)
    requires
        digests(inputs).contains(digest),
        state.tasks.contains_key(seq![run_id, kind, digest]),
    ensures
        ({
            let key = seq![run_id, kind, digest];
            let after = dataset_registered(state, run_id, kind, inputs, now);
            &&& after.tasks.contains_key(key)
            &&& is_current(after.datasets, key, after.tasks[key])
            &&& same_result(state.tasks[key].work, after.tasks[key].work)
            &&& after.tasks[key].input_json == state.tasks[key].input_json
            &&& after.tasks[key].created_at == state.tasks[key].created_at
        }),
{
    let key = seq![run_id, kind, digest];
    lemma_registers(run_id, kind, inputs, digest);
    assert(key.take(2) =~= seq![run_id, kind]);
}

/// Changing an input and changing it back restores its task: with one registration that leaves the
/// input out and a later one that has it again, the task counts again and has the result that it
/// had.
pub proof fn reverting_an_input_restores_its_result(
    state: LedgerState,
    run_id: Seq<char>,
    kind: Seq<char>,
    without: Seq<TaskInputState>,
    with: Seq<TaskInputState>,
    now: Moment,
    later: Moment,
    digest: Seq<char>,
)
    requires
        orderly(state),
        next_generation(state.datasets, seq![run_id, kind]) < u32::MAX,
        state.tasks.contains_key(seq![run_id, kind, digest]),
        !digests(without).contains(digest),
        digests(with).contains(digest),
    ensures
        ({
            let key = seq![run_id, kind, digest];
            let edited = dataset_registered(state, run_id, kind, without, now);
            let reverted = dataset_registered(edited, run_id, kind, with, later);
            &&& !is_current(edited.datasets, key, edited.tasks[key])
            &&& is_current(reverted.datasets, key, reverted.tasks[key])
            &&& same_result(state.tasks[key].work, reverted.tasks[key].work)
        }),
{
    let edited = dataset_registered(state, run_id, kind, without, now);
    left_out_input_is_set_aside(state, run_id, kind, without, now, digest);
    registered_again_keeps_its_result(edited, run_id, kind, with, later, digest);
}

/// Running an eval again reuses its completed outputs: a task that succeeded, registered again, is
/// skipped with its output, as long as what was written as its output reads back.
pub proof fn rerun_skips_completed_tasks(
    state: LedgerState,
    run_id: Seq<char>,
    kind: Seq<char>,
    inputs: Seq<TaskInputState>,
    now: Moment,
    digest: Seq<char>,
    output: Seq<char>,
    claim: ClaimState,
    later: Moment,
)
    requires
        digests(inputs).contains(digest),
        state.tasks.contains_key(seq![run_id, kind, digest]),
        state.tasks[seq![run_id, kind, digest]].work.status is Succeeded,
        state.tasks[seq![run_id, kind, digest]].work.output_json == Some(output),
        reads_back(output),
    ensures
        ({
            let after = dataset_registered(state, run_id, kind, inputs, now);
            work_begun(after, seq![run_id, kind, digest], claim, later) == (
                after,
                Ok::<OutcomeState, Fault>(OutcomeState::SkipCompleted { output }),
            )
        }),
{
    let key = seq![run_id, kind, digest];
    let after = dataset_registered(state, run_id, kind, inputs, now);
    registered_again_keeps_its_result(state, run_id, kind, inputs, now, digest);
    finished_work_is_preserved(after, key, claim, later);
}

/// Tasks of other datasets are not touched by a registration.
pub proof fn other_datasets_are_left_alone(
    state: LedgerState,
    run_id: Seq<char>,
    kind: Seq<char>,
    inputs: Seq<TaskInputState>,
    now: Moment,
    key: Seq<Seq<char>>,
)
    requires
        key.len() == 3,
        key.take(2) != seq![run_id, kind],
    ensures
        ({
            let after = dataset_registered(state, run_id, kind, inputs, now);
            &&& after.tasks.contains_key(key) == state.tasks.contains_key(key)
            &&& state.tasks.contains_key(key) ==> after.tasks[key] == state.tasks[key]
                && is_current(after.datasets, key, after.tasks[key]) == is_current(
                state.datasets,
                key,
                state.tasks[key],
            )
        }),
{
    if registers(run_id, kind, inputs, key) {
        assert(key.take(2) =~= seq![run_id, kind]);
    }
}

/// The places of the inputs that are the first with their digest, from the first to the last.
pub open spec fn first_places(inputs: Seq<TaskInputState>) -> Seq<int>
    decreases inputs.len(),
{
    if inputs.len() == 0 {
        Seq::empty()
    } else {
        let before = first_places(inputs.drop_last());
        if is_first(inputs, inputs.len() - 1, inputs.last().input_digest) {
            before.push(inputs.len() - 1)
        } else {
            before
        }
    }
}

/// The keys of the different inputs of a dataset, in the order in which they first occur.
pub open spec fn first_keys(
    run_id: Seq<char>,
    kind: Seq<char>,
    inputs: Seq<TaskInputState>,
) -> Seq<Seq<Seq<char>>> {
    Seq::new(
        first_places(inputs).len(),
        |a: int| seq![run_id, kind, inputs[first_places(inputs)[a]].input_digest],
    )
}

proof fn lemma_first_places(inputs: Seq<TaskInputState>)
    ensures
        forall|a: int|
            0 <= a < first_places(inputs).len() ==> is_first(
                inputs,
                #[trigger] first_places(inputs)[a],
                inputs[first_places(inputs)[a]].input_digest,
            ),
        forall|a: int, b: int|
            #![trigger first_places(inputs)[a], first_places(inputs)[b]]
            0 <= a < b < first_places(inputs).len() ==> first_places(inputs)[a] < first_places(
                inputs,
            )[b],
        forall|i: int, digest: Seq<char>| #[trigger]
            is_first(inputs, i, digest) ==> first_places(inputs).contains(i),
    decreases inputs.len(),
{
    if inputs.len() > 0 {
        let fewer = inputs.drop_last();
        let before = first_places(fewer);
        let places = first_places(inputs);
        lemma_first_places(fewer);
        assert forall|i: int, digest: Seq<char>| i < fewer.len() implies #[trigger] is_first(
            inputs,
            i,
            digest,
        ) == is_first(fewer, i, digest) by {
            if is_first(inputs, i, digest) {
                assert forall|j: int| 0 <= j < i implies (#[trigger] fewer[j]).input_digest
                    != digest by {
                    assert(inputs[j].input_digest != digest);
                }
            }
            if is_first(fewer, i, digest) {
                assert forall|j: int| 0 <= j < i implies (#[trigger] inputs[j]).input_digest
                    != digest by {
                    assert(fewer[j].input_digest != digest);
                }
            }
        }
        assert forall|a: int| 0 <= a < places.len() implies is_first(
            inputs,
            #[trigger] places[a],
            inputs[places[a]].input_digest,
        ) by {
            if a < before.len() {
                assert(is_first(fewer, before[a], fewer[before[a]].input_digest));
            }
        }
        assert forall|a: int, b: int|
            #![trigger places[a], places[b]]
            0 <= a < b < places.len() implies places[a] < places[b] by {
            assert(is_first(fewer, before[a], fewer[before[a]].input_digest));
            if b < before.len() {
                assert(before[a] < before[b]);
            }
        }
        assert forall|i: int, digest: Seq<char>| #[trigger]
            is_first(inputs, i, digest) implies places.contains(i) by {
            if i < fewer.len() {
                assert(is_first(fewer, i, digest));
                let a = choose|a: int| 0 <= a < before.len() && before[a] == i;
                assert(places[a] == i);
            } else {
                assert(places[places.len() - 1] == i);
            }
        }
    }
}

/// After a registration the different inputs, in the order in which they first occur, are the
/// listing of the dataset.
proof fn lemma_first_keys_are_the_listing(
    state: LedgerState,
    run_id: Seq<char>,
    kind: Seq<char>,
    inputs: Seq<TaskInputState>,
    now: Moment,
)
    requires
        orderly(state),
        next_generation(state.datasets, seq![run_id, kind]) <= u32::MAX,
        inputs.len() <= u32::MAX,
    ensures
        ({
            let after = dataset_registered(state, run_id, kind, inputs, now);
            is_listing::<TaskRow>(
                after.tasks,
                wanted_tasks(after, seq![run_id, kind], Seq::empty(), Seq::empty()),
                first_keys(run_id, kind, inputs),
            )
        }),
{
    let after = dataset_registered(state, run_id, kind, inputs, now);
    let prefix = seq![run_id, kind];
    let wanted = wanted_tasks(after, prefix, Seq::empty(), Seq::empty());
    let keys = first_keys(run_id, kind, inputs);
    let places = first_places(inputs);
    lemma_first_places(inputs);
    assert forall|a: int| 0 <= a < keys.len() implies {
        &&& (#[trigger] keys[a])[0] == run_id
        &&& keys[a][1] == kind
        &&& keys[a][2] == inputs[places[a]].input_digest
        &&& after.tasks[keys[a]].position == places[a]
        &&& registers(run_id, kind, inputs, keys[a])
        &&& under(prefix, keys[a])
    } by {
        assert(is_first(inputs, places[a], inputs[places[a]].input_digest));
        first_of_identical_inputs_wins(state, run_id, kind, inputs, now, places[a]);
        assert(keys[a] == seq![run_id, kind, keys[a][2]]);
        assert(keys[a].take(2) =~= prefix);
    }
    assert forall|a: int, b: int|
        #![trigger keys[a], keys[b]]
        0 <= a < b < keys.len() implies keys[a] != keys[b] && keys[a][0] == keys[b][0]
        && keys[a][1] == keys[b][1] && after.tasks[keys[a]].position
        < after.tasks[keys[b]].position by {
        assert(places[a] < places[b]);
        assert(is_first(inputs, places[a], inputs[places[a]].input_digest));
        assert(is_first(inputs, places[b], inputs[places[b]].input_digest));
        assert(inputs[places[a]].input_digest != inputs[places[b]].input_digest);
    }
    assert forall|key: Seq<Seq<char>>|
        keys.to_set().contains(key) <==> keys_where(after.tasks, wanted).contains(key) by {
        if keys.to_set().contains(key) {
            let a = choose|a: int| 0 <= a < keys.len() && keys[a] == key;
            only_the_latest_registration_counts(state, run_id, kind, inputs, now, keys[a]);
        }
        if keys_where(after.tasks, wanted).contains(key) {
            only_the_latest_registration_counts(state, run_id, kind, inputs, now, key);
            let i = choose|i: int| is_first(inputs, i, key[2]);
            let a = choose|a: int| 0 <= a < places.len() && places[a] == i;
            assert(keys[a] == key);
        }
    }
    assert(keys.to_set() =~= keys_where(after.tasks, wanted));
}

/// Right after a registration the dataset is listed as its different inputs, each once, in the
/// order in which they first occur, with the label and the category of that first occurrence, and
/// with no task of an earlier registration that is left out; and the numbers that the registration
/// tells count them. The list can be told if each of the tasks can be.
pub proof fn registration_is_listed_in_order(
    state: LedgerState,
    run_id: Seq<char>,
    kind: Seq<char>,
    inputs: Seq<TaskInputState>,
    now: Moment,
    list: Result<Seq<TaskRecordState>, Fault>,
)
    requires
        orderly(state),
        next_generation(state.datasets, seq![run_id, kind]) <= u32::MAX,
        inputs.len() <= u32::MAX,
        ({
            let after = dataset_registered(state, run_id, kind, inputs, now);
            lists::<TaskRow>(
                after.tasks,
                wanted_tasks(after, seq![run_id, kind], Seq::empty(), Seq::empty()),
                list,
            )
        }),
    ensures
        ({
            let after = dataset_registered(state, run_id, kind, inputs, now);
            let numbers = dataset_numbers(after, run_id, kind);
            let places = first_places(inputs);
            let keys = first_keys(run_id, kind, inputs);
            &&& numbers.total == digests(inputs).to_set().len()
            &&& numbers.total == places.len()
            &&& numbers.total == numbers.pending + numbers.running + numbers.succeeded
                + numbers.failed + numbers.terminal
            &&& (forall|a: int|
                0 <= a < keys.len() ==> task_told(
                    #[trigger] keys[a],
                    after.tasks[keys[a]],
                ) is Ok) ==> list is Ok
            &&& list matches Ok(records) ==> {
                &&& records.len() == places.len()
                &&& forall|a: int|
                    0 <= a < records.len() ==> {
                        let input = inputs[places[a]];
                        &&& (#[trigger] records[a]).run_id == run_id
                        &&& records[a].kind == kind
                        &&& records[a].input_digest == input.input_digest
                        &&& records[a].label == input.label
                        &&& records[a].category == input.category
                    }
            }
        }),
{
    let after = dataset_registered(state, run_id, kind, inputs, now);
    let prefix = seq![run_id, kind];
    let wanted = wanted_tasks(after, prefix, Seq::empty(), Seq::empty());
    let keys = first_keys(run_id, kind, inputs);
    let places = first_places(inputs);
    lemma_first_places(inputs);
    lemma_first_keys_are_the_listing(state, run_id, kind, inputs, now);
    let listed = choose|listed: Seq<Seq<Seq<char>>>| #[trigger]
        is_listing::<TaskRow>(after.tasks, wanted, listed) && list == told::<TaskRow>(
            after.tasks,
            listed,
        );
    listing_is_unique::<TaskRow>(after.tasks, wanted, listed, keys);
    lemma_told_each::<TaskRow>(after.tasks, keys);
    registration_adds_at_most_its_inputs(state, run_id, kind, inputs, now);
    identical_inputs_collapse(state, run_id, kind, inputs, now);
    digests(inputs).lemma_cardinality_of_set();
    statuses_add_up(after, prefix);
    assert(keys_where(after.tasks, wanted) =~= keys_where(
        after.tasks,
        current_under(after, prefix),
    ));
    keys.unique_seq_to_set();
    if let Ok(records) = list {
        assert forall|a: int| 0 <= a < records.len() implies {
            let input = inputs[places[a]];
            &&& (#[trigger] records[a]).run_id == run_id
            &&& records[a].kind == kind
            &&& records[a].input_digest == input.input_digest
            &&& records[a].label == input.label
            &&& records[a].category == input.category
        } by {
            assert(task_told(keys[a], after.tasks[keys[a]]) == Ok::<TaskRecordState, Fault>(
                records[a],
            ));
            assert(is_first(inputs, places[a], inputs[places[a]].input_digest));
            first_of_identical_inputs_wins(state, run_id, kind, inputs, now, places[a]);
        }
    }
}

} // verus!
