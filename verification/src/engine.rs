//! The verdict engine: from the records of a log to one verdict for each
//! assertion.

use crate::error::{ErrorView, OracleError};
use crate::group::{
    assertions, group_asserts, group_views, grouped, ids_seen, lemma_ids_seen_are_record_ids,
    records_of, AssertGroup, GroupView,
};
use crate::parse::{line_views, parse_lines, parsed};
use crate::record::{input_views, AssertType, AssertView, InputView, SDKInput};
use crate::verdict::{
    evaluate, last_in_slot, lemma_slot_holds_a_record, slot_of, EvaluatedAssertion, Slot,
    VerdictView,
};
use vstd::prelude::*;

verus! {

/// The views of a sequence of verdicts, in the same order.
pub open spec fn verdict_views(verdicts: Seq<EvaluatedAssertion>) -> Seq<VerdictView> {
    verdicts.map_values(|e: EvaluatedAssertion| e@)
}

/// The verdicts on `groups`, one for each group and in the same order; or,
/// where a group has no declaration, the fault of the first such group.
pub open spec fn verdicts_of(groups: Seq<GroupView>) -> Result<Seq<VerdictView>, ErrorView>
    decreases groups.len(),
{
    if groups.len() == 0 {
        Ok(Seq::empty())
    } else {
        match verdicts_of(groups.drop_last()) {
            Ok(verdicts) => match evaluate(groups.last().instances) {
                Some(verdict) => Ok(verdicts.push(verdict)),
                None => Err(ErrorView::MissingDeclaration { id: groups.last().id }),
            },
            Err(e) => Err(e),
        }
    }
}

/// What the engine makes of the records of a log.
pub open spec fn oracle(inputs: Seq<InputView>) -> Result<Seq<VerdictView>, ErrorView> {
    verdicts_of(grouped(assertions(inputs)))
}

/// What the engine makes of the lines of a log.
pub open spec fn oracle_of_lines(lines: Seq<Seq<char>>) -> Result<Seq<VerdictView>, ErrorView> {
    match parsed(lines) {
        Ok(inputs) => oracle(inputs),
        Err(e) => Err(e),
    }
}

/// Whether no record of the log declares the assertion `id`.
pub open spec fn undeclared(records: Seq<AssertView>, id: Seq<char>) -> bool {
    forall|j: int| 0 <= j < records.len() && (#[trigger] records[j]).id == id ==> records[j].hit
}

/// An outcome of the engine in specifications.
pub open spec fn outcome_view(outcome: Result<Vec<EvaluatedAssertion>, OracleError>) -> Result<
    Seq<VerdictView>,
    ErrorView,
> {
    match outcome {
        Ok(verdicts) => Ok(verdict_views(verdicts@)),
        Err(e) => Err(e@),
    }
}

/// Whether `outcome` is what specifications call `expected`.
pub open spec fn is_outcome(
    outcome: Result<Vec<EvaluatedAssertion>, OracleError>,
    expected: Result<Seq<VerdictView>, ErrorView>,
) -> bool {
    match expected {
        Ok(verdicts) => outcome matches Ok(v) && verdict_views(v@) == verdicts,
        Err(e) => outcome matches Err(x) && x@ == e,
    }
}

/// A fault among the first `n` groups is the fault of them all.
pub proof fn lemma_group_fault_stays(groups: Seq<GroupView>, n: int)
    requires
        0 <= n <= groups.len(),
        verdicts_of(groups.take(n)) is Err,
    ensures
        verdicts_of(groups) == verdicts_of(groups.take(n)),
    decreases groups.len() - n,
{
    if n < groups.len() {
        assert(groups.take(n + 1).drop_last() == groups.take(n));
        lemma_group_fault_stays(groups, n + 1);
    } else {
        assert(groups.take(n) == groups);
    }
}

/// Settles the verdict on each group, in the order of the groups.
///
/// A group without a declaration fails them all.
pub fn evaluate_groups(groups: Vec<AssertGroup>) -> (r: Result<Vec<EvaluatedAssertion>, OracleError>)
    ensures
        is_outcome(r, verdicts_of(group_views(groups@))),
{
    let ghost all = group_views(groups@);
    let mut result: Vec<EvaluatedAssertion> = Vec::new();
    proof {
        assert(verdict_views(result@) == Seq::<VerdictView>::empty());
    }
    for group in it: groups
        invariant
            all == group_views(it.seq()),
            verdicts_of(all.take(it.index() as int)) == Ok::<Seq<VerdictView>, ErrorView>(
                verdict_views(result@),
            ),
    {
        let ghost n = it.index() as int;
        proof {
            assert(all.take(n + 1).drop_last() == all.take(n));
            assert(all.take(n + 1).last() == group@);
        }
        let AssertGroup { id, instances } = group;
        match EvaluatedAssertion::new(instances) {
            Some(verdict) => {
                proof {
                    assert(verdict_views(result@.push(verdict)) == verdict_views(result@).push(
                        verdict@,
                    ));
                }
                result.push(verdict);
            },
            None => {
                proof {
                    lemma_group_fault_stays(all, n + 1);
                }
                return Err(OracleError::MissingDeclaration { id });
            },
        }
    }
    proof {
        assert(all.take(all.len() as int) == all);
    }
    Ok(result)
}

/// Gives the verdicts on the assertions of a log, from its records.
///
/// Only the assertion records count. There is one verdict for each `id`
/// among them, in the order in which the `id`s first appear.
pub fn evaluate_records(inputs: Vec<SDKInput>) -> (r: Result<Vec<EvaluatedAssertion>, OracleError>)
    ensures
        is_outcome(r, oracle(input_views(inputs@))),
{
    evaluate_groups(group_asserts(inputs))
}

/// Gives the verdicts on the assertions of a log, from its lines.
pub fn evaluate_log(lines: Vec<&str>) -> (r: Result<Vec<EvaluatedAssertion>, OracleError>)
    ensures
        is_outcome(r, oracle_of_lines(line_views(lines@))),
{
    match parse_lines(lines) {
        Ok(inputs) => evaluate_records(inputs),
        Err(e) => Err(e),
    }
}

/// Where every group gets a verdict, the verdicts stand for the groups one
/// for one.
pub proof fn lemma_verdict_for_each_group(groups: Seq<GroupView>)
    requires
        verdicts_of(groups) is Ok,
    ensures
        verdicts_of(groups)->Ok_0.len() == groups.len(),
        forall|k: int|
            0 <= k < groups.len() ==> evaluate(#[trigger] groups[k].instances) == Some(
                verdicts_of(groups)->Ok_0[k],
            ),
    decreases groups.len(),
{
    if groups.len() > 0 {
        lemma_verdict_for_each_group(groups.drop_last());
        assert forall|k: int| 0 <= k < groups.len() implies evaluate(
            #[trigger] groups[k].instances,
        ) == Some(verdicts_of(groups)->Ok_0[k]) by {
            if k < groups.len() - 1 {
                assert(groups.drop_last()[k] == groups[k]);
            }
        }
    }
}

/// The verdicts fail exactly if some group has no verdict, and the fault
/// then names the first such group.
pub proof fn lemma_fault_names_first_undeclared(groups: Seq<GroupView>)
    ensures
        verdicts_of(groups) is Err <==> exists|k: int|
            0 <= k < groups.len() && evaluate(#[trigger] groups[k].instances) is None,
        verdicts_of(groups) matches Err(e) ==> exists|k: int|
            0 <= k < groups.len() && e == (ErrorView::MissingDeclaration { id: groups[k].id })
                && evaluate(#[trigger] groups[k].instances) is None && forall|j: int|
                0 <= j < k ==> evaluate(#[trigger] groups[j].instances) is Some,
    decreases groups.len(),
{
    if groups.len() > 0 {
        let before = groups.drop_last();
        let n = groups.len() - 1;
        lemma_fault_names_first_undeclared(before);
        assert forall|k: int| 0 <= k < n implies before[k] == groups[k] by {}
        if verdicts_of(before) is Err {
            let k = choose|k: int|
                0 <= k < before.len() && verdicts_of(before)->Err_0 == (
                ErrorView::MissingDeclaration { id: before[k].id }) && evaluate(
                    #[trigger] before[k].instances,
                ) is None && forall|j: int|
                    0 <= j < k ==> evaluate(#[trigger] before[j].instances) is Some;
            assert(before[k] == groups[k]);
            assert forall|j: int| 0 <= j < k implies evaluate(
                #[trigger] groups[j].instances,
            ) is Some by {
                assert(before[j] == groups[j]);
            }
            assert(evaluate(groups[k].instances) is None);
        } else {
            assert forall|j: int| 0 <= j < n implies evaluate(
                #[trigger] groups[j].instances,
            ) is Some by {
                assert(before[j] == groups[j]);
                if evaluate(before[j].instances) is None {
                    assert(verdicts_of(before) is Err);
                }
            }
            if evaluate(groups[n].instances) is None {
                assert(groups[n] == groups.last());
            } else {
                assert(groups[n] == groups.last());
                assert(verdicts_of(groups) is Ok);
                assert forall|k: int| 0 <= k < groups.len() implies evaluate(
                    #[trigger] groups[k].instances,
                ) is Some by {}
            }
        }
    }
}

/// Every record of a group carries the group's `id`, and is a record of the log.
pub proof fn lemma_records_of_carry_id(records: Seq<AssertView>, id: Seq<char>)
    ensures
        forall|i: int|
            0 <= i < records_of(records, id).len() ==> (#[trigger] records_of(records, id)[i]).id
                == id && records.contains(records_of(records, id)[i]),
    decreases records.len(),
{
    if records.len() > 0 {
        let before = records.drop_last();
        lemma_records_of_carry_id(before, id);
        assert forall|i: int| 0 <= i < records_of(records, id).len() implies (
        #[trigger] records_of(records, id)[i]).id == id && records.contains(
            records_of(records, id)[i],
        ) by {
            if i < records_of(before, id).len() {
                let r = records_of(before, id)[i];
                assert(records_of(records, id)[i] == r);
                let p = choose|p: int| 0 <= p < before.len() && before[p] == r;
                assert(records[p] == r);
            } else {
                assert(records_of(records, id)[i] == records[records.len() - 1]);
            }
        }
    }
}

/// Within a group last write wins as it does in the log: a slot of the
/// group of `id` holds the record at index `i` of the log where that record
/// carries `id` and falls into the slot, and no later record does both.
pub proof fn lemma_group_slot_holds_last(records: Seq<AssertView>, slot: Slot, i: int)
    requires
        0 <= i < records.len(),
        slot_of(records[i]) == slot,
        forall|j: int|
            i < j < records.len() && (#[trigger] records[j]).id == records[i].id ==> slot_of(
                records[j],
            ) != slot,
    ensures
        last_in_slot(records_of(records, records[i].id), slot) == Some(records[i]),
    decreases records.len(),
{
    let id = records[i].id;
    let before = records.drop_last();
    if i < records.len() - 1 {
        let last = records[records.len() - 1];
        assert(before[i] == records[i]);
        assert forall|j: int| i < j < before.len() && (#[trigger] before[j]).id
            == before[i].id implies slot_of(before[j]) != slot by {
            assert(before[j] == records[j]);
        }
        lemma_group_slot_holds_last(before, slot, i);
        if last.id == id {
            assert(records_of(records, id).drop_last() == records_of(before, id));
        }
    }
}

/// A group's slot is empty where no record of the log carries the group's
/// `id` and falls into the slot.
pub proof fn lemma_group_slot_empty(records: Seq<AssertView>, id: Seq<char>, slot: Slot)
    requires
        forall|j: int|
            0 <= j < records.len() && (#[trigger] records[j]).id == id ==> slot_of(records[j])
                != slot,
    ensures
        last_in_slot(records_of(records, id), slot) is None,
{
    lemma_records_of_carry_id(records, id);
    lemma_slot_holds_a_record(records_of(records, id), slot);
    if let Some(held) = last_in_slot(records_of(records, id), slot) {
        let g = records_of(records, id);
        let k = choose|k: int| 0 <= k < g.len() && g[k] == held;
        assert(g[k].id == id && records.contains(g[k]));
        let p = choose|p: int| 0 <= p < records.len() && records[p] == held;
        assert(records[p].id == id);
    }
}

/// One verdict for each `id`: where the engine succeeds on the assertion
/// records of a log, its verdicts stand for the `id`s of the log, each once
/// and in the order of their first appearance; each verdict carries its
/// `id` and is the verdict on the records of that `id`.
pub proof fn lemma_one_verdict_for_each_id(records: Seq<AssertView>)
    requires
        verdicts_of(grouped(records)) is Ok,
    ensures
        verdicts_of(grouped(records))->Ok_0.len() == ids_seen(records).len(),
        forall|k: int|
            #![trigger ids_seen(records)[k]]
            0 <= k < ids_seen(records).len() ==> {
                let id = ids_seen(records)[k];
                &&& verdicts_of(grouped(records))->Ok_0[k].id == id
                &&& evaluate(records_of(records, id)) == Some(verdicts_of(grouped(records))->Ok_0[k])
            },
{
    let groups = grouped(records);
    lemma_verdict_for_each_group(groups);
    assert forall|k: int| #![trigger ids_seen(records)[k]] 0 <= k < ids_seen(records).len() implies {
        let id = ids_seen(records)[k];
        &&& verdicts_of(groups)->Ok_0[k].id == id
        &&& evaluate(records_of(records, id)) == Some(verdicts_of(groups)->Ok_0[k])
    } by {
        let id = ids_seen(records)[k];
        let members = records_of(records, id);
        assert(groups[k].instances == members);
        lemma_slot_holds_a_record(members, Slot::Declaration);
        lemma_records_of_carry_id(records, id);
        let declaration = last_in_slot(members, Slot::Declaration)->0;
        let p = choose|p: int| 0 <= p < members.len() && members[p] == declaration;
        assert(members[p].id == id);
    }
}

/// A declaration in the log is a declaration in its group.
pub proof fn lemma_declared_in_log_is_declared_in_group(records: Seq<AssertView>, j: int)
    requires
        0 <= j < records.len(),
        !records[j].hit,
    ensures
        evaluate(records_of(records, records[j].id)) is Some,
    decreases records.len(),
{
    let id = records[j].id;
    let before = records.drop_last();
    if j < records.len() - 1 {
        assert(before[j] == records[j]);
        lemma_declared_in_log_is_declared_in_group(before, j);
        if records.last().id == id {
            assert(records_of(records, id).drop_last() == records_of(before, id));
        }
    }
}

/// The records of `id` give no verdict exactly if none of them is a declaration.
pub proof fn lemma_evaluate_none_is_undeclared(records: Seq<AssertView>, id: Seq<char>)
    ensures
        evaluate(records_of(records, id)) is None <==> undeclared(records, id),
{
    if undeclared(records, id) {
        lemma_group_slot_empty(records, id, Slot::Declaration);
    } else {
        let j = choose|j: int| 0 <= j < records.len() && (#[trigger] records[j]).id == id && !records[j].hit;
        lemma_declared_in_log_is_declared_in_group(records, j);
    }
}

/// The engine fails exactly if some `id` has records and none of them is a
/// declaration.
pub proof fn lemma_fails_only_on_undeclared_id(records: Seq<AssertView>)
    ensures
        verdicts_of(grouped(records)) is Err <==> exists|i: int|
            0 <= i < records.len() && undeclared(records, (#[trigger] records[i]).id),
        verdicts_of(grouped(records)) matches Err(e) ==> e matches ErrorView::MissingDeclaration {
            id,
        } && ids_seen(records).contains(id) && undeclared(records, id),
{
    let groups = grouped(records);
    lemma_fault_names_first_undeclared(groups);
    if verdicts_of(groups) is Err {
        let k = choose|k: int|
            0 <= k < groups.len() && verdicts_of(groups)->Err_0 == (
            ErrorView::MissingDeclaration { id: groups[k].id }) && evaluate(
                #[trigger] groups[k].instances,
            ) is None;
        let id = ids_seen(records)[k];
        assert(groups[k].id == id);
        assert(ids_seen(records).contains(id));
        lemma_evaluate_none_is_undeclared(records, id);
        lemma_ids_seen_are_record_ids(records, id);
        let i = choose|i: int| 0 <= i < records.len() && #[trigger] records[i].id == id;
        assert(undeclared(records, records[i].id));
    }
    if exists|i: int| 0 <= i < records.len() && undeclared(records, (#[trigger] records[i]).id) {
        let i = choose|i: int|
            0 <= i < records.len() && undeclared(records, (#[trigger] records[i]).id);
        let id = records[i].id;
        lemma_ids_seen_are_record_ids(records, id);
        let k = choose|k: int| 0 <= k < ids_seen(records).len() && ids_seen(records)[k] == id;
        lemma_evaluate_none_is_undeclared(records, id);
        assert(groups[k].instances == records_of(records, id));
        assert(evaluate(groups[k].instances) is None);
    }
}

/// Last write wins across the log: where the engine succeeds, and the
/// record at index `i` is the last observation of its `id` in which the
/// condition held, the verdict on that `id` shows its payload as the
/// example. The one exception is left out: an assertion whose last
/// declaration says `Reachability` and that it must not be hit shows no
/// example. The result is where the verdict stands.
pub proof fn lemma_last_true_observation_wins(records: Seq<AssertView>, i: int) -> (k: int)
    requires
        0 <= i < records.len(),
        records[i].hit && records[i].condition,
        forall|j: int|
            i < j < records.len() && (#[trigger] records[j]).id == records[i].id ==> !(
            records[j].hit && records[j].condition),
        verdicts_of(grouped(records)) is Ok,
        last_in_slot(records_of(records, records[i].id), Slot::Declaration) matches Some(
            declaration,
        ) ==> !(declaration.assert_type == AssertType::Reachability && !declaration.must_hit),
    ensures
        0 <= k < verdicts_of(grouped(records))->Ok_0.len(),
        verdicts_of(grouped(records))->Ok_0[k].id == records[i].id,
        verdicts_of(grouped(records))->Ok_0[k].example_details == Some(records[i].details),
{
    let id = records[i].id;
    lemma_ids_seen_are_record_ids(records, id);
    let k = choose|k: int| 0 <= k < ids_seen(records).len() && ids_seen(records)[k] == id;
    lemma_one_verdict_for_each_id(records);
    lemma_group_slot_holds_last(records, Slot::WitnessTrue, i);
    k
}

/// Running the engine again on the same records gives the same outcome:
/// the same verdicts in the same order, or the same fault.
pub proof fn lemma_rerun_gives_same_outcome(
    first_inputs: Seq<SDKInput>,
    second_inputs: Seq<SDKInput>,
    first: Result<Vec<EvaluatedAssertion>, OracleError>,
    second: Result<Vec<EvaluatedAssertion>, OracleError>,
)
    requires
        input_views(first_inputs) == input_views(second_inputs),
        is_outcome(first, oracle(input_views(first_inputs))),
        is_outcome(second, oracle(input_views(second_inputs))),
    ensures
        outcome_view(first) == outcome_view(second),
{
}

/// Reading and running the same lines again gives the same outcome.
pub proof fn lemma_rerun_on_lines_gives_same_outcome(
    first_lines: Seq<&str>,
    second_lines: Seq<&str>,
    first: Result<Vec<EvaluatedAssertion>, OracleError>,
    second: Result<Vec<EvaluatedAssertion>, OracleError>,
)
    requires
        line_views(first_lines) == line_views(second_lines),
        is_outcome(first, oracle_of_lines(line_views(first_lines))),
        is_outcome(second, oracle_of_lines(line_views(second_lines))),
    ensures
        outcome_view(first) == outcome_view(second),
{
}

} // verus!
