//! The verdict on one assertion, settled from all the records that share
//! its `id`.

use crate::record::{assert_views, AntithesisAssert, AssertType, AssertView, Location, LocationView};
use serde_json::Value;
use vstd::prelude::*;

verus! {

/// What a record contributes to the verdict on its assertion.
pub enum Slot {
    /// The catalog entry: it declares the assertion and observes nothing.
    Declaration,
    /// An observation in which the condition held.
    WitnessTrue,
    /// An observation in which the condition did not hold.
    WitnessFalse,
}

/// The slot that a record falls into.
pub open spec fn slot_of(record: AssertView) -> Slot {
    if !record.hit {
        Slot::Declaration
    } else if record.condition {
        Slot::WitnessTrue
    } else {
        Slot::WitnessFalse
    }
}

/// The last record of `records` that falls into `slot`, if there is one.
pub open spec fn last_in_slot(records: Seq<AssertView>, slot: Slot) -> Option<AssertView>
    decreases records.len(),
{
    if records.len() == 0 {
        None
    } else if slot_of(records.last()) == slot {
        Some(records.last())
    } else {
        last_in_slot(records.drop_last(), slot)
    }
}

/// Whether an assertion passed, given whether its condition was ever seen
/// to hold and ever seen to fail.
pub open spec fn passes(kind: AssertType, must_hit: bool, seen_true: bool, seen_false: bool) -> bool {
    match kind {
        AssertType::Always => !seen_false && (seen_true || !must_hit),
        AssertType::Sometimes => seen_true,
        AssertType::Reachability => (seen_true || seen_false) == must_hit,
    }
}

/// The first of two optional payloads that is there.
pub open spec fn first_of(a: Option<Value>, b: Option<Value>) -> Option<Value> {
    if a is Some {
        a
    } else {
        b
    }
}

/// The payload that supports the verdict, given the payloads of the two witnesses.
pub open spec fn example_of(
    kind: AssertType,
    must_hit: bool,
    on_true: Option<Value>,
    on_false: Option<Value>,
) -> Option<Value> {
    match kind {
        AssertType::Reachability => if must_hit {
            first_of(on_true, on_false)
        } else {
            None
        },
        _ => on_true,
    }
}

/// The payload that speaks against the verdict, given the payloads of the two witnesses.
pub open spec fn counter_of(
    kind: AssertType,
    must_hit: bool,
    on_true: Option<Value>,
    on_false: Option<Value>,
) -> Option<Value> {
    match kind {
        AssertType::Reachability => if must_hit {
            None
        } else {
            first_of(on_true, on_false)
        },
        _ => on_false,
    }
}

/// The payload of a record that may be missing.
pub open spec fn details_of(record: Option<AssertView>) -> Option<Value> {
    match record {
        Some(r) => Some(r.details),
        None => None,
    }
}

/// The verdict on one assertion.
#[derive(Debug, Clone, PartialEq)]
pub struct EvaluatedAssertion {
    pub display_type: String,
    pub id: String,
    pub message: String,
    pub location: Location,
    /// A payload that supports the verdict.
    pub example_details: Option<Value>,
    /// A payload that speaks against it.
    pub counter_details: Option<Value>,
    pub passed: bool,
}

/// An [`EvaluatedAssertion`] in specifications.
pub struct VerdictView {
    pub display_type: Seq<char>,
    pub id: Seq<char>,
    pub message: Seq<char>,
    pub location: LocationView,
    pub example_details: Option<Value>,
    pub counter_details: Option<Value>,
    pub passed: bool,
}

impl View for EvaluatedAssertion {
    type V = VerdictView;

    open spec fn view(&self) -> VerdictView {
        VerdictView {
            display_type: self.display_type@,
            id: self.id@,
            message: self.message@,
            location: self.location@,
            example_details: self.example_details,
            counter_details: self.counter_details,
            passed: self.passed,
        }
    }
}

/// The verdict that a declaration and the two witnesses give.
pub open spec fn verdict_of(
    declaration: AssertView,
    witness_true: Option<AssertView>,
    witness_false: Option<AssertView>,
) -> VerdictView {
    let kind = declaration.assert_type;
    let must_hit = declaration.must_hit;
    let on_true = details_of(witness_true);
    let on_false = details_of(witness_false);
    VerdictView {
        display_type: declaration.display_type,
        id: declaration.id,
        message: declaration.message,
        location: declaration.location,
        example_details: example_of(kind, must_hit, on_true, on_false),
        counter_details: counter_of(kind, must_hit, on_true, on_false),
        passed: passes(kind, must_hit, witness_true is Some, witness_false is Some),
    }
}

/// The verdict on the assertion whose records are `records`, in the order
/// in which they were logged: `None` where no record declares it.
pub open spec fn evaluate(records: Seq<AssertView>) -> Option<VerdictView> {
    match last_in_slot(records, Slot::Declaration) {
        Some(declaration) => Some(
            verdict_of(
                declaration,
                last_in_slot(records, Slot::WitnessTrue),
                last_in_slot(records, Slot::WitnessFalse),
            ),
        ),
        None => None,
    }
}

/// Where no record falls into `slot`, the slot stays empty.
pub proof fn lemma_slot_empty(records: Seq<AssertView>, slot: Slot)
    requires
        forall|i: int| 0 <= i < records.len() ==> slot_of(#[trigger] records[i]) != slot,
    ensures
        last_in_slot(records, slot) is None,
    decreases records.len(),
{
    if records.len() > 0 {
        assert(slot_of(records[records.len() - 1]) != slot);
        assert forall|i: int| 0 <= i < records.drop_last().len() implies slot_of(
            #[trigger] records.drop_last()[i],
        ) != slot by {
            assert(records.drop_last()[i] == records[i]);
        }
        lemma_slot_empty(records.drop_last(), slot);
    }
}

/// Last write wins: a slot holds the record at index `i` where that record
/// falls into the slot and no later one does.
pub proof fn lemma_slot_holds_last(records: Seq<AssertView>, slot: Slot, i: int)
    requires
        0 <= i < records.len(),
        slot_of(records[i]) == slot,
        forall|j: int| i < j < records.len() ==> slot_of(#[trigger] records[j]) != slot,
    ensures
        last_in_slot(records, slot) == Some(records[i]),
    decreases records.len(),
{
    if i < records.len() - 1 {
        assert(slot_of(records[records.len() - 1]) != slot);
        assert forall|j: int| i < j < records.drop_last().len() implies slot_of(
            #[trigger] records.drop_last()[j],
        ) != slot by {
            assert(records.drop_last()[j] == records[j]);
        }
        assert(records.drop_last()[i] == records[i]);
        lemma_slot_holds_last(records.drop_last(), slot, i);
    }
}

/// What a slot holds is one of the records, and it falls into the slot.
pub proof fn lemma_slot_holds_a_record(records: Seq<AssertView>, slot: Slot)
    ensures
        last_in_slot(records, slot) matches Some(held) ==> slot_of(held) == slot
            && records.contains(held),
    decreases records.len(),
{
    if records.len() > 0 {
        if slot_of(records.last()) == slot {
            assert(records[records.len() - 1] == records.last());
        } else {
            lemma_slot_holds_a_record(records.drop_last(), slot);
            if let Some(held) = last_in_slot(records, slot) {
                let i = choose|i: int|
                    0 <= i < records.drop_last().len() && records.drop_last()[i] == held;
                assert(records[i] == held);
            }
        }
    }
}

/// An assertion that was declared and never observed passes exactly if it
/// is an `Always` or a `Reachability` assertion that need not be hit. Its
/// verdict takes everything from the last declaration and carries no payload.
pub proof fn lemma_declared_never_observed(records: Seq<AssertView>)
    requires
        records.len() > 0,
        forall|i: int| 0 <= i < records.len() ==> !(#[trigger] records[i]).hit,
    ensures
        evaluate(records) == Some(verdict_of(records.last(), None, None)),
        evaluate(records)->0.passed == match records.last().assert_type {
            AssertType::Always => !records.last().must_hit,
            AssertType::Sometimes => false,
            AssertType::Reachability => !records.last().must_hit,
        },
        evaluate(records)->0.example_details is None,
        evaluate(records)->0.counter_details is None,
{
    assert(!records[records.len() - 1].hit);
    lemma_slot_empty(records, Slot::WitnessTrue);
    lemma_slot_empty(records, Slot::WitnessFalse);
}

/// Last write wins for the example: where the condition was seen to hold
/// several times, the verdict's example is the payload of the last such
/// observation. The one exception is left out: a `Reachability` assertion
/// that must not be hit has no example, and shows the payload as its
/// counter-example instead.
pub proof fn lemma_example_is_last_true_observation(records: Seq<AssertView>, i: int)
    requires
        0 <= i < records.len(),
        records[i].hit && records[i].condition,
        forall|j: int|
            i < j < records.len() ==> !((#[trigger] records[j]).hit && records[j].condition),
        last_in_slot(records, Slot::Declaration) matches Some(declaration) && !(
        declaration.assert_type == AssertType::Reachability && !declaration.must_hit),
    ensures
        evaluate(records) matches Some(verdict) && verdict.example_details == Some(
            records[i].details,
        ),
{
    lemma_slot_holds_last(records, Slot::WitnessTrue, i);
}

/// Last write wins for the counter-example of an `Always` or a `Sometimes`
/// assertion: it is the payload of the last observation in which the
/// condition did not hold.
pub proof fn lemma_counter_is_last_false_observation(records: Seq<AssertView>, i: int)
    requires
        0 <= i < records.len(),
        records[i].hit && !records[i].condition,
        forall|j: int|
            i < j < records.len() ==> !((#[trigger] records[j]).hit && !records[j].condition),
        last_in_slot(records, Slot::Declaration) matches Some(declaration)
            && declaration.assert_type != AssertType::Reachability,
    ensures
        evaluate(records) matches Some(verdict) && verdict.counter_details == Some(
            records[i].details,
        ),
{
    lemma_slot_holds_last(records, Slot::WitnessFalse, i);
}

/// A verdict is there exactly if some record declares the assertion.
pub proof fn lemma_verdict_needs_declaration(records: Seq<AssertView>)
    ensures
        evaluate(records) is Some <==> exists|i: int|
            0 <= i < records.len() && !(#[trigger] records[i]).hit,
    decreases records.len(),
{
    if records.len() > 0 {
        lemma_verdict_needs_declaration(records.drop_last());
        if evaluate(records) is Some {
            if !records.last().hit {
                assert(!records[records.len() - 1].hit);
            } else {
                let i = choose|i: int|
                    0 <= i < records.drop_last().len() && !(#[trigger] records.drop_last()[i]).hit;
                assert(!records[i].hit);
            }
        }
        if exists|i: int| 0 <= i < records.len() && !(#[trigger] records[i]).hit {
            let i = choose|i: int| 0 <= i < records.len() && !(#[trigger] records[i]).hit;
            if i < records.len() - 1 {
                assert(!records.drop_last()[i].hit);
            }
        }
    }
}

/// The view of a record that may be missing.
pub open spec fn opt_view(record: Option<AntithesisAssert>) -> Option<AssertView> {
    match record {
        Some(r) => Some(r@),
        None => None,
    }
}

impl EvaluatedAssertion {
    /// Settles the verdict on one assertion from its records, given in the
    /// order in which they were logged.
    ///
    /// Of the records in each slot only the last counts. The result is
    /// `None` exactly where no record declares the assertion.
    pub fn new(assert_list: Vec<AntithesisAssert>) -> (r: Option<EvaluatedAssertion>)
        ensures
            match evaluate(assert_views(assert_list@)) {
                Some(verdict) => r matches Some(e) && e@ == verdict,
                None => r is None,
            },
    {
        let ghost records = assert_views(assert_list@);
        let mut catalog_entry: Option<AntithesisAssert> = None;
        let mut condition_true_entry: Option<AntithesisAssert> = None;
        let mut condition_false_entry: Option<AntithesisAssert> = None;

        for entry in it: assert_list
            invariant
                records == assert_views(it.seq()),
                opt_view(catalog_entry) == last_in_slot(records.take(it.index() as int), Slot::Declaration),
                opt_view(condition_true_entry) == last_in_slot(records.take(it.index() as int), Slot::WitnessTrue),
                opt_view(condition_false_entry) == last_in_slot(records.take(it.index() as int), Slot::WitnessFalse),
        {
            proof {
                let n = it.index() as int;
                assert(records.take(n + 1).drop_last() == records.take(n));
                assert(records.take(n + 1).last() == entry@);
            }
            if entry.hit {
                if entry.condition {
                    condition_true_entry = Some(entry);
                } else {
                    condition_false_entry = Some(entry);
                }
            } else {
                catalog_entry = Some(entry);
            }
        }
        assert(records.take(records.len() as int) == records);

        let input_entry = match catalog_entry {
            Some(entry) => entry,
            None => { return None; },
        };
        let seen_true = condition_true_entry.is_some();
        let seen_false = condition_false_entry.is_some();
        let on_true = match condition_true_entry {
            Some(entry) => Some(entry.details),
            None => None,
        };
        let on_false = match condition_false_entry {
            Some(entry) => Some(entry.details),
            None => None,
        };
        let must_hit = input_entry.must_hit;
        let passed: bool;
        let example_details: Option<Value>;
        let counter_details: Option<Value>;
        match input_entry.assert_type {
            AssertType::Always => {
                passed = !seen_false && (seen_true || !must_hit);
                example_details = on_true;
                counter_details = on_false;
            },
            AssertType::Sometimes => {
                passed = seen_true;
                example_details = on_true;
                counter_details = on_false;
            },
            AssertType::Reachability => {
                let reached = seen_true || seen_false;
                let witness = if seen_true {
                    on_true
                } else {
                    on_false
                };
                if must_hit {
                    passed = reached;
                    example_details = witness;
                    counter_details = None;
                } else {
                    passed = !reached;
                    example_details = None;
                    counter_details = witness;
                }
            },
        }
        Some(
            EvaluatedAssertion {
                display_type: input_entry.display_type,
                id: input_entry.id,
                message: input_entry.message,
                location: input_entry.location,
                example_details,
                counter_details,
                passed,
            },
        )
    }
}

} // verus!
