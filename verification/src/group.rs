//! Grouping: the assertion records of a log, sorted by their `id`.
//!
//! The groups stand in the order in which their `id`s first appear in the
//! log, and inside a group the records keep the order of the log. They are
//! kept in a vector and found by comparing `id`s, so that the same log
//! always gives the same groups in the same order.

use crate::record::{assert_views, input_views, AntithesisAssert, AssertView, InputView, SDKInput};
use vstd::prelude::*;

verus! {

/// All the assertion records of one `id`.
#[derive(Debug, Clone, PartialEq)]
pub struct AssertGroup {
    pub id: String,
    pub instances: Vec<AntithesisAssert>,
}

/// An [`AssertGroup`] in specifications.
pub struct GroupView {
    pub id: Seq<char>,
    pub instances: Seq<AssertView>,
}

impl View for AssertGroup {
    type V = GroupView;

    open spec fn view(&self) -> GroupView {
        GroupView { id: self.id@, instances: assert_views(self.instances@) }
    }
}

/// The views of a sequence of groups, in the same order.
pub open spec fn group_views(groups: Seq<AssertGroup>) -> Seq<GroupView> {
    groups.map_values(|g: AssertGroup| g@)
}

/// The assertion records among `inputs`, in the same order.
pub open spec fn assertions(inputs: Seq<InputView>) -> Seq<AssertView>
    decreases inputs.len(),
{
    if inputs.len() == 0 {
        Seq::empty()
    } else {
        let before = assertions(inputs.drop_last());
        match inputs.last() {
            InputView::AntithesisAssert(a) => before.push(a),
            _ => before,
        }
    }
}

/// The `id`s of `records`, each once, in the order of their first appearance.
pub open spec fn ids_seen(records: Seq<AssertView>) -> Seq<Seq<char>>
    decreases records.len(),
{
    if records.len() == 0 {
        Seq::empty()
    } else {
        let before = ids_seen(records.drop_last());
        if before.contains(records.last().id) {
            before
        } else {
            before.push(records.last().id)
        }
    }
}

/// The records of `records` that carry `id`, in the same order.
pub open spec fn records_of(records: Seq<AssertView>, id: Seq<char>) -> Seq<AssertView>
    decreases records.len(),
{
    if records.len() == 0 {
        Seq::empty()
    } else {
        let before = records_of(records.drop_last(), id);
        if records.last().id == id {
            before.push(records.last())
        } else {
            before
        }
    }
}

/// The groups of `records`: one for each `id`, in the order in which the
/// `id`s first appear, each with all the records of its `id`.
pub open spec fn grouped(records: Seq<AssertView>) -> Seq<GroupView> {
    ids_seen(records).map_values(
        |id: Seq<char>| GroupView { id, instances: records_of(records, id) },
    )
}

/// Records of other kinds do not count: taking one out of the log leaves
/// the assertion records as they were.
pub proof fn lemma_other_records_do_not_count(inputs: Seq<InputView>, i: int)
    requires
        0 <= i < inputs.len(),
        !(inputs[i] is AntithesisAssert),
    ensures
        assertions(inputs.remove(i)) == assertions(inputs),
    decreases inputs.len(),
{
    if i == inputs.len() - 1 {
        assert(inputs.remove(i) == inputs.drop_last());
    } else {
        assert(inputs.remove(i).drop_last() == inputs.drop_last().remove(i));
        assert(inputs.remove(i).last() == inputs.last());
        assert(inputs.drop_last()[i] == inputs[i]);
        lemma_other_records_do_not_count(inputs.drop_last(), i);
    }
}

/// No `id` stands twice among the `id`s seen.
pub proof fn lemma_ids_seen_distinct(records: Seq<AssertView>)
    ensures
        ids_seen(records).no_duplicates(),
    decreases records.len(),
{
    if records.len() > 0 {
        lemma_ids_seen_distinct(records.drop_last());
    }
}

/// An `id` is among the `id`s seen exactly if some record carries it.
pub proof fn lemma_ids_seen_are_record_ids(records: Seq<AssertView>, id: Seq<char>)
    ensures
        ids_seen(records).contains(id) <==> exists|i: int|
            0 <= i < records.len() && #[trigger] records[i].id == id,
    decreases records.len(),
{
    if records.len() > 0 {
        let before = records.drop_last();
        lemma_ids_seen_are_record_ids(before, id);
        if ids_seen(records).contains(id) {
            if ids_seen(before).contains(id) {
                let i = choose|i: int| 0 <= i < before.len() && #[trigger] before[i].id == id;
                assert(records[i].id == id);
            } else {
                assert(records[records.len() - 1].id == id);
            }
        }
        if exists|i: int| 0 <= i < records.len() && #[trigger] records[i].id == id {
            let i = choose|i: int| 0 <= i < records.len() && #[trigger] records[i].id == id;
            if i < before.len() {
                assert(before[i].id == id);
                assert(ids_seen(before).contains(id));
                if !ids_seen(before).contains(records.last().id) {
                    let k = choose|k: int|
                        0 <= k < ids_seen(before).len() && ids_seen(before)[k] == id;
                    assert(ids_seen(records)[k] == id);
                }
            } else {
                if !ids_seen(before).contains(id) {
                    assert(ids_seen(records).last() == id);
                }
            }
        }
    }
}

/// An `id` that was not seen has no records.
pub proof fn lemma_unseen_has_no_records(records: Seq<AssertView>, id: Seq<char>)
    requires
        !ids_seen(records).contains(id),
    ensures
        records_of(records, id) == Seq::<AssertView>::empty(),
    decreases records.len(),
{
    if records.len() > 0 {
        let before = records.drop_last();
        if ids_seen(before).contains(id) {
            let k = choose|k: int| 0 <= k < ids_seen(before).len() && ids_seen(before)[k] == id;
            assert(ids_seen(records)[k] == id);
        }
        if records.last().id == id {
            assert(ids_seen(records).contains(id)) by {
                if !ids_seen(before).contains(id) {
                    assert(ids_seen(records).last() == id);
                }
            }
        }
        lemma_unseen_has_no_records(before, id);
    }
}

/// Where the group of `id` stands among `groups`, if it is there.
fn find_group(groups: &Vec<AssertGroup>, id: &String) -> (r: Option<usize>)
    ensures
        match r {
            Some(j) => j < groups.len() && groups[j as int].id@ == id@,
            None => forall|j: int| 0 <= j < groups.len() ==> groups[j].id@ != id@,
        },
{
    let mut j: usize = 0;
    while j < groups.len()
        invariant
            j <= groups.len(),
            forall|k: int| 0 <= k < j ==> groups[k].id@ != id@,
        decreases groups.len() - j,
    {
        if groups[j].id == *id {
            return Some(j);
        }
        j += 1;
    }
    None
}

/// Whether `groups` are the groups of `records`.
pub open spec fn groups_match(groups: Seq<AssertGroup>, records: Seq<AssertView>) -> bool {
    &&& groups.len() == ids_seen(records).len()
    &&& forall|j: int|
        0 <= j < groups.len() ==> {
            &&& (#[trigger] groups[j]).id@ == ids_seen(records)[j]
            &&& assert_views(groups[j].instances@) == records_of(records, ids_seen(records)[j])
        }
}

/// Sorts the assertion records among `inputs` into groups by their `id`.
/// Records of other kinds are left out.
pub fn group_asserts(inputs: Vec<SDKInput>) -> (r: Vec<AssertGroup>)
    ensures
        group_views(r@) == grouped(assertions(input_views(inputs@))),
{
    let ghost all = input_views(inputs@);
    let mut result: Vec<AssertGroup> = Vec::new();
    proof {
        assert(all.take(0) == Seq::<InputView>::empty());
    }
    for input in it: inputs
        invariant
            all == input_views(it.seq()),
            groups_match(result@, assertions(all.take(it.index() as int))),
    {
        let ghost n = it.index() as int;
        let ghost before = assertions(all.take(n));
        let ghost old_groups = result@;
        proof {
            assert(all.take(n + 1).drop_last() == all.take(n));
            assert(all.take(n + 1).last() == input@);
            lemma_ids_seen_distinct(before);
        }
        match input {
            SDKInput::AntithesisAssert(x) => {
                let ghost now = before.push(x@);
                proof {
                    assert(now.drop_last() == before);
                    assert(assertions(all.take(n + 1)) == now);
                }
                match find_group(&result, &x.id) {
                    Some(j) => {
                        proof {
                            assert(ids_seen(before)[j as int] == x@.id);
                            assert(ids_seen(now) == ids_seen(before));
                            assert(assert_views(result[j as int].instances@.push(x))
                                == assert_views(result[j as int].instances@).push(x@));
                        }
                        result[j].instances.push(x);
                        proof {
                            assert forall|k: int| 0 <= k < result@.len() implies {
                                &&& (#[trigger] result@[k]).id@ == ids_seen(now)[k]
                                &&& assert_views(result@[k].instances@) == records_of(
                                    now,
                                    ids_seen(now)[k],
                                )
                            } by {
                                assert(old_groups[k].id@ == ids_seen(before)[k]);
                                if k != j {
                                    assert(result@[k] == old_groups[k]);
                                    assert(ids_seen(before)[k] != ids_seen(before)[j as int]);
                                }
                            }
                        }
                    },
                    None => {
                        proof {
                            assert(!ids_seen(before).contains(x@.id)) by {
                                if ids_seen(before).contains(x@.id) {
                                    let k = choose|k: int|
                                        0 <= k < ids_seen(before).len() && ids_seen(before)[k]
                                            == x@.id;
                                    assert(old_groups[k].id@ == x@.id);
                                }
                            }
                            lemma_unseen_has_no_records(before, x@.id);
                            assert(ids_seen(now) == ids_seen(before).push(x@.id));
                        }
                        let id = x.id.clone();
                        let mut instances: Vec<AntithesisAssert> = Vec::new();
                        instances.push(x);
                        proof {
                            assert(assert_views(instances@) == Seq::<AssertView>::empty().push(x@));
                        }
                        result.push(AssertGroup { id, instances });
                        proof {
                            assert forall|k: int| 0 <= k < result@.len() implies {
                                &&& (#[trigger] result@[k]).id@ == ids_seen(now)[k]
                                &&& assert_views(result@[k].instances@) == records_of(
                                    now,
                                    ids_seen(now)[k],
                                )
                            } by {
                                if k < old_groups.len() {
                                    assert(result@[k] == old_groups[k]);
                                    assert(old_groups[k].id@ == ids_seen(before)[k]);
                                    assert(ids_seen(before).contains(ids_seen(before)[k]));
                                }
                            }
                        }
                    },
                }
            },
            _ => {},
        }
    }
    proof {
        let records = assertions(all);
        assert(all.take(all.len() as int) == all);
        assert(group_views(result@) =~= grouped(records));
    }
    result
}

} // verus!
