//! Stopping the stream of a file once its dynamic filter excludes the file.

use crate::persistent::evaluation::{candidates, outcome, Datum, Row};
use crate::persistent::in_list::{
    bounds_meet_members, compacted, in_list_expr_compactor,
    law_a_file_is_excluded_only_by_its_bounds, lemma_literals_are_the_candidates,
    lemma_single_list_gives_the_same, literals, min_max_within_in_list, one_kind,
};
use crate::persistent::physical_expr::{
    exprs_view, IntLiteral, Operator, PhysicalExpr, ScalarValue,
};
use std::sync::Arc;
use vstd::prelude::*;

verus! {

/// The expression that a dynamic filter stands for now: the filter is the whole expression, or
/// the right side of a binary one.
pub open spec fn current_filter(filter: PhysicalExpr) -> Option<PhysicalExpr> {
    match filter {
        PhysicalExpr::Dynamic(current) => Some(*current),
        PhysicalExpr::Binary(b) => match *b.right {
            PhysicalExpr::Dynamic(current) => Some(*current),
            _ => None,
        },
        _ => None,
    }
}

/// The `IN` list that a filter comes down to, if it comes down to one: the tested expression and
/// the members. A filter that is an `IN` list is taken by its members, negated or not.
pub open spec fn filter_list(current: PhysicalExpr) -> Option<
    (PhysicalExpr, Seq<Arc<PhysicalExpr>>),
> {
    match current {
        PhysicalExpr::InList(l) => Some((*l.expr, l.list@)),
        PhysicalExpr::Binary(b) => compacted(b),
        _ => None,
    }
}

/// Whether a dynamic filter excludes a file: it comes down to an `IN` list, and the bounds of
/// some column enclose no member.
pub open spec fn filter_excludes(
    filter: PhysicalExpr,
    bounds: Seq<(ScalarValue, ScalarValue)>,
) -> bool {
    match current_filter(filter) {
        None => false,
        Some(current) => match filter_list(current) {
            None => false,
            Some((_, members)) => exists|i: int|
                0 <= i < bounds.len() && !bounds_meet_members(
                    members,
                    (#[trigger] bounds[i]).0,
                    bounds[i].1,
                ),
        },
    }
}

/// What the inner stream gave when it was polled.
#[derive(Clone, Copy, Debug, PartialEq, Eq, Structural)]
pub enum StreamEvent {
    Pending,
    End,
    Batch,
}

/// What the stopping stream answers.
#[derive(Clone, Copy, Debug, PartialEq, Eq, Structural)]
pub enum StreamStep {
    Pending,
    End,
    Yield,
}

/// The state of a stream that ends early once the dynamic filter excludes the rest of the file.
#[derive(Debug)]
pub struct VortexStoppingStream {
    pub done: bool,
    pub dynamic_filter_generation: Option<u64>,
}

/// What a stream answers to an event, whether it has ended then, and which filter it looked at last.
/// `seen` is the generation of the filter that it looked at before, if any, and `excludes` says
/// whether the filter excludes the file now.
pub open spec fn stepped(
    done: bool,
    seen: Option<u64>,
    event: StreamEvent,
    generation: u64,
    excludes: bool,
) -> (StreamStep, bool, Option<u64>) {
    if done {
        (StreamStep::End, true, seen)
    } else {
        match event {
            StreamEvent::Pending => (StreamStep::Pending, false, seen),
            StreamEvent::End => (StreamStep::End, true, seen),
            StreamEvent::Batch => if excludes && seen != Some(generation) {
                (StreamStep::End, true, Some(generation))
            } else {
                (StreamStep::Yield, false, Some(generation))
            },
        }
    }
}

impl VortexStoppingStream {
    /// Starts a stream that has looked at no filter yet.
    pub fn new() -> (r: Self)
        ensures
            !r.done,
            r.dynamic_filter_generation is None,
    {
        VortexStoppingStream { done: false, dynamic_filter_generation: None }
    }

    /// Returns whether the filter excludes the file. A filter is looked at once per generation:
    /// the second time it excludes nothing.
    ///
    /// `bounds` holds the least and the greatest value of each column that the filter mentions.
    pub fn should_prune(
        &mut self,
        filter: &PhysicalExpr,
        new_generation: u64,
        bounds: &Vec<(ScalarValue, ScalarValue)>,
    ) -> (r: bool)
        ensures
            final(self).done == old(self).done,
            final(self).dynamic_filter_generation == Some(new_generation),
            r == (old(self).dynamic_filter_generation != Some(new_generation) && filter_excludes(
                *filter,
                bounds@,
            )),
    {
        match self.dynamic_filter_generation {
            Some(generation) => {
                if generation == new_generation {
                    return false;
                }
            },
            None => {},
        }
        self.dynamic_filter_generation = Some(new_generation);
        let current = match filter {
            PhysicalExpr::Binary(b) => match &*b.right {
                PhysicalExpr::Dynamic(current) => current,
                _ => {
                    return false;
                },
            },
            PhysicalExpr::Dynamic(current) => current,
            _ => {
                return false;
            },
        };
        let compacted;
        let in_list = match &**current {
            PhysicalExpr::InList(in_list) => in_list,
            PhysicalExpr::Binary(b) => match in_list_expr_compactor(b) {
                Some(in_list) => {
                    compacted = in_list;
                    &compacted
                },
                None => {
                    return false;
                },
            },
            _ => {
                return false;
            },
        };
        let mut i: usize = 0;
        while i < bounds.len()
            invariant
                0 <= i <= bounds.len(),
                self.done == old(self).done,
                self.dynamic_filter_generation == Some(new_generation),
                old(self).dynamic_filter_generation != Some(new_generation),
                current_filter(*filter) == Some(**current),
                filter_list(**current) == Some((*in_list.expr, in_list.list@)),
                forall|j: int|
                    0 <= j < i ==> bounds_meet_members(
                        in_list.list@,
                        (#[trigger] bounds@[j]).0,
                        bounds@[j].1,
                    ),
            decreases bounds.len() - i,
        {
            if !min_max_within_in_list(in_list, &bounds[i]) {
                assert(!bounds_meet_members(
                    in_list.list@,
                    bounds@[i as int].0,
                    bounds@[i as int].1,
                ));
                return true;
            }
            i += 1;
        }
        false
    }

    /// Takes what the inner stream gave, and returns what this stream answers. A stream that has
    /// ended stays ended.
    pub fn step(
        &mut self,
        event: StreamEvent,
        filter: &PhysicalExpr,
        new_generation: u64,
        bounds: &Vec<(ScalarValue, ScalarValue)>,
    ) -> (r: StreamStep)
        ensures
            (r, final(self).done, final(self).dynamic_filter_generation) == stepped(
                old(self).done,
                old(self).dynamic_filter_generation,
                event,
                new_generation,
                filter_excludes(*filter, bounds@),
            ),
            old(self).done ==> r == StreamStep::End && *final(self) == *old(self),
            !old(self).done ==> {
                let excluded = old(self).dynamic_filter_generation != Some(new_generation)
                    && filter_excludes(*filter, bounds@);
                &&& event == StreamEvent::Pending ==> r == StreamStep::Pending && *final(self)
                    == *old(self)
                &&& event == StreamEvent::End ==> r == StreamStep::End && final(self).done
                    && final(self).dynamic_filter_generation == old(
                    self,
                ).dynamic_filter_generation
                &&& event == StreamEvent::Batch ==> {
                    &&& final(self).done == excluded
                    &&& final(self).dynamic_filter_generation == Some(new_generation)
                    &&& r == if excluded {
                        StreamStep::End
                    } else {
                        StreamStep::Yield
                    }
                }
            },
    {
        if self.done {
            return StreamStep::End;
        }
        match event {
            StreamEvent::Pending => StreamStep::Pending,
            StreamEvent::End => {
                self.done = true;
                StreamStep::End
            },
            StreamEvent::Batch => if self.should_prune(filter, new_generation, bounds) {
                self.done = true;
                StreamStep::End
            } else {
                StreamStep::Yield
            },
        }
    }
}

/// Whether a value lies within bounds: it is null, or an integer of the type of the bounds that is
/// no less than the one and no more than the other. Bounds that are not integers of one type are
/// not known to bound anything.
pub open spec fn within(value: Datum, min: ScalarValue, max: ScalarValue) -> bool {
    match (min.int_literal_spec(), max.int_literal_spec()) {
        (Some(lo), Some(hi)) => lo.kind == hi.kind ==> match value {
            Datum::Null => true,
            Datum::Int(v) => v.kind == lo.kind && lo.value <= v.value <= hi.value,
            _ => false,
        },
        _ => true,
    }
}

/// Whether the filter keeps only rows whose tested value is a member of its list: it is the dynamic
/// filter or a conjunction with it, and what that stands for is not a negated list.
pub open spec fn narrows(filter: PhysicalExpr) -> bool {
    &&& filter matches PhysicalExpr::Binary(b) ==> b.op == Operator::And
    &&& current_filter(filter) matches Some(PhysicalExpr::InList(l)) ==> !l.negated
}

/// A file that such a filter excludes holds no row that satisfies the filter: on no row whose tested
/// value lies within the bounds does the filter hold. So a stream that ends early gives all rows of
/// the result.
pub proof fn law_an_excluded_file_holds_no_matching_row(
    filter: PhysicalExpr,
    bounds: Seq<(ScalarValue, ScalarValue)>,
    row: Row,
)
    requires
        filter_excludes(filter, bounds),
        narrows(filter),
        forall|i: int|
            0 <= i < bounds.len() ==> within(
                outcome(filter_list(current_filter(filter)->Some_0)->Some_0.0@, row),
                (#[trigger] bounds[i]).0,
                bounds[i].1,
            ),
    ensures
        outcome(filter@, row) != Datum::Bool(true),
{
    let current = current_filter(filter)->Some_0;
    let (target, members) = filter_list(current)->Some_0;
    let i = choose|i: int|
        0 <= i < bounds.len() && !bounds_meet_members(
            members,
            (#[trigger] bounds[i]).0,
            bounds[i].1,
        );
    let lits = literals(members)->Some_0;
    lemma_literals_are_the_candidates(members, row);
    lemma_single_list_gives_the_same(&current, row);
    let value = outcome(target@, row);
    let all = candidates(exprs_view(members), row);
    if all.contains(value) {
        let k = choose|k: int| 0 <= k < all.len() && all[k] == value;
        assert(all[k] == Datum::Int(lits[k]));
        assert(within(value, bounds[i].0, bounds[i].1));
    }
    assert(outcome(current@, row) != Datum::Bool(true));
    reveal_with_fuel(outcome, 2);
    reveal_with_fuel(PhysicalExpr::view, 2);
}

/// A file is excluded as soon as it can be: where the filter is the dynamic one, or has it on its
/// right, and stands for a list of integers of one type, a column whose bounds are of that type and
/// enclose none of them excludes the file.
pub proof fn law_a_file_without_a_member_is_excluded(
    filter: PhysicalExpr,
    list: Arc<PhysicalExpr>,
    lits: Seq<IntLiteral>,
    bounds: Seq<(ScalarValue, ScalarValue)>,
    i: int,
    lo: IntLiteral,
    hi: IntLiteral,
)
    requires
        filter == PhysicalExpr::Dynamic(list) || (filter matches PhysicalExpr::Binary(b) && *b.right
            == PhysicalExpr::Dynamic(list)),
        *list matches PhysicalExpr::InList(l) && literals(l.list@) == Some(lits),
        lits.len() > 0,
        one_kind(lits),
        0 <= i < bounds.len(),
        bounds[i].0.int_literal_spec() == Some(lo),
        bounds[i].1.int_literal_spec() == Some(hi),
        lo.kind == lits[0].kind,
        hi.kind == lits[0].kind,
        forall|k: int|
            0 <= k < lits.len() ==> !(lo.value <= (#[trigger] lits[k]).value <= hi.value),
    ensures
        filter_excludes(filter, bounds),
{
    law_a_file_is_excluded_only_by_its_bounds(lits, bounds[i].0, bounds[i].1);
    assert(!bounds_meet_members(list->InList_0.list@, bounds[i].0, bounds[i].1));
}

/// A file is kept where nothing is known against it: where the filter is not dynamic or stands for
/// no list, where the list cannot be read, and where no bounds are known.
pub proof fn law_a_file_is_kept_where_nothing_is_known(
    filter: PhysicalExpr,
    bounds: Seq<(ScalarValue, ScalarValue)>,
)
    requires
        match filter {
            PhysicalExpr::Dynamic(current) => match *current {
                PhysicalExpr::InList(l) => literals(l.list@) is None || bounds.len() == 0,
                PhysicalExpr::Binary(b) => b.op != Operator::Or || bounds.len() == 0,
                _ => true,
            },
            PhysicalExpr::Binary(b) => !(*b.right is Dynamic) || bounds.len() == 0,
            _ => true,
        },
    ensures
        !filter_excludes(filter, bounds),
{
}

/// A stream passes each batch on until it has ended: it ends with the inner stream, or with a batch
/// at which a filter that it has not looked at yet excludes the file. Once it has ended it gives
/// nothing more, and to wait changes nothing.
pub proof fn law_a_stream_gives_batches_until_it_ends(
    done: bool,
    seen: Option<u64>,
    event: StreamEvent,
    generation: u64,
    excludes: bool,
)
    ensures
        ({
            let (answer, ended, looked_at) = stepped(done, seen, event, generation, excludes);
            &&& answer == StreamStep::Yield <==> !done && event == StreamEvent::Batch && !(excludes
                && seen != Some(generation))
            &&& answer == StreamStep::Pending <==> !done && event == StreamEvent::Pending
            &&& ended <==> answer == StreamStep::End
            &&& done ==> ended && looked_at == seen
            &&& !(event == StreamEvent::Batch) ==> looked_at == seen
            &&& !done && event == StreamEvent::Batch ==> looked_at == Some(generation)
        }),
{
}

/// A filter is looked at once: a second batch under the same filter is passed on, even if the filter
/// would exclude the file by then.
pub proof fn law_a_filter_is_looked_at_once(
    seen: Option<u64>,
    generation: u64,
    excludes: bool,
    excludes_later: bool,
)
    requires
        stepped(false, seen, StreamEvent::Batch, generation, excludes).0 == StreamStep::Yield,
    ensures
        ({
            let (_, ended, looked_at) = stepped(
                false,
                seen,
                StreamEvent::Batch,
                generation,
                excludes,
            );
            stepped(ended, looked_at, StreamEvent::Batch, generation, excludes_later).0
                == StreamStep::Yield
        }),
{
}

} // verus!
