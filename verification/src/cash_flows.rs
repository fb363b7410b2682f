use vstd::prelude::*;

use crate::date::{date_outcome, date_text_value, deserialize_date, Date};
use crate::decimal::{amount_outcome, decimal_text_value, parse_amount, Decimal};
use crate::error::{ConfigError, ErrorView};

verus! {

/// Whether the dates of `flows` never go back.
pub open spec fn sorted_by_date(flows: Seq<(Date, Decimal)>) -> bool {
    forall|i: int, j: int|
        0 <= i < j < flows.len() ==> (#[trigger] flows[i]).0.not_after((#[trigger] flows[j]).0)
}

/// A day that is not after a second, which is not after a third, is not
/// after the third.
pub proof fn lemma_not_after_is_transitive(first: Date, second: Date, third: Date)
    requires
        first.not_after(second),
        second.not_after(third),
    ensures
        first.not_after(third),
{
}

/// `sorted` with `flow` put in behind the last entry that is not later than
/// it.
pub open spec fn insert_by_date(sorted: Seq<(Date, Decimal)>, flow: (Date, Decimal)) -> Seq<
    (Date, Decimal),
>
    decreases sorted.len(),
{
    if sorted.len() == 0 || sorted.last().0.not_after(flow.0) {
        sorted.push(flow)
    } else {
        insert_by_date(sorted.drop_last(), flow).push(sorted.last())
    }
}

/// `flows` in the order of their dates; entries of one date stay in the order
/// in which they came.
pub open spec fn sort_by_date(flows: Seq<(Date, Decimal)>) -> Seq<(Date, Decimal)>
    decreases flows.len(),
{
    if flows.len() == 0 {
        flows
    } else {
        insert_by_date(sort_by_date(flows.drop_last()), flows.last())
    }
}

/// Putting an entry into a sorted sequence leaves it sorted and adds that
/// entry and nothing else.
pub proof fn lemma_insert_by_date(sorted: Seq<(Date, Decimal)>, flow: (Date, Decimal))
    requires
        sorted_by_date(sorted),
    ensures
        sorted_by_date(insert_by_date(sorted, flow)),
        insert_by_date(sorted, flow).to_multiset() == sorted.to_multiset().insert(flow),
        insert_by_date(sorted, flow).len() == sorted.len() + 1,
    decreases sorted.len(),
{
    broadcast use vstd::seq_lib::to_multiset_build;

    if sorted.len() == 0 || sorted.last().0.not_after(flow.0) {
        let result = sorted.push(flow);
        assert forall|i: int, j: int| 0 <= i < j < result.len() implies (#[trigger] result[i]).0.not_after(
            (#[trigger] result[j]).0,
        ) by {
            if j == sorted.len() {
                if i < sorted.len() - 1 {
                    assert(sorted[i].0.not_after(sorted[sorted.len() - 1].0));
                    lemma_not_after_is_transitive(sorted[i].0, sorted.last().0, flow.0);
                }
            } else {
                assert(sorted[i].0.not_after(sorted[j].0));
            }
        }
    } else {
        let front = sorted.drop_last();
        let last = sorted.last();
        assert forall|i: int, j: int| 0 <= i < j < front.len() implies (#[trigger] front[i]).0.not_after(
            (#[trigger] front[j]).0,
        ) by {
            assert(sorted[i].0.not_after(sorted[j].0));
        }
        lemma_insert_by_date(front, flow);
        let inner = insert_by_date(front, flow);
        let result = inner.push(last);
        assert(sorted =~= front.push(last));
        assert(result.to_multiset() =~= sorted.to_multiset().insert(flow));
        assert forall|i: int| 0 <= i < inner.len() implies (#[trigger] inner[i]).0.not_after(
            last.0,
        ) by {
            inner.to_multiset_ensures();
            front.to_multiset_ensures();
            assert(inner.contains(inner[i]));
            assert(inner.to_multiset().count(inner[i]) > 0);
            if inner[i] != flow {
                assert(front.to_multiset().count(inner[i]) > 0);
                assert(front.contains(inner[i]));
                let k = choose|k: int| 0 <= k < front.len() && front[k] == inner[i];
                assert(sorted[k].0.not_after(sorted[sorted.len() - 1].0));
            }
        }
        assert forall|i: int, j: int| 0 <= i < j < result.len() implies (#[trigger] result[i]).0.not_after(
            (#[trigger] result[j]).0,
        ) by {
            if j < inner.len() {
                assert(inner[i].0.not_after(inner[j].0));
            } else {
                assert(inner[i].0.not_after(last.0));
            }
        }
    }
}

/// Sorting gives a sorted sequence of the same entries.
pub proof fn lemma_sort_by_date(flows: Seq<(Date, Decimal)>)
    ensures
        sorted_by_date(sort_by_date(flows)),
        sort_by_date(flows).to_multiset() == flows.to_multiset(),
        sort_by_date(flows).len() == flows.len(),
    decreases flows.len(),
{
    broadcast use vstd::seq_lib::to_multiset_build;

    if flows.len() > 0 {
        lemma_sort_by_date(flows.drop_last());
        lemma_insert_by_date(sort_by_date(flows.drop_last()), flows.last());
        assert(flows =~= flows.drop_last().push(flows.last()));
    }
}

/// Sorting changes nothing in a sequence that is sorted.
pub proof fn lemma_sort_keeps_sorted(flows: Seq<(Date, Decimal)>)
    requires
        sorted_by_date(flows),
    ensures
        sort_by_date(flows) == flows,
    decreases flows.len(),
{
    if flows.len() > 0 {
        let front = flows.drop_last();
        assert forall|i: int, j: int| 0 <= i < j < front.len() implies front[i].0.not_after(
            front[j].0,
        ) by {
            assert(flows[i].0.not_after(flows[j].0));
        }
        lemma_sort_keeps_sorted(front);
        if front.len() > 0 {
            assert(flows[front.len() - 1].0.not_after(flows[flows.len() - 1].0));
        }
        assert(flows =~= front.push(flows.last()));
    }
}

/// Sorting twice gives what sorting once gives.
pub proof fn lemma_sort_is_idempotent(flows: Seq<(Date, Decimal)>)
    ensures
        sort_by_date(sort_by_date(flows)) == sort_by_date(flows),
{
    lemma_sort_by_date(flows);
    lemma_sort_keeps_sorted(sort_by_date(flows));
}

/// Every entry of the sorted sequence is an entry of the sequence that was
/// sorted.
pub proof fn lemma_sort_keeps_entries(flows: Seq<(Date, Decimal)>, i: int)
    requires
        0 <= i < sort_by_date(flows).len(),
    ensures
        flows.contains(sort_by_date(flows)[i]),
{
    let sorted = sort_by_date(flows);
    lemma_sort_by_date(flows);
    sorted.to_multiset_ensures();
    flows.to_multiset_ensures();
    assert(sorted.contains(sorted[i]));
    assert(sorted.to_multiset().count(sorted[i]) > 0);
    assert(flows.to_multiset().count(sorted[i]) > 0);
}

/// Where `flow` goes when it is put into `sorted`: to `at`, if every entry
/// from there on is later than it and the one before is not.
proof fn lemma_insert_position(sorted: Seq<(Date, Decimal)>, flow: (Date, Decimal), at: int)
    requires
        0 <= at <= sorted.len(),
        forall|j: int| at <= j < sorted.len() ==> flow.0.before(#[trigger] sorted[j].0),
        at > 0 ==> sorted[at - 1].0.not_after(flow.0),
    ensures
        insert_by_date(sorted, flow) == sorted.insert(at, flow),
    decreases sorted.len(),
{
    if at == sorted.len() {
        assert(sorted.insert(at, flow) =~= sorted.push(flow));
    } else {
        assert(flow.0.before(sorted[sorted.len() - 1].0));
        let front = sorted.drop_last();
        assert forall|j: int| at <= j < front.len() implies flow.0.before(
            #[trigger] front[j].0,
        ) by {
            assert(front[j] == sorted[j]);
        }
        lemma_insert_position(front, flow, at);
        assert(front.insert(at, flow).push(sorted.last()) =~= sorted.insert(at, flow));
    }
}

/// Puts `flows` in the order of their dates. Entries of one date stay in the
/// order in which they came, so flows that are sorted stay as they are.
pub fn sort_cash_flows(flows: &mut Vec<(Date, Decimal)>)
    ensures
        final(flows)@ == sort_by_date(old(flows)@),
        sorted_by_date(final(flows)@),
        final(flows)@.to_multiset() == old(flows)@.to_multiset(),
        sorted_by_date(old(flows)@) ==> final(flows)@ == old(flows)@,
{
    let mut sorted: Vec<(Date, Decimal)> = Vec::new();
    let mut i: usize = 0;
    assert(flows@.take(0) =~= Seq::empty());
    while i < flows.len()
        invariant
            i <= flows.len(),
            sorted@ == sort_by_date(flows@.take(i as int)),
        decreases flows.len() - i,
    {
        let flow = flows[i];
        let mut at: usize = sorted.len();
        while at > 0 && flow.0.is_before(&sorted[at - 1].0)
            invariant
                at <= sorted.len(),
                forall|j: int| at <= j < sorted.len() ==> flow.0.before(#[trigger] sorted@[j].0),
            decreases at,
        {
            at -= 1;
        }
        proof {
            lemma_insert_position(sorted@, flow, at as int);
            assert(flows@.take(i + 1).drop_last() =~= flows@.take(i as int));
        }
        sorted.insert(at, flow);
        i += 1;
    }
    proof {
        assert(flows@.take(flows.len() as int) =~= flows@);
        lemma_sort_by_date(flows@);
        if sorted_by_date(flows@) {
            lemma_sort_keeps_sorted(flows@);
        }
    }
    *flows = sorted;
}

/// What reading one entry of a cash flow collection comes to: its date, then
/// its amount, or the error of the first of the two that cannot be read.
pub open spec fn cash_flow_outcome(date: Seq<char>, amount: Seq<char>) -> Result<
    (Date, Decimal),
    ErrorView,
> {
    match date_outcome(date_text_value(date, "%d.%m.%Y"@), date) {
        Ok(day) => match amount_outcome(decimal_text_value(amount), amount) {
            Ok(number) => Ok((day, number)),
            Err(error) => Err(error),
        },
        Err(error) => Err(error),
    }
}

/// What reading each of `entries` comes to, in their order.
pub open spec fn cash_flow_outcomes(entries: Seq<(String, String)>) -> Seq<
    Result<(Date, Decimal), ErrorView>,
> {
    Seq::new(entries.len(), |i: int| cash_flow_outcome(entries[i].0@, entries[i].1@))
}

/// The cash flows that `entries` write, in their order, where each of them
/// can be read.
pub open spec fn cash_flows_of(entries: Seq<(String, String)>) -> Seq<(Date, Decimal)> {
    Seq::new(entries.len(), |i: int| cash_flow_outcomes(entries)[i]->Ok_0)
}

/// Whether `error` is the first error among `outcomes`.
pub open spec fn is_first_error<T>(outcomes: Seq<Result<T, ErrorView>>, error: ErrorView) -> bool {
    exists|i: int|
        0 <= i < outcomes.len() && #[trigger] outcomes[i] == Err::<T, ErrorView>(error) && forall|
            j: int,
        |
            0 <= j < i ==> (#[trigger] outcomes[j]) is Ok
}

/// Whether `flows` are what a cash flow collection holds once it is read:
/// days that the calendar has, in their order, with amounts above zero.
pub open spec fn cash_flows_well_formed(flows: Seq<(Date, Decimal)>) -> bool {
    &&& sorted_by_date(flows)
    &&& forall|i: int|
        0 <= i < flows.len() ==> {
            &&& (#[trigger] flows[i]).0.is_valid()
            &&& flows[i].1.is_valid()
            &&& flows[i].1.positive()
        }
}

/// Reads a cash flow collection: `entries` pair the text of a date with the
/// text of an amount. The flows come out in the order of their dates. The
/// first entry that cannot be read turns the whole collection down.
pub fn deserialize_cash_flows(entries: &Vec<(String, String)>) -> (flows: Result<
    Vec<(Date, Decimal)>,
    ConfigError,
>)
    ensures
        match flows {
            Ok(flows) => {
                &&& forall|i: int|
                    0 <= i < entries.len() ==> (#[trigger] cash_flow_outcomes(entries@)[i]) is Ok
                &&& flows@ == sort_by_date(cash_flows_of(entries@))
                &&& cash_flows_well_formed(flows@)
            },
            Err(error) => is_first_error(cash_flow_outcomes(entries@), error@),
        },
{
    let mut flows: Vec<(Date, Decimal)> = Vec::new();
    let mut i: usize = 0;
    while i < entries.len()
        invariant
            i <= entries.len(),
            flows@ == cash_flows_of(entries@).take(i as int),
            forall|j: int| 0 <= j < i ==> (#[trigger] cash_flow_outcomes(entries@)[j]) is Ok,
            forall|j: int|
                0 <= j < i ==> {
                    &&& (#[trigger] flows@[j]).0.is_valid()
                    &&& flows@[j].1.is_valid()
                    &&& flows@[j].1.positive()
                },
        decreases entries.len() - i,
    {
        let ghost outcome = cash_flow_outcomes(entries@)[i as int];
        let date = match deserialize_date(entries[i].0.as_str()) {
            Ok(date) => date,
            Err(error) => {
                assert(outcome == Err::<(Date, Decimal), ErrorView>(error@));
                return Err(error);
            },
        };
        let amount = match parse_amount(entries[i].1.as_str()) {
            Ok(amount) => amount,
            Err(error) => {
                assert(outcome == Err::<(Date, Decimal), ErrorView>(error@));
                return Err(error);
            },
        };
        assert(outcome == Ok::<(Date, Decimal), ErrorView>((date, amount)));
        flows.push((date, amount));
        i += 1;
        assert(flows@ =~= cash_flows_of(entries@).take(i as int));
    }
    let ghost read = flows@;
    assert(read =~= cash_flows_of(entries@));
    sort_cash_flows(&mut flows);
    proof {
        assert forall|k: int| 0 <= k < flows@.len() implies {
            &&& (#[trigger] flows@[k]).0.is_valid()
            &&& flows@[k].1.is_valid()
            &&& flows@[k].1.positive()
        } by {
            lemma_sort_keeps_entries(read, k);
            let j = choose|j: int| 0 <= j < read.len() && read[j] == flows@[k];
            assert(read[j].0.is_valid());
        }
    }
    Ok(flows)
}

} // verus!
