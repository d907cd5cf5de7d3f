//! The store of the latest status of each aircraft.

use vstd::prelude::*;
use crate::aprs::status::{Status, StatusView};
use crate::position::Position;
use crate::text::{
    chars_of, fields_view, lemma_text_before_irreflexive, lemma_text_before_total,
    lemma_text_before_transitive, stands_before, text_before,
};
use crate::time::get_current_timestamp;

verus! {

/// The age in seconds above which a status is outdated: five minutes.
pub const MAX_AGE_DIFF: u64 = 300;

/// Whether `status` is outdated at the time `now`: it is older than five
/// minutes. A status from after `now` is not.
pub open spec fn is_outdated(status: StatusView, now: u64) -> bool {
    now - status.time_stamp > MAX_AGE_DIFF
}

/// The statuses among `states` that are not outdated at `now`, in their order.
pub open spec fn fresh(states: Seq<StatusView>, now: u64) -> Seq<StatusView> {
    states.filter(|status: StatusView| !is_outdated(status, now))
}

/// The first index at which `states` holds a status of the aircraft `id`, or
/// the length of `states` where it holds none.
pub open spec fn index_of_id(states: Seq<StatusView>, id: Seq<char>) -> int
    decreases states.len(),
{
    if states.len() == 0 {
        0
    } else if states.first().aircraft.id == id {
        0
    } else {
        1 + index_of_id(states.drop_first(), id)
    }
}

/// `states` with `status` as the status of its aircraft: in place of the one
/// that was there, or at the end where there was none.
pub open spec fn upserted(states: Seq<StatusView>, status: StatusView) -> Seq<StatusView> {
    let at = index_of_id(states, status.aircraft.id);
    if at < states.len() {
        states.update(at, status)
    } else {
        states.push(status)
    }
}

/// Whether no two statuses of `states` are of the same aircraft.
pub open spec fn distinct_ids(states: Seq<StatusView>) -> bool {
    forall|i: int, j: int|
        0 <= i < j < states.len() ==> states[i].aircraft.id != states[j].aircraft.id
}

/// Whether `latest` is the time stamp of the newest status of `states`: none
/// where there is no status.
pub open spec fn is_last_update(states: Seq<StatusView>, latest: Option<u64>) -> bool {
    match latest {
        None => states.len() == 0,
        Some(time_stamp) => {
            &&& exists|i: int| 0 <= i < states.len() && states[i].time_stamp == time_stamp
            &&& forall|i: int| 0 <= i < states.len() ==> states[i].time_stamp <= time_stamp
        },
    }
}

/// The identifiers of the aircraft of `states`, in order.
pub open spec fn ids_of(states: Seq<StatusView>) -> Seq<Seq<char>> {
    states.map_values(|status: StatusView| status.aircraft.id)
}

/// Whether the status at index `i` comes before the one at index `j` when the
/// nearest comes first: by distance, and at the same distance by the
/// identifier of the aircraft, in the order of a dictionary. Only where two
/// statuses are of the same aircraft, which a store never holds, the index
/// decides.
pub open spec fn comes_before(ids: Seq<Seq<char>>, measured: Seq<u32>, i: int, j: int) -> bool {
    ||| measured[i] < measured[j]
    ||| measured[i] == measured[j] && text_before(ids[i], ids[j])
    ||| measured[i] == measured[j] && ids[i] == ids[j] && i < j
}

/// Whether `order` lists the indices of all distances of `measured` that are
/// at most `range`, the nearest first.
pub open spec fn is_nearest_first(
    order: Seq<usize>,
    ids: Seq<Seq<char>>,
    measured: Seq<u32>,
    range: u32,
) -> bool {
    &&& forall|k: int|
        0 <= k < order.len() ==> #[trigger] order[k] < measured.len() && measured[order[k] as int]
            <= range
    &&& forall|i: int|
        0 <= i < measured.len() && #[trigger] measured[i] <= range ==> exists|k: int|
            0 <= k < order.len() && #[trigger] order[k] == i
    &&& forall|a: int, b: int|
        0 <= a < b < order.len() ==> comes_before(
            ids,
            measured,
            #[trigger] order[a] as int,
            #[trigger] order[b] as int,
        )
}

/// Whether `found` holds the statuses of `states` whose distance in `measured`
/// is at most `range`, the nearest first and those at the same distance by
/// the identifier of their aircraft.
pub open spec fn is_selection(
    found: Seq<StatusView>,
    states: Seq<StatusView>,
    measured: Seq<u32>,
    range: u32,
) -> bool {
    exists|order: Seq<usize>|
        {
            &&& #[trigger] is_nearest_first(order, ids_of(states), measured, range)
            &&& found.len() == order.len()
            &&& forall|k: int| 0 <= k < order.len() ==> found[k] == states[order[k] as int]
        }
}

/// Whether `measured` holds, for each status of `states` in order, a distance
/// that `distance` may give from `position` to the position of the status.
pub open spec fn is_measurement<F: Fn(&Position, &Position) -> u32>(
    distance: F,
    position: Position,
    states: Seq<StatusView>,
    measured: Seq<u32>,
) -> bool {
    &&& measured.len() == states.len()
    &&& forall|i: int|
        0 <= i < states.len() ==> distance.ensures(
            (&position, &states[i].position),
            #[trigger] measured[i],
        )
}

/// The views of statuses.
pub open spec fn states_view(states: Seq<Status>) -> Seq<StatusView> {
    states.map_values(|status: Status| status@)
}

/// How many statuses the store holds and when it last changed.
#[derive(Clone, Copy, Debug, PartialEq, Eq, Structural)]
pub struct Overview {
    /// Number of statuses in the store.
    pub count: usize,
    /// Time stamp of the newest status, if there is one.
    pub last_update: Option<u64>,
}

/// The store: the latest status of each aircraft, in the order in which the
/// aircraft first came in. Its view is that sequence of statuses.
pub struct App {
    states: Vec<Status>,
}

impl View for App {
    type V = Seq<StatusView>;

    closed spec fn view(&self) -> Seq<StatusView> {
        states_view(self.states@)
    }
}

/// Taking one more status adds it to the fresh ones taken so far where it is
/// not outdated, and leaves them as they are where it is.
proof fn lemma_fresh_step(states: Seq<StatusView>, now: u64, i: int)
    requires
        0 <= i < states.len(),
    ensures
        fresh(states.take(i + 1), now) == if is_outdated(states[i], now) {
            fresh(states.take(i), now)
        } else {
            fresh(states.take(i), now).push(states[i])
        },
{
    reveal(Seq::filter);
    assert(states.take(i + 1).drop_last() == states.take(i));
}

/// Where no status before `i` is of the aircraft `id`, the first one of it is
/// at or after `i`, and at `i` where that status is of it.
proof fn lemma_index_of_id(states: Seq<StatusView>, id: Seq<char>, i: int)
    requires
        0 <= i <= states.len(),
        forall|k: int| 0 <= k < i ==> states[k].aircraft.id != id,
    ensures
        i < states.len() && states[i].aircraft.id == id ==> index_of_id(states, id) == i,
        i == states.len() ==> index_of_id(states, id) == i,
    decreases i,
{
    if i > 0 {
        let rest = states.drop_first();
        lemma_index_of_id(rest, id, i - 1);
    }
}

/// Removes from `states` the statuses that are outdated at `now`.
fn retain_fresh(states: &mut Vec<Status>, now: u64)
    ensures
        states_view(final(states)@) == fresh(states_view(old(states)@), now),
        distinct_ids(states_view(old(states)@)) ==> distinct_ids(states_view(final(states)@)),
{
    let ghost before = states_view(states@);
    let ghost mut done: int = 0;
    let mut i: usize = 0;
    proof {
        reveal(Seq::filter);
        assert(before.take(0).len() == 0);
        assert(states_view(states@) == fresh(before.take(0), now) + before.skip(0));
    }
    while i < states.len()
        invariant
            0 <= done <= before.len(),
            before == states_view(old(states)@),
            i == fresh(before.take(done), now).len(),
            states_view(states@) == fresh(before.take(done), now) + before.skip(done),
            distinct_ids(before) ==> distinct_ids(states_view(states@)),
        decreases before.len() - done,
    {
        let ghost current = states_view(states@);
        proof {
            lemma_fresh_step(before, now, done);
            assert(current[i as int] == before.skip(done)[0]);
            assert(states@[i as int]@ == current[i as int]);
        }
        let outdated = now > states[i].time_stamp && now - states[i].time_stamp > MAX_AGE_DIFF;
        if outdated {
            states.remove(i);
            proof {
                let after = states_view(states@);
                assert(after =~= current.remove(i as int));
                assert(current.remove(i as int) =~= fresh(before.take(done + 1), now)
                    + before.skip(done + 1));
                if distinct_ids(before) {
                    assert forall|a: int, b: int|
                        0 <= a < b < after.len() implies after[a].aircraft.id
                        != after[b].aircraft.id by {
                        let a0 = if a < i {
                            a
                        } else {
                            a + 1
                        };
                        let b0 = if b < i {
                            b
                        } else {
                            b + 1
                        };
                        assert(after[a] == current[a0]);
                        assert(after[b] == current[b0]);
                    }
                }
            }
        } else {
            proof {
                assert(current =~= fresh(before.take(done + 1), now) + before.skip(done + 1));
            }
            i += 1;
        }
        proof {
            done = done + 1;
        }
    }
    proof {
        assert(before.skip(done).len() == 0);
        assert(before.take(done) == before);
        assert(states_view(states@) =~= fresh(before, now));
    }
}

/// Makes `status` the status of its aircraft in `states`.
fn upsert(states: &mut Vec<Status>, status: Status)
    ensures
        states_view(final(states)@) == upserted(states_view(old(states)@), status@),
        distinct_ids(states_view(old(states)@)) ==> distinct_ids(states_view(final(states)@)),
{
    let ghost before = states_view(states@);
    let ghost id = status@.aircraft.id;
    let mut i: usize = 0;
    while i < states.len()
        invariant
            i <= states.len(),
            states_view(states@) == before,
            before == states_view(old(states)@),
            id == status@.aircraft.id,
            forall|k: int| 0 <= k < i ==> before[k].aircraft.id != id,
        decreases states.len() - i,
    {
        if states[i].aircraft.id == status.aircraft.id {
            proof {
                lemma_index_of_id(before, id, i as int);
            }
            states.set(i, status);
            proof {
                let after = states_view(states@);
                if distinct_ids(before) {
                    assert forall|a: int, b: int|
                        0 <= a < b < after.len() implies after[a].aircraft.id
                        != after[b].aircraft.id by {
                        assert(after[a].aircraft.id == before[a].aircraft.id);
                        assert(after[b].aircraft.id == before[b].aircraft.id);
                    }
                }
            }
            return;
        }
        i += 1;
    }
    proof {
        lemma_index_of_id(before, id, i as int);
    }
    states.push(status);
    proof {
        let after = states_view(states@);
        if distinct_ids(before) {
            assert forall|a: int, b: int| 0 <= a < b < after.len() implies after[a].aircraft.id
                != after[b].aircraft.id by {
                if b < before.len() {
                    assert(after[b] == before[b]);
                } else {
                    assert(after[a] == before[a]);
                }
            }
        }
    }
}

/// The time stamp of the newest status of `states`.
fn last_update(states: &Vec<Status>) -> (latest: Option<u64>)
    ensures
        is_last_update(states_view(states@), latest),
{
    let ghost all = states_view(states@);
    let mut latest: Option<u64> = None;
    let mut i: usize = 0;
    while i < states.len()
        invariant
            i <= states.len(),
            all == states_view(states@),
            is_last_update(all.take(i as int), latest),
        decreases states.len() - i,
    {
        let time_stamp = states[i].time_stamp;
        let ghost before = all.take(i as int);
        let ghost after = all.take(i + 1);
        proof {
            assert(after[i as int].time_stamp == time_stamp);
            assert forall|k: int| 0 <= k < i implies after[k] == before[k] by {}
        }
        match latest {
            Some(known) if known >= time_stamp => {
                proof {
                    assert forall|k: int| 0 <= k < after.len() implies after[k].time_stamp
                        <= known by {}
                }
            },
            _ => {
                latest = Some(time_stamp);
            },
        }
        i += 1;
    }
    proof {
        assert(all.take(i as int) == all);
    }
    latest
}

/// No status comes before itself, and of two statuses not both come before
/// the other.
pub proof fn lemma_comes_before_strict(ids: Seq<Seq<char>>, measured: Seq<u32>, i: int, j: int)
    ensures
        !comes_before(ids, measured, i, i),
        !(comes_before(ids, measured, i, j) && comes_before(ids, measured, j, i)),
{
    lemma_text_before_irreflexive(ids[i]);
    if text_before(ids[i], ids[j]) && text_before(ids[j], ids[i]) {
        lemma_text_before_transitive(ids[i], ids[j], ids[i]);
    }
}

/// Of two statuses at different indices one comes before the other.
pub proof fn lemma_comes_before_total(ids: Seq<Seq<char>>, measured: Seq<u32>, i: int, j: int)
    ensures
        i == j || comes_before(ids, measured, i, j) || comes_before(ids, measured, j, i),
{
    lemma_text_before_total(ids[i], ids[j]);
}

/// What comes before a status comes before all that the status comes before.
pub proof fn lemma_comes_before_transitive(
    ids: Seq<Seq<char>>,
    measured: Seq<u32>,
    i: int,
    j: int,
    k: int,
)
    requires
        comes_before(ids, measured, i, j),
        comes_before(ids, measured, j, k),
    ensures
        comes_before(ids, measured, i, k),
{
    lemma_text_before_irreflexive(ids[i]);
    lemma_text_before_irreflexive(ids[j]);
    if text_before(ids[i], ids[j]) && text_before(ids[j], ids[k]) {
        lemma_text_before_transitive(ids[i], ids[j], ids[k]);
    }
}

/// Two lists of the indices within range, each nearest first, hold the same
/// index at every place that both have.
proof fn lemma_nearest_first_agree(
    first: Seq<usize>,
    second: Seq<usize>,
    ids: Seq<Seq<char>>,
    measured: Seq<u32>,
    range: u32,
    k: int,
)
    requires
        is_nearest_first(first, ids, measured, range),
        is_nearest_first(second, ids, measured, range),
        0 <= k < first.len(),
        k < second.len(),
    ensures
        first[k] == second[k],
    decreases k,
{
    assert forall|j: int| 0 <= j < k implies first[j] == second[j] by {
        lemma_nearest_first_agree(first, second, ids, measured, range, j);
    }
    if first[k] != second[k] {
        let x = first[k] as int;
        let y = second[k] as int;
        assert(measured[x] <= range);
        assert(measured[y] <= range);
        let in_second = choose|j: int| 0 <= j < second.len() && #[trigger] second[j] == x;
        let in_first = choose|j: int| 0 <= j < first.len() && #[trigger] first[j] == y;
        lemma_comes_before_strict(ids, measured, x, y);
        if in_second < k {
            assert(first[in_second] == second[in_second]);
            assert(comes_before(ids, measured, first[in_second] as int, first[k] as int));
        } else if in_first < k {
            assert(first[in_first] == second[in_first]);
            assert(comes_before(ids, measured, second[in_first] as int, second[k] as int));
            lemma_comes_before_strict(ids, measured, y, y);
        } else {
            assert(comes_before(ids, measured, second[k] as int, second[in_second] as int));
            assert(comes_before(ids, measured, first[k] as int, first[in_first] as int));
        }
    }
}

/// The order of a query's result is fixed by the distances and the
/// identifiers: there is one list of the indices within range that has the
/// nearest first.
pub proof fn lemma_nearest_first_unique(
    first: Seq<usize>,
    second: Seq<usize>,
    ids: Seq<Seq<char>>,
    measured: Seq<u32>,
    range: u32,
)
    requires
        is_nearest_first(first, ids, measured, range),
        is_nearest_first(second, ids, measured, range),
    ensures
        first == second,
{
    assert forall|k: int| 0 <= k < first.len() && k < second.len() implies first[k]
        == second[k] by {
        lemma_nearest_first_agree(first, second, ids, measured, range, k);
    }
    if first.len() < second.len() {
        let extra = second[first.len() as int] as int;
        assert(measured[extra] <= range);
        let at = choose|j: int| 0 <= j < first.len() && #[trigger] first[j] == extra;
        assert(first[at] == second[at]);
        assert(comes_before(ids, measured, second[at] as int, second[first.len() as int] as int));
        lemma_comes_before_strict(ids, measured, extra, extra);
    }
    if second.len() < first.len() {
        let extra = first[second.len() as int] as int;
        assert(measured[extra] <= range);
        let at = choose|j: int| 0 <= j < second.len() && #[trigger] second[j] == extra;
        assert(first[at] == second[at]);
        assert(comes_before(ids, measured, first[at] as int, first[second.len() as int] as int));
        lemma_comes_before_strict(ids, measured, extra, extra);
    }
    assert(first =~= second);
}

/// Two selections from the same statuses by the same distances and range are
/// the same.
pub proof fn lemma_selection_unique(
    first: Seq<StatusView>,
    second: Seq<StatusView>,
    states: Seq<StatusView>,
    measured: Seq<u32>,
    range: u32,
)
    requires
        is_selection(first, states, measured, range),
        is_selection(second, states, measured, range),
    ensures
        first == second,
{
    let order_first = choose|order: Seq<usize>|
        {
            &&& #[trigger] is_nearest_first(order, ids_of(states), measured, range)
            &&& first.len() == order.len()
            &&& forall|k: int| 0 <= k < order.len() ==> first[k] == states[order[k] as int]
        };
    let order_second = choose|order: Seq<usize>|
        {
            &&& #[trigger] is_nearest_first(order, ids_of(states), measured, range)
            &&& second.len() == order.len()
            &&& forall|k: int| 0 <= k < order.len() ==> second[k] == states[order[k] as int]
        };
    lemma_nearest_first_unique(order_first, order_second, ids_of(states), measured, range);
    assert(first =~= second);
}

/// Whether `states` holds `status` with the distance `distance` in `measured`.
pub open spec fn holds_measured(
    states: Seq<StatusView>,
    measured: Seq<u32>,
    status: StatusView,
    distance: u32,
) -> bool {
    exists|i: int|
        0 <= i < states.len() && #[trigger] states[i] == status && measured[i] == distance
}

/// Whether every status of `states` stands in `others` too, with the same
/// distance.
pub open spec fn is_held_by(
    states: Seq<StatusView>,
    measured: Seq<u32>,
    others: Seq<StatusView>,
    others_measured: Seq<u32>,
) -> bool {
    forall|i: int|
        0 <= i < states.len() ==> holds_measured(
            others,
            others_measured,
            #[trigger] states[i],
            measured[i],
        )
}

/// Two lists of indices, each nearest first for its own statuses, name the
/// same status at every place that both have, where the two sequences of
/// statuses hold the same statuses with the same distances.
proof fn lemma_orders_agree(
    first: Seq<usize>,
    states: Seq<StatusView>,
    measured: Seq<u32>,
    second: Seq<usize>,
    others: Seq<StatusView>,
    others_measured: Seq<u32>,
    range: u32,
    k: int,
)
    requires
        is_nearest_first(first, ids_of(states), measured, range),
        is_nearest_first(second, ids_of(others), others_measured, range),
        measured.len() == states.len(),
        others_measured.len() == others.len(),
        distinct_ids(states),
        distinct_ids(others),
        is_held_by(states, measured, others, others_measured),
        is_held_by(others, others_measured, states, measured),
        0 <= k < first.len(),
        k < second.len(),
    ensures
        states[first[k] as int] == others[second[k] as int],
        measured[first[k] as int] == others_measured[second[k] as int],
    decreases k,
{
    let ids = ids_of(states);
    let other_ids = ids_of(others);
    assert forall|j: int| 0 <= j < k implies states[first[j] as int] == others[second[j] as int]
        by {
        lemma_orders_agree(first, states, measured, second, others, others_measured, range, j);
    }
    let x = first[k] as int;
    let y = second[k] as int;
    assert(measured[x] <= range);
    assert(others_measured[y] <= range);
    // where the status of `x` stands among the others, and in their list
    assert(holds_measured(others, others_measured, states[x], measured[x]));
    let x_there = choose|i: int|
        0 <= i < others.len() && #[trigger] others[i] == states[x] && others_measured[i]
            == measured[x];
    assert(others_measured[x_there] <= range);
    let x_listed = choose|j: int| 0 <= j < second.len() && #[trigger] second[j] == x_there;
    // where the status of `y` stands among the statuses, and in their list
    assert(holds_measured(states, measured, others[y], others_measured[y]));
    let y_here = choose|i: int|
        0 <= i < states.len() && #[trigger] states[i] == others[y] && measured[i]
            == others_measured[y];
    assert(measured[y_here] <= range);
    let y_listed = choose|j: int| 0 <= j < first.len() && #[trigger] first[j] == y_here;
    lemma_comes_before_strict(ids, measured, x, x);
    lemma_comes_before_strict(other_ids, others_measured, y, y);
    if x_listed < k {
        // the status of `x` stands twice in the first list
        assert(states[first[x_listed] as int] == others[second[x_listed] as int]);
        assert(comes_before(ids, measured, first[x_listed] as int, first[k] as int));
        lemma_same_status_same_index(states, first[x_listed] as int, x);
    } else if y_listed < k {
        // the status of `y` stands twice in the second list
        assert(states[first[y_listed] as int] == others[second[y_listed] as int]);
        assert(comes_before(other_ids, others_measured, second[y_listed] as int, second[k] as int));
        lemma_same_status_same_index(others, second[y_listed] as int, y);
    } else if x_listed > k && y_listed > k {
        // each of the two comes before the other
        assert(comes_before(other_ids, others_measured, y, x_there));
        assert(comes_before(ids, measured, x, y_here));
        lemma_same_status_same_index(others, y, x_there);
        lemma_same_status_same_index(states, x, y_here);
        lemma_text_before_irreflexive(states[x].aircraft.id);
        if text_before(states[x].aircraft.id, others[y].aircraft.id) && text_before(
            others[y].aircraft.id,
            states[x].aircraft.id,
        ) {
            lemma_text_before_transitive(
                states[x].aircraft.id,
                others[y].aircraft.id,
                states[x].aircraft.id,
            );
        }
    }
}

/// Two statuses of the same aircraft stand at the same index, where no two
/// statuses are of the same aircraft.
proof fn lemma_same_status_same_index(states: Seq<StatusView>, i: int, j: int)
    requires
        distinct_ids(states),
        0 <= i < states.len(),
        0 <= j < states.len(),
    ensures
        states[i].aircraft.id == states[j].aircraft.id ==> i == j,
{
}

/// The order in which the statuses came into the store has no part in the
/// result of a query: two selections are the same where they are made from
/// the same statuses with the same distances, in whatever order these stand.
pub proof fn lemma_selection_ignores_order(
    found: Seq<StatusView>,
    states: Seq<StatusView>,
    measured: Seq<u32>,
    other_found: Seq<StatusView>,
    others: Seq<StatusView>,
    others_measured: Seq<u32>,
    range: u32,
)
    requires
        is_selection(found, states, measured, range),
        is_selection(other_found, others, others_measured, range),
        measured.len() == states.len(),
        others_measured.len() == others.len(),
        distinct_ids(states),
        distinct_ids(others),
        is_held_by(states, measured, others, others_measured),
        is_held_by(others, others_measured, states, measured),
    ensures
        found == other_found,
{
    let first = choose|order: Seq<usize>|
        {
            &&& #[trigger] is_nearest_first(order, ids_of(states), measured, range)
            &&& found.len() == order.len()
            &&& forall|k: int| 0 <= k < order.len() ==> found[k] == states[order[k] as int]
        };
    let second = choose|order: Seq<usize>|
        {
            &&& #[trigger] is_nearest_first(order, ids_of(others), others_measured, range)
            &&& other_found.len() == order.len()
            &&& forall|k: int| 0 <= k < order.len() ==> other_found[k] == others[order[k] as int]
        };
    assert forall|k: int| 0 <= k < first.len() && k < second.len() implies found[k]
        == other_found[k] by {
        lemma_orders_agree(first, states, measured, second, others, others_measured, range, k);
    }
    if first.len() < second.len() {
        lemma_order_no_longer(second, others, others_measured, first, states, measured, range);
    }
    if second.len() < first.len() {
        lemma_order_no_longer(first, states, measured, second, others, others_measured, range);
    }
    assert(found =~= other_found);
}

/// A list of indices, nearest first, is no longer than one for statuses that
/// hold all of its own.
proof fn lemma_order_no_longer(
    first: Seq<usize>,
    states: Seq<StatusView>,
    measured: Seq<u32>,
    second: Seq<usize>,
    others: Seq<StatusView>,
    others_measured: Seq<u32>,
    range: u32,
)
    requires
        is_nearest_first(first, ids_of(states), measured, range),
        is_nearest_first(second, ids_of(others), others_measured, range),
        measured.len() == states.len(),
        others_measured.len() == others.len(),
        distinct_ids(states),
        distinct_ids(others),
        is_held_by(states, measured, others, others_measured),
        is_held_by(others, others_measured, states, measured),
    ensures
        first.len() <= second.len(),
{
    if first.len() > second.len() {
        let x = first[second.len() as int] as int;
        assert(measured[x] <= range);
        assert(holds_measured(others, others_measured, states[x], measured[x]));
        let x_there = choose|i: int|
            0 <= i < others.len() && #[trigger] others[i] == states[x] && others_measured[i]
                == measured[x];
        assert(others_measured[x_there] <= range);
        let x_listed = choose|j: int| 0 <= j < second.len() && #[trigger] second[j] == x_there;
        lemma_orders_agree(
            first,
            states,
            measured,
            second,
            others,
            others_measured,
            range,
            x_listed,
        );
        assert(comes_before(
            ids_of(states),
            measured,
            first[x_listed] as int,
            first[second.len() as int] as int,
        ));
        lemma_comes_before_strict(ids_of(states), measured, x, x);
        lemma_same_status_same_index(states, first[x_listed] as int, x);
    }
}

/// Whether `status` is one of the statuses of `states` whose distance in
/// `measured` is at most `range`.
pub open spec fn is_within(
    status: StatusView,
    states: Seq<StatusView>,
    measured: Seq<u32>,
    range: u32,
) -> bool {
    exists|i: int|
        0 <= i < states.len() && #[trigger] measured[i] <= range && states[i] == status
}

/// A selection holds exactly the statuses within range: each status in it is
/// one of the statuses with a distance of at most `range`, and each such
/// status is in it.
pub proof fn lemma_selection_members(
    found: Seq<StatusView>,
    states: Seq<StatusView>,
    measured: Seq<u32>,
    range: u32,
)
    requires
        is_selection(found, states, measured, range),
        measured.len() == states.len(),
    ensures
        forall|k: int|
            0 <= k < found.len() ==> is_within(#[trigger] found[k], states, measured, range),
        forall|i: int|
            0 <= i < states.len() && #[trigger] measured[i] <= range ==> found.contains(
                states[i],
            ),
{
    let order = choose|order: Seq<usize>|
        {
            &&& #[trigger] is_nearest_first(order, ids_of(states), measured, range)
            &&& found.len() == order.len()
            &&& forall|k: int| 0 <= k < order.len() ==> found[k] == states[order[k] as int]
        };
    assert forall|k: int| 0 <= k < found.len() implies is_within(
        #[trigger] found[k],
        states,
        measured,
        range,
    ) by {
        assert(measured[order[k] as int] <= range);
    }
    assert forall|i: int|
        0 <= i < states.len() && #[trigger] measured[i] <= range implies found.contains(
        states[i],
    ) by {
        let k = choose|k: int| 0 <= k < order.len() && #[trigger] order[k] == i;
        assert(found[k] == states[i]);
    }
}

/// After the outdated statuses have left, none of those that stay is
/// outdated, each of them was there before, and each that was there and is
/// not outdated stays.
pub proof fn lemma_fresh(states: Seq<StatusView>, now: u64)
    ensures
        forall|i: int|
            0 <= i < fresh(states, now).len() ==> !is_outdated(
                #[trigger] fresh(states, now)[i],
                now,
            ) && states.contains(fresh(states, now)[i]),
        forall|i: int|
            0 <= i < states.len() && !is_outdated(#[trigger] states[i], now) ==> fresh(
                states,
                now,
            ).contains(states[i]),
        fresh(states, now).len() <= states.len(),
{
    let keep = |status: StatusView| !is_outdated(status, now);
    assert forall|i: int| 0 <= i < fresh(states, now).len() implies !is_outdated(
        #[trigger] fresh(states, now)[i],
        now,
    ) && states.contains(fresh(states, now)[i]) by {
        states.lemma_filter_pred(keep, i);
        states.lemma_filter_contains_rev(keep, fresh(states, now)[i]);
    }
    assert forall|i: int|
        0 <= i < states.len() && !is_outdated(#[trigger] states[i], now) implies fresh(
        states,
        now,
    ).contains(states[i]) by {
        states.lemma_filter_contains(keep, i);
    }
    states.lemma_filter_len(keep);
}

/// Whether the status at index `i` comes before the one at index `j`.
fn precedes(ids: &Vec<Vec<char>>, measured: &Vec<u32>, i: usize, j: usize) -> (before: bool)
    requires
        ids.len() == measured.len(),
        i < measured.len(),
        j < measured.len(),
    ensures
        before == comes_before(fields_view(ids@), measured@, i as int, j as int),
{
    proof {
        lemma_text_before_irreflexive(ids@[i as int]@);
        lemma_text_before_total(ids@[i as int]@, ids@[j as int]@);
        assert(fields_view(ids@)[i as int] == ids@[i as int]@);
        assert(fields_view(ids@)[j as int] == ids@[j as int]@);
    }
    if measured[i] != measured[j] {
        measured[i] < measured[j]
    } else if stands_before(&ids[i], &ids[j]) {
        true
    } else if stands_before(&ids[j], &ids[i]) {
        false
    } else {
        i < j
    }
}

/// The indices of the distances of `measured` that are at most `range`, the
/// nearest first and those of equal distances by the identifiers `ids`.
fn nearest_first(ids: &Vec<Vec<char>>, measured: &Vec<u32>, range: u32) -> (order: Vec<usize>)
    requires
        ids.len() == measured.len(),
    ensures
        is_nearest_first(order@, fields_view(ids@), measured@, range),
{
    let ghost keys = fields_view(ids@);
    let mut order: Vec<usize> = Vec::new();
    let mut i: usize = 0;
    while i < measured.len()
        invariant
            i <= measured.len(),
            ids.len() == measured.len(),
            keys == fields_view(ids@),
            forall|k: int|
                0 <= k < order.len() ==> #[trigger] order[k] < i && measured[order[k] as int]
                    <= range,
            forall|j: int|
                0 <= j < i && #[trigger] measured[j] <= range ==> exists|k: int|
                    0 <= k < order.len() && #[trigger] order[k] == j,
            forall|a: int, b: int|
                0 <= a < b < order.len() ==> comes_before(
                    keys,
                    measured@,
                    #[trigger] order[a] as int,
                    #[trigger] order[b] as int,
                ),
        decreases measured.len() - i,
    {
        if measured[i] <= range {
            let mut at: usize = order.len();
            while at > 0 && precedes(ids, measured, i, order[at - 1])
                invariant
                    at <= order.len(),
                    i < measured.len(),
                    ids.len() == measured.len(),
                    keys == fields_view(ids@),
                    forall|k: int| 0 <= k < order.len() ==> #[trigger] order[k] < i,
                    forall|k: int|
                        at <= k < order.len() ==> comes_before(
                            keys,
                            measured@,
                            i as int,
                            #[trigger] order[k] as int,
                        ),
                decreases at,
            {
                at -= 1;
            }
            let ghost before = order@;
            order.insert(at, i);
            proof {
                let after = order@;
                assert forall|k: int| 0 <= k < at implies comes_before(
                    keys,
                    measured@,
                    #[trigger] before[k] as int,
                    i as int,
                ) by {
                    lemma_comes_before_total(keys, measured@, before[at - 1] as int, i as int);
                    if k < at - 1 {
                        lemma_comes_before_transitive(
                            keys,
                            measured@,
                            before[k] as int,
                            before[at - 1] as int,
                            i as int,
                        );
                    }
                }
                assert forall|a: int, b: int| 0 <= a < b < after.len() implies comes_before(
                    keys,
                    measured@,
                    #[trigger] after[a] as int,
                    #[trigger] after[b] as int,
                ) by {
                    if b < at {
                        assert(after[a] == before[a] && after[b] == before[b]);
                    } else if b == at {
                        assert(after[a] == before[a]);
                    } else if a < at {
                        assert(after[a] == before[a] && after[b] == before[b - 1]);
                    } else if a == at {
                        assert(after[b] == before[b - 1]);
                    } else {
                        assert(after[a] == before[a - 1] && after[b] == before[b - 1]);
                    }
                }
                assert forall|j: int|
                    0 <= j < i + 1 && #[trigger] measured[j] <= range implies exists|k: int|
                    0 <= k < after.len() && #[trigger] after[k] == j by {
                    if j == i {
                        assert(after[at as int] == j);
                    } else {
                        let k0 = choose|k: int| 0 <= k < before.len() && #[trigger] before[k] == j;
                        if k0 < at {
                            assert(after[k0] == j);
                        } else {
                            assert(after[k0 + 1] == j);
                        }
                    }
                }
                assert forall|k: int| 0 <= k < after.len() implies #[trigger] after[k] < i + 1
                    && measured[after[k] as int] <= range by {
                    if k < at {
                        assert(after[k] == before[k]);
                    } else if k > at {
                        assert(after[k] == before[k - 1]);
                    }
                }
            }
        }
        i += 1;
    }
    order
}

/// The characters of the identifiers of the aircraft of `states`, in order.
fn ids_in(states: &Vec<Status>) -> (ids: Vec<Vec<char>>)
    ensures
        ids.len() == states.len(),
        fields_view(ids@) == ids_of(states_view(states@)),
{
    let mut ids: Vec<Vec<char>> = Vec::new();
    let mut i: usize = 0;
    while i < states.len()
        invariant
            i <= states.len(),
            ids.len() == i,
            forall|k: int| 0 <= k < i ==> #[trigger] ids@[k]@ == states@[k]@.aircraft.id,
        decreases states.len() - i,
    {
        ids.push(chars_of(states[i].aircraft.id.as_str()));
        i += 1;
    }
    proof {
        assert(fields_view(ids@) =~= ids_of(states_view(states@)));
    }
    ids
}

/// Copies of the statuses of `states` at the indices `order`, in that order.
fn select(states: &Vec<Status>, order: &Vec<usize>) -> (found: Vec<Status>)
    requires
        forall|k: int| 0 <= k < order.len() ==> #[trigger] order[k] < states.len(),
    ensures
        found.len() == order.len(),
        forall|k: int|
            0 <= k < order.len() ==> #[trigger] states_view(found@)[k] == states_view(
                states@,
            )[order[k] as int],
{
    let mut found: Vec<Status> = Vec::new();
    let mut k: usize = 0;
    while k < order.len()
        invariant
            k <= order.len(),
            found.len() == k,
            forall|j: int| 0 <= j < order.len() ==> #[trigger] order[j] < states.len(),
            forall|j: int| 0 <= j < k ==> #[trigger] found@[j]@ == states@[order[j] as int]@,
        decreases order.len() - k,
    {
        let copy = states[order[k]].clone();
        found.push(copy);
        k += 1;
    }
    found
}

impl App {
    #[verifier::type_invariant]
    spec fn one_status_per_aircraft(&self) -> bool {
        distinct_ids(states_view(self.states@))
    }

    /// An empty store.
    pub fn create() -> (app: App)
        ensures
            app@ == Seq::<StatusView>::empty(),
    {
        App { states: Vec::new() }
    }

    /// The statuses in the store, in its order; no two of them are of the
    /// same aircraft.
    pub fn states(&self) -> (states: &Vec<Status>)
        ensures
            states_view(states@) == self@,
            distinct_ids(self@),
    {
        proof {
            use_type_invariant(self);
        }
        &self.states
    }

    /// Removes the statuses that are outdated at `now`.
    pub fn remove_outdated_states(&mut self, now: u64)
        ensures
            final(self)@ == fresh(old(self)@, now),
    {
        proof {
            use_type_invariant(&*self);
        }
        let mut states: Vec<Status> = Vec::new();
        core::mem::swap(&mut self.states, &mut states);
        retain_fresh(&mut states, now);
        core::mem::swap(&mut self.states, &mut states);
    }

    /// Removes the statuses that are outdated at `now`, then makes
    /// `new_status` the status of its aircraft.
    pub fn push_status_at(&mut self, new_status: Status, now: u64)
        ensures
            final(self)@ == upserted(fresh(old(self)@, now), new_status@),
    {
        proof {
            use_type_invariant(&*self);
        }
        let mut states: Vec<Status> = Vec::new();
        core::mem::swap(&mut self.states, &mut states);
        retain_fresh(&mut states, now);
        upsert(&mut states, new_status);
        core::mem::swap(&mut self.states, &mut states);
    }

    /// Removes the statuses that are outdated at the time of the call, then
    /// makes `new_status` the status of its aircraft.
    pub fn push_status(&mut self, new_status: Status)
        ensures
            exists|now: u64|
                final(self)@ == upserted(#[trigger] fresh(old(self)@, now), new_status@),
    {
        self.push_status_at(new_status, get_current_timestamp());
    }

    /// Removes the statuses that are outdated at `now`, then says how many are
    /// left and which time stamp is the newest among them.
    pub fn get_overview_at(&mut self, now: u64) -> (overview: Overview)
        ensures
            final(self)@ == fresh(old(self)@, now),
            overview.count == final(self)@.len(),
            is_last_update(final(self)@, overview.last_update),
    {
        self.remove_outdated_states(now);
        Overview { count: self.states.len(), last_update: last_update(&self.states) }
    }

    /// Removes the statuses that are outdated at the time of the call, then
    /// says how many are left and which time stamp is the newest among them.
    pub fn get_overview(&mut self) -> (overview: Overview)
        ensures
            exists|now: u64| final(self)@ == #[trigger] fresh(old(self)@, now),
            overview.count == final(self)@.len(),
            is_last_update(final(self)@, overview.last_update),
    {
        self.get_overview_at(get_current_timestamp())
    }

    /// Removes the statuses that are outdated at `now`, then hands out copies
    /// of those whose distance from `position`, as `distance` gives it, is at
    /// most `range`: the nearest first, and those at the same distance by the
    /// identifier of their aircraft. `distance` and `range` count in the same
    /// unit.
    pub fn get_filtered_states_at<F: Fn(&Position, &Position) -> u32>(
        &mut self,
        position: &Position,
        range: u32,
        distance: F,
        now: u64,
    ) -> (found: Vec<Status>)
        requires
            forall|from: Position, to: Position| distance.requires((&from, &to)),
        ensures
            final(self)@ == fresh(old(self)@, now),
            exists|measured: Seq<u32>|
                {
                    &&& #[trigger] is_measurement(distance, *position, final(self)@, measured)
                    &&& is_selection(states_view(found@), final(self)@, measured, range)
                },
    {
        self.remove_outdated_states(now);
        let mut measured: Vec<u32> = Vec::new();
        let mut i: usize = 0;
        while i < self.states.len()
            invariant
                i <= self.states.len(),
                measured.len() == i,
                forall|from: Position, to: Position| distance.requires((&from, &to)),
                forall|k: int|
                    0 <= k < i ==> distance.ensures(
                        (position, &self.states@[k].position),
                        #[trigger] measured@[k],
                    ),
            decreases self.states.len() - i,
        {
            let to = &self.states[i].position;
            measured.push(distance(position, to));
            i += 1;
        }
        let ids = ids_in(&self.states);
        let order = nearest_first(&ids, &measured, range);
        let found = select(&self.states, &order);
        proof {
            assert(is_measurement(distance, *position, self@, measured@));
            assert(is_nearest_first(order@, ids_of(self@), measured@, range));
        }
        found
    }

    /// Removes the statuses that are outdated at the time of the call, then
    /// hands out copies of those within `range` of `position`, the nearest
    /// first.
    pub fn get_filtered_states<F: Fn(&Position, &Position) -> u32>(
        &mut self,
        position: &Position,
        range: u32,
        distance: F,
    ) -> (found: Vec<Status>)
        requires
            forall|from: Position, to: Position| distance.requires((&from, &to)),
        ensures
            exists|now: u64| final(self)@ == #[trigger] fresh(old(self)@, now),
            exists|measured: Seq<u32>|
                {
                    &&& #[trigger] is_measurement(distance, *position, final(self)@, measured)
                    &&& is_selection(states_view(found@), final(self)@, measured, range)
                },
    {
        self.get_filtered_states_at(position, range, distance, get_current_timestamp())
    }
}

} // verus!
