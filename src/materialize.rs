use vstd::prelude::*;

use crate::date::CalendarDate;
use crate::error::CoreError;
use crate::ledger::{
    active_rituals, lemma_active_rituals_distinct, lemma_active_rituals_members, Day, DayRitual,
    DayRitualView, DayView, Ritual, RitualView, Store, StoreView,
};
use crate::repeatable::{is_due, is_due_on, Repeatable};

verus! {

/// Whether ritual `r` is tracked on `date`: it is active, it has a cadence, and
/// the cadence falls on `date`.
pub open spec fn due_on(r: RitualView, date: CalendarDate) -> bool {
    &&& r.active
    &&& r.frequency matches Some(f) && is_due_on(f, r.anchor, date)
}

/// Whether `records` holds a record of ritual `ritual_id` on day `day_id`.
pub open spec fn has_pair(records: Seq<DayRitualView>, day_id: int, ritual_id: int) -> bool {
    exists|i: int|
        0 <= i < records.len() && records[i].day_id == day_id && records[i].ritual_id == ritual_id
}

/// The records that materializing `day` creates: one, not completed, for each ritual
/// of `rituals` in turn that is due on the day and has no record of it in `records`.
pub open spec fn new_records(
    rituals: Seq<RitualView>,
    records: Seq<DayRitualView>,
    day: DayView,
) -> Seq<DayRitualView>
    decreases rituals.len(),
{
    if rituals.len() == 0 {
        Seq::empty()
    } else {
        let rest = new_records(rituals.drop_last(), records, day);
        let r = rituals.last();
        if due_on(r, day.date) && !has_pair(records, day.id, r.id) {
            rest.push(DayRitualView { day_id: day.id, ritual_id: r.id, completed: false })
        } else {
            rest
        }
    }
}

/// The records that materializing `day` creates in store `s`, from its active rituals.
pub open spec fn created_records(s: StoreView, day: DayView) -> Seq<DayRitualView> {
    new_records(active_rituals(s.rituals), s.records, day)
}

/// The store after materializing `day`: the new records follow the existing ones.
pub open spec fn materialized(s: StoreView, day: DayView) -> StoreView {
    StoreView { records: s.records + created_records(s, day), ..s }
}

/// The stored day with identifier `id`.
pub open spec fn stored_day(s: StoreView, id: int) -> DayView {
    s.days[choose|i: int| 0 <= i < s.days.len() && s.days[i].id == id]
}

/// Creates the completion records of `day` for the rituals that are due on it and
/// have none yet, and returns the records it created. Existing records are kept as
/// they are, so a second call for the same day creates nothing.
pub fn materialize(cx: &mut Store, day: &Day) -> (r: Result<Vec<DayRitual>, CoreError>)
    requires
        old(cx)@.wf(),
    ensures
        final(cx)@.wf(),
        r is Ok <==> old(cx)@.has_day_id(day@.id),
        r is Err ==> r == Err::<Vec<DayRitual>, CoreError>(CoreError::NotFound) && final(cx)@ == old(
            cx,
        )@,
        r matches Ok(v) ==> {
            let d = stored_day(old(cx)@, day@.id);
            &&& v@.map_values(|c: DayRitual| c@) == created_records(old(cx)@, d)
            &&& final(cx)@ == materialized(old(cx)@, d)
        },
{
    let ghost s = cx@;
    let stored = match Day::get(cx, day.id()) {
        Ok(d) => d,
        Err(e) => {
            return Err(e);
        },
    };
    let ghost d = stored_day(s, day@.id);
    proof {
        let k = choose|k: int| 0 <= k < s.days.len() && s.days[k] == stored@;
        let j = choose|j: int| 0 <= j < s.days.len() && s.days[j].id == day@.id;
        if j < k {
            assert(s.days[j].id != s.days[k].id);
        } else if k < j {
            assert(s.days[k].id != s.days[j].id);
        }
        assert(stored@ == d);
        assert(d.date.is_valid());
    }
    let active = Ritual::list_active(cx);
    let ghost act = active_rituals(s.rituals);
    proof {
        lemma_active_rituals_distinct(s.rituals);
        assert forall|j: int| 0 <= j < act.len() implies s.has_ritual_id(#[trigger] act[j].id) by {
            lemma_active_rituals_members(s.rituals, j);
        }
    }
    let n = active.len();
    let mut created: Vec<DayRitual> = Vec::new();
    let mut i: usize = 0;
    assert(s.records + created@.map_values(|c: DayRitual| c@) =~= s.records);
    assert(act.take(0) =~= Seq::<RitualView>::empty());
    while i < n
        invariant
            s.wf(),
            cx@.wf(),
            active@.map_values(|v: Ritual| v@) == act,
            act == active_rituals(s.rituals),
            n == act.len(),
            i <= n,
            stored@ == d,
            s.has_day_id(d.id),
            d.date.is_valid(),
            forall|a: int, b: int| 0 <= a < b < act.len() ==> act[a].id != act[b].id,
            forall|j: int| 0 <= j < act.len() ==> s.has_ritual_id(#[trigger] act[j].id),
            cx@ == (StoreView { records: s.records + created@.map_values(|c: DayRitual| c@), ..s }),
            created@.map_values(|c: DayRitual| c@) == new_records(act.take(i as int), s.records, d),
            forall|k: int, j: int|
                0 <= k < created@.len() && i <= j < n ==> (#[trigger] created@[k])@.ritual_id
                    != (#[trigger] act[j]).id,
        decreases n - i,
    {
        let ghost before = created@.map_values(|c: DayRitual| c@);
        let r = &active[i];
        let rid = r.id();
        assert(act[i as int] == r@);
        assert(act.take(i + 1).drop_last() =~= act.take(i as int));
        assert(act.take(i + 1).last() == act[i as int]);
        proof {
            lemma_active_rituals_members(s.rituals, i as int);
            let m = choose|m: int| 0 <= m < s.rituals.len() && s.rituals[m] == act[i as int];
            assert(s.rituals[m].anchor.is_valid());
        }
        let mut due = false;
        if r.active() {
            match r.frequency() {
                Some(f) => {
                    due = is_due(*f, &r.anchor(), stored.date());
                },
                None => {},
            }
        }
        assert(due == due_on(r@, d.date));
        if due {
            let found = DayRitual::get(cx, stored.id(), rid).is_ok();
            proof {
                let all = s.records + before;
                if has_pair(s.records, d.id, rid as int) {
                    let k = choose|k: int|
                        0 <= k < s.records.len() && s.records[k].day_id == d.id
                            && s.records[k].ritual_id == rid;
                    assert(all[k] == s.records[k]);
                    assert(cx@.records[k] == s.records[k]);
                    assert(cx@.has_record(d.id, rid as int));
                }
                assert(stored@.id == d.id);
                if cx@.has_record(d.id, rid as int) {
                    let k = choose|k: int|
                        0 <= k < all.len() && all[k].day_id == d.id && all[k].ritual_id == rid;
                    if k >= s.records.len() {
                        assert(all[k] == before[k - s.records.len()]);
                        assert(created@[k - s.records.len()]@.ritual_id != act[i as int].id);
                    } else {
                        assert(all[k] == s.records[k]);
                    }
                    assert(has_pair(s.records, d.id, rid as int));
                }
                assert(found == has_pair(s.records, d.id, rid as int));
            }
            if !found {
                assert(cx@.has_ritual_id(rid as int)) by {
                    assert(s.has_ritual_id(act[i as int].id));
                }
                match DayRitual::new(cx, stored.id(), rid) {
                    Ok(c) => {
                        created.push(c);
                        assert(created@.map_values(|c: DayRitual| c@) =~= before.push(c@));
                        assert(s.records + created@.map_values(|c: DayRitual| c@) =~= (s.records
                            + before).push(c@));
                        assert forall|k: int, j: int|
                            0 <= k < created@.len() && i + 1 <= j < n implies (
                            #[trigger] created@[k])@.ritual_id != (#[trigger] act[j]).id by {
                            if k == created@.len() - 1 {
                                assert(act[i as int].id != act[j].id);
                            }
                        }
                    },
                    Err(e) => {
                        return Err(e);
                    },
                }
            }
        }
        i = i + 1;
    }
    assert(act.take(n as int) =~= act);
    Ok(created)
}

/// Each record that materializing creates is a fresh, not completed record of `day`
/// for a ritual of `rituals` that is due on it.
pub proof fn lemma_new_records_are_due(
    rituals: Seq<RitualView>,
    records: Seq<DayRitualView>,
    day: DayView,
    k: int,
)
    requires
        0 <= k < new_records(rituals, records, day).len(),
    ensures
        ({
            let c = new_records(rituals, records, day)[k];
            &&& c.day_id == day.id
            &&& !c.completed
            &&& exists|j: int|
                0 <= j < rituals.len() && rituals[j].id == c.ritual_id && due_on(
                    #[trigger] rituals[j],
                    day.date,
                )
        }),
    decreases rituals.len(),
{
    let rest = new_records(rituals.drop_last(), records, day);
    if k < rest.len() {
        lemma_new_records_are_due(rituals.drop_last(), records, day, k);
        let c = rest[k];
        let j = choose|j: int|
            0 <= j < rituals.drop_last().len() && rituals.drop_last()[j].id == c.ritual_id
                && due_on(#[trigger] rituals.drop_last()[j], day.date);
        assert(rituals[j] == rituals.drop_last()[j]);
    } else {
        assert(rituals[rituals.len() - 1] == rituals.last());
    }
}

/// Materializing creates a record for every ritual that is due on the day and has none.
proof fn lemma_new_records_cover(
    rituals: Seq<RitualView>,
    records: Seq<DayRitualView>,
    day: DayView,
    j: int,
)
    requires
        0 <= j < rituals.len(),
        due_on(rituals[j], day.date),
        !has_pair(records, day.id, rituals[j].id),
    ensures
        has_pair(new_records(rituals, records, day), day.id, rituals[j].id),
    decreases rituals.len(),
{
    let rest = new_records(rituals.drop_last(), records, day);
    if j < rituals.len() - 1 {
        assert(rituals.drop_last()[j] == rituals[j]);
        lemma_new_records_cover(rituals.drop_last(), records, day, j);
        let k = choose|k: int|
            0 <= k < rest.len() && rest[k].day_id == day.id && rest[k].ritual_id == rituals[j].id;
        let all = new_records(rituals, records, day);
        if due_on(rituals.last(), day.date) && !has_pair(records, day.id, rituals.last().id) {
            assert(all[k] == rest[k]);
        }
    } else {
        let all = new_records(rituals, records, day);
        assert(all[all.len() - 1].ritual_id == rituals[j].id);
    }
}

/// Where every due ritual already has a record of `day`, materializing creates nothing.
proof fn lemma_nothing_when_covered(rituals: Seq<RitualView>, records: Seq<DayRitualView>, day: DayView)
    requires
        forall|j: int|
            0 <= j < rituals.len() && due_on(#[trigger] rituals[j], day.date) ==> has_pair(
                records,
                day.id,
                rituals[j].id,
            ),
    ensures
        new_records(rituals, records, day) == Seq::<DayRitualView>::empty(),
    decreases rituals.len(),
{
    if rituals.len() > 0 {
        assert forall|j: int|
            0 <= j < rituals.drop_last().len() && due_on(
                #[trigger] rituals.drop_last()[j],
                day.date,
            ) implies has_pair(records, day.id, rituals.drop_last()[j].id) by {
            assert(rituals.drop_last()[j] == rituals[j]);
        }
        lemma_nothing_when_covered(rituals.drop_last(), records, day);
        assert(rituals.last() == rituals[rituals.len() - 1]);
    }
}

/// Materializing a day a second time changes nothing, and materializing never
/// alters a record that was there before, so no completed flag is reset.
pub proof fn lemma_materialize_idempotent(s: StoreView, day: DayView)
    ensures
        materialized(materialized(s, day), day) == materialized(s, day),
        s.records.len() <= materialized(s, day).records.len(),
        forall|k: int|
            0 <= k < s.records.len() ==> #[trigger] materialized(s, day).records[k] == s.records[k],
{
    let act = active_rituals(s.rituals);
    let created = created_records(s, day);
    let all = s.records + created;
    assert forall|j: int|
        0 <= j < act.len() && due_on(#[trigger] act[j], day.date) implies has_pair(
        all,
        day.id,
        act[j].id,
    ) by {
        if has_pair(s.records, day.id, act[j].id) {
            let k = choose|k: int|
                0 <= k < s.records.len() && s.records[k].day_id == day.id && s.records[k].ritual_id
                    == act[j].id;
            assert(all[k] == s.records[k]);
        } else {
            lemma_new_records_cover(act, s.records, day, j);
            let k = choose|k: int|
                0 <= k < created.len() && created[k].day_id == day.id && created[k].ritual_id
                    == act[j].id;
            assert(all[s.records.len() + k] == created[k]);
        }
    }
    lemma_nothing_when_covered(act, all, day);
    assert(all + Seq::<DayRitualView>::empty() =~= all);
}

/// A ritual without a frequency never gets a record from materializing, on any day.
pub proof fn lemma_manual_rituals_excluded(s: StoreView, day: DayView, i: int)
    requires
        s.wf(),
        0 <= i < s.rituals.len(),
        s.rituals[i].frequency is None,
    ensures
        !has_pair(created_records(s, day), day.id, s.rituals[i].id),
{
    lemma_not_due_excluded(s, day, i);
}

/// An inactive ritual gets no record from materializing, and the records that were
/// there before, of any day, stay as they were.
pub proof fn lemma_inactive_rituals_excluded(s: StoreView, day: DayView, i: int)
    requires
        s.wf(),
        0 <= i < s.rituals.len(),
        !s.rituals[i].active,
    ensures
        !has_pair(created_records(s, day), day.id, s.rituals[i].id),
        forall|k: int|
            0 <= k < s.records.len() ==> #[trigger] materialized(s, day).records[k] == s.records[k],
{
    lemma_not_due_excluded(s, day, i);
    lemma_materialize_idempotent(s, day);
}

proof fn lemma_not_due_excluded(s: StoreView, day: DayView, i: int)
    requires
        s.wf(),
        0 <= i < s.rituals.len(),
        !due_on(s.rituals[i], day.date),
    ensures
        !has_pair(created_records(s, day), day.id, s.rituals[i].id),
{
    let act = active_rituals(s.rituals);
    let created = created_records(s, day);
    if has_pair(created, day.id, s.rituals[i].id) {
        let k = choose|k: int|
            0 <= k < created.len() && created[k].day_id == day.id && created[k].ritual_id
                == s.rituals[i].id;
        lemma_new_records_are_due(act, s.records, day, k);
        let j = choose|j: int|
            0 <= j < act.len() && act[j].id == created[k].ritual_id && due_on(
                #[trigger] act[j],
                day.date,
            );
        lemma_active_rituals_members(s.rituals, j);
        let m = choose|m: int| 0 <= m < s.rituals.len() && s.rituals[m] == act[j];
        if m < i {
            assert(s.rituals[m].id != s.rituals[i].id);
        } else if i < m {
            assert(s.rituals[i].id != s.rituals[m].id);
        }
    }
}

/// The store after materializing `day` `n` times in a row.
pub open spec fn materialized_times(s: StoreView, day: DayView, n: nat) -> StoreView
    decreases n,
{
    if n == 0 {
        s
    } else {
        materialized(materialized_times(s, day, (n - 1) as nat), day)
    }
}

/// Any number of calls, one or more, leaves the store as one call does.
pub proof fn lemma_materialize_repeated(s: StoreView, day: DayView, n: nat)
    requires
        n >= 1,
    ensures
        materialized_times(s, day, n) == materialized(s, day),
    decreases n,
{
    if n > 1 {
        lemma_materialize_repeated(s, day, (n - 1) as nat);
        lemma_materialize_idempotent(s, day);
    } else {
        assert(materialized_times(s, day, 0) == s);
    }
}

} // verus!
