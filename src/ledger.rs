use vstd::prelude::*;

use crate::completable::Completable;
use crate::date::CalendarDate;
use crate::error::CoreError;
use crate::repeatable::{RepeatFrequency, Repeatable};

verus! {

/// The largest identifier that the store hands out.
pub const MAX_ID: i32 = 2147483647;

/// A calendar day of the ledger.
#[derive(Clone, Copy, Debug)]
pub struct Day {
    id: i32,
    date: CalendarDate,
}

pub struct DayView {
    pub id: int,
    pub date: CalendarDate,
}

impl View for Day {
    type V = DayView;

    closed spec fn view(&self) -> DayView {
        DayView { id: self.id as int, date: self.date }
    }
}

/// A recurring habit. Its `anchor` is the date its cadence is counted from.
#[derive(Debug)]
pub struct Ritual {
    id: i32,
    title: String,
    frequency: Option<RepeatFrequency>,
    active: bool,
    anchor: CalendarDate,
}

pub struct RitualView {
    pub id: int,
    pub title: Seq<char>,
    pub frequency: Option<RepeatFrequency>,
    pub active: bool,
    pub anchor: CalendarDate,
}

impl View for Ritual {
    type V = RitualView;

    closed spec fn view(&self) -> RitualView {
        RitualView {
            id: self.id as int,
            title: self.title@,
            frequency: self.frequency,
            active: self.active,
            anchor: self.anchor,
        }
    }
}

/// The completion record of one ritual on one day.
#[derive(Clone, Copy, Debug)]
pub struct DayRitual {
    day_id: i32,
    ritual_id: i32,
    completed: bool,
}

pub struct DayRitualView {
    pub day_id: int,
    pub ritual_id: int,
    pub completed: bool,
}

impl View for DayRitual {
    type V = DayRitualView;

    closed spec fn view(&self) -> DayRitualView {
        DayRitualView {
            day_id: self.day_id as int,
            ritual_id: self.ritual_id as int,
            completed: self.completed,
        }
    }
}

/// A plain to-do item, optionally attached to a day.
#[derive(Debug)]
pub struct Task {
    id: i32,
    title: String,
    completed: bool,
    day_id: Option<i32>,
}

pub struct TaskView {
    pub id: int,
    pub title: Seq<char>,
    pub completed: bool,
    pub day_id: Option<int>,
}

pub open spec fn opt_int(o: Option<i32>) -> Option<int> {
    match o {
        Some(v) => Some(v as int),
        None => None,
    }
}

impl View for Task {
    type V = TaskView;

    closed spec fn view(&self) -> TaskView {
        TaskView {
            id: self.id as int,
            title: self.title@,
            completed: self.completed,
            day_id: opt_int(self.day_id),
        }
    }
}

/// The four relations of the ledger and the next free identifier of each keyed one.
pub struct Store {
    days: Vec<Day>,
    rituals: Vec<Ritual>,
    records: Vec<DayRitual>,
    tasks: Vec<Task>,
    next_day_id: i32,
    next_ritual_id: i32,
    next_task_id: i32,
}

pub struct StoreView {
    pub days: Seq<DayView>,
    pub rituals: Seq<RitualView>,
    pub records: Seq<DayRitualView>,
    pub tasks: Seq<TaskView>,
    pub next_day_id: int,
    pub next_ritual_id: int,
    pub next_task_id: int,
}

impl View for Store {
    type V = StoreView;

    closed spec fn view(&self) -> StoreView {
        StoreView {
            days: self.days@.map_values(|d: Day| d@),
            rituals: self.rituals@.map_values(|r: Ritual| r@),
            records: self.records@.map_values(|c: DayRitual| c@),
            tasks: self.tasks@.map_values(|t: Task| t@),
            next_day_id: self.next_day_id as int,
            next_ritual_id: self.next_ritual_id as int,
            next_task_id: self.next_task_id as int,
        }
    }
}

impl StoreView {
    pub open spec fn has_day_id(self, id: int) -> bool {
        exists|i: int| 0 <= i < self.days.len() && self.days[i].id == id
    }

    pub open spec fn has_date(self, date: CalendarDate) -> bool {
        exists|i: int| 0 <= i < self.days.len() && self.days[i].date == date
    }

    pub open spec fn has_ritual_id(self, id: int) -> bool {
        exists|i: int| 0 <= i < self.rituals.len() && self.rituals[i].id == id
    }

    pub open spec fn has_record(self, day_id: int, ritual_id: int) -> bool {
        exists|i: int|
            0 <= i < self.records.len() && self.records[i].day_id == day_id
                && self.records[i].ritual_id == ritual_id
    }

    pub open spec fn has_task_id(self, id: int) -> bool {
        exists|i: int| 0 <= i < self.tasks.len() && self.tasks[i].id == id
    }

    /// One day per date and per identifier; every date valid.
    pub open spec fn days_wf(self) -> bool {
        &&& 1 <= self.next_day_id <= MAX_ID
        &&& forall|i: int|
            0 <= i < self.days.len() ==> 1 <= #[trigger] self.days[i].id < self.next_day_id
                && self.days[i].date.is_valid()
        &&& forall|i: int, j: int|
            0 <= i < j < self.days.len() ==> self.days[i].id != self.days[j].id
                && self.days[i].date != self.days[j].date
    }

    /// Distinct identifiers, non-empty titles, valid anchors.
    pub open spec fn rituals_wf(self) -> bool {
        &&& 1 <= self.next_ritual_id <= MAX_ID
        &&& forall|i: int|
            0 <= i < self.rituals.len() ==> 1 <= #[trigger] self.rituals[i].id < self.next_ritual_id
                && self.rituals[i].anchor.is_valid() && self.rituals[i].title.len() > 0
        &&& forall|i: int, j: int|
            0 <= i < j < self.rituals.len() ==> self.rituals[i].id != self.rituals[j].id
    }

    /// At most one record per (day, ritual) pair, and each pair names an existing
    /// day and an existing ritual.
    pub open spec fn records_wf(self) -> bool {
        &&& forall|i: int|
            0 <= i < self.records.len() ==> self.has_day_id((#[trigger] self.records[i]).day_id)
                && self.has_ritual_id(self.records[i].ritual_id)
        &&& forall|i: int, j: int|
            0 <= i < j < self.records.len() ==> !(self.records[i].day_id == self.records[j].day_id
                && self.records[i].ritual_id == self.records[j].ritual_id)
    }

    /// Distinct identifiers; a task's day, where it has one, exists.
    pub open spec fn tasks_wf(self) -> bool {
        &&& 1 <= self.next_task_id <= MAX_ID
        &&& forall|i: int|
            0 <= i < self.tasks.len() ==> 1 <= #[trigger] self.tasks[i].id < self.next_task_id
                && (self.tasks[i].day_id matches Some(d) ==> self.has_day_id(d))
        &&& forall|i: int, j: int|
            0 <= i < j < self.tasks.len() ==> self.tasks[i].id != self.tasks[j].id
    }

    pub open spec fn wf(self) -> bool {
        &&& self.days_wf()
        &&& self.rituals_wf()
        &&& self.records_wf()
        &&& self.tasks_wf()
    }
}

/// The store after `ensure(date)`: unchanged where the date has a day or no
/// identifier is left, else with a new day for `date`.
pub open spec fn ensured(s: StoreView, date: CalendarDate) -> StoreView {
    if s.has_date(date) || s.next_day_id >= MAX_ID {
        s
    } else {
        StoreView {
            days: s.days.push(DayView { id: s.next_day_id, date }),
            next_day_id: s.next_day_id + 1,
            ..s
        }
    }
}

/// Every day identifier of `s` is still one of `t`, where `t` keeps the days of `s`.
proof fn lemma_day_ids_kept(s: StoreView, t: StoreView)
    requires
        s.days.len() <= t.days.len(),
        forall|i: int| 0 <= i < s.days.len() ==> t.days[i] == s.days[i],
    ensures
        forall|id: int| s.has_day_id(id) ==> t.has_day_id(id),
{
    assert forall|id: int| s.has_day_id(id) implies t.has_day_id(id) by {
        let k = choose|k: int| 0 <= k < s.days.len() && s.days[k].id == id;
        assert(t.days[k] == s.days[k]);
    }
}

impl Store {
    /// An empty ledger.
    pub fn new() -> (r: Store)
        ensures
            r@.wf(),
            r@.days.len() == 0,
            r@.rituals.len() == 0,
            r@.records.len() == 0,
            r@.tasks.len() == 0,
            r@.next_day_id == 1,
            r@.next_ritual_id == 1,
            r@.next_task_id == 1,
    {
        let r = Store {
            days: Vec::new(),
            rituals: Vec::new(),
            records: Vec::new(),
            tasks: Vec::new(),
            next_day_id: 1,
            next_ritual_id: 1,
            next_task_id: 1,
        };
        assert(r@.days =~= Seq::empty());
        assert(r@.rituals =~= Seq::empty());
        assert(r@.records =~= Seq::empty());
        assert(r@.tasks =~= Seq::empty());
        r
    }

    fn day_index_by_date(&self, date: &CalendarDate) -> (r: Option<usize>)
        ensures
            r matches Some(i) ==> i < self@.days.len() && self@.days[i as int].date == *date,
            r is None ==> !self@.has_date(*date),
    {
        let mut i: usize = 0;
        while i < self.days.len()
            invariant
                i <= self.days@.len(),
                forall|k: int| 0 <= k < i ==> self@.days[k].date != *date,
            decreases self.days@.len() - i,
        {
            if self.days[i].date == *date {
                return Some(i);
            }
            i = i + 1;
        }
        None
    }

    fn day_index_by_id(&self, id: i32) -> (r: Option<usize>)
        ensures
            r matches Some(i) ==> i < self@.days.len() && self@.days[i as int].id == id,
            r is None ==> !self@.has_day_id(id as int),
    {
        let mut i: usize = 0;
        while i < self.days.len()
            invariant
                i <= self.days@.len(),
                forall|k: int| 0 <= k < i ==> self@.days[k].id != id,
            decreases self.days@.len() - i,
        {
            if self.days[i].id == id {
                return Some(i);
            }
            i = i + 1;
        }
        None
    }
}

/// Makes sure that `date` has a day, without ever creating a second one.
pub fn insert_day(cx: &mut Store, date: CalendarDate) -> (r: Result<(), CoreError>)
    requires
        old(cx)@.wf(),
    ensures
        final(cx)@.wf(),
        !date.is_valid() ==> r == Err::<(), CoreError>(CoreError::Validation) && final(cx)@ == old(
            cx,
        )@,
        date.is_valid() ==> final(cx)@ == ensured(old(cx)@, date),
        date.is_valid() ==> (r is Ok <==> final(cx)@.has_date(date)),
        date.is_valid() && r is Err ==> r == Err::<(), CoreError>(CoreError::Persistence),
        date.is_valid() && (old(cx)@.has_date(date) || old(cx)@.next_day_id < MAX_ID) ==> r is Ok,
{
    if !date.check_valid() {
        return Err(CoreError::Validation);
    }
    if cx.day_index_by_date(&date).is_some() {
        return Ok(());
    }
    if cx.next_day_id >= MAX_ID {
        return Err(CoreError::Persistence);
    }
    let ghost s = cx@;
    let day = Day { id: cx.next_day_id, date };
    cx.days.push(day);
    cx.next_day_id = cx.next_day_id + 1;
    assert(cx@.days =~= s.days.push(day@));
    assert(cx@.days[s.days.len() as int].date == date);
    proof {
        lemma_day_ids_kept(s, cx@);
        assert(cx@.records == s.records);
        assert(cx@.tasks == s.tasks);
    }
    Ok(())
}

impl Day {
    /// Returns the day of `date`, creating it on first use.
    pub fn new(cx: &mut Store, date: CalendarDate) -> (r: Result<Day, CoreError>)
        requires
            old(cx)@.wf(),
        ensures
            final(cx)@.wf(),
            !date.is_valid() ==> r == Err::<Day, CoreError>(CoreError::Validation) && final(cx)@
                == old(cx)@,
            date.is_valid() ==> final(cx)@ == ensured(old(cx)@, date),
            date.is_valid() ==> (r is Ok <==> final(cx)@.has_date(date)),
            date.is_valid() && r is Err ==> r == Err::<Day, CoreError>(CoreError::Persistence),
            date.is_valid() && (old(cx)@.has_date(date) || old(cx)@.next_day_id < MAX_ID) ==> r is Ok,
            r matches Ok(d) ==> d@.date == date && final(cx)@.days.contains(d@),
    {
        match insert_day(cx, date) {
            Ok(()) => {},
            Err(e) => {
                return Err(e);
            },
        }
        match cx.day_index_by_date(&date) {
            Some(i) => {
                let d = cx.days[i];
                assert(cx@.days[i as int] == d@);
                Ok(d)
            },
            None => Err(CoreError::NotFound),
        }
    }

    /// Looks a day up by its identifier.
    pub fn get(cx: &Store, id: i32) -> (r: Result<Day, CoreError>)
        ensures
            r is Ok <==> cx@.has_day_id(id as int),
            r matches Ok(d) ==> d@.id == id && cx@.days.contains(d@),
            r is Err ==> r == Err::<Day, CoreError>(CoreError::NotFound),
    {
        match cx.day_index_by_id(id) {
            Some(i) => {
                let d = cx.days[i];
                assert(cx@.days[i as int] == d@);
                Ok(d)
            },
            None => Err(CoreError::NotFound),
        }
    }

    pub fn id(&self) -> (r: i32)
        ensures
            r == self@.id,
    {
        self.id
    }

    pub fn date(&self) -> (r: &CalendarDate)
        ensures
            *r == self@.date,
    {
        &self.date
    }
}

/// The rituals of `s` whose identifier is not `id`, in their order.
pub open spec fn rituals_except(s: Seq<RitualView>, id: int) -> Seq<RitualView>
    decreases s.len(),
{
    if s.len() == 0 {
        s
    } else {
        let rest = rituals_except(s.drop_last(), id);
        if s.last().id == id {
            rest
        } else {
            rest.push(s.last())
        }
    }
}

/// The records of `s` that do not belong to ritual `id`, in their order.
pub open spec fn records_except(s: Seq<DayRitualView>, id: int) -> Seq<DayRitualView>
    decreases s.len(),
{
    if s.len() == 0 {
        s
    } else {
        let rest = records_except(s.drop_last(), id);
        if s.last().ritual_id == id {
            rest
        } else {
            rest.push(s.last())
        }
    }
}

/// The active rituals of `s`, in their order.
pub open spec fn active_rituals(s: Seq<RitualView>) -> Seq<RitualView>
    decreases s.len(),
{
    if s.len() == 0 {
        s
    } else {
        let rest = active_rituals(s.drop_last());
        if s.last().active {
            rest.push(s.last())
        } else {
            rest
        }
    }
}

/// The store after deleting ritual `id`: the ritual and all its records are gone.
pub open spec fn ritual_deleted(s: StoreView, id: int) -> StoreView {
    StoreView { rituals: rituals_except(s.rituals, id), records: records_except(s.records, id), ..s }
}

/// The position of the ritual with identifier `id`.
pub open spec fn ritual_index(s: StoreView, id: int) -> int {
    choose|i: int| 0 <= i < s.rituals.len() && s.rituals[i].id == id
}

/// What `update` writes: the editable fields of `edit` over the stored ritual `stored`.
pub open spec fn ritual_edited(stored: RitualView, edit: RitualView) -> RitualView {
    RitualView { title: edit.title, frequency: edit.frequency, active: edit.active, ..stored }
}

impl Clone for Ritual {
    fn clone(&self) -> (r: Ritual)
        ensures
            r@ == self@,
    {
        Ritual {
            id: self.id,
            title: self.title.clone(),
            frequency: self.frequency,
            active: self.active,
            anchor: self.anchor,
        }
    }
}

impl Repeatable for Ritual {
    open spec fn cadence(&self) -> Option<RepeatFrequency> {
        self@.frequency
    }

    fn frequency(&self) -> (r: Option<&RepeatFrequency>) {
        self.frequency.as_ref()
    }

    fn set_frequency(&mut self, frequency: Option<RepeatFrequency>)
        ensures
            final(self)@ == (RitualView { frequency, ..old(self)@ }),
    {
        self.frequency = frequency;
    }
}

impl Store {
    fn ritual_index_by_id(&self, id: i32) -> (r: Option<usize>)
        ensures
            r matches Some(i) ==> i < self@.rituals.len() && self@.rituals[i as int].id == id,
            r is None ==> !self@.has_ritual_id(id as int),
    {
        let mut i: usize = 0;
        while i < self.rituals.len()
            invariant
                i <= self.rituals@.len(),
                forall|k: int| 0 <= k < i ==> self@.rituals[k].id != id,
            decreases self.rituals@.len() - i,
        {
            if self.rituals[i].id == id {
                return Some(i);
            }
            i = i + 1;
        }
        None
    }
}

impl Ritual {
    /// Registers a new, active ritual whose cadence is counted from `created_on`.
    pub fn new(
        cx: &mut Store,
        title: String,
        frequency: Option<RepeatFrequency>,
        created_on: CalendarDate,
    ) -> (r: Result<Ritual, CoreError>)
        requires
            old(cx)@.wf(),
        ensures
            final(cx)@.wf(),
            (title@.len() == 0 || !created_on.is_valid()) ==> r == Err::<Ritual, CoreError>(
                CoreError::Validation,
            ),
            (title@.len() > 0 && created_on.is_valid() && old(cx)@.next_ritual_id == MAX_ID) ==> r
                == Err::<Ritual, CoreError>(CoreError::Persistence),
            r is Err ==> final(cx)@ == old(cx)@,
            (title@.len() > 0 && created_on.is_valid() && old(cx)@.next_ritual_id < MAX_ID) ==> r is Ok,
            r matches Ok(v) ==> {
                &&& v@ == (RitualView {
                    id: old(cx)@.next_ritual_id,
                    title: title@,
                    frequency,
                    active: true,
                    anchor: created_on,
                })
                &&& final(cx)@ == (StoreView {
                    rituals: old(cx)@.rituals.push(v@),
                    next_ritual_id: old(cx)@.next_ritual_id + 1,
                    ..old(cx)@
                })
            },
    {
        if title.as_str().is_empty() || !created_on.check_valid() {
            return Err(CoreError::Validation);
        }
        if cx.next_ritual_id >= MAX_ID {
            return Err(CoreError::Persistence);
        }
        let ghost s = cx@;
        let ritual = Ritual {
            id: cx.next_ritual_id,
            title,
            frequency,
            active: true,
            anchor: created_on,
        };
        let stored = ritual.clone();
        cx.rituals.push(stored);
        cx.next_ritual_id = cx.next_ritual_id + 1;
        assert(cx@.rituals =~= s.rituals.push(ritual@));
        proof {
            assert(cx@.days == s.days);
            assert(cx@.records == s.records);
            assert(cx@.tasks == s.tasks);
            assert forall|i: int| 0 <= i < cx@.records.len() implies cx@.has_ritual_id(
                #[trigger] cx@.records[i].ritual_id,
            ) by {
                let k = choose|k: int|
                    0 <= k < s.rituals.len() && s.rituals[k].id == s.records[i].ritual_id;
                assert(cx@.rituals[k] == s.rituals[k]);
            }
        }
        Ok(ritual)
    }

    /// Looks a ritual up by its identifier.
    pub fn get(cx: &Store, id: i32) -> (r: Result<Ritual, CoreError>)
        ensures
            r is Ok <==> cx@.has_ritual_id(id as int),
            r matches Ok(v) ==> v@.id == id && cx@.rituals.contains(v@),
            r is Err ==> r == Err::<Ritual, CoreError>(CoreError::NotFound),
    {
        match cx.ritual_index_by_id(id) {
            Some(i) => {
                let v = cx.rituals[i].clone();
                assert(cx@.rituals[i as int] == v@);
                Ok(v)
            },
            None => Err(CoreError::NotFound),
        }
    }

    /// Writes this ritual's title, frequency and active flag to the stored ritual
    /// with the same identifier, then reloads `self` from the store and returns a copy.
    pub fn update(&mut self, cx: &mut Store) -> (r: Result<Ritual, CoreError>)
        requires
            old(cx)@.wf(),
        ensures
            final(cx)@.wf(),
            old(self)@.title.len() == 0 ==> r == Err::<Ritual, CoreError>(CoreError::Validation),
            old(self)@.title.len() > 0 && !old(cx)@.has_ritual_id(old(self)@.id) ==> r == Err::<
                Ritual,
                CoreError,
            >(CoreError::NotFound),
            r is Err ==> final(cx)@ == old(cx)@ && final(self)@ == old(self)@,
            (old(self)@.title.len() > 0 && old(cx)@.has_ritual_id(old(self)@.id)) ==> r is Ok,
            r matches Ok(v) ==> {
                let i = ritual_index(old(cx)@, old(self)@.id);
                let stored = ritual_edited(old(cx)@.rituals[i], old(self)@);
                &&& final(cx)@ == (StoreView {
                    rituals: old(cx)@.rituals.update(i, stored),
                    ..old(cx)@
                })
                &&& final(self)@ == stored
                &&& v@ == stored
            },
    {
        if self.title.as_str().is_empty() {
            return Err(CoreError::Validation);
        }
        let i = match cx.ritual_index_by_id(self.id) {
            Some(i) => i,
            None => {
                return Err(CoreError::NotFound);
            },
        };
        let ghost s = cx@;
        proof {
            let j = ritual_index(s, self.id as int);
            assert(0 <= j < s.rituals.len() && s.rituals[j].id == self.id);
            if j != i {
                if j < i {
                    assert(s.rituals[j].id != s.rituals[i as int].id);
                } else {
                    assert(s.rituals[i as int].id != s.rituals[j].id);
                }
            }
        }
        let stored = Ritual {
            id: cx.rituals[i].id,
            title: self.title.clone(),
            frequency: self.frequency,
            active: self.active,
            anchor: cx.rituals[i].anchor,
        };
        cx.rituals.set(i, stored);
        assert(cx@.rituals =~= s.rituals.update(i as int, ritual_edited(s.rituals[i as int], self@)));
        proof {
            assert(cx@.days == s.days);
            assert(cx@.records == s.records);
            assert(cx@.tasks == s.tasks);
            assert forall|k: int| 0 <= k < cx@.records.len() implies cx@.has_ritual_id(
                #[trigger] cx@.records[k].ritual_id,
            ) by {
                let m = choose|m: int|
                    0 <= m < s.rituals.len() && s.rituals[m].id == s.records[k].ritual_id;
                assert(cx@.rituals[m].id == s.rituals[m].id);
            }
        }
        *self = cx.rituals[i].clone();
        Ok(self.clone())
    }

    /// Deletes ritual `id` together with every completion record of it. Deleting an
    /// identifier that the store does not hold changes nothing.
    pub fn delete(cx: &mut Store, id: i32) -> (r: Result<(), CoreError>)
        requires
            old(cx)@.wf(),
        ensures
            final(cx)@.wf(),
            r is Ok,
            final(cx)@ == ritual_deleted(old(cx)@, id as int),
    {
        let ghost s = cx@;
        let mut rituals: Vec<Ritual> = Vec::new();
        let mut i: usize = 0;
        while i < cx.rituals.len()
            invariant
                cx@ == s,
                s.wf(),
                i <= s.rituals.len(),
                rituals@.map_values(|r: Ritual| r@) == rituals_except(s.rituals.take(i as int), id as int),
                forall|k: int|
                    0 <= k < rituals@.len() ==> exists|j: int|
                        0 <= j < i && #[trigger] rituals@[k]@ == s.rituals[j] && s.rituals[j].id != id,
                forall|j: int|
                    0 <= j < i && s.rituals[j].id != id ==> rituals@.map_values(|r: Ritual| r@).contains(
                        #[trigger] s.rituals[j],
                    ),
                forall|a: int, b: int|
                    0 <= a < b < rituals@.len() ==> rituals@[a]@.id != rituals@[b]@.id,
            decreases s.rituals.len() - i,
        {
            let ghost before = rituals@.map_values(|r: Ritual| r@);
            assert(s.rituals.take(i + 1).drop_last() =~= s.rituals.take(i as int));
            assert(s.rituals.take(i + 1).last() == s.rituals[i as int]);
            assert(cx@.rituals[i as int] == cx.rituals@[i as int]@);
            if cx.rituals[i].id != id {
                let v = cx.rituals[i].clone();
                rituals.push(v);
                assert(rituals@.map_values(|r: Ritual| r@) =~= before.push(v@));
                assert forall|a: int, b: int|
                    0 <= a < b < rituals@.len() implies rituals@[a]@.id != rituals@[b]@.id by {
                    if b == rituals@.len() - 1 {
                        assert(before[a] == rituals@[a]@);
                        let j = choose|j: int|
                            0 <= j < i && rituals@[a]@ == s.rituals[j] && s.rituals[j].id != id;
                        assert(s.rituals[j].id != s.rituals[i as int].id);
                    }
                }
                assert forall|j: int|
                    0 <= j < i + 1 && s.rituals[j].id != id implies rituals@.map_values(
                        |r: Ritual| r@,
                    ).contains(#[trigger] s.rituals[j]) by {
                    if j < i {
                        let k = choose|k: int| 0 <= k < before.len() && before[k] == s.rituals[j];
                        assert(rituals@.map_values(|r: Ritual| r@)[k] == s.rituals[j]);
                    } else {
                        assert(rituals@.map_values(|r: Ritual| r@)[before.len() as int] == s.rituals[j]);
                    }
                }
                assert forall|k: int| 0 <= k < rituals@.len() implies exists|j: int|
                    0 <= j < i + 1 && #[trigger] rituals@[k]@ == s.rituals[j] && s.rituals[j].id != id by {
                    if k == rituals@.len() - 1 {
                        assert(rituals@[k]@ == s.rituals[i as int]);
                    } else {
                        assert(rituals@[k]@ == before[k]);
                    }
                }
            }
            i = i + 1;
        }
        assert(s.rituals.take(s.rituals.len() as int) =~= s.rituals);
        let mut records: Vec<DayRitual> = Vec::new();
        let mut i: usize = 0;
        while i < cx.records.len()
            invariant
                cx@ == s,
                s.wf(),
                i <= s.records.len(),
                records@.map_values(|c: DayRitual| c@) == records_except(s.records.take(i as int), id as int),
                forall|k: int|
                    0 <= k < records@.len() ==> exists|j: int|
                        0 <= j < i && #[trigger] records@[k]@ == s.records[j] && s.records[j].ritual_id != id,
                forall|a: int, b: int|
                    0 <= a < b < records@.len() ==> !(records@[a]@.day_id == records@[b]@.day_id
                        && records@[a]@.ritual_id == records@[b]@.ritual_id),
            decreases s.records.len() - i,
        {
            let ghost before = records@.map_values(|c: DayRitual| c@);
            assert(s.records.take(i + 1).drop_last() =~= s.records.take(i as int));
            assert(s.records.take(i + 1).last() == s.records[i as int]);
            assert(cx@.records[i as int] == cx.records@[i as int]@);
            if cx.records[i].ritual_id != id {
                let c = cx.records[i];
                records.push(c);
                assert(records@.map_values(|c: DayRitual| c@) =~= before.push(c@));
                assert forall|a: int, b: int| 0 <= a < b < records@.len() implies !(records@[a]@.day_id
                    == records@[b]@.day_id && records@[a]@.ritual_id == records@[b]@.ritual_id) by {
                    if b == records@.len() - 1 {
                        assert(before[a] == records@[a]@);
                        let j = choose|j: int|
                            0 <= j < i && records@[a]@ == s.records[j] && s.records[j].ritual_id != id;
                        assert(records@[b]@ == s.records[i as int]);
                    }
                }
                assert forall|k: int| 0 <= k < records@.len() implies exists|j: int|
                    0 <= j < i + 1 && #[trigger] records@[k]@ == s.records[j] && s.records[j].ritual_id != id by {
                    if k == records@.len() - 1 {
                        assert(records@[k]@ == s.records[i as int]);
                    } else {
                        assert(records@[k]@ == before[k]);
                    }
                }
            }
            i = i + 1;
        }
        assert(s.records.take(s.records.len() as int) =~= s.records);
        cx.rituals = rituals;
        cx.records = records;
        proof {
            let t = cx@;
            assert(t.days == s.days);
            assert(t.tasks == s.tasks);
            assert forall|a: int| 0 <= a < t.rituals.len() implies 1 <= #[trigger] t.rituals[a].id
                < t.next_ritual_id && t.rituals[a].anchor.is_valid() && t.rituals[a].title.len()
                > 0 by {
                assert(t.rituals[a] == cx.rituals@[a]@);
            }
            assert forall|a: int, b: int|
                0 <= a < b < t.rituals.len() implies t.rituals[a].id != t.rituals[b].id by {
                assert(t.rituals[a] == cx.rituals@[a]@);
                assert(t.rituals[b] == cx.rituals@[b]@);
            }
            assert forall|k: int| 0 <= k < t.records.len() implies t.has_day_id(
                #[trigger] t.records[k].day_id,
            ) && t.has_ritual_id(t.records[k].ritual_id) by {
                assert(t.records[k] == cx.records@[k]@);
                let j = choose|j: int|
                    0 <= j < s.records.len() && cx.records@[k]@ == s.records[j]
                        && s.records[j].ritual_id != id;
                let m = choose|m: int|
                    0 <= m < s.rituals.len() && s.rituals[m].id == s.records[j].ritual_id;
                assert(t.rituals.contains(s.rituals[m]));
            }
            assert forall|a: int, b: int| 0 <= a < b < t.records.len() implies !(
            t.records[a].day_id == t.records[b].day_id && t.records[a].ritual_id
                == t.records[b].ritual_id) by {
                assert(t.records[a] == cx.records@[a]@);
                assert(t.records[b] == cx.records@[b]@);
            }
        }
        Ok(())
    }

    /// The active rituals, in the order in which they were created.
    pub fn list_active(cx: &Store) -> (r: Vec<Ritual>)
        ensures
            r@.map_values(|v: Ritual| v@) == active_rituals(cx@.rituals),
    {
        let mut out: Vec<Ritual> = Vec::new();
        let mut i: usize = 0;
        while i < cx.rituals.len()
            invariant
                i <= cx@.rituals.len(),
                out@.map_values(|v: Ritual| v@) == active_rituals(cx@.rituals.take(i as int)),
            decreases cx@.rituals.len() - i,
        {
            let ghost before = out@.map_values(|v: Ritual| v@);
            assert(cx@.rituals.take(i + 1).drop_last() =~= cx@.rituals.take(i as int));
            assert(cx@.rituals[i as int] == cx.rituals@[i as int]@);
            if cx.rituals[i].active {
                let v = cx.rituals[i].clone();
                out.push(v);
                assert(out@.map_values(|v: Ritual| v@) =~= before.push(v@));
            }
            i = i + 1;
        }
        assert(cx@.rituals.take(cx@.rituals.len() as int) =~= cx@.rituals);
        out
    }

    pub fn id(&self) -> (r: i32)
        ensures
            r == self@.id,
    {
        self.id
    }

    pub fn title(&self) -> (r: &str)
        ensures
            r@ == self@.title,
    {
        self.title.as_str()
    }

    pub fn set_title(&mut self, title: String)
        ensures
            final(self)@ == (RitualView { title: title@, ..old(self)@ }),
    {
        self.title = title;
    }

    pub fn active(&self) -> (r: bool)
        ensures
            r == self@.active,
    {
        self.active
    }

    pub fn set_active(&mut self, active: bool)
        ensures
            final(self)@ == (RitualView { active, ..old(self)@ }),
    {
        self.active = active;
    }

    /// The date that this ritual's cadence is counted from.
    pub fn anchor(&self) -> (r: CalendarDate)
        ensures
            r == self@.anchor,
    {
        self.anchor
    }
}

/// The position of the record of ritual `ritual_id` on day `day_id`.
pub open spec fn record_index(s: StoreView, day_id: int, ritual_id: int) -> int {
    choose|i: int|
        0 <= i < s.records.len() && s.records[i].day_id == day_id && s.records[i].ritual_id
            == ritual_id
}

/// The position of the task with identifier `id`.
pub open spec fn task_index(s: StoreView, id: int) -> int {
    choose|i: int| 0 <= i < s.tasks.len() && s.tasks[i].id == id
}

/// The tasks of `s` that belong to day `day_id`, in their order.
pub open spec fn tasks_of_day(s: Seq<TaskView>, day_id: int) -> Seq<TaskView>
    decreases s.len(),
{
    if s.len() == 0 {
        s
    } else {
        let rest = tasks_of_day(s.drop_last(), day_id);
        if s.last().day_id == Some(day_id) {
            rest.push(s.last())
        } else {
            rest
        }
    }
}

proof fn lemma_record_index(s: StoreView, i: int)
    requires
        s.wf(),
        0 <= i < s.records.len(),
    ensures
        record_index(s, s.records[i].day_id, s.records[i].ritual_id) == i,
{
    let j = record_index(s, s.records[i].day_id, s.records[i].ritual_id);
    assert(0 <= j < s.records.len());
    if j < i {
        assert(!(s.records[j].day_id == s.records[i].day_id && s.records[j].ritual_id
            == s.records[i].ritual_id));
    } else if i < j {
        assert(!(s.records[i].day_id == s.records[j].day_id && s.records[i].ritual_id
            == s.records[j].ritual_id));
    }
}

proof fn lemma_task_index(s: StoreView, i: int)
    requires
        s.wf(),
        0 <= i < s.tasks.len(),
    ensures
        task_index(s, s.tasks[i].id) == i,
{
    let j = task_index(s, s.tasks[i].id);
    assert(0 <= j < s.tasks.len());
    if j < i {
        assert(s.tasks[j].id != s.tasks[i].id);
    } else if i < j {
        assert(s.tasks[i].id != s.tasks[j].id);
    }
}

impl Store {
    fn record_position(&self, day_id: i32, ritual_id: i32) -> (r: Option<usize>)
        ensures
            r matches Some(i) ==> i < self@.records.len() && self@.records[i as int].day_id
                == day_id && self@.records[i as int].ritual_id == ritual_id,
            r is None ==> !self@.has_record(day_id as int, ritual_id as int),
    {
        let mut i: usize = 0;
        while i < self.records.len()
            invariant
                i <= self.records@.len(),
                forall|k: int|
                    0 <= k < i ==> !(self@.records[k].day_id == day_id && self@.records[k].ritual_id
                        == ritual_id),
            decreases self.records@.len() - i,
        {
            if self.records[i].day_id == day_id && self.records[i].ritual_id == ritual_id {
                return Some(i);
            }
            i = i + 1;
        }
        None
    }

    fn task_position(&self, id: i32) -> (r: Option<usize>)
        ensures
            r matches Some(i) ==> i < self@.tasks.len() && self@.tasks[i as int].id == id,
            r is None ==> !self@.has_task_id(id as int),
    {
        let mut i: usize = 0;
        while i < self.tasks.len()
            invariant
                i <= self.tasks@.len(),
                forall|k: int| 0 <= k < i ==> self@.tasks[k].id != id,
            decreases self.tasks@.len() - i,
        {
            if self.tasks[i].id == id {
                return Some(i);
            }
            i = i + 1;
        }
        None
    }
}

impl Completable for DayRitual {
    open spec fn is_completed(&self) -> bool {
        self@.completed
    }

    fn completed(&self) -> (r: bool) {
        self.completed
    }

    fn set_completed(&mut self, completed: bool)
        ensures
            final(self)@ == (DayRitualView { completed, ..old(self)@ }),
    {
        self.completed = completed;
    }
}

impl DayRitual {
    /// Returns the record of ritual `ritual_id` on day `day_id`, creating it, not
    /// completed, where there is none. An existing record is returned unchanged.
    pub fn new(cx: &mut Store, day_id: i32, ritual_id: i32) -> (r: Result<DayRitual, CoreError>)
        requires
            old(cx)@.wf(),
        ensures
            final(cx)@.wf(),
            r is Ok <==> old(cx)@.has_day_id(day_id as int) && old(cx)@.has_ritual_id(
                ritual_id as int,
            ),
            r is Err ==> r == Err::<DayRitual, CoreError>(CoreError::NotFound) && final(cx)@ == old(
                cx,
            )@,
            r matches Ok(c) ==> {
                &&& c@.day_id == day_id
                &&& c@.ritual_id == ritual_id
                &&& old(cx)@.has_record(day_id as int, ritual_id as int) ==> final(cx)@ == old(cx)@
                    && old(cx)@.records.contains(c@)
                &&& !old(cx)@.has_record(day_id as int, ritual_id as int) ==> !c@.completed
                    && final(cx)@ == (StoreView { records: old(cx)@.records.push(c@), ..old(cx)@ })
            },
    {
        if cx.day_index_by_id(day_id).is_none() || cx.ritual_index_by_id(ritual_id).is_none() {
            return Err(CoreError::NotFound);
        }
        match cx.record_position(day_id, ritual_id) {
            Some(i) => {
                let c = cx.records[i];
                assert(cx@.records[i as int] == c@);
                return Ok(c);
            },
            None => {},
        }
        let ghost s = cx@;
        let c = DayRitual { day_id, ritual_id, completed: false };
        cx.records.push(c);
        assert(cx@.records =~= s.records.push(c@));
        proof {
            assert(cx@.days == s.days);
            assert(cx@.rituals == s.rituals);
            assert(cx@.tasks == s.tasks);
        }
        Ok(c)
    }

    /// Looks up the record of ritual `ritual_id` on day `day_id`.
    pub fn get(cx: &Store, day_id: i32, ritual_id: i32) -> (r: Result<DayRitual, CoreError>)
        ensures
            r is Ok <==> cx@.has_record(day_id as int, ritual_id as int),
            r matches Ok(c) ==> c@.day_id == day_id && c@.ritual_id == ritual_id
                && cx@.records.contains(c@),
            r is Err ==> r == Err::<DayRitual, CoreError>(CoreError::NotFound),
    {
        match cx.record_position(day_id, ritual_id) {
            Some(i) => {
                let c = cx.records[i];
                assert(cx@.records[i as int] == c@);
                Ok(c)
            },
            None => Err(CoreError::NotFound),
        }
    }

    /// Writes this record's completed flag to the stored record of the same pair.
    pub fn update(&self, cx: &mut Store) -> (r: Result<(), CoreError>)
        requires
            old(cx)@.wf(),
        ensures
            final(cx)@.wf(),
            r is Ok <==> old(cx)@.has_record(self@.day_id, self@.ritual_id),
            r is Err ==> r == Err::<(), CoreError>(CoreError::NotFound) && final(cx)@ == old(cx)@,
            r is Ok ==> final(cx)@ == (StoreView {
                records: old(cx)@.records.update(
                    record_index(old(cx)@, self@.day_id, self@.ritual_id),
                    self@,
                ),
                ..old(cx)@
            }),
    {
        DayRitual::set_completed_for(cx, self.day_id, self.ritual_id, self.completed)
    }

    /// Sets the completed flag of the record of ritual `ritual_id` on day `day_id`.
    pub fn set_completed_for(cx: &mut Store, day_id: i32, ritual_id: i32, completed: bool) -> (r:
        Result<(), CoreError>)
        requires
            old(cx)@.wf(),
        ensures
            final(cx)@.wf(),
            r is Ok <==> old(cx)@.has_record(day_id as int, ritual_id as int),
            r is Err ==> r == Err::<(), CoreError>(CoreError::NotFound) && final(cx)@ == old(cx)@,
            r is Ok ==> final(cx)@ == (StoreView {
                records: old(cx)@.records.update(
                    record_index(old(cx)@, day_id as int, ritual_id as int),
                    DayRitualView { day_id: day_id as int, ritual_id: ritual_id as int, completed },
                ),
                ..old(cx)@
            }),
    {
        let i = match cx.record_position(day_id, ritual_id) {
            Some(i) => i,
            None => {
                return Err(CoreError::NotFound);
            },
        };
        let ghost s = cx@;
        proof {
            lemma_record_index(s, i as int);
        }
        let c = DayRitual { day_id, ritual_id, completed };
        cx.records.set(i, c);
        assert(cx@.records =~= s.records.update(i as int, c@));
        proof {
            assert(cx@.days == s.days);
            assert(cx@.rituals == s.rituals);
            assert(cx@.tasks == s.tasks);
            assert forall|k: int| 0 <= k < cx@.records.len() implies cx@.has_day_id(
                (#[trigger] cx@.records[k]).day_id,
            ) && cx@.has_ritual_id(cx@.records[k].ritual_id) by {
                assert(s.has_day_id(s.records[k].day_id));
            }
        }
        Ok(())
    }

    /// Deletes the record of ritual `ritual_id` on day `day_id`, where there is one.
    pub fn delete(cx: &mut Store, day_id: i32, ritual_id: i32) -> (r: Result<(), CoreError>)
        requires
            old(cx)@.wf(),
        ensures
            final(cx)@.wf(),
            r is Ok,
            !old(cx)@.has_record(day_id as int, ritual_id as int) ==> final(cx)@ == old(cx)@,
            old(cx)@.has_record(day_id as int, ritual_id as int) ==> final(cx)@ == (StoreView {
                records: old(cx)@.records.remove(
                    record_index(old(cx)@, day_id as int, ritual_id as int),
                ),
                ..old(cx)@
            }),
            !final(cx)@.has_record(day_id as int, ritual_id as int),
    {
        let i = match cx.record_position(day_id, ritual_id) {
            Some(i) => i,
            None => {
                return Ok(());
            },
        };
        let ghost s = cx@;
        proof {
            lemma_record_index(s, i as int);
        }
        cx.records.remove(i);
        assert(cx@.records =~= s.records.remove(i as int));
        proof {
            assert(cx@.days == s.days);
            assert(cx@.rituals == s.rituals);
            assert(cx@.tasks == s.tasks);
            assert forall|k: int| 0 <= k < cx@.records.len() implies cx@.has_day_id(
                (#[trigger] cx@.records[k]).day_id,
            ) && cx@.has_ritual_id(cx@.records[k].ritual_id) by {
                if k < i {
                    assert(cx@.records[k] == s.records[k]);
                } else {
                    assert(cx@.records[k] == s.records[k + 1]);
                }
            }
            assert forall|a: int, b: int| 0 <= a < b < cx@.records.len() implies !(
            cx@.records[a].day_id == cx@.records[b].day_id && cx@.records[a].ritual_id
                == cx@.records[b].ritual_id) by {
                let a2 = if a < i { a } else { a + 1 };
                let b2 = if b < i { b } else { b + 1 };
                assert(cx@.records[a] == s.records[a2]);
                assert(cx@.records[b] == s.records[b2]);
            }
            if cx@.has_record(day_id as int, ritual_id as int) {
                let k = choose|k: int|
                    0 <= k < cx@.records.len() && cx@.records[k].day_id == day_id
                        && cx@.records[k].ritual_id == ritual_id;
                let k2 = if k < i { k } else { k + 1 };
                assert(cx@.records[k] == s.records[k2]);
                if k2 < i {
                    assert(!(s.records[k2].day_id == s.records[i as int].day_id
                        && s.records[k2].ritual_id == s.records[i as int].ritual_id));
                } else {
                    assert(!(s.records[i as int].day_id == s.records[k2].day_id
                        && s.records[i as int].ritual_id == s.records[k2].ritual_id));
                }
            }
        }
        Ok(())
    }

    pub fn day_id(&self) -> (r: i32)
        ensures
            r == self@.day_id,
    {
        self.day_id
    }

    pub fn ritual_id(&self) -> (r: i32)
        ensures
            r == self@.ritual_id,
    {
        self.ritual_id
    }
}

impl Clone for Task {
    fn clone(&self) -> (r: Task)
        ensures
            r@ == self@,
    {
        Task { id: self.id, title: self.title.clone(), completed: self.completed, day_id: self.day_id }
    }
}

impl Task {
    /// Records a new task, not completed, optionally attached to day `day_id`.
    pub fn new(cx: &mut Store, title: String, day_id: Option<i32>) -> (r: Result<Task, CoreError>)
        requires
            old(cx)@.wf(),
        ensures
            final(cx)@.wf(),
            (day_id matches Some(d) && !old(cx)@.has_day_id(d as int)) ==> r == Err::<Task, CoreError>(
                CoreError::NotFound,
            ),
            !(day_id matches Some(d) && !old(cx)@.has_day_id(d as int)) && old(cx)@.next_task_id
                == MAX_ID ==> r == Err::<Task, CoreError>(CoreError::Persistence),
            !(day_id matches Some(d) && !old(cx)@.has_day_id(d as int)) && old(cx)@.next_task_id
                < MAX_ID ==> r is Ok,
            r is Err ==> final(cx)@ == old(cx)@,
            r matches Ok(t) ==> {
                &&& t@ == (TaskView {
                    id: old(cx)@.next_task_id,
                    title: title@,
                    completed: false,
                    day_id: opt_int(day_id),
                })
                &&& final(cx)@ == (StoreView {
                    tasks: old(cx)@.tasks.push(t@),
                    next_task_id: old(cx)@.next_task_id + 1,
                    ..old(cx)@
                })
            },
    {
        if let Some(d) = day_id {
            if cx.day_index_by_id(d).is_none() {
                return Err(CoreError::NotFound);
            }
        }
        if cx.next_task_id >= MAX_ID {
            return Err(CoreError::Persistence);
        }
        let ghost s = cx@;
        let task = Task { id: cx.next_task_id, title, completed: false, day_id };
        cx.tasks.push(task.clone());
        cx.next_task_id = cx.next_task_id + 1;
        assert(cx@.tasks =~= s.tasks.push(task@));
        proof {
            assert(cx@.days == s.days);
            assert(cx@.rituals == s.rituals);
            assert(cx@.records == s.records);
        }
        Ok(task)
    }

    /// Looks a task up by its identifier.
    pub fn get_by_id(id: i32, cx: &Store) -> (r: Result<Task, CoreError>)
        ensures
            r is Ok <==> cx@.has_task_id(id as int),
            r matches Ok(t) ==> t@.id == id && cx@.tasks.contains(t@),
            r is Err ==> r == Err::<Task, CoreError>(CoreError::NotFound),
    {
        match cx.task_position(id) {
            Some(i) => {
                let t = cx.tasks[i].clone();
                assert(cx@.tasks[i as int] == t@);
                Ok(t)
            },
            None => Err(CoreError::NotFound),
        }
    }

    /// Sets the completed flag of the stored task that has the identifier of `self`.
    pub fn set_completed(&self, cx: &mut Store, completed: bool) -> (r: Result<(), CoreError>)
        requires
            old(cx)@.wf(),
        ensures
            final(cx)@.wf(),
            r is Ok <==> old(cx)@.has_task_id(self@.id),
            r is Err ==> r == Err::<(), CoreError>(CoreError::NotFound) && final(cx)@ == old(cx)@,
            r is Ok ==> {
                let i = task_index(old(cx)@, self@.id);
                final(cx)@ == (StoreView {
                    tasks: old(cx)@.tasks.update(i, TaskView { completed, ..old(cx)@.tasks[i] }),
                    ..old(cx)@
                })
            },
    {
        let i = match cx.task_position(self.id) {
            Some(i) => i,
            None => {
                return Err(CoreError::NotFound);
            },
        };
        let ghost s = cx@;
        proof {
            lemma_task_index(s, i as int);
        }
        let t = Task {
            id: cx.tasks[i].id,
            title: cx.tasks[i].title.clone(),
            completed,
            day_id: cx.tasks[i].day_id,
        };
        cx.tasks.set(i, t);
        assert(cx@.tasks =~= s.tasks.update(i as int, TaskView { completed, ..s.tasks[i as int] }));
        proof {
            assert(cx@.days == s.days);
            assert(cx@.rituals == s.rituals);
            assert(cx@.records == s.records);
        }
        Ok(())
    }

    pub fn id(&self) -> (r: i32)
        ensures
            r == self@.id,
    {
        self.id
    }

    pub fn title(&self) -> (r: &str)
        ensures
            r@ == self@.title,
    {
        self.title.as_str()
    }

    pub fn completed(&self) -> (r: bool)
        ensures
            r == self@.completed,
    {
        self.completed
    }

    /// The day the task is attached to, if any.
    pub fn day_id(&self) -> (r: Option<i32>)
        ensures
            opt_int(r) == self@.day_id,
    {
        self.day_id
    }
}

/// The task list as a whole.
pub struct Tasks {}

impl Tasks {
    /// Every task, in the order in which they were created.
    pub fn all(cx: &Store) -> (r: Vec<Task>)
        ensures
            r@.map_values(|t: Task| t@) == cx@.tasks,
    {
        let mut out: Vec<Task> = Vec::new();
        let mut i: usize = 0;
        while i < cx.tasks.len()
            invariant
                i <= cx@.tasks.len(),
                out@.map_values(|t: Task| t@) == cx@.tasks.take(i as int),
            decreases cx@.tasks.len() - i,
        {
            let ghost before = out@.map_values(|t: Task| t@);
            let t = cx.tasks[i].clone();
            out.push(t);
            assert(cx@.tasks[i as int] == cx.tasks@[i as int]@);
            assert(out@.map_values(|t: Task| t@) =~= before.push(t@));
            assert(cx@.tasks.take(i + 1) =~= cx@.tasks.take(i as int).push(cx@.tasks[i as int]));
            i = i + 1;
        }
        assert(cx@.tasks.take(cx@.tasks.len() as int) =~= cx@.tasks);
        out
    }
}

impl Day {
    /// The tasks attached to this day, in the order in which they were created.
    pub fn get_tasks(&self, cx: &Store) -> (r: Vec<Task>)
        ensures
            r@.map_values(|t: Task| t@) == tasks_of_day(cx@.tasks, self@.id),
    {
        let mut out: Vec<Task> = Vec::new();
        let mut i: usize = 0;
        while i < cx.tasks.len()
            invariant
                i <= cx@.tasks.len(),
                out@.map_values(|t: Task| t@) == tasks_of_day(cx@.tasks.take(i as int), self@.id),
            decreases cx@.tasks.len() - i,
        {
            let ghost before = out@.map_values(|t: Task| t@);
            assert(cx@.tasks.take(i + 1).drop_last() =~= cx@.tasks.take(i as int));
            assert(cx@.tasks[i as int] == cx.tasks@[i as int]@);
            if cx.tasks[i].day_id == Some(self.id) {
                let t = cx.tasks[i].clone();
                out.push(t);
                assert(out@.map_values(|t: Task| t@) =~= before.push(t@));
            }
            i = i + 1;
        }
        assert(cx@.tasks.take(cx@.tasks.len() as int) =~= cx@.tasks);
        out
    }
}

/// Ensuring a date twice is ensuring it once: the second call finds the day that
/// the first one returned or created and changes nothing. After the first call the
/// date has its day, unless no identifier was left.
pub proof fn lemma_ensure_idempotent(s: StoreView, date: CalendarDate)
    ensures
        ensured(ensured(s, date), date) == ensured(s, date),
        s.next_day_id < MAX_ID ==> ensured(s, date).has_date(date),
{
    if !s.has_date(date) && s.next_day_id < MAX_ID {
        let t = ensured(s, date);
        assert(t.days[s.days.len() as int].date == date);
    }
}

proof fn lemma_records_except(s: Seq<DayRitualView>, id: int, k: int)
    requires
        0 <= k < records_except(s, id).len(),
    ensures
        records_except(s, id)[k].ritual_id != id,
    decreases s.len(),
{
    let rest = records_except(s.drop_last(), id);
    if k < rest.len() {
        lemma_records_except(s.drop_last(), id, k);
    }
}

proof fn lemma_rituals_except(s: Seq<RitualView>, id: int, k: int)
    requires
        0 <= k < rituals_except(s, id).len(),
    ensures
        rituals_except(s, id)[k].id != id,
    decreases s.len(),
{
    let rest = rituals_except(s.drop_last(), id);
    if k < rest.len() {
        lemma_rituals_except(s.drop_last(), id, k);
    }
}

/// Deleting a ritual removes it and every completion record of it, on every day.
pub proof fn lemma_delete_cascades(s: StoreView, id: int)
    ensures
        !ritual_deleted(s, id).has_ritual_id(id),
        forall|day_id: int| !#[trigger] ritual_deleted(s, id).has_record(day_id, id),
{
    let t = ritual_deleted(s, id);
    if t.has_ritual_id(id) {
        let k = choose|k: int| 0 <= k < t.rituals.len() && t.rituals[k].id == id;
        lemma_rituals_except(s.rituals, id, k);
    }
    assert forall|day_id: int| !#[trigger] t.has_record(day_id, id) by {
        if t.has_record(day_id, id) {
            let k = choose|k: int|
                0 <= k < t.records.len() && t.records[k].day_id == day_id && t.records[k].ritual_id
                    == id;
            lemma_records_except(s.records, id, k);
        }
    }
}

/// Each active ritual of `s` is a ritual of `s`, and active.
pub proof fn lemma_active_rituals_members(s: Seq<RitualView>, j: int)
    requires
        0 <= j < active_rituals(s).len(),
    ensures
        active_rituals(s)[j].active,
        exists|m: int| 0 <= m < s.len() && #[trigger] s[m] == active_rituals(s)[j],
    decreases s.len(),
{
    let rest = active_rituals(s.drop_last());
    if j < rest.len() {
        lemma_active_rituals_members(s.drop_last(), j);
        let m = choose|m: int| 0 <= m < s.drop_last().len() && s.drop_last()[m] == rest[j];
        assert(s[m] == s.drop_last()[m]);
    } else {
        assert(s[s.len() - 1] == s.last());
    }
}

/// Where the rituals of `s` have distinct identifiers, so do its active ones.
pub proof fn lemma_active_rituals_distinct(s: Seq<RitualView>)
    requires
        forall|a: int, b: int| 0 <= a < b < s.len() ==> s[a].id != s[b].id,
    ensures
        forall|a: int, b: int|
            0 <= a < b < active_rituals(s).len() ==> active_rituals(s)[a].id != active_rituals(
                s,
            )[b].id,
    decreases s.len(),
{
    if s.len() > 0 {
        let p = s.drop_last();
        assert forall|a: int, b: int| 0 <= a < b < p.len() implies p[a].id != p[b].id by {
            assert(p[a] == s[a]);
            assert(p[b] == s[b]);
        }
        lemma_active_rituals_distinct(p);
        let act = active_rituals(s);
        let rest = active_rituals(p);
        assert forall|a: int, b: int| 0 <= a < b < act.len() implies act[a].id != act[b].id by {
            if s.last().active && b == act.len() - 1 {
                lemma_active_rituals_members(p, a);
                let m = choose|m: int| 0 <= m < p.len() && p[m] == rest[a];
                assert(p[m] == s[m]);
                assert(s[m].id != s[s.len() - 1].id);
            } else {
                assert(act[a] == rest[a]);
                assert(act[b] == rest[b]);
            }
        }
    }
}

} // verus!
