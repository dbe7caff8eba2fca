use rituals::completable::Completable;
use rituals::date::CalendarDate;
use rituals::error::CoreError;
use rituals::ledger::{Day, DayRitual, Ritual, Store, Task, Tasks};
use rituals::materialize::materialize;
use rituals::repeatable::{RepeatFrequency, Repeatable};

fn ymd(y: i32, m: u32, d: u32) -> CalendarDate {
    CalendarDate::from_ymd(y, m, d).unwrap()
}

#[test]
fn ensure_day_twice_gives_one_day() {
    let mut cx = Store::new();
    let first = Day::new(&mut cx, ymd(2024, 5, 1)).unwrap();
    let second = Day::new(&mut cx, ymd(2024, 5, 1)).unwrap();
    assert_eq!(first.id(), second.id());
    assert_eq!(*second.date(), ymd(2024, 5, 1));
    let other = Day::new(&mut cx, ymd(2024, 5, 2)).unwrap();
    assert_ne!(other.id(), first.id());
    assert_eq!(Day::get(&cx, first.id()).unwrap().date(), &ymd(2024, 5, 1));
}

#[test]
fn ensure_rejects_invalid_date() {
    let mut cx = Store::new();
    let bad = CalendarDate { year: 2023, month: 2, day: 29 };
    assert_eq!(Day::new(&mut cx, bad).unwrap_err(), CoreError::Validation);
    assert_eq!(Day::get(&cx, 1).unwrap_err(), CoreError::NotFound);
}

#[test]
fn end_to_end_drink_water() {
    let mut cx = Store::new();
    let created_on = ymd(2024, 3, 1);
    let ritual = Ritual::new(
        &mut cx,
        "Drink water".to_string(),
        Some(RepeatFrequency::Daily),
        created_on,
    )
    .unwrap();
    let day = Day::new(&mut cx, ymd(2024, 3, 1)).unwrap();
    let made = materialize(&mut cx, &day).unwrap();
    assert_eq!(made.len(), 1);
    assert_eq!(made[0].day_id(), day.id());
    assert_eq!(made[0].ritual_id(), ritual.id());
    assert!(!made[0].completed());

    DayRitual::set_completed_for(&mut cx, day.id(), ritual.id(), true).unwrap();
    let again = materialize(&mut cx, &day).unwrap();
    assert!(again.is_empty());
    let record = DayRitual::get(&cx, day.id(), ritual.id()).unwrap();
    assert!(record.completed());
}

#[test]
fn materialize_twice_creates_nothing_new() {
    let mut cx = Store::new();
    let a = Ritual::new(&mut cx, "Stretch".to_string(), Some(RepeatFrequency::Daily), ymd(2024, 1, 1))
        .unwrap();
    let b = Ritual::new(&mut cx, "Review".to_string(), Some(RepeatFrequency::Weekly), ymd(2024, 1, 1))
        .unwrap();
    let monday = Day::new(&mut cx, ymd(2024, 1, 8)).unwrap();
    let tuesday = Day::new(&mut cx, ymd(2024, 1, 9)).unwrap();
    let first = materialize(&mut cx, &monday).unwrap();
    assert_eq!(first.len(), 2);
    assert_eq!(first[0].ritual_id(), a.id());
    assert_eq!(first[1].ritual_id(), b.id());
    let mut rec = DayRitual::get(&cx, monday.id(), a.id()).unwrap();
    rec.set_completed(true);
    rec.update(&mut cx).unwrap();
    assert!(materialize(&mut cx, &monday).unwrap().is_empty());
    assert!(materialize(&mut cx, &monday).unwrap().is_empty());
    assert!(DayRitual::get(&cx, monday.id(), a.id()).unwrap().completed());
    assert!(!DayRitual::get(&cx, monday.id(), b.id()).unwrap().completed());

    let tue = materialize(&mut cx, &tuesday).unwrap();
    assert_eq!(tue.len(), 1);
    assert_eq!(tue[0].ritual_id(), a.id());
    assert_eq!(DayRitual::get(&cx, tuesday.id(), b.id()).unwrap_err(), CoreError::NotFound);
}

#[test]
fn manual_rituals_never_materialized() {
    let mut cx = Store::new();
    let manual = Ritual::new(&mut cx, "Call mum".to_string(), None, ymd(2024, 1, 1)).unwrap();
    assert!(manual.frequency().is_none());
    for d in 1..=10u32 {
        let day = Day::new(&mut cx, ymd(2024, 1, d)).unwrap();
        assert!(materialize(&mut cx, &day).unwrap().is_empty());
        assert_eq!(DayRitual::get(&cx, day.id(), manual.id()).unwrap_err(), CoreError::NotFound);
    }
}

#[test]
fn inactive_rituals_skipped() {
    let mut cx = Store::new();
    let mut r = Ritual::new(&mut cx, "Run".to_string(), Some(RepeatFrequency::Daily), ymd(2024, 1, 1))
        .unwrap();
    let d1 = Day::new(&mut cx, ymd(2024, 1, 1)).unwrap();
    assert_eq!(materialize(&mut cx, &d1).unwrap().len(), 1);
    r.set_active(false);
    let updated = r.update(&mut cx).unwrap();
    assert!(!updated.active());
    assert!(!Ritual::get(&cx, r.id()).unwrap().active());
    let d2 = Day::new(&mut cx, ymd(2024, 1, 2)).unwrap();
    assert!(materialize(&mut cx, &d2).unwrap().is_empty());
    assert!(DayRitual::get(&cx, d1.id(), r.id()).is_ok());
    assert!(Ritual::list_active(&cx).is_empty());
}

#[test]
fn delete_cascades_to_records() {
    let mut cx = Store::new();
    let r = Ritual::new(&mut cx, "Read".to_string(), Some(RepeatFrequency::Daily), ymd(2024, 1, 1))
        .unwrap();
    let keep = Ritual::new(&mut cx, "Walk".to_string(), Some(RepeatFrequency::Daily), ymd(2024, 1, 1))
        .unwrap();
    let d1 = Day::new(&mut cx, ymd(2024, 1, 1)).unwrap();
    let d2 = Day::new(&mut cx, ymd(2024, 1, 2)).unwrap();
    materialize(&mut cx, &d1).unwrap();
    materialize(&mut cx, &d2).unwrap();
    assert!(DayRitual::get(&cx, d1.id(), r.id()).is_ok());
    assert!(DayRitual::get(&cx, d2.id(), r.id()).is_ok());
    Ritual::delete(&mut cx, r.id()).unwrap();
    assert_eq!(DayRitual::get(&cx, d1.id(), r.id()).unwrap_err(), CoreError::NotFound);
    assert_eq!(DayRitual::get(&cx, d2.id(), r.id()).unwrap_err(), CoreError::NotFound);
    assert_eq!(Ritual::get(&cx, r.id()).unwrap_err(), CoreError::NotFound);
    assert!(DayRitual::get(&cx, d1.id(), keep.id()).is_ok());
    assert!(Ritual::delete(&mut cx, r.id()).is_ok());
}

#[test]
fn ritual_validation_and_update() {
    let mut cx = Store::new();
    assert_eq!(
        Ritual::new(&mut cx, String::new(), None, ymd(2024, 1, 1)).unwrap_err(),
        CoreError::Validation
    );
    let bad = CalendarDate { year: 2024, month: 2, day: 30 };
    assert_eq!(
        Ritual::new(&mut cx, "Nap".to_string(), None, bad).unwrap_err(),
        CoreError::Validation
    );
    let mut r = Ritual::new(&mut cx, "Nap".to_string(), None, ymd(2024, 1, 1)).unwrap();
    assert!(r.active());
    assert_eq!(r.title(), "Nap");
    r.set_title("Long nap".to_string());
    r.set_frequency(Some(RepeatFrequency::Monthly));
    let u = r.update(&mut cx).unwrap();
    assert_eq!(u.title(), "Long nap");
    assert_eq!(u.frequency(), Some(&RepeatFrequency::Monthly));
    assert_eq!(u.anchor(), ymd(2024, 1, 1));
    r.set_title(String::new());
    assert_eq!(r.update(&mut cx).unwrap_err(), CoreError::Validation);
    assert_eq!(Ritual::get(&cx, r.id()).unwrap().title(), "Long nap");
    Ritual::delete(&mut cx, r.id()).unwrap();
    let mut gone = u.clone();
    assert_eq!(gone.update(&mut cx).unwrap_err(), CoreError::NotFound);
}

#[test]
fn materialize_unknown_day_fails() {
    let mut cx = Store::new();
    let day = Day::new(&mut cx, ymd(2024, 1, 1)).unwrap();
    let mut other = Store::new();
    assert_eq!(materialize(&mut other, &day).unwrap_err(), CoreError::NotFound);
}

#[test]
fn completion_records_errors_and_delete() {
    let mut cx = Store::new();
    assert_eq!(DayRitual::new(&mut cx, 1, 1).unwrap_err(), CoreError::NotFound);
    assert_eq!(
        DayRitual::set_completed_for(&mut cx, 1, 1, true).unwrap_err(),
        CoreError::NotFound
    );
    let r = Ritual::new(&mut cx, "Pray".to_string(), Some(RepeatFrequency::Daily), ymd(2024, 1, 1))
        .unwrap();
    let d = Day::new(&mut cx, ymd(2024, 1, 1)).unwrap();
    let mut c = DayRitual::new(&mut cx, d.id(), r.id()).unwrap();
    assert!(!c.completed());
    c.set_completed(true);
    c.update(&mut cx).unwrap();
    let same = DayRitual::new(&mut cx, d.id(), r.id()).unwrap();
    assert!(same.completed());
    DayRitual::delete(&mut cx, d.id(), r.id()).unwrap();
    assert_eq!(DayRitual::get(&cx, d.id(), r.id()).unwrap_err(), CoreError::NotFound);
    assert_eq!(c.update(&mut cx).unwrap_err(), CoreError::NotFound);
    assert!(DayRitual::delete(&mut cx, d.id(), r.id()).is_ok());
}

#[test]
fn tasks_by_day_and_completion() {
    let mut cx = Store::new();
    let today = Day::new(&mut cx, ymd(2024, 6, 1)).unwrap();
    assert_eq!(
        Task::new(&mut cx, "Orphan".to_string(), Some(today.id() + 100)).unwrap_err(),
        CoreError::NotFound
    );
    let t1 = Task::new(&mut cx, "Do something".to_string(), Some(today.id())).unwrap();
    let t2 = Task::new(&mut cx, "Do something else".to_string(), None).unwrap();
    assert_eq!(t1.title(), "Do something");
    assert!(!t1.completed());
    assert_eq!(t1.day_id(), Some(today.id()));
    assert_eq!(t2.day_id(), None);
    let all = Tasks::all(&cx);
    assert_eq!(all.len(), 2);
    assert_eq!(all[1].id(), t2.id());
    let todays = today.get_tasks(&cx);
    assert_eq!(todays.len(), 1);
    assert_eq!(todays[0].id(), t1.id());
    t2.set_completed(&mut cx, true).unwrap();
    assert!(Task::get_by_id(t2.id(), &cx).unwrap().completed());
    t2.set_completed(&mut cx, false).unwrap();
    assert!(!Task::get_by_id(t2.id(), &cx).unwrap().completed());
    assert_eq!(Task::get_by_id(999, &cx).unwrap_err(), CoreError::NotFound);
}
