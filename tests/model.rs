use std::cmp::Ordering;
use timaru::calendar::{ClockTime, Date, DateTime};
use timaru::cli::{PomodoroUpdate, UpdateSubCmd};
use timaru::error::{ParseStage, TimaruError};
use timaru::schedule::{path_for, Schedule};
use timaru::setup::{check_setup, config_dir};
use timaru::task::{Task, TaskTime, TimeOfDay};
use timaru::tui::{TuiMode, TuiStep};

fn day() -> Date {
    Date { year: 2012, month: 12, day: 12 }
}

fn at(hour: u32, minute: u32, second: u32) -> DateTime {
    DateTime { date: day(), time: ClockTime { hour, minute, second } }
}

fn precise(hour: u32, minute: u32) -> TaskTime {
    TaskTime::Precise { time: at(hour, minute, 0) }
}

fn period(h1: u32, m1: u32, h2: u32, m2: u32) -> TaskTime {
    TaskTime::Period { start: at(h1, m1, 0), end: at(h2, m2, 0) }
}

fn sample() -> Schedule {
    Schedule::from_str(
        String::from("db/2012/12/12"),
        "# 12-12-2012\n* [ ] 4:30 (1, 0) => a\n* [X] 5:30 => b\n* [ ] night => c\n",
    )
    .unwrap()
}

#[test]
fn remove_out_of_range_index() {
    let mut s = sample();
    let before = s.as_string();
    assert!(s.remove_task(9).is_none());
    assert_eq!(s.as_string(), before);
    assert_eq!(s.tasks.len(), 3);
}

#[test]
fn remove_then_add_uses_a_fresh_index() {
    let mut s = sample();
    let t = s.remove_task(1).unwrap();
    assert_eq!(t.description, "a");
    assert_eq!(s.tasks.iter().map(|e| e.0).collect::<Vec<_>>(), vec![2, 3]);
    assert_eq!(s.next_index(), 4);
    s.add_task(t);
    assert_eq!(s.tasks.iter().map(|e| e.0).collect::<Vec<_>>(), vec![2, 3, 4]);
    assert_eq!(s.find(4), 2);
    assert_eq!(s.find(1), 3);
}

#[test]
fn update_task_changes() {
    let mut s = sample();
    s.update_task(2, &UpdateSubCmd::NotDone).unwrap();
    assert!(!s.tasks[1].1.finished);
    s.update_task(3, &UpdateSubCmd::Done).unwrap();
    assert!(s.tasks[2].1.finished);
    s.update_task(2, &UpdateSubCmd::Pomodoro(PomodoroUpdate::New { total: 4 })).unwrap();
    assert_eq!(s.tasks[1].1.pomodoro, Some((4, 0)));
    s.update_task(1, &UpdateSubCmd::Pomodoro(PomodoroUpdate::New { total: 6 })).unwrap();
    assert_eq!(s.tasks[0].1.pomodoro, Some((6, 0)));
    s.update_task(1, &UpdateSubCmd::Pomodoro(PomodoroUpdate::Done { done: 2 })).unwrap();
    assert_eq!(s.tasks[0].1.pomodoro, Some((6, 2)));
    s.update_task(1, &UpdateSubCmd::Pomodoro(PomodoroUpdate::Remove)).unwrap();
    assert_eq!(s.tasks[0].1.pomodoro, None);
    s.update_task(3, &UpdateSubCmd::Description { desc: String::from("z") }).unwrap();
    assert_eq!(s.tasks[2].1.description, "z");
    s.update_task(3, &UpdateSubCmd::Time { time: String::from("6 - 7") }).unwrap();
    assert!(matches!(s.tasks[2].1.time, TaskTime::Period { start, end } if start == at(6, 0, 0) && end == at(7, 0, 0)));
    let before = s.as_string();
    let r = s.update_task(3, &UpdateSubCmd::Time { time: String::from("30:00") });
    assert!(matches!(r, Err(TimaruError::Parse(ParseStage::Time))));
    assert_eq!(s.as_string(), before);
    assert!(matches!(s.update_task(7, &UpdateSubCmd::Done), Err(TimaruError::Idx)));
}

#[test]
fn move_task_to_another_day() {
    let mut from = sample();
    let other = Date { year: 2013, month: 1, day: 2 };
    let mut to = Schedule::from_content(String::new(), other, "").unwrap();
    from.move_task(1, &mut to).unwrap();
    assert_eq!(from.tasks.len(), 2);
    assert_eq!(to.tasks.len(), 1);
    assert_eq!(to.tasks[0].0, 1);
    assert!(matches!(to.tasks[0].1.time, TaskTime::Precise { time } if time.date == other && time.time == ClockTime { hour: 4, minute: 30, second: 0 }));
    assert!(matches!(from.move_task(1, &mut to), Err(TimaruError::Idx)));
}

#[test]
fn change_date_keeps_clock_times() {
    let other = Date { year: 2000, month: 2, day: 29 };
    let mut t = period(1, 2, 3, 4);
    t.change_date(&other);
    assert!(matches!(t, TaskTime::Period { start, end } if start.date == other && end.date == other && start.time.minute == 2 && end.time.hour == 3));
    let mut g = TaskTime::General { time: TimeOfDay::Noon };
    g.change_date(&other);
    assert!(matches!(g, TaskTime::General { time: TimeOfDay::Noon }));
}

#[test]
fn added_task_defaults() {
    let t = Task::added(precise(8, 0), String::from("x"), Some(3));
    assert_eq!(t.pomodoro, Some((3, 0)));
    assert!(!t.finished);
    assert_eq!(t.as_string(), "* [ ] 8:00 (3, 0) => x");
    let u = Task::added(TaskTime::General { time: TimeOfDay::Evening }, String::from("y"), None);
    assert_eq!(u.as_string(), "* [ ] evening => y");
}

#[test]
fn compare_equal_points() {
    assert_eq!(precise(9, 15).compare(&precise(9, 15)), Some(Ordering::Equal));
    assert_eq!(precise(9, 15).compare(&precise(9, 16)), Some(Ordering::Less));
    assert_eq!(precise(10, 0).compare(&precise(9, 16)), Some(Ordering::Greater));
}

#[test]
fn compare_point_inside_range() {
    assert_eq!(precise(13, 0).compare(&period(12, 0, 14, 0)), Some(Ordering::Equal));
    assert_eq!(period(12, 0, 14, 0).compare(&precise(13, 0)), Some(Ordering::Equal));
    assert_eq!(precise(14, 0).compare(&period(12, 0, 14, 0)), Some(Ordering::Equal));
    assert_eq!(precise(11, 59).compare(&period(12, 0, 14, 0)), Some(Ordering::Less));
    assert_eq!(precise(14, 1).compare(&period(12, 0, 14, 0)), Some(Ordering::Greater));
    assert_eq!(period(12, 0, 14, 0).compare(&precise(15, 0)), Some(Ordering::Less));
}

#[test]
fn compare_ranges_and_periods() {
    let morning = TaskTime::General { time: TimeOfDay::Morning };
    let noon = TaskTime::General { time: TimeOfDay::Noon };
    assert_eq!(precise(7, 0).compare(&morning), Some(Ordering::Equal));
    assert_eq!(noon.compare(&morning), Some(Ordering::Greater));
    assert_eq!(period(5, 0, 6, 0).compare(&morning), Some(Ordering::Less));
    let span = TaskTime::GeneralPeriod { start: TimeOfDay::Evening, end: TimeOfDay::Night };
    assert_eq!(precise(23, 0).compare(&span), Some(Ordering::Equal));
    assert_eq!(span.span(), Some((ClockTime { hour: 17, minute: 0, second: 1 }, Some(ClockTime { hour: 23, minute: 59, second: 59 }))));
}

#[test]
fn compare_custom_is_undefined() {
    let custom = TaskTime::General { time: TimeOfDay::Custom(String::from("later")) };
    assert_eq!(custom.compare(&precise(1, 0)), None);
    assert_eq!(precise(1, 0).compare(&custom), None);
    let half = TaskTime::GeneralPeriod { start: TimeOfDay::Noon, end: TimeOfDay::Custom(String::from("x")) };
    assert_eq!(half.compare(&precise(1, 0)), None);
}

#[test]
fn labels_resolve() {
    assert!(matches!(TimeOfDay::from_label("MORNING"), TimeOfDay::Morning));
    assert!(matches!(TimeOfDay::from_label("AfterNoon"), TimeOfDay::AfterNoon));
    assert!(matches!(TimeOfDay::from_label("midnight"), TimeOfDay::MidNight));
    assert!(matches!(TimeOfDay::from_label("Brunch"), TimeOfDay::Custom(s) if s == "Brunch"));
    assert!(matches!(TimeOfDay::from_label(""), TimeOfDay::Custom(s) if s.is_empty()));
    assert!(matches!(TimeOfDay::from_label("mornings"), TimeOfDay::Custom(_)));
}

#[test]
fn period_names_and_ranges() {
    assert_eq!(TimeOfDay::AfterNoon.as_str(), "afternoon");
    assert_eq!(TimeOfDay::Custom(String::from("Tea")).as_str(), "Tea");
    assert_eq!(TimeOfDay::Noon.to_time(), Some((ClockTime { hour: 12, minute: 0, second: 0 }, None)));
    assert_eq!(TimeOfDay::Night.to_time(), Some((ClockTime { hour: 20, minute: 0, second: 1 }, Some(ClockTime { hour: 23, minute: 59, second: 59 }))));
    assert_eq!(TimeOfDay::Custom(String::from("Tea")).to_time(), None);
}

#[test]
fn task_time_text() {
    assert_eq!(precise(4, 5).as_string(), "4:05");
    assert_eq!(precise(16, 45).as_string(), "16:45");
    assert_eq!(period(9, 0, 17, 30).as_string(), "9:00 - 17:30");
    let gp = TaskTime::GeneralPeriod { start: TimeOfDay::Morning, end: TimeOfDay::Custom(String::from("Tea")) };
    assert_eq!(gp.as_string(), "morning - Tea");
}

#[test]
fn paths_by_date() {
    assert_eq!(path_for("/db", &day()), "/db/2012/12/12");
    assert_eq!(path_for("r", &Date { year: 2021, month: 1, day: 11 }), "r/2021/1/11");
    assert_ne!(path_for("r", &Date { year: 2021, month: 1, day: 11 }), path_for("r", &Date { year: 2021, month: 11, day: 1 }));
    assert_eq!(path_for("r", &Date { year: -44, month: 3, day: 15 }), "r/-44/3/15");
}

#[test]
fn calendar_through_chrono() {
    assert_eq!(Date::from_ymd(2021, 2, 29), None);
    assert_eq!(Date::from_ymd(2020, 2, 29), Some(Date { year: 2020, month: 2, day: 29 }));
    assert_eq!(Date::from_ymd(2020, 13, 1), None);
    assert_eq!(ClockTime::from_hms(24, 0, 0), None);
    assert_eq!(ClockTime::from_hms(23, 59, 59), Some(ClockTime { hour: 23, minute: 59, second: 59 }));
    assert_eq!(Date { year: 2020, month: 2, day: 28 }.succ(), Some(Date { year: 2020, month: 2, day: 29 }));
    assert_eq!(Date { year: 2020, month: 12, day: 31 }.succ(), Some(Date { year: 2021, month: 1, day: 1 }));
    assert_eq!(Date { year: 2021, month: 1, day: 31 }.month_later(), Date { year: 2021, month: 2, day: 28 });
    assert_eq!(Date { year: 2021, month: 12, day: 5 }.month_later(), Date { year: 2022, month: 1, day: 5 });
    assert_eq!(ClockTime { hour: 1, minute: 2, second: 3 }.seconds_of_day(), 3723);
}

#[test]
fn setup_paths() {
    let (cfg, db) = check_setup(Some("/x"), Some("/home/u")).unwrap();
    assert_eq!(cfg, "/x/timaru");
    assert_eq!(db, "/x/timaru/db");
    let (cfg, db) = check_setup(None, Some("/home/u")).unwrap();
    assert_eq!(cfg, "/home/u/.config/timaru");
    assert_eq!(db, "/home/u/.config/timaru/db");
    assert!(matches!(check_setup(None, None), Err(TimaruError::EnvVar)));
    assert!(matches!(config_dir(None, None), Err(TimaruError::EnvVar)));
    assert_eq!(config_dir(Some(""), None).unwrap(), "timaru");
    assert_eq!(config_dir(Some(""), Some("/h")).unwrap(), "timaru");
    assert_eq!(config_dir(Some("/x/"), None).unwrap(), "/x/timaru");
    assert_eq!(config_dir(None, Some("")).unwrap(), ".config/timaru");
    let (cfg, db) = check_setup(Some(""), Some("h")).unwrap();
    assert_eq!(cfg, "timaru");
    assert_eq!(db, "timaru/db");
}

#[test]
fn view_keys() {
    assert_eq!(TuiMode::Empty.step(Some('d')), TuiStep::Draw(TuiMode::Day));
    assert_eq!(TuiMode::Day.step(Some('h')), TuiStep::Draw(TuiMode::Empty));
    assert_eq!(TuiMode::Day.step(Some('q')), TuiStep::Quit);
    assert_eq!(TuiMode::Day.step(Some('x')), TuiStep::Stay);
    assert_eq!(TuiMode::Day.step(None), TuiStep::Draw(TuiMode::Day));
    assert_eq!(TuiMode::Week.step(None), TuiStep::Stay);
}

#[test]
fn equality_of_times() {
    assert_eq!(TimeOfDay::from_label("NIGHT"), TimeOfDay::Night);
    assert_eq!(TimeOfDay::from_label("Tea"), TimeOfDay::Custom(String::from("Tea")));
    assert_ne!(TimeOfDay::Custom(String::from("a")), TimeOfDay::Custom(String::from("b")));
    assert_ne!(TimeOfDay::Noon, TimeOfDay::MidNight);
    assert_eq!(TaskTime::from_str("9 - 17:30", &day()).unwrap(), period(9, 0, 17, 30));
    assert_ne!(precise(9, 0), period(9, 0, 9, 0));
    assert_eq!(
        TaskTime::from_str("noon-Tea", &day()).unwrap(),
        TaskTime::GeneralPeriod { start: TimeOfDay::Noon, end: TimeOfDay::Custom(String::from("Tea")) }
    );
}

#[test]
fn indexed_listing() {
    let mut s = sample();
    s.remove_task(2).unwrap();
    assert_eq!(s.as_indexed_string(), "# 12-12-2012\n(1) * [ ] 4:30 (1, 0) => a\n(3) * [ ] night => c\n");
}

#[test]
fn full_top_index_takes_a_free_one() {
    let mut text = String::from("# 1-1-2020\n");
    for _ in 0..255 {
        text.push_str("* [ ] 8 => x\n");
    }
    let mut s = Schedule::from_str(String::new(), &text).unwrap();
    for i in 1..255u8 {
        assert!(s.remove_task(i).is_some());
    }
    assert_eq!(s.tasks.len(), 1);
    assert_eq!(s.tasks[0].0, 255);
    assert_eq!(s.fresh_index(), 1);
    s.add_task(Task::added(precise(9, 0), String::from("y"), None));
    assert_eq!(s.tasks.iter().map(|e| e.0).collect::<Vec<_>>(), vec![255, 1]);
    assert_eq!(s.fresh_index(), 2);
    s.add_task(Task::added(precise(9, 0), String::from("z"), None));
    assert_eq!(s.tasks[2].0, 2);
}

#[test]
fn consecutive_days() {
    let d = Date { year: 2020, month: 12, day: 30 };
    assert_eq!(
        d.days(3),
        vec![d, Date { year: 2020, month: 12, day: 31 }, Date { year: 2021, month: 1, day: 1 }]
    );
    assert!(d.days(0).is_empty());
    let last = Date { year: timaru::calendar::MAX_YEAR, month: 12, day: 31 };
    assert_eq!(last.days(5), vec![last]);
}
