use timaru::calendar::{ClockTime, Date, DateTime};
use timaru::error::{ParseStage, TimaruError};
use timaru::parser::{get_date, get_ymd, parse_time};
use timaru::schedule::Schedule;
use timaru::task::{Task, TaskTime, TimeOfDay};

const SCHEDULE_STR: &str = "
# 12-12-2012

* [ ] 4:30 (1, 0) => do some stuff
- [X] 5:30 (1, 1) => do some other stuff
";

fn day() -> Date {
    Date { year: 2012, month: 12, day: 12 }
}

fn at(hour: u32, minute: u32, second: u32) -> DateTime {
    DateTime { date: day(), time: ClockTime { hour, minute, second } }
}

fn parse_error<T: std::fmt::Debug>(r: Result<T, TimaruError>) -> ParseStage {
    match r {
        Err(TimaruError::Parse(stage)) => stage,
        other => panic!("expected a parse error, got {:?}", other),
    }
}

#[test]
fn parser_test_schedule_parsing() {
    let schedule = Schedule::from_str(String::new(), SCHEDULE_STR).unwrap();
    println!("{:?}", schedule);
}

#[test]
fn from_string_test_schedule_parsing() {
    let schedule = Schedule::from_str(String::from(""), SCHEDULE_STR).unwrap();
    println!("{:?}", schedule);
}

#[test]
fn two_task_scenario() {
    let s = Schedule::from_str(String::from("f"), SCHEDULE_STR).unwrap();
    assert_eq!(s.date, day());
    assert_eq!(s.file, "f");
    assert_eq!(s.tasks.len(), 2);
    let (i, a) = &s.tasks[0];
    assert_eq!(*i, 1);
    assert!(!a.finished);
    assert!(matches!(a.time, TaskTime::Precise { time } if time == at(4, 30, 0)));
    assert_eq!(a.pomodoro, Some((1, 0)));
    assert_eq!(a.description, "do some stuff");
    let (j, b) = &s.tasks[1];
    assert_eq!(*j, 2);
    assert!(b.finished);
    assert!(matches!(b.time, TaskTime::Precise { time } if time == at(5, 30, 0)));
    assert_eq!(b.pomodoro, Some((1, 1)));
    assert_eq!(b.description, "do some other stuff");
}

#[test]
fn canonical_text_of_scenario() {
    let s = Schedule::from_str(String::new(), SCHEDULE_STR).unwrap();
    assert_eq!(
        s.as_string(),
        "# 12-12-2012\n* [ ] 4:30 (1, 0) => do some stuff\n* [X] 5:30 (1, 1) => do some other stuff\n"
    );
}

#[test]
fn round_trip_keeps_tasks_and_order() {
    let text = "# 3-7-2021\n* [ ] evening - night => read\n* [X] 9:05 - 10:30 (4, 5) => deep work\n* [ ] Brunch (0, 0) => eat\n* [X] 23:00 => sleep\n";
    let s = Schedule::from_str(String::from("p"), text).unwrap();
    assert_eq!(s.as_string(), text);
    let again = Schedule::from_str(String::from("p"), &s.as_string()).unwrap();
    assert_eq!(again.as_string(), s.as_string());
    assert_eq!(again.tasks.len(), 4);
    assert!(matches!(&again.tasks[2].1.time, TaskTime::General { time: TimeOfDay::Custom(l) } if l == "Brunch"));
    assert_eq!(again.tasks[1].1.pomodoro, Some((4, 5)));
}

#[test]
fn serialize_is_idempotent_through_seconds() {
    let mut s = Schedule::from_content(String::new(), day(), "").unwrap();
    s.add_task(Task::added(TaskTime::Precise { time: at(7, 3, 42) }, String::from("run"), Some(2)));
    let text = s.as_string();
    assert_eq!(text, "# 12-12-2012\n* [ ] 7:03 (2, 0) => run\n");
    let back = Schedule::from_str(String::new(), &text).unwrap();
    assert_eq!(back.as_string(), text);
}

#[test]
fn blank_lines_between_tasks_are_skipped() {
    let s = Schedule::from_str(String::new(), "# 1-1-2020\r\n\r\n* [ ] noon => lunch\r\n\n  \n- [X] 8 => wake\n").unwrap();
    assert_eq!(s.tasks.len(), 2);
    assert_eq!(s.tasks[0].1.description, "lunch");
    assert_eq!(s.tasks[1].0, 2);
}

#[test]
fn empty_file_gives_empty_schedule() {
    let s = Schedule::from_content(String::from("x"), day(), "").unwrap();
    assert_eq!(s.date, day());
    assert!(s.tasks.is_empty());
    let t = Schedule::from_content(String::from("x"), day(), "  \n\t\n").unwrap();
    assert!(t.tasks.is_empty());
    assert_eq!(t.date, day());
}

#[test]
fn stored_content_is_trimmed() {
    let s = Schedule::from_content(String::new(), day(), "\n# 2-3-2004\n* [ ] 1 => a  \n\n").unwrap();
    assert_eq!(s.date, Date { year: 2004, month: 3, day: 2 });
    assert_eq!(s.tasks[0].1.description, "a");
}

#[test]
fn header_errors() {
    assert_eq!(parse_error(Schedule::from_str(String::new(), "12-12-2012\n")), ParseStage::Date);
    assert_eq!(parse_error(Schedule::from_str(String::new(), "# 31-4-2021\n")), ParseStage::Date);
    assert_eq!(parse_error(Schedule::from_str(String::new(), "# 29-2-2021\n")), ParseStage::Date);
    assert_eq!(parse_error(Schedule::from_str(String::new(), "# 1/2/2021\n")), ParseStage::Date);
    assert!(Schedule::from_str(String::new(), "# 29-2-2020\n").is_ok());
}

#[test]
fn one_bad_line_fails_the_schedule() {
    let r = Schedule::from_str(String::new(), "# 1-1-2020\n* [ ] 8 => ok\nnot a task\n");
    assert_eq!(parse_error(r), ParseStage::StartOfTask);
}

#[test]
fn too_many_tasks() {
    let mut text = String::from("# 1-1-2020\n");
    for _ in 0..255 {
        text.push_str("* [ ] 8 => x\n");
    }
    assert_eq!(Schedule::from_str(String::new(), &text).unwrap().tasks.len(), 255);
    text.push_str("* [ ] 8 => x\n");
    assert_eq!(parse_error(Schedule::from_str(String::new(), &text)), ParseStage::TaskIndex);
}

#[test]
fn task_line_errors() {
    let d = day();
    assert_eq!(parse_error(Task::from_str("[ ] 8 => a", &d)), ParseStage::StartOfTask);
    assert_eq!(parse_error(Task::from_str("* ( ) 8 => a", &d)), ParseStage::StartOfTask);
    assert_eq!(parse_error(Task::from_str("* [Y] 8 => a", &d)), ParseStage::Finished);
    assert_eq!(parse_error(Task::from_str("* [ ]8 => a", &d)), ParseStage::TaskTime);
    assert_eq!(parse_error(Task::from_str("* [ ] 8 a", &d)), ParseStage::TaskTime);
    assert_eq!(parse_error(Task::from_str("* [ ] 8 (1 2) => a", &d)), ParseStage::Pomodoro);
    assert_eq!(parse_error(Task::from_str("* [ ] 8 (1, 256) => a", &d)), ParseStage::Pomodoro);
    assert_eq!(parse_error(Task::from_str("* [ ] 8 (1, 2) a", &d)), ParseStage::Pomodoro);
    assert_eq!(parse_error(Task::from_str("* [ ] 25 => a", &d)), ParseStage::Time);
    assert_eq!(parse_error(Task::from_str("* [ ] a - b - c => a", &d)), ParseStage::TaskTime);
}

#[test]
fn task_line_whitespace_tolerance() {
    let t = Task::from_str("  -  [X]   8:15   (  3 ,4 )  =>   tidy (desk)", &day()).unwrap();
    assert!(t.finished);
    assert!(matches!(t.time, TaskTime::Precise { time } if time == at(8, 15, 0)));
    assert_eq!(t.pomodoro, Some((3, 4)));
    assert_eq!(t.description, "tidy (desk)");
    let u = Task::from_str("* [] morning => plan (later)", &day()).unwrap();
    assert!(!u.finished);
    assert!(matches!(u.time, TaskTime::General { time: TimeOfDay::Morning }));
    assert_eq!(u.pomodoro, None);
    assert_eq!(u.description, "plan (later)");
}

#[test]
fn clock_boundaries() {
    let d = day();
    assert!(matches!(TaskTime::from_str("23:59:59", &d), Ok(TaskTime::Precise { time }) if time == at(23, 59, 59)));
    assert_eq!(parse_error(TaskTime::from_str("24:00:00", &d)), ParseStage::Time);
    assert_eq!(parse_time("23:59:59", &d).unwrap(), at(23, 59, 59));
    assert_eq!(parse_error(parse_time("24:00:00", &d)), ParseStage::Time);
    assert_eq!(parse_error(parse_time("12:60", &d)), ParseStage::Time);
    assert_eq!(parse_error(parse_time("noon", &d)), ParseStage::Time);
    assert_eq!(parse_time("7", &d).unwrap(), at(7, 0, 0));
    assert_eq!(parse_time("7:5", &d).unwrap(), at(7, 5, 0));
}

#[test]
fn task_time_shapes() {
    let d = day();
    assert!(matches!(TaskTime::from_str(" 9:00 - 17:30 ", &d), Ok(TaskTime::Period { start, end }) if start == at(9, 0, 0) && end == at(17, 30, 0)));
    assert!(matches!(TaskTime::from_str("Morning-evening", &d), Ok(TaskTime::GeneralPeriod { start: TimeOfDay::Morning, end: TimeOfDay::Evening })));
    assert!(matches!(TaskTime::from_str("4:30 - evening", &d), Ok(TaskTime::GeneralPeriod { start: TimeOfDay::Custom(s), end: TimeOfDay::Evening }) if s == "4:30"));
    assert!(matches!(TaskTime::from_str("after lunch", &d), Ok(TaskTime::General { time: TimeOfDay::Custom(s) }) if s == "after lunch"));
    assert!(matches!(TaskTime::from_str("99999999999", &d), Ok(TaskTime::General { time: TimeOfDay::Custom(_) })));
}

#[test]
fn date_arguments() {
    assert_eq!(get_ymd("12-12-2012"), Some((12, 12, 2012)));
    assert_eq!(get_ymd(" 1-2-3 rest"), Some((1, 2, 3)));
    assert_eq!(get_ymd("1-2"), None);
    assert_eq!(get_date("31-12-1999").unwrap(), Date { year: 1999, month: 12, day: 31 });
    assert_eq!(parse_error(get_date("31-11-1999")), ParseStage::Date);
    assert_eq!(parse_error(get_date("x")), ParseStage::Date);
}

#[test]
fn empty_labels_read_back() {
    let mut s = Schedule::from_content(String::new(), day(), "").unwrap();
    s.add_task(Task::added(TaskTime::General { time: TimeOfDay::Custom(String::new()) }, String::from("a"), None));
    s.add_task(Task::added(
        TaskTime::GeneralPeriod { start: TimeOfDay::Custom(String::new()), end: TimeOfDay::Night },
        String::from("b"),
        Some(1),
    ));
    let text = s.as_string();
    assert_eq!(text, "# 12-12-2012\n* [ ]  => a\n* [ ]  - night (1, 0) => b\n");
    let back = Schedule::from_str(String::new(), &text).unwrap();
    assert!(matches!(&back.tasks[0].1.time, TaskTime::General { time: TimeOfDay::Custom(l) } if l.is_empty()));
    assert!(matches!(&back.tasks[1].1.time, TaskTime::GeneralPeriod { start: TimeOfDay::Custom(l), end: TimeOfDay::Night } if l.is_empty()));
    assert_eq!(back.as_string(), text);
}

#[test]
fn label_beside_out_of_range_clock() {
    let d = day();
    assert_eq!(
        TaskTime::from_str("x-24", &d).unwrap(),
        TaskTime::GeneralPeriod {
            start: TimeOfDay::Custom(String::from("x")),
            end: TimeOfDay::Custom(String::from("24")),
        }
    );
    assert_eq!(
        TaskTime::from_str("morning - 25:00", &d).unwrap(),
        TaskTime::GeneralPeriod { start: TimeOfDay::Morning, end: TimeOfDay::Custom(String::from("25:00")) }
    );
    assert_eq!(
        TaskTime::from_str("25:00 - gym", &d).unwrap(),
        TaskTime::GeneralPeriod {
            start: TimeOfDay::Custom(String::from("25:00")),
            end: TimeOfDay::Custom(String::from("gym")),
        }
    );
    assert_eq!(parse_error(TaskTime::from_str("25:00 - 26:00", &d)), ParseStage::Time);
    assert_eq!(parse_error(TaskTime::from_str("9 - 24", &d)), ParseStage::Time);
    assert_eq!(parse_error(TaskTime::from_str("24", &d)), ParseStage::Time);
}

#[test]
fn unicode_whitespace_is_trimmed() {
    let d = day();
    assert_eq!(TaskTime::from_str("\u{a0}4", &d).unwrap(), TaskTime::Precise { time: at(4, 0, 0) });
    assert_eq!(
        TaskTime::from_str("go\u{a0}", &d).unwrap(),
        TaskTime::General { time: TimeOfDay::Custom(String::from("go")) }
    );
    assert_eq!(
        TaskTime::from_str("4\u{a0}-5", &d).unwrap(),
        TaskTime::Period { start: at(4, 0, 0), end: at(5, 0, 0) }
    );
    assert_eq!(
        TaskTime::from_str("go\u{a0}-x", &d).unwrap(),
        TaskTime::GeneralPeriod {
            start: TimeOfDay::Custom(String::from("go")),
            end: TimeOfDay::Custom(String::from("x")),
        }
    );
    let empty = Schedule::from_content(String::new(), d, "\u{a0}\u{3000}\n").unwrap();
    assert!(empty.tasks.is_empty());
    assert_eq!(empty.date, d);
    let s = Schedule::from_content(String::new(), Date { year: 2000, month: 1, day: 1 }, "\u{a0}# 12-12-2012\u{2003}").unwrap();
    assert_eq!(s.date, d);
}
