use timed_tasks::codec::CsvError;
use timed_tasks::task::Task;
use timed_tasks::tasks::TimeTracker;

const T0: i64 = 1_700_000_000_000_000;
const MINUTE: i64 = 60_000_000;

fn same_tasks(a: &TimeTracker, b: &TimeTracker) {
    assert_eq!(a.tasks.len(), b.tasks.len());
    for (x, y) in a.tasks.iter().zip(b.tasks.iter()) {
        assert_eq!(x.id, y.id);
        assert_eq!(x.name, y.name);
        assert_eq!(x.start_time, y.start_time);
        assert_eq!(x.end_time, y.end_time);
        assert_eq!(x.duration, y.duration);
        assert_eq!(x.tags, y.tags);
        assert_eq!(x.energy, y.energy);
        assert_eq!(x.comments, y.comments);
    }
}

#[test]
fn round_trip_empty_store() {
    let tracker = TimeTracker::new();
    let text = tracker.to_csv().expect("an empty store is storable");
    assert_eq!(text, "id,name,start_time,end_time,duration,tags,energy,comments\n");
    let back = TimeTracker::from_csv(&text).expect("the header alone reads back");
    assert_eq!(back.tasks.len(), 0);
}

#[test]
fn round_trip_one_task() {
    let mut tracker = TimeTracker::new();
    assert!(tracker
        .create_task_at(String::from("Reading"), Vec::new(), T0)
        == timed_tasks::tasks::TimeTrackerResult::Success);
    tracker.stop_active_task_at(5, String::from("went ok"), T0 + 30 * MINUTE);
    let text = tracker.to_csv().expect("storable");
    let back = TimeTracker::from_csv(&text).expect("reads back");
    same_tasks(&tracker, &back);
}

#[test]
fn round_trip_many_tasks_with_one_active() {
    let mut tracker = TimeTracker::new();
    tracker.create_task_at(
        String::from("Deep Work"),
        vec![String::from("deep"), String::from("work")],
        T0,
    );
    tracker.stop_active_task_at(8, String::from("two lines\nof notes"), T0 + 50 * MINUTE);
    tracker.create_task_at(
        String::from("pair, \"review\" session"),
        Vec::new(),
        T0 + 60 * MINUTE,
    );
    tracker.stop_active_task_at(-2, String::from("comma, inside"), T0 + 70 * MINUTE);
    tracker.create_task_at(String::from("Anki"), Vec::new(), T0 + 80 * MINUTE);
    assert!(tracker.tasks[2].end_time.is_none());
    let text = tracker.to_csv().expect("storable");
    let back = TimeTracker::from_csv(&text).expect("reads back");
    same_tasks(&tracker, &back);
    assert!(back.tasks[2].end_time.is_none());
}

#[test]
fn round_trip_fractional_and_early_instants() {
    let mut tracker = TimeTracker::new();
    tracker.create_task_at(String::from("Reading"), Vec::new(), T0 + 123_456);
    tracker.stop_active_task_at(5, String::new(), T0 + 123_456 + 7 * MINUTE + 654_321);
    let text = tracker.to_csv().expect("storable");
    let back = TimeTracker::from_csv(&text).expect("reads back");
    same_tasks(&tracker, &back);

    let mut early = TimeTracker::new();
    early.create_task_at(String::from("Other"), Vec::new(), -1_000_000_000_000_000);
    let text2 = early.to_csv().expect("storable");
    let back2 = TimeTracker::from_csv(&text2).expect("reads back");
    same_tasks(&early, &back2);
    assert_eq!(back2.tasks[0].start_time, -1_000_000_000_000_000);
}

#[test]
fn round_trip_negative_duration_and_energy() {
    let mut tracker = TimeTracker::new();
    tracker.tasks.push(Task {
        id: 3,
        name: String::from("odd"),
        start_time: T0,
        end_time: Some(T0 - 5_000_000),
        duration: -5,
        tags: None,
        energy: Some(-3),
        comments: None,
    });
    let text = tracker.to_csv().expect("storable");
    let back = TimeTracker::from_csv(&text).expect("reads back");
    same_tasks(&tracker, &back);
}

#[test]
fn unstorable_stores_are_refused() {
    let mut tracker = TimeTracker::new();
    tracker.tasks.push(Task {
        id: 1,
        name: String::from("x"),
        start_time: T0,
        end_time: None,
        duration: 0,
        tags: Some(vec![String::from("a,b")]),
        energy: None,
        comments: None,
    });
    assert!(tracker.to_csv().is_none());
    tracker.tasks[0].tags = Some(Vec::new());
    assert!(tracker.to_csv().is_none());
    tracker.tasks[0].tags = None;
    tracker.tasks[0].comments = Some(String::new());
    assert!(tracker.to_csv().is_none());
    tracker.tasks[0].comments = None;
    assert!(tracker.to_csv().is_some());
    assert!(tracker.times_in_range());
}

#[test]
fn reading_a_plain_file() {
    let text = "id,name,start_time,end_time,duration,tags,energy,comments\n\
                7,Reading,2020-01-02 03:04:05.123456 +0000,,360,a,b\n\
                8,Anki,2020-01-02 03:04:05.123456 +0000,2020-01-02 04:04:05.123456 +0000,3600,x,5,hi\n";
    let back = TimeTracker::from_csv(text).expect("reads back");
    assert_eq!(back.tasks.len(), 1);
    let t = &back.tasks[0];
    assert_eq!(t.id, 8);
    assert_eq!(t.name, "Anki");
    assert!(t.end_time.is_some());
    assert_eq!(t.end_time.unwrap() - t.start_time, 3_600_000_000);
    assert_eq!(t.duration, 3600);
    assert_eq!(t.tags, Some(vec![String::from("x")]));
    assert_eq!(t.energy, Some(5));
    assert_eq!(t.comments, Some(String::from("hi")));
}

#[test]
fn short_rows_and_blank_lines_are_skipped() {
    let text = "id,name,start_time,end_time,duration,tags,energy,comments\n\
                \n\
                a,b\n\
                9,Other,2021-06-07 08:09:10.5 +0200,,0,,,\n";
    let back = TimeTracker::from_csv(text).expect("reads back");
    assert_eq!(back.tasks.len(), 1);
    assert_eq!(back.tasks[0].id, 9);
    assert!(back.tasks[0].end_time.is_none());
    assert_eq!(back.tasks[0].tags, None);
    assert_eq!(back.tasks[0].energy, None);
    assert_eq!(back.tasks[0].comments, None);
}

#[test]
fn malformed_text_is_a_syntax_error() {
    assert_eq!(
        TimeTracker::from_csv("\"unclosed quote").err(),
        Some(CsvError::BadSyntax)
    );
    assert_eq!(
        TimeTracker::from_csv("\"a\"junk,b\n").err(),
        Some(CsvError::BadSyntax)
    );
}

#[test]
fn malformed_records_are_record_errors() {
    let bad_id = "abc,x,2020-01-02 03:04:05 +0000,,0,,,\n";
    assert_eq!(TimeTracker::from_csv(bad_id).err(), Some(CsvError::BadRecord));
    let bad_time = "1,x,not a time,,0,,,\n";
    assert_eq!(TimeTracker::from_csv(bad_time).err(), Some(CsvError::BadRecord));
    let bad_duration = "1,x,2020-01-02 03:04:05 +0000,,ten,,,\n";
    assert_eq!(TimeTracker::from_csv(bad_duration).err(), Some(CsvError::BadRecord));
    let bad_energy = "1,x,2020-01-02 03:04:05 +0000,,0,,much,\n";
    assert_eq!(TimeTracker::from_csv(bad_energy).err(), Some(CsvError::BadRecord));
}

#[test]
fn quoted_fields_read_back() {
    let text = "1,\"a, \"\"b\"\" c\",2020-01-02 03:04:05 +0000,,0,,,\"line1\nline2\"\n";
    let back = TimeTracker::from_csv(text).expect("reads back");
    assert_eq!(back.tasks[0].name, "a, \"b\" c");
    assert_eq!(back.tasks[0].comments, Some(String::from("line1\nline2")));
}
