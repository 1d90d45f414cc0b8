use chrono::TimeZone;
use timed_tasks::task::Task;
use timed_tasks::tasks::{PredefinedTasks, TimeTracker, TimeTrackerError, TimeTrackerResult};
use timed_tasks::time::{current_timestamp, midnight_timestamp, parse_date};

const T0: i64 = 1_700_000_000_000_000;
const MINUTE: i64 = 60_000_000;

fn ok(r: TimeTrackerResult) -> bool {
    r == TimeTrackerResult::Success
}

fn err(r: TimeTrackerResult, e: TimeTrackerError) -> bool {
    r == TimeTrackerResult::Error(e)
}

#[test]
fn scenario_create_stop_show() {
    let mut tracker = TimeTracker::new();
    assert!(ok(tracker.create_task(String::from("Reading"), Vec::new())));
    assert_eq!(tracker.tasks.len(), 1);
    assert_eq!(tracker.tasks[0].id, 1);
    assert!(tracker.tasks[0].end_time.is_none());
    let (r, _) = tracker.stop_active_task(5, String::from("ok"));
    assert!(ok(r));
    let t = &tracker.tasks[0];
    assert!(t.end_time.is_some());
    assert!(t.duration >= 0);
    assert_eq!(t.energy, Some(5));
    assert_eq!(t.comments, Some(String::from("ok")));
    let now = current_timestamp();
    let blocks = tracker.render_all(now);
    assert_eq!(blocks.len(), 1);
    assert!(blocks[0].starts_with("Task: Reading\n"));
    assert!(blocks[0].contains("Life Energy: 5\n"));
    assert!(blocks[0].contains("Tags: None\n"));
    assert!(blocks[0].contains("Comments: ok\n"));
    let (all, r2) = tracker.show_all_tasks(now);
    assert!(ok(r2));
    assert_eq!(all, blocks[0]);
}

#[test]
fn create_while_active_rejected() {
    let mut tracker = TimeTracker::new();
    assert!(ok(tracker.create_task_at(String::from("Reading"), Vec::new(), T0)));
    let r = tracker.create_task_at(String::from("Anki"), Vec::new(), T0 + MINUTE);
    assert!(err(r, TimeTrackerError::TaskAlreadyActive));
    assert_eq!(tracker.tasks.len(), 1);
    assert_eq!(tracker.tasks[0].name, "Reading");
}

#[test]
fn ids_are_monotone() {
    let mut tracker = TimeTracker::new();
    assert!(ok(tracker.create_task_at(String::from("Reading"), Vec::new(), T0)));
    tracker.stop_active_task_at(4, String::new(), T0 + MINUTE);
    assert!(ok(tracker.create_task_at(String::from("Anki"), Vec::new(), T0 + 2 * MINUTE)));
    tracker.stop_active_task_at(6, String::new(), T0 + 3 * MINUTE);
    assert_eq!(tracker.tasks[0].id, 1);
    assert_eq!(tracker.tasks[1].id, 2);
    assert!(ok(tracker.create_task_at(String::from("Other"), Vec::new(), T0 + 4 * MINUTE)));
    assert_eq!(tracker.tasks[2].id, 3);
}

#[test]
fn removed_ids_are_not_reused() {
    let mut tracker = TimeTracker::new();
    assert!(ok(tracker.create_task_at(String::from("Reading"), Vec::new(), T0)));
    tracker.stop_active_task_at(4, String::new(), T0 + MINUTE);
    assert!(ok(tracker.create_task_at(String::from("Anki"), Vec::new(), T0 + 2 * MINUTE)));
    tracker.stop_active_task_at(6, String::new(), T0 + 3 * MINUTE);

    assert!(ok(tracker.remove_task(1)));
    assert!(ok(tracker.create_task_at(String::from("Other"), Vec::new(), T0 + 4 * MINUTE)));
    assert_eq!(tracker.tasks[1].id, 3);
    tracker.stop_active_task_at(5, String::new(), T0 + 5 * MINUTE);

    // even the largest id stays retired once its task is removed
    assert!(ok(tracker.remove_task(3)));
    assert!(ok(tracker.create_task_at(String::from("Journaling"), Vec::new(), T0 + 6 * MINUTE)));
    assert_eq!(tracker.tasks[1].id, 4);
}

#[test]
fn loading_resumes_id_assignment_above_the_stored_ids() {
    let text = "id,name,start_time,end_time,duration,tags,energy,comments\n\
                8,Anki,2020-01-02 03:04:05 +0000,2020-01-02 03:24:05 +0000,1200,,5,\n";
    let mut tracker = timed_tasks::tasks::TimeTracker::from_csv(text).expect("reads back");
    assert_eq!(tracker.high_water, 8);
    assert!(ok(tracker.create_task_at(String::from("Reading"), Vec::new(), T0)));
    assert_eq!(tracker.tasks[1].id, 9);
}

#[test]
fn stop_without_active_changes_nothing() {
    let mut tracker = TimeTracker::new();
    let (r, flag) = tracker.stop_active_task_at(5, String::from("x"), T0);
    assert!(err(r, TimeTrackerError::NoActiveTasks));
    assert!(flag.is_none());
    assert_eq!(tracker.tasks.len(), 0);

    assert!(ok(tracker.create_task_at(String::from("Reading"), Vec::new(), T0)));
    tracker.stop_active_task_at(4, String::from("done"), T0 + MINUTE);
    let before_duration = tracker.tasks[0].duration;
    let (r2, _) = tracker.stop_active_task_at(9, String::from("again"), T0 + 2 * MINUTE);
    assert!(err(r2, TimeTrackerError::NoActiveTasks));
    assert_eq!(tracker.tasks[0].energy, Some(4));
    assert_eq!(tracker.tasks[0].duration, before_duration);
    assert_eq!(tracker.tasks[0].comments, Some(String::from("done")));
}

#[test]
fn remove_missing_and_existing() {
    let mut tracker = TimeTracker::new();
    assert!(ok(tracker.create_task_at(String::from("Reading"), Vec::new(), T0)));
    tracker.stop_active_task_at(4, String::new(), T0 + MINUTE);
    assert!(ok(tracker.create_task_at(String::from("Anki"), Vec::new(), T0 + 2 * MINUTE)));
    tracker.stop_active_task_at(6, String::new(), T0 + 3 * MINUTE);

    let r = tracker.remove_task(99);
    assert!(err(r, TimeTrackerError::InvalidTaskId));
    assert_eq!(tracker.tasks.len(), 2);
    assert_eq!(tracker.tasks[0].id, 1);
    assert_eq!(tracker.tasks[1].id, 2);

    assert!(ok(tracker.remove_task(1)));
    assert_eq!(tracker.tasks.len(), 1);
    assert_eq!(tracker.tasks[0].id, 2);
    assert_eq!(tracker.tasks[0].name, "Anki");
}

#[test]
fn long_task_asks_for_confirmation_and_takes_the_override() {
    let mut tracker = TimeTracker::new();
    assert!(ok(tracker.create_task_at(String::from("Work Code"), Vec::new(), T0)));
    let (r, flag) = tracker.stop_active_task_at(7, String::from("late"), T0 + 125 * MINUTE);
    assert!(ok(r));
    assert_eq!(flag, Some(1));
    assert_eq!(tracker.tasks[0].duration, 125 * 60);
    assert!(ok(tracker.override_task_duration(1, 45)));
    assert_eq!(tracker.tasks[0].duration, 45 * 60);
    assert_eq!(tracker.tasks[0].energy, Some(7));
    assert!(tracker.tasks[0].end_time.is_some());
}

#[test]
fn short_task_needs_no_confirmation() {
    let mut tracker = TimeTracker::new();
    assert!(ok(tracker.create_task_at(String::from("Reading"), Vec::new(), T0)));
    let (r, flag) = tracker.stop_active_task_at(5, String::new(), T0 + 30 * MINUTE);
    assert!(ok(r));
    assert!(flag.is_none());
    assert_eq!(tracker.tasks[0].duration, 30 * 60);
}

#[test]
fn override_rejects_bad_minutes_and_missing_id() {
    let mut tracker = TimeTracker::new();
    assert!(ok(tracker.create_task_at(String::from("Reading"), Vec::new(), T0)));
    tracker.stop_active_task_at(5, String::new(), T0 + MINUTE);
    let r = tracker.override_task_duration(1, -1);
    assert!(err(r, TimeTrackerError::InvalidTaskDuration));
    let r2 = tracker.override_task_duration(2, 10);
    assert!(err(r2, TimeTrackerError::InvalidTaskId));
    assert_eq!(tracker.tasks[0].duration, 60);
}

#[test]
fn manual_task_is_created_closed() {
    let start = midnight_timestamp(2023, 5, 17).expect("a real date has a midnight");
    let mut tracker = TimeTracker::new();
    let r = tracker.add_manual_task(
        String::from("Hobby Code"),
        start,
        90,
        6,
        String::from("good"),
    );
    assert!(ok(r));
    let t = &tracker.tasks[0];
    assert_eq!(t.id, 1);
    assert_eq!(t.start_time, start);
    assert_eq!(t.end_time, Some(start + 90 * MINUTE));
    assert_eq!(t.duration, 90 * 60);
    assert_eq!(t.energy, Some(6));
    assert_eq!(t.comments, Some(String::from("good")));
}

#[test]
fn manual_task_rejections() {
    let mut tracker = TimeTracker::new();
    let r = tracker.add_manual_task(String::from("X"), T0, 121, 5, String::new());
    assert!(err(r, TimeTrackerError::InvalidTaskDuration));
    let r2 = tracker.add_manual_task(String::new(), T0, 30, 5, String::new());
    assert!(err(r2, TimeTrackerError::InvalidTaskName));
    assert!(ok(tracker.create_task_at(String::from("Reading"), Vec::new(), T0)));
    let r3 = tracker.add_manual_task(String::from("X"), T0, 30, 5, String::new());
    assert!(err(r3, TimeTrackerError::TaskAlreadyActive));
}

#[test]
fn create_validations() {
    let mut tracker = TimeTracker::new();
    let r = tracker.create_task_at(String::new(), Vec::new(), T0);
    assert!(err(r, TimeTrackerError::InvalidTaskName));
    let r2 = tracker.create_task_at(
        String::from("Reading"),
        vec![String::from("a,b")],
        T0,
    );
    assert!(err(r2, TimeTrackerError::InvalidTaskTags));
    let r3 = tracker.create_task_at(String::from("Reading"), vec![String::new()], T0);
    assert!(err(r3, TimeTrackerError::InvalidTaskTags));
    assert_eq!(tracker.tasks.len(), 0);
    let r4 = tracker.create_task_at(
        String::from("Reading"),
        vec![String::from("deep"), String::from("work")],
        T0,
    );
    assert!(ok(r4));
    assert_eq!(
        tracker.tasks[0].tags,
        Some(vec![String::from("deep"), String::from("work")])
    );
}

#[test]
fn empty_comment_is_recorded_as_absent() {
    let mut tracker = TimeTracker::new();
    assert!(ok(tracker.create_task_at(String::from("Reading"), Vec::new(), T0)));
    tracker.stop_active_task_at(5, String::new(), T0 + MINUTE);
    assert_eq!(tracker.tasks[0].comments, None);
}

#[test]
fn status_shows_the_active_task() {
    let mut tracker = TimeTracker::new();
    let (text, r) = tracker.show_active_tasks(T0);
    assert!(err(r, TimeTrackerError::NoActiveTasks));
    assert!(text.is_empty());
    assert!(ok(tracker.create_task_at(String::from("Journaling"), Vec::new(), T0)));
    let (text2, r2) = tracker.show_active_tasks(T0 + 5 * MINUTE);
    assert!(ok(r2));
    assert!(text2.starts_with("Task: Journaling\n"));
    assert!(text2.contains("End: In Progress...\n"));
    assert!(text2.contains("Duration: 5 minutes\n"));
}

#[test]
fn rendered_block_shows_the_tags() {
    let mut tracker = TimeTracker::new();
    let r = tracker.create_task_at(
        String::from("Deep Work"),
        vec![String::from("deep"), String::from("work")],
        T0,
    );
    assert!(ok(r));
    tracker.stop_active_task_at(5, String::new(), T0 + 10 * MINUTE);
    let blocks = tracker.render_all(T0 + 10 * MINUTE);
    assert!(blocks[0].contains("Tags: deep,work\n"));
    assert!(blocks[0].contains("Comments: None\n"));
}

#[test]
fn blank_task_fields() {
    let t = Task::new();
    assert_eq!(t.id, 0);
    assert_eq!(t.name, "");
    assert!(t.end_time.is_none());
    assert_eq!(t.duration, 0);
    assert!(t.tags.is_none());
    assert!(t.energy.is_none());
    assert!(t.comments.is_none());
}

#[test]
fn end_task_computes_seconds() {
    let mut t = Task::new_at(T0);
    let over = t.end_task(3, String::new(), T0 + 90_000_000);
    assert!(!over);
    assert_eq!(t.end_time, Some(T0 + 90_000_000));
    assert_eq!(t.duration, 90);
    assert_eq!(t.energy, Some(3));
    assert_eq!(t.comments, None);

    let mut long = Task::new_at(T0);
    let over2 = long.end_task(8, String::from("x"), T0 + 121 * MINUTE);
    assert!(over2);
    assert_eq!(long.duration, 121 * 60);
}

#[test]
fn predefined_menu() {
    let all = PredefinedTasks::all();
    assert_eq!(all.len(), 8);
    assert_eq!(all[0].name(), "Meetings");
    assert_eq!(all[3].name(), "Hobby Code");
    assert_eq!(all[5].name(), "Browse Internet");
    assert_eq!(PredefinedTasks::from_number(1), Some(PredefinedTasks::Meetings));
    assert_eq!(PredefinedTasks::from_number(8), Some(PredefinedTasks::Other));
    assert_eq!(PredefinedTasks::from_number(0), None);
    assert_eq!(PredefinedTasks::from_number(9), None);
}

#[test]
fn error_messages() {
    assert_eq!(TimeTrackerError::NoActiveTasks.message(), "No active tasks");
    assert_eq!(TimeTrackerError::TaskAlreadyActive.message(), "Task already active");
    assert_eq!(TimeTrackerError::InvalidTaskId.message(), "Invalid task id");
    assert_eq!(TimeTrackerError::InvalidTaskName.message(), "Invalid task name");
    assert_eq!(TimeTrackerError::InvalidTaskDuration.message(), "Invalid task duration");
    assert_eq!(TimeTrackerError::InvalidTaskTags.message(), "Invalid task tags");
    assert_eq!(TimeTrackerError::InvalidTaskEnergy.message(), "Invalid task energy");
}

#[test]
fn date_parsing() {
    assert_eq!(parse_date("2023-05-17"), Some((2023, 5, 17)));
    assert_eq!(parse_date("0001-01-01"), Some((1, 1, 1)));
    assert_eq!(parse_date("2023-5-17"), None);
    assert_eq!(parse_date("0000-01-01"), None);
    assert_eq!(parse_date("abcd-ef-gh"), None);
    assert_eq!(parse_date("2023/05/17"), None);
    assert_eq!(parse_date(""), None);
}

#[test]
fn midnight_matches_the_calendar_library() {
    let got = midnight_timestamp(2023, 5, 17).expect("a real date has a midnight");
    let dt = chrono::NaiveDate::from_ymd_opt(2023, 5, 17)
        .unwrap()
        .and_hms_opt(0, 0, 0)
        .unwrap();
    let want = chrono::Local
        .from_local_datetime(&dt)
        .earliest()
        .unwrap()
        .timestamp_micros();
    assert_eq!(got, want);
    assert_eq!(midnight_timestamp(2023, 2, 30), None);
    assert_eq!(midnight_timestamp(2023, 13, 1), None);
}
