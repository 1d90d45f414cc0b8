//! The task store: an ordered collection of tasks with monotone id
//! assignment and the single-active-task rule.

use vstd::prelude::*;
use vstd::string::StringExecFns;

use crate::task::{
    blank_task, dur_secs_i64, end_needs_confirmation, ended_task, opt_text, Task, TaskV,
};
use crate::time::{clamp_ts_spec, current_timestamp, ts_in_range, MAX_TS, MIN_TS};

verus! {

/// The store. Tasks stand in creation order; no operation reorders them.
/// `high_water` is the largest id the store has held since it was built
/// this run (`new` starts it at 0, loading starts it at the file's largest
/// id); ids are assigned strictly above it, so removing a task never hands
/// its id out again within the run. The flat file carries no such mark, so
/// across runs only the largest stored id bounds the next assignment.
pub struct TimeTracker {
    pub tasks: Vec<Task>,
    pub high_water: u32,
}

/// The id watermark bounds every id in the store.
pub open spec fn id_watermark_ok(s: Seq<TaskV>, hw: int) -> bool {
    max_id(s) <= hw
}

#[derive(Clone, Copy, PartialEq, Eq, Structural, Debug)]
pub enum TimeTrackerError {
    InvalidTaskName,
    InvalidTaskDuration,
    InvalidTaskTags,
    InvalidTaskEnergy,
    InvalidTaskId,
    NoActiveTasks,
    TaskAlreadyActive,
}

#[derive(Clone, Copy, PartialEq, Eq, Structural, Debug)]
pub enum TimeTrackerResult {
    Success,
    Error(TimeTrackerError),
}

impl View for TimeTracker {
    type V = Seq<TaskV>;

    open spec fn view(&self) -> Seq<TaskV> {
        self.tasks.deep_view()
    }
}

/// A task is active while it has no end instant.
pub open spec fn is_active(t: TaskV) -> bool {
    t.end_time is None
}

/// Some task in the store is active.
pub open spec fn has_active(s: Seq<TaskV>) -> bool {
    exists|i: int| 0 <= i < s.len() && is_active(#[trigger] s[i])
}

/// No two tasks are active at once.
pub open spec fn at_most_one_active(s: Seq<TaskV>) -> bool {
    forall|i: int, j: int|
        0 <= i < j < s.len() ==> !(is_active(#[trigger] s[i]) && is_active(#[trigger] s[j]))
}

/// No id is carried by two tasks.
pub open spec fn unique_ids(s: Seq<TaskV>) -> bool {
    forall|i: int, j: int|
        0 <= i < j < s.len() ==> (#[trigger] s[i].id) != (#[trigger] s[j].id)
}

/// Every start instant is storable (so durations can be computed and the
/// store can be written out).
pub open spec fn starts_in_range(s: Seq<TaskV>) -> bool {
    forall|i: int| 0 <= i < s.len() ==> ts_in_range(#[trigger] s[i].start_time)
}

/// Every instant in the store is storable, so every task can be rendered
/// and written out.
pub open spec fn times_ok(s: Seq<TaskV>) -> bool {
    forall|i: int|
        0 <= i < s.len() ==> (ts_in_range((#[trigger] s[i]).start_time) && (s[i].end_time
            matches Some(e) ==> ts_in_range(e)))
}

/// The texts joined, in order.
pub open spec fn concat_texts(bs: Seq<Seq<char>>) -> Seq<char>
    decreases bs.len(),
{
    if bs.len() == 0 {
        Seq::empty()
    } else {
        concat_texts(bs.drop_last()) + bs.last()
    }
}

/// The index of the first active task, or -1 when none is.
pub open spec fn first_active_index(s: Seq<TaskV>) -> int
    decreases s.len(),
{
    if s.len() == 0 {
        -1
    } else if is_active(s[0]) {
        0
    } else {
        let r = first_active_index(s.drop_first());
        if r < 0 {
            -1
        } else {
            r + 1
        }
    }
}

pub proof fn lemma_first_active_index(s: Seq<TaskV>)
    ensures
        has_active(s) ==> 0 <= first_active_index(s) < s.len(),
        has_active(s) ==> is_active(s[first_active_index(s)]),
        has_active(s) ==> (forall|j: int|
            0 <= j < first_active_index(s) ==> !is_active(#[trigger] s[j])),
        !has_active(s) ==> first_active_index(s) == -1,
    decreases s.len(),
{
    if s.len() > 0 && !is_active(s[0]) {
        lemma_first_active_index(s.drop_first());
        if has_active(s) {
            let w = choose|i: int| 0 <= i < s.len() && is_active(#[trigger] s[i]);
            assert(s.drop_first()[w - 1] == s[w]);
            assert(is_active(s.drop_first()[w - 1]));
            assert(has_active(s.drop_first()));
            let r = first_active_index(s.drop_first());
            assert(s.drop_first()[r] == s[r + 1]);
            assert forall|j: int|
                0 <= j < first_active_index(s) implies !is_active(#[trigger] s[j]) by {
                if j > 0 {
                    assert(s.drop_first()[j - 1] == s[j]);
                    assert(!is_active(s.drop_first()[j - 1]));
                }
            }
        }
        if has_active(s.drop_first()) {
            let w = choose|i: int|
                0 <= i < s.drop_first().len() && is_active(#[trigger] s.drop_first()[i]);
            assert(s.drop_first()[w] == s[w + 1]);
            assert(is_active(s[w + 1]));
            assert(has_active(s));
        }
    }
}

/// The largest id in the store, 0 when it is empty.
pub open spec fn max_id(s: Seq<TaskV>) -> int
    decreases s.len(),
{
    if s.len() == 0 {
        0
    } else {
        let m = max_id(s.drop_last());
        if s.last().id > m {
            s.last().id as int
        } else {
            m
        }
    }
}

pub proof fn lemma_max_id_bounds(s: Seq<TaskV>)
    ensures
        0 <= max_id(s) <= u32::MAX,
        forall|i: int| 0 <= i < s.len() ==> (#[trigger] s[i].id) <= max_id(s),
    decreases s.len(),
{
    if s.len() > 0 {
        lemma_max_id_bounds(s.drop_last());
        assert forall|i: int| 0 <= i < s.len() implies (#[trigger] s[i].id) <= max_id(s) by {
            if i < s.len() - 1 {
                assert(s.drop_last()[i] == s[i]);
                assert(s.drop_last()[i].id <= max_id(s.drop_last()));
            }
        }
    }
}

/// The largest id present is the id of some task (in a nonempty store).
pub proof fn lemma_max_id_attained(s: Seq<TaskV>)
    requires
        s.len() > 0,
    ensures
        exists|i: int| 0 <= i < s.len() && (#[trigger] s[i].id) == max_id(s),
    decreases s.len(),
{
    if s.len() == 1 {
        assert(s[0].id == max_id(s));
    } else {
        let m = max_id(s.drop_last());
        if s.last().id > m {
            assert(s[s.len() - 1].id == max_id(s));
        } else {
            lemma_max_id_attained(s.drop_last());
            let i = choose|i: int|
                0 <= i < s.drop_last().len() && (#[trigger] s.drop_last()[i].id) == m;
            assert(s[i] == s.drop_last()[i]);
            assert(s[i].id == max_id(s));
        }
    }
}

/// The index of the most recently created active task, or -1 when none is.
pub open spec fn last_active_index(s: Seq<TaskV>) -> int
    decreases s.len(),
{
    if s.len() == 0 {
        -1
    } else if is_active(s.last()) {
        s.len() - 1
    } else {
        last_active_index(s.drop_last())
    }
}

pub proof fn lemma_last_active_index(s: Seq<TaskV>)
    ensures
        has_active(s) ==> 0 <= last_active_index(s) < s.len(),
        has_active(s) ==> is_active(s[last_active_index(s)]),
        has_active(s) ==> (forall|j: int|
            last_active_index(s) < j < s.len() ==> !is_active(#[trigger] s[j])),
        !has_active(s) ==> last_active_index(s) == -1,
    decreases s.len(),
{
    if s.len() > 0 {
        lemma_last_active_index(s.drop_last());
        if is_active(s.last()) {
            assert(is_active(s[s.len() - 1]));
            assert(has_active(s));
        } else {
            if has_active(s) {
                let w = choose|i: int| 0 <= i < s.len() && is_active(#[trigger] s[i]);
                assert(w < s.len() - 1);
                assert(s.drop_last()[w] == s[w]);
                assert(is_active(s.drop_last()[w]));
                assert(has_active(s.drop_last()));
                assert(s[last_active_index(s)] == s.drop_last()[last_active_index(s)]);
                assert forall|j: int|
                    last_active_index(s) < j < s.len() implies !is_active(#[trigger] s[j]) by {
                    if j < s.len() - 1 {
                        assert(s.drop_last()[j] == s[j]);
                        assert(!is_active(s.drop_last()[j]));
                    }
                }
            }
            if has_active(s.drop_last()) {
                let w = choose|i: int|
                    0 <= i < s.drop_last().len() && is_active(#[trigger] s.drop_last()[i]);
                assert(s.drop_last()[w] == s[w]);
                assert(is_active(s[w]));
                assert(has_active(s));
            }
        }
    }
}

/// The index of the first task carrying `id`, or -1 when none does.
pub open spec fn first_index_of_id(s: Seq<TaskV>, id: u32) -> int
    decreases s.len(),
{
    if s.len() == 0 {
        -1
    } else if s[0].id == id {
        0
    } else {
        let r = first_index_of_id(s.drop_first(), id);
        if r < 0 {
            -1
        } else {
            r + 1
        }
    }
}

/// Some task carries `id`.
pub open spec fn has_id(s: Seq<TaskV>, id: u32) -> bool {
    exists|i: int| 0 <= i < s.len() && (#[trigger] s[i].id) == id
}

pub proof fn lemma_first_index_of_id(s: Seq<TaskV>, id: u32)
    ensures
        has_id(s, id) ==> 0 <= first_index_of_id(s, id) < s.len(),
        has_id(s, id) ==> s[first_index_of_id(s, id)].id == id,
        has_id(s, id) ==> (forall|j: int|
            0 <= j < first_index_of_id(s, id) ==> (#[trigger] s[j].id) != id),
        !has_id(s, id) ==> first_index_of_id(s, id) == -1,
    decreases s.len(),
{
    if s.len() > 0 && s[0].id != id {
        lemma_first_index_of_id(s.drop_first(), id);
        if has_id(s, id) {
            let w = choose|i: int| 0 <= i < s.len() && (#[trigger] s[i].id) == id;
            assert(s.drop_first()[w - 1] == s[w]);
            assert(s.drop_first()[w - 1].id == id);
            assert(has_id(s.drop_first(), id));
            let r = first_index_of_id(s.drop_first(), id);
            assert(s.drop_first()[r] == s[r + 1]);
            assert forall|j: int|
                0 <= j < first_index_of_id(s, id) implies (#[trigger] s[j].id) != id by {
                if j > 0 {
                    assert(s.drop_first()[j - 1] == s[j]);
                    assert(s.drop_first()[j - 1].id != id);
                }
            }
        }
        if has_id(s.drop_first(), id) {
            let w = choose|i: int|
                0 <= i < s.drop_first().len() && (#[trigger] s.drop_first()[i].id) == id;
            assert(s.drop_first()[w] == s[w + 1]);
            assert(s[w + 1].id == id);
            assert(has_id(s, id));
        }
    }
}

/// A usable tag: nonempty and free of the separating comma.
pub open spec fn tag_ok(t: Seq<char>) -> bool {
    t.len() > 0 && !t.contains(',')
}

pub open spec fn tags_ok(ts: Seq<Seq<char>>) -> bool {
    forall|i: int| 0 <= i < ts.len() ==> tag_ok(#[trigger] ts[i])
}

/// What `create_task` answers, given the store and the arguments.
pub open spec fn create_result(
    s: Seq<TaskV>,
    name: Seq<char>,
    tags: Seq<Seq<char>>,
) -> TimeTrackerResult {
    if has_active(s) {
        TimeTrackerResult::Error(TimeTrackerError::TaskAlreadyActive)
    } else if name.len() == 0 {
        TimeTrackerResult::Error(TimeTrackerError::InvalidTaskName)
    } else if !tags_ok(tags) {
        TimeTrackerResult::Error(TimeTrackerError::InvalidTaskTags)
    } else {
        TimeTrackerResult::Success
    }
}

/// The task that `create_task` appends on success: its id is one above the
/// store's watermark `hw`.
pub open spec fn created_task(
    hw: int,
    name: Seq<char>,
    tags: Seq<Seq<char>>,
    now: i64,
) -> TaskV {
    TaskV {
        id: (hw + 1) as u32,
        name: name,
        start_time: clamp_ts_spec(now),
        end_time: None,
        duration: 0,
        tags: if tags.len() == 0 {
            None
        } else {
            Some(tags)
        },
        energy: None,
        comments: None,
    }
}

/// The store after `create_task`, with watermark `hw`.
pub open spec fn create_post(
    s: Seq<TaskV>,
    hw: int,
    name: Seq<char>,
    tags: Seq<Seq<char>>,
    now: i64,
) -> Seq<TaskV> {
    if create_result(s, name, tags) == TimeTrackerResult::Success {
        s.push(created_task(hw, name, tags, now))
    } else {
        s
    }
}

/// What `stop_active_task` answers.
pub open spec fn stop_result(s: Seq<TaskV>) -> TimeTrackerResult {
    if has_active(s) {
        TimeTrackerResult::Success
    } else {
        TimeTrackerResult::Error(TimeTrackerError::NoActiveTasks)
    }
}

/// The store after `stop_active_task`: the most recently created active task
/// is ended; everything else is untouched.
pub open spec fn stop_post(
    s: Seq<TaskV>,
    energy: i8,
    comment: Seq<char>,
    now: i64,
) -> Seq<TaskV> {
    let i = last_active_index(s);
    if i < 0 {
        s
    } else {
        s.update(i, ended_task(s[i], energy, comment, now))
    }
}

/// The id to confirm: set when the task just ended ran over the limit.
pub open spec fn stop_confirm_id(s: Seq<TaskV>, now: i64) -> Option<u32> {
    let i = last_active_index(s);
    if i >= 0 && end_needs_confirmation(s[i].start_time, now) {
        Some(s[i].id)
    } else {
        None
    }
}

/// What `override_task_duration` answers.
pub open spec fn override_result(s: Seq<TaskV>, id: u32, minutes: i64) -> TimeTrackerResult {
    if !(0 <= minutes <= i64::MAX / 60) {
        TimeTrackerResult::Error(TimeTrackerError::InvalidTaskDuration)
    } else if !has_id(s, id) {
        TimeTrackerResult::Error(TimeTrackerError::InvalidTaskId)
    } else {
        TimeTrackerResult::Success
    }
}

/// The store after `override_task_duration`: the first task carrying the id
/// gets the explicit duration; everything else is untouched.
pub open spec fn override_post(s: Seq<TaskV>, id: u32, minutes: i64) -> Seq<TaskV> {
    if override_result(s, id, minutes) == TimeTrackerResult::Success {
        let i = first_index_of_id(s, id);
        s.update(i, TaskV { duration: (minutes * 60) as i64, ..s[i] })
    } else {
        s
    }
}

/// What `add_manual_task` answers.
pub open spec fn manual_result(s: Seq<TaskV>, name: Seq<char>, minutes: i64) -> TimeTrackerResult {
    if has_active(s) {
        TimeTrackerResult::Error(TimeTrackerError::TaskAlreadyActive)
    } else if name.len() == 0 {
        TimeTrackerResult::Error(TimeTrackerError::InvalidTaskName)
    } else if !(0 <= minutes <= 120) {
        TimeTrackerResult::Error(TimeTrackerError::InvalidTaskDuration)
    } else {
        TimeTrackerResult::Success
    }
}

/// The backdated task that `add_manual_task` appends on success: it starts
/// at the given instant and is already closed, `minutes` later; its id is
/// one above the store's watermark `hw`.
pub open spec fn manual_task(
    hw: int,
    name: Seq<char>,
    start: i64,
    minutes: i64,
    energy: i8,
    comment: Seq<char>,
) -> TaskV {
    TaskV {
        id: (hw + 1) as u32,
        name: name,
        start_time: start,
        end_time: Some((start + minutes * 60_000_000) as i64),
        duration: (minutes * 60) as i64,
        tags: None,
        energy: Some(energy),
        comments: opt_text(comment),
    }
}

/// The store after `add_manual_task`, with watermark `hw`.
pub open spec fn manual_post(
    s: Seq<TaskV>,
    hw: int,
    name: Seq<char>,
    start: i64,
    minutes: i64,
    energy: i8,
    comment: Seq<char>,
) -> Seq<TaskV> {
    if manual_result(s, name, minutes) == TimeTrackerResult::Success {
        s.push(manual_task(hw, name, start, minutes, energy, comment))
    } else {
        s
    }
}

/// What `remove_task` answers.
pub open spec fn remove_result(s: Seq<TaskV>, id: u32) -> TimeTrackerResult {
    if has_id(s, id) {
        TimeTrackerResult::Success
    } else {
        TimeTrackerResult::Error(TimeTrackerError::InvalidTaskId)
    }
}

/// The store after `remove_task`.
pub open spec fn remove_post(s: Seq<TaskV>, id: u32) -> Seq<TaskV> {
    if has_id(s, id) {
        s.remove(first_index_of_id(s, id))
    } else {
        s
    }
}

impl TimeTracker {
    /// An empty store.
    pub fn new() -> (r: TimeTracker)
        ensures
            r@ == Seq::<TaskV>::empty(),
            r.high_water == 0,
    {
        let tasks: Vec<Task> = Vec::new();
        let r = TimeTracker { tasks, high_water: 0 };
        proof {
            assert(r@ =~= Seq::<TaskV>::empty());
        }
        r
    }

    /// Whether some task is still running.
    pub fn check_if_task_is_active(&self) -> (r: bool)
        ensures
            r == has_active(self@),
    {
        let n = self.tasks.len();
        let mut i: usize = 0;
        while i < n
            invariant
                n == self.tasks.len(),
                i <= n,
                forall|j: int| 0 <= j < i ==> !is_active(#[trigger] self@[j]),
            decreases n - i,
        {
            if self.tasks[i].end_time.is_none() {
                assert(is_active(self@[i as int]));
                return true;
            }
            i = i + 1;
        }
        false
    }

    /// The largest id currently in the store (0 when empty).
    pub fn max_task_id(&self) -> (r: u32)
        ensures
            r as int == max_id(self@),
    {
        let n = self.tasks.len();
        let mut m: u32 = 0;
        let mut i: usize = 0;
        proof {
            assert(self@.take(0) =~= Seq::<TaskV>::empty());
        }
        while i < n
            invariant
                n == self.tasks.len(),
                i <= n,
                m as int == max_id(self@.take(i as int)),
            decreases n - i,
        {
            proof {
                lemma_max_id_bounds(self@.take(i as int + 1));
                assert(self@.take(i as int + 1).drop_last() =~= self@.take(i as int));
                assert(self@.take(i as int + 1).last() == self@[i as int]);
            }
            if self.tasks[i].id > m {
                m = self.tasks[i].id;
            }
            i = i + 1;
        }
        proof {
            assert(self@.take(n as int) =~= self@);
        }
        m
    }

    /// The position of the most recently created active task, if one runs.
    pub fn active_task_index(&self) -> (r: Option<usize>)
        ensures
            r matches Some(i) ==> i as int == last_active_index(self@),
            r is None <==> !has_active(self@),
    {
        let mut i: usize = self.tasks.len();
        while i > 0
            invariant
                i <= self.tasks.len(),
                forall|j: int| i <= j < self@.len() ==> !is_active(#[trigger] self@[j]),
            decreases i,
        {
            let idx: usize = i - 1;
            if self.tasks[idx].end_time.is_none() {
                proof {
                    assert(is_active(self@[idx as int]));
                    assert(has_active(self@));
                    lemma_last_active_index(self@);
                    let lai = last_active_index(self@);
                    if lai < idx as int {
                        assert(!is_active(self@[idx as int]));
                    }
                    if lai > idx as int {
                        assert(!is_active(self@[lai]));
                    }
                }
                return Some(idx);
            }
            i = idx;
        }
        None
    }

    /// The position of the first task carrying `id`, if any does.
    pub fn find_task_index(&self, id: u32) -> (r: Option<usize>)
        ensures
            r matches Some(i) ==> i as int == first_index_of_id(self@, id) && i < self@.len()
                && self@[i as int].id == id && has_id(self@, id),
            r is None <==> !has_id(self@, id),
    {
        let n = self.tasks.len();
        let mut i: usize = 0;
        while i < n
            invariant
                n == self.tasks.len(),
                i <= n,
                forall|j: int| 0 <= j < i ==> (#[trigger] self@[j].id) != id,
            decreases n - i,
        {
            if self.tasks[i].id == id {
                proof {
                    assert(self@[i as int].id == id);
                    assert(has_id(self@, id));
                    lemma_first_index_of_id(self@, id);
                    let fio = first_index_of_id(self@, id);
                    if fio < i as int {
                        assert(self@[fio].id != id);
                    }
                    if fio > i as int {
                        assert(self@[i as int].id != id);
                    }
                }
                return Some(i);
            }
            i = i + 1;
        }
        proof {
            if has_id(self@, id) {
                let w = choose|j: int| 0 <= j < self@.len() && (#[trigger] self@[j].id) == id;
                assert(self@[w].id != id);
            }
            lemma_first_index_of_id(self@, id);
        }
        None
    }

    /// Append a fresh task: the next id, the clamped start instant, no end,
    /// the given name and tags. Rejected when a task is still running, the
    /// name is empty, or a tag is empty or holds a comma.
    pub fn create_task_at(&mut self, name: String, tags: Vec<String>, now: i64) -> (r:
        TimeTrackerResult)
        requires
            old(self).high_water < u32::MAX,
        ensures
            r == create_result(old(self)@, name@, tags.deep_view()),
            final(self)@ == create_post(
                old(self)@,
                old(self).high_water as int,
                name@,
                tags.deep_view(),
                now,
            ),
            final(self).high_water == (if r == TimeTrackerResult::Success {
                (old(self).high_water + 1) as u32
            } else {
                old(self).high_water
            }),
    {
        if self.check_if_task_is_active() {
            return TimeTrackerResult::Error(TimeTrackerError::TaskAlreadyActive);
        }
        if name.as_str().is_empty() {
            return TimeTrackerResult::Error(TimeTrackerError::InvalidTaskName);
        }
        let nt = tags.len();
        let mut ti: usize = 0;
        while ti < nt
            invariant
                nt == tags.len(),
                ti <= nt,
                forall|j: int| 0 <= j < ti ==> tag_ok(#[trigger] tags.deep_view()[j]),
                self@ == old(self)@,
                self.high_water == old(self).high_water,
                !has_active(old(self)@),
                name@.len() > 0,
            decreases nt - ti,
        {
            let bad = tags[ti].as_str().is_empty() || crate::text::str_has_char(
                tags[ti].as_str(),
                ',',
            );
            if bad {
                proof {
                    assert(!tag_ok(tags.deep_view()[ti as int]));
                }
                return TimeTrackerResult::Error(TimeTrackerError::InvalidTaskTags);
            }
            ti = ti + 1;
        }
        proof {
            assert(tags_ok(tags.deep_view()));
        }
        let id_next: u32 = self.high_water + 1;
        self.high_water = id_next;
        let start: i64 = crate::time::clamp_ts(now);
        let empty_tags = tags.len() == 0;
        let t = Task {
            id: id_next,
            name: name,
            start_time: start,
            end_time: None,
            duration: 0,
            tags: if empty_tags {
                None
            } else {
                Some(tags)
            },
            energy: None,
            comments: None,
        };
        proof {
            assert(t@ == created_task(old(self).high_water as int, name@, tags.deep_view(), now));
        }
        self.tasks.push(t);
        proof {
            assert(self@ =~= old(self)@.push(
                created_task(old(self).high_water as int, name@, tags.deep_view(), now),
            ));
        }
        TimeTrackerResult::Success
    }

    /// `create_task_at` with the current clock reading as the start instant.
    pub fn create_task(&mut self, name: String, tags: Vec<String>) -> (r: TimeTrackerResult)
        requires
            old(self).high_water < u32::MAX,
        ensures
            r == create_result(old(self)@, name@, tags.deep_view()),
            r != TimeTrackerResult::Success ==> final(self)@ == old(self)@,
            exists|n: i64| #![auto]
                ts_in_range(n) && final(self)@ == create_post(
                    old(self)@,
                    old(self).high_water as int,
                    name@,
                    tags.deep_view(),
                    n,
                ),
            final(self).high_water == (if r == TimeTrackerResult::Success {
                (old(self).high_water + 1) as u32
            } else {
                old(self).high_water
            }),
    {
        let now = current_timestamp();
        let r = self.create_task_at(name, tags, now);
        proof {
            assert(ts_in_range(now) && self@ == create_post(
                old(self)@,
                old(self).high_water as int,
                name@,
                tags.deep_view(),
                now,
            ));
        }
        r
    }

    /// End the most recently created active task at (the clamped reading of)
    /// `now`, recording the rating and the comment. Answers `NoActiveTasks`,
    /// and changes nothing, when no task runs. The second component carries
    /// the ended task's id when its computed duration ran over the
    /// 120-minute limit and the caller must confirm or override it.
    pub fn stop_active_task_at(&mut self, energy: i8, comment: String, now: i64) -> (r: (
        TimeTrackerResult,
        Option<u32>,
    ))
        requires
            starts_in_range(old(self)@),
        ensures
            r.0 == stop_result(old(self)@),
            final(self)@ == stop_post(old(self)@, energy, comment@, now),
            r.1 == stop_confirm_id(old(self)@, now),
            final(self).high_water == old(self).high_water,
    {
        proof {
            lemma_last_active_index(self@);
        }
        match self.active_task_index() {
            None => (TimeTrackerResult::Error(TimeTrackerError::NoActiveTasks), None),
            Some(i) => {
                let mut t = self.tasks.remove(i);
                proof {
                    assert(old(self)@[i as int].start_time == t@.start_time);
                }
                let over = t.end_task(energy, comment, now);
                let id = t.id;
                self.tasks.insert(i, t);
                proof {
                    assert(self@ =~= old(self)@.update(
                        i as int,
                        ended_task(old(self)@[i as int], energy, comment@, now),
                    ));
                }
                if over {
                    (TimeTrackerResult::Success, Some(id))
                } else {
                    (TimeTrackerResult::Success, None)
                }
            },
        }
    }

    /// `stop_active_task_at` with the current clock reading as the end.
    pub fn stop_active_task(&mut self, energy: i8, comment: String) -> (r: (
        TimeTrackerResult,
        Option<u32>,
    ))
        requires
            starts_in_range(old(self)@),
        ensures
            r.0 == stop_result(old(self)@),
            !has_active(old(self)@) ==> final(self)@ == old(self)@ && r.1 is None,
            exists|n: i64| #![auto]
                ts_in_range(n) && final(self)@ == stop_post(old(self)@, energy, comment@, n)
                    && r.1 == stop_confirm_id(old(self)@, n),
            final(self).high_water == old(self).high_water,
    {
        let now = current_timestamp();
        let r = self.stop_active_task_at(energy, comment, now);
        proof {
            lemma_last_active_index(old(self)@);
            assert(ts_in_range(now) && self@ == stop_post(old(self)@, energy, comment@, now)
                && r.1 == stop_confirm_id(old(self)@, now));
        }
        r
    }

    /// Remove the task carrying `id`; the others keep their ids and order.
    /// Answers `InvalidTaskId`, and changes nothing, when no task has it.
    pub fn remove_task(&mut self, id: u32) -> (r: TimeTrackerResult)
        ensures
            r == remove_result(old(self)@, id),
            final(self)@ == remove_post(old(self)@, id),
            final(self).high_water == old(self).high_water,
    {
        match self.find_task_index(id) {
            None => TimeTrackerResult::Error(TimeTrackerError::InvalidTaskId),
            Some(i) => {
                self.tasks.remove(i);
                proof {
                    assert(self@ =~= old(self)@.remove(i as int));
                }
                TimeTrackerResult::Success
            },
        }
    }

    /// Replace the duration of the task carrying `id` with an explicit count
    /// of whole minutes (stored as seconds), as confirmed by the user.
    pub fn override_task_duration(&mut self, id: u32, minutes: i64) -> (r: TimeTrackerResult)
        ensures
            r == override_result(old(self)@, id, minutes),
            final(self)@ == override_post(old(self)@, id, minutes),
            final(self).high_water == old(self).high_water,
    {
        if minutes < 0 || minutes > i64::MAX / 60 {
            return TimeTrackerResult::Error(TimeTrackerError::InvalidTaskDuration);
        }
        match self.find_task_index(id) {
            None => TimeTrackerResult::Error(TimeTrackerError::InvalidTaskId),
            Some(i) => {
                let mut t = self.tasks.remove(i);
                t.set_duration_minutes(minutes);
                self.tasks.insert(i, t);
                proof {
                    assert(self@ =~= override_post(old(self)@, id, minutes));
                }
                TimeTrackerResult::Success
            },
        }
    }

    /// Append a backdated, already-closed task: it starts at the given
    /// instant (local midnight of a chosen date) and ends `duration_minutes`
    /// later. Rejected when a task is still running, the name is empty, or
    /// the duration lies outside 0..=120 minutes.
    pub fn add_manual_task(
        &mut self,
        name: String,
        start_time: i64,
        duration_minutes: i64,
        energy: i8,
        comment: String,
    ) -> (r: TimeTrackerResult)
        requires
            old(self).high_water < u32::MAX,
            MIN_TS <= start_time,
            start_time + 10_000_000_000 <= MAX_TS,
        ensures
            r == manual_result(old(self)@, name@, duration_minutes),
            final(self)@ == manual_post(
                old(self)@,
                old(self).high_water as int,
                name@,
                start_time,
                duration_minutes,
                energy,
                comment@,
            ),
            final(self).high_water == (if r == TimeTrackerResult::Success {
                (old(self).high_water + 1) as u32
            } else {
                old(self).high_water
            }),
    {
        if self.check_if_task_is_active() {
            return TimeTrackerResult::Error(TimeTrackerError::TaskAlreadyActive);
        }
        if name.as_str().is_empty() {
            return TimeTrackerResult::Error(TimeTrackerError::InvalidTaskName);
        }
        if duration_minutes < 0 || duration_minutes > 120 {
            return TimeTrackerResult::Error(TimeTrackerError::InvalidTaskDuration);
        }
        let id_next: u32 = self.high_water + 1;
        self.high_water = id_next;
        let end: i64 = start_time + duration_minutes * 60_000_000;
        let comments = if comment.as_str().is_empty() {
            None
        } else {
            Some(comment)
        };
        let t = Task {
            id: id_next,
            name: name,
            start_time: start_time,
            end_time: Some(end),
            duration: duration_minutes * 60,
            tags: None,
            energy: Some(energy),
            comments: comments,
        };
        proof {
            assert(t@ == manual_task(
                old(self).high_water as int,
                name@,
                start_time,
                duration_minutes,
                energy,
                comment@,
            ));
        }
        self.tasks.push(t);
        proof {
            assert(self@ =~= old(self)@.push(
                manual_task(
                    old(self).high_water as int,
                    name@,
                    start_time,
                    duration_minutes,
                    energy,
                    comment@,
                ),
            ));
        }
        TimeTrackerResult::Success
    }

    /// Whether every instant in the store is storable.
    pub fn times_in_range(&self) -> (r: bool)
        ensures
            r == times_ok(self@),
    {
        let n = self.tasks.len();
        let mut i: usize = 0;
        while i < n
            invariant
                n == self.tasks@.len(),
                i <= n,
                forall|k: int|
                    0 <= k < i ==> (ts_in_range((#[trigger] self@[k]).start_time) && (
                    self@[k].end_time matches Some(e) ==> ts_in_range(e))),
            decreases n - i,
        {
            let t = &self.tasks[i];
            if t.start_time < MIN_TS || t.start_time > MAX_TS {
                proof {
                    assert(!ts_in_range(self@[i as int].start_time));
                }
                return false;
            }
            match &t.end_time {
                Some(e) => {
                    if *e < MIN_TS || *e > MAX_TS {
                        proof {
                            assert(self@[i as int].end_time == Some(*e));
                        }
                        return false;
                    }
                },
                None => {},
            }
            proof {
                assert(ts_in_range(self@[i as int].start_time));
            }
            i = i + 1;
        }
        true
    }

    /// The rendered block of the first active task, or `NoActiveTasks` (and
    /// an empty text) when none runs.
    pub fn show_active_tasks(&self, now: i64) -> (r: (String, TimeTrackerResult))
        requires
            times_ok(self@),
        ensures
            r.1 == (if has_active(self@) {
                TimeTrackerResult::Success
            } else {
                TimeTrackerResult::Error(TimeTrackerError::NoActiveTasks)
            }),
            !has_active(self@) ==> r.0@.len() == 0,
            has_active(self@) ==> crate::task::is_render_of(
                r.0@,
                self@[first_active_index(self@)],
                now,
            ),
    {
        let n = self.tasks.len();
        let mut i: usize = 0;
        while i < n
            invariant
                n == self.tasks@.len(),
                i <= n,
                times_ok(self@),
                forall|j: int| 0 <= j < i ==> !is_active(#[trigger] self@[j]),
            decreases n - i,
        {
            if self.tasks[i].end_time.is_none() {
                proof {
                    assert(is_active(self@[i as int]));
                    assert(has_active(self@));
                    lemma_first_active_index(self@);
                    let fai = first_active_index(self@);
                    if fai < i as int {
                        assert(!is_active(self@[fai]));
                    }
                    if fai > i as int {
                        assert(!is_active(self@[i as int]));
                    }
                    assert(ts_in_range(self@[i as int].start_time));
                }
                let text = self.tasks[i].render(now);
                return (text, TimeTrackerResult::Success);
            }
            i = i + 1;
        }
        proof {
            if has_active(self@) {
                let w = choose|j: int| 0 <= j < self@.len() && is_active(#[trigger] self@[j]);
                assert(!is_active(self@[w]));
            }
        }
        (String::new(), TimeTrackerResult::Error(TimeTrackerError::NoActiveTasks))
    }

    /// The rendered blocks of all tasks, in store order.
    pub fn render_all(&self, now: i64) -> (r: Vec<String>)
        requires
            times_ok(self@),
        ensures
            r.deep_view().len() == self@.len(),
            forall|i: int|
                0 <= i < self@.len() ==> crate::task::is_render_of(
                    #[trigger] r.deep_view()[i],
                    self@[i],
                    now,
                ),
    {
        let n = self.tasks.len();
        let mut out: Vec<String> = Vec::new();
        let mut i: usize = 0;
        while i < n
            invariant
                n == self.tasks@.len(),
                i <= n,
                times_ok(self@),
                out.deep_view().len() == i,
                forall|k: int|
                    0 <= k < i ==> crate::task::is_render_of(
                        #[trigger] out.deep_view()[k],
                        self@[k],
                        now,
                    ),
            decreases n - i,
        {
            let ghost out0 = out.deep_view();
            proof {
                assert(ts_in_range(self@[i as int].start_time));
            }
            let text = self.tasks[i].render(now);
            out.push(text);
            proof {
                assert(out.deep_view() =~~= out0.push(text@));
                assert forall|k: int|
                    0 <= k < i + 1 implies crate::task::is_render_of(
                    #[trigger] out.deep_view()[k],
                    self@[k],
                    now,
                ) by {
                    if k < i {
                        assert(out.deep_view()[k] == out0[k]);
                        assert(crate::task::is_render_of(out0[k], self@[k], now));
                    } else {
                        assert(out.deep_view()[k] == text@);
                    }
                }
            }
            i = i + 1;
        }
        out
    }

    /// All rendered blocks joined, in store order, and success (an empty
    /// store renders an empty text).
    pub fn show_all_tasks(&self, now: i64) -> (r: (String, TimeTrackerResult))
        requires
            times_ok(self@),
        ensures
            r.1 == TimeTrackerResult::Success,
            exists|blocks: Seq<Seq<char>>| #![auto]
                blocks.len() == self@.len() && (forall|i: int|
                    0 <= i < self@.len() ==> crate::task::is_render_of(blocks[i], self@[i], now))
                    && r.0@ == concat_texts(blocks),
    {
        let blocks = self.render_all(now);
        let mut out = String::new();
        let n = blocks.len();
        let mut i: usize = 0;
        proof {
            assert(blocks.deep_view().take(0) =~~= Seq::<Seq<char>>::empty());
        }
        while i < n
            invariant
                n == blocks@.len(),
                i <= n,
                out@ == concat_texts(blocks.deep_view().take(i as int)),
            decreases n - i,
        {
            proof {
                assert(blocks.deep_view().take(i as int + 1).drop_last() =~~= blocks.deep_view()
                    .take(i as int));
                assert(blocks.deep_view().take(i as int + 1).last() == blocks.deep_view()[i as int]);
                assert(blocks.deep_view()[i as int] == blocks@[i as int]@);
            }
            out.append(blocks[i].as_str());
            i = i + 1;
        }
        proof {
            assert(blocks.deep_view().take(n as int) =~~= blocks.deep_view());
        }
        (out, TimeTrackerResult::Success)
    }
}

/// The predefined activity menu, in presentation order.
#[allow(non_camel_case_types)]
#[derive(Clone, Copy, PartialEq, Eq, Structural, Debug)]
pub enum PredefinedTasks {
    Meetings,
    Reading,
    Journaling,
    Hobby_Code,
    Work_Code,
    BrowseInternet,
    Anki,
    Other,
}

impl PredefinedTasks {
    /// The display name of the entry.
    pub open spec fn name_spec(self) -> Seq<char> {
        match self {
            PredefinedTasks::Meetings => "Meetings"@,
            PredefinedTasks::Reading => "Reading"@,
            PredefinedTasks::Journaling => "Journaling"@,
            PredefinedTasks::Hobby_Code => "Hobby Code"@,
            PredefinedTasks::Work_Code => "Work Code"@,
            PredefinedTasks::BrowseInternet => "Browse Internet"@,
            PredefinedTasks::Anki => "Anki"@,
            PredefinedTasks::Other => "Other"@,
        }
    }

    pub fn name(&self) -> (r: String)
        ensures
            r@ == self.name_spec(),
    {
        match self {
            PredefinedTasks::Meetings => String::from_str("Meetings"),
            PredefinedTasks::Reading => String::from_str("Reading"),
            PredefinedTasks::Journaling => String::from_str("Journaling"),
            PredefinedTasks::Hobby_Code => String::from_str("Hobby Code"),
            PredefinedTasks::Work_Code => String::from_str("Work Code"),
            PredefinedTasks::BrowseInternet => String::from_str("Browse Internet"),
            PredefinedTasks::Anki => String::from_str("Anki"),
            PredefinedTasks::Other => String::from_str("Other"),
        }
    }

    /// The full menu, in order.
    pub open spec fn all_spec() -> Seq<PredefinedTasks> {
        seq![
            PredefinedTasks::Meetings,
            PredefinedTasks::Reading,
            PredefinedTasks::Journaling,
            PredefinedTasks::Hobby_Code,
            PredefinedTasks::Work_Code,
            PredefinedTasks::BrowseInternet,
            PredefinedTasks::Anki,
            PredefinedTasks::Other,
        ]
    }

    pub fn all() -> (r: Vec<PredefinedTasks>)
        ensures
            r@ == PredefinedTasks::all_spec(),
    {
        let mut v: Vec<PredefinedTasks> = Vec::new();
        v.push(PredefinedTasks::Meetings);
        v.push(PredefinedTasks::Reading);
        v.push(PredefinedTasks::Journaling);
        v.push(PredefinedTasks::Hobby_Code);
        v.push(PredefinedTasks::Work_Code);
        v.push(PredefinedTasks::BrowseInternet);
        v.push(PredefinedTasks::Anki);
        v.push(PredefinedTasks::Other);
        proof {
            assert(v@ =~= PredefinedTasks::all_spec());
        }
        v
    }

    /// The menu entry for a 1-indexed selection, `None` outside the menu.
    pub fn from_number(n: usize) -> (r: Option<PredefinedTasks>)
        ensures
            (1 <= n <= 8) ==> r == Some(PredefinedTasks::all_spec()[n - 1]),
            !(1 <= n <= 8) ==> r is None,
    {
        let all = PredefinedTasks::all();
        if n >= 1 && n <= 8 {
            Some(all[n - 1])
        } else {
            None
        }
    }
}

impl TimeTrackerError {
    /// The display message of the error.
    pub open spec fn message_spec(self) -> Seq<char> {
        match self {
            TimeTrackerError::InvalidTaskName => "Invalid task name"@,
            TimeTrackerError::InvalidTaskDuration => "Invalid task duration"@,
            TimeTrackerError::InvalidTaskTags => "Invalid task tags"@,
            TimeTrackerError::InvalidTaskEnergy => "Invalid task energy"@,
            TimeTrackerError::InvalidTaskId => "Invalid task id"@,
            TimeTrackerError::NoActiveTasks => "No active tasks"@,
            TimeTrackerError::TaskAlreadyActive => "Task already active"@,
        }
    }

    pub fn message(&self) -> (r: String)
        ensures
            r@ == self.message_spec(),
    {
        match self {
            TimeTrackerError::InvalidTaskName => String::from_str("Invalid task name"),
            TimeTrackerError::InvalidTaskDuration => String::from_str("Invalid task duration"),
            TimeTrackerError::InvalidTaskTags => String::from_str("Invalid task tags"),
            TimeTrackerError::InvalidTaskEnergy => String::from_str("Invalid task energy"),
            TimeTrackerError::InvalidTaskId => String::from_str("Invalid task id"),
            TimeTrackerError::NoActiveTasks => String::from_str("No active tasks"),
            TimeTrackerError::TaskAlreadyActive => String::from_str("Task already active"),
        }
    }
}

} // verus!
