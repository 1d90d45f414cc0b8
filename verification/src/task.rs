//! A single activity record: created with a start instant, optionally closed
//! once with an end instant, a subjective energy rating and a comment.

use vstd::prelude::*;

use crate::time::{clamp_ts, clamp_ts_spec, ts_in_range};

verus! {

/// An activity record. `end_time: None` means the task is still running.
/// `duration` is whole seconds; it is zero while the task runs and is set
/// when the task ends (or overridden on confirmation).
pub struct Task {
    pub id: u32,
    pub name: String,
    pub start_time: i64,
    pub end_time: Option<i64>,
    pub duration: i64,
    pub tags: Option<Vec<String>>,
    pub energy: Option<i8>,
    pub comments: Option<String>,
}

/// The mathematical value of a `Task`.
pub ghost struct TaskV {
    pub id: u32,
    pub name: Seq<char>,
    pub start_time: i64,
    pub end_time: Option<i64>,
    pub duration: i64,
    pub tags: Option<Seq<Seq<char>>>,
    pub energy: Option<i8>,
    pub comments: Option<Seq<char>>,
}

impl View for Task {
    type V = TaskV;

    open spec fn view(&self) -> TaskV {
        TaskV {
            id: self.id,
            name: self.name@,
            start_time: self.start_time,
            end_time: self.end_time,
            duration: self.duration,
            tags: match self.tags {
                Some(ts) => Some(ts.deep_view()),
                None => None,
            },
            energy: self.energy,
            comments: match self.comments {
                Some(c) => Some(c@),
                None => None,
            },
        }
    }
}

impl DeepView for Task {
    type V = TaskV;

    open spec fn deep_view(&self) -> TaskV {
        self.view()
    }
}

/// A task as it looks the moment it is created: no end, no rating, no text.
pub open spec fn blank_task(now: i64) -> TaskV {
    TaskV {
        id: 0,
        name: Seq::empty(),
        start_time: clamp_ts_spec(now),
        end_time: None,
        duration: 0,
        tags: None,
        energy: None,
        comments: None,
    }
}

/// Elapsed whole seconds between two instants, truncated toward zero
/// (negative when the end lies before the start).
pub open spec fn duration_secs(start: i64, end: i64) -> int {
    if end >= start {
        ((end - start) as int) / 1_000_000
    } else {
        -(((start - end) as int) / 1_000_000)
    }
}

pub open spec fn dur_secs_i64(start: i64, end: i64) -> i64 {
    duration_secs(start, end) as i64
}

/// The number of whole elapsed minutes exceeds the confirmation limit of 120.
pub open spec fn exceeds_limit(secs: int) -> bool {
    secs / 60 > 120
}

/// An empty text stands for "nothing recorded".
pub open spec fn opt_text(s: Seq<char>) -> Option<Seq<char>> {
    if s.len() == 0 {
        None
    } else {
        Some(s)
    }
}

/// The value of a task after it is ended at (the clamped reading of) `now`.
pub open spec fn ended_task(t: TaskV, energy: i8, comment: Seq<char>, now: i64) -> TaskV {
    let end = clamp_ts_spec(now);
    TaskV {
        end_time: Some(end),
        duration: dur_secs_i64(t.start_time, end),
        energy: Some(energy),
        comments: opt_text(comment),
        ..t
    }
}

/// Whether ending a task started at `start` at the clamped reading of `now`
/// must be confirmed by the user.
pub open spec fn end_needs_confirmation(start: i64, now: i64) -> bool {
    exceeds_limit(duration_secs(start, clamp_ts_spec(now)))
}

/// Whole elapsed minutes between two instants, truncated toward zero.
pub open spec fn minutes_between(start: i64, end: i64) -> int {
    if end >= start {
        ((end - start) as int) / 1_000_000 / 60
    } else {
        -((((start - end) as int) / 1_000_000) / 60)
    }
}

/// The minute count a rendered task shows: to its end when it is closed,
/// to (the clamped reading of) `now` while it runs.
pub open spec fn shown_minutes(t: TaskV, now: i64) -> int {
    match t.end_time {
        Some(e) => minutes_between(t.start_time, e),
        None => minutes_between(t.start_time, clamp_ts_spec(now)),
    }
}

/// The first five lines of the rendered block: name, start, end, duration
/// and energy.
pub open spec fn render_head(t: TaskV, start_text: Seq<char>, end_text: Seq<char>, now: i64) -> Seq<
    char,
> {
    "Task: "@ + t.name + "\n"@ + "Start: "@ + start_text + "\n"@ + "End: "@ + (match t.end_time {
        Some(_e) => end_text,
        None => "In Progress..."@,
    }) + "\n"@ + "Duration: "@ + crate::num::dec_int(shown_minutes(t, now)) + " minutes"@ + "\n"@
        + "Life Energy: "@ + crate::num::dec_int(
        match t.energy {
            Some(e) => e as int,
            None => 0,
        },
    ) + "\n"@
}

/// The rendered block, given the two formatted instant texts: the head
/// lines, then the tags and the comment ("None" when absent).
pub open spec fn render_of(t: TaskV, start_text: Seq<char>, end_text: Seq<char>, now: i64) -> Seq<
    char,
> {
    render_head(t, start_text, end_text, now) + "Tags: "@ + (match t.tags {
        Some(ts) => crate::codec::join_pieces(ts),
        None => "None"@,
    }) + "\n"@ + "Comments: "@ + (match t.comments {
        Some(c) => c,
        None => "None"@,
    }) + "\n"@
}

/// The text is the rendered block of the task, for some formatting of its
/// two instants.
pub open spec fn is_render_of(s: Seq<char>, t: TaskV, now: i64) -> bool {
    exists|st: Seq<char>, et: Seq<char>| #![auto] s == render_of(t, st, et, now)
}

impl Task {
    /// A blank record started at (the clamped reading of) `now`.
    pub fn new_at(now: i64) -> (r: Task)
        ensures
            r@ == blank_task(now),
    {
        Task {
            id: 0,
            name: String::new(),
            start_time: clamp_ts(now),
            end_time: None,
            duration: 0,
            tags: None,
            energy: None,
            comments: None,
        }
    }

    /// A blank record started at the current clock reading.
    pub fn new() -> (r: Task)
        ensures
            exists|n: i64| r@ == blank_task(n),
            ts_in_range(r@.start_time),
    {
        let now = crate::time::current_timestamp();
        let t = Task::new_at(now);
        proof {
            crate::time::lemma_clamp_in_range(now);
        }
        t
    }

    /// Close the record: set the end instant, the computed duration, the
    /// rating and the comment (an empty comment is recorded as absent).
    /// Returns whether the computed duration exceeds the 120-minute limit,
    /// in which case the caller is expected to confirm or override it.
    pub fn end_task(&mut self, energy: i8, comment: String, now: i64) -> (over: bool)
        requires
            ts_in_range(old(self).start_time),
        ensures
            final(self)@ == ended_task(old(self)@, energy, comment@, now),
            over == end_needs_confirmation(old(self)@.start_time, now),
    {
        let end: i64 = clamp_ts(now);
        proof {
            crate::time::lemma_clamp_in_range(now);
        }
        let nonneg: bool = end >= self.start_time;
        let diff: u64 = if nonneg {
            (end - self.start_time) as u64
        } else {
            (self.start_time - end) as u64
        };
        let secs_u: u64 = diff / 1_000_000;
        assert(secs_u <= 8_000_000_000_000u64);
        let secs: i64 = if nonneg {
            secs_u as i64
        } else {
            -(secs_u as i64)
        };
        let over: bool = nonneg && secs_u / 60 > 120;
        proof {
            let d = duration_secs(self.start_time, end);
            assert(secs == d);
            if nonneg {
                assert((secs_u / 60) as int == d / 60);
            } else {
                assert(d <= 0);
                assert(d / 60 <= 0) by (nonlinear_arith)
                    requires d <= 0;
            }
        }
        self.end_time = Some(end);
        self.duration = secs;
        self.energy = Some(energy);
        if comment.as_str().is_empty() {
            self.comments = None;
        } else {
            self.comments = Some(comment);
        }
        over
    }

    /// The display block of the task: its name, its start, its end (or an
    /// in-progress marker), the elapsed whole minutes (to `now` while it
    /// runs), its energy rating (0 when unset) and its comment ("None" when
    /// unset). The two instants are shown in the local short format, so the
    /// contract fixes everything but those two texts.
    #[verifier::rlimit(100)]
    pub fn render(&self, now: i64) -> (r: String)
        requires
            ts_in_range(self.start_time),
            (self.end_time matches Some(e) ==> ts_in_range(e)),
        ensures
            is_render_of(r@, self@, now),
    {
        let start_text = crate::time::format_ts_short(self.start_time);
        let start_chars = crate::text::str_to_chars(start_text.as_str());
        let shown_end: i64 = match &self.end_time {
            Some(e) => *e,
            None => clamp_ts(now),
        };
        proof {
            crate::time::lemma_clamp_in_range(now);
        }
        let nonneg: bool = shown_end >= self.start_time;
        let diff: u64 = if nonneg {
            (shown_end - self.start_time) as u64
        } else {
            (self.start_time - shown_end) as u64
        };
        let mins_u: u64 = diff / 1_000_000 / 60;
        let minutes: i64 = if nonneg {
            mins_u as i64
        } else {
            -(mins_u as i64)
        };
        proof {
            assert(minutes as int == shown_minutes(self@, now));
        }
        let energy_shown: i8 = match &self.energy {
            Some(e) => *e,
            None => 0,
        };
        let mut out: Vec<char> = Vec::new();
        crate::text::push_chars(&crate::text::str_to_chars("Task: "), &mut out);
        crate::text::push_chars(&crate::text::str_to_chars(self.name.as_str()), &mut out);
        out.push('\n');
        crate::text::push_chars(&crate::text::str_to_chars("Start: "), &mut out);
        crate::text::push_chars(&start_chars, &mut out);
        out.push('\n');
        crate::text::push_chars(&crate::text::str_to_chars("End: "), &mut out);
        let ghost end_text: Seq<char>;
        match &self.end_time {
            Some(e) => {
                let et = crate::time::format_ts_short(*e);
                let et_chars = crate::text::str_to_chars(et.as_str());
                proof {
                    end_text = et_chars@;
                }
                crate::text::push_chars(&et_chars, &mut out);
            },
            None => {
                proof {
                    end_text = Seq::empty();
                }
                crate::text::push_chars(&crate::text::str_to_chars("In Progress..."), &mut out);
            },
        }
        out.push('\n');
        crate::text::push_chars(&crate::text::str_to_chars("Duration: "), &mut out);
        crate::text::push_chars(&crate::num::i64_to_chars(minutes), &mut out);
        crate::text::push_chars(&crate::text::str_to_chars(" minutes"), &mut out);
        out.push('\n');
        crate::text::push_chars(&crate::text::str_to_chars("Life Energy: "), &mut out);
        crate::text::push_chars(&crate::num::i64_to_chars(energy_shown as i64), &mut out);
        out.push('\n');
        let ghost head = render_head(self@, start_chars@, end_text, now);
        proof {
            reveal_strlit("\n");
            assert("\n"@ =~= seq!['\n']);
            assert(out@ =~= head);
        }
        crate::text::push_chars(&crate::text::str_to_chars("Tags: "), &mut out);
        match &self.tags {
            Some(ts) => {
                if ts.len() > 0 {
                    crate::codec::join_tags_from(ts, 0, &mut out);
                    proof {
                        assert(ts.deep_view().skip(0) =~~= ts.deep_view());
                    }
                }
            },
            None => {
                crate::text::push_chars(&crate::text::str_to_chars("None"), &mut out);
            },
        }
        out.push('\n');
        crate::text::push_chars(&crate::text::str_to_chars("Comments: "), &mut out);
        match &self.comments {
            Some(c) => {
                crate::text::push_chars(&crate::text::str_to_chars(c.as_str()), &mut out);
            },
            None => {
                crate::text::push_chars(&crate::text::str_to_chars("None"), &mut out);
            },
        }
        out.push('\n');
        let r = crate::text::chars_to_string(&out);
        proof {
            reveal_strlit("\n");
            assert("\n"@ =~= seq!['\n']);
            let tail = "Tags: "@ + (match self@.tags {
                Some(ts) => crate::codec::join_pieces(ts),
                None => "None"@,
            }) + "\n"@ + "Comments: "@ + (match self@.comments {
                Some(c) => c,
                None => "None"@,
            }) + "\n"@;
            assert(r@ =~= head + tail);
            assert(render_of(self@, start_chars@, end_text, now) == head + tail);
            assert(is_render_of(r@, self@, now));
        }
        r
    }

    /// Replace the stored duration with an explicit count of whole minutes.
    pub fn set_duration_minutes(&mut self, minutes: i64)
        requires
            (0 <= minutes <= i64::MAX / 60),
        ensures
            final(self)@ == (TaskV { duration: (minutes * 60) as i64, ..old(self)@ }),
    {
        self.duration = minutes * 60;
    }
}

} // verus!
