//! The store's general laws: the single-active rule is preserved by every
//! operation; ids are assigned strictly above the id watermark, which every
//! operation maintains and no removal lowers, so within a run a removed id
//! is never handed out again; and a confirmed minute count overrides a
//! computed duration.

use vstd::prelude::*;

use crate::task::{end_needs_confirmation, ended_task, TaskV};
use crate::tasks::{
    at_most_one_active, create_post, create_result, created_task, first_index_of_id, has_active,
    has_id, id_watermark_ok, is_active, last_active_index, lemma_first_index_of_id,
    lemma_last_active_index, lemma_max_id_attained, lemma_max_id_bounds, manual_post, manual_task,
    max_id, override_post, override_result, remove_post, stop_confirm_id, stop_post, unique_ids,
    TimeTrackerResult,
};
use crate::time::clamp_ts_spec;

verus! {

/// A store that obeys the single-active rule still obeys it after
/// `create_task`: the call either changes nothing or appends the only
/// active task to a store that had none.
pub proof fn lemma_create_preserves_single_active(
    s: Seq<TaskV>,
    hw: int,
    name: Seq<char>,
    tags: Seq<Seq<char>>,
    now: i64,
)
    requires
        at_most_one_active(s),
    ensures
        at_most_one_active(create_post(s, hw, name, tags, now)),
{
    let post = create_post(s, hw, name, tags, now);
    if create_result(s, name, tags) == TimeTrackerResult::Success {
        assert forall|i: int, j: int|
            0 <= i < j < post.len() implies !(is_active(post[i]) && is_active(post[j])) by {
            if j < s.len() {
                assert(post[i] == s[i]);
                assert(post[j] == s[j]);
            } else {
                assert(post[i] == s[i]);
                assert(!is_active(s[i]));
            }
        }
    }
}

/// `add_manual_task` appends an already-closed task, so it too preserves
/// the single-active rule.
pub proof fn lemma_manual_preserves_single_active(
    s: Seq<TaskV>,
    hw: int,
    name: Seq<char>,
    start: i64,
    minutes: i64,
    energy: i8,
    comment: Seq<char>,
)
    requires
        at_most_one_active(s),
    ensures
        at_most_one_active(manual_post(s, hw, name, start, minutes, energy, comment)),
{
    let post = manual_post(s, hw, name, start, minutes, energy, comment);
    assert forall|i: int, j: int|
        0 <= i < j < post.len() implies !(is_active(post[i]) && is_active(post[j])) by {
        if j < s.len() {
            assert(post[i] == s[i]);
            assert(post[j] == s[j]);
        } else if post.len() > s.len() {
            assert(post[i] == s[i]);
            assert(!is_active(post[j]));
        }
    }
}

/// `stop_active_task` only closes a task, so it preserves the rule.
pub proof fn lemma_stop_preserves_single_active(
    s: Seq<TaskV>,
    energy: i8,
    comment: Seq<char>,
    now: i64,
)
    requires
        at_most_one_active(s),
    ensures
        at_most_one_active(stop_post(s, energy, comment, now)),
{
    let post = stop_post(s, energy, comment, now);
    let a = last_active_index(s);
    lemma_last_active_index(s);
    assert forall|i: int, j: int|
        0 <= i < j < post.len() implies !(is_active(post[i]) && is_active(post[j])) by {
        if i != a {
            assert(post[i] == s[i]);
        }
        if j != a {
            assert(post[j] == s[j]);
        }
    }
}

/// `remove_task` keeps a subsequence, so it preserves the rule.
pub proof fn lemma_remove_preserves_single_active(s: Seq<TaskV>, id: u32)
    requires
        at_most_one_active(s),
    ensures
        at_most_one_active(remove_post(s, id)),
{
    let post = remove_post(s, id);
    if has_id(s, id) {
        let k = first_index_of_id(s, id);
        lemma_first_index_of_id(s, id);
        assert forall|i: int, j: int|
            0 <= i < j < post.len() implies !(is_active(post[i]) && is_active(post[j])) by {
            let si = if i < k { i } else { i + 1 };
            let sj = if j < k { j } else { j + 1 };
            assert(post[i] == s[si]);
            assert(post[j] == s[sj]);
        }
    }
}

/// `override_task_duration` only replaces a duration, so it preserves the
/// single-active rule.
pub proof fn lemma_override_preserves_single_active(s: Seq<TaskV>, id: u32, minutes: i64)
    requires
        at_most_one_active(s),
    ensures
        at_most_one_active(override_post(s, id, minutes)),
{
    let post = override_post(s, id, minutes);
    lemma_first_index_of_id(s, id);
    assert forall|i: int, j: int|
        0 <= i < j < post.len() implies !(is_active(post[i]) && is_active(post[j])) by {
        assert(post[i].end_time == s[i].end_time);
        assert(post[j].end_time == s[j].end_time);
    }
}

/// `stop_active_task` and `override_task_duration` touch no id, and
/// `remove_task` keeps a subsequence, so distinct ids stay distinct.
pub proof fn lemma_ids_kept_by_stop_override_remove(
    s: Seq<TaskV>,
    energy: i8,
    comment: Seq<char>,
    now: i64,
    id: u32,
    minutes: i64,
)
    requires
        unique_ids(s),
    ensures
        unique_ids(stop_post(s, energy, comment, now)),
        unique_ids(override_post(s, id, minutes)),
        unique_ids(remove_post(s, id)),
{
    let p = stop_post(s, energy, comment, now);
    lemma_last_active_index(s);
    assert forall|i: int, j: int| 0 <= i < j < p.len() implies p[i].id != p[j].id by {
        assert(p[i].id == s[i].id);
        assert(p[j].id == s[j].id);
    }
    let q = override_post(s, id, minutes);
    lemma_first_index_of_id(s, id);
    assert forall|i: int, j: int| 0 <= i < j < q.len() implies q[i].id != q[j].id by {
        assert(q[i].id == s[i].id);
        assert(q[j].id == s[j].id);
    }
    let r = remove_post(s, id);
    if has_id(s, id) {
        let k = first_index_of_id(s, id);
        assert forall|i: int, j: int| 0 <= i < j < r.len() implies r[i].id != r[j].id by {
            let si = if i < k {
                i
            } else {
                i + 1
            };
            let sj = if j < k {
                j
            } else {
                j + 1
            };
            assert(r[i] == s[si]);
            assert(r[j] == s[sj]);
        }
    }
}

/// `create_task` assigns one above the watermark. While the watermark
/// equals the largest id present — true until the task carrying the largest
/// id is removed — that is `max(existing ids) + 1`, and 1 on a store built
/// empty.
pub proof fn lemma_create_id(s: Seq<TaskV>, hw: int, name: Seq<char>, tags: Seq<Seq<char>>, now: i64)
    requires
        id_watermark_ok(s, hw),
        0 <= hw < u32::MAX,
    ensures
        created_task(hw, name, tags, now).id as int == hw + 1,
        hw == max_id(s) ==> created_task(hw, name, tags, now).id as int == max_id(s) + 1,
        hw == 0 ==> created_task(hw, name, tags, now).id == 1,
{
}

/// The assigned id lies strictly above every id the store holds. Since the
/// watermark never decreases and removal leaves it unchanged, it also lies
/// above every id the store has held since it was built this run: a removed
/// id is never handed out again within a run.
pub proof fn lemma_created_id_fresh(
    s: Seq<TaskV>,
    hw: int,
    name: Seq<char>,
    tags: Seq<Seq<char>>,
    now: i64,
)
    requires
        id_watermark_ok(s, hw),
        0 <= hw < u32::MAX,
    ensures
        forall|i: int|
            0 <= i < s.len() ==> created_task(hw, name, tags, now).id > (#[trigger] s[i].id),
{
    lemma_max_id_bounds(s);
}

/// Removing a task never lowers the largest id below itself.
proof fn lemma_max_id_remove_le(s: Seq<TaskV>, i: int)
    requires
        0 <= i < s.len(),
    ensures
        max_id(s.remove(i)) <= max_id(s),
{
    let r = s.remove(i);
    lemma_max_id_bounds(s);
    if r.len() == 0 {
        assert(max_id(r) == 0);
    } else {
        lemma_max_id_attained(r);
        let v = choose|j: int| 0 <= j < r.len() && (#[trigger] r[j].id) == max_id(r);
        let vs = if v < i {
            v
        } else {
            v + 1
        };
        assert(r[v] == s[vs]);
        assert(s[vs].id <= max_id(s));
    }
}

/// A removed id is never reused: removal keeps the watermark (the store's
/// contract leaves `high_water` unchanged, and the largest id only shrinks),
/// and the next `create_task` assigns strictly above the watermark, which
/// the removed id does not exceed.
pub proof fn lemma_removed_id_not_reused(
    s: Seq<TaskV>,
    hw: int,
    id: u32,
    name: Seq<char>,
    tags: Seq<Seq<char>>,
    now: i64,
)
    requires
        id_watermark_ok(s, hw),
        0 <= hw < u32::MAX,
        has_id(s, id),
    ensures
        id_watermark_ok(remove_post(s, id), hw),
        created_task(hw, name, tags, now).id != id,
{
    lemma_max_id_bounds(s);
    lemma_first_index_of_id(s, id);
    lemma_max_id_remove_le(s, first_index_of_id(s, id));
}

/// Two stores with the same ids at the same positions share their largest
/// id.
proof fn lemma_max_id_same_ids(a: Seq<TaskV>, b: Seq<TaskV>)
    requires
        a.len() == b.len(),
        forall|i: int| 0 <= i < a.len() ==> (#[trigger] a[i].id) == b[i].id,
    ensures
        max_id(a) == max_id(b),
    decreases a.len(),
{
    if a.len() > 0 {
        assert forall|i: int|
            0 <= i < a.len() - 1 implies (#[trigger] a.drop_last()[i].id) == b.drop_last()[i].id by {
            assert(a.drop_last()[i] == a[i]);
            assert(b.drop_last()[i] == b[i]);
        }
        lemma_max_id_same_ids(a.drop_last(), b.drop_last());
        assert(a.last().id == b[a.len() - 1].id);
    }
}

/// `create_task` and `add_manual_task` keep the watermark rule with the
/// raised mark; stopping, overriding and removing keep it with the mark
/// unchanged. So the rule holds of every store the operations can build.
pub proof fn lemma_ops_keep_id_watermark(
    s: Seq<TaskV>,
    hw: int,
    name: Seq<char>,
    tags: Seq<Seq<char>>,
    now: i64,
    start: i64,
    manual_minutes: i64,
    energy: i8,
    comment: Seq<char>,
    id: u32,
    minutes: i64,
)
    requires
        id_watermark_ok(s, hw),
        0 <= hw < u32::MAX,
    ensures
        id_watermark_ok(create_post(s, hw, name, tags, now), hw + 1),
        id_watermark_ok(
            manual_post(s, hw, name, start, manual_minutes, energy, comment),
            hw + 1,
        ),
        id_watermark_ok(stop_post(s, energy, comment, now), hw),
        id_watermark_ok(override_post(s, id, minutes), hw),
        id_watermark_ok(remove_post(s, id), hw),
{
    let cp = create_post(s, hw, name, tags, now);
    if cp.len() > s.len() {
        assert(cp.drop_last() =~= s);
        assert(cp.last() == created_task(hw, name, tags, now));
    }
    let mp = manual_post(s, hw, name, start, manual_minutes, energy, comment);
    if mp.len() > s.len() {
        assert(mp.drop_last() =~= s);
        assert(mp.last() == manual_task(hw, name, start, manual_minutes, energy, comment));
    }
    let p = stop_post(s, energy, comment, now);
    lemma_last_active_index(s);
    assert forall|i: int| 0 <= i < p.len() implies (#[trigger] p[i].id) == s[i].id by {}
    lemma_max_id_same_ids(p, s);
    let q = override_post(s, id, minutes);
    lemma_first_index_of_id(s, id);
    assert forall|i: int| 0 <= i < q.len() implies (#[trigger] q[i].id) == s[i].id by {}
    lemma_max_id_same_ids(q, s);
    if has_id(s, id) {
        lemma_max_id_remove_le(s, first_index_of_id(s, id));
    }
}

/// A store with pairwise distinct ids keeps them distinct across
/// `create_task`: the fresh id lies above every id present.
pub proof fn lemma_create_preserves_unique_ids(
    s: Seq<TaskV>,
    hw: int,
    name: Seq<char>,
    tags: Seq<Seq<char>>,
    now: i64,
)
    requires
        unique_ids(s),
        id_watermark_ok(s, hw),
        0 <= hw < u32::MAX,
    ensures
        unique_ids(create_post(s, hw, name, tags, now)),
{
    let post = create_post(s, hw, name, tags, now);
    lemma_max_id_bounds(s);
    if create_result(s, name, tags) == TimeTrackerResult::Success {
        assert forall|i: int, j: int|
            0 <= i < j < post.len() implies post[i].id != post[j].id by {
            if j < s.len() {
                assert(post[i] == s[i]);
                assert(post[j] == s[j]);
            } else {
                assert(post[i] == s[i]);
                assert(s[i].id <= max_id(s));
            }
        }
    }
}

/// As `lemma_create_preserves_unique_ids`, for `add_manual_task`.
pub proof fn lemma_manual_preserves_unique_ids(
    s: Seq<TaskV>,
    hw: int,
    name: Seq<char>,
    start: i64,
    minutes: i64,
    energy: i8,
    comment: Seq<char>,
)
    requires
        unique_ids(s),
        id_watermark_ok(s, hw),
        0 <= hw < u32::MAX,
    ensures
        unique_ids(manual_post(s, hw, name, start, minutes, energy, comment)),
{
    let post = manual_post(s, hw, name, start, minutes, energy, comment);
    lemma_max_id_bounds(s);
    assert forall|i: int, j: int| 0 <= i < j < post.len() implies post[i].id != post[j].id by {
        if j < s.len() {
            assert(post[i] == s[i]);
            assert(post[j] == s[j]);
        } else if post.len() > s.len() {
            assert(post[i] == s[i]);
            assert(s[i].id <= max_id(s));
        }
    }
}

/// Ending a task whose computed elapsed time ran over the 120-minute limit
/// flags that task's id for confirmation, and overriding by that id replaces
/// the computed duration with the confirmed minute count, touching nothing
/// else of the task or of the store.
pub proof fn lemma_duration_override(
    s: Seq<TaskV>,
    energy: i8,
    comment: Seq<char>,
    now: i64,
    minutes: i64,
)
    requires
        unique_ids(s),
        has_active(s),
        end_needs_confirmation(s[last_active_index(s)].start_time, now),
        (0 <= minutes <= i64::MAX / 60),
    ensures
        ({
            let a = last_active_index(s);
            let p = stop_post(s, energy, comment, now);
            let q = override_post(p, s[a].id, minutes);
            &&& stop_confirm_id(s, now) == Some(s[a].id)
            &&& override_result(p, s[a].id, minutes) == TimeTrackerResult::Success
            &&& q[a].duration == minutes * 60
            &&& q[a].end_time == Some(clamp_ts_spec(now))
            &&& q[a].id == s[a].id
            &&& q.len() == s.len()
            &&& (forall|j: int| 0 <= j < s.len() && j != a ==> #[trigger] q[j] == s[j])
        }),
{
    let a = last_active_index(s);
    lemma_last_active_index(s);
    let p = stop_post(s, energy, comment, now);
    assert(p[a] == ended_task(s[a], energy, comment, now));
    assert(p[a].id == s[a].id);
    assert(has_id(p, s[a].id));
    lemma_first_index_of_id(p, s[a].id);
    let k = first_index_of_id(p, s[a].id);
    if k < a {
        assert(p[k] == s[k]);
        assert(s[k].id != s[a].id);
    }
    if k > a {
        assert(p[a].id != s[a].id);
    }
    assert(k == a);
    let q = override_post(p, s[a].id, minutes);
    assert forall|j: int| 0 <= j < s.len() && j != a implies #[trigger] q[j] == s[j] by {
        assert(p[j] == s[j]);
    }
}

} // verus!
