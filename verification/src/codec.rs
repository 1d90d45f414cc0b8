//! The store's flat-file schema: one header row, then one record per task
//! with the columns id, name, start_time, end_time, duration, tags, energy,
//! comments. Timestamps are written in the save format; the duration is
//! whole seconds; the tags are comma-joined; an absent value is an empty
//! field. Writing a store and reading the text back gives the same tasks.

use vstd::prelude::*;

use crate::csv::{enc_csv, parse_csv};
use crate::num::{
    dec_digits, dec_int, lemma_dec_digits_all_digits, lemma_dec_digits_head,
    lemma_dec_digits_val, lemma_dec_int_val, parse_i64_spec, parse_i8_spec, parse_u32_spec,
};
use crate::task::TaskV;
use crate::tasks::tag_ok;
use crate::time::{ts_in_range, ts_parse_of};

verus! {

/// The column names, in order.
pub open spec fn header_fields() -> Seq<Seq<char>> {
    seq![
        "id"@,
        "name"@,
        "start_time"@,
        "end_time"@,
        "duration"@,
        "tags"@,
        "energy"@,
        "comments"@,
    ]
}

/// The pieces of `s` between its commas (one piece when there is none).
pub open spec fn split_commas(s: Seq<char>) -> Seq<Seq<char>>
    decreases s.len(),
{
    if s.len() == 0 {
        seq![Seq::<char>::empty()]
    } else {
        let r = split_commas(s.skip(1));
        if s[0] == ',' {
            seq![Seq::<char>::empty()] + r
        } else {
            seq![seq![s[0]] + r[0]] + r.skip(1)
        }
    }
}

/// The pieces joined with commas.
pub open spec fn join_pieces(ts: Seq<Seq<char>>) -> Seq<char>
    decreases ts.len(),
{
    if ts.len() == 0 {
        Seq::empty()
    } else if ts.len() == 1 {
        ts[0]
    } else {
        ts[0] + seq![','] + join_pieces(ts.skip(1))
    }
}

/// The tags column: comma-joined, empty when absent.
pub open spec fn tags_field(tags: Option<Seq<Seq<char>>>) -> Seq<char> {
    match tags {
        None => Seq::empty(),
        Some(ts) => join_pieces(ts),
    }
}

/// The energy column: decimal, empty when absent.
pub open spec fn energy_field(e: Option<i8>) -> Seq<char> {
    match e {
        None => Seq::empty(),
        Some(v) => dec_int(v as int),
    }
}

/// The comments column: the text itself, empty when absent.
pub open spec fn comments_field(c: Option<Seq<char>>) -> Seq<char> {
    match c {
        None => Seq::empty(),
        Some(s) => s,
    }
}

/// The fields of one record faithfully carry one task. The two timestamp
/// columns are pinned through what they parse back to, since their exact
/// text shows the machine's time zone.
pub open spec fn row_encodes(f: Seq<Seq<char>>, t: TaskV) -> bool {
    &&& f.len() == 8
    &&& f[0] == dec_digits(t.id as nat)
    &&& f[1] == t.name
    &&& f[2].len() > 0
    &&& ts_parse_of(f[2]) == Some(t.start_time)
    &&& match t.end_time {
        None => f[3] == Seq::<char>::empty(),
        Some(e) => f[3].len() > 0 && ts_parse_of(f[3]) == Some(e),
    }
    &&& f[4] == dec_int(t.duration as int)
    &&& f[5] == tags_field(t.tags)
    &&& f[6] == energy_field(t.energy)
    &&& f[7] == comments_field(t.comments)
}

/// The text is a well-formed encoding of the tasks: the header row, then
/// one faithful record per task, in order.
pub open spec fn csv_encodes(text: Seq<char>, ts: Seq<TaskV>) -> bool {
    exists|rows: Seq<Seq<Seq<char>>>| #![auto]
        rows.len() == ts.len() && (forall|i: int|
            0 <= i < ts.len() ==> row_encodes(#[trigger] rows[i], ts[i])) && text == enc_csv(
            seq![header_fields()] + rows,
        )
}

/// A row that the reader passes over: too few columns, or the header.
pub open spec fn is_skipped_row(f: Seq<Seq<char>>) -> bool {
    f.len() < 8 || f[0] == "id"@
}

pub open spec fn decode_end(f3: Seq<char>) -> Option<Option<i64>> {
    if f3.len() == 0 {
        Some(None)
    } else {
        match ts_parse_of(f3) {
            Some(e) => if ts_in_range(e) {
                Some(Some(e))
            } else {
                None
            },
            None => None,
        }
    }
}

pub open spec fn decode_duration(f4: Seq<char>) -> Option<i64> {
    if f4.len() == 0 {
        Some(0)
    } else {
        parse_i64_spec(f4)
    }
}

pub open spec fn decode_tags(f5: Seq<char>) -> Option<Seq<Seq<char>>> {
    if f5.len() == 0 {
        None
    } else {
        Some(split_commas(f5))
    }
}

pub open spec fn decode_energy(f6: Seq<char>) -> Option<Option<i8>> {
    if f6.len() == 0 {
        Some(None)
    } else {
        match parse_i8_spec(f6) {
            Some(e) => Some(Some(e)),
            None => None,
        }
    }
}

/// The task carried by one record of at least eight fields; `None` when a
/// numeric or timestamp column is malformed.
pub open spec fn decode_task(f: Seq<Seq<char>>) -> Option<TaskV> {
    match (parse_u32_spec(f[0]), ts_parse_of(f[2]), decode_end(f[3]), decode_duration(f[4]),
    decode_energy(f[6])) {
        (Some(id), Some(start), Some(end), Some(dur), Some(energy)) => if ts_in_range(start) {
            Some(
                TaskV {
                    id: id,
                    name: f[1],
                    start_time: start,
                    end_time: end,
                    duration: dur,
                    tags: decode_tags(f[5]),
                    energy: energy,
                    comments: if f[7].len() == 0 {
                        None
                    } else {
                        Some(f[7])
                    },
                },
            )
        } else {
            None
        },
        _ => None,
    }
}

/// The tasks carried by a sequence of records, skipped rows left out;
/// `None` as soon as one record is malformed.
pub open spec fn decode_rows(rows: Seq<Seq<Seq<char>>>) -> Option<Seq<TaskV>>
    decreases rows.len(),
{
    if rows.len() == 0 {
        Some(Seq::empty())
    } else {
        match decode_rows(rows.drop_last()) {
            None => None,
            Some(ts) => {
                let r = rows.last();
                if is_skipped_row(r) {
                    Some(ts)
                } else {
                    match decode_task(r) {
                        None => None,
                        Some(t) => Some(ts.push(t)),
                    }
                }
            },
        }
    }
}

/// A task every column of which survives the trip through the file: its
/// instants are storable, its tags (if any) are nonempty and comma-free,
/// and its comment (if any) is nonempty.
pub open spec fn task_storable(t: TaskV) -> bool {
    &&& ts_in_range(t.start_time)
    &&& (t.end_time matches Some(e) ==> ts_in_range(e))
    &&& (t.tags matches Some(ts) ==> ts.len() >= 1 && (forall|i: int|
        0 <= i < ts.len() ==> tag_ok(#[trigger] ts[i])))
    &&& t.comments != Some(Seq::<char>::empty())
}

pub open spec fn store_storable(s: Seq<TaskV>) -> bool {
    forall|i: int| 0 <= i < s.len() ==> task_storable(#[trigger] s[i])
}

/// Splitting comma-free text gives the one piece back.
proof fn lemma_split_nocomma(s: Seq<char>)
    requires
        !s.contains(','),
    ensures
        split_commas(s) == seq![s],
    decreases s.len(),
{
    if s.len() == 0 {
        assert(s =~= Seq::<char>::empty());
        assert(split_commas(s) =~~= seq![s]);
    } else {
        assert(s[0] != ',');
        assert(!s.skip(1).contains(',')) by {
            if s.skip(1).contains(',') {
                let w = choose|i: int| 0 <= i < s.skip(1).len() && s.skip(1)[i] == ',';
                assert(s[w + 1] == ',');
            }
        }
        lemma_split_nocomma(s.skip(1));
        assert(seq![s[0]] + s.skip(1) =~= s);
        assert(split_commas(s) =~~= seq![s]);
    }
}

/// Splitting at the first comma peels off the comma-free piece before it.
proof fn lemma_split_comma(a: Seq<char>, rest: Seq<char>)
    requires
        !a.contains(','),
    ensures
        split_commas(a + seq![','] + rest) == seq![a] + split_commas(rest),
    decreases a.len(),
{
    let s = a + seq![','] + rest;
    if a.len() == 0 {
        assert(s[0] == ',');
        assert(s.skip(1) =~= rest);
        assert(split_commas(s) =~~= seq![a] + split_commas(rest));
    } else {
        assert(s[0] == a[0]);
        assert(a[0] != ',');
        assert(!a.skip(1).contains(',')) by {
            if a.skip(1).contains(',') {
                let w = choose|i: int| 0 <= i < a.skip(1).len() && a.skip(1)[i] == ',';
                assert(a[w + 1] == ',');
            }
        }
        assert(s.skip(1) =~= a.skip(1) + seq![','] + rest);
        lemma_split_comma(a.skip(1), rest);
        let r = split_commas(s.skip(1));
        assert(r == seq![a.skip(1)] + split_commas(rest));
        assert(r[0] == a.skip(1));
        assert(seq![s[0]] + r[0] =~= a);
        assert(r.skip(1) =~= split_commas(rest));
        assert(split_commas(s) =~~= seq![a] + split_commas(rest));
    }
}

/// Joining pieces and splitting the text gives the pieces back, when each
/// piece is nonempty and comma-free.
pub proof fn lemma_join_split(ts: Seq<Seq<char>>)
    requires
        ts.len() >= 1,
        forall|i: int| 0 <= i < ts.len() ==> tag_ok(#[trigger] ts[i]),
    ensures
        split_commas(join_pieces(ts)) == ts,
        join_pieces(ts).len() >= 1,
    decreases ts.len(),
{
    if ts.len() == 1 {
        lemma_split_nocomma(ts[0]);
        assert(split_commas(join_pieces(ts)) =~~= ts);
    } else {
        lemma_join_split(ts.skip(1));
        lemma_split_comma(ts[0], join_pieces(ts.skip(1)));
        assert(seq![ts[0]] + ts.skip(1) =~~= ts);
        assert(split_commas(join_pieces(ts)) =~~= ts);
    }
}

/// A task's record is never mistaken for the header or skipped: it has
/// eight columns and its first column is digits.
proof fn lemma_row_not_skipped(f: Seq<Seq<char>>, t: TaskV)
    requires
        row_encodes(f, t),
    ensures
        !is_skipped_row(f),
{
    reveal_strlit("id");
    lemma_dec_digits_all_digits(t.id as nat);
    lemma_dec_digits_head(t.id as nat);
    if f[0] == "id"@ {
        assert(f[0][0] == 'i');
        assert(crate::num::is_digit(f[0][0]));
    }
}

/// A faithful record of a storable task decodes to exactly that task.
proof fn lemma_row_decodes(f: Seq<Seq<char>>, t: TaskV)
    requires
        row_encodes(f, t),
        task_storable(t),
    ensures
        decode_task(f) == Some(t),
{
    lemma_dec_digits_val(t.id as nat);
    lemma_dec_digits_head(t.id as nat);
    lemma_dec_digits_all_digits(t.id as nat);
    assert(parse_u32_spec(f[0]) == Some(t.id));
    lemma_dec_int_val(t.duration as int);
    assert(f[4].len() > 0) by {
        if t.duration >= 0 {
            lemma_dec_digits_all_digits(t.duration as nat);
        } else {
            lemma_dec_digits_all_digits((-(t.duration as int)) as nat);
        }
    }
    assert(decode_duration(f[4]) == Some(t.duration));
    match t.energy {
        None => {
            assert(decode_energy(f[6]) == Some(Option::<i8>::None));
        },
        Some(e) => {
            lemma_dec_int_val(e as int);
            assert(f[6].len() > 0) by {
                if e >= 0 {
                    lemma_dec_digits_all_digits(e as nat);
                } else {
                    lemma_dec_digits_all_digits((-(e as int)) as nat);
                }
            }
            assert(decode_energy(f[6]) == Some(Some(e)));
        },
    }
    match t.tags {
        None => {
            assert(decode_tags(f[5]) == Option::<Seq<Seq<char>>>::None);
        },
        Some(ts) => {
            lemma_join_split(ts);
            assert(decode_tags(f[5]) == Some(ts));
        },
    }
    match t.end_time {
        None => {
            assert(decode_end(f[3]) == Some(Option::<i64>::None));
        },
        Some(e) => {
            assert(f[3].len() > 0);
            assert(ts_parse_of(f[3]) == Some(e));
            assert(ts_in_range(e));
            assert(decode_end(f[3]) == Some(Some(e)));
        },
    }
    match t.comments {
        None => {},
        Some(c) => {
            if c.len() == 0 {
                assert(c =~= Seq::<char>::empty());
            }
            assert(c.len() > 0);
        },
    }
}

/// The round trip at the record level: the header row followed by faithful
/// records of storable tasks decodes to exactly those tasks.
proof fn lemma_rows_decode(rows: Seq<Seq<Seq<char>>>, ts: Seq<TaskV>)
    requires
        rows.len() == ts.len(),
        forall|i: int| 0 <= i < ts.len() ==> row_encodes(#[trigger] rows[i], ts[i]),
        store_storable(ts),
    ensures
        decode_rows(seq![header_fields()] + rows) == Some(ts),
    decreases rows.len(),
{
    reveal_strlit("id");
    if rows.len() == 0 {
        let all = seq![header_fields()] + rows;
        assert(all.len() == 1);
        assert(all.drop_last() =~~= Seq::<Seq<Seq<char>>>::empty());
        assert(all.last() == header_fields());
        assert(is_skipped_row(header_fields()));
        assert(decode_rows(Seq::<Seq<Seq<char>>>::empty()) == Some(Seq::<TaskV>::empty()));
        assert(decode_rows(all) == Some(Seq::<TaskV>::empty()));
        assert(Seq::<TaskV>::empty() =~= ts);
    } else {
        lemma_rows_decode(rows.drop_last(), ts.drop_last());
        let all = seq![header_fields()] + rows;
        assert(all.drop_last() =~~= seq![header_fields()] + rows.drop_last());
        assert(all.last() == rows.last());
        let k = rows.len() - 1;
        assert(row_encodes(rows[k], ts[k]));
        assert(task_storable(ts[k]));
        lemma_row_not_skipped(rows[k], ts[k]);
        lemma_row_decodes(rows[k], ts[k]);
        assert(ts.drop_last().push(ts[k]) =~= ts);
    }
}

/// The round trip: any well-formed encoding of a storable store parses and
/// decodes to exactly the store's tasks, in order.
pub proof fn lemma_csv_round_trip(ts: Seq<TaskV>, text: Seq<char>)
    requires
        csv_encodes(text, ts),
        store_storable(ts),
    ensures
        parse_csv(text) matches Some(rows) && decode_rows(rows) == Some(ts),
{
    let rows = choose|rows: Seq<Seq<Seq<char>>>| #![auto]
        rows.len() == ts.len() && (forall|i: int|
            0 <= i < ts.len() ==> row_encodes(#[trigger] rows[i], ts[i])) && text == enc_csv(
            seq![header_fields()] + rows,
        );
    let all = seq![header_fields()] + rows;
    assert forall|i: int| 0 <= i < all.len() implies (#[trigger] all[i].len()) >= 2 by {
        if i == 0 {
            assert(all[0] == header_fields());
        } else {
            assert(all[i] == rows[i - 1]);
            assert(row_encodes(rows[i - 1], ts[i - 1]));
        }
    }
    crate::csv::lemma_parse_enc_csv(all);
    lemma_rows_decode(rows, ts);
}

/// What went wrong reading a tasks file.
#[derive(Clone, Copy, PartialEq, Eq, Structural, Debug)]
pub enum CsvError {
    /// The text is not well-formed (an unterminated quote, or text after a
    /// closing quote).
    BadSyntax,
    /// A record carries a malformed id, timestamp, duration or energy.
    BadRecord,
}

/// Append the comma-joined tags, starting at tag `j`.
pub(crate) fn join_tags_from(tags: &Vec<String>, j: usize, out: &mut Vec<char>)
    requires
        j < tags@.len(),
    ensures
        final(out)@ == old(out)@ + join_pieces(tags.deep_view().skip(j as int)),
    decreases tags@.len() - j,
{
    let cs = crate::text::str_to_chars(tags[j].as_str());
    crate::text::push_chars(&cs, out);
    proof {
        assert(tags.deep_view()[j as int] =~= tags@[j as int]@);
    }
    let last = tags.len() - 1;
    if j < last {
        out.push(',');
        join_tags_from(tags, j + 1, out);
        proof {
            let ts = tags.deep_view().skip(j as int);
            assert(ts[0] == tags.deep_view()[j as int]);
            assert(ts.skip(1) =~= tags.deep_view().skip(j as int + 1));
            assert(out@ =~= old(out)@ + join_pieces(ts));
        }
    } else {
        proof {
            let ts = tags.deep_view().skip(j as int);
            assert(ts.len() == 1);
            assert(ts[0] == tags.deep_view()[j as int]);
            assert(out@ =~= old(out)@ + join_pieces(ts));
        }
    }
}

/// Whether every column of the task survives the trip through the file.
pub fn task_storable_exec(t: &crate::task::Task) -> (r: bool)
    ensures
        r == task_storable(t@),
{
    if t.start_time < crate::time::MIN_TS || t.start_time > crate::time::MAX_TS {
        return false;
    }
    match &t.end_time {
        Some(e) => {
            if *e < crate::time::MIN_TS || *e > crate::time::MAX_TS {
                return false;
            }
        },
        None => {},
    }
    match &t.tags {
        Some(ts) => {
            if ts.len() == 0 {
                return false;
            }
            let n = ts.len();
            let mut i: usize = 0;
            while i < n
                invariant
                    n == ts@.len(),
                    i <= n,
                    t@.tags == Some(ts.deep_view()),
                    ts@.len() > 0,
                    ts_in_range(t@.start_time),
                    (t@.end_time matches Some(e) ==> ts_in_range(e)),
                    forall|k: int| 0 <= k < i ==> tag_ok(#[trigger] ts.deep_view()[k]),
                decreases n - i,
            {
                let bad = ts[i].as_str().is_empty() || crate::text::str_has_char(
                    ts[i].as_str(),
                    ',',
                );
                if bad {
                    proof {
                        assert(!tag_ok(ts.deep_view()[i as int]));
                    }
                    return false;
                }
                i = i + 1;
            }
        },
        None => {},
    }
    match &t.comments {
        Some(c) => {
            if c.as_str().is_empty() {
                proof {
                    assert(c@ =~= Seq::<char>::empty());
                }
                return false;
            }
        },
        None => {},
    }
    true
}

/// The eight fields of one storable task.
fn encode_task_row(t: &crate::task::Task) -> (r: Vec<Vec<char>>)
    requires
        task_storable(t@),
    ensures
        row_encodes(r.deep_view(), t@),
{
    let mut row: Vec<Vec<char>> = Vec::new();
    let f0 = crate::num::u64_to_chars(t.id as u64);
    row.push(f0);
    let f1 = crate::text::str_to_chars(t.name.as_str());
    row.push(f1);
    let start_text = crate::time::format_ts(t.start_time);
    let f2 = crate::text::str_to_chars(start_text.as_str());
    row.push(f2);
    let f3 = match &t.end_time {
        Some(e) => {
            let end_text = crate::time::format_ts(*e);
            crate::text::str_to_chars(end_text.as_str())
        },
        None => Vec::new(),
    };
    row.push(f3);
    let f4 = crate::num::i64_to_chars(t.duration);
    row.push(f4);
    let f5 = match &t.tags {
        Some(ts) => {
            let mut out: Vec<char> = Vec::new();
            join_tags_from(ts, 0, &mut out);
            proof {
                assert(ts.deep_view().skip(0) =~~= ts.deep_view());
            }
            out
        },
        None => Vec::new(),
    };
    row.push(f5);
    let f6 = match &t.energy {
        Some(e) => crate::num::i64_to_chars(*e as i64),
        None => Vec::new(),
    };
    row.push(f6);
    let f7 = match &t.comments {
        Some(c) => crate::text::str_to_chars(c.as_str()),
        None => Vec::new(),
    };
    row.push(f7);
    proof {
        assert(row.deep_view().len() == 8);
        assert(row.deep_view()[0] =~= dec_digits(t@.id as nat));
        assert(row.deep_view()[1] =~= t@.name);
        assert(row.deep_view()[2] =~= f2@);
        assert(row.deep_view()[3] =~= f3@);
        assert(row.deep_view()[4] =~= dec_int(t@.duration as int));
        assert(row.deep_view()[5] =~= f5@);
        assert(f5@ =~= tags_field(t@.tags));
        assert(row.deep_view()[6] =~= energy_field(t@.energy));
        assert(row.deep_view()[7] =~= comments_field(t@.comments));
        crate::num::lemma_dec_digits_all_digits(t@.id as nat);
    }
    row
}

/// The header row.
fn header_row() -> (r: Vec<Vec<char>>)
    ensures
        r.deep_view() == header_fields(),
{
    let mut row: Vec<Vec<char>> = Vec::new();
    row.push(crate::text::str_to_chars("id"));
    row.push(crate::text::str_to_chars("name"));
    row.push(crate::text::str_to_chars("start_time"));
    row.push(crate::text::str_to_chars("end_time"));
    row.push(crate::text::str_to_chars("duration"));
    row.push(crate::text::str_to_chars("tags"));
    row.push(crate::text::str_to_chars("energy"));
    row.push(crate::text::str_to_chars("comments"));
    proof {
        assert(row.deep_view() =~~= header_fields());
    }
    row
}

/// Whether the field is the header marker `id`.
fn is_header_marker(f: &Vec<char>) -> (r: bool)
    ensures
        r == (f@ == "id"@),
{
    proof {
        reveal_strlit("id");
    }
    if f.len() == 2 && f[0] == 'i' && f[1] == 'd' {
        proof {
            assert(f@ =~= "id"@);
        }
        true
    } else {
        proof {
            if f@ == "id"@ {
                assert(f@.len() == 2 && f@[0] == 'i' && f@[1] == 'd');
            }
        }
        false
    }
}

/// The pieces of the field between its commas, as strings.
fn split_commas_exec(f: &Vec<char>) -> (r: Vec<String>)
    ensures
        r.deep_view() == split_commas(f@),
{
    let n = f.len();
    let mut out: Vec<String> = Vec::new();
    let mut cur: Vec<char> = Vec::new();
    let mut i: usize = 0;
    proof {
        assert(cur@ + f@.skip(0) =~= f@);
        assert(out.deep_view() + split_commas(cur@ + f@.skip(0)) =~~= split_commas(f@));
    }
    while i < n
        invariant
            n == f@.len(),
            i <= n,
            !cur@.contains(','),
            out.deep_view() + split_commas(cur@ + f@.skip(i as int)) == split_commas(f@),
        decreases n - i,
    {
        let ghost out0 = out.deep_view();
        let ghost cur0 = cur@;
        let c = f[i];
        proof {
            assert(f@.skip(i as int)[0] == f@[i as int]);
            assert(f@.skip(i as int).skip(1) =~= f@.skip(i as int + 1));
        }
        if c == ',' {
            proof {
                lemma_split_comma(cur0, f@.skip(i as int + 1));
                assert(cur0 + f@.skip(i as int) =~= cur0 + seq![','] + f@.skip(i as int + 1));
            }
            let piece = crate::text::chars_to_string(&cur);
            out.push(piece);
            cur = Vec::new();
            proof {
                assert(out.deep_view() =~~= out0.push(cur0));
                assert(out0.push(cur0) + split_commas(f@.skip(i as int + 1)) =~~= out0 + (seq![
                    cur0,
                ] + split_commas(f@.skip(i as int + 1))));
                assert(cur@ + f@.skip(i as int + 1) =~= f@.skip(i as int + 1));
            }
        } else {
            cur.push(c);
            proof {
                if cur@.contains(',') {
                    let w = choose|k: int| 0 <= k < cur@.len() && cur@[k] == ',';
                    assert(cur@[w] == ',');
                    assert(w < cur0.len() || cur@[w] == c);
                }
                assert(cur@ + f@.skip(i as int + 1) =~= cur0 + f@.skip(i as int));
            }
        }
        i = i + 1;
    }
    let ghost out0 = out.deep_view();
    let ghost cur0 = cur@;
    proof {
        assert(f@.skip(n as int) =~= Seq::<char>::empty());
        assert(cur0 + f@.skip(n as int) =~= cur0);
        lemma_split_nocomma(cur0);
    }
    let piece = crate::text::chars_to_string(&cur);
    out.push(piece);
    proof {
        assert(out.deep_view() =~~= out0.push(cur0));
        assert(out0.push(cur0) =~~= out0 + seq![cur0]);
        assert(out.deep_view() =~~= split_commas(f@));
    }
    out
}

/// The task carried by one record of at least eight fields.
fn decode_task_exec(row: &Vec<Vec<char>>) -> (r: Option<crate::task::Task>)
    requires
        row@.len() >= 8,
    ensures
        r matches Some(t) ==> decode_task(row.deep_view()) == Some(t@),
        r is None ==> decode_task(row.deep_view()) is None,
{
    proof {
        assert forall|k: int| 0 <= k < row@.len() implies (#[trigger] row.deep_view()[k])
            =~= row@[k]@ by {}
    }
    let id = match crate::num::parse_u32_chars(&row[0]) {
        Some(v) => v,
        None => {
            return None;
        },
    };
    let start_text = crate::text::chars_to_string(&row[2]);
    let start = match crate::time::parse_ts(start_text.as_str()) {
        Some(v) => v,
        None => {
            return None;
        },
    };
    if start < crate::time::MIN_TS || start > crate::time::MAX_TS {
        return None;
    }
    let end_time = if row[3].len() == 0 {
        None
    } else {
        let end_text = crate::text::chars_to_string(&row[3]);
        match crate::time::parse_ts(end_text.as_str()) {
            Some(v) => {
                if v < crate::time::MIN_TS || v > crate::time::MAX_TS {
                    return None;
                }
                Some(v)
            },
            None => {
                return None;
            },
        }
    };
    let duration = if row[4].len() == 0 {
        0
    } else {
        match crate::num::parse_i64_chars(&row[4]) {
            Some(v) => v,
            None => {
                return None;
            },
        }
    };
    let tags = if row[5].len() == 0 {
        None
    } else {
        Some(split_commas_exec(&row[5]))
    };
    let energy = if row[6].len() == 0 {
        None
    } else {
        match crate::num::parse_i8_chars(&row[6]) {
            Some(v) => Some(v),
            None => {
                return None;
            },
        }
    };
    let comments = if row[7].len() == 0 {
        None
    } else {
        Some(crate::text::chars_to_string(&row[7]))
    };
    let name = crate::text::chars_to_string(&row[1]);
    Some(
        crate::task::Task {
            id,
            name,
            start_time: start,
            end_time,
            duration,
            tags,
            energy,
            comments,
        },
    )
}

/// A malformed prefix of the records makes the whole sequence malformed.
proof fn lemma_decode_rows_prefix_none(rows: Seq<Seq<Seq<char>>>, k: int)
    requires
        0 <= k <= rows.len(),
        decode_rows(rows.take(k)) is None,
    ensures
        decode_rows(rows) is None,
    decreases rows.len() - k,
{
    if k == rows.len() {
        assert(rows.take(k) =~~= rows);
    } else {
        assert(rows.take(k + 1).drop_last() =~~= rows.take(k));
        lemma_decode_rows_prefix_none(rows, k + 1);
    }
}

impl crate::tasks::TimeTracker {
    /// The file text of the store: the header row, then one record per
    /// task, in order. `None` exactly when some task cannot be stored (an
    /// instant out of range, an empty or comma-holding tag, or an empty
    /// comment recorded as present).
    pub fn to_csv(&self) -> (r: Option<String>)
        ensures
            r matches Some(text) ==> csv_encodes(text@, self@),
            r is None <==> !store_storable(self@),
    {
        let n = self.tasks.len();
        let mut i: usize = 0;
        while i < n
            invariant
                n == self.tasks@.len(),
                i <= n,
                forall|k: int| 0 <= k < i ==> task_storable(#[trigger] self@[k]),
            decreases n - i,
        {
            if !task_storable_exec(&self.tasks[i]) {
                proof {
                    assert(!task_storable(self@[i as int]));
                }
                return None;
            }
            i = i + 1;
        }
        let mut rows: Vec<Vec<Vec<char>>> = Vec::new();
        rows.push(header_row());
        let mut j: usize = 0;
        while j < n
            invariant
                n == self.tasks@.len(),
                j <= n,
                store_storable(self@),
                rows@.len() == j + 1,
                rows.deep_view()[0] == header_fields(),
                forall|k: int|
                    0 <= k < j ==> row_encodes(#[trigger] rows.deep_view()[k + 1], self@[k]),
            decreases n - j,
        {
            let ghost rows0 = rows.deep_view();
            proof {
                assert(task_storable(self@[j as int]));
            }
            let row = encode_task_row(&self.tasks[j]);
            rows.push(row);
            proof {
                assert(rows.deep_view() =~~= rows0.push(row.deep_view()));
            }
            j = j + 1;
        }
        proof {
            assert forall|k: int|
                0 <= k < rows@.len() implies (#[trigger] rows.deep_view()[k].len()) >= 1 by {
                if k == 0 {
                    assert(rows.deep_view()[0] == header_fields());
                } else {
                    let k0 = k - 1;
                    assert(row_encodes(rows.deep_view()[k0 + 1], self@[k0]));
                }
            }
        }
        let text_chars = crate::csv::encode_csv(&rows);
        let text = crate::text::chars_to_string(&text_chars);
        proof {
            let body = rows.deep_view().skip(1);
            assert(body.len() == self@.len());
            assert forall|k: int| 0 <= k < self@.len() implies row_encodes(
                #[trigger] body[k],
                self@[k],
            ) by {
                assert(row_encodes(rows.deep_view()[k + 1], self@[k]));
                assert(body[k] == rows.deep_view()[k + 1]);
            }
            assert(seq![header_fields()] + body =~~= rows.deep_view());
            assert(text@ == enc_csv(seq![header_fields()] + body));
            assert(csv_encodes(text@, self@));
        }
        Some(text)
    }

    /// The store carried by a file text: well-formed records, the header
    /// and short or empty rows passed over, every remaining record decoded.
    /// `BadSyntax` for text that is not well-formed, `BadRecord` for a
    /// record with a malformed id, timestamp, duration or energy.
    pub fn from_csv(text: &str) -> (r: Result<crate::tasks::TimeTracker, CsvError>)
        ensures
            r matches Ok(t) ==> (parse_csv(text@) matches Some(rows) && decode_rows(rows) == Some(
                t@,
            )),
            r matches Ok(t) ==> t.high_water as int == crate::tasks::max_id(t@),
            r matches Err(e) ==> ((e == CsvError::BadSyntax && parse_csv(text@) is None) || (e
                == CsvError::BadRecord && (parse_csv(text@) matches Some(rows) && decode_rows(rows)
                is None))),
    {
        let chars = crate::text::str_to_chars(text);
        let rows = match crate::csv::parse_csv_exec(&chars) {
            None => {
                return Err(CsvError::BadSyntax);
            },
            Some(r) => r,
        };
        let n = rows.len();
        let mut tasks: Vec<crate::task::Task> = Vec::new();
        let mut i: usize = 0;
        proof {
            assert(rows.deep_view().take(0) =~~= Seq::<Seq<Seq<char>>>::empty());
            assert(tasks.deep_view() =~~= Seq::<TaskV>::empty());
        }
        while i < n
            invariant
                n == rows@.len(),
                i <= n,
                parse_csv(text@) == Some(rows.deep_view()),
                decode_rows(rows.deep_view().take(i as int)) == Some(tasks.deep_view()),
            decreases n - i,
        {
            let ghost tasks0 = tasks.deep_view();
            proof {
                assert(rows.deep_view().take(i as int + 1).drop_last() =~~= rows.deep_view().take(
                    i as int,
                ));
                assert(rows.deep_view().take(i as int + 1).last() == rows.deep_view()[i as int]);
                assert(rows.deep_view()[i as int].len() == rows@[i as int]@.len());
            }
            if rows[i].len() < 8 {
                proof {
                    assert(is_skipped_row(rows.deep_view()[i as int]));
                }
            } else if is_header_marker(&rows[i][0]) {
                proof {
                    assert(rows.deep_view()[i as int][0] =~= rows@[i as int]@[0]@);
                    assert(is_skipped_row(rows.deep_view()[i as int]));
                }
            } else {
                proof {
                    assert(rows.deep_view()[i as int][0] =~= rows@[i as int]@[0]@);
                    assert(!is_skipped_row(rows.deep_view()[i as int]));
                }
                match decode_task_exec(&rows[i]) {
                    None => {
                        proof {
                            assert(decode_rows(rows.deep_view().take(i as int + 1)) is None);
                            lemma_decode_rows_prefix_none(rows.deep_view(), i as int + 1);
                        }
                        return Err(CsvError::BadRecord);
                    },
                    Some(t) => {
                        tasks.push(t);
                        proof {
                            assert(tasks.deep_view() =~~= tasks0.push(t@));
                        }
                    },
                }
            }
            i = i + 1;
        }
        proof {
            assert(rows.deep_view().take(n as int) =~~= rows.deep_view());
        }
        let mut tracker = crate::tasks::TimeTracker { tasks, high_water: 0 };
        let hw = tracker.max_task_id();
        tracker.high_water = hw;
        Ok(tracker)
    }
}

} // verus!
