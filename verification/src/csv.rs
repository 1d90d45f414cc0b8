//! The flat-file representation: comma-separated fields, one record per
//! line, a field quoted when it holds a comma, a quote or a line break, and
//! quotes doubled inside a quoted field. Parsing is a character-by-character
//! state machine; encoding then parsing gives the records back.

use vstd::prelude::*;

verus! {

/// The parser's mode between two characters.
#[derive(Clone, Copy, PartialEq, Eq, Structural, Debug)]
pub enum PMode {
    /// At the start of a field.
    FieldStart,
    /// Inside an unquoted field.
    Unquoted,
    /// Inside a quoted field.
    Quoted,
    /// Just after a quote inside a quoted field.
    QuoteSeen,
    /// The text is not well-formed.
    Failed,
}

/// The parser's full state: finished records, the open record, the open
/// field, and the mode.
pub ghost struct PState {
    pub recs: Seq<Seq<Seq<char>>>,
    pub rec: Seq<Seq<char>>,
    pub field: Seq<char>,
    pub mode: PMode,
}

pub open spec fn csv_init() -> PState {
    PState { recs: Seq::empty(), rec: Seq::empty(), field: Seq::empty(), mode: PMode::FieldStart }
}

/// One parsing step. A lone newline at the start of a record is a fully
/// empty row and produces nothing; text after a closing quote that is not a
/// separator fails the parse.
pub open spec fn csv_step(st: PState, c: char) -> PState {
    match st.mode {
        PMode::Failed => st,
        PMode::FieldStart => {
            if c == ',' {
                PState { rec: st.rec.push(st.field), field: Seq::empty(), ..st }
            } else if c == '\n' {
                if st.rec.len() == 0 {
                    st
                } else {
                    PState {
                        recs: st.recs.push(st.rec.push(st.field)),
                        rec: Seq::empty(),
                        field: Seq::empty(),
                        mode: PMode::FieldStart,
                    }
                }
            } else if c == '"' {
                PState { mode: PMode::Quoted, ..st }
            } else {
                PState { field: st.field.push(c), mode: PMode::Unquoted, ..st }
            }
        },
        PMode::Unquoted => {
            if c == ',' {
                PState { rec: st.rec.push(st.field), field: Seq::empty(), mode: PMode::FieldStart, ..st }
            } else if c == '\n' {
                PState {
                    recs: st.recs.push(st.rec.push(st.field)),
                    rec: Seq::empty(),
                    field: Seq::empty(),
                    mode: PMode::FieldStart,
                }
            } else {
                PState { field: st.field.push(c), ..st }
            }
        },
        PMode::Quoted => {
            if c == '"' {
                PState { mode: PMode::QuoteSeen, ..st }
            } else {
                PState { field: st.field.push(c), ..st }
            }
        },
        PMode::QuoteSeen => {
            if c == '"' {
                PState { field: st.field.push('"'), mode: PMode::Quoted, ..st }
            } else if c == ',' {
                PState { rec: st.rec.push(st.field), field: Seq::empty(), mode: PMode::FieldStart, ..st }
            } else if c == '\n' {
                PState {
                    recs: st.recs.push(st.rec.push(st.field)),
                    rec: Seq::empty(),
                    field: Seq::empty(),
                    mode: PMode::FieldStart,
                }
            } else {
                PState { mode: PMode::Failed, ..st }
            }
        },
    }
}

pub open spec fn csv_run(st: PState, s: Seq<char>) -> PState
    decreases s.len(),
{
    if s.len() == 0 {
        st
    } else {
        csv_run(csv_step(st, s[0]), s.skip(1))
    }
}

/// End of input: an unterminated quoted field fails; a pending record (text
/// without a final newline) is kept.
pub open spec fn csv_finish(st: PState) -> Option<Seq<Seq<Seq<char>>>> {
    match st.mode {
        PMode::Failed => None,
        PMode::Quoted => None,
        PMode::Unquoted => Some(st.recs.push(st.rec.push(st.field))),
        PMode::QuoteSeen => Some(st.recs.push(st.rec.push(st.field))),
        PMode::FieldStart => if st.rec.len() == 0 {
            Some(st.recs)
        } else {
            Some(st.recs.push(st.rec.push(st.field)))
        },
    }
}

/// The records of a text, `None` when it is not well-formed.
pub open spec fn parse_csv(s: Seq<char>) -> Option<Seq<Seq<Seq<char>>>> {
    csv_finish(csv_run(csv_init(), s))
}

/// A field that must be quoted to survive the trip.
pub open spec fn needs_quote(f: Seq<char>) -> bool {
    f.contains(',') || f.contains('"') || f.contains('\n')
}

/// Quotes doubled.
pub open spec fn esc_quotes(f: Seq<char>) -> Seq<char>
    decreases f.len(),
{
    if f.len() == 0 {
        Seq::empty()
    } else {
        (if f[0] == '"' {
            seq!['"', '"']
        } else {
            seq![f[0]]
        }) + esc_quotes(f.skip(1))
    }
}

pub open spec fn enc_field(f: Seq<char>) -> Seq<char> {
    if needs_quote(f) {
        seq!['"'] + esc_quotes(f) + seq!['"']
    } else {
        f
    }
}

pub open spec fn enc_record(fs: Seq<Seq<char>>) -> Seq<char>
    decreases fs.len(),
{
    if fs.len() == 0 {
        Seq::empty()
    } else if fs.len() == 1 {
        enc_field(fs[0])
    } else {
        enc_field(fs[0]) + seq![','] + enc_record(fs.skip(1))
    }
}

/// Each record on its own line, every line newline-terminated.
pub open spec fn enc_csv(rs: Seq<Seq<Seq<char>>>) -> Seq<char>
    decreases rs.len(),
{
    if rs.len() == 0 {
        Seq::empty()
    } else {
        enc_record(rs[0]) + seq!['\n'] + enc_csv(rs.skip(1))
    }
}

/// Running the parser over concatenated text is running it in two goes.
pub proof fn lemma_run_concat(st: PState, a: Seq<char>, b: Seq<char>)
    ensures
        csv_run(st, a + b) == csv_run(csv_run(st, a), b),
    decreases a.len(),
{
    if a.len() == 0 {
        assert(a + b =~= b);
    } else {
        assert((a + b)[0] == a[0]);
        assert((a + b).skip(1) =~= a.skip(1) + b);
        lemma_run_concat(csv_step(st, a[0]), a.skip(1), b);
    }
}

/// Running the parser over a single character is one step.
proof fn lemma_run_one(st: PState, c: char)
    ensures
        csv_run(st, seq![c]) == csv_step(st, c),
{
    assert(seq![c].skip(1) =~= Seq::<char>::empty());
    assert(csv_run(csv_step(st, c), Seq::<char>::empty()) == csv_step(st, c));
}

/// Consuming an escaped field body inside quotes appends it to the open
/// field and stays inside quotes.
proof fn lemma_run_esc(st: PState, f: Seq<char>)
    requires
        st.mode == PMode::Quoted,
    ensures
        ({
            let r = csv_run(st, esc_quotes(f));
            &&& r.mode == PMode::Quoted
            &&& r.field == st.field + f
            &&& r.recs == st.recs
            &&& r.rec == st.rec
        }),
    decreases f.len(),
{
    if f.len() == 0 {
        assert(st.field + f =~= st.field);
    } else if f[0] == '"' {
        let st1 = csv_step(st, '"');
        let st2 = csv_step(st1, '"');
        assert(esc_quotes(f) =~= seq!['"', '"'] + esc_quotes(f.skip(1)));
        lemma_run_concat(st, seq!['"', '"'], esc_quotes(f.skip(1)));
        assert(seq!['"', '"'] =~= seq!['"'] + seq!['"']);
        lemma_run_concat(st, seq!['"'], seq!['"']);
        lemma_run_one(st, '"');
        lemma_run_one(st1, '"');
        assert(csv_run(st, seq!['"', '"']) == st2);
        lemma_run_esc(st2, f.skip(1));
        assert(st.field.push('"') + f.skip(1) =~= st.field + f);
    } else {
        let st1 = csv_step(st, f[0]);
        assert(esc_quotes(f) =~= seq![f[0]] + esc_quotes(f.skip(1)));
        lemma_run_concat(st, seq![f[0]], esc_quotes(f.skip(1)));
        lemma_run_one(st, f[0]);
        lemma_run_esc(st1, f.skip(1));
        assert(st.field.push(f[0]) + f.skip(1) =~= st.field + f);
    }
}

/// Consuming an encoded field at the start of a field loads exactly that
/// field, never ends a record, and never fails.
proof fn lemma_run_enc_field(st: PState, f: Seq<char>)
    requires
        st.mode == PMode::FieldStart,
        st.field == Seq::<char>::empty(),
    ensures
        ({
            let r = csv_run(st, enc_field(f));
            &&& r.recs == st.recs
            &&& r.rec == st.rec
            &&& r.field == f
            &&& (r.mode == PMode::Unquoted || r.mode == PMode::QuoteSeen || (r.mode
                == PMode::FieldStart && f.len() == 0))
        }),
    decreases f.len(),
{
    if needs_quote(f) {
        let st1 = csv_step(st, '"');
        assert(enc_field(f) =~= seq!['"'] + (esc_quotes(f) + seq!['"']));
        lemma_run_concat(st, seq!['"'], esc_quotes(f) + seq!['"']);
        lemma_run_one(st, '"');
        lemma_run_concat(st1, esc_quotes(f), seq!['"']);
        lemma_run_esc(st1, f);
        let st2 = csv_run(st1, esc_quotes(f));
        assert(st2.field =~= f);
        lemma_run_one(st2, '"');
    } else {
        // the field is plain text: each character is taken literally
        lemma_run_plain(st, f);
    }
}

/// Consuming plain text (no separator, quote or newline) at the start of a
/// field accumulates it literally.
proof fn lemma_run_plain(st: PState, f: Seq<char>)
    requires
        st.mode == PMode::FieldStart || st.mode == PMode::Unquoted,
        !f.contains(','),
        !f.contains('"'),
        !f.contains('\n'),
    ensures
        ({
            let r = csv_run(st, f);
            &&& r.recs == st.recs
            &&& r.rec == st.rec
            &&& r.field == st.field + f
            &&& (r.mode == if f.len() == 0 {
                st.mode
            } else {
                PMode::Unquoted
            })
        }),
    decreases f.len(),
{
    if f.len() == 0 {
        assert(st.field + f =~= st.field);
    } else {
        assert(f[0] != ',' && f[0] != '"' && f[0] != '\n') by {
            if f[0] == ',' {
                assert(f.contains(','));
            }
            if f[0] == '"' {
                assert(f.contains('"'));
            }
            if f[0] == '\n' {
                assert(f.contains('\n'));
            }
        }
        let st1 = csv_step(st, f[0]);
        assert(!f.skip(1).contains(',') && !f.skip(1).contains('"') && !f.skip(1).contains('\n'))
            by {
            if f.skip(1).contains(',') {
                let w = choose|i: int| 0 <= i < f.skip(1).len() && f.skip(1)[i] == ',';
                assert(f[w + 1] == ',');
            }
            if f.skip(1).contains('"') {
                let w = choose|i: int| 0 <= i < f.skip(1).len() && f.skip(1)[i] == '"';
                assert(f[w + 1] == '"');
            }
            if f.skip(1).contains('\n') {
                let w = choose|i: int| 0 <= i < f.skip(1).len() && f.skip(1)[i] == '\n';
                assert(f[w + 1] == '\n');
            }
        }
        lemma_run_plain(st1, f.skip(1));
        assert(csv_run(st, f) == csv_run(st1, f.skip(1)));
        assert(st.field.push(f[0]) + f.skip(1) =~= st.field + f);
    }
}

/// Consuming an encoded record plus its newline finishes exactly that
/// record (the open record's fields followed by the encoded ones).
proof fn lemma_run_enc_record(st: PState, fs: Seq<Seq<char>>)
    requires
        st.mode == PMode::FieldStart,
        st.field == Seq::<char>::empty(),
        fs.len() >= 1,
        st.rec.len() + fs.len() >= 2,
    ensures
        ({
            let r = csv_run(st, enc_record(fs) + seq!['\n']);
            &&& r.recs == st.recs.push(st.rec + fs)
            &&& r.rec == Seq::<Seq<char>>::empty()
            &&& r.field == Seq::<char>::empty()
            &&& r.mode == PMode::FieldStart
        }),
    decreases fs.len(),
{
    if fs.len() == 1 {
        lemma_run_concat(st, enc_record(fs), seq!['\n']);
        lemma_run_enc_field(st, fs[0]);
        let st1 = csv_run(st, enc_field(fs[0]));
        lemma_run_one(st1, '\n');
        assert(st.rec.push(fs[0]) =~= st.rec + fs);
    } else {
        assert(enc_record(fs) + seq!['\n'] =~= enc_field(fs[0]) + (seq![','] + (enc_record(
            fs.skip(1),
        ) + seq!['\n'])));
        lemma_run_concat(st, enc_field(fs[0]), seq![','] + (enc_record(fs.skip(1)) + seq!['\n']));
        lemma_run_enc_field(st, fs[0]);
        let st1 = csv_run(st, enc_field(fs[0]));
        lemma_run_concat(st1, seq![','], enc_record(fs.skip(1)) + seq!['\n']);
        let st2 = csv_step(st1, ',');
        lemma_run_one(st1, ',');
        lemma_run_enc_record(st2, fs.skip(1));
        assert(st2.rec + fs.skip(1) =~= st.rec + fs);
    }
}

/// Consuming an encoded sequence of records appends exactly those records.
proof fn lemma_run_enc_csv(st: PState, rs: Seq<Seq<Seq<char>>>)
    requires
        st.mode == PMode::FieldStart,
        st.field == Seq::<char>::empty(),
        st.rec == Seq::<Seq<char>>::empty(),
        forall|i: int| 0 <= i < rs.len() ==> (#[trigger] rs[i].len()) >= 2,
    ensures
        ({
            let r = csv_run(st, enc_csv(rs));
            &&& r.recs == st.recs + rs
            &&& r.rec == Seq::<Seq<char>>::empty()
            &&& r.field == Seq::<char>::empty()
            &&& r.mode == PMode::FieldStart
        }),
    decreases rs.len(),
{
    if rs.len() == 0 {
        assert(st.recs + rs =~= st.recs);
    } else {
        assert(enc_csv(rs) =~= (enc_record(rs[0]) + seq!['\n']) + enc_csv(rs.skip(1)));
        lemma_run_concat(st, enc_record(rs[0]) + seq!['\n'], enc_csv(rs.skip(1)));
        lemma_run_enc_record(st, rs[0]);
        let st1 = csv_run(st, enc_record(rs[0]) + seq!['\n']);
        assert(st1.recs =~= st.recs.push(rs[0]));
        lemma_run_enc_csv(st1, rs.skip(1));
        assert(st.recs.push(rs[0]) + rs.skip(1) =~= st.recs + rs);
    }
}

/// The round trip: encoding records (each with at least two fields) and
/// parsing the text gives the records back.
pub proof fn lemma_parse_enc_csv(rs: Seq<Seq<Seq<char>>>)
    requires
        forall|i: int| 0 <= i < rs.len() ==> (#[trigger] rs[i].len()) >= 2,
    ensures
        parse_csv(enc_csv(rs)) == Some(rs),
{
    lemma_run_enc_csv(csv_init(), rs);
    assert(Seq::<Seq<Seq<char>>>::empty() + rs =~= rs);
}

/// Whether the field contains the character.
fn vec_has_char(f: &Vec<char>, c: char) -> (r: bool)
    ensures
        r == f@.contains(c),
{
    let n = f.len();
    let mut i: usize = 0;
    while i < n
        invariant
            n == f@.len(),
            i <= n,
            forall|j: int| 0 <= j < i ==> f@[j] != c,
        decreases n - i,
    {
        if f[i] == c {
            return true;
        }
        i = i + 1;
    }
    proof {
        if f@.contains(c) {
            let w = choose|j: int| 0 <= j < f@.len() && f@[j] == c;
            assert(f@[w] == c);
        }
    }
    false
}

/// Escaping one more character appends its escaped form.
proof fn lemma_esc_push(a: Seq<char>, c: char)
    ensures
        esc_quotes(a.push(c)) == esc_quotes(a) + (if c == '"' {
            seq!['"', '"']
        } else {
            seq![c]
        }),
    decreases a.len(),
{
    let tail: Seq<char> = if c == '"' {
        seq!['"', '"']
    } else {
        seq![c]
    };
    if a.len() == 0 {
        assert(a.push(c)[0] == c);
        assert(a.push(c).skip(1) =~= Seq::<char>::empty());
        assert(esc_quotes(Seq::<char>::empty()) =~= Seq::<char>::empty());
        assert(esc_quotes(a) =~= Seq::<char>::empty());
        assert(esc_quotes(a.push(c)) =~= esc_quotes(a) + tail);
    } else {
        assert(a.push(c)[0] == a[0]);
        assert(a.push(c).skip(1) =~= a.skip(1).push(c));
        lemma_esc_push(a.skip(1), c);
        assert(esc_quotes(a.push(c)) =~= esc_quotes(a) + tail);
    }
}

/// Append the quote-doubled body of `f`.
fn push_escaped(f: &Vec<char>, out: &mut Vec<char>)
    ensures
        final(out)@ == old(out)@ + esc_quotes(f@),
{
    let n = f.len();
    let mut i: usize = 0;
    proof {
        assert(out@ =~= old(out)@ + esc_quotes(f@.take(0)));
    }
    while i < n
        invariant
            n == f@.len(),
            i <= n,
            out@ == old(out)@ + esc_quotes(f@.take(i as int)),
        decreases n - i,
    {
        let c = f[i];
        proof {
            assert(f@.take(i as int + 1) =~= f@.take(i as int).push(f@[i as int]));
            lemma_esc_push(f@.take(i as int), c);
        }
        if c == '"' {
            out.push('"');
            out.push('"');
        } else {
            out.push(c);
        }
        proof {
            assert(out@ =~= old(out)@ + esc_quotes(f@.take(i as int + 1)));
        }
        i = i + 1;
    }
    proof {
        assert(f@.take(n as int) =~= f@);
    }
}

/// Append one encoded field.
fn encode_field(f: &Vec<char>, out: &mut Vec<char>)
    ensures
        final(out)@ == old(out)@ + enc_field(f@),
{
    let quote = vec_has_char(f, ',') || vec_has_char(f, '"') || vec_has_char(f, '\n');
    if quote {
        out.push('"');
        push_escaped(f, out);
        out.push('"');
        proof {
            assert(out@ =~= old(out)@ + enc_field(f@));
        }
    } else {
        let n = f.len();
        let mut i: usize = 0;
        proof {
            assert(out@ =~= old(out)@ + f@.take(0));
        }
        while i < n
            invariant
                n == f@.len(),
                i <= n,
                out@ == old(out)@ + f@.take(i as int),
            decreases n - i,
        {
            out.push(f[i]);
            proof {
                assert(f@.take(i as int + 1) =~= f@.take(i as int).push(f@[i as int]));
                assert(out@ =~= old(out)@ + f@.take(i as int + 1));
            }
            i = i + 1;
        }
        proof {
            assert(f@.take(n as int) =~= f@);
        }
    }
}

/// Append one encoded record, starting at field `i`.
fn encode_record_from(fields: &Vec<Vec<char>>, i: usize, out: &mut Vec<char>)
    requires
        i < fields@.len(),
    ensures
        final(out)@ == old(out)@ + enc_record(fields.deep_view().skip(i as int)),
    decreases fields@.len() - i,
{
    encode_field(&fields[i], out);
    proof {
        assert(fields.deep_view()[i as int] =~= fields@[i as int]@);
    }
    let last = fields.len() - 1;
    if i < last {
        out.push(',');
        encode_record_from(fields, i + 1, out);
        proof {
            let fs = fields.deep_view().skip(i as int);
            assert(fs[0] == fields.deep_view()[i as int]);
            assert(fs.skip(1) =~= fields.deep_view().skip(i as int + 1));
            assert(out@ =~= old(out)@ + enc_record(fs));
        }
    } else {
        proof {
            let fs = fields.deep_view().skip(i as int);
            assert(fs.len() == 1);
            assert(fs[0] == fields.deep_view()[i as int]);
            assert(out@ =~= old(out)@ + enc_record(fs));
        }
    }
}

/// Append the encoded records, each on its own newline-ended line, starting
/// at record `i`.
fn encode_csv_from(rows: &Vec<Vec<Vec<char>>>, i: usize, out: &mut Vec<char>)
    requires
        i <= rows@.len(),
        forall|j: int| 0 <= j < rows@.len() ==> (#[trigger] rows.deep_view()[j].len()) >= 1,
    ensures
        final(out)@ == old(out)@ + enc_csv(rows.deep_view().skip(i as int)),
    decreases rows@.len() - i,
{
    if i < rows.len() {
        proof {
            assert(rows.deep_view()[i as int].len() >= 1);
            assert(rows.deep_view()[i as int] =~~= rows@[i as int].deep_view());
        }
        encode_record_from(&rows[i], 0, out);
        proof {
            assert(rows@[i as int].deep_view().skip(0) =~= rows@[i as int].deep_view());
        }
        out.push('\n');
        encode_csv_from(rows, i + 1, out);
        proof {
            let rs = rows.deep_view().skip(i as int);
            assert(rs[0] == rows.deep_view()[i as int]);
            assert(rs.skip(1) =~= rows.deep_view().skip(i as int + 1));
            assert(out@ =~= old(out)@ + enc_csv(rs));
        }
    } else {
        proof {
            assert(rows.deep_view().skip(i as int) =~= Seq::<Seq<Seq<char>>>::empty());
            assert(out@ =~= old(out)@ + enc_csv(rows.deep_view().skip(i as int)));
        }
    }
}

/// The encoded text of the records (each record needs at least one field).
pub fn encode_csv(rows: &Vec<Vec<Vec<char>>>) -> (r: Vec<char>)
    requires
        forall|j: int| 0 <= j < rows@.len() ==> (#[trigger] rows.deep_view()[j].len()) >= 1,
    ensures
        r@ == enc_csv(rows.deep_view()),
{
    let mut out: Vec<char> = Vec::new();
    encode_csv_from(rows, 0, &mut out);
    proof {
        assert(rows.deep_view().skip(0) =~= rows.deep_view());
        assert(Seq::<char>::empty() + enc_csv(rows.deep_view()) =~= enc_csv(rows.deep_view()));
    }
    out
}

/// Parse a text into its records, `None` when it is not well-formed.
pub fn parse_csv_exec(input: &Vec<char>) -> (r: Option<Vec<Vec<Vec<char>>>>)
    ensures
        r matches Some(v) ==> parse_csv(input@) == Some(v.deep_view()),
        r is None ==> parse_csv(input@) is None,
{
    let n = input.len();
    let mut recs: Vec<Vec<Vec<char>>> = Vec::new();
    let mut rec: Vec<Vec<char>> = Vec::new();
    let mut field: Vec<char> = Vec::new();
    let mut mode: PMode = PMode::FieldStart;
    let mut i: usize = 0;
    proof {
        assert(input@.take(0) =~= Seq::<char>::empty());
        assert(recs.deep_view() =~~= Seq::<Seq<Seq<char>>>::empty());
        assert(rec.deep_view() =~~= Seq::<Seq<char>>::empty());
    }
    while i < n
        invariant
            i <= n,
            n == input@.len(),
            ({
                let st = csv_run(csv_init(), input@.take(i as int));
                &&& st.recs == recs.deep_view()
                &&& st.rec == rec.deep_view()
                &&& st.field == field@
                &&& st.mode == mode
            }),
        decreases n - i,
    {
        let ghost st = csv_run(csv_init(), input@.take(i as int));
        let c = input[i];
        proof {
            assert(input@.take(i as int + 1) =~= input@.take(i as int) + seq![c]);
            lemma_run_concat(csv_init(), input@.take(i as int), seq![c]);
            lemma_run_one(st, c);
        }
        match mode {
            PMode::FieldStart => {
                if c == ',' {
                    rec.push(field);
                    field = Vec::new();
                    proof {
                        assert(rec.deep_view() =~~= st.rec.push(st.field));
                    }
                } else if c == '\n' {
                    if rec.len() > 0 {
                        rec.push(field);
                        proof {
                            assert(rec.deep_view() =~~= st.rec.push(st.field));
                        }
                        recs.push(rec);
                        rec = Vec::new();
                        field = Vec::new();
                        proof {
                            assert(recs.deep_view() =~~= st.recs.push(st.rec.push(st.field)));
                            assert(rec.deep_view() =~~= Seq::<Seq<char>>::empty());
                        }
                    }
                } else if c == '"' {
                    mode = PMode::Quoted;
                } else {
                    field.push(c);
                    mode = PMode::Unquoted;
                }
            },
            PMode::Unquoted => {
                if c == ',' {
                    rec.push(field);
                    field = Vec::new();
                    mode = PMode::FieldStart;
                    proof {
                        assert(rec.deep_view() =~~= st.rec.push(st.field));
                    }
                } else if c == '\n' {
                    rec.push(field);
                    proof {
                        assert(rec.deep_view() =~~= st.rec.push(st.field));
                    }
                    recs.push(rec);
                    rec = Vec::new();
                    field = Vec::new();
                    mode = PMode::FieldStart;
                    proof {
                        assert(recs.deep_view() =~~= st.recs.push(st.rec.push(st.field)));
                        assert(rec.deep_view() =~~= Seq::<Seq<char>>::empty());
                    }
                } else {
                    field.push(c);
                }
            },
            PMode::Quoted => {
                if c == '"' {
                    mode = PMode::QuoteSeen;
                } else {
                    field.push(c);
                }
            },
            PMode::QuoteSeen => {
                if c == '"' {
                    field.push('"');
                    mode = PMode::Quoted;
                } else if c == ',' {
                    rec.push(field);
                    field = Vec::new();
                    mode = PMode::FieldStart;
                    proof {
                        assert(rec.deep_view() =~~= st.rec.push(st.field));
                    }
                } else if c == '\n' {
                    rec.push(field);
                    proof {
                        assert(rec.deep_view() =~~= st.rec.push(st.field));
                    }
                    recs.push(rec);
                    rec = Vec::new();
                    field = Vec::new();
                    mode = PMode::FieldStart;
                    proof {
                        assert(recs.deep_view() =~~= st.recs.push(st.rec.push(st.field)));
                        assert(rec.deep_view() =~~= Seq::<Seq<char>>::empty());
                    }
                } else {
                    mode = PMode::Failed;
                }
            },
            PMode::Failed => {},
        }
        i = i + 1;
    }
    proof {
        assert(input@.take(n as int) =~= input@);
    }
    match mode {
        PMode::Failed => None,
        PMode::Quoted => None,
        PMode::Unquoted => {
            let ghost st = csv_run(csv_init(), input@);
            rec.push(field);
            recs.push(rec);
            proof {
                assert(recs.deep_view() =~~= st.recs.push(st.rec.push(st.field)));
            }
            Some(recs)
        },
        PMode::QuoteSeen => {
            let ghost st = csv_run(csv_init(), input@);
            rec.push(field);
            recs.push(rec);
            proof {
                assert(recs.deep_view() =~~= st.recs.push(st.rec.push(st.field)));
            }
            Some(recs)
        },
        PMode::FieldStart => {
            let ghost st = csv_run(csv_init(), input@);
            if rec.len() > 0 {
                rec.push(field);
                recs.push(rec);
                proof {
                    assert(recs.deep_view() =~~= st.recs.push(st.rec.push(st.field)));
                }
            }
            Some(recs)
        },
    }
}

} // verus!
