//! The report writer: serializes the ordered mapping rows to CSV text with
//! the fixed header, one row per mapped device, an absent product URL
//! rendered as an empty field, and fields quoted and escaped per standard
//! CSV rules (a field is quoted exactly when it contains a delimiter, a
//! quote or a line break; inner quotes are doubled).

use crate::device::MappedDevice;
use crate::text::{chars_vec, push_char};
use vstd::prelude::*;

verus! {

/// A character that forces a CSV field into quotes.
pub open spec fn special_char(c: char) -> bool {
    c == ',' || c == '"' || c == '\n' || c == '\r'
}

/// Whether the field must be quoted.
pub open spec fn needs_quoting(f: Seq<char>) -> bool {
    exists|i: int| 0 <= i < f.len() && special_char(#[trigger] f[i])
}

/// The field's characters with every quote doubled.
pub open spec fn escape_quotes(f: Seq<char>) -> Seq<char>
    decreases f.len(),
{
    if f.len() == 0 {
        Seq::empty()
    } else {
        escape_quotes(f.drop_last()) + (if f.last() == '"' {
            seq!['"', '"']
        } else {
            seq![f.last()]
        })
    }
}

/// One encoded CSV field: quoted and escaped when needed, bare otherwise.
pub open spec fn csv_field(f: Seq<char>) -> Seq<char> {
    if needs_quoting(f) {
        seq!['"'] + escape_quotes(f) + seq!['"']
    } else {
        f
    }
}

/// One encoded CSV record of two fields, terminated by a line feed.
pub open spec fn csv_row(a: Seq<char>, b: Seq<char>) -> Seq<char> {
    csv_field(a) + seq![','] + csv_field(b) + seq!['\n']
}

/// The encoded data rows, in order.
pub open spec fn csv_body(rows: Seq<(Seq<char>, Seq<char>)>) -> Seq<char>
    decreases rows.len(),
{
    if rows.len() == 0 {
        Seq::empty()
    } else {
        csv_body(rows.drop_last()) + csv_row(rows.last().0, rows.last().1)
    }
}

/// The fixed header row naming the two fields.
pub open spec fn csv_header() -> Seq<char> {
    "developer_url,solar_url\n"@
}

/// The whole report: the header followed by one row per mapping.
pub open spec fn csv_text(rows: Seq<(Seq<char>, Seq<char>)>) -> Seq<char> {
    csv_header() + csv_body(rows)
}

/// The two field values a mapped device contributes: its documentation URL,
/// and its product URL or the empty string when it has none.
pub open spec fn row_model(r: MappedDevice) -> (Seq<char>, Seq<char>) {
    (
        r.developer_url@,
        match r.solar_url {
            Some(u) => u@,
            None => Seq::empty(),
        },
    )
}

/// The field values of all mapped devices, in order.
pub open spec fn rows_model(rs: Seq<MappedDevice>) -> Seq<(Seq<char>, Seq<char>)>
    decreases rs.len(),
{
    if rs.len() == 0 {
        Seq::empty()
    } else {
        rows_model(rs.drop_last()).push(row_model(rs.last()))
    }
}

pub proof fn lemma_rows_model_index(rs: Seq<MappedDevice>)
    ensures
        rows_model(rs).len() == rs.len(),
        forall|i: int| 0 <= i < rs.len() ==> rows_model(rs)[i] == row_model(#[trigger] rs[i]),
    decreases rs.len(),
{
    if rs.len() > 0 {
        lemma_rows_model_index(rs.drop_last());
        assert forall|i: int| 0 <= i < rs.len() implies rows_model(rs)[i] == row_model(
            #[trigger] rs[i],
        ) by {
            if i < rs.len() - 1 {
                assert(rows_model(rs)[i] == rows_model(rs.drop_last())[i]);
                assert(rs.drop_last()[i] == rs[i]);
            } else {
                assert(rows_model(rs)[i] == row_model(rs.last()));
            }
        }
    }
}

/// Whether the field's characters contain one that forces quoting.
fn needs_quoting_exec(cs: &Vec<char>) -> (r: bool)
    ensures
        r == needs_quoting(cs@),
{
    let mut i: usize = 0;
    while i < cs.len()
        invariant
            i <= cs@.len(),
            forall|j: int| 0 <= j < i ==> !special_char(#[trigger] cs@[j]),
        decreases cs@.len() - i,
    {
        let c = cs[i];
        if c == ',' || c == '"' || c == '\n' || c == '\r' {
            proof {
                assert(special_char(cs@[i as int]));
            }
            return true;
        }
        i = i + 1;
    }
    proof {
        assert(!needs_quoting(cs@)) by {
            if needs_quoting(cs@) {
                let j = choose|j: int| 0 <= j < cs@.len() && special_char(#[trigger] cs@[j]);
                assert(!special_char(cs@[j]));
            }
        }
    }
    false
}

/// Appends one encoded CSV field to the output.
fn append_field(out: &mut String, f: &String)
    ensures
        final(out)@ == old(out)@ + csv_field(f@),
{
    let cs = chars_vec(f.as_str());
    if needs_quoting_exec(&cs) {
        push_char(out, '"');
        let ghost base = out@;
        let mut i: usize = 0;
        while i < cs.len()
            invariant
                i <= cs@.len(),
                cs@ == f@,
                out@ == base + escape_quotes(f@.take(i as int)),
            decreases cs@.len() - i,
        {
            let c = cs[i];
            if c == '"' {
                push_char(out, '"');
                push_char(out, '"');
            } else {
                push_char(out, c);
            }
            proof {
                assert(f@.take(i + 1).drop_last() =~= f@.take(i as int));
                assert(f@.take(i + 1).last() == f@[i as int]);
                if f@[i as int] == '"' {
                    assert(base + escape_quotes(f@.take(i + 1)) =~= (base + escape_quotes(
                        f@.take(i as int),
                    )).push('"').push('"'));
                } else {
                    assert(base + escape_quotes(f@.take(i + 1)) =~= (base + escape_quotes(
                        f@.take(i as int),
                    )).push(f@[i as int]));
                }
            }
            i = i + 1;
        }
        push_char(out, '"');
        proof {
            assert(f@.take(f@.len() as int) =~= f@);
            assert(out@ =~= old(out)@ + csv_field(f@));
        }
    } else {
        out.append(f.as_str());
    }
}

/// Serializes the mapping to CSV text: the `developer_url,solar_url` header
/// and one record per mapped device, in order, with an absent product URL
/// rendered as an empty field.
pub fn render_csv(rows: &Vec<MappedDevice>) -> (r: String)
    ensures
        r@ == csv_text(rows_model(rows@)),
{
    let ghost m = rows_model(rows@);
    proof {
        lemma_rows_model_index(rows@);
    }
    let mut out = String::new();
    out.append("developer_url,solar_url\n");
    let mut i: usize = 0;
    while i < rows.len()
        invariant
            i <= rows@.len(),
            m == rows_model(rows@),
            m.len() == rows@.len(),
            forall|j: int| 0 <= j < rows@.len() ==> m[j] == row_model(#[trigger] rows@[j]),
            out@ == csv_header() + csv_body(m.take(i as int)),
        decreases rows@.len() - i,
    {
        let ghost before = out@;
        append_field(&mut out, &rows[i].developer_url);
        out.append(",");
        if rows[i].solar_url.is_some() {
            append_field(&mut out, rows[i].solar_url.as_ref().unwrap());
        } else {
            proof {
                let ghost e = Seq::<char>::empty();
                assert(!needs_quoting(e));
                assert(csv_field(e) =~= e);
                assert(out@ + csv_field(e) =~= out@);
            }
        }
        out.append("\n");
        proof {
            reveal_strlit(",");
            reveal_strlit("\n");
            assert(","@ =~= seq![',']);
            assert("\n"@ =~= seq!['\n']);
            assert(m.take(i + 1).drop_last() =~= m.take(i as int));
            assert(m.take(i + 1).last() == m[i as int]);
            assert(m[i as int] == row_model(rows@[i as int]));
            assert(out@ =~= before + csv_row(m[i as int].0, m[i as int].1));
            assert(out@ =~= csv_header() + csv_body(m.take(i + 1)));
        }
        i = i + 1;
    }
    proof {
        assert(m.take(m.len() as int) =~= m);
    }
    out
}

/// Reads one unquoted field: everything up to the first delimiter or line
/// feed. Never fails.
pub open spec fn parse_unquoted(s: Seq<char>) -> (Seq<char>, Seq<char>)
    decreases s.len(),
{
    if s.len() == 0 {
        (Seq::empty(), s)
    } else if s.first() == ',' || s.first() == '\n' {
        (Seq::empty(), s)
    } else {
        let fr = parse_unquoted(s.drop_first());
        (seq![s.first()] + fr.0, fr.1)
    }
}

/// Reads the remainder of a quoted field, after its opening quote: a
/// doubled quote stands for one literal quote, a lone quote closes the
/// field, and a field left open is malformed.
pub open spec fn parse_quoted(s: Seq<char>) -> Option<(Seq<char>, Seq<char>)>
    decreases s.len(),
{
    if s.len() == 0 {
        None
    } else if s.first() == '"' {
        if s.len() >= 2 && s[1] == '"' {
            match parse_quoted(s.skip(2)) {
                Some(fr) => Some((seq!['"'] + fr.0, fr.1)),
                None => None,
            }
        } else {
            Some((Seq::empty(), s.drop_first()))
        }
    } else {
        match parse_quoted(s.drop_first()) {
            Some(fr) => Some((seq![s.first()] + fr.0, fr.1)),
            None => None,
        }
    }
}

/// Reads one field, quoted or bare.
pub open spec fn parse_field(s: Seq<char>) -> Option<(Seq<char>, Seq<char>)> {
    if s.len() > 0 && s.first() == '"' {
        parse_quoted(s.drop_first())
    } else {
        Some(parse_unquoted(s))
    }
}

/// Reads one two-field record terminated by a line feed.
pub open spec fn parse_row(s: Seq<char>) -> Option<(Seq<char>, Seq<char>, Seq<char>)> {
    match parse_field(s) {
        Some(f1) => if f1.1.len() > 0 && f1.1.first() == ',' {
            match parse_field(f1.1.drop_first()) {
                Some(f2) => if f2.1.len() > 0 && f2.1.first() == '\n' {
                    Some((f1.0, f2.0, f2.1.drop_first()))
                } else {
                    None
                },
                None => None,
            }
        } else {
            None
        },
        None => None,
    }
}

/// Reads records until the text is exhausted.
pub open spec fn parse_rows(s: Seq<char>) -> Option<Seq<(Seq<char>, Seq<char>)>>
    decreases s.len(),
{
    if s.len() == 0 {
        Some(Seq::empty())
    } else {
        match parse_row(s) {
            Some(t) => if t.2.len() < s.len() {
                match parse_rows(t.2) {
                    Some(rs) => Some(seq![(t.0, t.1)] + rs),
                    None => None,
                }
            } else {
                None
            },
            None => None,
        }
    }
}

/// Reads a whole report back: the fixed header line, then the data rows.
pub open spec fn parse_csv_text(s: Seq<char>) -> Option<Seq<(Seq<char>, Seq<char>)>> {
    if s.len() >= csv_header().len() && s.take(csv_header().len() as int) == csv_header() {
        parse_rows(s.skip(csv_header().len() as int))
    } else {
        None
    }
}

/// Escaping works one character at a time from the front as well.
proof fn lemma_escape_first(f: Seq<char>)
    requires
        f.len() > 0,
    ensures
        escape_quotes(f) == (if f.first() == '"' {
            seq!['"', '"']
        } else {
            seq![f.first()]
        }) + escape_quotes(f.drop_first()),
    decreases f.len(),
{
    let hp = if f.first() == '"' {
        seq!['"', '"']
    } else {
        seq![f.first()]
    };
    if f.len() == 1 {
        assert(f.drop_last() =~= Seq::<char>::empty());
        assert(f.drop_first() =~= Seq::<char>::empty());
        assert(f.first() == f.last());
        assert(escape_quotes(f) =~= hp + escape_quotes(f.drop_first()));
    } else {
        lemma_escape_first(f.drop_last());
        assert(f.drop_last().len() > 0);
        assert(f.drop_last().first() == f.first());
        assert(f.drop_last().drop_first() =~= f.drop_first().drop_last());
        assert(f.drop_first().last() == f.last());
        assert(f.drop_first().len() > 0);
        let lp = if f.last() == '"' {
            seq!['"', '"']
        } else {
            seq![f.last()]
        };
        assert(escape_quotes(f) == escape_quotes(f.drop_last()) + lp);
        assert(escape_quotes(f.drop_last()) == hp + escape_quotes(f.drop_first().drop_last()));
        assert(escape_quotes(f.drop_first()) == escape_quotes(f.drop_first().drop_last()) + lp);
        assert(escape_quotes(f) =~= hp + escape_quotes(f.drop_first()));
    }
}

/// Reading a quoted field back undoes the escaping exactly.
proof fn lemma_parse_quoted_render(f: Seq<char>, rest: Seq<char>)
    requires
        rest.len() > 0,
        rest.first() != '"',
    ensures
        parse_quoted(escape_quotes(f) + seq!['"'] + rest) == Some((f, rest)),
    decreases f.len(),
{
    let s = escape_quotes(f) + seq!['"'] + rest;
    if f.len() == 0 {
        assert(s =~= seq!['"'] + rest);
        assert(s.first() == '"');
        assert(s.len() >= 2);
        assert(s[1] == rest.first());
        assert(s[1] != '"');
        assert(s.drop_first() =~= rest);
        assert(parse_quoted(s) == Some((Seq::<char>::empty(), s.drop_first())));
        assert(f =~= Seq::<char>::empty());
    } else {
        lemma_escape_first(f);
        let f2 = f.drop_first();
        if f.first() == '"' {
            assert(s =~= seq!['"', '"'] + (escape_quotes(f2) + seq!['"'] + rest));
            assert(s.first() == '"');
            assert(s.len() >= 2);
            assert(s[1] == '"');
            assert(s.skip(2) =~= escape_quotes(f2) + seq!['"'] + rest);
            lemma_parse_quoted_render(f2, rest);
            assert(parse_quoted(s) == Some((seq!['"'] + f2, rest)));
            assert(seq!['"'] + f2 =~= f);
        } else {
            assert(s =~= seq![f.first()] + (escape_quotes(f2) + seq!['"'] + rest));
            assert(s.first() == f.first());
            assert(s.first() != '"');
            assert(s.len() > 0);
            assert(s.drop_first() =~= escape_quotes(f2) + seq!['"'] + rest);
            lemma_parse_quoted_render(f2, rest);
            assert(parse_quoted(s) == Some((seq![f.first()] + f2, rest)));
            assert(seq![f.first()] + f2 =~= f);
        }
    }
}

/// A field with no special character holds no delimiter or line break, in
/// any position.
proof fn lemma_no_special(f: Seq<char>)
    requires
        !needs_quoting(f),
    ensures
        forall|i: int| 0 <= i < f.len() ==> !special_char(#[trigger] f[i]),
{
    assert forall|i: int| 0 <= i < f.len() implies !special_char(#[trigger] f[i]) by {
        if special_char(f[i]) {
            assert(needs_quoting(f));
        }
    }
}

/// Reading a bare field back stops exactly at the terminator that follows.
proof fn lemma_parse_unquoted_render(f: Seq<char>, rest: Seq<char>)
    requires
        !needs_quoting(f),
        rest.len() > 0,
        rest.first() == ',' || rest.first() == '\n',
    ensures
        parse_unquoted(f + rest) == (f, rest),
    decreases f.len(),
{
    let s = f + rest;
    lemma_no_special(f);
    if f.len() == 0 {
        assert(s =~= rest);
        assert(parse_unquoted(s) == (Seq::<char>::empty(), s));
        assert(f =~= Seq::<char>::empty());
    } else {
        assert(s.first() == f.first());
        assert(!special_char(f.first()));
        assert(s.first() != ',' && s.first() != '\n');
        let f2 = f.drop_first();
        assert forall|i: int| 0 <= i < f2.len() implies !special_char(#[trigger] f2[i]) by {
            assert(f2[i] == f[i + 1]);
        }
        assert(!needs_quoting(f2)) by {
            if needs_quoting(f2) {
                let j = choose|j: int| 0 <= j < f2.len() && special_char(#[trigger] f2[j]);
                assert(!special_char(f2[j]));
            }
        }
        assert(s.drop_first() =~= f2 + rest);
        lemma_parse_unquoted_render(f2, rest);
        assert(parse_unquoted(s) == (seq![f.first()] + f2, rest));
        assert(seq![f.first()] + f2 =~= f);
    }
}

/// Reading one encoded field back yields the original value and leaves the
/// terminator in place.
proof fn lemma_parse_field_render(f: Seq<char>, rest: Seq<char>)
    requires
        rest.len() > 0,
        rest.first() == ',' || rest.first() == '\n',
    ensures
        parse_field(csv_field(f) + rest) == Some((f, rest)),
{
    let s = csv_field(f) + rest;
    if needs_quoting(f) {
        assert(s =~= (seq!['"'] + escape_quotes(f) + seq!['"']) + rest);
        assert(s.first() == '"');
        assert(s.len() > 0);
        assert(s.drop_first() =~= escape_quotes(f) + seq!['"'] + rest);
        assert(rest.first() != '"');
        lemma_parse_quoted_render(f, rest);
    } else {
        assert(s =~= f + rest);
        lemma_no_special(f);
        if f.len() > 0 {
            assert(s.first() == f.first());
            assert(!special_char(f.first()));
            assert(s.first() != '"');
        } else {
            assert(s.first() == rest.first());
            assert(s.first() != '"');
        }
        lemma_parse_unquoted_render(f, rest);
    }
}

/// Reading one encoded record back yields its two fields and the text that
/// follows it.
proof fn lemma_parse_row_render(a: Seq<char>, b: Seq<char>, rest: Seq<char>)
    ensures
        parse_row(csv_row(a, b) + rest) == Some((a, b, rest)),
{
    let s = csv_row(a, b) + rest;
    let r1 = seq![','] + csv_field(b) + seq!['\n'] + rest;
    let r2 = seq!['\n'] + rest;
    assert(s =~= csv_field(a) + r1);
    assert(r1.first() == ',');
    lemma_parse_field_render(a, r1);
    assert(parse_field(s) == Some((a, r1)));
    assert(r1.drop_first() =~= csv_field(b) + r2);
    assert(r2.first() == '\n');
    lemma_parse_field_render(b, r2);
    assert(r2.drop_first() =~= rest);
}

/// The encoded body decomposes from the front one record at a time.
proof fn lemma_body_first(rows: Seq<(Seq<char>, Seq<char>)>)
    requires
        rows.len() > 0,
    ensures
        csv_body(rows) == csv_row(rows.first().0, rows.first().1) + csv_body(rows.drop_first()),
    decreases rows.len(),
{
    if rows.len() == 1 {
        assert(rows.drop_last() =~= Seq::<(Seq<char>, Seq<char>)>::empty());
        assert(rows.drop_first() =~= Seq::<(Seq<char>, Seq<char>)>::empty());
        assert(rows.first() == rows.last());
        assert(csv_body(rows) =~= csv_row(rows.first().0, rows.first().1) + csv_body(
            rows.drop_first(),
        ));
    } else {
        lemma_body_first(rows.drop_last());
        assert(rows.drop_last().len() > 0);
        assert(rows.drop_last().first() == rows.first());
        assert(rows.drop_last().drop_first() =~= rows.drop_first().drop_last());
        assert(rows.drop_first().last() == rows.last());
        assert(rows.drop_first().len() > 0);
        assert(csv_body(rows) == csv_body(rows.drop_last()) + csv_row(
            rows.last().0,
            rows.last().1,
        ));
        assert(csv_body(rows.drop_first()) == csv_body(rows.drop_first().drop_last()) + csv_row(
            rows.last().0,
            rows.last().1,
        ));
        assert(csv_body(rows) =~= csv_row(rows.first().0, rows.first().1) + csv_body(
            rows.drop_first(),
        ));
    }
}

/// Reading an encoded body back yields every record.
proof fn lemma_parse_rows_render(rows: Seq<(Seq<char>, Seq<char>)>)
    ensures
        parse_rows(csv_body(rows)) == Some(rows),
    decreases rows.len(),
{
    if rows.len() == 0 {
        assert(csv_body(rows).len() == 0);
        assert(parse_rows(csv_body(rows)) == Some(Seq::<(Seq<char>, Seq<char>)>::empty()));
        assert(rows =~= Seq::<(Seq<char>, Seq<char>)>::empty());
    } else {
        let a = rows.first().0;
        let b = rows.first().1;
        let tail = csv_body(rows.drop_first());
        lemma_body_first(rows);
        let s = csv_body(rows);
        assert(s == csv_row(a, b) + tail);
        lemma_parse_row_render(a, b, tail);
        assert(csv_row(a, b).len() >= 2);
        assert(s.len() >= 2 + tail.len());
        assert(s.len() > 0);
        assert(parse_row(s) == Some((a, b, tail)));
        assert(tail.len() < s.len());
        lemma_parse_rows_render(rows.drop_first());
        assert(parse_rows(s) == Some(seq![(a, b)] + rows.drop_first()));
        assert((a, b) == rows.first());
        assert(seq![(a, b)] + rows.drop_first() =~= rows);
    }
}

/// Round trip: reading back a rendered report yields exactly the field
/// values that were written, one data row per mapping, in order, with an
/// absent product URL read back as the empty string.
pub proof fn lemma_csv_round_trip(rows: Seq<(Seq<char>, Seq<char>)>)
    ensures
        parse_csv_text(csv_text(rows)) == Some(rows),
{
    let s = csv_text(rows);
    let h = csv_header();
    assert(s.len() >= h.len());
    assert(s.take(h.len() as int) =~= h);
    assert(s.skip(h.len() as int) =~= csv_body(rows));
    lemma_parse_rows_render(rows);
}

/// Round trip at the record level: a report rendered from mapped devices
/// reads back as one data row per device, fields matching.
pub proof fn lemma_report_round_trip(rs: Seq<MappedDevice>)
    ensures
        parse_csv_text(csv_text(rows_model(rs))) == Some(rows_model(rs)),
        rows_model(rs).len() == rs.len(),
{
    lemma_csv_round_trip(rows_model(rs));
    lemma_rows_model_index(rs);
}

} // verus!
