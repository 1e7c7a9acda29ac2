use vstd::prelude::*;
use crate::table::{is_grid, Table};
use crate::text::{chars_of, joined, push_all, push_text, string_from_chars};

verus! {

/// What the `csv` writer makes of one record, its line ending included.
pub uninterp spec fn csv_line(fields: Seq<Seq<char>>) -> Seq<char>;

/// Relies on `csv::Writer` with its default settings: it writes one record,
/// quoting a field that holds the delimiter, a quote or a line break; the
/// bytes depend on the fields alone.
#[verifier::external_body]
fn csv_record(fields: &Vec<String>) -> (r: String)
    ensures
        r@ == csv_line(fields.deep_view()),
{
    let mut wtr = csv::Writer::from_writer(Vec::new());
    wtr.write_record(fields.iter()).unwrap();
    String::from_utf8(wtr.into_inner().unwrap()).unwrap()
}

/// What `serde_json` writes for the string `s`: quoted, with escapes.
pub uninterp spec fn json_string(s: Seq<char>) -> Seq<char>;

/// Relies on `serde_json::to_string` on a `&str`: a JSON string literal,
/// which depends on the characters alone.
#[verifier::external_body]
fn quote_json(s: &String) -> (r: String)
    ensures
        r@ == json_string(s@),
{
    serde_json::to_string(s.as_str()).unwrap()
}

/// One record per row, in order.
pub open spec fn csv_text(rows: Seq<Seq<Seq<char>>>) -> Seq<char>
    decreases rows.len(),
{
    if rows.len() == 0 {
        Seq::empty()
    } else {
        csv_text(rows.drop_last()) + csv_line(rows.last())
    }
}

/// The structured record of a data row: each header paired with the row's
/// cell below it, in header order.
pub open spec fn record_of(headers: Seq<Seq<char>>, row: Seq<Seq<char>>) -> Seq<(Seq<char>, Seq<char>)> {
    Seq::new(headers.len(), |i: int| (headers[i], row[i]))
}

/// The structured records of table rows `v`, one per data row.
pub open spec fn records(v: Seq<Seq<Seq<char>>>) -> Seq<Seq<(Seq<char>, Seq<char>)>> {
    v.drop_first().map_values(|row: Seq<Seq<char>>| record_of(v[0], row))
}

/// One entry of a record, indented within its object.
pub open spec fn json_entry(e: (Seq<char>, Seq<char>)) -> Seq<char> {
    "    "@ + json_string(e.0) + ": "@ + json_string(e.1)
}

/// A record as a pretty-printed object.
pub open spec fn json_object(rec: Seq<(Seq<char>, Seq<char>)>) -> Seq<char> {
    if rec.len() == 0 {
        "{}"@
    } else {
        "{\n"@ + joined(rec.map_values(|e: (Seq<char>, Seq<char>)| json_entry(e)), ",\n"@)
            + "\n  }"@
    }
}

/// The records as a pretty-printed array of objects.
pub open spec fn json_doc(recs: Seq<Seq<(Seq<char>, Seq<char>)>>) -> Seq<char> {
    if recs.len() == 0 {
        "[]"@
    } else {
        "[\n"@ + joined(
            recs.map_values(|rec: Seq<(Seq<char>, Seq<char>)>| "  "@ + json_object(rec)),
            ",\n"@,
        ) + "\n]"@
    }
}

/// There is one structured record per data row, and the keys of each are
/// the headers, in order.
pub proof fn lemma_records_keyed_by_headers(v: Seq<Seq<Seq<char>>>)
    requires
        is_grid(v),
    ensures
        records(v).len() == v.len() - 1,
        forall|i: int|
            0 <= i < records(v).len() ==> (#[trigger] records(v)[i]).map_values(
                |e: (Seq<char>, Seq<char>)| e.0,
            ) == v[0],
{
    assert forall|i: int| 0 <= i < records(v).len() implies (#[trigger] records(v)[i]).map_values(
        |e: (Seq<char>, Seq<char>)| e.0,
    ) == v[0] by {
        assert(records(v)[i].map_values(|e: (Seq<char>, Seq<char>)| e.0) =~= v[0]);
    }
}

/// The quoted string of `s`, as characters.
fn json_chars(s: &String) -> (r: Vec<char>)
    ensures
        r@ == json_string(s@),
{
    chars_of(&quote_json(s))
}

/// A record of `row` under `headers` as a pretty-printed object.
fn object_chars(headers: &Vec<String>, row: &Vec<String>) -> (r: Vec<char>)
    requires
        headers@.len() == row@.len(),
    ensures
        r@ == json_object(record_of(headers.deep_view(), row.deep_view())),
{
    let ghost rec = record_of(headers.deep_view(), row.deep_view());
    let ghost parts = rec.map_values(|e: (Seq<char>, Seq<char>)| json_entry(e));
    let mut out: Vec<char> = Vec::new();
    if headers.len() == 0 {
        push_text(&mut out, "{}");
        return out;
    }
    push_text(&mut out, "{\n");
    let ghost start = out@;
    let mut j: usize = 0;
    while j < headers.len()
        invariant
            j <= headers@.len(),
            headers@.len() == row@.len(),
            rec == record_of(headers.deep_view(), row.deep_view()),
            parts == rec.map_values(|e: (Seq<char>, Seq<char>)| json_entry(e)),
            out@ == start + joined(parts.subrange(0, j as int), ",\n"@),
        decreases headers@.len() - j,
    {
        let ghost before = out@;
        if j > 0 {
            push_text(&mut out, ",\n");
        }
        let ghost sep = out@;
        push_text(&mut out, "    ");
        let k = json_chars(&headers[j]);
        push_all(&mut out, &k);
        push_text(&mut out, ": ");
        let v = json_chars(&row[j]);
        push_all(&mut out, &v);
        proof {
            assert(out@ =~= sep + json_entry(rec[j as int]));
            let q = parts.subrange(0, j + 1);
            assert(q.drop_last() =~= parts.subrange(0, j as int));
            if j == 0 {
                assert(joined(parts.subrange(0, j as int), ",\n"@) =~= Seq::<char>::empty());
            }
        }
        j += 1;
        proof {
            assert(out@ =~= start + joined(parts.subrange(0, j as int), ",\n"@));
        }
    }
    push_text(&mut out, "\n  }");
    proof {
        assert(parts.subrange(0, headers@.len() as int) =~= parts);
    }
    out
}

impl Table {
    /// The table as delimited text: the header row, then each data row, one
    /// record per line.
    pub fn output_csv(&self) -> (r: String)
        ensures
            r@ == csv_text(self@),
    {
        let rows = self.rows();
        let mut out: Vec<char> = Vec::new();
        let mut i: usize = 0;
        while i < rows.len()
            invariant
                i <= rows@.len(),
                out@ == csv_text(rows.deep_view().subrange(0, i as int)),
            decreases rows@.len() - i,
        {
            let line = chars_of(&csv_record(&rows[i]));
            push_all(&mut out, &line);
            proof {
                let q = rows.deep_view().subrange(0, i + 1);
                assert(q.drop_last() =~= rows.deep_view().subrange(0, i as int));
            }
            i += 1;
        }
        proof {
            assert(rows.deep_view().subrange(0, rows@.len() as int) =~= rows.deep_view());
        }
        string_from_chars(&out)
    }

    /// The data rows as a pretty-printed array of objects, each mapping the
    /// headers, in order, to the row's cells.
    pub fn output_json(&self) -> (r: String)
        requires
            self.wf(),
        ensures
            r@ == json_doc(records(self@)),
    {
        proof {
            self.lemma_grid();
        }
        let rows = self.rows();
        let ghost v = self@;
        let ghost recs = records(v);
        let ghost parts = recs.map_values(
            |rec: Seq<(Seq<char>, Seq<char>)>| "  "@ + json_object(rec),
        );
        let mut out: Vec<char> = Vec::new();
        if rows.len() == 1 {
            push_text(&mut out, "[]");
            return string_from_chars(&out);
        }
        push_text(&mut out, "[\n");
        let ghost start = out@;
        let mut i: usize = 1;
        while i < rows.len()
            invariant
                1 <= i <= rows@.len(),
                rows.deep_view() == v,
                is_grid(v),
                recs == records(v),
                parts == recs.map_values(
                    |rec: Seq<(Seq<char>, Seq<char>)>| "  "@ + json_object(rec),
                ),
                out@ == start + joined(parts.subrange(0, i - 1), ",\n"@),
            decreases rows@.len() - i,
        {
            if i > 1 {
                push_text(&mut out, ",\n");
            }
            let ghost sep = out@;
            push_text(&mut out, "  ");
            proof {
                assert(rows@[i as int].deep_view() == v[i as int]);
                assert(v[i as int].len() == v[0].len());
            }
            let obj = object_chars(&rows[0], &rows[i]);
            push_all(&mut out, &obj);
            proof {
                assert(recs[i - 1] == record_of(v[0], v[i as int]));
                assert(out@ =~= sep + parts[i - 1]);
                let q = parts.subrange(0, i as int);
                assert(q.drop_last() =~= parts.subrange(0, i - 1));
                if i == 1 {
                    assert(joined(parts.subrange(0, 0), ",\n"@) =~= Seq::<char>::empty());
                }
            }
            i += 1;
            proof {
                assert(out@ =~= start + joined(parts.subrange(0, i - 1), ",\n"@));
            }
        }
        push_text(&mut out, "\n]");
        proof {
            assert(parts.subrange(0, rows@.len() - 1) =~= parts);
        }
        string_from_chars(&out)
    }
}

} // verus!
