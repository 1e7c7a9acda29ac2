use vstd::prelude::*;
use crate::table::{is_grid, Table};
use crate::text::{chars_of, joined, push_all, push_text, string_from_chars};

verus! {

/// How one character is written in HTML text.
pub open spec fn entity(c: char) -> Seq<char> {
    if c == '&' {
        seq!['&', 'a', 'm', 'p', ';']
    } else if c == '<' {
        seq!['&', 'l', 't', ';']
    } else if c == '>' {
        seq!['&', 'g', 't', ';']
    } else {
        seq![c]
    }
}

/// `s` with `&`, `<` and `>` written as entities.
pub open spec fn html_text(s: Seq<char>) -> Seq<char>
    decreases s.len(),
{
    if s.len() == 0 {
        Seq::empty()
    } else {
        html_text(s.drop_last()) + entity(s.last())
    }
}

/// Relies on `html_escape::encode_text`: it writes `&`, `<` and `>` as
/// `&amp;`, `&lt;` and `&gt;` and keeps every other character.
#[verifier::external_body]
fn escape_text(s: &String) -> (r: String)
    ensures
        r@ == html_text(s@),
{
    html_escape::encode_text(s.as_str()).into_owned()
}

/// The escaped cells, `sep` between each two.
pub open spec fn html_cells(cells: Seq<Seq<char>>, sep: Seq<char>) -> Seq<char> {
    joined(cells.map_values(|c: Seq<char>| html_text(c)), sep)
}

/// One table row element per data row.
pub open spec fn html_rows(rows: Seq<Seq<Seq<char>>>) -> Seq<char>
    decreases rows.len(),
{
    if rows.len() == 0 {
        Seq::empty()
    } else {
        html_rows(rows.drop_last()) + "<tr>\n<td>\n"@ + html_cells(rows.last(), "</td>\n<td>"@)
            + "</td>\n</tr>\n"@
    }
}

/// The caption paragraph, if a caption is given.
pub open spec fn html_caption(name: Option<Seq<char>>) -> Seq<char> {
    match name {
        Some(n) => "<p>"@ + html_text(n) + "</p>\n"@,
        None => Seq::empty(),
    }
}

/// What an optional caption holds.
pub open spec fn caption_of(name: Option<String>) -> Option<Seq<char>> {
    match name {
        Some(n) => Some(n@),
        None => None,
    }
}

/// The markup for table rows `v`: the caption, then a table element with a
/// header row and one row element per data row.
pub open spec fn html_doc(v: Seq<Seq<Seq<char>>>, name: Option<Seq<char>>) -> Seq<char> {
    html_caption(name) + "<table>\n<th>"@ + html_cells(v[0], "</th><th>"@) + "</th>\n"@
        + html_rows(v.drop_first()) + "</table>\n"@
}

/// Escaped text holds no raw `<` or `>`: each stands as an entity.
pub proof fn lemma_escaped_has_no_tags(s: Seq<char>)
    ensures
        forall|i: int|
            0 <= i < html_text(s).len() ==> #[trigger] html_text(s)[i] != '<' && html_text(s)[i]
                != '>',
    decreases s.len(),
{
    if s.len() > 0 {
        lemma_escaped_has_no_tags(s.drop_last());
        let p = html_text(s.drop_last());
        let e = entity(s.last());
        assert(html_text(s) == p + e);
        assert forall|i: int| 0 <= i < html_text(s).len() implies #[trigger] html_text(s)[i] != '<'
            && html_text(s)[i] != '>' by {
            if i >= p.len() {
                assert(html_text(s)[i] == e[i - p.len()]);
            } else {
                assert(html_text(s)[i] == p[i]);
            }
        }
    }
}

/// Appends the escaped cells, `sep` between each two.
fn push_cells(out: &mut Vec<char>, cells: &Vec<String>, sep: &str)
    ensures
        final(out)@ == old(out)@ + html_cells(cells.deep_view(), sep@),
{
    let ghost start = out@;
    let ghost parts = cells.deep_view().map_values(|c: Seq<char>| html_text(c));
    let mut j: usize = 0;
    while j < cells.len()
        invariant
            j <= cells@.len(),
            parts == cells.deep_view().map_values(|c: Seq<char>| html_text(c)),
            out@ == start + joined(parts.subrange(0, j as int), sep@),
        decreases cells@.len() - j,
    {
        if j > 0 {
            push_text(out, sep);
        }
        let e = chars_of(&escape_text(&cells[j]));
        push_all(out, &e);
        proof {
            let q = parts.subrange(0, j + 1);
            assert(q.drop_last() =~= parts.subrange(0, j as int));
            assert(q.last() == e@);
            if j == 0 {
                assert(joined(parts.subrange(0, j as int), sep@) =~= Seq::<char>::empty());
            }
        }
        j += 1;
        proof {
            assert(out@ =~= start + joined(parts.subrange(0, j as int), sep@));
        }
    }
    proof {
        assert(parts.subrange(0, cells@.len() as int) =~= parts);
    }
}

impl Table {
    /// The table as HTML: an optional caption paragraph, then a table
    /// element with a header row and one row element per data row; all text
    /// escaped.
    pub fn output_table_html(&self, name: Option<String>) -> (r: String)
        requires
            self.wf(),
        ensures
            r@ == html_doc(self@, caption_of(name)),
    {
        proof {
            self.lemma_grid();
        }
        let rows = self.rows();
        let ghost v = self@;
        let ghost caption = caption_of(name);
        let mut out: Vec<char> = Vec::new();
        match &name {
            Some(n) => {
                push_text(&mut out, "<p>");
                let e = chars_of(&escape_text(n));
                push_all(&mut out, &e);
                push_text(&mut out, "</p>\n");
            },
            None => {},
        }
        proof {
            assert(out@ =~= html_caption(caption));
        }
        push_text(&mut out, "<table>\n<th>");
        push_cells(&mut out, &rows[0], "</th><th>");
        push_text(&mut out, "</th>\n");
        let ghost top = out@;
        let ghost data = v.drop_first();
        let mut i: usize = 1;
        while i < rows.len()
            invariant
                1 <= i <= rows@.len(),
                rows.deep_view() == v,
                data == v.drop_first(),
                out@ == top + html_rows(data.subrange(0, i - 1)),
            decreases rows@.len() - i,
        {
            push_text(&mut out, "<tr>\n<td>\n");
            push_cells(&mut out, &rows[i], "</td>\n<td>");
            push_text(&mut out, "</td>\n</tr>\n");
            proof {
                assert(data.subrange(0, i as int).drop_last() =~= data.subrange(0, i - 1));
                assert(data.subrange(0, i as int).last() == rows@[i as int].deep_view());
                assert(out@ =~= top + html_rows(data.subrange(0, i as int)));
            }
            i += 1;
        }
        proof {
            assert(data.subrange(0, rows@.len() - 1) =~= data);
        }
        push_text(&mut out, "</table>\n");
        proof {
            assert(out@ =~= html_doc(v, caption));
        }
        string_from_chars(&out)
    }
}

} // verus!
