//! The multi-line description: the source format lets the description string
//! run over several raw lines, which no strict parser takes. It is cut out of
//! the source text before parsing and spliced back into the rendered target.

use crate::text::{
    chars_of, ends_with, has_prefix, has_suffix, is_bare_line, is_space, join, join_lines,
    lemma_join_append, lemma_join_lines, lemma_lines_bare, lemma_lines_join, lemma_trim_end_len,
    lemma_trim_start_append, lemma_trim_start_last, lines, no_cr, push_chars, same_chars,
    split_lines, starts_with, string_of, sub_chars, trim, trim_end, trim_end_matches, trim_start,
    trimmed, trimmed_end, trimmed_end_matches,
};
use vstd::prelude::*;

verus! {

/// The token that opens the description's line.
pub open spec fn desc_token() -> Seq<char> {
    "\"Description\""@
}

/// The token that closes a string value followed by more fields.
pub open spec fn close_token() -> Seq<char> {
    "\","@
}

pub open spec fn opens_description(line: Seq<char>) -> bool {
    starts_with(trim(line), desc_token())
}

/// The description line already closes its string.
pub open spec fn is_single_line(line: Seq<char>) -> bool {
    ends_with(trim_end(line), close_token())
}

/// A line that begins a new quoted key, and so ends the description's span.
pub open spec fn ends_span(line: Seq<char>) -> bool {
    starts_with(trim(line), "\""@) && trim(line) != close_token()
}

/// The first index from `i` on of a line that opens the description, or the
/// number of lines.
pub open spec fn first_open_from(ls: Seq<Seq<char>>, i: int) -> int
    decreases ls.len() - i,
{
    if i >= ls.len() {
        ls.len() as int
    } else if opens_description(ls[i]) {
        i
    } else {
        first_open_from(ls, i + 1)
    }
}

/// The first index from `i` on of a line that ends the span, or the number of
/// lines.
pub open spec fn span_end_from(ls: Seq<Seq<char>>, i: int) -> int
    decreases ls.len() - i,
{
    if i >= ls.len() {
        ls.len() as int
    } else if ends_span(ls[i]) {
        i
    } else {
        span_end_from(ls, i + 1)
    }
}

/// The sanitized text and the blob of `text`: where the description opens on
/// a line `d` without closing there, its string is closed on that line and the
/// lines after it, up to the first that begins a new quoted key, become the
/// blob; any other text is kept as it is, with no blob.
pub open spec fn extraction(text: Seq<char>) -> (Seq<char>, Option<Seq<char>>) {
    let ls = lines(text);
    let d = first_open_from(ls, 0);
    if d >= ls.len() || is_single_line(ls[d]) {
        (text, None)
    } else {
        let e = span_end_from(ls, d + 1);
        (
            join(ls.take(d) + seq![ls[d] + close_token()] + ls.skip(e)),
            Some(join(ls.subrange(d + 1, e))),
        )
    }
}

/// The description line with its synthetic closing token taken off.
pub open spec fn reopened(line: Seq<char>) -> Seq<char> {
    trim_end_matches(trim_end(line), close_token())
}

/// The rendered text with the blob spliced in: the first line that opens the
/// description is reopened and the blob follows it.
pub open spec fn recovery(rendered: Seq<char>, blob: Seq<char>) -> Seq<char> {
    let ls = lines(rendered);
    let d = first_open_from(ls, 0);
    if d >= ls.len() {
        join(ls)
    } else {
        join(ls.take(d) + seq![reopened(ls[d]), blob] + ls.skip(d + 1))
    }
}

/// The view of a list of lines.
pub open spec fn lines_view(ls: Seq<Vec<char>>) -> Seq<Seq<char>> {
    ls.map_values(|l: Vec<char>| l@)
}

fn opens_description_line(line: &Vec<char>) -> (r: bool)
    ensures
        r == opens_description(line@),
{
    let t = trimmed(line);
    let tok = chars_of("\"Description\"");
    has_prefix(&t, &tok)
}

fn ends_span_line(line: &Vec<char>) -> (r: bool)
    ensures
        r == ends_span(line@),
{
    let t = trimmed(line);
    let quote = chars_of("\"");
    let close = chars_of("\",");
    has_prefix(&t, &quote) && !same_chars(&t, &close)
}

fn find_open(ls: &Vec<Vec<char>>) -> (r: usize)
    ensures
        r == first_open_from(lines_view(ls@), 0),
        r <= ls@.len(),
{
    let ghost m = lines_view(ls@);
    let mut i: usize = 0;
    while i < ls.len() && !opens_description_line(&ls[i])
        invariant
            i <= ls@.len(),
            m == lines_view(ls@),
            first_open_from(m, 0) == first_open_from(m, i as int),
        decreases ls@.len() - i,
    {
        i = i + 1;
    }
    i
}

fn copy_lines(ls: &Vec<Vec<char>>, lo: usize, hi: usize, out: &mut Vec<Vec<char>>)
    requires
        lo <= hi <= ls@.len(),
    ensures
        lines_view(final(out)@) == lines_view(old(out)@) + lines_view(ls@).subrange(
            lo as int,
            hi as int,
        ),
{
    let mut i: usize = lo;
    while i < hi
        invariant
            lo <= i <= hi <= ls@.len(),
            lines_view(out@) == lines_view(old(out)@) + lines_view(ls@).subrange(lo as int, i as int),
        decreases hi - i,
    {
        let l = sub_chars(&ls[i], 0, ls[i].len());
        let ghost before = out@;
        out.push(l);
        proof {
            assert(l@ =~= ls@[i as int]@);
            assert(lines_view(out@) =~= lines_view(before).push(lines_view(ls@)[i as int]));
            assert(lines_view(ls@).subrange(lo as int, i + 1) =~= lines_view(ls@).subrange(
                lo as int,
                i as int,
            ).push(lines_view(ls@)[i as int]));
        }
        i = i + 1;
        assert(lines_view(out@) =~= lines_view(old(out)@) + lines_view(ls@).subrange(
            lo as int,
            i as int,
        ));
    }
}

/// Cuts a multi-line description out of the source text: the text that a
/// strict parser takes, and the blob of the description's further lines.
pub fn maybe_extract_multilines(file_str: &str) -> (r: (String, Option<String>))
    ensures
        r.0@ == extraction(file_str@).0,
        match r.1 {
            Some(b) => extraction(file_str@).1 == Some(b@),
            None => extraction(file_str@).1 is None,
        },
{
    let text = chars_of(file_str);
    let ls = split_lines(&text);
    let ghost m = lines_view(ls@);
    let d = find_open(&ls);
    if d == ls.len() {
        return (file_str.to_string(), None);
    }
    let close = chars_of("\",");
    let desc_end = trimmed_end(&ls[d]);
    if has_suffix(&desc_end, &close) {
        return (file_str.to_string(), None);
    }
    let mut e: usize = d + 1;
    while e < ls.len() && !ends_span_line(&ls[e])
        invariant
            d < e <= ls@.len(),
            m == lines_view(ls@),
            span_end_from(m, d + 1) == span_end_from(m, e as int),
        decreases ls@.len() - e,
    {
        e = e + 1;
    }
    let mut kept: Vec<Vec<char>> = Vec::new();
    copy_lines(&ls, 0, d, &mut kept);
    let mut opening = sub_chars(&ls[d], 0, ls[d].len());
    proof {
        assert(opening@ =~= m[d as int]);
    }
    push_chars(&mut opening, &close);
    let ghost before = kept@;
    kept.push(opening);
    proof {
        assert(lines_view(kept@) =~= lines_view(before).push(m[d as int] + close_token()));
    }
    copy_lines(&ls, e, ls.len(), &mut kept);
    let mut blob_lines: Vec<Vec<char>> = Vec::new();
    copy_lines(&ls, d + 1, e, &mut blob_lines);
    proof {
        assert(lines_view(kept@) =~= m.take(d as int) + seq![m[d as int] + close_token()] + m.skip(
            e as int,
        ));
        assert(lines_view(blob_lines@) =~= m.subrange(d + 1, e as int));
    }
    let sanitized = join_lines(&kept);
    let blob = join_lines(&blob_lines);
    (string_of(&sanitized), Some(string_of(&blob)))
}

/// Splices the blob back into the rendered text, after the first line that
/// opens the description, which is reopened.
pub fn recover_multilines(json_string: &str, multilines: &str) -> (r: String)
    ensures
        r@ == recovery(json_string@, multilines@),
{
    let text = chars_of(json_string);
    let ls = split_lines(&text);
    let ghost m = lines_view(ls@);
    let d = find_open(&ls);
    let mut out: Vec<Vec<char>> = Vec::new();
    if d == ls.len() {
        copy_lines(&ls, 0, ls.len(), &mut out);
        proof {
            assert(lines_view(out@) =~= m);
        }
    } else {
        copy_lines(&ls, 0, d, &mut out);
        let close = chars_of("\",");
        let line = trimmed_end(&ls[d]);
        let line = trimmed_end_matches(&line, &close);
        let blob = chars_of(multilines);
        let ghost b0 = out@;
        out.push(line);
        let ghost b1 = out@;
        out.push(blob);
        copy_lines(&ls, d + 1, ls.len(), &mut out);
        proof {
            assert(lines_view(b1) =~= lines_view(b0).push(reopened(m[d as int])));
            assert(lines_view(out@) =~= m.take(d as int) + seq![reopened(m[d as int]), multilines@]
                + m.skip(d + 1));
        }
    }
    let joined = join_lines(&out);
    string_of(&joined)
}

proof fn lemma_first_open(ls: Seq<Seq<char>>, i: int)
    requires
        0 <= i <= ls.len(),
    ensures
        i <= first_open_from(ls, i) <= ls.len(),
        forall|j: int| i <= j < first_open_from(ls, i) ==> !opens_description(#[trigger] ls[j]),
        first_open_from(ls, i) < ls.len() ==> opens_description(ls[first_open_from(ls, i)]),
    decreases ls.len() - i,
{
    if i < ls.len() && !opens_description(ls[i]) {
        lemma_first_open(ls, i + 1);
    }
}

proof fn lemma_first_open_at(ls: Seq<Seq<char>>, d: int, i: int)
    requires
        0 <= i <= d < ls.len(),
        opens_description(ls[d]),
        forall|j: int| 0 <= j < d ==> !opens_description(#[trigger] ls[j]),
    ensures
        first_open_from(ls, i) == d,
    decreases d - i,
{
    if i < d {
        lemma_first_open_at(ls, d, i + 1);
    }
}

proof fn lemma_close_token()
    ensures
        close_token() == seq!['"', ','],
        !is_space('"'),
        !is_space(','),
{
    reveal_strlit("\",");
    assert(close_token() =~= seq!['"', ',']);
}

/// The description line, closed and trimmed, still opens the description;
/// taking the closing token off gives the line back.
proof fn lemma_closed_line(ln: Seq<char>)
    requires
        opens_description(ln),
        trim_end(ln) == ln,
        !is_single_line(ln),
    ensures
        opens_description(ln + close_token()),
        reopened(ln + close_token()) == ln,
{
    let c = close_token();
    lemma_close_token();
    reveal_strlit("\"Description\"");
    let ts = trim_start(ln);
    assert(ts.len() > 0) by {
        if ts.len() == 0 {
            assert(trim_end(ts) =~= ts);
        }
    }
    lemma_trim_start_append(ln, c);
    lemma_trim_start_last(ln);
    assert(ln.len() > 0);
    assert(!is_space(ln.last())) by {
        if is_space(ln.last()) {
            lemma_trim_end_len(ln.drop_last());
        }
    }
    assert(trim(ln) == ts);
    assert((ts + c).last() == ',');
    assert(trim(ln + c) == ts + c);
    assert((ts + c).take(desc_token().len() as int) =~= ts.take(desc_token().len() as int));
    assert((ln + c).last() == ',');
    assert(trim_end(ln + c) == ln + c);
    let lc = ln + c;
    assert(lc.subrange(lc.len() - c.len(), lc.len() as int) =~= c);
    assert(lc.subrange(0, lc.len() - c.len()) =~= ln);
    assert(!ends_with(ln, c));
    if ln.len() >= c.len() {
        assert(ln.subrange(ln.len() - c.len(), ln.len() as int) =~= ln.skip(ln.len() - c.len()));
    }
    assert(trim_end_matches(ln, c) == ln);
}

/// A single-line description leaves the text as it is, with no blob.
pub proof fn lemma_single_line_untouched(text: Seq<char>)
    requires
        first_open_from(lines(text), 0) < lines(text).len(),
        is_single_line(lines(text)[first_open_from(lines(text), 0)]),
    ensures
        extraction(text) == (text, None::<Seq<char>>),
{
}

/// Cutting a multi-line description out of a text and splicing it back into
/// the sanitized text gives the text again, whatever number of lines the
/// description spans. The text has no carriage return and no final line
/// feed, the description's opening line no trailing white space.
pub proof fn lemma_round_trip(text: Seq<char>)
    requires
        no_cr(text),
        text.len() > 0,
        text.last() != '\n',
        extraction(text).1 is Some,
        trim_end(lines(text)[first_open_from(lines(text), 0)]) == lines(
            text,
        )[first_open_from(lines(text), 0)],
        span_end_from(lines(text), first_open_from(lines(text), 0) + 1) > first_open_from(
            lines(text),
            0,
        ) + 1,
    ensures
        recovery(extraction(text).0, extraction(text).1->Some_0) == text,
{
    let ls = lines(text);
    let d = first_open_from(ls, 0);
    let e = span_end_from(ls, d + 1);
    let ln = ls[d];
    let c = close_token();
    lemma_lines_bare(text);
    lemma_first_open(ls, 0);
    lemma_span_end(ls, d + 1);
    lemma_close_token();
    lemma_closed_line(ln);
    let x = ls.take(d) + seq![ln + c] + ls.skip(e);
    assert(is_bare_line(ln + c)) by {
        assert(is_bare_line(ls[d]));
    }
    assert forall|i: int| 0 <= i < x.len() implies is_bare_line(#[trigger] x[i]) by {
        if i < d {
            assert(x[i] == ls[i]);
        } else if i > d {
            assert(x[i] == ls[e + i - d - 1]);
        }
    }
    assert(x.last().len() > 0) by {
        if e < ls.len() {
            assert(x.last() == ls.last());
        }
    }
    lemma_lines_join(x);
    assert(forall|j: int| 0 <= j < d ==> x[j] == ls[j]);
    lemma_first_open_at(x, d, 0);
    let blob = join(ls.subrange(d + 1, e));
    assert(x.take(d) =~= ls.take(d));
    assert(x.skip(d + 1) =~= ls.skip(e));
    let a = ls.take(d + 1);
    let b = ls.subrange(d + 1, e);
    let cs = ls.skip(e);
    assert(ls.take(d) + seq![ln, blob] + ls.skip(e) =~= a + seq![blob] + cs);
    assert(a + b + cs =~= ls);
    lemma_join_append(a, seq![blob]);
    lemma_join_append(a, b);
    if cs.len() > 0 {
        lemma_join_append(a + seq![blob], cs);
        lemma_join_append(a + b, cs);
    } else {
        assert(a + seq![blob] + cs =~= a + seq![blob]);
        assert(a + b + cs =~= a + b);
    }
    assert(join(seq![blob]) == blob);
    lemma_join_lines(text);
}

/// Splicing the blob into a rendering of the sanitized document: where the
/// rendered text's first description line is the source's description line
/// closed on one line, the result's lines hold, in its place, the source's
/// description line and the blob's lines, verbatim, whatever their number.
/// The texts have no carriage return and no final line feed, the source's
/// description line no trailing white space, and the rendered description
/// line is not the rendering's last.
pub proof fn lemma_reinsert_verbatim(text: Seq<char>, rendered: Seq<char>)
    requires
        no_cr(text),
        text.len() > 0,
        text.last() != '\n',
        extraction(text).1 is Some,
        trim_end(lines(text)[first_open_from(lines(text), 0)]) == lines(
            text,
        )[first_open_from(lines(text), 0)],
        span_end_from(lines(text), first_open_from(lines(text), 0) + 1) > first_open_from(
            lines(text),
            0,
        ) + 1,
        no_cr(rendered),
        rendered.len() > 0,
        rendered.last() != '\n',
        first_open_from(lines(rendered), 0) + 1 < lines(rendered).len(),
        lines(rendered)[first_open_from(lines(rendered), 0)] == lines(text)[first_open_from(
            lines(text),
            0,
        )] + close_token(),
    ensures
        ({
            let ls = lines(text);
            let d = first_open_from(ls, 0);
            let e = span_end_from(ls, d + 1);
            let j = first_open_from(lines(rendered), 0);
            let out = lines(recovery(rendered, extraction(text).1->Some_0));
            &&& out.len() == lines(rendered).len() + (e - d - 1)
            &&& out.subrange(j, j + (e - d)) == ls.subrange(d, e)
            &&& out.take(j) == lines(rendered).take(j)
            &&& out.skip(j + (e - d)) == lines(rendered).skip(j + 1)
        }),
{
    let ls = lines(text);
    let d = first_open_from(ls, 0);
    let e = span_end_from(ls, d + 1);
    let ln = ls[d];
    let rs = lines(rendered);
    let j = first_open_from(rs, 0);
    lemma_lines_bare(text);
    lemma_lines_bare(rendered);
    lemma_first_open(rs, 0);
    lemma_first_open(ls, 0);
    lemma_span_end(ls, d + 1);
    lemma_closed_line(ln);
    let b = ls.subrange(d + 1, e);
    let blob = join(b);
    let a = rs.take(j) + seq![ln];
    let cs = rs.skip(j + 1);
    let y = a + b + cs;
    assert(rs.take(j) + seq![reopened(rs[j]), blob] + rs.skip(j + 1) =~= a + seq![blob] + cs);
    lemma_join_append(a, seq![blob]);
    lemma_join_append(a, b);
    if cs.len() > 0 {
        lemma_join_append(a + seq![blob], cs);
        lemma_join_append(a + b, cs);
    } else {
        assert(a + seq![blob] + cs =~= a + seq![blob]);
        assert(a + b + cs =~= a + b);
    }
    assert(join(seq![blob]) == blob);
    assert(recovery(rendered, blob) == join(y));
    assert forall|i: int| 0 <= i < y.len() implies is_bare_line(#[trigger] y[i]) by {
        if i < j {
            assert(y[i] == rs[i]);
        } else if i == j {
            assert(y[i] == ln);
            assert(is_bare_line(ls[d]));
        } else if i < j + 1 + b.len() {
            assert(a.len() == j + 1);
            assert(y[i] == (a + b)[i]);
            assert((a + b)[i] == b[i - j - 1]);
            assert(b[i - j - 1] == ls[d + 1 + (i - j - 1)]);
        } else {
            assert(a.len() == j + 1);
            assert(y[i] == cs[i - j - 1 - b.len()]);
            assert(cs[i - j - 1 - b.len()] == rs[j + 1 + (i - j - 1 - b.len())]);
        }
    }
    assert(y.last() == rs.last());
    lemma_lines_join(y);
    assert(y.subrange(j, j + (e - d)) =~= ls.subrange(d, e));
    assert(y.take(j) =~= rs.take(j));
    assert(y.skip(j + (e - d)) =~= rs.skip(j + 1));
}

proof fn lemma_span_end(ls: Seq<Seq<char>>, i: int)
    requires
        0 <= i <= ls.len(),
    ensures
        i <= span_end_from(ls, i) <= ls.len(),
    decreases ls.len() - i,
{
    if i < ls.len() && !ends_span(ls[i]) {
        lemma_span_end(ls, i + 1);
    }
}

} // verus!
