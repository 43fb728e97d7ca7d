//! Text primitives on characters: lines, trimming, prefixes and suffixes.

use vstd::prelude::*;

verus! {

/// Relies on `str::chars`: the characters of `s` in order.
#[verifier::external_body]
pub(crate) fn chars_of(s: &str) -> (r: Vec<char>)
    ensures
        r@ == s@,
{
    s.chars().collect()
}

/// Relies on `String`'s `FromIterator<char>`: the string of those characters.
#[verifier::external_body]
pub(crate) fn string_of(v: &Vec<char>) -> (r: String)
    ensures
        r@ == v@,
{
    v.iter().collect()
}

/// Unicode's White_Space characters.
pub open spec fn is_space(c: char) -> bool {
    c == '\t' || c == '\n' || c == '\u{0B}' || c == '\u{0C}' || c == '\r' || c == ' ' || c
        == '\u{85}' || c == '\u{A0}' || c == '\u{1680}' || ('\u{2000}' <= c && c <= '\u{200A}')
        || c == '\u{2028}' || c == '\u{2029}' || c == '\u{202F}' || c == '\u{205F}' || c
        == '\u{3000}'
}

pub fn is_space_char(c: char) -> (r: bool)
    ensures
        r == is_space(c),
{
    c == '\t' || c == '\n' || c == '\u{0B}' || c == '\u{0C}' || c == '\r' || c == ' ' || c
        == '\u{85}' || c == '\u{A0}' || c == '\u{1680}' || ('\u{2000}' <= c && c <= '\u{200A}')
        || c == '\u{2028}' || c == '\u{2029}' || c == '\u{202F}' || c == '\u{205F}' || c
        == '\u{3000}'
}

/// `s` without its leading white space.
pub open spec fn trim_start(s: Seq<char>) -> Seq<char>
    decreases s.len(),
{
    if s.len() > 0 && is_space(s[0]) {
        trim_start(s.drop_first())
    } else {
        s
    }
}

/// `s` without its trailing white space.
pub open spec fn trim_end(s: Seq<char>) -> Seq<char>
    decreases s.len(),
{
    if s.len() > 0 && is_space(s.last()) {
        trim_end(s.drop_last())
    } else {
        s
    }
}

/// `s` without white space at either end.
pub open spec fn trim(s: Seq<char>) -> Seq<char> {
    trim_end(trim_start(s))
}

/// `s` with every trailing repetition of `p` taken off.
pub open spec fn trim_end_matches(s: Seq<char>, p: Seq<char>) -> Seq<char>
    decreases s.len(),
{
    if p.len() > 0 && s.len() >= p.len() && s.subrange(s.len() - p.len(), s.len() as int) == p {
        trim_end_matches(s.subrange(0, s.len() - p.len()), p)
    } else {
        s
    }
}

pub open spec fn starts_with(s: Seq<char>, p: Seq<char>) -> bool {
    p.len() <= s.len() && s.take(p.len() as int) == p
}

pub open spec fn ends_with(s: Seq<char>, p: Seq<char>) -> bool {
    p.len() <= s.len() && s.skip(s.len() - p.len()) == p
}

/// Index of the first line feed in `s`, or its length.
pub open spec fn line_end(s: Seq<char>) -> int
    decreases s.len(),
{
    if s.len() == 0 {
        0
    } else if s[0] == '\n' {
        0
    } else {
        1 + line_end(s.drop_first())
    }
}

/// `s` without one trailing carriage return.
pub open spec fn strip_cr(s: Seq<char>) -> Seq<char> {
    if s.len() > 0 && s.last() == '\r' {
        s.drop_last()
    } else {
        s
    }
}

/// The lines of `s`: split at each line feed, a carriage return before it
/// dropped, and no empty line after a final line feed.
pub open spec fn lines(s: Seq<char>) -> Seq<Seq<char>>
    decreases s.len(),
{
    if s.len() == 0 {
        Seq::empty()
    } else {
        let i = line_end(s);
        if 0 <= i < s.len() {
            seq![strip_cr(s.take(i))] + lines(s.skip(i + 1))
        } else {
            seq![s]
        }
    }
}

/// The lines joined with line feeds.
pub open spec fn join(ls: Seq<Seq<char>>) -> Seq<char>
    decreases ls.len(),
{
    if ls.len() == 0 {
        Seq::empty()
    } else if ls.len() == 1 {
        ls[0]
    } else {
        join(ls.drop_last()) + seq!['\n'] + ls.last()
    }
}

pub proof fn lemma_line_end(s: Seq<char>)
    ensures
        0 <= line_end(s) <= s.len(),
        line_end(s) < s.len() ==> s[line_end(s)] == '\n',
        forall|j: int| 0 <= j < line_end(s) ==> s[j] != '\n',
    decreases s.len(),
{
    if s.len() > 0 && s[0] != '\n' {
        lemma_line_end(s.drop_first());
        assert forall|j: int| 0 <= j < line_end(s) implies s[j] != '\n' by {
            if j > 0 {
                assert(s[j] == s.drop_first()[j - 1]);
            }
        }
    }
}

proof fn lemma_line_end_from(s: Seq<char>, start: int)
    requires
        0 <= start <= s.len(),
        forall|j: int| start <= j < s.len() ==> s[j] != '\n',
    ensures
        line_end(s.skip(start)) == s.len() - start,
{
    lemma_line_end(s.skip(start));
    if line_end(s.skip(start)) < s.len() - start {
        assert(s[start + line_end(s.skip(start))] == '\n');
    }
}

proof fn lemma_line_end_at(s: Seq<char>, start: int, i: int)
    requires
        0 <= start <= i < s.len(),
        s[i] == '\n',
        forall|j: int| start <= j < i ==> s[j] != '\n',
    ensures
        line_end(s.skip(start)) == i - start,
{
    lemma_line_end(s.skip(start));
    let k = line_end(s.skip(start));
    if k < i - start {
        assert(s.skip(start)[k] == '\n');
    } else if k > i - start {
        assert(s.skip(start)[i - start] == '\n');
    }
}

/// The lines of `s`.
pub fn split_lines(s: &Vec<char>) -> (r: Vec<Vec<char>>)
    ensures
        r@.map_values(|l: Vec<char>| l@) == lines(s@),
{
    let mut out: Vec<Vec<char>> = Vec::new();
    let mut cur: Vec<char> = Vec::new();
    let mut start: usize = 0;
    let mut i: usize = 0;
    proof {
        assert(s@.skip(0) =~= s@);
        assert(out@.map_values(|l: Vec<char>| l@) + lines(s@.skip(0)) =~= lines(s@));
    }
    while i < s.len()
        invariant
            start <= i <= s@.len(),
            cur@ == s@.subrange(start as int, i as int),
            forall|j: int| start <= j < i ==> s@[j] != '\n',
            out@.map_values(|l: Vec<char>| l@) + lines(s@.skip(start as int)) == lines(s@),
        decreases s@.len() - i,
    {
        if s[i] == '\n' {
            let ghost rest = s@.skip(start as int);
            proof {
                lemma_line_end_at(s@, start as int, i as int);
                assert(rest.take(i - start) =~= cur@);
                assert(rest.skip(i - start + 1) =~= s@.skip(i + 1));
            }
            let n = cur.len();
            if n > 0 && cur[n - 1] == '\r' {
                cur.pop();
            }
            let ghost before = out@;
            out.push(cur);
            cur = Vec::new();
            proof {
                assert(out@.map_values(|l: Vec<char>| l@) =~= before.map_values(|l: Vec<char>| l@).push(
                    strip_cr(rest.take(i - start)),
                ));
                assert(lines(rest) == seq![strip_cr(rest.take(i - start))] + lines(s@.skip(i + 1)));
                assert(out@.map_values(|l: Vec<char>| l@) + lines(s@.skip(i + 1)) =~= before.map_values(
                    |l: Vec<char>| l@,
                ) + lines(rest));
            }
            i = i + 1;
            start = i;
            proof {
                assert(cur@ =~= s@.subrange(start as int, i as int));
            }
        } else {
            cur.push(s[i]);
            i = i + 1;
            proof {
                assert(cur@ =~= s@.subrange(start as int, i as int));
            }
        }
    }
    if cur.len() > 0 {
        let ghost rest = s@.skip(start as int);
        proof {
            lemma_line_end_from(s@, start as int);
            assert(rest =~= cur@);
        }
        let ghost before = out@;
        out.push(cur);
        proof {
            assert(out@.map_values(|l: Vec<char>| l@) =~= before.map_values(|l: Vec<char>| l@) + lines(
                rest,
            ));
        }
    } else {
        proof {
            assert(s@.skip(start as int).len() == 0);
            assert(out@.map_values(|l: Vec<char>| l@) + lines(s@.skip(start as int)) =~= out@.map_values(
                |l: Vec<char>| l@,
            ));
        }
    }
    out
}

/// The characters `v[lo..hi]`.
pub fn sub_chars(v: &Vec<char>, lo: usize, hi: usize) -> (r: Vec<char>)
    requires
        lo <= hi <= v@.len(),
    ensures
        r@ == v@.subrange(lo as int, hi as int),
{
    let mut r: Vec<char> = Vec::new();
    let mut i: usize = lo;
    while i < hi
        invariant
            lo <= i <= hi <= v@.len(),
            r@ == v@.subrange(lo as int, i as int),
        decreases hi - i,
    {
        r.push(v[i]);
        i = i + 1;
        assert(r@ =~= v@.subrange(lo as int, i as int));
    }
    r
}

/// Appends the characters of `b` to `a`.
pub fn push_chars(a: &mut Vec<char>, b: &Vec<char>)
    ensures
        final(a)@ == old(a)@ + b@,
{
    let mut i: usize = 0;
    while i < b.len()
        invariant
            i <= b@.len(),
            a@ == old(a)@ + b@.take(i as int),
        decreases b@.len() - i,
    {
        a.push(b[i]);
        i = i + 1;
        assert(a@ =~= old(a)@ + b@.take(i as int));
    }
    assert(b@.take(i as int) =~= b@);
}

proof fn lemma_trim_start_skip(s: Seq<char>, i: int)
    requires
        0 <= i < s.len(),
        is_space(s[i]),
    ensures
        trim_start(s.skip(i)) == trim_start(s.skip(i + 1)),
{
    assert(s.skip(i).drop_first() =~= s.skip(i + 1));
}

proof fn lemma_trim_end_take(s: Seq<char>, j: int)
    requires
        0 < j <= s.len(),
        is_space(s[j - 1]),
    ensures
        trim_end(s.take(j)) == trim_end(s.take(j - 1)),
{
    assert(s.take(j).drop_last() =~= s.take(j - 1));
}

/// `s` without its trailing white space.
pub fn trimmed_end(s: &Vec<char>) -> (r: Vec<char>)
    ensures
        r@ == trim_end(s@),
{
    let mut j: usize = s.len();
    proof {
        assert(s@.take(j as int) =~= s@);
    }
    while j > 0 && is_space_char(s[j - 1])
        invariant
            j <= s@.len(),
            trim_end(s@) == trim_end(s@.take(j as int)),
        decreases j,
    {
        proof {
            lemma_trim_end_take(s@, j as int);
        }
        j = j - 1;
    }
    sub_chars(s, 0, j)
}

/// `s` without white space at either end.
pub fn trimmed(s: &Vec<char>) -> (r: Vec<char>)
    ensures
        r@ == trim(s@),
{
    let mut i: usize = 0;
    proof {
        assert(s@.skip(0) =~= s@);
    }
    while i < s.len() && is_space_char(s[i])
        invariant
            i <= s@.len(),
            trim_start(s@) == trim_start(s@.skip(i as int)),
        decreases s@.len() - i,
    {
        proof {
            lemma_trim_start_skip(s@, i as int);
        }
        i = i + 1;
    }
    let rest = sub_chars(s, i, s.len());
    proof {
        assert(rest@ =~= s@.skip(i as int));
    }
    trimmed_end(&rest)
}

/// `s` with every trailing repetition of `p` taken off.
pub fn trimmed_end_matches(s: &Vec<char>, p: &Vec<char>) -> (r: Vec<char>)
    ensures
        r@ == trim_end_matches(s@, p@),
{
    let mut j: usize = s.len();
    proof {
        assert(s@.take(j as int) =~= s@);
    }
    while p.len() > 0 && j >= p.len() && has_suffix_at(s, j, p)
        invariant
            j <= s@.len(),
            trim_end_matches(s@, p@) == trim_end_matches(s@.take(j as int), p@),
        decreases j,
    {
        proof {
            let t = s@.take(j as int);
            assert(t.subrange(t.len() - p@.len(), t.len() as int) =~= s@.subrange(
                j - p@.len(),
                j as int,
            ));
            assert(t.subrange(0, t.len() - p@.len()) =~= s@.take(j - p@.len()));
        }
        j = j - p.len();
    }
    proof {
        let t = s@.take(j as int);
        if p@.len() > 0 && j >= p@.len() {
            assert(t.subrange(t.len() - p@.len(), t.len() as int) =~= s@.subrange(
                j - p@.len(),
                j as int,
            ));
        }
    }
    sub_chars(s, 0, j)
}

/// Whether `s[..j]` ends with `p`.
fn has_suffix_at(s: &Vec<char>, j: usize, p: &Vec<char>) -> (r: bool)
    requires
        p@.len() <= j <= s@.len(),
    ensures
        r == (s@.subrange(j - p@.len(), j as int) == p@),
{
    let off: usize = j - p.len();
    let mut k: usize = 0;
    while k < p.len()
        invariant
            k <= p@.len(),
            off == j - p@.len(),
            p@.len() <= j <= s@.len(),
            forall|m: int| 0 <= m < k ==> s@[off + m] == p@[m],
        decreases p@.len() - k,
    {
        if s[off + k] != p[k] {
            assert(s@.subrange(j - p@.len(), j as int)[k as int] != p@[k as int]);
            return false;
        }
        k = k + 1;
    }
    assert(s@.subrange(j - p@.len(), j as int) =~= p@);
    true
}

/// Whether `s` begins with `p`.
pub fn has_prefix(s: &Vec<char>, p: &Vec<char>) -> (r: bool)
    ensures
        r == starts_with(s@, p@),
{
    if p.len() > s.len() {
        return false;
    }
    let mut k: usize = 0;
    while k < p.len()
        invariant
            k <= p@.len() <= s@.len(),
            forall|m: int| 0 <= m < k ==> s@[m] == p@[m],
        decreases p@.len() - k,
    {
        if s[k] != p[k] {
            assert(s@.take(p@.len() as int)[k as int] != p@[k as int]);
            return false;
        }
        k = k + 1;
    }
    assert(s@.take(p@.len() as int) =~= p@);
    true
}

/// Whether `s` ends with `p`.
pub fn has_suffix(s: &Vec<char>, p: &Vec<char>) -> (r: bool)
    ensures
        r == ends_with(s@, p@),
{
    if p.len() > s.len() {
        return false;
    }
    let r = has_suffix_at(s, s.len(), p);
    assert(s@.subrange(s@.len() - p@.len(), s@.len() as int) =~= s@.skip(s@.len() - p@.len()));
    r
}

/// Whether two character sequences are equal.
pub fn same_chars(a: &Vec<char>, b: &Vec<char>) -> (r: bool)
    ensures
        r == (a@ == b@),
{
    if a.len() != b.len() {
        return false;
    }
    let r = has_prefix(a, b);
    assert(a@.take(b@.len() as int) =~= a@);
    r
}

/// The lines joined with line feeds.
pub fn join_lines(ls: &Vec<Vec<char>>) -> (r: Vec<char>)
    ensures
        r@ == join(ls@.map_values(|l: Vec<char>| l@)),
{
    let ghost m = ls@.map_values(|l: Vec<char>| l@);
    let mut r: Vec<char> = Vec::new();
    let mut i: usize = 0;
    proof {
        assert(m.take(0) =~= Seq::<Seq<char>>::empty());
    }
    while i < ls.len()
        invariant
            i <= ls@.len(),
            m == ls@.map_values(|l: Vec<char>| l@),
            r@ == join(m.take(i as int)),
        decreases ls@.len() - i,
    {
        proof {
            assert(m.take(i + 1).drop_last() =~= m.take(i as int));
        }
        if i > 0 {
            r.push('\n');
        }
        push_chars(&mut r, &ls[i]);
        proof {
            if i == 0 {
                assert(r@ =~= m.take(1)[0]);
            } else {
                assert(r@ =~= join(m.take(i as int)) + seq!['\n'] + m[i as int]);
            }
        }
        i = i + 1;
    }
    proof {
        assert(m.take(i as int) =~= m);
    }
    r
}

/// Whether no character of `s` is a carriage return.
pub open spec fn no_cr(s: Seq<char>) -> bool {
    forall|i: int| 0 <= i < s.len() ==> s[i] != '\r'
}

/// Whether no character of `s` is a line feed or a carriage return.
pub open spec fn is_bare_line(s: Seq<char>) -> bool {
    forall|i: int| 0 <= i < s.len() ==> s[i] != '\n' && s[i] != '\r'
}

pub proof fn lemma_join_cons(x: Seq<char>, rest: Seq<Seq<char>>)
    requires
        rest.len() > 0,
    ensures
        join(seq![x] + rest) == x + seq!['\n'] + join(rest),
    decreases rest.len(),
{
    let all = seq![x] + rest;
    assert(all.drop_last() =~= seq![x] + rest.drop_last());
    assert(all.last() == rest.last());
    assert(join(all) == join(all.drop_last()) + seq!['\n'] + all.last());
    if rest.len() == 1 {
        assert(seq![x] + rest.drop_last() =~= seq![x]);
        assert(join(seq![x]) == x);
        assert(join(rest) == rest[0]);
    } else {
        assert(join(rest) == join(rest.drop_last()) + seq!['\n'] + rest.last());
        lemma_join_cons(x, rest.drop_last());
        assert(x + seq!['\n'] + join(rest.drop_last()) + seq!['\n'] + rest.last() =~= x + seq!['\n']
            + (join(rest.drop_last()) + seq!['\n'] + rest.last()));
    }
}

pub proof fn lemma_join_append(x: Seq<Seq<char>>, y: Seq<Seq<char>>)
    requires
        x.len() > 0,
        y.len() > 0,
    ensures
        join(x + y) == join(x) + seq!['\n'] + join(y),
    decreases y.len(),
{
    assert((x + y).drop_last() =~= x + y.drop_last());
    if y.len() == 1 {
        assert(x + y.drop_last() =~= x);
    } else {
        lemma_join_append(x, y.drop_last());
        assert(join(x) + seq!['\n'] + join(y.drop_last()) + seq!['\n'] + y.last() =~= join(x)
            + seq!['\n'] + (join(y.drop_last()) + seq!['\n'] + y.last()));
    }
}

/// Joining the lines of a text gives it back, where it has no carriage return
/// and does not end with a line feed.
pub proof fn lemma_join_lines(t: Seq<char>)
    requires
        no_cr(t),
        t.len() == 0 || t.last() != '\n',
    ensures
        join(lines(t)) == t,
    decreases t.len(),
{
    if t.len() > 0 {
        lemma_line_end(t);
        let i = line_end(t);
        if i < t.len() {
            let rest = t.skip(i + 1);
            assert(i < t.len() - 1);
            assert(rest.last() == t.last());
            lemma_join_lines(rest);
            assert(t.take(i).len() == 0 || t.take(i).last() != '\r');
            assert(strip_cr(t.take(i)) == t.take(i));
            lemma_join_cons(t.take(i), lines(rest));
            assert(t.take(i) + seq!['\n'] + rest =~= t);
        }
    }
}

/// Splitting joined lines gives them back, where no line holds a line feed
/// or a carriage return and the last is not empty.
pub proof fn lemma_lines_join(ls: Seq<Seq<char>>)
    requires
        forall|i: int| 0 <= i < ls.len() ==> is_bare_line(#[trigger] ls[i]),
        ls.len() > 0 ==> ls.last().len() > 0,
    ensures
        lines(join(ls)) == ls,
    decreases ls.len(),
{
    if ls.len() == 1 {
        let t = join(ls);
        lemma_line_end_from(t, 0);
        assert(t.skip(0) =~= t);
        assert(lines(t) =~= ls);
    } else if ls.len() > 1 {
        let rest = ls.drop_first();
        assert(ls =~= seq![ls[0]] + rest);
        lemma_join_cons(ls[0], rest);
        lemma_lines_join(rest);
        let t = join(ls);
        let n = ls[0].len() as int;
        assert(t[n] == '\n');
        assert forall|j: int| 0 <= j < n implies t[j] != '\n' by {
            assert(t[j] == ls[0][j]);
            assert(is_bare_line(ls[0]));
        }
        lemma_line_end_at(t, 0, n);
        assert(t.skip(0) =~= t);
        assert(t.take(n) =~= ls[0]);
        assert(is_bare_line(ls[0]));
        assert(t.skip(n + 1) =~= join(rest));
        assert(lines(t) =~= seq![ls[0]] + rest);
    }
}

/// The lines of a text hold no line feed, no carriage return where the text
/// has none, and the last is not empty where the text does not end with a
/// line feed.
pub proof fn lemma_lines_bare(t: Seq<char>)
    requires
        no_cr(t),
    ensures
        forall|i: int| 0 <= i < lines(t).len() ==> is_bare_line(#[trigger] lines(t)[i]),
        t.len() > 0 && t.last() != '\n' ==> lines(t).len() > 0 && lines(t).last().len() > 0,
    decreases t.len(),
{
    if t.len() > 0 {
        lemma_line_end(t);
        let i = line_end(t);
        if i < t.len() {
            let rest = t.skip(i + 1);
            lemma_lines_bare(rest);
            let first = strip_cr(t.take(i));
            assert(first == t.take(i));
            assert(is_bare_line(first));
            assert forall|j: int| 0 <= j < lines(t).len() implies is_bare_line(#[trigger] lines(t)[j]) by {
                if j > 0 {
                    assert(lines(t)[j] == lines(rest)[j - 1]);
                }
            }
            if t.last() != '\n' {
                assert(rest.len() > 0);
                assert(rest.last() == t.last());
                assert(lines(t).last() == lines(rest).last());
            }
        } else {
            assert(is_bare_line(t));
        }
    }
}

pub proof fn lemma_trim_start_append(a: Seq<char>, b: Seq<char>)
    requires
        trim_start(a).len() > 0,
    ensures
        trim_start(a + b) == trim_start(a) + b,
    decreases a.len(),
{
    if a.len() > 0 && is_space(a[0]) {
        assert((a + b).drop_first() =~= a.drop_first() + b);
        lemma_trim_start_append(a.drop_first(), b);
    } else {
        assert(a.len() > 0);
        assert((a + b)[0] == a[0]);
    }
}

pub proof fn lemma_trim_start_last(a: Seq<char>)
    requires
        trim_start(a).len() > 0,
    ensures
        trim_start(a).last() == a.last(),
    decreases a.len(),
{
    if a.len() > 0 && is_space(a[0]) {
        lemma_trim_start_last(a.drop_first());
    }
}

pub proof fn lemma_trim_end_len(s: Seq<char>)
    ensures
        trim_end(s).len() <= s.len(),
    decreases s.len(),
{
    if s.len() > 0 && is_space(s.last()) {
        lemma_trim_end_len(s.drop_last());
    }
}

} // verus!
