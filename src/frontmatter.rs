//! The front-matter codec: the header of a note sits between two lines that
//! hold only the delimiter, at the top of the file.

use vstd::prelude::*;
use crate::text::{chars_of, copy_text, pieces, push_char, push_text, split_text, string_of, views};

verus! {

/// The characters with the Unicode White_Space property.
pub open spec fn white_space(c: char) -> bool {
    let x = c as int;
    (0x09 <= x <= 0x0d) || x == 0x20 || x == 0x85 || x == 0xa0 || x == 0x1680 || (0x2000 <= x
        <= 0x200a) || x == 0x2028 || x == 0x2029 || x == 0x202f || x == 0x205f || x == 0x3000
}

/// Relies on `char::is_whitespace`: true exactly for the White_Space characters.
#[verifier::external_body]
pub(crate) fn is_whitespace(c: char) -> (r: bool)
    ensures
        r == white_space(c),
{
    c.is_whitespace()
}

pub open spec fn trim_start(l: Seq<char>) -> Seq<char>
    decreases l.len(),
{
    if l.len() > 0 && white_space(l[0]) {
        trim_start(l.drop_first())
    } else {
        l
    }
}

pub open spec fn trim_end(l: Seq<char>) -> Seq<char>
    decreases l.len(),
{
    if l.len() > 0 && white_space(l.last()) {
        trim_end(l.drop_last())
    } else {
        l
    }
}

/// The delimiter line's text.
pub open spec fn delimiter() -> Seq<char> {
    seq!['-', '-', '-']
}

/// A line is a delimiter when, trimmed of white space, it is the delimiter.
pub open spec fn is_delimiter(l: Seq<char>) -> bool {
    trim_end(trim_start(l)) == delimiter()
}

/// Whether `line` is a delimiter line.
pub fn delimiter_line(line: &str) -> (r: bool)
    ensures
        r == is_delimiter(line@),
{
    let v = chars_of(line);
    let mut i: usize = 0;
    proof {
        assert(v@.skip(0) =~= v@);
    }
    while i < v.len() && is_whitespace(v[i])
        invariant
            i <= v.len(),
            trim_start(v@) == trim_start(v@.skip(i as int)),
        decreases v.len() - i,
    {
        proof {
            assert(v@.skip(i as int).drop_first() =~= v@.skip(i + 1));
        }
        i = i + 1;
    }
    let ghost s = v@.skip(i as int);
    proof {
        if i < v.len() {
            assert(s[0] == v@[i as int]);
        }
        assert(trim_start(v@) == s);
        assert(s.take(s.len() as int) =~= s);
    }
    let mut j: usize = v.len();
    while j > i && is_whitespace(v[j - 1])
        invariant
            i <= j <= v.len(),
            s == v@.skip(i as int),
            trim_end(s) == trim_end(s.take(j - i)),
        decreases j,
    {
        proof {
            assert(s.take(j - i).drop_last() =~= s.take(j - i - 1));
            assert(s.take(j - i).last() == v@[j - 1]);
        }
        j = j - 1;
    }
    proof {
        let t = s.take(j - i);
        if j > i {
            assert(t.last() == v@[j - 1]);
        }
        assert(trim_end(s) == t);
    }
    if j - i != 3 {
        proof {
            assert(s.take(j - i).len() != delimiter().len());
        }
        return false;
    }
    let r = v[i] == '-' && v[i + 1] == '-' && v[i + 2] == '-';
    proof {
        let t = s.take(j - i);
        if r {
            assert(t =~= delimiter());
        } else {
            assert(t[0] != '-' || t[1] != '-' || t[2] != '-');
        }
    }
    r
}

/// A line without one trailing carriage return.
pub open spec fn strip_cr(l: Seq<char>) -> Seq<char> {
    if l.len() > 0 && l.last() == '\r' {
        l.drop_last()
    } else {
        l
    }
}

/// The lines of `t`, as `BufRead::lines` yields them: split at `\n`, the
/// `\r` before a `\n` dropped, and no empty line after a final `\n`.
pub open spec fn text_lines(t: Seq<char>) -> Seq<Seq<char>> {
    let ps = pieces(t, '\n');
    let done = ps.drop_last().map_values(|l: Seq<char>| strip_cr(l));
    if ps.last().len() == 0 {
        done
    } else {
        done.push(ps.last())
    }
}

fn without_cr(l: &str) -> (r: String)
    ensures
        r@ == strip_cr(l@),
{
    let v = chars_of(l);
    if v.len() > 0 && v[v.len() - 1] == '\r' {
        let mut w = v;
        w.pop();
        proof {
            assert(w@ =~= l@.drop_last());
        }
        string_of(&w)
    } else {
        copy_text(l)
    }
}

/// The lines of `text`.
pub fn split_lines(text: &str) -> (r: Vec<String>)
    ensures
        views(r@) == text_lines(text@),
{
    let ps = split_text(text, '\n');
    let ghost pv = views(ps@);
    proof {
        crate::text::lemma_pieces_nonempty(text@, '\n');
    }
    let n = ps.len();
    let mut out: Vec<String> = Vec::new();
    let mut i: usize = 0;
    while i + 1 < n
        invariant
            n == ps.len(),
            n >= 1,
            i + 1 <= n,
            pv == views(ps@),
            views(out@) == pv.take(i as int).map_values(|l: Seq<char>| strip_cr(l)),
        decreases n - i,
    {
        let l = without_cr(ps[i].as_str());
        let ghost before = out@;
        out.push(l);
        proof {
            assert(views(out@) =~= views(before).push(l@));
            assert(pv.take(i + 1).map_values(|l: Seq<char>| strip_cr(l)) =~= pv.take(
                i as int,
            ).map_values(|l: Seq<char>| strip_cr(l)).push(strip_cr(pv[i as int])));
        }
        i = i + 1;
    }
    proof {
        assert(pv.take(i as int) =~= pv.drop_last());
    }
    if ps[n - 1].unicode_len() > 0 {
        let last = copy_text(ps[n - 1].as_str());
        let ghost before = out@;
        out.push(last);
        proof {
            assert(views(out@) =~= views(before).push(last@));
        }
    }
    out
}

} // verus!

verus! {

/// Index of the first delimiter line at or after `from`, or the number of lines.
pub open spec fn first_delimiter(ls: Seq<Seq<char>>, from: int) -> int
    decreases ls.len() - from,
{
    if from < 0 || from >= ls.len() {
        ls.len() as int
    } else if is_delimiter(ls[from]) {
        from
    } else {
        first_delimiter(ls, from + 1)
    }
}

/// Each line followed by a newline.
pub open spec fn with_newlines(ls: Seq<Seq<char>>) -> Seq<char>
    decreases ls.len(),
{
    if ls.len() == 0 {
        Seq::empty()
    } else {
        with_newlines(ls.drop_last()) + ls.last().push('\n')
    }
}

/// The header text of a note with lines `ls`: the lines after the first
/// delimiter line, up to the next one or the end, each followed by a newline;
/// `None` when no line is a delimiter.
pub open spec fn front_matter_of(ls: Seq<Seq<char>>) -> Option<Seq<char>> {
    let o = first_delimiter(ls, 0);
    if o >= ls.len() {
        None
    } else {
        Some(with_newlines(ls.subrange(o + 1, first_delimiter(ls, o + 1))))
    }
}

/// The lines after the closing delimiter; none when there is no closing one.
pub open spec fn body_of(ls: Seq<Seq<char>>) -> Seq<Seq<char>> {
    let c = first_delimiter(ls, first_delimiter(ls, 0) + 1);
    if c < ls.len() {
        ls.skip(c + 1)
    } else {
        Seq::empty()
    }
}

proof fn lemma_first_delimiter_range(ls: Seq<Seq<char>>, from: int)
    ensures
        0 <= from <= ls.len() ==> from <= first_delimiter(ls, from) <= ls.len(),
    decreases ls.len() - from,
{
    if 0 <= from < ls.len() {
        lemma_first_delimiter_range(ls, from + 1);
    }
}

/// Splits a note into its header text and the lines of its body; `None`
/// when no line is a delimiter.
pub fn fetch(note: &str) -> (r: Option<(String, Vec<String>)>)
    ensures
        r is None <==> front_matter_of(text_lines(note@)) is None,
        r matches Some((fm, body)) ==> Some(fm@) == front_matter_of(text_lines(note@)) && views(
            body@,
        ) == body_of(text_lines(note@)),
{
    let ls = split_lines(note);
    let ghost lv = views(ls@);
    let n = ls.len();
    let mut o: usize = 0;
    while o < n && !delimiter_line(ls[o].as_str())
        invariant
            o <= n,
            n == ls.len(),
            lv == views(ls@),
            first_delimiter(lv, 0) == first_delimiter(lv, o as int),
        decreases n - o,
    {
        o = o + 1;
    }
    if o == n {
        return None;
    }
    proof {
        lemma_first_delimiter_range(lv, o + 1);
    }
    let mut fm = String::new();
    let mut c: usize = o + 1;
    proof {
        assert(lv.subrange(o + 1, o + 1) =~= Seq::<Seq<char>>::empty());
    }
    while c < n && !delimiter_line(ls[c].as_str())
        invariant
            o < c <= n,
            n == ls.len(),
            lv == views(ls@),
            first_delimiter(lv, 0) == o,
            first_delimiter(lv, o + 1) == first_delimiter(lv, c as int),
            fm@ == with_newlines(lv.subrange(o + 1, c as int)),
        decreases n - c,
    {
        push_text(&mut fm, ls[c].as_str());
        push_char(&mut fm, '\n');
        proof {
            let s = lv.subrange(o + 1, c + 1);
            assert(s.drop_last() =~= lv.subrange(o + 1, c as int));
            assert(s.last() == ls@[c as int]@);
            assert(fm@ =~= with_newlines(s));
        }
        c = c + 1;
    }
    let mut body: Vec<String> = Vec::new();
    let mut k: usize = if c < n { c + 1 } else { n };
    let start = k;
    proof {
        assert(lv.subrange(start as int, start as int) =~= Seq::<Seq<char>>::empty());
    }
    while k < n
        invariant
            start <= k <= n,
            n == ls.len(),
            lv == views(ls@),
            views(body@) == lv.subrange(start as int, k as int),
        decreases n - k,
    {
        let l = copy_text(ls[k].as_str());
        let ghost before = body@;
        body.push(l);
        proof {
            assert(views(body@) =~= views(before).push(l@));
            assert(lv.subrange(start as int, k + 1) =~= lv.subrange(start as int, k as int).push(
                lv[k as int],
            ));
        }
        k = k + 1;
    }
    proof {
        assert(lv.subrange(start as int, n as int) =~= body_of(lv));
    }
    Some((fm, body))
}

/// The text of a note: opening delimiter, header text, closing delimiter, a
/// blank line, then the body.
pub open spec fn framed(header: Seq<char>, body: Seq<char>) -> Seq<char> {
    delimiter().push('\n') + header + delimiter().push('\n').push('\n') + body
}

fn push_delimiter_line(s: &mut String)
    ensures
        final(s)@ == old(s)@ + delimiter().push('\n'),
{
    push_char(s, '-');
    push_char(s, '-');
    push_char(s, '-');
    push_char(s, '\n');
    proof {
        assert(s@ =~= old(s)@ + delimiter().push('\n'));
    }
}

/// Encodes a note from its serialized header text and its body.
pub fn frame(header: &str, body: &str) -> (r: String)
    ensures
        r@ == framed(header@, body@),
{
    let mut r = String::new();
    push_delimiter_line(&mut r);
    push_text(&mut r, header);
    push_delimiter_line(&mut r);
    push_char(&mut r, '\n');
    push_text(&mut r, body);
    proof {
        assert(r@ =~= framed(header@, body@));
    }
    r
}

} // verus!

verus! {

proof fn lemma_pieces_append(a: Seq<char>, b: Seq<char>, sep: char)
    ensures
        pieces(a + seq![sep] + b, sep) == pieces(a, sep) + pieces(b, sep),
    decreases b.len(),
{
    let s = a + seq![sep] + b;
    if b.len() == 0 {
        assert(s.drop_last() =~= a);
        assert(pieces(b, sep) =~= seq![Seq::<char>::empty()]);
        assert(pieces(s, sep) =~= pieces(a, sep) + pieces(b, sep));
    } else {
        lemma_pieces_append(a, b.drop_last(), sep);
        crate::text::lemma_pieces_nonempty(b.drop_last(), sep);
        assert(s.drop_last() =~= a + seq![sep] + b.drop_last());
        assert(s.last() == b.last());
        assert(pieces(s, sep) =~= pieces(a, sep) + pieces(b, sep));
    }
}

proof fn lemma_pieces_single(a: Seq<char>, sep: char)
    requires
        !a.contains(sep),
    ensures
        pieces(a, sep) == seq![a],
    decreases a.len(),
{
    if a.len() > 0 {
        assert(!a.drop_last().contains(sep)) by {
            if a.drop_last().contains(sep) {
                let i = choose|i: int| 0 <= i < a.drop_last().len() && a.drop_last()[i] == sep;
                assert(a[i] == sep);
            }
        }
        lemma_pieces_single(a.drop_last(), sep);
        assert(a.last() != sep) by {
            assert(a[a.len() - 1] == a.last());
        }
        assert(a.drop_last().push(a.last()) =~= a);
        assert(pieces(a, sep) =~= seq![a]);
    } else {
        assert(a =~= Seq::<char>::empty());
        assert(pieces(a, sep) =~= seq![a]);
    }
}

/// A header line that survives framing: no newline in it, no carriage
/// return at its end, and not a delimiter.
pub open spec fn plain_line(l: Seq<char>) -> bool {
    !l.contains('\n') && strip_cr(l) == l && !is_delimiter(l)
}

proof fn lemma_pieces_lines(ls: Seq<Seq<char>>, b: Seq<char>)
    requires
        forall|i: int| 0 <= i < ls.len() ==> !(#[trigger] ls[i]).contains('\n'),
    ensures
        pieces(with_newlines(ls) + b, '\n') == ls + pieces(b, '\n'),
    decreases ls.len(),
{
    if ls.len() == 0 {
        assert(with_newlines(ls) + b =~= b);
        assert(ls + pieces(b, '\n') =~= pieces(b, '\n'));
    } else {
        let init = ls.drop_last();
        let l = ls.last();
        assert(!ls[ls.len() - 1].contains('\n'));
        let rest = l + seq!['\n'] + b;
        assert(with_newlines(ls) + b =~= with_newlines(init) + rest);
        lemma_pieces_lines(init, rest);
        lemma_pieces_append(l, b, '\n');
        lemma_pieces_single(l, '\n');
        assert(init + (seq![l] + pieces(b, '\n')) =~= ls + pieces(b, '\n'));
    }
}

proof fn lemma_lines_of_lines(ls: Seq<Seq<char>>, b: Seq<char>)
    requires
        forall|i: int| 0 <= i < ls.len() ==> !(#[trigger] ls[i]).contains('\n') && strip_cr(ls[i])
            == ls[i],
    ensures
        text_lines(with_newlines(ls) + b) == ls + text_lines(b),
{
    lemma_pieces_lines(ls, b);
    crate::text::lemma_pieces_nonempty(b, '\n');
    let pb = pieces(b, '\n');
    let ps = ls + pb;
    assert(ps.last() == pb.last());
    assert(ps.drop_last() =~= ls + pb.drop_last());
    let f = |l: Seq<char>| strip_cr(l);
    assert(ps.drop_last().map_values(f) =~= ls + pb.drop_last().map_values(f)) by {
        assert forall|i: int| 0 <= i < ls.len() implies ps.drop_last().map_values(f)[i]
            == ls[i] by {
            assert(strip_cr(ls[i]) == ls[i]);
        }
    }
}

proof fn lemma_with_newlines_append(a: Seq<Seq<char>>, b: Seq<Seq<char>>)
    ensures
        with_newlines(a + b) == with_newlines(a) + with_newlines(b),
    decreases b.len(),
{
    if b.len() == 0 {
        assert(a + b =~= a);
        assert(with_newlines(a) + with_newlines(b) =~= with_newlines(a));
    } else {
        lemma_with_newlines_append(a, b.drop_last());
        assert((a + b).drop_last() =~= a + b.drop_last());
        assert(with_newlines(a + b) =~= with_newlines(a) + with_newlines(b));
    }
}

proof fn lemma_first_delimiter_skip(ls: Seq<Seq<char>>, from: int, to: int)
    requires
        0 <= from <= to <= ls.len(),
        forall|k: int| from <= k < to ==> !is_delimiter(#[trigger] ls[k]),
    ensures
        first_delimiter(ls, from) == first_delimiter(ls, to),
    decreases to - from,
{
    if from < to {
        lemma_first_delimiter_skip(ls, from + 1, to);
    }
}

proof fn lemma_delimiter_is_delimiter()
    ensures
        is_delimiter(delimiter()),
{
    let d = delimiter();
    assert(!white_space(d[0]));
    assert(!white_space(d.last()));
}

/// Decoding an encoded note gives back the header text and the body lines,
/// for a header made of complete lines none of which is a delimiter.
pub proof fn lemma_frame_round_trip(header_lines: Seq<Seq<char>>, body: Seq<char>)
    requires
        forall|i: int| 0 <= i < header_lines.len() ==> plain_line(#[trigger] header_lines[i]),
    ensures
        front_matter_of(text_lines(framed(with_newlines(header_lines), body))) == Some(
            with_newlines(header_lines),
        ),
        body_of(text_lines(framed(with_newlines(header_lines), body))) == seq![Seq::<char>::empty()]
            + text_lines(body),
{
    let d = delimiter();
    let e = Seq::<char>::empty();
    let ys = header_lines;
    let m: int = ys.len() as int;
    let all = seq![d] + ys + seq![d, e];
    lemma_with_newlines_append(seq![d] + ys, seq![d, e]);
    lemma_with_newlines_append(seq![d], ys);
    assert(with_newlines(seq![d]) =~= d.push('\n')) by {
        assert(seq![d].drop_last() =~= Seq::<Seq<char>>::empty());
        assert(with_newlines(Seq::<Seq<char>>::empty()) =~= Seq::<char>::empty());
        assert(seq![d].last() == d);
    }
    assert(with_newlines(seq![d, e]) =~= d.push('\n').push('\n')) by {
        assert(seq![d, e].drop_last() =~= seq![d]);
        assert(seq![d, e].last() == e);
        assert(seq![d].drop_last() =~= Seq::<Seq<char>>::empty());
        assert(with_newlines(Seq::<Seq<char>>::empty()) =~= Seq::<char>::empty());
        assert(seq![d].last() == d);
        assert(e.push('\n') =~= seq!['\n']);
    }
    assert(framed(with_newlines(ys), body) =~= with_newlines(all) + body);
    lemma_delimiter_is_delimiter();
    assert forall|i: int| 0 <= i < all.len() implies !(#[trigger] all[i]).contains('\n')
        && strip_cr(all[i]) == all[i] by {
        if i == 0 || i == ys.len() + 1 {
            assert(all[i] == d);
            assert(!d.contains('\n')) by {
                if d.contains('\n') {
                    let k = choose|k: int| 0 <= k < d.len() && d[k] == '\n';
                }
            }
        } else if i == ys.len() + 2 {
            assert(all[i] == e);
        } else {
            assert(all[i] == ys[i - 1]);
            assert(plain_line(ys[i - 1]));
        }
    }
    lemma_lines_of_lines(all, body);
    let ls = all + text_lines(body);
    assert(ls[0] == d);
    assert(first_delimiter(ls, 0) == 0);
    assert forall|k: int| 1 <= k < ys.len() + 1 implies !is_delimiter(#[trigger] ls[k]) by {
        assert(ls[k] == ys[k - 1]);
        assert(plain_line(ys[k - 1]));
    }
    lemma_first_delimiter_skip(ls, 1, m + 1);
    assert(ls[m + 1] == d);
    assert(first_delimiter(ls, 1) == m + 1);
    assert(ls.subrange(1, m + 1) =~= ys);
    assert(ls.skip(m + 2) =~= seq![e] + text_lines(body));
}

} // verus!
