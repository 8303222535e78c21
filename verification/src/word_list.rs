//! The word-list format: plain text, one entry per line, `term : translation`.
//!
//! A text is cut at a separator into pieces, each piece is trimmed, and the
//! empty ones are dropped. Cut at line feeds, this gives the lines of a file;
//! cut at colons, the fields of a line. A line is an entry when it has exactly
//! two fields. A carriage return is white space, so it never survives at the end
//! of a line.

use vstd::prelude::*;
use vstd::string::StrSliceExecFns;

verus! {

/// White space: the code points with the Unicode property `White_Space`.
pub open spec fn is_space(c: char) -> bool {
    let u = c as u32;
    ||| 0x09 <= u <= 0x0D
    ||| u == 0x20
    ||| u == 0x85
    ||| u == 0xA0
    ||| u == 0x1680
    ||| 0x2000 <= u <= 0x200A
    ||| u == 0x2028
    ||| u == 0x2029
    ||| u == 0x202F
    ||| u == 0x205F
    ||| u == 0x3000
}

/// `s` without the white space at its start.
pub open spec fn trim_start(s: Seq<char>) -> Seq<char>
    decreases s.len(),
{
    if s.len() > 0 && is_space(s[0]) {
        trim_start(s.drop_first())
    } else {
        s
    }
}

/// `s` without the white space at its end.
pub open spec fn trim_end(s: Seq<char>) -> Seq<char>
    decreases s.len(),
{
    if s.len() > 0 && is_space(s.last()) {
        trim_end(s.drop_last())
    } else {
        s
    }
}

/// `s` without the white space at either end.
pub open spec fn trim(s: Seq<char>) -> Seq<char> {
    trim_end(trim_start(s))
}

/// The pieces of `s` between the occurrences of `sep`, in order. There is one
/// piece more than there are separators: the empty text has one empty piece.
pub open spec fn split(s: Seq<char>, sep: char) -> Seq<Seq<char>>
    decreases s.len(),
{
    if s.len() == 0 {
        seq![Seq::empty()]
    } else {
        let before = split(s.drop_last(), sep);
        if s.last() == sep {
            before.push(Seq::empty())
        } else {
            before.drop_last().push(before.last().push(s.last()))
        }
    }
}

/// The pieces trimmed, without those that are empty after trimming.
pub open spec fn nonempty_trimmed(pieces: Seq<Seq<char>>) -> Seq<Seq<char>>
    decreases pieces.len(),
{
    if pieces.len() == 0 {
        Seq::empty()
    } else {
        let before = nonempty_trimmed(pieces.drop_last());
        let piece = trim(pieces.last());
        if piece.len() > 0 {
            before.push(piece)
        } else {
            before
        }
    }
}

/// The fields of `s`: its pieces between separators, trimmed, the empty ones
/// dropped.
pub open spec fn fields(s: Seq<char>, sep: char) -> Seq<Seq<char>> {
    nonempty_trimmed(split(s, sep))
}

/// The lines of a text that hold more than white space, each trimmed.
pub open spec fn lines_of(content: Seq<char>) -> Seq<Seq<char>> {
    fields(content, '\n')
}

/// The entry that a line holds: its term and its translation. A line is an
/// entry when it has exactly two fields between colons.
pub open spec fn entry_of_line(line: Seq<char>) -> Option<(Seq<char>, Seq<char>)> {
    let f = fields(line, ':');
    if f.len() == 2 {
        Some((f[0], f[1]))
    } else {
        None
    }
}

/// Every character of `s` is white space.
pub open spec fn all_space(s: Seq<char>) -> bool {
    forall|i: int| 0 <= i < s.len() ==> is_space(#[trigger] s[i])
}

/// The pieces put together again, with `sep` between each two.
pub open spec fn join(pieces: Seq<Seq<char>>, sep: char) -> Seq<char>
    decreases pieces.len(),
{
    if pieces.len() == 0 {
        Seq::empty()
    } else if pieces.len() == 1 {
        pieces[0]
    } else {
        join(pieces.drop_last(), sep).push(sep) + pieces.last()
    }
}

/// What is cut off at the start is white space, and what is left does not
/// start with white space. Gives what is cut off.
pub proof fn lemma_trim_start(s: Seq<char>) -> (cut: Seq<char>)
    ensures
        s == cut + trim_start(s),
        all_space(cut),
        trim_start(s).len() > 0 ==> !is_space(trim_start(s).first()),
    decreases s.len(),
{
    if s.len() > 0 && is_space(s[0]) {
        let rest = lemma_trim_start(s.drop_first());
        let cut = seq![s[0]] + rest;
        assert(s =~= seq![s[0]] + s.drop_first());
        assert(s =~= cut + trim_start(s));
        cut
    } else {
        assert(s =~= Seq::<char>::empty() + s);
        Seq::empty()
    }
}

/// What is cut off at the end is white space, and what is left does not end
/// with white space. Gives what is cut off.
pub proof fn lemma_trim_end(s: Seq<char>) -> (cut: Seq<char>)
    ensures
        s == trim_end(s) + cut,
        all_space(cut),
        trim_end(s).len() > 0 ==> !is_space(trim_end(s).last()),
    decreases s.len(),
{
    if s.len() > 0 && is_space(s.last()) {
        let rest = lemma_trim_end(s.drop_last());
        let cut = rest.push(s.last());
        assert(s =~= s.drop_last().push(s.last()));
        assert(s =~= trim_end(s) + cut);
        cut
    } else {
        assert(s =~= s + Seq::<char>::empty());
        Seq::empty()
    }
}

/// Trimming cuts white space off both ends and nothing else, and leaves a text
/// that neither starts nor ends with white space. Gives what is cut off at
/// the start and at the end.
pub proof fn lemma_trim(s: Seq<char>) -> (cut: (Seq<char>, Seq<char>))
    ensures
        s == cut.0 + trim(s) + cut.1,
        all_space(cut.0),
        all_space(cut.1),
        trim(s).len() > 0 ==> !is_space(trim(s).first()) && !is_space(trim(s).last()),
{
    let head = lemma_trim_start(s);
    let tail = lemma_trim_end(trim_start(s));
    assert(s =~= head + trim(s) + tail);
    if trim(s).len() > 0 {
        assert(trim(s).first() == (trim(s) + tail)[0]);
    }
    (head, tail)
}

/// Splitting loses nothing and cuts at every separator: no piece holds the
/// separator, and the pieces joined with it give the text back.
pub proof fn lemma_split(s: Seq<char>, sep: char)
    ensures
        split(s, sep).len() >= 1,
        forall|k: int|
            0 <= k < split(s, sep).len() ==> !(#[trigger] split(s, sep)[k]).contains(sep),
        join(split(s, sep), sep) == s,
    decreases s.len(),
{
    let r = split(s, sep);
    if s.len() == 0 {
        assert(r[0] =~= s);
    } else {
        let init = s.drop_last();
        let c = s.last();
        lemma_split(init, sep);
        let before = split(init, sep);
        assert(s =~= init.push(c));
        if c == sep {
            assert(r.drop_last() =~= before);
            assert(join(r, sep) =~= s);
            assert forall|k: int| 0 <= k < r.len() implies !(#[trigger] r[k]).contains(sep) by {
                if k < before.len() {
                    assert(r[k] == before[k]);
                }
            }
        } else {
            let piece = before.last().push(c);
            assert(r.last() == piece);
            assert(r.drop_last() =~= before.drop_last());
            if before.len() == 1 {
                assert(join(r, sep) =~= s);
            } else {
                assert(join(r, sep) =~= join(before, sep).push(c));
            }
            assert forall|k: int| 0 <= k < r.len() implies !(#[trigger] r[k]).contains(sep) by {
                if k < before.len() - 1 {
                    assert(r[k] == before[k]);
                } else {
                    assert(!before[before.len() - 1].contains(sep));
                    if piece.contains(sep) {
                        let i = choose|i: int| 0 <= i < piece.len() && piece[i] == sep;
                        assert(before.last()[i] == sep);
                    }
                }
            }
        }
    }
}

/// The texts that a sequence of strings holds.
pub open spec fn strings(v: Seq<String>) -> Seq<Seq<char>> {
    Seq::new(v.len(), |i: int| v[i]@)
}

pub fn is_space_char(c: char) -> (b: bool)
    ensures
        b == is_space(c),
{
    let u: u32 = c as u32;
    (0x09 <= u && u <= 0x0D) || u == 0x20 || u == 0x85 || u == 0xA0 || u == 0x1680 || (0x2000
        <= u && u <= 0x200A) || u == 0x2028 || u == 0x2029 || u == 0x202F || u == 0x205F || u
        == 0x3000
}

/// The characters of a string.
pub fn chars_of(s: &str) -> (v: Vec<char>)
    ensures
        v@ == s@,
{
    let mut v: Vec<char> = Vec::new();
    for c in it: s.chars()
        invariant
            it.seq() == s@,
            v@ == it.seq().take(it.index()),
    {
        v.push(c);
        assert(it.seq().take(it.index() + 1) =~= it.seq().take(it.index()).push(c));
    }
    assert(v@ =~= s@);
    v
}

/// The bounds of `text[from..to]` without the white space at either end.
pub fn trim_range(text: &Vec<char>, from: usize, to: usize) -> (r: (usize, usize))
    requires
        from <= to <= text.len(),
    ensures
        from <= r.0 <= r.1 <= to,
        text@.subrange(r.0 as int, r.1 as int) == trim(text@.subrange(from as int, to as int)),
{
    let mut a: usize = from;
    while a < to && is_space_char(text[a])
        invariant
            from <= a <= to <= text.len(),
            trim_start(text@.subrange(a as int, to as int)) == trim_start(
                text@.subrange(from as int, to as int),
            ),
        decreases to - a,
    {
        assert(text@.subrange(a as int, to as int).drop_first() =~= text@.subrange(
            a + 1,
            to as int,
        ));
        a += 1;
    }
    let mut b: usize = to;
    while b > a && is_space_char(text[b - 1])
        invariant
            a <= b <= to <= text.len(),
            trim_end(text@.subrange(a as int, b as int)) == trim_end(
                text@.subrange(a as int, to as int),
            ),
        decreases b - a,
    {
        assert(text@.subrange(a as int, b as int).drop_last() =~= text@.subrange(
            a as int,
            b - 1,
        ));
        b -= 1;
    }
    (a, b)
}

/// Trims `chars[from..to]` and, unless nothing is left, appends it to `out`.
fn push_field(s: &str, chars: &Vec<char>, from: usize, to: usize, out: &mut Vec<String>)
    requires
        chars@ == s@,
        from <= to <= chars.len(),
    ensures
        strings(final(out)@) == ({
            let piece = trim(chars@.subrange(from as int, to as int));
            if piece.len() > 0 {
                strings(old(out)@).push(piece)
            } else {
                strings(old(out)@)
            }
        }),
{
    let (a, b) = trim_range(chars, from, to);
    if a < b {
        let piece = s.substring_char(a, b).to_owned();
        out.push(piece);
        assert(strings(out@) =~= strings(old(out)@).push(piece@));
    }
}

/// Cuts `s` at each `sep`, trims the pieces and drops the empty ones.
pub fn fields_of(s: &str, sep: char) -> (out: Vec<String>)
    ensures
        strings(out@) == fields(s@, sep),
{
    let chars = chars_of(s);
    let n = chars.len();
    let mut out: Vec<String> = Vec::new();
    let ghost mut done: Seq<Seq<char>> = Seq::empty();
    let mut start: usize = 0;
    let mut i: usize = 0;
    assert(strings(out@) =~= nonempty_trimmed(done));
    assert(chars@.subrange(0, 0) =~= Seq::<char>::empty());
    assert(split(chars@.take(0), sep) =~= done.push(chars@.subrange(0, 0)));
    while i < n
        invariant
            chars@ == s@,
            n == chars.len(),
            start <= i <= n,
            split(chars@.take(i as int), sep) == done.push(
                chars@.subrange(start as int, i as int),
            ),
            strings(out@) == nonempty_trimmed(done),
        decreases n - i,
    {
        let ghost piece = chars@.subrange(start as int, i as int);
        assert(chars@.take(i + 1).drop_last() =~= chars@.take(i as int));
        assert(done.push(piece).drop_last() =~= done);
        if chars[i] == sep {
            push_field(s, &chars, start, i, &mut out);
            proof {
                done = done.push(piece);
            }
            start = i + 1;
            assert(chars@.subrange(start as int, i + 1) =~= Seq::<char>::empty());
        } else {
            assert(chars@.subrange(start as int, i + 1) =~= piece.push(chars@[i as int]));
        }
        i += 1;
    }
    assert(chars@.take(n as int) =~= chars@);
    assert(done.push(chars@.subrange(start as int, n as int)).drop_last() =~= done);
    push_field(s, &chars, start, n, &mut out);
    out
}

/// The lines of `content` that hold more than white space, each trimmed.
pub fn lines(content: &str) -> (out: Vec<String>)
    ensures
        strings(out@) == lines_of(content@),
{
    fields_of(content, '\n')
}

/// Reads one line of a word list. Gives the term and the translation, or
/// `None` for a line that is no entry.
pub fn parse_line(line: &str) -> (r: Option<(String, String)>)
    ensures
        match r {
            Some((term, translation)) => entry_of_line(line@) == Some((term@, translation@)),
            None => entry_of_line(line@) is None,
        },
{
    let f = fields_of(line, ':');
    if f.len() == 2 {
        assert(strings(f@)[0] == f@[0]@ && strings(f@)[1] == f@[1]@);
        Some((f[0].clone(), f[1].clone()))
    } else {
        assert(strings(f@).len() == f@.len());
        None
    }
}

} // verus!
