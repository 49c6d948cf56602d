//! Character-level helpers shared by the parser and the search driver.

use vstd::prelude::*;

verus! {

broadcast use vstd::string::group_string_axioms;

/// Unicode `White_Space` characters, the set that `char::is_whitespace` tests.
pub open spec fn is_ws(c: char) -> bool {
    ||| '\u{9}' <= c <= '\u{d}'
    ||| c == ' '
    ||| c == '\u{85}'
    ||| c == '\u{a0}'
    ||| c == '\u{1680}'
    ||| '\u{2000}' <= c <= '\u{200a}'
    ||| c == '\u{2028}'
    ||| c == '\u{2029}'
    ||| c == '\u{202f}'
    ||| c == '\u{205f}'
    ||| c == '\u{3000}'
}

pub fn is_whitespace(c: char) -> (r: bool)
    ensures
        r == is_ws(c),
{
    ('\u{9}' <= c && c <= '\u{d}') || c == ' ' || c == '\u{85}' || c == '\u{a0}' || c
        == '\u{1680}' || ('\u{2000}' <= c && c <= '\u{200a}') || c == '\u{2028}' || c
        == '\u{2029}' || c == '\u{202f}' || c == '\u{205f}' || c == '\u{3000}'
}

/// The characters of a string, in order.
pub fn chars_of(s: &str) -> (r: Vec<char>)
    ensures
        r@ == s@,
{
    let mut v: Vec<char> = Vec::new();
    for c in it: s.chars()
        invariant
            it.seq() == s@,
            v@ == it.seq().subrange(0, it.index() as int),
    {
        v.push(c);
    }
    v
}

/// Relies on `String::push`: appends one character.
#[verifier::external_body]
pub(crate) fn push_char(s: &mut String, c: char)
    ensures
        final(s)@ == old(s)@.push(c),
{
    s.push(c)
}

/// Relies on `String::push_str`: appends a string slice.
#[verifier::external_body]
pub(crate) fn push_str(s: &mut String, t: &str)
    ensures
        final(s)@ == old(s)@ + t@,
{
    s.push_str(t)
}

/// Whether two slices hold the same characters.
pub fn str_eq(a: &str, b: &str) -> (r: bool)
    ensures
        r == (a@ == b@),
{
    let x = chars_of(a);
    let y = chars_of(b);
    if x.len() != y.len() {
        return false;
    }
    let mut i: usize = 0;
    while i < x.len()
        invariant
            x@ == a@,
            y@ == b@,
            x@.len() == y@.len(),
            i <= x@.len(),
            forall|j: int| 0 <= j < i ==> x@[j] == y@[j],
        decreases x@.len() - i,
    {
        if x[i] != y[i] {
            return false;
        }
        i = i + 1;
    }
    assert(x@ =~= y@);
    true
}

/// A string holding the given characters.
pub fn string_of(cs: &[char]) -> (r: String)
    ensures
        r@ == cs@,
{
    let mut s = String::new();
    let mut i: usize = 0;
    while i < cs.len()
        invariant
            i <= cs@.len(),
            s@ == cs@.subrange(0, i as int),
        decreases cs@.len() - i,
    {
        push_char(&mut s, cs[i]);
        i = i + 1;
        assert(s@ == cs@.subrange(0, i as int));
    }
    s
}

} // verus!

verus! {

/// The pieces of the first `n` characters of `s`, cut at every newline.
pub open spec fn line_pieces(s: Seq<char>, n: int) -> Seq<Seq<char>>
    decreases n,
{
    if n <= 0 {
        seq![Seq::<char>::empty()]
    } else {
        let ps = line_pieces(s, n - 1);
        if s[n - 1] == '\n' {
            ps.push(Seq::<char>::empty())
        } else {
            ps.update(ps.len() - 1, ps.last().push(s[n - 1]))
        }
    }
}

/// A line ended by `\r\n` loses its carriage return too.
pub open spec fn strip_cr(p: Seq<char>) -> Seq<char> {
    if p.len() > 0 && p.last() == '\r' {
        p.drop_last()
    } else {
        p
    }
}

/// The lines of a text: cut at newlines, without their terminators; a final
/// newline does not start an empty line, and an empty text has no line.
pub open spec fn split_lines(s: Seq<char>) -> Seq<Seq<char>> {
    let ps = line_pieces(s, s.len() as int);
    let done = ps.drop_last().map_values(|p: Seq<char>| strip_cr(p));
    if ps.last().len() == 0 {
        done
    } else {
        done.push(ps.last())
    }
}

pub open spec fn string_seq_views(v: Seq<String>) -> Seq<Seq<char>> {
    v.map_values(|p: String| p@)
}

proof fn lemma_line_pieces_nonempty(s: Seq<char>, n: int)
    ensures
        line_pieces(s, n).len() >= 1,
    decreases n,
{
    if n > 0 {
        lemma_line_pieces_nonempty(s, n - 1);
    }
}

/// Split a text into lines.
pub fn read_to_lines(text: &str) -> (r: Vec<String>)
    ensures
        string_seq_views(r@) == split_lines(text@),
{
    let cs = chars_of(text);
    let ghost s = text@;
    let mut lines: Vec<String> = Vec::new();
    let mut start: usize = 0;
    let mut i: usize = 0;
    while i < cs.len()
        invariant
            cs@ == s,
            start <= i <= s.len(),
            line_pieces(s, i as int).last() == s.subrange(start as int, i as int),
            line_pieces(s, i as int).drop_last().map_values(|p: Seq<char>| strip_cr(p))
                == string_seq_views(lines@),
        decreases s.len() - i,
    {
        proof {
            lemma_line_pieces_nonempty(s, i as int);
        }
        let ghost ps = line_pieces(s, i as int);
        if cs[i] == '\n' {
            let end = if i > start && cs[i - 1] == '\r' {
                i - 1
            } else {
                i
            };
            let line = string_of(&cs.as_slice()[start..end]);
            let ghost l0 = lines@;
            lines.push(line);
            proof {
                let ps2 = line_pieces(s, i + 1);
                assert(ps2 == ps.push(Seq::<char>::empty()));
                assert(ps2.drop_last() == ps);
                assert(strip_cr(ps.last()) == s.subrange(start as int, end as int));
                assert(ps.drop_last().push(ps.last()) == ps);
                assert(ps.map_values(|p: Seq<char>| strip_cr(p)) =~= ps.drop_last().map_values(
                    |p: Seq<char>| strip_cr(p),
                ).push(strip_cr(ps.last())));
                assert(string_seq_views(lines@) =~= string_seq_views(l0).push(line@));
                assert(ps2.last() =~= s.subrange(i + 1, i + 1));
            }
            start = i + 1;
        } else {
            proof {
                let ps2 = line_pieces(s, i + 1);
                assert(ps2.drop_last() =~= ps.drop_last());
                assert(ps2.last() =~= s.subrange(start as int, i + 1));
            }
        }
        i = i + 1;
    }
    proof {
        lemma_line_pieces_nonempty(s, s.len() as int);
    }
    if start < cs.len() {
        let last = string_of(&cs.as_slice()[start..cs.len()]);
        lines.push(last);
        assert(string_seq_views(lines@) =~= split_lines(s));
    } else {
        assert(string_seq_views(lines@) =~= split_lines(s));
    }
    lines
}

pub open spec fn digit(d: nat) -> char {
    if d == 0 { '0' } else if d == 1 { '1' } else if d == 2 { '2' } else if d == 3 { '3' }
    else if d == 4 { '4' } else if d == 5 { '5' } else if d == 6 { '6' } else if d == 7 { '7' }
    else if d == 8 { '8' } else { '9' }
}

/// The decimal digits of `n`, without leading zeros.
pub open spec fn decimal(n: nat) -> Seq<char>
    decreases n,
{
    if n < 10 {
        seq![digit(n)]
    } else {
        decimal(n / 10).push(digit(n % 10))
    }
}

fn digit_char(d: usize) -> (c: char)
    requires
        d < 10,
    ensures
        c == digit(d as nat),
{
    if d == 0 { '0' } else if d == 1 { '1' } else if d == 2 { '2' } else if d == 3 { '3' }
    else if d == 4 { '4' } else if d == 5 { '5' } else if d == 6 { '6' } else if d == 7 { '7' }
    else if d == 8 { '8' } else { '9' }
}

/// Append the decimal form of `n`.
pub fn push_decimal(out: &mut String, n: usize)
    ensures
        final(out)@ == old(out)@ + decimal(n as nat),
    decreases n,
{
    if n >= 10 {
        push_decimal(out, n / 10);
    }
    push_char(out, digit_char(n % 10));
}

} // verus!
