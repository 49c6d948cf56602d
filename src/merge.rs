//! Combining the outputs of several sources: in input order, or merged by the
//! timestamps their lines carry.

use vstd::prelude::*;
use crate::config::{status_from, status_of, Config, ExitStatus, RunResult};
use crate::text::{chars_of, push_char, push_str, read_to_lines, split_lines, string_seq_views};

verus! {

pub open spec fn is_digit(c: char) -> bool {
    '0' <= c <= '9'
}

pub open spec fn dval(c: char) -> int {
    c as int - '0' as int
}

pub open spec fn num2(s: Seq<char>, i: int) -> int {
    dval(s[i]) * 10 + dval(s[i + 1])
}

pub open spec fn digits(s: Seq<char>, from: int, to: int) -> bool {
    forall|i: int| from <= i < to ==> #[trigger] is_digit(s[i])
}

/// A timestamp `YYYY-MM-DD[ T]HH:MM:SS` starts at position `p` of `s`.
pub open spec fn stamp_at(s: Seq<char>, p: int) -> bool {
    &&& 0 <= p && p + 19 <= s.len()
    &&& digits(s, p, p + 4)
    &&& s[p + 4] == '-'
    &&& digits(s, p + 5, p + 7)
    &&& s[p + 7] == '-'
    &&& digits(s, p + 8, p + 10)
    &&& (s[p + 10] == ' ' || s[p + 10] == 'T')
    &&& digits(s, p + 11, p + 13)
    &&& s[p + 13] == ':'
    &&& digits(s, p + 14, p + 16)
    &&& s[p + 16] == ':'
    &&& digits(s, p + 17, p + 19)
}

/// The leftmost position at or after `p` where a timestamp starts.
pub open spec fn first_stamp(s: Seq<char>, p: int) -> Option<int>
    decreases s.len() - p,
{
    if p < 0 || p + 19 > s.len() {
        None
    } else if stamp_at(s, p) {
        Some(p)
    } else {
        first_stamp(s, p + 1)
    }
}

/// Number of consecutive digits from `q`, at most `n`.
pub open spec fn digit_run(s: Seq<char>, q: int, n: nat) -> nat
    decreases n,
{
    if n == 0 || q < 0 || q >= s.len() || !is_digit(s[q]) {
        0
    } else {
        1 + digit_run(s, q + 1, (n - 1) as nat)
    }
}

/// The value of the digits `s[q..q + n]`.
pub open spec fn digits_value(s: Seq<char>, q: int, n: nat) -> int
    decreases n,
{
    if n == 0 {
        0
    } else {
        digits_value(s, q, (n - 1) as nat) * 10 + dval(s[q + n - 1])
    }
}

pub open spec fn pow10(n: nat) -> int
    decreases n,
{
    if n == 0 {
        1
    } else {
        10 * pow10((n - 1) as nat)
    }
}

/// Year, month, day, hour, minute, second and nanosecond of a line's stamp.
pub type Stamp = (i32, i32, i32, i32, i32, i32, i32);

/// The stamp that starts at `p`: the fraction after a `.` is read up to nine
/// digits and scaled to nanoseconds.
pub open spec fn stamp_value(s: Seq<char>, p: int) -> Stamp {
    let n = if p + 19 < s.len() && s[p + 19] == '.' {
        digit_run(s, p + 20, 9)
    } else {
        0
    };
    (
        (dval(s[p]) * 1000 + dval(s[p + 1]) * 100 + num2(s, p + 2)) as i32,
        num2(s, p + 5) as i32,
        num2(s, p + 8) as i32,
        num2(s, p + 11) as i32,
        num2(s, p + 14) as i32,
        num2(s, p + 17) as i32,
        (digits_value(s, p + 20, n) * pow10((9 - n) as nat)) as i32,
    )
}

/// The first `:` at or after position `i`.
pub open spec fn colon_from(s: Seq<char>, i: int) -> Option<int>
    decreases s.len() - i,
{
    if i < 0 || i >= s.len() {
        None
    } else if s[i] == ':' {
        Some(i)
    } else {
        colon_from(s, i + 1)
    }
}

/// The timestamp carried by a formatted line `N:content`: the leftmost one in
/// the content.
pub open spec fn line_stamp(line: Seq<char>) -> Option<Stamp> {
    match colon_from(line, 0) {
        None => None,
        Some(c) => {
            // the content of a formatted line `N:content`
            let content = line.subrange(c + 1, line.len() as int);
            match first_stamp(content, 0) {
                None => None,
                Some(p) => Some(stamp_value(content, p)),
            }
        },
    }
}


fn is_digit_char(c: char) -> (r: bool)
    ensures
        r == is_digit(c),
{
    '0' <= c && c <= '9'
}

fn digit_value(c: char) -> (r: i32)
    requires
        is_digit(c),
    ensures
        r as int == dval(c),
        0 <= r <= 9,
{
    (c as u32 - '0' as u32) as i32
}

fn stamp_starts(s: &Vec<char>, p: usize) -> (r: bool)
    requires
        p + 19 <= s@.len(),
    ensures
        r == stamp_at(s@, p as int),
{
    let len = s.len();
    let d = |i: usize| -> (b: bool)
        requires
            i < s@.len(),
        ensures
            b == is_digit(s@[i as int]),
        { is_digit_char(s[i]) };
    let r = d(p) && d(p + 1) && d(p + 2) && d(p + 3) && s[p + 4] == '-' && d(p + 5) && d(p + 6)
        && s[p + 7] == '-' && d(p + 8) && d(p + 9) && (s[p + 10] == ' ' || s[p + 10] == 'T') && d(
        p + 11,
    ) && d(p + 12) && s[p + 13] == ':' && d(p + 14) && d(p + 15) && s[p + 16] == ':' && d(p + 17)
        && d(p + 18);
    proof {
        let q = p as int;
        if r {
            assert(digits(s@, q, q + 4));
            assert(digits(s@, q + 5, q + 7));
            assert(digits(s@, q + 8, q + 10));
            assert(digits(s@, q + 11, q + 13));
            assert(digits(s@, q + 14, q + 16));
            assert(digits(s@, q + 17, q + 19));
        }
        if stamp_at(s@, q) {
            assert(is_digit(s@[q]) && is_digit(s@[q + 1]) && is_digit(s@[q + 2]) && is_digit(s@[q + 3]));
            assert(is_digit(s@[q + 5]) && is_digit(s@[q + 6]));
            assert(is_digit(s@[q + 8]) && is_digit(s@[q + 9]));
            assert(is_digit(s@[q + 11]) && is_digit(s@[q + 12]));
            assert(is_digit(s@[q + 14]) && is_digit(s@[q + 15]));
            assert(is_digit(s@[q + 17]) && is_digit(s@[q + 18]));
        }
    }
    r
}

proof fn lemma_pow10_9()
    ensures
        pow10(9) == 1000000000,
{
    reveal_with_fuel(pow10, 10);
}

proof fn lemma_pow10_mono(a: nat, b: nat)
    requires
        a <= b,
    ensures
        1 <= pow10(a) <= pow10(b),
    decreases b,
{
    if b > 0 {
        if a < b {
            lemma_pow10_mono(a, (b - 1) as nat);
        }
        lemma_pow10_mono(0, (b - 1) as nat);
    }
}

/// Parse the timestamp of a formatted line `N:content`.
pub fn parse_ts_from_formatted_line(line: &str) -> (r: Option<Stamp>)
    ensures
        r == line_stamp(line@),
        r matches Some(t) ==> stamp_in_range(t),
{
    let cs = chars_of(line);
    let mut c: usize = 0;
    while c < cs.len() && cs[c] != ':'
        invariant
            c <= cs@.len(),
            colon_from(cs@, 0) == colon_from(cs@, c as int),
        decreases cs@.len() - c,
    {
        c = c + 1;
    }
    if c == cs.len() {
        return None;
    }
    let mut content: Vec<char> = Vec::new();
    let mut i: usize = c + 1;
    while i < cs.len()
        invariant
            c < i <= cs@.len(),
            content@ == cs@.subrange(c + 1, i as int),
        decreases cs@.len() - i,
    {
        content.push(cs[i]);
        i = i + 1;
    }
    let ghost t = cs@.subrange(c + 1, cs@.len() as int);
    assert(content@ == t);
    let n = content.len();
    let mut p: usize = 0;
    while n >= 19 && p <= n - 19 && !stamp_starts(&content, p)
        invariant
            p <= n,
            n == t.len(),
            content@ == t,
            first_stamp(t, 0) == first_stamp(t, p as int),
        decreases n - p,
    {
        p = p + 1;
    }
    if n < 19 || p > n - 19 {
        return None;
    }
    let y = digit_value(content[p]) * 1000 + digit_value(content[p + 1]) * 100 + digit_value(
        content[p + 2],
    ) * 10 + digit_value(content[p + 3]);
    let mo = digit_value(content[p + 5]) * 10 + digit_value(content[p + 6]);
    let d = digit_value(content[p + 8]) * 10 + digit_value(content[p + 9]);
    let h = digit_value(content[p + 11]) * 10 + digit_value(content[p + 12]);
    let mi = digit_value(content[p + 14]) * 10 + digit_value(content[p + 15]);
    let sec = digit_value(content[p + 17]) * 10 + digit_value(content[p + 18]);
    let mut nf: usize = 0;
    let mut v: i32 = 0;
    if p + 19 < n && content[p + 19] == '.' {
        while nf < 9 && nf < n - (p + 20) && is_digit_char(content[p + 20 + nf])
            invariant
                n == t.len(),
                content@ == t,
                p + 20 <= n,
                nf <= 9,
                digit_run(t, p + 20, 9) == nf + digit_run(t, p + 20 + nf, (9 - nf) as nat),
                forall|j: int| p + 20 <= j < p + 20 + nf ==> #[trigger] is_digit(t[j]),
                v as int == digits_value(t, p + 20, nf as nat),
                0 <= v < pow10(nf as nat),
            decreases 9 - nf,
        {
            let dv = digit_value(content[p + 20 + nf]);
            proof {
                lemma_pow10_mono((nf + 1) as nat, 9);
                lemma_pow10_9();
                assert(v * 10 + dv < pow10(nf as nat) * 10) by (nonlinear_arith)
                    requires
                        v < pow10(nf as nat),
                        dv <= 9,
                ;
            }
            v = v * 10 + dv;
            nf = nf + 1;
        }
        assert(digit_run(t, p + 20 + nf, (9 - nf) as nat) == 0);
    }
    assert(pow10(0) == 1);
    assert(v * pow10(0) == v);
    let mut nanos: i32 = v;
    let mut k: usize = nf;
    while k < 9
        invariant
            nf <= k <= 9,
            nanos as int == v * pow10((k - nf) as nat),
            0 <= nanos < pow10(k as nat),
        decreases 9 - k,
    {
        proof {
            lemma_pow10_mono((k + 1) as nat, 9);
            lemma_pow10_9();
            assert(nanos * 10 < pow10(k as nat) * 10) by (nonlinear_arith)
                requires
                    nanos < pow10(k as nat),
            ;
            assert(v * pow10((k + 1 - nf) as nat) == v * pow10((k - nf) as nat) * 10) by (nonlinear_arith)
                requires
                    pow10((k + 1 - nf) as nat) == 10 * pow10((k - nf) as nat),
            ;
        }
        nanos = nanos * 10;
        k = k + 1;
    }
    proof {
        lemma_pow10_9();
    }
    Some((y, mo, d, h, mi, sec, nanos))
}

fn key_of(t: Stamp, f: usize, l: usize) -> (r: Key)
    requires
        stamp_in_range(t),
    ensures
        r == (stamp_key(Some(t)).0, stamp_key(Some(t)).1, f, l),
{
    let secs = (t.0 as u64) * 10000000000 + (t.1 as u64) * 100000000 + (t.2 as u64) * 1000000 + (
    t.3 as u64) * 10000 + (t.4 as u64) * 100 + (t.5 as u64);
    (secs, t.6 as u64, f, l)
}

} // verus!

verus! {

/// The ranges that the digits of a stamp allow.
pub open spec fn stamp_in_range(t: Stamp) -> bool {
    &&& 0 <= t.0 <= 9999
    &&& 0 <= t.1 <= 99
    &&& 0 <= t.2 <= 99
    &&& 0 <= t.3 <= 99
    &&& 0 <= t.4 <= 99
    &&& 0 <= t.5 <= 99
    &&& 0 <= t.6 < 1000000000
}

/// Sort key of a stamp: its date and time as one number, then its nanoseconds.
/// Both are ordered as the stamp's fields are, field by field.
pub open spec fn stamp_key(st: Option<Stamp>) -> (u64, u64) {
    match st {
        Some(t) => (
            (t.0 as int * 10000000000 + t.1 as int * 100000000 + t.2 as int * 1000000 + t.3 as int
                * 10000 + t.4 as int * 100 + t.5 as int) as u64,
            t.6 as u64,
        ),
        None => (0, 0),
    }
}

/// A merge key: stamp, then source index, then line index within the source.
pub type Key = (u64, u64, usize, usize);

pub open spec fn key_le(a: Key, b: Key) -> bool {
    ||| a.0 < b.0
    ||| a.0 == b.0 && a.1 < b.1
    ||| a.0 == b.0 && a.1 == b.1 && a.2 < b.2
    ||| a.0 == b.0 && a.1 == b.1 && a.2 == b.2 && a.3 <= b.3
}

pub open spec fn keys_sorted(ks: Seq<Key>) -> bool {
    forall|i: int, j: int| 0 <= i < j < ks.len() ==> key_le(ks[i], ks[j])
}

/// Relies on `slice::sort_unstable` with the lexicographic `Ord` of tuples:
/// the same keys, in ascending order.
#[verifier::external_body]
fn sort_keys(v: &mut Vec<Key>)
    ensures
        final(v)@.to_multiset() == old(v)@.to_multiset(),
        keys_sorted(final(v)@),
{
    v.sort_unstable()
}

/// Keys of the lines of source `f`.
pub open spec fn file_keys(f: int, lines: Seq<Seq<char>>) -> Seq<Key> {
    Seq::new(
        lines.len(),
        |l: int|
            (stamp_key(line_stamp(lines[l])).0, stamp_key(line_stamp(lines[l])).1, f as usize, l as usize),
    )
}

/// Keys of every output line of every source, sources in order.
pub open spec fn record_keys(outs: Seq<Seq<char>>) -> Seq<Key>
    decreases outs.len(),
{
    if outs.len() == 0 {
        Seq::empty()
    } else {
        record_keys(outs.drop_last()) + file_keys(outs.len() - 1, split_lines(outs.last()))
    }
}

/// Every output line of every source carries a timestamp.
pub open spec fn all_stamped(outs: Seq<Seq<char>>) -> bool {
    forall|f: int, l: int|
        0 <= f < outs.len() && 0 <= l < split_lines(outs[f]).len() ==> (#[trigger] line_stamp(
            split_lines(outs[f])[l],
        )) is Some
}

/// The lines named by `ks`, each ended by a newline.
pub open spec fn lines_of_keys(outs: Seq<Seq<char>>, ks: Seq<Key>) -> Seq<char>
    decreases ks.len(),
{
    if ks.len() == 0 {
        Seq::empty()
    } else {
        lines_of_keys(outs, ks.drop_last()) + split_lines(outs[ks.last().2 as int])[ks.last().3 as int].push(
            '\n',
        )
    }
}

/// `out` holds every output line of every source, ordered by timestamp, then
/// source, then line.
pub open spec fn is_chronological(outs: Seq<Seq<char>>, out: Seq<char>) -> bool {
    exists|ks: Seq<Key>|
        #![trigger lines_of_keys(outs, ks)]
        keys_sorted(ks) && ks.to_multiset() == record_keys(outs).to_multiset() && out
            == lines_of_keys(outs, ks)
}

pub open spec fn concat_all(outs: Seq<Seq<char>>) -> Seq<char>
    decreases outs.len(),
{
    if outs.len() == 0 {
        Seq::empty()
    } else {
        concat_all(outs.drop_last()) + outs.last()
    }
}

pub open spec fn views_of(v: Seq<String>) -> Seq<Seq<char>> {
    v.map_values(|s: String| s@)
}

/// Concatenate the outputs in input order.
proof fn lemma_record_keys_bounds(outs: Seq<Seq<char>>)
    requires
        outs.len() <= usize::MAX,
        forall|g: int| 0 <= g < outs.len() ==> #[trigger] split_lines(outs[g]).len() <= usize::MAX,
    ensures
        forall|i: int|
            0 <= i < record_keys(outs).len() ==> {
                let k = #[trigger] record_keys(outs)[i];
                &&& k.2 < outs.len()
                &&& k.3 < split_lines(outs[k.2 as int]).len()
            },
    decreases outs.len(),
{
    if outs.len() > 0 {
        let init = outs.drop_last();
        assert forall|g: int| 0 <= g < init.len() implies #[trigger] split_lines(init[g]).len() <= usize::MAX by {
            assert(init[g] == outs[g]);
        }
        lemma_record_keys_bounds(init);
        let rk = record_keys(outs);
        let fk = file_keys(outs.len() - 1, split_lines(outs.last()));
        assert forall|i: int| 0 <= i < rk.len() implies {
            let k = #[trigger] rk[i];
            &&& k.2 < outs.len()
            &&& k.3 < split_lines(outs[k.2 as int]).len()
        } by {
            if i < record_keys(init).len() {
                assert(rk[i] == record_keys(init)[i]);
                assert(init[rk[i].2 as int] == outs[rk[i].2 as int]);
            } else {
                assert(rk[i] == fk[i - record_keys(init).len()]);
                assert(split_lines(outs[outs.len() - 1]).len() <= usize::MAX);
            }
        }
    }
}

/// Merge the lines of all outputs by timestamp, when every line carries one
/// and there is at least one line.
pub fn merge_chronologically(outputs: &Vec<String>) -> (r: Option<String>)
    ensures
        r is Some <==> record_keys(views_of(outputs@)).len() > 0 && all_stamped(views_of(outputs@)),
        r matches Some(s) ==> is_chronological(views_of(outputs@), s@),
{
    broadcast use vstd::seq_lib::group_to_multiset_ensures;

    let ghost outs = views_of(outputs@);
    let mut per_file: Vec<Vec<String>> = Vec::new();
    let mut keys: Vec<Key> = Vec::new();
    let mut stamped = true;
    let mut f: usize = 0;
    while f < outputs.len()
        invariant
            outs == views_of(outputs@),
            f <= outputs@.len(),
            per_file@.len() == f,
            forall|g: int| 0 <= g < f ==> string_seq_views(#[trigger] per_file@[g]@) == split_lines(outs[g]),
            keys@ == record_keys(outs.subrange(0, f as int)),
            stamped == all_stamped(outs.subrange(0, f as int)),
            forall|g: int| 0 <= g < f ==> #[trigger] split_lines(outs[g]).len() <= usize::MAX,
        decreases outputs@.len() - f,
    {
        let lines = read_to_lines(outputs[f].as_str());
        let ghost ls = split_lines(outs[f as int]);
        let ghost k0 = keys@;
        let ghost stamped0 = stamped;
        let nl = lines.len();
        assert(ls.len() == nl);
        let mut l: usize = 0;
        while l < lines.len()
            invariant
                string_seq_views(lines@) == ls,
                keys@ == k0 + file_keys(f as int, ls).subrange(0, l as int),
                l <= lines@.len(),
                stamped == (stamped0 && forall|j: int| 0 <= j < l ==> (#[trigger] line_stamp(ls[j])) is Some),
            decreases lines@.len() - l,
        {
            assert(lines@[l as int]@ == ls[l as int]);
            let ts = parse_ts_from_formatted_line(lines[l].as_str());
            match ts {
                Some(t) => keys.push(key_of(t, f, l)),
                None => {
                    stamped = false;
                    keys.push((0, 0, f, l));
                },
            }
            assert(file_keys(f as int, ls).subrange(0, l + 1) =~= file_keys(f as int, ls).subrange(0, l as int).push(keys@.last()));
            l = l + 1;
        }
        per_file.push(lines);
        proof {
            let pre = outs.subrange(0, f as int);
            let nxt = outs.subrange(0, f + 1);
            assert(nxt.drop_last() == pre);
            assert(file_keys(f as int, ls).subrange(0, l as int) == file_keys(f as int, ls));
            assert(keys@ == record_keys(nxt));
            assert(stamped == all_stamped(nxt)) by {
                if stamped {
                    assert forall|g: int, j: int|
                        0 <= g < nxt.len() && 0 <= j < split_lines(nxt[g]).len() implies (#[trigger] line_stamp(
                        split_lines(nxt[g])[j])) is Some by {
                        if g < f {
                            assert(nxt[g] == pre[g]);
                        }
                    }
                } else if !stamped0 {
                    let (g, j) = choose|g: int, j: int|
                        0 <= g < pre.len() && 0 <= j < split_lines(pre[g]).len() && (#[trigger] line_stamp(
                        split_lines(pre[g])[j])) is None;
                    assert(nxt[g] == pre[g]);
                } else {
                    let j = choose|j: int| 0 <= j < l && (#[trigger] line_stamp(ls[j])) is None;
                    assert(nxt[f as int] == outs[f as int]);
                }
            }
            assert forall|g: int| 0 <= g < f + 1 implies string_seq_views(#[trigger] per_file@[g]@) == split_lines(outs[g]) by {}
        }
        f = f + 1;
    }
    assert(outs.subrange(0, f as int) == outs);
    if keys.len() == 0 || !stamped {
        return None;
    }
    let nf = outputs.len();
    assert(outs.len() == nf);
    let ghost k0 = keys@;
    sort_keys(&mut keys);
    proof {
        lemma_record_keys_bounds(outs);
    }
    let mut merged = String::new();
    let mut k: usize = 0;
    while k < keys.len()
        invariant
            outs == views_of(outputs@),
            per_file@.len() == outs.len(),
            forall|g: int| 0 <= g < outs.len() ==> string_seq_views(#[trigger] per_file@[g]@) == split_lines(outs[g]),
            keys@.to_multiset() == k0.to_multiset(),
            k0 == record_keys(outs),
            forall|i: int|
                0 <= i < record_keys(outs).len() ==> {
                    let x = #[trigger] record_keys(outs)[i];
                    &&& x.2 < outs.len()
                    &&& x.3 < split_lines(outs[x.2 as int]).len()
                },
            k <= keys@.len(),
            merged@ == lines_of_keys(outs, keys@.subrange(0, k as int)),
        decreases keys@.len() - k,
    {
        let key = keys[k];
        proof {
            assert(keys@.contains(key)) by {
                assert(keys@[k as int] == key);
            }
            keys@.to_multiset_ensures();
            k0.to_multiset_ensures();
            assert(keys@.to_multiset().count(key) > 0);
            assert(k0.to_multiset().count(key) > 0);
            assert(k0.contains(key));
            let i = choose|i: int| 0 <= i < k0.len() && k0[i] == key;
            assert(record_keys(outs)[i] == key);
        }
        let file = &per_file[key.2];
        assert(string_seq_views(file@) == split_lines(outs[key.2 as int]));
        let line = file[key.3].as_str();
        push_str(&mut merged, line);
        push_char(&mut merged, '\n');
        assert(keys@.subrange(0, k + 1).drop_last() == keys@.subrange(0, k as int));
        k = k + 1;
    }
    assert(keys@.subrange(0, k as int) == keys@);
    assert(is_chronological(outs, merged@));
    Some(merged)
}

pub fn concat_outputs(outputs: &Vec<String>) -> (r: String)
    ensures
        r@ == concat_all(views_of(outputs@)),
{
    let mut out = String::new();
    let mut i: usize = 0;
    while i < outputs.len()
        invariant
            i <= outputs@.len(),
            out@ == concat_all(views_of(outputs@.subrange(0, i as int))),
        decreases outputs@.len() - i,
    {
        push_str(&mut out, outputs[i].as_str());
        assert(views_of(outputs@.subrange(0, i + 1)).drop_last() =~= views_of(
            outputs@.subrange(0, i as int),
        ));
        i = i + 1;
    }
    assert(outputs@.subrange(0, i as int) =~= outputs@);
    out
}

} // verus!

verus! {

pub open spec fn any_err(rs: Seq<Result<RunResult, String>>) -> bool {
    exists|i: int| 0 <= i < rs.len() && (#[trigger] rs[i]) is Err
}

/// The messages of the failed sources, in input order.
pub open spec fn err_msgs(rs: Seq<Result<RunResult, String>>) -> Seq<Seq<char>>
    decreases rs.len(),
{
    if rs.len() == 0 {
        Seq::empty()
    } else {
        err_msgs(rs.drop_last()) + match rs.last() {
            Err(e) => seq![e@],
            Ok(_) => Seq::<Seq<char>>::empty(),
        }
    }
}

/// The outputs of the sources, in input order.
pub open spec fn out_views(rs: Seq<Result<RunResult, String>>) -> Seq<Seq<char>> {
    Seq::new(
        rs.len(),
        |i: int|
            match rs[i] {
                Ok(x) => x.output@,
                Err(_) => Seq::<char>::empty(),
            },
    )
}

/// The source was searched and something was selected.
pub open spec fn found(r: Result<RunResult, String>) -> bool {
    r matches Ok(x) && x.status == ExitStatus::MatchFound
}

pub open spec fn any_found(rs: Seq<Result<RunResult, String>>) -> bool {
    exists|i: int| 0 <= i < rs.len() && #[trigger] found(rs[i])
}

/// What the sources' outputs combine to: a chronological merge when every
/// line carries a timestamp, else the outputs one after another.
pub open spec fn combined(outs: Seq<Seq<char>>, out: Seq<char>) -> bool {
    if record_keys(outs).len() > 0 && all_stamped(outs) {
        is_chronological(outs, out)
    } else {
        out == concat_all(outs)
    }
}

/// Combine the results of searching several sources, given in input order.
/// Any failure fails the whole search with every message, one per line.
pub fn aggregate(cfg: &Config, results: Vec<Result<RunResult, String>>) -> (r: Result<RunResult, String>)
    ensures
        r is Err <==> any_err(results@),
        r matches Err(e) ==> e@ == crate::regex_utils::join_with(err_msgs(results@), '\n'),
        r matches Ok(res) ==> {
            &&& res.status == status_of(any_found(results@))
            &&& cfg.quiet ==> res.output@ == Seq::<char>::empty()
            &&& !cfg.quiet && cfg.count ==> res.output@ == concat_all(out_views(results@))
            &&& !cfg.quiet && !cfg.count ==> combined(out_views(results@), res.output@)
        },
{
    let mut matched_any = false;
    let mut errs: Vec<String> = Vec::new();
    let mut outputs: Vec<String> = Vec::new();
    let mut i: usize = 0;
    while i < results.len()
        invariant
            i <= results@.len(),
            crate::regex_utils::string_views(errs@) == err_msgs(results@.subrange(0, i as int)),
            errs@.len() == 0 <==> !any_err(results@.subrange(0, i as int)),
            !any_err(results@.subrange(0, i as int)) ==> views_of(outputs@) == out_views(
                results@.subrange(0, i as int),
            ),
            matched_any == any_found(results@.subrange(0, i as int)),
        decreases results@.len() - i,
    {
        let ghost pre = results@.subrange(0, i as int);
        let ghost nxt = results@.subrange(0, i + 1);
        proof {
            assert(nxt.drop_last() == pre);
            assert(nxt.last() == results@[i as int]);
        }
        let ghost outs0 = outputs@;
        match &results[i] {
            Ok(rr) => {
                assert(nxt[i as int] == Ok::<RunResult, String>(*rr));
                if rr.status == ExitStatus::MatchFound {
                    matched_any = true;
                    assert(found(nxt[i as int]));
                }
                outputs.push(rr.output.clone());
                proof {
                    if !any_err(nxt) {
                        assert(!any_err(pre)) by {
                            if any_err(pre) {
                                let j = choose|j: int| 0 <= j < pre.len() && (#[trigger] pre[j]) is Err;
                                assert(nxt[j] == pre[j]);
                            }
                        }
                        assert forall|j: int| 0 <= j < nxt.len() implies views_of(outputs@)[j] == out_views(nxt)[j] by {
                            if j < i {
                                assert(outputs@[j] == outs0[j]);
                                assert(views_of(outs0)[j] == out_views(pre)[j]);
                                assert(nxt[j] == pre[j]);
                            }
                        }
                    }
                }
            },
            Err(e) => {
                assert(nxt[i as int] == Err::<RunResult, String>(*e));
                errs.push(e.clone());
            },
        }
        proof {
            assert(err_msgs(nxt) =~= crate::regex_utils::string_views(errs@));
            if any_err(nxt) && !any_err(pre) {
                let j = choose|j: int| 0 <= j < nxt.len() && (#[trigger] nxt[j]) is Err;
                if j < i {
                    assert(pre[j] == nxt[j]);
                }
            }
            if any_err(pre) {
                let j = choose|j: int| 0 <= j < pre.len() && (#[trigger] pre[j]) is Err;
                assert(nxt[j] == pre[j]);
            }
            if !any_err(nxt) {
                assert(views_of(outputs@) =~= out_views(nxt));
            }
            if any_found(nxt) && !any_found(pre) {
                let j = choose|j: int| 0 <= j < nxt.len() && #[trigger] found(nxt[j]);
                if j < i {
                    assert(pre[j] == nxt[j]);
                }
            }
            if any_found(pre) {
                let j = choose|j: int| 0 <= j < pre.len() && #[trigger] found(pre[j]);
                assert(nxt[j] == pre[j]);
            }
        }
        i = i + 1;
    }
    assert(results@.subrange(0, i as int) == results@);
    if errs.len() > 0 {
        return Err(crate::regex_utils::join_strings(&errs, '\n'));
    }
    let status = status_from(matched_any);
    if cfg.quiet {
        return Ok(RunResult { output: String::new(), status });
    }
    if cfg.count {
        return Ok(RunResult { output: concat_outputs(&outputs), status });
    }
    let out = match merge_chronologically(&outputs) {
        Some(merged) => merged,
        None => concat_outputs(&outputs),
    };
    Ok(RunResult { output: out, status })
}

} // verus!
