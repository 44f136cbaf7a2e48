//! Sizing decisions of the model manager: inference threads, and the
//! resident memory read from the process status.

use vstd::prelude::*;

use crate::text::{chars_of, is_whitespace, char_is_whitespace, split_lines, text_lines};

verus! {

/// Inference threads for a machine with `cores` logical cores (four when
/// unknown): three quarters of them, at least one and at most sixteen.
pub open spec fn optimal_threads(cores: Option<u32>) -> u32 {
    let c: int = match cores {
        Some(n) => n as int,
        None => 4,
    };
    let t = (c * 3) / 4;
    if t < 1 { 1 } else if t > 16 { 16 } else { t as u32 }
}

/// Inference threads for a machine with `cores` logical cores.
pub fn get_optimal_thread_count(cores: Option<u32>) -> (t: u32)
    requires
        cores matches Some(n) ==> n <= 0x5555_5555,
    ensures
        t == optimal_threads(cores),
{
    let logical_cores = match cores {
        Some(n) => n,
        None => 4,
    };
    let optimal = (logical_cores * 3) / 4;
    if optimal < 1 {
        1
    } else if optimal > 16 {
        16
    } else {
        optimal
    }
}

/// The value of a decimal digit.
pub open spec fn digit_value(c: char) -> int {
    if c == '0' { 0 } else if c == '1' { 1 } else if c == '2' { 2 } else if c == '3' { 3 }
    else if c == '4' { 4 } else if c == '5' { 5 } else if c == '6' { 6 } else if c == '7' { 7 }
    else if c == '8' { 8 } else { 9 }
}

/// Whether a character is an ASCII decimal digit, `0` to `9`.
pub open spec fn is_digit(c: char) -> bool {
    c == '0' || c == '1' || c == '2' || c == '3' || c == '4' || c == '5' || c == '6' || c == '7'
        || c == '8' || c == '9'
}

fn digit_of(c: char) -> (r: Option<u64>)
    ensures
        is_digit(c) ==> r == Some(digit_value(c) as u64),
        !is_digit(c) ==> r is None,
{
    if c == '0' { Some(0) } else if c == '1' { Some(1) } else if c == '2' { Some(2) } else if c == '3' { Some(3) }
    else if c == '4' { Some(4) } else if c == '5' { Some(5) } else if c == '6' { Some(6) } else if c == '7' { Some(7) }
    else if c == '8' { Some(8) } else if c == '9' { Some(9) } else { None }
}

/// The number the digits `d` write.
pub open spec fn digits_value(d: Seq<char>) -> int
    decreases d.len(),
{
    if d.len() == 0 {
        0
    } else {
        digits_value(d.drop_last()) * 10 + digit_value(d.last())
    }
}

/// The number a text writes as `u64::from_str` reads it: an optional `+`,
/// then one or more decimal digits, no larger than `u64::MAX`.
pub open spec fn parsed_u64(t: Seq<char>) -> Option<u64> {
    parsed_digits(unsigned_part(t))
}

/// A text without its leading `+`, if it has one.
pub open spec fn unsigned_part(t: Seq<char>) -> Seq<char> {
    if t.len() > 0 && t[0] == '+' { t.drop_first() } else { t }
}

/// The number one or more decimal digits write, when it fits in a `u64`.
pub open spec fn parsed_digits(d: Seq<char>) -> Option<u64> {
    if d.len() > 0 && (forall|i: int| 0 <= i < d.len() ==> #[trigger] is_digit(d[i])) && digits_value(d) <= u64::MAX {
        Some(digits_value(d) as u64)
    } else {
        None
    }
}

proof fn lemma_digits_nonneg(d: Seq<char>)
    requires
        forall|i: int| 0 <= i < d.len() ==> #[trigger] is_digit(d[i]),
    ensures
        digits_value(d) >= 0,
    decreases d.len(),
{
    if d.len() > 0 {
        assert(is_digit(d[d.len() - 1]));
        assert forall|i: int| 0 <= i < d.drop_last().len() implies #[trigger] is_digit(d.drop_last()[i]) by {
            assert(is_digit(d[i]));
        }
        lemma_digits_nonneg(d.drop_last());
    }
}

proof fn lemma_digits_grow(d: Seq<char>, k: int)
    requires
        0 <= k <= d.len(),
        forall|i: int| 0 <= i < d.len() ==> #[trigger] is_digit(d[i]),
    ensures
        digits_value(d.take(k)) <= digits_value(d),
    decreases d.len() - k,
{
    if k < d.len() {
        assert(d.drop_last().take(k) =~= d.take(k));
        assert(is_digit(d[d.len() - 1]));
        assert forall|i: int| 0 <= i < d.drop_last().len() implies #[trigger] is_digit(d.drop_last()[i]) by {
            assert(is_digit(d[i]));
        }
        lemma_digits_grow(d.drop_last(), k);
        lemma_digits_nonneg(d.drop_last());
        assert(digits_value(d) == digits_value(d.drop_last()) * 10 + digit_value(d.last()));
        assert(digits_value(d.drop_last()) * 10 >= digits_value(d.drop_last())) by (nonlinear_arith)
            requires digits_value(d.drop_last()) >= 0;
    } else {
        assert(d.take(k) =~= d);
    }
}

/// Read a number as `u64::from_str` does.
pub fn parse_u64(t: &str) -> (r: Option<u64>)
    ensures
        r == parsed_u64(t@),
{
    let cs = chars_of(t);
    let n = cs.len();
    let start: usize = if n > 0 && cs[0] == '+' { 1 } else { 0 };
    let ghost d = unsigned_part(t@);
    assert(d =~= cs@.skip(start as int));
    if start >= n {
        return None;
    }
    let mut value: u64 = 0;
    let mut i: usize = start;
    while i < n
        invariant
            n == cs@.len(),
            cs@ == t@,
            start <= i <= n,
            d == cs@.skip(start as int),
            d == unsigned_part(t@),
            d.len() > 0,
            forall|k: int| 0 <= k < i - start ==> #[trigger] is_digit(d[k]),
            value as int == digits_value(d.take(i - start)),
        decreases n - i,
    {
        let c = cs[i];
        assert(d[i - start] == c);
        let v = match digit_of(c) {
            Some(v) => v,
            None => {
                assert(!is_digit(d[i - start]));
                return None;
            },
        };
        assert(d.take(i - start + 1).drop_last() =~= d.take(i - start));
        assert(d.take(i - start + 1).last() == c);
        if value > (u64::MAX - v) / 10 {
            proof {
                assert forall|k: int| 0 <= k < i - start + 1 implies #[trigger] is_digit(d.take(i - start + 1)[k]) by {
                    assert(d.take(i - start + 1)[k] == d[k]);
                    if k < i - start {
                        assert(is_digit(d[k]));
                    } else {
                        assert(d[k] == c);
                    }
                }
                assert(digits_value(d.take(i - start + 1)) == value * 10 + v);
                assert(value * 10 + v > u64::MAX) by (nonlinear_arith)
                    requires
                        value > (u64::MAX - v) / 10,
                        v <= 9,
                {}
                if forall|k: int| 0 <= k < d.len() ==> #[trigger] is_digit(d[k]) {
                    lemma_digits_grow(d, i - start + 1);
                }
            }
            return None;
        }
        proof {
            assert(value * 10 + v <= u64::MAX) by (nonlinear_arith)
                requires
                    value <= (u64::MAX - v) / 10,
                    v <= 9,
            {}
        }
        value = value * 10 + v;
        i = i + 1;
    }
    assert(d.take(n - start) =~= d);
    Some(value)
}

/// The whitespace-separated words of a text, in order.
pub open spec fn words_scan(s: Seq<char>, i: int, cur: Seq<char>, acc: Seq<Seq<char>>) -> Seq<Seq<char>>
    decreases s.len() - i,
{
    if i < 0 || i >= s.len() {
        if cur.len() > 0 { acc.push(cur) } else { acc }
    } else if is_whitespace(s[i]) {
        words_scan(s, i + 1, Seq::empty(), if cur.len() > 0 { acc.push(cur) } else { acc })
    } else {
        words_scan(s, i + 1, cur.push(s[i]), acc)
    }
}

/// The words of a text, as `str::split_whitespace` gives them.
pub open spec fn words(s: Seq<char>) -> Seq<Seq<char>> {
    words_scan(s, 0, Seq::empty(), Seq::empty())
}

/// The words of a text.
pub fn split_words(s: &str) -> (w: Vec<Vec<char>>)
    ensures
        w@.map_values(|x: Vec<char>| x@) == words(s@),
{
    let cs = chars_of(s);
    let n = cs.len();
    let mut w: Vec<Vec<char>> = Vec::new();
    let mut cur: Vec<char> = Vec::new();
    let mut i: usize = 0;
    assert(w@.map_values(|x: Vec<char>| x@) =~= Seq::<Seq<char>>::empty());
    assert(cur@ =~= Seq::<char>::empty());
    while i < n
        invariant
            n == cs@.len(),
            cs@ == s@,
            i <= n,
            words(s@) == words_scan(s@, i as int, cur@, w@.map_values(|x: Vec<char>| x@)),
        decreases n - i,
    {
        let c = cs[i];
        if char_is_whitespace(c) {
            if cur.len() > 0 {
                let ghost before = w@.map_values(|x: Vec<char>| x@);
                let ghost word = cur@;
                w.push(cur);
                assert(w@.map_values(|x: Vec<char>| x@) =~= before.push(word));
                cur = Vec::new();
            } else {
                cur = Vec::new();
            }
            assert(cur@ =~= Seq::<char>::empty());
        } else {
            cur.push(c);
        }
        i = i + 1;
    }
    if cur.len() > 0 {
        let ghost before = w@.map_values(|x: Vec<char>| x@);
        let ghost word = cur@;
        w.push(cur);
        assert(w@.map_values(|x: Vec<char>| x@) =~= before.push(word));
    }
    w
}

/// Whether a line starts with `VmRSS:`.
pub open spec fn is_rss_line(line: Seq<char>) -> bool {
    line.len() >= 6 && line.subrange(0, 6) == "VmRSS:"@
}

/// The resident memory, in megabytes, that the first readable `VmRSS:`
/// line of a process status gives in kilobytes; zero when none does.
pub open spec fn rss_megabytes(lines: Seq<Seq<char>>) -> u64
    decreases lines.len(),
{
    if lines.len() == 0 {
        0
    } else {
        let ws = words(lines[0]);
        if is_rss_line(lines[0]) && ws.len() >= 2 && parsed_u64(ws[1]) is Some {
            (parsed_u64(ws[1])->0 / 1024) as u64
        } else {
            rss_megabytes(lines.drop_first())
        }
    }
}

fn starts_with_rss(line: &str) -> (b: bool)
    ensures
        b == is_rss_line(line@),
{
    let cs = chars_of(line);
    proof { reveal_strlit("VmRSS:"); }
    if cs.len() < 6 {
        return false;
    }
    let r = cs[0] == 'V' && cs[1] == 'm' && cs[2] == 'R' && cs[3] == 'S' && cs[4] == 'S' && cs[5] == ':';
    if r {
        assert(line@.subrange(0, 6) =~= "VmRSS:"@);
    } else {
        assert(line@.subrange(0, 6)[0] == cs@[0]);
        assert(line@.subrange(0, 6)[1] == cs@[1]);
        assert(line@.subrange(0, 6)[2] == cs@[2]);
        assert(line@.subrange(0, 6)[3] == cs@[3]);
        assert(line@.subrange(0, 6)[4] == cs@[4]);
        assert(line@.subrange(0, 6)[5] == cs@[5]);
    }
    r
}

fn chars_to_string(v: &Vec<char>) -> (s: String)
    ensures
        s@ == v@,
{
    let mut s = String::new();
    let n = v.len();
    let mut i: usize = 0;
    while i < n
        invariant
            n == v@.len(),
            i <= n,
            s@ == v@.take(i as int),
        decreases n - i,
    {
        crate::text::push_char(&mut s, v[i]);
        assert(v@.take(i + 1) =~= v@.take(i as int).push(v@[i as int]));
        i = i + 1;
    }
    assert(v@.take(n as int) =~= v@);
    s
}

/// The resident memory, in megabytes, given the text of the process status.
pub fn process_memory_mb(status: &str) -> (mb: u64)
    ensures
        mb == rss_megabytes(split_lines(status@)),
{
    let lines = text_lines(status);
    let ghost views = lines@.map_values(|l: String| l@);
    let n = lines.len();
    let mut i: usize = 0;
    assert(views.skip(0) =~= views);
    while i < n
        invariant
            n == lines@.len(),
            views == lines@.map_values(|l: String| l@),
            views == split_lines(status@),
            i <= n,
            rss_megabytes(views) == rss_megabytes(views.skip(i as int)),
        decreases n - i,
    {
        assert(views.skip(i as int).drop_first() =~= views.skip(i + 1));
        assert(views.skip(i as int)[0] == lines@[i as int]@);
        let line = lines[i].as_str();
        if starts_with_rss(line) {
            let parts = split_words(line);
            if parts.len() >= 2 {
                let word = chars_to_string(&parts[1]);
                match parse_u64(word.as_str()) {
                    Some(kb) => {
                        return kb / 1024;
                    },
                    None => {},
                }
            }
        }
        i = i + 1;
    }
    assert(views.skip(n as int) =~= Seq::<Seq<char>>::empty());
    0
}

} // verus!
