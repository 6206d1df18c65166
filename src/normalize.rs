//! Normalisation of raw attribute values of the form `(type 0xTT) 0xVVVVVVVV`.
use vstd::prelude::*;
use crate::text::{
    chars_of, contains, contains_exec, decimal, occurs_at, occurs_at_exec, push_decimal, text_of,
};

verus! {

/// White space in the sense of Unicode's `White_Space` property.
pub open spec fn is_space(c: char) -> bool {
    ('\t' <= c && c <= '\r') || c == ' ' || c == '\u{85}' || c == '\u{a0}' || c == '\u{1680}'
        || ('\u{2000}' <= c && c <= '\u{200a}') || c == '\u{2028}' || c == '\u{2029}'
        || c == '\u{202f}' || c == '\u{205f}' || c == '\u{3000}'
}

/// `s` without its leading white space.
pub open spec fn trim_start(s: Seq<char>) -> Seq<char>
    decreases s.len(),
{
    if s.len() > 0 && is_space(s[0]) {
        trim_start(s.drop_first())
    } else {
        s
    }
}

/// `s` without its trailing white space.
pub open spec fn trim_end(s: Seq<char>) -> Seq<char>
    decreases s.len(),
{
    if s.len() > 0 && is_space(s.last()) {
        trim_end(s.drop_last())
    } else {
        s
    }
}

/// `s` without leading and trailing white space.
pub open spec fn trim(s: Seq<char>) -> Seq<char> {
    trim_end(trim_start(s))
}

pub open spec fn is_hex_digit(c: char) -> bool {
    ('0' <= c && c <= '9') || ('a' <= c && c <= 'f') || ('A' <= c && c <= 'F')
}

/// The value of a hexadecimal digit.
pub open spec fn hex_val(c: char) -> nat {
    if '0' <= c && c <= '9' {
        (c as u32 - '0' as u32) as nat
    } else if 'a' <= c && c <= 'f' {
        (c as u32 - 'a' as u32 + 10) as nat
    } else if 'A' <= c && c <= 'F' {
        (c as u32 - 'A' as u32 + 10) as nat
    } else {
        0
    }
}

/// The number that a sequence of hexadecimal digits denotes.
pub open spec fn hex_value(d: Seq<char>) -> nat
    decreases d.len(),
{
    if d.len() == 0 {
        0
    } else {
        hex_value(d.drop_last()) * 16 + hex_val(d.last())
    }
}

/// The digits of a number text, after an optional `+` that is not the whole text.
pub open spec fn unsigned_digits(t: Seq<char>) -> Seq<char> {
    if t.len() > 1 && t[0] == '+' {
        t.drop_first()
    } else {
        t
    }
}

/// The unsigned 32-bit number that `t` writes in base 16, if it writes one:
/// one or more hexadecimal digits, optionally after `+`, worth less than 2^32.
pub open spec fn hex_number(t: Seq<char>) -> Option<u32> {
    let d = unsigned_digits(t);
    if d.len() > 0 && (forall|i: int| 0 <= i < d.len() ==> is_hex_digit(#[trigger] d[i]))
        && hex_value(d) <= u32::MAX {
        Some(hex_value(d) as u32)
    } else {
        None
    }
}

pub open spec fn hex_mark() -> Seq<char> {
    seq!['0', 'x']
}

pub open spec fn raw_marker() -> Seq<char> {
    seq!['(', 't', 'y', 'p', 'e', ' ', '0', 'x']
}

/// The last position at or before `n` where `0x` occurs in `s`, or -1.
pub open spec fn last_mark(s: Seq<char>, n: int) -> int
    decreases n + 1,
{
    if n < 0 {
        -1
    } else if occurs_at(s, hex_mark(), n) {
        n
    } else {
        last_mark(s, n - 1)
    }
}

/// A raw value holds `(type 0x`; its number is what follows the last `0x`,
/// trimmed, read in base 16. A raw value whose number reads is replaced by the
/// number in decimal; every other value is kept.
pub open spec fn normalized(s: Seq<char>) -> Seq<char> {
    if contains(s, raw_marker()) && contains(s, hex_mark()) {
        let tail = s.subrange(last_mark(s, s.len() as int) + 2, s.len() as int);
        match hex_number(trim(tail)) {
            Some(v) => decimal(v as nat),
            None => s,
        }
    } else {
        s
    }
}

proof fn lemma_last_mark_found(s: Seq<char>, n: int, i: int)
    requires
        i <= n,
        occurs_at(s, hex_mark(), i),
    ensures
        i <= last_mark(s, n) <= n,
        occurs_at(s, hex_mark(), last_mark(s, n)),
    decreases n + 1,
{
    if n >= 0 && !occurs_at(s, hex_mark(), n) {
        lemma_last_mark_found(s, n - 1, i);
    }
}

proof fn lemma_hex_prefix_le(d: Seq<char>, i: int)
    requires
        0 <= i <= d.len(),
    ensures
        hex_value(d.subrange(0, i)) <= hex_value(d),
    decreases d.len(),
{
    if i < d.len() {
        lemma_hex_prefix_le(d.drop_last(), i);
        assert(d.drop_last().subrange(0, i) =~= d.subrange(0, i));
    } else {
        assert(d.subrange(0, i) =~= d);
    }
}

proof fn lemma_decimal_digits(n: nat)
    ensures
        forall|i: int| 0 <= i < decimal(n).len() ==> '0' <= #[trigger] decimal(n)[i] <= '9',
    decreases n,
{
    if n >= 10 {
        lemma_decimal_digits(n / 10);
        let s = decimal(n / 10);
        assert forall|i: int| 0 <= i < decimal(n).len() implies '0' <= #[trigger] decimal(n)[i]
            <= '9' by {
            if i < s.len() {
                assert(decimal(n)[i] == s[i]);
            }
        }
    }
}

/// A text made of decimal digits only is its own normal form.
pub proof fn lemma_digits_unchanged(s: Seq<char>)
    requires
        forall|i: int| 0 <= i < s.len() ==> '0' <= #[trigger] s[i] <= '9',
    ensures
        normalized(s) == s,
{
    if contains(s, raw_marker()) {
        let i = choose|i: int| occurs_at(s, raw_marker(), i);
        assert(s.subrange(i, i + 8)[0] == s[i]);
    }
}

/// Normalising twice gives what normalising once gives.
pub proof fn lemma_normalize_idempotent(s: Seq<char>)
    ensures
        normalized(normalized(s)) == normalized(s),
{
    let r = normalized(s);
    if r != s {
        let tail = s.subrange(last_mark(s, s.len() as int) + 2, s.len() as int);
        let v = hex_number(trim(tail))->Some_0;
        lemma_decimal_digits(v as nat);
        lemma_digits_unchanged(r);
    }
}

fn is_space_exec(c: char) -> (r: bool)
    ensures
        r == is_space(c),
{
    ('\t' <= c && c <= '\r') || c == ' ' || c == '\u{85}' || c == '\u{a0}' || c == '\u{1680}'
        || ('\u{2000}' <= c && c <= '\u{200a}') || c == '\u{2028}' || c == '\u{2029}'
        || c == '\u{202f}' || c == '\u{205f}' || c == '\u{3000}'
}

fn trim_exec(s: Vec<char>) -> (r: Vec<char>)
    ensures
        r@ == trim(s@),
{
    let mut t = s;
    while t.len() > 0 && is_space_exec(t[0])
        invariant
            trim_start(t@) == trim_start(s@),
        decreases t@.len(),
    {
        let ghost before = t@;
        t.remove(0);
        assert(t@ =~= before.drop_first());
    }
    assert(trim_start(t@) == t@);
    let ghost start = t@;
    while t.len() > 0 && is_space_exec(t[t.len() - 1])
        invariant
            trim_start(s@) == start,
            trim_end(t@) == trim_end(start),
        decreases t@.len(),
    {
        let ghost before = t@;
        t.pop();
        assert(t@ =~= before.drop_last());
    }
    t
}

fn hex_val_exec(c: char) -> (r: u64)
    requires
        is_hex_digit(c),
    ensures
        r == hex_val(c),
        r < 16,
{
    if '0' <= c && c <= '9' {
        (c as u32 - '0' as u32) as u64
    } else if 'a' <= c && c <= 'f' {
        (c as u32 - 'a' as u32 + 10) as u64
    } else {
        (c as u32 - 'A' as u32 + 10) as u64
    }
}

/// Reads `t` as an unsigned 32-bit number in base 16, as `u32::from_str_radix`
/// does with radix 16.
pub fn parse_hex_u32(t: &Vec<char>) -> (r: Option<u32>)
    ensures
        r == hex_number(t@),
{
    let start: usize = if t.len() > 1 && t[0] == '+' { 1 } else { 0 };
    let ghost d = unsigned_digits(t@);
    assert(d =~= t@.subrange(start as int, t@.len() as int));
    if start >= t.len() {
        return None;
    }
    let mut acc: u64 = 0;
    let mut i: usize = start;
    while i < t.len()
        invariant
            start <= i <= t@.len(),
            d == unsigned_digits(t@),
            d == t@.subrange(start as int, t@.len() as int),
            acc == hex_value(d.subrange(0, i - start)),
            acc <= u32::MAX,
            forall|k: int| 0 <= k < i - start ==> is_hex_digit(#[trigger] d[k]),
        decreases t@.len() - i,
    {
        let c = t[i];
        if !is_hex_digit_exec(c) {
            assert(d[i - start] == c);
            assert(!is_hex_digit(d[i - start]));
            assert(hex_number(t@) is None);
            return None;
        }
        let v = hex_val_exec(c);
        let ghost pre = d.subrange(0, i - start);
        let ghost next = d.subrange(0, i + 1 - start);
        assert(next.drop_last() =~= pre);
        assert(next.last() == c);
        assert(hex_value(next) == hex_value(pre) * 16 + hex_val(c));
        acc = acc * 16 + v;
        if acc > 0xffff_ffff {
            proof {
                lemma_hex_prefix_le(d, i + 1 - start);
            }
            assert(hex_value(d) > u32::MAX);
            assert(hex_number(t@) is None);
            return None;
        }
        i += 1;
    }
    assert(d.subrange(0, i - start) =~= d);
    Some(acc as u32)
}

fn is_hex_digit_exec(c: char) -> (r: bool)
    ensures
        r == is_hex_digit(c),
{
    ('0' <= c && c <= '9') || ('a' <= c && c <= 'f') || ('A' <= c && c <= 'F')
}

fn last_mark_exec(s: &Vec<char>) -> (r: Option<usize>)
    ensures
        match r {
            Some(p) => p == last_mark(s@, s@.len() as int),
            None => last_mark(s@, s@.len() as int) == -1,
        },
{
    let mark = vec!['0', 'x'];
    assert(mark@ =~= hex_mark());
    let mut i: usize = s.len();
    loop
        invariant
            i <= s@.len(),
            mark@ == hex_mark(),
            last_mark(s@, s@.len() as int) == last_mark(s@, i as int),
        decreases i,
    {
        if occurs_at_exec(s, &mark, i) {
            return Some(i);
        }
        if i == 0 {
            assert(last_mark(s@, -1) == -1);
            return None;
        }
        i -= 1;
    }
}

/// Rewrites a raw `(type 0x..) 0x..` attribute value into the decimal text of
/// the number after its last `0x`; any other value, and a raw value whose
/// number does not read as an unsigned 32-bit hexadecimal, is returned as it is.
pub fn clean_attr_value(value: &str) -> (r: String)
    ensures
        r@ == normalized(value@),
{
    let s = chars_of(value);
    let sl = s.len();
    let marker = vec!['(', 't', 'y', 'p', 'e', ' ', '0', 'x'];
    let mark = vec!['0', 'x'];
    assert(marker@ =~= raw_marker());
    assert(mark@ =~= hex_mark());
    if contains_exec(&s, &marker) && contains_exec(&s, &mark) {
        proof {
            let i = choose|i: int| occurs_at(s@, hex_mark(), i);
            lemma_last_mark_found(s@, s@.len() as int, i);
        }
        if let Some(pos) = last_mark_exec(&s) {
            assert(pos + 2 <= sl);
            let mut tail: Vec<char> = Vec::new();
            let mut j: usize = pos + 2;
            while j < s.len()
                invariant
                    pos + 2 <= j <= s@.len(),
                    tail@ == s@.subrange(pos + 2, j as int),
                decreases s@.len() - j,
            {
                tail.push(s[j]);
                j += 1;
            }
            let t = trim_exec(tail);
            if let Some(v) = parse_hex_u32(&t) {
                let mut out: Vec<char> = Vec::new();
                push_decimal(&mut out, v as u64);
                assert(out@ =~= decimal(v as nat));
                return text_of(&out);
            }
        }
    }
    String::from_str(value)
}

} // verus!
