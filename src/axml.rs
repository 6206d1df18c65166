//! Which manifest bytes the binary-XML decoder reads to an end, with a result
//! or an error, without panicking.
//!
//! The decoder reads chunk after chunk from a cursor: it does not skip by the
//! sizes the chunks announce, so this module follows its cursor. A read past
//! the end stops the decoder with an error, which is safe. It panics on an
//! unknown chunk type, on a chunk header whose sizes are below 8 or
//! inconsistent, on an attribute value whose reserved byte is not 0 or whose
//! type is unknown, when a string offset overflows 32 bits, and when an
//! element starts after the root has been closed. The check below also turns
//! down resource-table chunks and string pools with style spans, which a
//! manifest does not hold.
use vstd::prelude::*;

verus! {

pub open spec fn u16_at(b: Seq<u8>, i: int) -> int {
    b[i] as int + b[i + 1] as int * 256
}

pub open spec fn u32_at(b: Seq<u8>, i: int) -> int {
    u16_at(b, i) + u16_at(b, i + 2) * 65536
}

/// The chunk types the decoder knows.
pub open spec fn known_chunk(t: int) -> bool {
    0 <= t <= 3 || (0x100 <= t <= 0x104) || t == 0x17f || t == 0x180 || (0x200 <= t <= 0x203)
}

/// The attribute value types the decoder knows.
pub open spec fn known_value_type(t: int) -> bool {
    (0 <= t <= 8) || (0x10 <= t <= 0x12) || (0x1c <= t <= 0x1f)
}

/// What reading a part of the input does to the decoder.
pub enum Verdict {
    /// The part reads and the decoder goes on.
    Fine,
    /// A read runs past the end: the decoder stops with an error.
    Stops,
    /// The decoder panics.
    Panics,
}

/// The chunk header at `p`: type, header size, total size.
pub open spec fn header(b: Seq<u8>, p: int) -> Verdict {
    if p + 8 > b.len() {
        Verdict::Stops
    } else if u16_at(b, p + 2) < 8 || u32_at(b, p + 4) < 8 || u32_at(b, p + 4) < u16_at(b, p + 2) {
        Verdict::Panics
    } else {
        Verdict::Fine
    }
}

/// `count` attributes of 20 bytes from `q`.
pub open spec fn attributes(b: Seq<u8>, q: int, count: int) -> Verdict
    decreases count,
{
    if count <= 0 {
        Verdict::Fine
    } else if q + 15 > b.len() {
        Verdict::Stops
    } else if b[q + 14] != 0 {
        Verdict::Panics
    } else if q + 16 > b.len() {
        Verdict::Stops
    } else if !known_value_type(b[q + 15] as int) {
        Verdict::Panics
    } else if q + 20 > b.len() {
        Verdict::Stops
    } else {
        attributes(b, q + 20, count - 1)
    }
}

/// A one- or two-byte length of a UTF-8 pool string at `q`, and where it ends.
pub open spec fn utf8_field(b: Seq<u8>, q: int) -> (int, int) {
    if b[q] >= 128 {
        ((b[q] - 128) * 256 + b[q + 1] as int, q + 2)
    } else {
        (b[q] as int, q + 1)
    }
}

/// The bytes of `manifest`.
pub open spec fn manifest_bytes() -> Seq<u8> {
    seq![0x6du8, 0x61u8, 0x6eu8, 0x69u8, 0x66u8, 0x65u8, 0x73u8, 0x74u8]
}

/// Where the data of the pool string at `s` starts and how long it is, in
/// bytes; `None` when a read runs past the end.
pub open spec fn string_data(b: Seq<u8>, s: int, utf8: bool) -> Option<(int, int)> {
    if s < 0 {
        None
    } else if utf8 {
        if s + 1 > b.len() || (b[s] >= 128 && s + 2 > b.len()) {
            None
        } else {
            let q = utf8_field(b, s).1;
            if q + 1 > b.len() || (b[q] >= 128 && q + 2 > b.len()) {
                None
            } else {
                Some((utf8_field(b, q).1, utf8_field(b, q).0))
            }
        }
    } else if s + 2 > b.len() {
        None
    } else {
        Some((s + 2, 2 * u16_at(b, s)))
    }
}

/// Where the decoder's cursor is after the pool string at `s`.
pub open spec fn string_end(b: Seq<u8>, s: int, utf8: bool) -> Option<int> {
    match string_data(b, s, utf8) {
        Some((d, n)) => {
            let e = if utf8 { d + n + 1 } else { d + n + 2 };
            if e <= b.len() { Some(e) } else { None }
        },
        None => None,
    }
}

/// The pool string at `s` is `manifest`.
pub open spec fn names_manifest(b: Seq<u8>, s: int, utf8: bool) -> bool {
    match string_end(b, s, utf8) {
        Some(_) => {
            let (d, n) = string_data(b, s, utf8)->Some_0;
            if utf8 {
                n == 8 && b.subrange(d, d + 8) == manifest_bytes()
            } else {
                n == 16 && forall|k: int| 0 <= k < 8 ==> #[trigger] u16_at(b, d + 2 * k)
                    == manifest_bytes()[k] as int
            }
        },
        None => false,
    }
}

/// Where the `i`-th string of the pool at `p` starts.
pub open spec fn string_start(b: Seq<u8>, p: int, i: int) -> int {
    p + u32_at(b, p + 20) + u32_at(b, p + 28 + 4 * i)
}

pub open spec fn pool_utf8(b: Seq<u8>, p: int) -> bool {
    (u32_at(b, p + 16) / 256) % 2 == 1
}

/// For the first `n` strings of the pool at `p`, whether each is `manifest`.
pub open spec fn pool_names(b: Seq<u8>, p: int, n: int) -> Seq<bool>
    decreases n,
{
    if n <= 0 {
        Seq::empty()
    } else {
        pool_names(b, p, n - 1).push(names_manifest(b, string_start(b, p, n - 1), pool_utf8(b, p)))
    }
}

/// The decoder reads on from `pos` without panicking, with `depth` elements
/// open (the root counted) and `man[i]` telling whether string `i` is `manifest`.
pub open spec fn safe_from(b: Seq<u8>, pos: int, depth: int, man: Seq<bool>) -> bool
    decreases b.len() - pos,
{
    if pos < 0 || pos + 2 > b.len() {
        true
    } else {
        let t = u16_at(b, pos);
        if !known_chunk(t) || t == 2 {
            false
        } else if t == 0 || t == 0x104 || t == 0x17f || 0x200 <= t {
            pos + 2 <= b.len() && safe_from(b, pos + 2, depth, man)
        } else {
            match header(b, pos) {
                Verdict::Stops => true,
                Verdict::Panics => false,
                Verdict::Fine => if t == 3 {
                    safe_from(b, pos + 8, depth, man)
                } else if t == 0x100 || t == 0x101 || t == 0x103 {
                    if pos + 24 > b.len() {
                        true
                    } else if t == 0x103 {
                        safe_from(b, pos + 24, if depth > 0 { depth - 1 } else { 0 }, man)
                    } else {
                        safe_from(b, pos + 24, depth, man)
                    }
                } else if t == 0x180 {
                    let end = pos + 8 + 4 * (u32_at(b, pos + 4) / 4 - 2);
                    if end > b.len() {
                        true
                    } else {
                        safe_from(b, end, depth, man)
                    }
                } else if t == 0x102 {
                    if pos + 36 > b.len() {
                        true
                    } else {
                        let name = u32_at(b, pos + 20);
                        let count = u16_at(b, pos + 28);
                        if name >= man.len() {
                            true
                        } else {
                            match attributes(b, pos + 36, count) {
                                Verdict::Stops => true,
                                Verdict::Panics => false,
                                Verdict::Fine => depth >= 1 && pos + 36 + 20 * count <= b.len()
                                    && safe_from(
                                    b,
                                    pos + 36 + 20 * count,
                                    if man[name] { depth } else { depth + 1 },
                                    man,
                                ),
                            }
                        }
                    }
                } else {
                    // a string pool
                    if pos + 28 > b.len() {
                        true
                    } else {
                        let n = u32_at(b, pos + 8);
                        if u32_at(b, pos + 12) != 0 {
                            false
                        } else if pos + 28 + 4 * n > b.len() {
                            true
                        } else if n == 0 {
                            safe_from(b, pos + 28, depth, man)
                        } else if exists|i: int|
                            0 <= i < n && #[trigger] string_start(b, pos, i) >= 0x1_0000_0000 {
                            false
                        } else {
                            match string_end(b, string_start(b, pos, n - 1), pool_utf8(b, pos)) {
                                Some(e) => e > pos && e <= b.len() && safe_from(
                                    b,
                                    e,
                                    depth,
                                    man + pool_names(b, pos, n),
                                ),
                                None => true,
                            }
                        }
                    }
                }
            }
        }
    }
}

/// The decoder reads `b` without panicking.
pub open spec fn axml_safe(b: Seq<u8>) -> bool {
    b.len() < 0x1_0000_0000 && safe_from(b, 0, 1, Seq::empty())
}

fn u16_exec(b: &Vec<u8>, i: u64) -> (r: u64)
    requires
        i + 2 <= b@.len(),
        b@.len() < 0x1_0000_0000,
    ensures
        r == u16_at(b@, i as int),
        r < 0x10000,
{
    b[i as usize] as u64 + b[(i + 1) as usize] as u64 * 256
}

fn u32_exec(b: &Vec<u8>, i: u64) -> (r: u64)
    requires
        i + 4 <= b@.len(),
        b@.len() < 0x1_0000_0000,
    ensures
        r == u32_at(b@, i as int),
        r < 0x1_0000_0000,
{
    u16_exec(b, i) + u16_exec(b, i + 2) * 65536
}

fn header_exec(b: &Vec<u8>, p: u64) -> (r: Verdict)
    requires
        b@.len() < 0x1_0000_0000,
        p <= b@.len(),
    ensures
        r == header(b@, p as int),
{
    if p + 8 > b.len() as u64 {
        Verdict::Stops
    } else {
        let h = u16_exec(b, p + 2);
        let c = u32_exec(b, p + 4);
        if h < 8 || c < 8 || c < h {
            Verdict::Panics
        } else {
            Verdict::Fine
        }
    }
}

fn known_value_type_exec(t: u8) -> (r: bool)
    ensures
        r == known_value_type(t as int),
{
    t <= 8 || (0x10 <= t && t <= 0x12) || (0x1c <= t && t <= 0x1f)
}

fn attributes_exec(b: &Vec<u8>, q0: u64, count0: u64) -> (r: Verdict)
    requires
        b@.len() < 0x1_0000_0000,
        q0 <= b@.len(),
        count0 < 0x10000,
    ensures
        r == attributes(b@, q0 as int, count0 as int),
{
    let len = b.len() as u64;
    let mut q = q0;
    let mut count = count0;
    while count > 0
        invariant
            len == b@.len(),
            len < 0x1_0000_0000,
            q <= len,
            count < 0x10000,
            attributes(b@, q0 as int, count0 as int) == attributes(b@, q as int, count as int),
        decreases count,
    {
        if q + 15 > len {
            return Verdict::Stops;
        }
        if b[(q + 14) as usize] != 0 {
            return Verdict::Panics;
        }
        if q + 16 > len {
            return Verdict::Stops;
        }
        if !known_value_type_exec(b[(q + 15) as usize]) {
            return Verdict::Panics;
        }
        if q + 20 > len {
            return Verdict::Stops;
        }
        q = q + 20;
        count = count - 1;
    }
    Verdict::Fine
}

fn utf8_field_exec(b: &Vec<u8>, q: u64) -> (r: (u64, u64))
    requires
        q + 1 <= b@.len(),
        b@[q as int] >= 128 ==> q + 2 <= b@.len(),
        b@.len() < 0x1_0000_0000,
    ensures
        r.0 == utf8_field(b@, q as int).0,
        r.1 == utf8_field(b@, q as int).1,
        r.1 <= b@.len(),
        r.0 < 0x10000,
{
    let x = b[q as usize];
    if x >= 128 {
        (((x - 128) as u64) * 256 + b[(q + 1) as usize] as u64, q + 2)
    } else {
        (x as u64, q + 1)
    }
}

fn string_data_exec(b: &Vec<u8>, s: u64, utf8: bool) -> (r: Option<(u64, u64)>)
    requires
        b@.len() < 0x1_0000_0000,
    ensures
        match string_data(b@, s as int, utf8) {
            Some((d, n)) => r == Some((d as u64, n as u64)) && 0 <= d <= b@.len() && 0 <= n
                < 0x20000,
            None => r is None,
        },
{
    let len = b.len() as u64;
    if s >= 0x1_0000_0000 {
        return None;
    }
    if utf8 {
        if s + 1 > len || (b[s as usize] >= 128 && s + 2 > len) {
            return None;
        }
        let (_, q) = utf8_field_exec(b, s);
        if q + 1 > len || (b[q as usize] >= 128 && q + 2 > len) {
            return None;
        }
        let (n, d) = utf8_field_exec(b, q);
        Some((d, n))
    } else {
        if s + 2 > len {
            return None;
        }
        Some((s + 2, 2 * u16_exec(b, s)))
    }
}

fn string_end_exec(b: &Vec<u8>, s: u64, utf8: bool) -> (r: Option<u64>)
    requires
        b@.len() < 0x1_0000_0000,
    ensures
        match string_end(b@, s as int, utf8) {
            Some(e) => r == Some(e as u64),
            None => r is None,
        },
{
    match string_data_exec(b, s, utf8) {
        Some((d, n)) => {
            let e = if utf8 { d + n + 1 } else { d + n + 2 };
            if e <= b.len() as u64 { Some(e) } else { None }
        },
        None => None,
    }
}

fn names_manifest_exec(b: &Vec<u8>, s: u64, utf8: bool) -> (r: bool)
    requires
        b@.len() < 0x1_0000_0000,
    ensures
        r == names_manifest(b@, s as int, utf8),
{
    let word: Vec<u8> = vec![0x6d, 0x61, 0x6e, 0x69, 0x66, 0x65, 0x73, 0x74];
    assert(word@ =~= manifest_bytes());
    if string_end_exec(b, s, utf8).is_none() {
        return false;
    }
    let (d, n) = string_data_exec(b, s, utf8).unwrap();
    let len = b.len() as u64;
    if utf8 {
        if n != 8 {
            return false;
        }
        let mut k: u64 = 0;
        while k < 8
            invariant
                k <= 8,
                d + 8 <= len,
                string_data(b@, s as int, utf8) == Some((d as int, n as int)),
                string_end(b@, s as int, utf8) is Some,
                utf8,
                n == 8,
                len == b@.len(),
                len < 0x1_0000_0000,
                word@ == manifest_bytes(),
                forall|j: int| 0 <= j < k ==> b@[d + j] == manifest_bytes()[j],
            decreases 8 - k,
        {
            if b[(d + k) as usize] != word[k as usize] {
                assert(b@.subrange(d as int, d + 8)[k as int] == b@[d + k]);
                assert(word@[k as int] == manifest_bytes()[k as int]);
                assert(b@.subrange(d as int, d + 8)[k as int] != manifest_bytes()[k as int]);
                assert(b@.subrange(d as int, d + 8) != manifest_bytes());
                return false;
            }
            k += 1;
        }
        assert(b@.subrange(d as int, d + 8) =~= manifest_bytes());
        true
    } else {
        if n != 16 {
            return false;
        }
        let mut k: u64 = 0;
        while k < 8
            invariant
                k <= 8,
                d + 16 <= len,
                string_data(b@, s as int, utf8) == Some((d as int, n as int)),
                string_end(b@, s as int, utf8) is Some,
                !utf8,
                n == 16,
                len == b@.len(),
                len < 0x1_0000_0000,
                word@ == manifest_bytes(),
                forall|j: int| 0 <= j < k ==> #[trigger] u16_at(b@, d + 2 * j) == manifest_bytes()[j] as int,
            decreases 8 - k,
        {
            if u16_exec(b, d + 2 * k) != word[k as usize] as u64 {
                assert(u16_at(b@, d + 2 * (k as int)) != manifest_bytes()[k as int] as int);
                return false;
            }
            k += 1;
        }
        true
    }
}

fn pool_names_exec(b: &Vec<u8>, p: u64, n: u64, utf8: bool) -> (r: Vec<bool>)
    requires
        b@.len() < 0x1_0000_0000,
        p + 28 + 4 * n <= b@.len(),
        utf8 == pool_utf8(b@, p as int),
    ensures
        r@ == pool_names(b@, p as int, n as int),
{
    let ss = u32_exec(b, p + 20);
    let mut r: Vec<bool> = Vec::new();
    let mut i: u64 = 0;
    while i < n
        invariant
            i <= n,
            p + 28 + 4 * n <= b@.len(),
            b@.len() < 0x1_0000_0000,
            ss == u32_at(b@, p + 20),
            utf8 == pool_utf8(b@, p as int),
            r@ == pool_names(b@, p as int, i as int),
        decreases n - i,
    {
        let start = p + ss + u32_exec(b, p + 28 + 4 * i);
        assert(start == string_start(b@, p as int, i as int));
        r.push(names_manifest_exec(b, start, utf8));
        i += 1;
    }
    r
}

/// No string of the pool at `p` starts at or beyond 2^32.
fn offsets_fit(b: &Vec<u8>, p: u64, n: u64) -> (r: bool)
    requires
        p + 28 + 4 * n <= b@.len(),
        b@.len() < 0x1_0000_0000,
    ensures
        r == !exists|i: int| 0 <= i < n && #[trigger] string_start(b@, p as int, i) >= 0x1_0000_0000,
{
    let ss = u32_exec(b, p + 20);
    let mut i: u64 = 0;
    while i < n
        invariant
            i <= n,
            p + 28 + 4 * n <= b@.len(),
            b@.len() < 0x1_0000_0000,
            ss == u32_at(b@, p + 20),
            forall|k: int| 0 <= k < i ==> #[trigger] string_start(b@, p as int, k) < 0x1_0000_0000,
        decreases n - i,
    {
        let start = p + ss + u32_exec(b, p + 28 + 4 * i);
        assert(start == string_start(b@, p as int, i as int));
        if start >= 0x1_0000_0000 {
            return false;
        }
        i += 1;
    }
    true
}

fn append_flags(acc: &mut Vec<bool>, more: &Vec<bool>)
    ensures
        final(acc)@ == old(acc)@ + more@,
{
    let ghost start = acc@;
    let mut i: usize = 0;
    while i < more.len()
        invariant
            i <= more@.len(),
            acc@ == start + more@.subrange(0, i as int),
        decreases more@.len() - i,
    {
        acc.push(more[i]);
        i += 1;
        assert(acc@ =~= start + more@.subrange(0, i as int));
    }
    assert(more@.subrange(0, i as int) =~= more@);
}

/// Whether the binary-XML decoder reads `b` without panicking (see the module
/// documentation).
pub fn decodes_safely(b: &Vec<u8>) -> (r: bool)
    ensures
        r == axml_safe(b@),
{
    if b.len() as u64 >= 0x1_0000_0000 {
        return false;
    }
    let len = b.len() as u64;
    let mut pos: u64 = 0;
    let mut depth: u64 = 1;
    let mut man: Vec<bool> = Vec::new();
    loop
        invariant
            len == b@.len(),
            len < 0x1_0000_0000,
            pos <= len,
            depth <= pos + 1,
            safe_from(b@, 0, 1, Seq::empty()) == safe_from(b@, pos as int, depth as int, man@),
        decreases len - pos,
    {
        if pos + 2 > len {
            return true;
        }
        let t = u16_exec(b, pos);
        if !(t <= 3 || (0x100 <= t && t <= 0x104) || t == 0x17f || t == 0x180 || (0x200 <= t
            && t <= 0x203)) || t == 2 {
            return false;
        }
        if t == 0 || t == 0x104 || t == 0x17f || 0x200 <= t {
            pos = pos + 2;
        } else {
            match header_exec(b, pos) {
                Verdict::Stops => {
                    return true;
                },
                Verdict::Panics => {
                    return false;
                },
                Verdict::Fine => {},
            }
            if t == 3 {
                pos = pos + 8;
            } else if t == 0x100 || t == 0x101 || t == 0x103 {
                if pos + 24 > len {
                    return true;
                }
                if t == 0x103 && depth > 0 {
                    depth = depth - 1;
                }
                pos = pos + 24;
            } else if t == 0x180 {
                let end = pos + 8 + 4 * (u32_exec(b, pos + 4) / 4 - 2);
                if end > len {
                    return true;
                }
                pos = end;
            } else if t == 0x102 {
                if pos + 36 > len {
                    return true;
                }
                let name = u32_exec(b, pos + 20);
                let count = u16_exec(b, pos + 28);
                if name >= man.len() as u64 {
                    return true;
                }
                match attributes_exec(b, pos + 36, count) {
                    Verdict::Stops => {
                        return true;
                    },
                    Verdict::Panics => {
                        return false;
                    },
                    Verdict::Fine => {},
                }
                if depth < 1 || pos + 36 + 20 * count > len {
                    return false;
                }
                if !man[name as usize] {
                    depth = depth + 1;
                }
                pos = pos + 36 + 20 * count;
            } else {
                if pos + 28 > len {
                    return true;
                }
                let n = u32_exec(b, pos + 8);
                if u32_exec(b, pos + 12) != 0 {
                    return false;
                }
                if pos + 28 + 4 * n > len {
                    return true;
                }
                if n == 0 {
                    pos = pos + 28;
                } else {
                    let ss = u32_exec(b, pos + 20);
                    if !offsets_fit(b, pos, n) {
                        return false;
                    }
                    let utf8 = (u32_exec(b, pos + 16) / 256) % 2 == 1;
                    let last = pos + ss + u32_exec(b, pos + 28 + 4 * (n - 1));
                    assert(last == string_start(b@, pos as int, n - 1));
                    match string_end_exec(b, last, utf8) {
                        Some(e) => {
                            if !(e > pos && e <= len) {
                                return false;
                            }
                            let names = pool_names_exec(b, pos, n, utf8);
                            append_flags(&mut man, &names);
                            pos = e;
                        },
                        None => {
                            return true;
                        },
                    }
                }
            }
        }
    }
}

} // verus!
