//! Launcher-icon search over the entry names of a package.
use vstd::prelude::*;
use crate::text::{
    chars_of, contains, contains_exec, ends_with_ci, ends_with_fold, occurs_at, occurs_at_exec,
    starts_with_ci, starts_with_fold, text_of,
};

verus! {

/// The part of `s` after the last `c` (all of `s` when it holds no `c`).
pub open spec fn after_last(s: Seq<char>, c: char) -> Seq<char>
    decreases s.len(),
{
    if s.len() == 0 {
        s
    } else if s.last() == c {
        Seq::empty()
    } else {
        after_last(s.drop_last(), c).push(s.last())
    }
}

/// The final segment of an entry path, with `/` and `\` both taken as separators.
pub open spec fn base_name(p: Seq<char>) -> Seq<char> {
    after_last(after_last(p, '/'), '\\')
}

pub open spec fn png_suffix() -> Seq<char> {
    seq!['.', 'p', 'n', 'g']
}

pub open spec fn launcher_prefix() -> Seq<char> {
    seq!['i', 'c', '_', 'l', 'a', 'u', 'n', 'c', 'h', 'e', 'r']
}

pub open spec fn plain_icon_suffix() -> Seq<char> {
    launcher_prefix() + png_suffix()
}

pub open spec fn round_icon_suffix() -> Seq<char> {
    launcher_prefix() + seq!['_', 'r', 'o', 'u', 'n', 'd'] + png_suffix()
}

/// A PNG entry whose file name starts with `ic_launcher`, both ignoring ASCII case.
pub open spec fn is_launcher_png(p: Seq<char>) -> bool {
    ends_with_ci(p, png_suffix()) && starts_with_ci(base_name(p), launcher_prefix())
}

/// `p` lies in the directory `b`: `b` is a whole path segment of it, with either separator.
pub open spec fn in_bucket(p: Seq<char>, b: Seq<char>) -> bool {
    contains(p, seq!['/'] + b + seq!['/']) || occurs_at(p, b + seq!['/'], 0) || contains(
        p,
        seq!['\\'] + b + seq!['\\'],
    ) || occurs_at(p, b + seq!['\\'], 0)
}

/// The number of bytes of the UTF-8 encoding of `c`.
pub open spec fn char_width(c: char) -> nat {
    if (c as u32) < 0x80 {
        1
    } else if (c as u32) < 0x800 {
        2
    } else if (c as u32) < 0x10000 {
        3
    } else {
        4
    }
}

/// The number of bytes of the UTF-8 encoding of `s`.
pub open spec fn utf8_len(s: Seq<char>) -> nat
    decreases s.len(),
{
    if s.len() == 0 {
        0
    } else {
        utf8_len(s.drop_last()) + char_width(s.last())
    }
}

/// `a` comes no later than `b` in code-point (equivalently, UTF-8 byte) order.
pub open spec fn lex_le(a: Seq<char>, b: Seq<char>) -> bool {
    (a.len() <= b.len() && a == b.subrange(0, a.len() as int)) || exists|i: int|
        0 <= i < a.len() && i < b.len() && a.subrange(0, i) == b.subrange(0, i) && a[i] < b[i]
}

/// Preference of an icon file name inside one bucket: `ic_launcher.png`, then
/// `ic_launcher_round.png`, then any other.
pub open spec fn rank(p: Seq<char>) -> nat {
    if ends_with_ci(p, plain_icon_suffix()) {
        0
    } else if ends_with_ci(p, round_icon_suffix()) {
        1
    } else {
        2
    }
}

/// The orders in which candidates are tried.
pub enum Order {
    /// Shorter paths (in UTF-8 bytes) first; equal lengths keep listing order.
    ByLength,
    /// By `rank`, then in code-point order.
    ByPreference,
}

/// `a` may stand before `b` in order `o`.
pub open spec fn le(o: Order, a: Seq<char>, b: Seq<char>) -> bool {
    match o {
        Order::ByLength => utf8_len(a) <= utf8_len(b),
        Order::ByPreference => rank(a) < rank(b) || (rank(a) == rank(b) && lex_le(a, b)),
    }
}

/// `x` put into `s` after every element that may stand before it, counting from the end.
pub open spec fn insert_by(s: Seq<Seq<char>>, x: Seq<char>, o: Order) -> Seq<Seq<char>>
    decreases s.len(),
{
    if s.len() == 0 {
        seq![x]
    } else if le(o, s.last(), x) {
        s.push(x)
    } else {
        insert_by(s.drop_last(), x, o).push(s.last())
    }
}

/// The stable sort of `s` in order `o`.
pub open spec fn sort_by(s: Seq<Seq<char>>, o: Order) -> Seq<Seq<char>>
    decreases s.len(),
{
    if s.len() == 0 {
        s
    } else {
        insert_by(sort_by(s.drop_last(), o), s.last(), o)
    }
}

/// First phase: every launcher PNG of the package, shortest path first.
pub open spec fn name_candidates(names: Seq<Seq<char>>) -> Seq<Seq<char>> {
    sort_by(names.filter(|p: Seq<char>| is_launcher_png(p)), Order::ByLength)
}

/// Second phase, one bucket: its launcher PNGs in order of preference.
pub open spec fn bucket_candidates(names: Seq<Seq<char>>, b: Seq<char>) -> Seq<Seq<char>> {
    sort_by(names.filter(|p: Seq<char>| in_bucket(p, b) && is_launcher_png(p)), Order::ByPreference)
}

/// Second phase: the candidates of each bucket of `bs`, bucket after bucket.
pub open spec fn bucket_sweep(names: Seq<Seq<char>>, bs: Seq<Seq<char>>) -> Seq<Seq<char>>
    decreases bs.len(),
{
    if bs.len() == 0 {
        Seq::empty()
    } else {
        bucket_sweep(names, bs.drop_last()) + bucket_candidates(names, bs.last())
    }
}

/// The resource directories searched in the second phase, highest density first.
pub open spec fn buckets() -> Seq<Seq<char>> {
    seq![
        "mipmap-xxxhdpi"@,
        "drawable-xxxhdpi"@,
        "mipmap-xxhdpi"@,
        "drawable-xxhdpi"@,
        "mipmap-xhdpi"@,
        "drawable-xhdpi"@,
        "mipmap-hdpi"@,
        "drawable-hdpi"@,
        "mipmap-mdpi"@,
        "drawable-mdpi"@,
        "mipmap-ldpi"@,
        "drawable-ldpi"@,
        "mipmap"@,
        "drawable"@,
    ]
}

/// Every entry tried as the icon, in the order tried.
pub open spec fn icon_candidates(names: Seq<Seq<char>>) -> Seq<Seq<char>> {
    name_candidates(names) + bucket_sweep(names, buckets())
}

proof fn lemma_insert_permutes(s: Seq<Seq<char>>, x: Seq<char>, o: Order)
    ensures
        insert_by(s, x, o).to_multiset() == s.to_multiset().insert(x),
    decreases s.len(),
{
    if s.len() == 0 || le(o, s.last(), x) {
        s.to_multiset_ensures();
        assert(s.push(x).to_multiset() =~= s.to_multiset().insert(x));
        if s.len() == 0 {
            assert(seq![x] =~= s.push(x));
        }
    } else {
        let t = s.drop_last();
        lemma_insert_permutes(t, x, o);
        let u = insert_by(t, x, o);
        u.to_multiset_ensures();
        t.to_multiset_ensures();
        assert(u.push(s.last()).to_multiset() =~= u.to_multiset().insert(s.last()));
        assert(t.push(s.last()) =~= s);
        assert(t.push(s.last()).to_multiset() =~= t.to_multiset().insert(s.last()));
        assert(t.to_multiset().insert(x).insert(s.last()) =~= t.to_multiset().insert(s.last()).insert(
            x,
        ));
    }
}

/// Every candidate ordering holds exactly the elements it orders.
pub proof fn lemma_sort_permutes(s: Seq<Seq<char>>, o: Order)
    ensures
        sort_by(s, o).to_multiset() == s.to_multiset(),
    decreases s.len(),
{
    if s.len() > 0 {
        let t = s.drop_last();
        t.to_multiset_ensures();
        lemma_sort_permutes(t, o);
        lemma_insert_permutes(sort_by(t, o), s.last(), o);
        assert(t.push(s.last()) =~= s);
        assert(t.push(s.last()).to_multiset() =~= t.to_multiset().insert(s.last()));
    }
}

/// `s` is ordered by `o`, each element against the next.
pub open spec fn ordered(s: Seq<Seq<char>>, o: Order) -> bool {
    forall|i: int| 0 <= i < s.len() - 1 ==> le(o, #[trigger] s[i], s[i + 1])
}

proof fn lemma_insert_ordered(s: Seq<Seq<char>>, x: Seq<char>, o: Order)
    requires
        ordered(s, o),
        forall|a: Seq<char>, b: Seq<char>| #[trigger] le(o, a, b) || le(o, b, a),
    ensures
        ordered(insert_by(s, x, o), o),
        insert_by(s, x, o).len() == s.len() + 1,
        insert_by(s, x, o).last() == x || (s.len() > 0 && insert_by(s, x, o).last() == s.last()),
    decreases s.len(),
{
    if s.len() > 0 {
        if le(o, s.last(), x) {
            let r = s.push(x);
            assert forall|i: int| 0 <= i < r.len() - 1 implies le(o, #[trigger] r[i], r[i + 1]) by {
                if i < s.len() - 1 {
                    assert(r[i] == s[i] && r[i + 1] == s[i + 1]);
                }
            }
        } else {
            let t = s.drop_last();
            assert(ordered(t, o)) by {
                assert forall|i: int| 0 <= i < t.len() - 1 implies le(o, #[trigger] t[i], t[i + 1]) by {
                    assert(t[i] == s[i] && t[i + 1] == s[i + 1]);
                }
            }
            lemma_insert_ordered(t, x, o);
            let u = insert_by(t, x, o);
            let r = u.push(s.last());
            if u.last() != x {
                assert(s[s.len() - 2] == t.last());
            }
            assert forall|i: int| 0 <= i < r.len() - 1 implies le(o, #[trigger] r[i], r[i + 1]) by {
                if i < u.len() - 1 {
                    assert(r[i] == u[i] && r[i + 1] == u[i + 1]);
                }
            }
        }
    }
}

/// The first phase tries shorter paths first: its order is sorted by UTF-8 length.
pub proof fn lemma_length_order_sorted(s: Seq<Seq<char>>)
    ensures
        ordered(sort_by(s, Order::ByLength), Order::ByLength),
    decreases s.len(),
{
    if s.len() > 0 {
        lemma_length_order_sorted(s.drop_last());
        lemma_insert_ordered(sort_by(s.drop_last(), Order::ByLength), s.last(), Order::ByLength);
    }
}

proof fn lemma_lex_total_from(a: Seq<char>, b: Seq<char>, i: int)
    requires
        0 <= i <= a.len(),
        i <= b.len(),
        a.subrange(0, i) == b.subrange(0, i),
    ensures
        lex_le(a, b) || lex_le(b, a),
    decreases a.len() - i,
{
    if i == a.len() {
        assert(a.subrange(0, i) =~= a);
    } else if i == b.len() {
        assert(b.subrange(0, i) =~= b);
    } else if a[i] == b[i] {
        assert(a.subrange(0, i + 1) =~= a.subrange(0, i).push(a[i]));
        assert(b.subrange(0, i + 1) =~= b.subrange(0, i).push(b[i]));
        lemma_lex_total_from(a, b, i + 1);
    } else if a[i] < b[i] {
        assert(lex_le(a, b));
    } else {
        assert(b[i] < a[i]);
        assert(lex_le(b, a));
    }
}

/// The second phase tries candidates in order of preference: its order is
/// sorted by rank, then by code points.
pub proof fn lemma_preference_order_sorted(s: Seq<Seq<char>>)
    ensures
        ordered(sort_by(s, Order::ByPreference), Order::ByPreference),
    decreases s.len(),
{
    assert forall|a: Seq<char>, b: Seq<char>|
        #[trigger] le(Order::ByPreference, a, b) || le(Order::ByPreference, b, a) by {
        assert(a.subrange(0, 0) =~= b.subrange(0, 0));
        lemma_lex_total_from(a, b, 0);
    }
    if s.len() > 0 {
        lemma_preference_order_sorted(s.drop_last());
        lemma_insert_ordered(
            sort_by(s.drop_last(), Order::ByPreference),
            s.last(),
            Order::ByPreference,
        );
    }
}

proof fn lemma_sorted_from(s: Seq<Seq<char>>, o: Order, x: Seq<char>)
    requires
        sort_by(s, o).contains(x),
    ensures
        s.contains(x),
{
    lemma_sort_permutes(s, o);
    s.to_multiset_ensures();
    sort_by(s, o).to_multiset_ensures();
    assert(sort_by(s, o).to_multiset().count(x) > 0);
    assert(s.to_multiset().count(x) > 0);
}

proof fn lemma_filtered(s: Seq<Seq<char>>, p: spec_fn(Seq<char>) -> bool, x: Seq<char>)
    requires
        s.filter(p).contains(x),
    ensures
        s.contains(x),
        p(x),
{
    s.lemma_filter_contains_rev(p, x);
    let i = choose|i: int| 0 <= i < s.filter(p).len() && s.filter(p)[i] == x;
    s.lemma_filter_pred(p, i);
}

proof fn lemma_sweep_candidates(names: Seq<Seq<char>>, bs: Seq<Seq<char>>, x: Seq<char>)
    requires
        bucket_sweep(names, bs).contains(x),
    ensures
        names.contains(x),
        is_launcher_png(x),
    decreases bs.len(),
{
    if bs.len() > 0 {
        let rest = bucket_sweep(names, bs.drop_last());
        let last = bucket_candidates(names, bs.last());
        let b = bs.last();
        let i = choose|i: int| 0 <= i < bucket_sweep(names, bs).len() && bucket_sweep(names, bs)[i]
            == x;
        if i < rest.len() {
            assert(rest[i] == x);
            lemma_sweep_candidates(names, bs.drop_last(), x);
        } else {
            assert(last[i - rest.len()] == x);
            let pred = |p: Seq<char>| in_bucket(p, b) && is_launcher_png(p);
            lemma_sorted_from(names.filter(pred), Order::ByPreference, x);
            lemma_filtered(names, pred, x);
        }
    }
}

/// Every entry that the icon search tries is one of the package's entries,
/// and a launcher PNG.
pub proof fn lemma_candidates_are_launcher_pngs(names: Seq<Seq<char>>, x: Seq<char>)
    requires
        icon_candidates(names).contains(x),
    ensures
        names.contains(x),
        is_launcher_png(x),
{
    let first = name_candidates(names);
    let i = choose|i: int| 0 <= i < icon_candidates(names).len() && icon_candidates(names)[i] == x;
    if i < first.len() {
        assert(first[i] == x);
        let pred = |p: Seq<char>| is_launcher_png(p);
        lemma_sorted_from(names.filter(pred), Order::ByLength, x);
        lemma_filtered(names, pred, x);
    } else {
        let sweep = bucket_sweep(names, buckets());
        assert(sweep[i - first.len()] == x);
        lemma_sweep_candidates(names, buckets(), x);
    }
}

/// The text views of a sequence of strings.
pub open spec fn texts(v: Seq<String>) -> Seq<Seq<char>> {
    v.map_values(|s: String| s@)
}

/// The views of a sequence of character vectors.
pub open spec fn rows(v: Seq<Vec<char>>) -> Seq<Seq<char>> {
    v.map_values(|s: Vec<char>| s@)
}

proof fn lemma_after_last_at(s: Seq<char>, c: char, j: int)
    requires
        0 <= j <= s.len(),
        j == 0 || s[j - 1] == c,
        forall|k: int| j <= k < s.len() ==> s[k] != c,
    ensures
        after_last(s, c) == s.subrange(j, s.len() as int),
    decreases s.len(),
{
    if s.len() > j {
        lemma_after_last_at(s.drop_last(), c, j);
        assert(s.drop_last().subrange(j, s.len() - 1).push(s.last()) =~= s.subrange(
            j,
            s.len() as int,
        ));
    } else if s.len() > 0 {
        assert(s.subrange(j, s.len() as int) =~= Seq::<char>::empty());
    }
}

fn after_last_exec(s: &Vec<char>, c: char) -> (r: Vec<char>)
    ensures
        r@ == after_last(s@, c),
{
    let mut j: usize = s.len();
    while j > 0 && s[j - 1] != c
        invariant
            j <= s@.len(),
            forall|k: int| j <= k < s@.len() ==> s@[k] != c,
        decreases j,
    {
        j -= 1;
    }
    proof {
        lemma_after_last_at(s@, c, j as int);
    }
    let mut r: Vec<char> = Vec::new();
    let mut k: usize = j;
    while k < s.len()
        invariant
            j <= k <= s@.len(),
            r@ == s@.subrange(j as int, k as int),
        decreases s@.len() - k,
    {
        r.push(s[k]);
        k += 1;
    }
    r
}

fn base_name_exec(p: &Vec<char>) -> (r: Vec<char>)
    ensures
        r@ == base_name(p@),
{
    let a = after_last_exec(p, '/');
    after_last_exec(&a, '\\')
}

fn png_suffix_exec() -> (r: Vec<char>)
    ensures
        r@ == png_suffix(),
{
    let r = vec!['.', 'p', 'n', 'g'];
    assert(r@ =~= png_suffix());
    r
}

fn launcher_prefix_exec() -> (r: Vec<char>)
    ensures
        r@ == launcher_prefix(),
{
    let r = vec!['i', 'c', '_', 'l', 'a', 'u', 'n', 'c', 'h', 'e', 'r'];
    assert(r@ =~= launcher_prefix());
    r
}

fn is_launcher_png_exec(p: &Vec<char>) -> (r: bool)
    ensures
        r == is_launcher_png(p@),
{
    ends_with_fold(p, &png_suffix_exec()) && starts_with_fold(
        &base_name_exec(p),
        &launcher_prefix_exec(),
    )
}

/// `seq![a] + b + seq![z]` as a vector.
fn framed(a: char, b: &Vec<char>, z: char) -> (r: Vec<char>)
    ensures
        r@ == seq![a] + b@ + seq![z],
{
    let mut r: Vec<char> = vec![a];
    let mut i: usize = 0;
    while i < b.len()
        invariant
            i <= b@.len(),
            r@ == seq![a] + b@.subrange(0, i as int),
        decreases b@.len() - i,
    {
        r.push(b[i]);
        i += 1;
    }
    r.push(z);
    assert(r@ =~= seq![a] + b@ + seq![z]);
    r
}

fn suffixed(b: &Vec<char>, z: char) -> (r: Vec<char>)
    ensures
        r@ == b@ + seq![z],
{
    let mut r = b.clone();
    r.push(z);
    r
}

fn in_bucket_exec(p: &Vec<char>, b: &Vec<char>) -> (r: bool)
    ensures
        r == in_bucket(p@, b@),
{
    contains_exec(p, &framed('/', b, '/')) || occurs_at_exec(p, &suffixed(b, '/'), 0)
        || contains_exec(p, &framed('\\', b, '\\')) || occurs_at_exec(p, &suffixed(b, '\\'), 0)
}

fn char_width_exec(c: char) -> (r: u128)
    ensures
        r == char_width(c),
{
    if (c as u32) < 0x80 {
        1
    } else if (c as u32) < 0x800 {
        2
    } else if (c as u32) < 0x10000 {
        3
    } else {
        4
    }
}

fn utf8_len_exec(s: &Vec<char>) -> (r: u128)
    ensures
        r == utf8_len(s@),
{
    let mut acc: u128 = 0;
    let mut i: usize = 0;
    while i < s.len()
        invariant
            i <= s@.len(),
            acc == utf8_len(s@.subrange(0, i as int)),
            acc <= 4 * i,
        decreases s@.len() - i,
    {
        assert(s@.subrange(0, i + 1).drop_last() =~= s@.subrange(0, i as int));
        acc = acc + char_width_exec(s[i]);
        i += 1;
    }
    assert(s@.subrange(0, i as int) =~= s@);
    acc
}

fn lex_le_exec(a: &Vec<char>, b: &Vec<char>) -> (r: bool)
    ensures
        r == lex_le(a@, b@),
{
    let mut i: usize = 0;
    while i < a.len() && i < b.len()
        invariant
            i <= a@.len(),
            i <= b@.len(),
            a@.subrange(0, i as int) == b@.subrange(0, i as int),
        decreases a@.len() - i,
    {
        if a[i] != b[i] {
            assert forall|j: int|
                0 <= j < a@.len() && j < b@.len() && a@.subrange(0, j) == b@.subrange(0, j) && a@[j]
                    < b@[j] implies j == i by {
                if j < i {
                    assert(a@.subrange(0, i as int)[j] == b@.subrange(0, i as int)[j]);
                } else if j > i {
                    assert(a@.subrange(0, j)[i as int] == b@.subrange(0, j)[i as int]);
                }
            }
            if a.len() <= b.len() {
                assert(b@.subrange(0, a@.len() as int)[i as int] == b@[i as int]);
            }
            return a[i] < b[i];
        }
        assert(a@.subrange(0, i + 1) =~= a@.subrange(0, i as int).push(a@[i as int]));
        assert(b@.subrange(0, i + 1) =~= b@.subrange(0, i as int).push(b@[i as int]));
        i += 1;
    }
    if a.len() <= b.len() {
        assert(a@.subrange(0, i as int) =~= a@);
        true
    } else {
        assert forall|j: int|
            0 <= j < a@.len() && j < b@.len() && a@.subrange(0, j) == b@.subrange(0, j) implies !(a@[j]
                < b@[j]) by {
            assert(a@.subrange(0, i as int)[j] == b@.subrange(0, i as int)[j]);
        }
        false
    }
}

fn plain_icon_suffix_exec() -> (r: Vec<char>)
    ensures
        r@ == plain_icon_suffix(),
{
    let r = vec!['i', 'c', '_', 'l', 'a', 'u', 'n', 'c', 'h', 'e', 'r', '.', 'p', 'n', 'g'];
    assert(r@ =~= plain_icon_suffix());
    r
}

fn round_icon_suffix_exec() -> (r: Vec<char>)
    ensures
        r@ == round_icon_suffix(),
{
    let r = vec![
        'i', 'c', '_', 'l', 'a', 'u', 'n', 'c', 'h', 'e', 'r', '_', 'r', 'o', 'u', 'n', 'd', '.',
        'p', 'n', 'g',
    ];
    assert(r@ =~= round_icon_suffix());
    r
}

fn rank_exec(p: &Vec<char>) -> (r: u8)
    ensures
        r == rank(p@),
{
    if ends_with_fold(p, &plain_icon_suffix_exec()) {
        0
    } else if ends_with_fold(p, &round_icon_suffix_exec()) {
        1
    } else {
        2
    }
}

fn le_exec(o: &Order, a: &Vec<char>, b: &Vec<char>) -> (r: bool)
    ensures
        r == le(*o, a@, b@),
{
    match o {
        Order::ByLength => utf8_len_exec(a) <= utf8_len_exec(b),
        Order::ByPreference => {
            let ra = rank_exec(a);
            let rb = rank_exec(b);
            ra < rb || (ra == rb && lex_le_exec(a, b))
        },
    }
}

proof fn lemma_insert_at(s: Seq<Seq<char>>, x: Seq<char>, o: Order, j: int)
    requires
        0 <= j <= s.len(),
        j == 0 || le(o, s[j - 1], x),
        forall|k: int| j <= k < s.len() ==> !le(o, #[trigger] s[k], x),
    ensures
        insert_by(s, x, o) == s.subrange(0, j).push(x) + s.subrange(j, s.len() as int),
    decreases s.len(),
{
    if s.len() > j {
        lemma_insert_at(s.drop_last(), x, o, j);
        assert(s.drop_last().subrange(0, j) =~= s.subrange(0, j));
        assert((s.subrange(0, j).push(x) + s.drop_last().subrange(j, s.len() - 1)).push(s.last())
            =~= s.subrange(0, j).push(x) + s.subrange(j, s.len() as int));
    } else {
        assert(s.subrange(0, j) =~= s);
        assert(s.subrange(0, j).push(x) + s.subrange(j, s.len() as int) =~= s.push(x));
    }
}

fn insert_exec(v: &mut Vec<Vec<char>>, x: Vec<char>, o: &Order)
    ensures
        rows(final(v)@) == insert_by(rows(old(v)@), x@, *o),
{
    let ghost s = rows(v@);
    let mut j: usize = v.len();
    while j > 0 && !le_exec(o, &v[j - 1], &x)
        invariant
            j <= v@.len(),
            s == rows(v@),
            forall|k: int| j <= k < s.len() ==> !le(*o, #[trigger] s[k], x@),
        decreases j,
    {
        j -= 1;
    }
    proof {
        lemma_insert_at(s, x@, *o, j as int);
    }
    let ghost xv = x@;
    v.insert(j, x);
    assert(rows(v@) =~= s.subrange(0, j as int).push(xv) + s.subrange(j as int, s.len() as int));
}

/// The stable sort of `v` in order `o`.
fn sort_exec(v: Vec<Vec<char>>, o: &Order) -> (r: Vec<Vec<char>>)
    ensures
        rows(r@) == sort_by(rows(v@), *o),
{
    let mut r: Vec<Vec<char>> = Vec::new();
    let mut i: usize = 0;
    while i < v.len()
        invariant
            i <= v@.len(),
            rows(r@) == sort_by(rows(v@).subrange(0, i as int), *o),
        decreases v@.len() - i,
    {
        assert(rows(v@).subrange(0, i + 1).drop_last() =~= rows(v@).subrange(0, i as int));
        insert_exec(&mut r, v[i].clone(), o);
        i += 1;
    }
    assert(rows(v@).subrange(0, i as int) =~= rows(v@));
    r
}

fn rows_of(names: &Vec<String>) -> (r: Vec<Vec<char>>)
    ensures
        rows(r@) == texts(names@),
{
    let mut r: Vec<Vec<char>> = Vec::new();
    let mut i: usize = 0;
    while i < names.len()
        invariant
            i <= names@.len(),
            rows(r@) == texts(names@).subrange(0, i as int),
        decreases names@.len() - i,
    {
        let row = chars_of(names[i].as_str());
        let ghost before = r@;
        r.push(row);
        assert(rows(r@) =~= rows(before).push(names@[i as int]@));
        i += 1;
        assert(rows(r@) =~= texts(names@).subrange(0, i as int));
    }
    assert(texts(names@).subrange(0, i as int) =~= texts(names@));
    r
}

fn texts_of(v: &Vec<Vec<char>>) -> (r: Vec<String>)
    ensures
        texts(r@) == rows(v@),
{
    let mut r: Vec<String> = Vec::new();
    let mut i: usize = 0;
    while i < v.len()
        invariant
            i <= v@.len(),
            texts(r@) == rows(v@).subrange(0, i as int),
        decreases v@.len() - i,
    {
        let t = text_of(&v[i]);
        let ghost before = r@;
        r.push(t);
        assert(texts(r@) =~= texts(before).push(v@[i as int]@));
        i += 1;
        assert(texts(r@) =~= rows(v@).subrange(0, i as int));
    }
    assert(rows(v@).subrange(0, i as int) =~= rows(v@));
    r
}

fn launcher_rows(v: &Vec<Vec<char>>) -> (r: Vec<Vec<char>>)
    ensures
        rows(r@) == rows(v@).filter(|p: Seq<char>| is_launcher_png(p)),
{
    let ghost pred = |p: Seq<char>| is_launcher_png(p);
    let mut r: Vec<Vec<char>> = Vec::new();
    let mut i: usize = 0;
    while i < v.len()
        invariant
            i <= v@.len(),
            pred == (|p: Seq<char>| is_launcher_png(p)),
            rows(r@) == rows(v@).subrange(0, i as int).filter(pred),
        decreases v@.len() - i,
    {
        let ghost pre = rows(v@).subrange(0, i as int);
        let ghost next = rows(v@).subrange(0, i + 1);
        assert(next.drop_last() =~= pre);
        proof {
            reveal(Seq::filter);
        }
        if is_launcher_png_exec(&v[i]) {
            let ghost before = r@;
            r.push(v[i].clone());
            assert(rows(r@) =~= rows(before).push(v@[i as int]@));
        }
        i += 1;
    }
    assert(rows(v@).subrange(0, i as int) =~= rows(v@));
    r
}

fn bucket_rows_of(v: &Vec<Vec<char>>, b: &Vec<char>) -> (r: Vec<Vec<char>>)
    ensures
        rows(r@) == rows(v@).filter(|p: Seq<char>| in_bucket(p, b@) && is_launcher_png(p)),
{
    let ghost pred = |p: Seq<char>| in_bucket(p, b@) && is_launcher_png(p);
    let mut r: Vec<Vec<char>> = Vec::new();
    let mut i: usize = 0;
    while i < v.len()
        invariant
            i <= v@.len(),
            pred == (|p: Seq<char>| in_bucket(p, b@) && is_launcher_png(p)),
            rows(r@) == rows(v@).subrange(0, i as int).filter(pred),
        decreases v@.len() - i,
    {
        let ghost pre = rows(v@).subrange(0, i as int);
        let ghost next = rows(v@).subrange(0, i + 1);
        assert(next.drop_last() =~= pre);
        proof {
            reveal(Seq::filter);
        }
        if in_bucket_exec(&v[i], b) && is_launcher_png_exec(&v[i]) {
            let ghost before = r@;
            r.push(v[i].clone());
            assert(rows(r@) =~= rows(before).push(v@[i as int]@));
        }
        i += 1;
    }
    assert(rows(v@).subrange(0, i as int) =~= rows(v@));
    r
}

fn bucket_list() -> (r: Vec<Vec<char>>)
    ensures
        rows(r@) == buckets(),
{
    let mut r: Vec<Vec<char>> = Vec::new();
    r.push(chars_of("mipmap-xxxhdpi"));
    r.push(chars_of("drawable-xxxhdpi"));
    r.push(chars_of("mipmap-xxhdpi"));
    r.push(chars_of("drawable-xxhdpi"));
    r.push(chars_of("mipmap-xhdpi"));
    r.push(chars_of("drawable-xhdpi"));
    r.push(chars_of("mipmap-hdpi"));
    r.push(chars_of("drawable-hdpi"));
    r.push(chars_of("mipmap-mdpi"));
    r.push(chars_of("drawable-mdpi"));
    r.push(chars_of("mipmap-ldpi"));
    r.push(chars_of("drawable-ldpi"));
    r.push(chars_of("mipmap"));
    r.push(chars_of("drawable"));
    assert(rows(r@) =~= buckets());
    r
}

fn append_rows(acc: &mut Vec<Vec<char>>, more: Vec<Vec<char>>)
    ensures
        rows(final(acc)@) == rows(old(acc)@) + rows(more@),
{
    let mut i: usize = 0;
    let ghost start = rows(acc@);
    while i < more.len()
        invariant
            i <= more@.len(),
            rows(acc@) == start + rows(more@).subrange(0, i as int),
        decreases more@.len() - i,
    {
        let ghost before = acc@;
        acc.push(more[i].clone());
        assert(rows(acc@) =~= rows(before).push(more@[i as int]@));
        i += 1;
        assert(rows(acc@) =~= start + rows(more@).subrange(0, i as int));
    }
    assert(rows(more@).subrange(0, i as int) =~= rows(more@));
}

fn name_rows(v: &Vec<Vec<char>>) -> (r: Vec<Vec<char>>)
    ensures
        rows(r@) == name_candidates(rows(v@)),
{
    sort_exec(launcher_rows(v), &Order::ByLength)
}

fn bucket_candidate_rows(v: &Vec<Vec<char>>, b: &Vec<char>) -> (r: Vec<Vec<char>>)
    ensures
        rows(r@) == bucket_candidates(rows(v@), b@),
{
    sort_exec(bucket_rows_of(v, b), &Order::ByPreference)
}

fn candidate_rows(v: &Vec<Vec<char>>) -> (r: Vec<Vec<char>>)
    ensures
        rows(r@) == icon_candidates(rows(v@)),
{
    let mut acc = name_rows(v);
    let ghost first = rows(acc@);
    let bs = bucket_list();
    let mut k: usize = 0;
    while k < bs.len()
        invariant
            k <= bs@.len(),
            rows(bs@) == buckets(),
            first == name_candidates(rows(v@)),
            rows(acc@) == first + bucket_sweep(rows(v@), buckets().subrange(0, k as int)),
        decreases bs@.len() - k,
    {
        let more = bucket_candidate_rows(v, &bs[k]);
        let ghost next = buckets().subrange(0, k + 1);
        assert(next.drop_last() =~= buckets().subrange(0, k as int));
        assert(next.last() == bs@[k as int]@);
        append_rows(&mut acc, more);
        k += 1;
        assert(rows(acc@) =~= first + bucket_sweep(rows(v@), buckets().subrange(0, k as int)));
    }
    assert(buckets().subrange(0, k as int) =~= buckets());
    acc
}

/// First phase of the icon search: the entries whose name ends in `.png` and
/// whose file name starts with `ic_launcher` (both ignoring ASCII case), the
/// shortest path in UTF-8 bytes first, equal lengths in listing order.
pub fn scan_by_name(names: &Vec<String>) -> (r: Vec<String>)
    ensures
        texts(r@) == name_candidates(texts(names@)),
{
    texts_of(&name_rows(&rows_of(names)))
}

/// Second phase of the icon search, for one resource directory: the launcher
/// PNGs that have `bucket` as a path segment, `ic_launcher.png` first, then
/// `ic_launcher_round.png`, then the others, each group in code-point order.
pub fn scan_by_bucket(names: &Vec<String>, bucket: &str) -> (r: Vec<String>)
    ensures
        texts(r@) == bucket_candidates(texts(names@), bucket@),
{
    texts_of(&bucket_candidate_rows(&rows_of(names), &chars_of(bucket)))
}

/// Every entry that the icon search tries, in the order it tries them: the
/// first phase, then the second phase bucket by bucket from the highest density.
pub fn icon_search_order(names: &Vec<String>) -> (r: Vec<String>)
    ensures
        texts(r@) == icon_candidates(texts(names@)),
{
    texts_of(&candidate_rows(&rows_of(names)))
}

} // verus!
