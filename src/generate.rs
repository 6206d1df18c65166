//! Generation of passwords and UUID texts.
use rand::Rng;
use uuid::Uuid;
use vstd::prelude::*;
use crate::text::{chars_of, text_of};

verus! {

/// The character classes a generated password draws from.
#[derive(Debug)]
pub struct PasswordOptions {
    pub length: u32,
    pub uppercase: bool,
    pub lowercase: bool,
    pub numbers: bool,
    pub symbols: bool,
    pub exclude_ambiguous: bool,
}

pub open spec fn upper_letters() -> Seq<char> {
    "ABCDEFGHIJKLMNOPQRSTUVWXYZ"@
}

pub open spec fn lower_letters() -> Seq<char> {
    "abcdefghijklmnopqrstuvwxyz"@
}

pub open spec fn digits() -> Seq<char> {
    "0123456789"@
}

pub open spec fn symbols() -> Seq<char> {
    "!@#$%^&*()_+-=[]{}|;:,.<>?"@
}

/// Characters that are easily mistaken for one another.
pub open spec fn ambiguous() -> Seq<char> {
    "0OIl1"@
}

/// The characters a class contributes: none when not selected, and without
/// the ambiguous ones when those are excluded.
pub open spec fn class(selected: bool, chars: Seq<char>, exclude: bool) -> Seq<char> {
    if !selected {
        Seq::empty()
    } else if exclude {
        chars.filter(|c: char| !ambiguous().contains(c))
    } else {
        chars
    }
}

pub open spec fn upper_class(o: PasswordOptions) -> Seq<char> {
    class(o.uppercase, upper_letters(), o.exclude_ambiguous)
}

pub open spec fn lower_class(o: PasswordOptions) -> Seq<char> {
    class(o.lowercase, lower_letters(), o.exclude_ambiguous)
}

pub open spec fn digit_class(o: PasswordOptions) -> Seq<char> {
    class(o.numbers, digits(), o.exclude_ambiguous)
}

pub open spec fn symbol_class(o: PasswordOptions) -> Seq<char> {
    class(o.symbols, symbols(), o.exclude_ambiguous)
}

/// Every character a password may hold, class after class.
pub open spec fn charset(o: PasswordOptions) -> Seq<char> {
    upper_class(o) + lower_class(o) + digit_class(o) + symbol_class(o)
}

/// The first character of `s`, if any.
pub open spec fn lead(s: Seq<char>) -> Seq<char> {
    if s.len() > 0 {
        seq![s[0]]
    } else {
        Seq::empty()
    }
}

/// The characters every password starts from: the first of each selected class.
pub open spec fn required(o: PasswordOptions) -> Seq<char> {
    lead(upper_class(o)) + lead(lower_class(o)) + lead(digit_class(o)) + lead(symbol_class(o))
}

/// The length of a password: the requested length, or more when the required
/// characters alone are more.
pub open spec fn password_len(o: PasswordOptions) -> nat {
    if required(o).len() >= o.length {
        required(o).len()
    } else {
        o.length as nat
    }
}

/// `p` is a password for `o`: of the right length, made of the charset's characters.
pub open spec fn is_password(p: Seq<char>, o: PasswordOptions) -> bool {
    p.len() == password_len(o) && forall|i: int| 0 <= i < p.len() ==> charset(o).contains(#[trigger] p[i])
}

/// Relies on `rand::thread_rng` and `Rng::gen_range`: a number drawn from
/// `0..n`, which is never empty here.
#[verifier::external_body]
fn random_below(n: usize) -> (r: usize)
    requires
        n > 0,
    ensures
        r < n,
{
    rand::thread_rng().gen_range(0..n)
}

fn contains_char(s: &Vec<char>, c: char) -> (r: bool)
    ensures
        r == s@.contains(c),
{
    let mut i: usize = 0;
    while i < s.len()
        invariant
            i <= s@.len(),
            forall|k: int| 0 <= k < i ==> s@[k] != c,
        decreases s@.len() - i,
    {
        if s[i] == c {
            return true;
        }
        i += 1;
    }
    false
}

fn class_exec(selected: bool, chars: &str, exclude: bool) -> (r: Vec<char>)
    ensures
        r@ == class(selected, chars@, exclude),
{
    if !selected {
        return Vec::new();
    }
    let all = chars_of(chars);
    if !exclude {
        return all;
    }
    let amb = chars_of("0OIl1");
    let ghost pred = |c: char| !ambiguous().contains(c);
    let mut r: Vec<char> = Vec::new();
    let mut i: usize = 0;
    while i < all.len()
        invariant
            i <= all@.len(),
            amb@ == ambiguous(),
            pred == (|c: char| !ambiguous().contains(c)),
            r@ == all@.subrange(0, i as int).filter(pred),
        decreases all@.len() - i,
    {
        assert(all@.subrange(0, i + 1).drop_last() =~= all@.subrange(0, i as int));
        proof {
            reveal(Seq::filter);
        }
        if !contains_char(&amb, all[i]) {
            r.push(all[i]);
        }
        i += 1;
    }
    assert(all@.subrange(0, i as int) =~= all@);
    r
}

fn append_chars(acc: &mut Vec<char>, more: &Vec<char>)
    ensures
        final(acc)@ == old(acc)@ + more@,
{
    let ghost start = acc@;
    let mut i: usize = 0;
    while i < more.len()
        invariant
            i <= more@.len(),
            acc@ == start + more@.subrange(0, i as int),
        decreases more@.len() - i,
    {
        acc.push(more[i]);
        i += 1;
        assert(acc@ =~= start + more@.subrange(0, i as int));
    }
    assert(more@.subrange(0, i as int) =~= more@);
}

fn push_lead(acc: &mut Vec<char>, s: &Vec<char>)
    ensures
        final(acc)@ == old(acc)@ + lead(s@),
{
    if s.len() > 0 {
        acc.push(s[0]);
    }
    assert(acc@ =~= old(acc)@ + lead(s@));
}

proof fn lemma_required_in_charset(a: Seq<char>, b: Seq<char>, c: Seq<char>, d: Seq<char>)
    ensures
        forall|i: int|
            0 <= i < (lead(a) + lead(b) + lead(c) + lead(d)).len() ==> (a + b + c + d).contains(
                #[trigger] (lead(a) + lead(b) + lead(c) + lead(d))[i],
            ),
{
    let all = a + b + c + d;
    let req = lead(a) + lead(b) + lead(c) + lead(d);
    assert forall|i: int| 0 <= i < req.len() implies all.contains(#[trigger] req[i]) by {
        let la = lead(a).len() as int;
        let lb = lead(b).len() as int;
        let lc = lead(c).len() as int;
        if i < la {
            assert(all[0] == a[0]);
        } else if i < la + lb {
            assert(all[a.len() as int] == b[0]);
        } else if i < la + lb + lc {
            assert(all[(a.len() + b.len()) as int] == c[0]);
        } else {
            assert(all[(a.len() + b.len() + c.len()) as int] == d[0]);
        }
    }
}

/// One password: the required characters, filled up to the length with
/// characters drawn from the charset, then as many characters drawn from that.
fn one_password(charset: &Vec<char>, required: &Vec<char>, length: u32) -> (r: Vec<char>)
    requires
        charset@.len() > 0,
        forall|i: int| 0 <= i < required@.len() ==> charset@.contains(#[trigger] required@[i]),
    ensures
        r@.len() == if required@.len() >= length { required@.len() } else { length as nat },
        forall|i: int| 0 <= i < r@.len() ==> charset@.contains(#[trigger] r@[i]),
{
    let mut pw: Vec<char> = Vec::new();
    append_chars(&mut pw, required);
    while pw.len() < length as usize
        invariant
            pw@.len() == required@.len() || pw@.len() <= length,
            pw@.len() >= required@.len(),
            charset@.len() > 0,
            forall|i: int| 0 <= i < pw@.len() ==> charset@.contains(#[trigger] pw@[i]),
        decreases length - pw@.len(),
    {
        let k = random_below(charset.len());
        pw.push(charset[k]);
        assert(charset@.contains(charset@[k as int]));
    }
    let n = pw.len();
    let mut out: Vec<char> = Vec::new();
    let mut j: usize = 0;
    while j < n
        invariant
            j <= n,
            n == pw@.len(),
            out@.len() == j,
            forall|i: int| 0 <= i < pw@.len() ==> charset@.contains(#[trigger] pw@[i]),
            forall|i: int| 0 <= i < out@.len() ==> charset@.contains(#[trigger] out@[i]),
        decreases n - j,
    {
        let k = random_below(n);
        out.push(pw[k]);
        j += 1;
    }
    out
}

/// Generates `count` passwords. Each is made of the selected classes'
/// characters (without the ambiguous ones when asked); it starts from the
/// first character of each selected class, is filled up to the requested
/// length with random characters of the charset, and is then made of as many
/// random picks among its own characters. No class to draw from is an error.
pub fn generate_passwords(options: PasswordOptions, count: u32) -> (r: Result<Vec<String>, String>)
    ensures
        r is Err <==> charset(options).len() == 0,
        r matches Err(m) ==> m@ == "请至少选择一种字符类型"@,
        r matches Ok(ps) ==> ps@.len() == count && forall|i: int|
            0 <= i < ps@.len() ==> is_password(#[trigger] ps@[i]@, options),
{
    let upper = class_exec(options.uppercase, "ABCDEFGHIJKLMNOPQRSTUVWXYZ", options.exclude_ambiguous);
    let lower = class_exec(options.lowercase, "abcdefghijklmnopqrstuvwxyz", options.exclude_ambiguous);
    let numbers = class_exec(options.numbers, "0123456789", options.exclude_ambiguous);
    let symbols = class_exec(options.symbols, "!@#$%^&*()_+-=[]{}|;:,.<>?", options.exclude_ambiguous);
    let mut pool: Vec<char> = Vec::new();
    append_chars(&mut pool, &upper);
    append_chars(&mut pool, &lower);
    append_chars(&mut pool, &numbers);
    append_chars(&mut pool, &symbols);
    let mut needed: Vec<char> = Vec::new();
    push_lead(&mut needed, &upper);
    push_lead(&mut needed, &lower);
    push_lead(&mut needed, &numbers);
    push_lead(&mut needed, &symbols);
    proof {
        lemma_required_in_charset(upper@, lower@, numbers@, symbols@);
    }
    if pool.len() == 0 {
        return Err(String::from_str("请至少选择一种字符类型"));
    }
    let mut passwords: Vec<String> = Vec::new();
    let mut k: u32 = 0;
    while k < count
        invariant
            k <= count,
            passwords@.len() == k,
            pool@ == charset(options),
            needed@ == required(options),
            pool@.len() > 0,
            forall|i: int| 0 <= i < needed@.len() ==> pool@.contains(#[trigger] needed@[i]),
            forall|i: int| 0 <= i < passwords@.len() ==> is_password(#[trigger] passwords@[i]@, options),
        decreases count - k,
    {
        let pw = one_password(&pool, &needed, options.length);
        let t = text_of(&pw);
        let ghost before = passwords@;
        passwords.push(t);
        assert(passwords@[k as int] == t);
        assert(forall|i: int| 0 <= i < before.len() ==> passwords@[i] == before[i]);
        k += 1;
    }
    Ok(passwords)
}

/// The positions of the hyphens in a hyphenated UUID text.
pub open spec fn is_hyphen_pos(i: int) -> bool {
    i == 8 || i == 13 || i == 18 || i == 23
}

pub open spec fn is_lower_hex(c: char) -> bool {
    ('0' <= c && c <= '9') || ('a' <= c && c <= 'f')
}

/// A hyphenated lower-case version-4 UUID text: 8-4-4-4-12 hexadecimal
/// digits, the version digit `4` and a variant digit among `8`, `9`, `a`, `b`.
pub open spec fn uuid_shape(t: Seq<char>) -> bool {
    t.len() == 36 && t[14] == '4' && (t[19] == '8' || t[19] == '9' || t[19] == 'a' || t[19] == 'b')
        && forall|i: int|
        0 <= i < 36 ==> if is_hyphen_pos(i) {
            t[i] == '-'
        } else {
            is_lower_hex(#[trigger] t[i])
        }
}

/// ASCII upper case of one character.
pub open spec fn upper(c: char) -> char {
    if 'a' <= c && c <= 'z' {
        ((c as u8) - 32) as char
    } else {
        c
    }
}

/// A UUID text as asked for: without hyphens unless they are kept, in upper
/// case when asked.
pub open spec fn styled(t: Seq<char>, uppercase: bool, with_hyphens: bool) -> Seq<char> {
    let a = if with_hyphens {
        t
    } else {
        t.filter(|c: char| c != '-')
    };
    if uppercase {
        a.map_values(|c: char| upper(c))
    } else {
        a
    }
}

/// `s` is some UUID text, styled as asked.
pub open spec fn is_uuid_text(s: Seq<char>, uppercase: bool, with_hyphens: bool) -> bool {
    exists|t: Seq<char>| uuid_shape(t) && s == styled(t, uppercase, with_hyphens)
}

/// Relies on `uuid::Uuid::new_v4` for a random UUID (version bits 4, variant
/// bits 10) and on its `Display`, which writes the hyphenated lower-case form.
#[verifier::external_body]
fn new_uuid_text() -> (r: String)
    ensures
        uuid_shape(r@),
{
    Uuid::new_v4().to_string()
}

/// Styles a UUID text: drops its hyphens unless `with_hyphens`, and turns
/// ASCII letters to upper case when `uppercase`.
pub fn style_uuid(text: &str, uppercase: bool, with_hyphens: bool) -> (r: String)
    ensures
        r@ == styled(text@, uppercase, with_hyphens),
{
    let t = chars_of(text);
    let ghost keep = |c: char| c != '-';
    let mut a: Vec<char> = Vec::new();
    let mut i: usize = 0;
    while i < t.len()
        invariant
            i <= t@.len(),
            keep == (|c: char| c != '-'),
            a@ == if with_hyphens {
                t@.subrange(0, i as int)
            } else {
                t@.subrange(0, i as int).filter(keep)
            },
        decreases t@.len() - i,
    {
        assert(t@.subrange(0, i + 1).drop_last() =~= t@.subrange(0, i as int));
        assert(t@.subrange(0, i + 1) =~= t@.subrange(0, i as int).push(t@[i as int]));
        proof {
            reveal(Seq::filter);
        }
        if with_hyphens || t[i] != '-' {
            a.push(t[i]);
        }
        i += 1;
    }
    assert(t@.subrange(0, i as int) =~= t@);
    if !uppercase {
        return text_of(&a);
    }
    let mut b: Vec<char> = Vec::new();
    let mut j: usize = 0;
    while j < a.len()
        invariant
            j <= a@.len(),
            b@ == a@.subrange(0, j as int).map_values(|c: char| upper(c)),
        decreases a@.len() - j,
    {
        let c = a[j];
        let u = if 'a' <= c && c <= 'z' {
            ((c as u8) - 32) as char
        } else {
            c
        };
        b.push(u);
        j += 1;
        assert(b@ =~= a@.subrange(0, j as int).map_values(|c: char| upper(c)));
    }
    assert(a@.subrange(0, j as int) =~= a@);
    text_of(&b)
}

/// Generates `count` random UUID texts, styled as asked. Versions `v4` and
/// `v7` are accepted (both drawn at random); any other is an error once a
/// UUID is to be made.
pub fn generate_uuids(count: u32, version: String, uppercase: bool, with_hyphens: bool) -> (r: Result<
    Vec<String>,
    String,
>)
    ensures
        r is Err <==> (count > 0 && version@ != "v4"@ && version@ != "v7"@),
        r matches Err(m) ==> m@ == "不支持的 UUID 版本: "@ + version@,
        r matches Ok(v) ==> v@.len() == count && forall|i: int|
            0 <= i < v@.len() ==> is_uuid_text(#[trigger] v@[i]@, uppercase, with_hyphens),
{
    let v4 = String::from_str("v4");
    let v7 = String::from_str("v7");
    let mut uuids: Vec<String> = Vec::new();
    let mut k: u32 = 0;
    while k < count
        invariant
            k <= count,
            uuids@.len() == k,
            v4@ == "v4"@,
            v7@ == "v7"@,
            k > 0 ==> (version@ == "v4"@ || version@ == "v7"@),
            forall|i: int|
                0 <= i < uuids@.len() ==> is_uuid_text(#[trigger] uuids@[i]@, uppercase, with_hyphens),
        decreases count - k,
    {
        if !(version == v4) && !(version == v7) {
            let mut msg = String::from_str("不支持的 UUID 版本: ");
            msg.append(version.as_str());
            return Err(msg);
        }
        let text = new_uuid_text();
        let s = style_uuid(text.as_str(), uppercase, with_hyphens);
        let ghost before = uuids@;
        uuids.push(s);
        assert(uuids@[k as int]@ == styled(text@, uppercase, with_hyphens));
        assert(is_uuid_text(uuids@[k as int]@, uppercase, with_hyphens));
        assert(forall|i: int| 0 <= i < before.len() ==> uuids@[i] == before[i]);
        k += 1;
    }
    Ok(uuids)
}

} // verus!
