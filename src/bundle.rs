//! Recognition of bundle containers and choice of the package they wrap.
use vstd::prelude::*;
use crate::icon::texts;
use crate::text::{chars_of, ends_with_ci, ends_with_fold, same_ci};

verus! {

/// How many entry names an empty-bundle report shows at most.
pub const SHOWN_NAMES: usize = 30;

/// A file extension that marks a bundle, ignoring ASCII case.
pub open spec fn is_bundle_ext(ext: Seq<char>) -> bool {
    same_ci(ext, "xapk"@)
}

/// The canonical names of the wrapped package, most likely first.
pub open spec fn priority_names() -> Seq<Seq<char>> {
    seq!["base.apk"@, "split_config.base.apk"@, "master.apk"@]
}

/// The first of `ps` that is among `names`.
pub open spec fn first_listed(names: Seq<Seq<char>>, ps: Seq<Seq<char>>) -> Option<Seq<char>>
    decreases ps.len(),
{
    if ps.len() == 0 {
        None
    } else if names.contains(ps[0]) {
        Some(ps[0])
    } else {
        first_listed(names, ps.drop_first())
    }
}

pub open spec fn apk_suffix() -> Seq<char> {
    seq!['.', 'a', 'p', 'k']
}

/// The first of `names` that ends in `.apk`, ignoring ASCII case.
pub open spec fn first_apk(names: Seq<Seq<char>>) -> Option<Seq<char>>
    decreases names.len(),
{
    if names.len() == 0 {
        None
    } else if ends_with_ci(names[0], apk_suffix()) {
        Some(names[0])
    } else {
        first_apk(names.drop_first())
    }
}

/// The entry of a bundle that holds the wrapped package: the first canonical
/// name that is present, else the first entry ending in `.apk`.
pub open spec fn inner_package(names: Seq<Seq<char>>) -> Option<Seq<char>> {
    match first_listed(names, priority_names()) {
        Some(p) => Some(p),
        None => first_apk(names),
    }
}

/// The names shown when a bundle wraps no package.
pub open spec fn shown_names(names: Seq<Seq<char>>) -> Seq<Seq<char>> {
    if names.len() <= SHOWN_NAMES {
        names
    } else {
        names.subrange(0, SHOWN_NAMES as int)
    }
}

/// Whether a file with extension `ext` (without the dot) is a bundle.
pub fn is_bundle_extension(ext: &str) -> (r: bool)
    ensures
        r == is_bundle_ext(ext@),
{
    let e = chars_of(ext);
    let x = chars_of("xapk");
    if e.len() != x.len() {
        return false;
    }
    let r = ends_with_fold(&e, &x);
    assert(e@.subrange(0, e@.len() as int) =~= e@);
    r
}

fn position_of(names: &Vec<String>, p: &String) -> (r: bool)
    ensures
        r == texts(names@).contains(p@),
{
    let mut i: usize = 0;
    while i < names.len()
        invariant
            i <= names@.len(),
            forall|k: int| 0 <= k < i ==> names@[k]@ != p@,
        decreases names@.len() - i,
    {
        if names[i] == *p {
            assert(texts(names@)[i as int] == p@);
            return true;
        }
        i += 1;
    }
    proof {
        if texts(names@).contains(p@) {
            let k = choose|k: int| 0 <= k < texts(names@).len() && texts(names@)[k] == p@;
            assert(names@[k]@ == p@);
        }
    }
    false
}

/// Chooses the entry of a bundle that holds the wrapped package, given the
/// bundle's entry names in listing order. When there is none, the error holds
/// the first names of the listing.
pub fn select_inner_package(names: &Vec<String>) -> (r: Result<String, Vec<String>>)
    ensures
        match r {
            Ok(n) => inner_package(texts(names@)) == Some(n@),
            Err(shown) => inner_package(texts(names@)) is None && texts(shown@) == shown_names(
                texts(names@),
            ),
        },
{
    let ghost ns = texts(names@);
    let priority = vec![
        String::from_str("base.apk"),
        String::from_str("split_config.base.apk"),
        String::from_str("master.apk"),
    ];
    assert(texts(priority@) =~= priority_names());
    assert(priority_names().subrange(0, 3) =~= priority_names());
    let mut k: usize = 0;
    while k < priority.len()
        invariant
            k <= priority@.len(),
            texts(priority@) == priority_names(),
            ns == texts(names@),
            first_listed(ns, priority_names()) == first_listed(
                ns,
                priority_names().subrange(k as int, 3),
            ),
        decreases priority@.len() - k,
    {
        let ghost rest = priority_names().subrange(k as int, 3);
        assert(rest.drop_first() =~= priority_names().subrange(k + 1, 3));
        assert(texts(priority@)[k as int] == priority@[k as int]@);
        assert(rest[0] == priority@[k as int]@);
        if position_of(names, &priority[k]) {
            return Ok(priority[k].clone());
        }
        k += 1;
    }
    assert(first_listed(ns, priority_names().subrange(3, 3)) is None);
    let suffix = vec!['.', 'a', 'p', 'k'];
    assert(suffix@ =~= apk_suffix());
    let mut i: usize = 0;
    assert(ns.subrange(0, ns.len() as int) =~= ns);
    while i < names.len()
        invariant
            i <= names@.len(),
            ns == texts(names@),
            suffix@ == apk_suffix(),
            first_listed(ns, priority_names()) is None,
            first_apk(ns) == first_apk(ns.subrange(i as int, ns.len() as int)),
        decreases names@.len() - i,
    {
        let ghost rest = ns.subrange(i as int, ns.len() as int);
        assert(rest.drop_first() =~= ns.subrange(i + 1, ns.len() as int));
        assert(rest[0] == names@[i as int]@);
        if ends_with_fold(&chars_of(names[i].as_str()), &suffix) {
            return Ok(names[i].clone());
        }
        i += 1;
    }
    let mut shown: Vec<String> = Vec::new();
    let mut j: usize = 0;
    while j < names.len() && j < SHOWN_NAMES
        invariant
            j <= names@.len(),
            j <= SHOWN_NAMES,
            texts(shown@) == texts(names@).subrange(0, j as int),
        decreases names@.len() - j,
    {
        let ghost before = shown@;
        shown.push(names[j].clone());
        assert(texts(shown@) =~= texts(before).push(names@[j as int]@));
        j += 1;
        assert(texts(shown@) =~= texts(names@).subrange(0, j as int));
    }
    assert(texts(shown@) =~= shown_names(ns));
    Err(shown)
}

} // verus!
