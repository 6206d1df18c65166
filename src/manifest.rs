//! Metadata of a decoded manifest.
use std::io::Cursor;
use vstd::prelude::*;
use crate::normalize::{clean_attr_value, normalized};
use crate::axml::axml_safe;
use crate::tree::{declaration_order, declared, ints};

verus! {

/// One element of a decoded manifest: its tag and its attributes as
/// (name, raw value) pairs.
#[derive(Debug)]
pub struct Element {
    pub tag: String,
    pub attrs: Vec<(String, String)>,
}

/// The fields that a manifest gives to the package record.
#[derive(Debug)]
pub struct ManifestFields {
    pub package_name: String,
    pub version_name: String,
    pub version_code: String,
    pub min_sdk_version: String,
    pub target_sdk_version: String,
    pub compile_sdk_version: String,
    pub permissions: Vec<String>,
    pub activities: Vec<String>,
    pub services: Vec<String>,
    pub receivers: Vec<String>,
    pub providers: Vec<String>,
}

/// The display text of a field that the manifest does not give.
pub open spec fn placeholder() -> Seq<char> {
    "unspecified"@
}

/// The raw value of the first attribute named `key`.
pub open spec fn attr(attrs: Seq<(String, String)>, key: Seq<char>) -> Option<Seq<char>>
    decreases attrs.len(),
{
    if attrs.len() == 0 {
        None
    } else if attrs[0].0@ == key {
        Some(attrs[0].1@)
    } else {
        attr(attrs.drop_first(), key)
    }
}

/// The raw value of the first of `keys` that is present.
pub open spec fn first_of(attrs: Seq<(String, String)>, keys: Seq<Seq<char>>) -> Option<Seq<char>>
    decreases keys.len(),
{
    if keys.len() == 0 {
        None
    } else {
        match attr(attrs, keys[0]) {
            Some(v) => Some(v),
            None => first_of(attrs, keys.drop_first()),
        }
    }
}

/// The normalised value of the first of `keys` that is present, or the empty text.
pub open spec fn resolved(attrs: Seq<(String, String)>, keys: Seq<Seq<char>>) -> Seq<char> {
    match first_of(attrs, keys) {
        Some(v) => normalized(v),
        None => Seq::empty(),
    }
}

/// A field's text: the value, or the placeholder when it is empty.
pub open spec fn or_placeholder(v: Seq<char>) -> Seq<char> {
    if v.len() == 0 {
        placeholder()
    } else {
        v
    }
}

/// The attributes of the first element tagged `tag`; none when there is no such element.
pub open spec fn tagged_attrs(els: Seq<Element>, tag: Seq<char>) -> Seq<(String, String)>
    decreases els.len(),
{
    if els.len() == 0 {
        Seq::empty()
    } else if els[0].tag@ == tag {
        els[0].attrs@
    } else {
        tagged_attrs(els.drop_first(), tag)
    }
}

/// The normalised `android:name` of every element tagged `kind` that has one, in element order.
pub open spec fn component_names(els: Seq<Element>, kind: Seq<char>) -> Seq<Seq<char>>
    decreases els.len(),
{
    if els.len() == 0 {
        Seq::empty()
    } else {
        let rest = component_names(els.drop_last(), kind);
        let e = els.last();
        match attr(e.attrs@, "android:name"@) {
            Some(v) if e.tag@ == kind => rest.push(normalized(v)),
            _ => rest,
        }
    }
}

pub open spec fn manifest_attrs(els: Seq<Element>) -> Seq<(String, String)> {
    tagged_attrs(els, "manifest"@)
}

pub open spec fn sdk_attrs(els: Seq<Element>) -> Seq<(String, String)> {
    tagged_attrs(els, "uses-sdk"@)
}

pub open spec fn package_name_of(els: Seq<Element>) -> Seq<char> {
    or_placeholder(resolved(manifest_attrs(els), seq!["package"@]))
}

pub open spec fn version_name_of(els: Seq<Element>) -> Seq<char> {
    or_placeholder(resolved(manifest_attrs(els), seq!["android:versionName"@, "versionName"@]))
}

pub open spec fn version_code_of(els: Seq<Element>) -> Seq<char> {
    or_placeholder(resolved(manifest_attrs(els), seq!["android:versionCode"@, "versionCode"@]))
}

/// The compile SDK version, falling back to its codename when the number is not given.
pub open spec fn compile_sdk_of(els: Seq<Element>) -> Seq<char> {
    let n = resolved(manifest_attrs(els), seq!["android:compileSdkVersion"@, "compileSdkVersion"@]);
    if n.len() > 0 {
        n
    } else {
        or_placeholder(
            resolved(
                manifest_attrs(els),
                seq!["android:compileSdkVersionCodename"@, "compileSdkVersionCodename"@],
            ),
        )
    }
}

pub open spec fn min_sdk_of(els: Seq<Element>) -> Seq<char> {
    or_placeholder(resolved(sdk_attrs(els), seq!["android:minSdkVersion"@, "minSdkVersion"@]))
}

pub open spec fn target_sdk_of(els: Seq<Element>) -> Seq<char> {
    or_placeholder(resolved(sdk_attrs(els), seq!["android:targetSdkVersion"@, "targetSdkVersion"@]))
}

pub open spec fn str_views(v: Seq<String>) -> Seq<Seq<char>> {
    v.map_values(|s: String| s@)
}

/// `f` holds what the manifest made of `els` gives.
pub open spec fn fields_of(f: ManifestFields, els: Seq<Element>) -> bool {
    &&& f.package_name@ == package_name_of(els)
    &&& f.version_name@ == version_name_of(els)
    &&& f.version_code@ == version_code_of(els)
    &&& f.min_sdk_version@ == min_sdk_of(els)
    &&& f.target_sdk_version@ == target_sdk_of(els)
    &&& f.compile_sdk_version@ == compile_sdk_of(els)
    &&& str_views(f.permissions@) == component_names(els, "uses-permission"@)
    &&& str_views(f.activities@) == component_names(els, "activity"@)
    &&& str_views(f.services@) == component_names(els, "service"@)
    &&& str_views(f.receivers@) == component_names(els, "receiver"@)
    &&& str_views(f.providers@) == component_names(els, "provider"@)
}

proof fn lemma_untagged(els: Seq<Element>, tag: Seq<char>)
    requires
        forall|i: int| 0 <= i < els.len() ==> #[trigger] els[i].tag@ != tag,
    ensures
        tagged_attrs(els, tag) == Seq::<(String, String)>::empty(),
    decreases els.len(),
{
    if els.len() > 0 {
        assert(els[0].tag@ != tag);
        assert forall|i: int| 0 <= i < els.drop_first().len() implies #[trigger] els.drop_first()[
            i].tag@ != tag by {
            assert(els.drop_first()[i] == els[i + 1]);
        }
        lemma_untagged(els.drop_first(), tag);
    }
}

proof fn lemma_nothing_resolves(keys: Seq<Seq<char>>)
    ensures
        first_of(Seq::<(String, String)>::empty(), keys) is None,
    decreases keys.len(),
{
    if keys.len() > 0 {
        lemma_nothing_resolves(keys.drop_first());
    }
}

/// A manifest without a `uses-sdk` element gives the placeholder as its
/// minimum and target SDK versions.
pub proof fn lemma_no_sdk_element(els: Seq<Element>)
    requires
        forall|i: int| 0 <= i < els.len() ==> #[trigger] els[i].tag@ != "uses-sdk"@,
    ensures
        min_sdk_of(els) == placeholder(),
        target_sdk_of(els) == placeholder(),
{
    lemma_untagged(els, "uses-sdk"@);
    lemma_nothing_resolves(seq!["android:minSdkVersion"@, "minSdkVersion"@]);
    lemma_nothing_resolves(seq!["android:targetSdkVersion"@, "targetSdkVersion"@]);
    reveal_strlit("unspecified");
}

/// The raw value of the first attribute named `key`.
pub fn attr_value(attrs: &Vec<(String, String)>, key: &String) -> (r: Option<String>)
    ensures
        match r {
            Some(v) => attr(attrs@, key@) == Some(v@),
            None => attr(attrs@, key@) is None,
        },
{
    let mut i: usize = 0;
    assert(attrs@.subrange(0, attrs@.len() as int) =~= attrs@);
    while i < attrs.len()
        invariant
            i <= attrs@.len(),
            attr(attrs@, key@) == attr(attrs@.subrange(i as int, attrs@.len() as int), key@),
        decreases attrs@.len() - i,
    {
        let ghost rest = attrs@.subrange(i as int, attrs@.len() as int);
        assert(rest.drop_first() =~= attrs@.subrange(i + 1, attrs@.len() as int));
        assert(rest[0] == attrs@[i as int]);
        if attrs[i].0 == *key {
            return Some(attrs[i].1.clone());
        }
        i += 1;
    }
    None
}

/// The raw value of the first of `keys` that is present.
fn first_value(attrs: &Vec<(String, String)>, keys: &Vec<String>) -> (r: Option<String>)
    ensures
        match r {
            Some(v) => first_of(attrs@, str_views(keys@)) == Some(v@),
            None => first_of(attrs@, str_views(keys@)) is None,
        },
{
    let ghost ks = str_views(keys@);
    let mut i: usize = 0;
    assert(ks.subrange(0, ks.len() as int) =~= ks);
    while i < keys.len()
        invariant
            i <= keys@.len(),
            ks == str_views(keys@),
            first_of(attrs@, ks) == first_of(attrs@, ks.subrange(i as int, ks.len() as int)),
        decreases keys@.len() - i,
    {
        let ghost rest = ks.subrange(i as int, ks.len() as int);
        assert(rest.drop_first() =~= ks.subrange(i + 1, ks.len() as int));
        assert(rest[0] == keys@[i as int]@);
        if let Some(v) = attr_value(attrs, &keys[i]) {
            return Some(v);
        }
        i += 1;
    }
    None
}

/// The normalised value of the first of `keys` that is present, or the empty text.
fn resolve(attrs: &Vec<(String, String)>, keys: &Vec<String>) -> (r: String)
    ensures
        r@ == resolved(attrs@, str_views(keys@)),
{
    match first_value(attrs, keys) {
        Some(v) => clean_attr_value(v.as_str()),
        None => String::new(),
    }
}

fn or_placeholder_exec(v: String) -> (r: String)
    ensures
        r@ == or_placeholder(v@),
{
    if v.unicode_len() == 0 {
        String::from_str("unspecified")
    } else {
        v
    }
}

fn key_pair(a: &str, b: &str) -> (r: Vec<String>)
    ensures
        str_views(r@) == seq![a@, b@],
{
    let r = vec![String::from_str(a), String::from_str(b)];
    assert(str_views(r@) =~= seq![a@, b@]);
    r
}

/// The elements of `els` at the positions `order`, in that order.
pub open spec fn in_order(els: Seq<Element>, order: Seq<int>) -> Seq<Element> {
    order.map_values(|k: int| els[k])
}

/// Every position of `order` is one of `els`.
pub open spec fn positions_of(order: Seq<usize>, els: Seq<Element>) -> bool {
    forall|i: int| 0 <= i < order.len() ==> #[trigger] order[i] < els.len()
}

/// The position of the first element tagged `tag`, taking the elements in `order`.
fn tagged(els: &Vec<Element>, order: &Vec<usize>, tag: &String) -> (r: Option<usize>)
    requires
        positions_of(order@, els@),
    ensures
        match r {
            Some(k) => k < els@.len() && tagged_attrs(in_order(els@, ints(order@)), tag@)
                == els@[k as int].attrs@,
            None => tagged_attrs(in_order(els@, ints(order@)), tag@) == Seq::<
                (String, String),
            >::empty(),
        },
{
    let ghost seq = in_order(els@, ints(order@));
    let mut i: usize = 0;
    assert(seq.subrange(0, seq.len() as int) =~= seq);
    while i < order.len()
        invariant
            i <= order@.len(),
            seq == in_order(els@, ints(order@)),
            seq.len() == order@.len(),
            positions_of(order@, els@),
            tagged_attrs(seq, tag@) == tagged_attrs(seq.subrange(i as int, seq.len() as int), tag@),
        decreases order@.len() - i,
    {
        let ghost rest = seq.subrange(i as int, seq.len() as int);
        assert(rest.drop_first() =~= seq.subrange(i + 1, seq.len() as int));
        assert(rest[0] == els@[order@[i as int] as int]);
        let k = order[i];
        if els[k].tag == *tag {
            return Some(k);
        }
        i += 1;
    }
    None
}

/// The normalised `android:name` of every element tagged `kind` that has one,
/// taking the elements in `order`.
pub fn components_in(els: &Vec<Element>, order: &Vec<usize>, kind: &str) -> (r: Vec<String>)
    requires
        positions_of(order@, els@),
    ensures
        str_views(r@) == component_names(in_order(els@, ints(order@)), kind@),
{
    let ghost seq = in_order(els@, ints(order@));
    let kind_s = String::from_str(kind);
    let name_key = String::from_str("android:name");
    let mut r: Vec<String> = Vec::new();
    let mut i: usize = 0;
    while i < order.len()
        invariant
            i <= order@.len(),
            seq == in_order(els@, ints(order@)),
            seq.len() == order@.len(),
            positions_of(order@, els@),
            kind_s@ == kind@,
            name_key@ == "android:name"@,
            str_views(r@) == component_names(seq.subrange(0, i as int), kind@),
        decreases order@.len() - i,
    {
        let ghost pre = seq.subrange(0, i as int);
        assert(seq.subrange(0, i + 1).drop_last() =~= pre);
        assert(seq[i as int] == els@[order@[i as int] as int]);
        let k = order[i];
        if els[k].tag == kind_s {
            if let Some(v) = attr_value(&els[k].attrs, &name_key) {
                let c = clean_attr_value(v.as_str());
                let ghost before = r@;
                r.push(c);
                assert(str_views(r@) =~= str_views(before).push(c@));
            }
        }
        i += 1;
    }
    assert(seq.subrange(0, i as int) =~= seq);
    r
}

/// The positions `0..n` in order.
fn identity(n: usize) -> (r: Vec<usize>)
    ensures
        r@.len() == n,
        forall|i: int| 0 <= i < n ==> #[trigger] r@[i] == i,
{
    let mut r: Vec<usize> = Vec::new();
    let mut i: usize = 0;
    while i < n
        invariant
            i <= n,
            r@.len() == i,
            forall|k: int| 0 <= k < i ==> #[trigger] r@[k] == k,
        decreases n - i,
    {
        r.push(i);
        i += 1;
    }
    r
}

/// The normalised `android:name` of every element tagged `kind` that has one.
pub fn components(els: &Vec<Element>, kind: &str) -> (r: Vec<String>)
    ensures
        str_views(r@) == component_names(els@, kind@),
{
    let order = identity(els.len());
    assert(in_order(els@, ints(order@)) =~= els@);
    components_in(els, &order, kind)
}

/// Reads the package identity, versions, SDK bounds and component lists from
/// the elements of a decoded manifest, taken in `order`.
pub fn extract_fields_in(els: &Vec<Element>, order: &Vec<usize>) -> (r: ManifestFields)
    requires
        positions_of(order@, els@),
    ensures
        fields_of(r, in_order(els@, ints(order@))),
{
    let none: Vec<(String, String)> = Vec::new();
    let manifest: &Vec<(String, String)> = match tagged(els, order, &String::from_str("manifest")) {
        Some(i) => &els[i].attrs,
        None => &none,
    };
    let sdk: &Vec<(String, String)> = match tagged(els, order, &String::from_str("uses-sdk")) {
        Some(i) => &els[i].attrs,
        None => &none,
    };
    let package_keys = vec![String::from_str("package")];
    assert(str_views(package_keys@) =~= seq!["package"@]);
    let package_name = or_placeholder_exec(resolve(manifest, &package_keys));
    let version_name = or_placeholder_exec(
        resolve(manifest, &key_pair("android:versionName", "versionName")),
    );
    let version_code = or_placeholder_exec(
        resolve(manifest, &key_pair("android:versionCode", "versionCode")),
    );
    let compile_number = resolve(
        manifest,
        &key_pair("android:compileSdkVersion", "compileSdkVersion"),
    );
    let compile_sdk_version = if compile_number.unicode_len() > 0 {
        compile_number
    } else {
        or_placeholder_exec(
            resolve(
                manifest,
                &key_pair("android:compileSdkVersionCodename", "compileSdkVersionCodename"),
            ),
        )
    };
    let min_sdk_version = or_placeholder_exec(
        resolve(sdk, &key_pair("android:minSdkVersion", "minSdkVersion")),
    );
    let target_sdk_version = or_placeholder_exec(
        resolve(sdk, &key_pair("android:targetSdkVersion", "targetSdkVersion")),
    );
    ManifestFields {
        package_name,
        version_name,
        version_code,
        min_sdk_version,
        target_sdk_version,
        compile_sdk_version,
        permissions: components_in(els, order, "uses-permission"),
        activities: components_in(els, order, "activity"),
        services: components_in(els, order, "service"),
        receivers: components_in(els, order, "receiver"),
        providers: components_in(els, order, "provider"),
    }
}

/// Reads the package identity, versions, SDK bounds and component lists from
/// the elements of a decoded manifest, in declaration order.
pub fn extract_fields(els: &Vec<Element>) -> (r: ManifestFields)
    ensures
        fields_of(r, els@),
{
    let order = identity(els.len());
    assert(in_order(els@, ints(order@)) =~= els@);
    extract_fields_in(els, &order)
}

/// Every position of `order` is below `n`.
pub open spec fn within(order: Seq<int>, n: int) -> bool {
    forall|i: int| 0 <= i < order.len() ==> 0 <= #[trigger] order[i] < n
}

/// The manifest's elements in declaration order when the counts of children
/// describe one tree over them, else in the order listed.
pub open spec fn declared_elements(els: Seq<Element>, counts: Seq<usize>) -> Seq<Element> {
    match declared(counts) {
        Some(o) => if within(o, els.len() as int) {
            in_order(els, o)
        } else {
            els
        },
        None => els,
    }
}

/// Reads the fields from a decoded listing: the elements as listed, each with
/// its number of children. The elements are taken in declaration order.
pub fn fields_from_listing(els: &Vec<Element>, counts: &Vec<usize>) -> (r: ManifestFields)
    ensures
        fields_of(r, declared_elements(els@, counts@)),
{
    if let Some(order) = declaration_order(counts) {
        let mut ok = true;
        let mut i: usize = 0;
        while i < order.len()
            invariant
                i <= order@.len(),
                ok == forall|k: int| 0 <= k < i ==> #[trigger] order@[k] < els@.len(),
            decreases order@.len() - i,
        {
            if order[i] >= els.len() {
                ok = false;
            }
            i += 1;
        }
        if ok {
            assert(within(ints(order@), els@.len() as int)) by {
                assert forall|k: int| 0 <= k < order@.len() implies 0 <= #[trigger] ints(order@)[k]
                    < els@.len() by {
                    assert(order@[k] < els@.len());
                }
            }
            return extract_fields_in(els, &order);
        } else {
            assert(!within(ints(order@), els@.len() as int)) by {
                let k = choose|k: int| 0 <= k < order@.len() && !(#[trigger] order@[k] < els@.len());
                assert(ints(order@)[k] == order@[k] as int);
            }
        }
    }
    extract_fields(els)
}

/// The binary-XML decoder reads the bytes to a document, not to an error.
pub uninterp spec fn axml_accepts(bytes: Seq<u8>) -> bool;

/// Relies on `rusty_axml::parse_from_cursor` to decode a binary manifest, and
/// on `Axml::iter` to list its elements with their numbers of children;
/// `None` when the bytes do not decode. The decoder panics on some inputs;
/// `axml_safe` leaves them out.
#[verifier::external_body]
pub(crate) fn decode_manifest(bytes: Vec<u8>) -> (r: Option<(Vec<Element>, Vec<usize>)>)
    requires
        axml_safe(bytes@),
    ensures
        r is Some <==> axml_accepts(bytes@),
{
    let axml = rusty_axml::parse_from_cursor(Cursor::new(bytes)).ok()?;
    Some(axml.iter().map(|node| {
        let e = node.borrow();
        let attrs = e.attributes().iter().map(|(k, v)| (k.clone(), v.clone())).collect();
        (Element { tag: e.element_type().to_string(), attrs }, e.children().len())
    }).unzip())
}

} // verus!
