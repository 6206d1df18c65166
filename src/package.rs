//! The records the library produces and the inspection pipeline.
use base64::engine::general_purpose::STANDARD;
use base64::Engine;
use vstd::prelude::*;
use crate::archive::{contents_of, decoded, listing_of, opt_text, zip_opens, Archive, ReadFailure};
use crate::axml::{axml_safe, decodes_safely};
use crate::bundle::{inner_package, select_inner_package, shown_names};
use crate::icon::{
    icon_candidates, icon_search_order, is_launcher_png, lemma_candidates_are_launcher_pngs, texts,
};
use crate::manifest::{
    axml_accepts, declared_elements, decode_manifest, fields_from_listing, fields_of, Element,
    ManifestFields,
};
use crate::size::{format_file_size, size_text};

verus! {

/// Name, size and digests of a file.
#[derive(Debug)]
pub struct FileInfo {
    pub file_name: String,
    pub file_extension: String,
    pub file_size: u64,
    pub file_size_readable: String,
    pub file_path: String,
    pub md5: String,
    pub sha1: String,
    pub sha256: String,
}

/// What an inspection finds in an Android package.
#[derive(Debug)]
pub struct PackageInfo {
    pub package_name: String,
    pub version_name: String,
    pub version_code: String,
    pub min_sdk_version: String,
    pub target_sdk_version: String,
    pub compile_sdk_version: String,
    pub permissions: Vec<String>,
    pub activities: Vec<String>,
    pub services: Vec<String>,
    pub receivers: Vec<String>,
    pub providers: Vec<String>,
    pub file_size: u64,
    pub file_size_readable: String,
    /// The launcher icon as a `data:` URI, when one was found.
    pub icon_base64: Option<String>,
}

/// One generated icon: its edge in pixels and its `data:` URI.
#[derive(Debug)]
pub struct IconResult {
    pub size: u32,
    pub url: String,
}

/// Why an inspection stopped.
#[derive(Debug)]
pub enum InspectError {
    /// The input file does not exist.
    NotFound,
    /// The container cannot be opened as a zip archive.
    ArchiveError,
    /// A required entry is absent; it holds the entry's name.
    EntryNotFound(String),
    /// The manifest's bytes do not decode.
    ManifestDecodeError,
    /// A bundle wraps no package; it holds the first entry names of the bundle.
    ContainerEmpty(Vec<String>),
    /// Reading an entry or handling the scratch file failed; it holds what was being handled.
    IoError(String),
}

/// Base64 (standard alphabet, padded) of `data`.
pub uninterp spec fn base64_of(data: Seq<u8>) -> Seq<char>;

/// Relies on base64's `STANDARD` engine: `encode` gives the padded
/// standard-alphabet encoding of the bytes, which depends on them alone.
#[verifier::external_body]
fn base64_encode(data: &Vec<u8>) -> (r: String)
    ensures
        r@ == base64_of(data@),
{
    STANDARD.encode(data)
}

/// A PNG image as a `data:` URI around its base64 payload.
pub open spec fn png_data_uri(payload: Seq<char>) -> Seq<char> {
    "data:image/png;base64,"@ + payload
}

/// A `data:` URI of a PNG icon read from a package.
pub open spec fn is_icon_uri(u: Seq<char>) -> bool {
    exists|d: Seq<u8>| u == png_data_uri(base64_of(d))
}

/// The manifest's fields of `info` are those that `els` give.
pub open spec fn info_from(info: PackageInfo, els: Seq<Element>) -> bool {
    fields_of(
        ManifestFields {
            package_name: info.package_name,
            version_name: info.version_name,
            version_code: info.version_code,
            min_sdk_version: info.min_sdk_version,
            target_sdk_version: info.target_sdk_version,
            compile_sdk_version: info.compile_sdk_version,
            permissions: info.permissions,
            activities: info.activities,
            services: info.services,
            receivers: info.receivers,
            providers: info.providers,
        },
        els,
    )
}

/// The icon payload for image bytes: a PNG `data:` URI.
pub fn icon_data_uri(data: &Vec<u8>) -> (r: String)
    ensures
        r@ == png_data_uri(base64_of(data@)),
{
    let payload = base64_encode(data);
    let mut r = String::from_str("data:image/png;base64,");
    r.append(payload.as_str());
    r
}

/// The first of `cands` that the contents hold.
pub open spec fn first_readable(cands: Seq<Seq<char>>, contents: Map<Seq<char>, Seq<u8>>) -> Option<
    Seq<char>,
>
    decreases cands.len(),
{
    if cands.len() == 0 {
        None
    } else if contents.contains_key(cands[0]) {
        Some(cands[0])
    } else {
        first_readable(cands.drop_first(), contents)
    }
}

/// The icon of a package: the data URI of the first candidate of the search
/// order that reads; none when no candidate reads.
pub open spec fn icon_for(names: Seq<Seq<char>>, contents: Map<Seq<char>, Seq<u8>>) -> Option<
    Seq<char>,
> {
    match first_readable(icon_candidates(names), contents) {
        Some(c) => Some(png_data_uri(base64_of(contents[c]))),
        None => None,
    }
}

proof fn lemma_first_readable(cands: Seq<Seq<char>>, contents: Map<Seq<char>, Seq<u8>>)
    ensures
        first_readable(cands, contents) matches Some(c) ==> cands.contains(c)
            && contents.contains_key(c),
    decreases cands.len(),
{
    if cands.len() > 0 && !contents.contains_key(cands[0]) {
        lemma_first_readable(cands.drop_first(), contents);
        if first_readable(cands, contents) is Some {
            let c = first_readable(cands, contents)->Some_0;
            let j = choose|j: int| 0 <= j < cands.drop_first().len() && cands.drop_first()[j] == c;
            assert(cands[j + 1] == c);
        }
    } else if cands.len() > 0 {
        assert(cands[0] == cands[0]);
    }
}

/// A package's icon is the PNG data URI of the data of one of its entries
/// that is a launcher PNG.
pub proof fn lemma_icon_is_launcher_png(names: Seq<Seq<char>>, contents: Map<Seq<char>, Seq<u8>>)
    ensures
        icon_for(names, contents) matches Some(u) ==> exists|c: Seq<char>|
            #[trigger] names.contains(c) && is_launcher_png(c) && contents.contains_key(c) && u
                == png_data_uri(base64_of(contents[c])),
{
    lemma_first_readable(icon_candidates(names), contents);
    if first_readable(icon_candidates(names), contents) is Some {
        let c = first_readable(icon_candidates(names), contents)->Some_0;
        lemma_candidates_are_launcher_pngs(names, c);
    }
}

/// Searches the package for its launcher icon: the candidates of
/// `icon_search_order` are read in turn and the first that reads becomes the
/// icon. No icon is a result, never an error.
pub fn resolve_icon(archive: &mut Archive) -> (r: Option<String>)
    ensures
        opt_text(r) == icon_for(old(archive).names(), old(archive).contents()),
        r matches Some(u) ==> is_icon_uri(u@),
        final(archive).names() == old(archive).names(),
        final(archive).contents() == old(archive).contents(),
{
    let names = archive.entry_names();
    let candidates = icon_search_order(&names);
    let ghost cands = icon_candidates(archive.names());
    let ghost contents = archive.contents();
    let mut i: usize = 0;
    assert(cands.subrange(0, cands.len() as int) =~= cands);
    while i < candidates.len()
        invariant
            i <= candidates@.len(),
            texts(candidates@) == cands,
            cands == icon_candidates(old(archive).names()),
            contents == old(archive).contents(),
            archive.names() == old(archive).names(),
            archive.contents() == old(archive).contents(),
            first_readable(cands, contents) == first_readable(
                cands.subrange(i as int, cands.len() as int),
                contents,
            ),
        decreases candidates@.len() - i,
    {
        let ghost rest = cands.subrange(i as int, cands.len() as int);
        assert(rest.drop_first() =~= cands.subrange(i + 1, cands.len() as int));
        assert(texts(candidates@)[i as int] == candidates@[i as int]@);
        assert(rest[0] == candidates@[i as int]@);
        if let Ok(data) = archive.read_entry(candidates[i].as_str()) {
            let u = icon_data_uri(&data);
            return Some(u);
        }
        i += 1;
    }
    None
}

/// Puts the manifest's fields, the file's size and the icon into one record.
pub fn package_info(fields: ManifestFields, size: u64, icon: Option<String>) -> (r: PackageInfo)
    ensures
        r.package_name == fields.package_name,
        r.version_name == fields.version_name,
        r.version_code == fields.version_code,
        r.min_sdk_version == fields.min_sdk_version,
        r.target_sdk_version == fields.target_sdk_version,
        r.compile_sdk_version == fields.compile_sdk_version,
        r.permissions == fields.permissions,
        r.activities == fields.activities,
        r.services == fields.services,
        r.receivers == fields.receivers,
        r.providers == fields.providers,
        r.file_size == size,
        r.file_size_readable@ == size_text(size as nat),
        r.icon_base64 == icon,
{
    PackageInfo {
        package_name: fields.package_name,
        version_name: fields.version_name,
        version_code: fields.version_code,
        min_sdk_version: fields.min_sdk_version,
        target_sdk_version: fields.target_sdk_version,
        compile_sdk_version: fields.compile_sdk_version,
        permissions: fields.permissions,
        activities: fields.activities,
        services: fields.services,
        receivers: fields.receivers,
        providers: fields.providers,
        file_size: size,
        file_size_readable: format_file_size(size),
        icon_base64: icon,
    }
}

/// The outcome an inspection owes for a package with entry `names` and
/// `contents`, of `size` bytes.
pub open spec fn inspection(
    r: Result<PackageInfo, InspectError>,
    names: Seq<Seq<char>>,
    contents: Map<Seq<char>, Seq<u8>>,
    size: nat,
) -> bool {
    let m = "AndroidManifest.xml"@;
    &&& (!names.contains(m) ==> (r matches Err(InspectError::EntryNotFound(n)) && n@ == m))
    &&& (!contents.contains_key(m) ==> (r matches Err(e) && ((e matches InspectError::EntryNotFound(
        n,
    ) && n@ == m) || (e matches InspectError::IoError(n) && n@ == m))))
    &&& (contents.contains_key(m) && !(axml_safe(contents[m]) && axml_accepts(contents[m]))
        ==> (r matches Err(InspectError::ManifestDecodeError)))
    &&& (contents.contains_key(m) && axml_safe(contents[m]) && axml_accepts(contents[m]) ==> (
    r matches Ok(info) && {
        &&& info.file_size == size
        &&& info.file_size_readable@ == size_text(size)
        &&& opt_text(info.icon_base64) == icon_for(names, contents)
        &&& exists|els: Seq<Element>| info_from(info, els)
    }))
}

/// Inspects an open package of `size` bytes: reads `AndroidManifest.xml`,
/// decodes it when the decoder reads it safely, extracts its fields in
/// declaration order and searches the icon.
pub fn inspect_archive(archive: &mut Archive, size: u64) -> (r: Result<PackageInfo, InspectError>)
    ensures
        inspection(r, old(archive).names(), old(archive).contents(), size as nat),
{
    let manifest = match archive.read_entry("AndroidManifest.xml") {
        Ok(data) => data,
        Err(ReadFailure::Missing) => {
            return Err(InspectError::EntryNotFound(String::from_str("AndroidManifest.xml")))
        },
        Err(ReadFailure::Unreadable) => {
            return Err(InspectError::IoError(String::from_str("AndroidManifest.xml")))
        },
    };
    if !decodes_safely(&manifest) {
        return Err(InspectError::ManifestDecodeError);
    }
    let (els, counts) = match decode_manifest(manifest) {
        Some(listing) => listing,
        None => return Err(InspectError::ManifestDecodeError),
    };
    let fields = fields_from_listing(&els, &counts);
    let icon = resolve_icon(archive);
    let info = package_info(fields, size, icon);
    assert(info_from(info, declared_elements(els@, counts@)));
    Ok(info)
}

/// Inspects a package given the bytes of its file: `ArchiveError` exactly
/// when they are no zip archive, else as `inspect_archive` does.
pub fn inspect_package(bytes: Vec<u8>) -> (r: Result<PackageInfo, InspectError>)
    ensures
        r matches Err(InspectError::ArchiveError) <==> !zip_opens(bytes@),
        zip_opens(bytes@) ==> inspection(
            r,
            decoded(listing_of(bytes@)),
            contents_of(bytes@),
            bytes@.len(),
        ),
{
    let size = bytes.len() as u64;
    let mut archive = match Archive::open(bytes) {
        Some(a) => a,
        None => return Err(InspectError::ArchiveError),
    };
    inspect_archive(&mut archive, size)
}

/// The outcome that taking the wrapped package out of a bundle with entry
/// `names` and `contents` owes.
pub open spec fn unwrapping(
    r: Result<(String, Vec<u8>), InspectError>,
    names: Seq<Seq<char>>,
    contents: Map<Seq<char>, Seq<u8>>,
) -> bool {
    &&& (inner_package(names) is None <==> (r matches Err(InspectError::ContainerEmpty(_))))
    &&& (r matches Err(InspectError::ContainerEmpty(shown)) ==> texts(shown@) == shown_names(
        names,
    ))
    &&& (r matches Ok((n, d)) ==> inner_package(names) == Some(n@) && contents.contains_key(n@)
        && d@ == contents[n@])
    &&& (inner_package(names) matches Some(n) && contents.contains_key(n) ==> r is Ok)
    &&& (r matches Err(e) ==> {
        ||| e is ContainerEmpty
        ||| (e matches InspectError::EntryNotFound(n) && inner_package(names) == Some(n@))
        ||| (e matches InspectError::IoError(n) && inner_package(names) == Some(n@))
    })
}

/// Takes the wrapped package out of an open bundle: the chosen entry's name
/// and its whole data. A bundle that wraps no package is `ContainerEmpty`,
/// with the first names of its listing.
pub fn unwrap_archive(archive: &mut Archive) -> (r: Result<(String, Vec<u8>), InspectError>)
    ensures
        unwrapping(r, old(archive).names(), old(archive).contents()),
{
    let names = archive.entry_names();
    let inner = match select_inner_package(&names) {
        Ok(n) => n,
        Err(shown) => return Err(InspectError::ContainerEmpty(shown)),
    };
    match archive.read_entry(inner.as_str()) {
        Ok(data) => Ok((inner, data)),
        Err(ReadFailure::Missing) => Err(InspectError::EntryNotFound(inner)),
        Err(ReadFailure::Unreadable) => Err(InspectError::IoError(inner)),
    }
}

/// Takes the wrapped package out of a bundle, given the bytes of the bundle's
/// file: `ArchiveError` exactly when they are no zip archive, else as
/// `unwrap_archive` does.
pub fn unwrap_bundle(bytes: Vec<u8>) -> (r: Result<(String, Vec<u8>), InspectError>)
    ensures
        r matches Err(InspectError::ArchiveError) <==> !zip_opens(bytes@),
        zip_opens(bytes@) ==> unwrapping(r, decoded(listing_of(bytes@)), contents_of(bytes@)),
{
    let mut archive = match Archive::open(bytes) {
        Some(a) => a,
        None => return Err(InspectError::ArchiveError),
    };
    unwrap_archive(&mut archive)
}

} // verus!
