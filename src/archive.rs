//! Access to the entries of a zip container held in memory.
use std::io::Cursor;
use std::io::Read;
use vstd::prelude::*;
use zip::result::ZipError;
use zip::ZipArchive;
use crate::icon::texts;

verus! {

#[verifier::external_type_specification]
#[verifier::external_body]
#[verifier::reject_recursive_types(T)]
pub struct ExCursor<T>(Cursor<T>);

#[verifier::external_type_specification]
#[verifier::external_body]
#[verifier::reject_recursive_types(R)]
pub struct ExZipArchive<R>(ZipArchive<R>);

/// An open zip container over its bytes.
pub struct Archive {
    zip: ZipArchive<Cursor<Vec<u8>>>,
}

/// Why an entry could not be read.
#[derive(Debug, Clone, Copy, PartialEq, Eq, Structural)]
pub enum ReadFailure {
    /// No entry has that exact name.
    Missing,
    /// The entry is there but its data could not be read.
    Unreadable,
}

/// The entry names of an archive in the order of its index, `None` for a name
/// that does not decode.
pub uninterp spec fn zip_listing(zip: ZipArchive<Cursor<Vec<u8>>>) -> Seq<Option<Seq<char>>>;

/// The data of each entry of an archive, by name.
pub uninterp spec fn zip_contents(zip: ZipArchive<Cursor<Vec<u8>>>) -> Map<Seq<char>, Seq<u8>>;

/// The bytes are a zip archive that `ZipArchive::new` reads.
pub uninterp spec fn zip_opens(bytes: Seq<u8>) -> bool;

/// The listing of the archive that the bytes hold, as `zip_listing` gives it.
pub uninterp spec fn listing_of(bytes: Seq<u8>) -> Seq<Option<Seq<char>>>;

/// The contents of the archive that the bytes hold, as `zip_contents` gives them.
pub uninterp spec fn contents_of(bytes: Seq<u8>) -> Map<Seq<char>, Seq<u8>>;

/// The text of an optional string.
pub open spec fn opt_text(o: Option<String>) -> Option<Seq<char>> {
    match o {
        Some(s) => Some(s@),
        None => None,
    }
}

/// The names of a listing that decode, in order.
pub open spec fn decoded(listing: Seq<Option<Seq<char>>>) -> Seq<Seq<char>>
    decreases listing.len(),
{
    if listing.len() == 0 {
        Seq::empty()
    } else {
        match listing.last() {
            Some(n) => decoded(listing.drop_last()).push(n),
            None => decoded(listing.drop_last()),
        }
    }
}

/// Relies on `zip::ZipArchive::new`: reads the archive's central directory.
#[verifier::external_body]
fn open_zip(bytes: Vec<u8>) -> (r: Option<ZipArchive<Cursor<Vec<u8>>>>)
    ensures
        r is Some <==> zip_opens(bytes@),
        r matches Some(z) ==> zip_listing(z) == listing_of(bytes@) && zip_contents(z)
            == contents_of(bytes@),
{
    ZipArchive::new(Cursor::new(bytes)).ok()
}

/// Relies on `zip::ZipArchive::file_names`: the entry names in the order of the
/// archive's index, `None` for a name that does not decode.
#[verifier::external_body]
fn zip_names(zip: &ZipArchive<Cursor<Vec<u8>>>) -> (r: Vec<Option<String>>)
    ensures
        r@.map_values(|o: Option<String>| opt_text(o)) == zip_listing(*zip),
{
    zip.file_names().map(|n| n.ok().map(|c| c.into_owned())).collect()
}

/// Relies on `zip::ZipArchive::by_name` (exact name lookup, `FileNotFound` when
/// absent) and on `Read::read_to_end` of the entry it returns: the entry's whole
/// data. Reading moves the cursor only; the index and the data stay.
#[verifier::external_body]
fn zip_read(zip: &mut ZipArchive<Cursor<Vec<u8>>>, name: &str) -> (r: Result<Vec<u8>, ReadFailure>)
    ensures
        zip_listing(*final(zip)) == zip_listing(*old(zip)),
        zip_contents(*final(zip)) == zip_contents(*old(zip)),
        r is Ok <==> zip_contents(*old(zip)).contains_key(name@),
        r matches Ok(d) ==> d@ == zip_contents(*old(zip))[name@],
        !zip_listing(*old(zip)).contains(Some(name@)) ==> r matches Err(ReadFailure::Missing),
{
    let mut entry = match zip.by_name(name) {
        Ok(entry) => entry,
        Err(ZipError::FileNotFound) => return Err(ReadFailure::Missing),
        Err(_) => return Err(ReadFailure::Unreadable),
    };
    let mut data = Vec::new();
    match entry.read_to_end(&mut data) {
        Ok(_) => Ok(data),
        Err(_) => Err(ReadFailure::Unreadable),
    }
}

proof fn lemma_listed_decoded(listing: Seq<Option<Seq<char>>>, i: int)
    requires
        0 <= i < listing.len(),
        listing[i] is Some,
    ensures
        decoded(listing).contains(listing[i]->Some_0),
    decreases listing.len(),
{
    let rest = listing.drop_last();
    if i == listing.len() - 1 {
        assert(decoded(listing) == decoded(rest).push(listing[i]->Some_0));
        assert(decoded(listing)[decoded(rest).len() as int] == listing[i]->Some_0);
    } else {
        assert(rest[i] == listing[i]);
        lemma_listed_decoded(rest, i);
        let j = choose|j: int| 0 <= j < decoded(rest).len() && decoded(rest)[j] == listing[i]->Some_0;
        if listing.last() is Some {
            assert(decoded(listing) == decoded(rest).push(listing.last()->Some_0));
            assert(decoded(listing)[j] == decoded(rest)[j]);
        }
    }
}

proof fn lemma_decoded_contains(listing: Seq<Option<Seq<char>>>, n: Seq<char>)
    requires
        decoded(listing).contains(n),
    ensures
        listing.contains(Some(n)),
    decreases listing.len(),
{
    let rest = listing.drop_last();
    if listing.last() is Some && listing.last()->Some_0 == n {
        assert(listing[listing.len() - 1] == Some(n));
    } else {
        let i = choose|i: int| 0 <= i < decoded(listing).len() && decoded(listing)[i] == n;
        if listing.last() is Some {
            assert(decoded(listing) == decoded(rest).push(listing.last()->Some_0));
            assert(decoded(rest)[i] == n);
        }
        assert(decoded(rest).contains(n));
        lemma_decoded_contains(rest, n);
        let j = choose|j: int| 0 <= j < rest.len() && rest[j] == Some(n);
        assert(listing[j] == Some(n));
    }
}

impl Archive {
    /// The names of the entries that decode, in listing order.
    pub closed spec fn names(&self) -> Seq<Seq<char>> {
        decoded(zip_listing(self.zip))
    }

    /// The data of each entry, by name.
    pub closed spec fn contents(&self) -> Map<Seq<char>, Seq<u8>> {
        zip_contents(self.zip)
    }

    /// Opens the zip container held in `bytes`; `None` when it is not a readable archive.
    pub fn open(bytes: Vec<u8>) -> (r: Option<Archive>)
        ensures
            r is Some <==> zip_opens(bytes@),
            r matches Some(a) ==> a.names() == decoded(listing_of(bytes@)) && a.contents()
                == contents_of(bytes@),
    {
        match open_zip(bytes) {
            Some(zip) => Some(Archive { zip }),
            None => None,
        }
    }

    /// The names of the entries in listing order, leaving out names that do not decode.
    pub fn entry_names(&self) -> (r: Vec<String>)
        ensures
            texts(r@) == self.names(),
    {
        let raw = zip_names(&self.zip);
        let ghost listing = raw@.map_values(|o: Option<String>| opt_text(o));
        let mut r: Vec<String> = Vec::new();
        let mut i: usize = 0;
        while i < raw.len()
            invariant
                i <= raw@.len(),
                listing == raw@.map_values(|o: Option<String>| opt_text(o)),
                texts(r@) == decoded(listing.subrange(0, i as int)),
            decreases raw@.len() - i,
        {
            assert(listing.subrange(0, i + 1).drop_last() =~= listing.subrange(0, i as int));
            assert(listing.subrange(0, i + 1).last() == opt_text(raw@[i as int]));
            if let Some(name) = &raw[i] {
                let ghost before = r@;
                r.push(name.clone());
                assert(texts(r@) =~= texts(before).push(name@));
            }
            i += 1;
        }
        assert(listing.subrange(0, i as int) =~= listing);
        r
    }

    /// The whole data of the entry named exactly `name`.
    pub fn read_entry(&mut self, name: &str) -> (r: Result<Vec<u8>, ReadFailure>)
        ensures
            final(self).names() == old(self).names(),
            final(self).contents() == old(self).contents(),
            r is Ok <==> old(self).contents().contains_key(name@),
            r matches Ok(d) ==> d@ == old(self).contents()[name@],
            !old(self).names().contains(name@) ==> r matches Err(ReadFailure::Missing),
    {
        proof {
            if zip_listing(self.zip).contains(Some(name@)) && !self.names().contains(name@) {
                let i = choose|i: int|
                    0 <= i < zip_listing(self.zip).len() && zip_listing(self.zip)[i] == Some(name@);
                lemma_listed_decoded(zip_listing(self.zip), i);
            }
        }
        zip_read(&mut self.zip, name)
    }
}

} // verus!
