//! Java archives: which entries an archive holds, and what its manifest
//! says.

use crate::entries::Entries;
use crate::file::{manifest_entries, ManifestError, read_jar_manifest_content};
use crate::text::{chars_of, decoded, replace_char, string_of, texts, utf8_text};
use rc_zip_sync::ReadZip;
use vstd::prelude::*;

verus! {

/// The entries that `rc_zip_sync` finds in the central directory of an
/// archive, in the order of the directory: for each its name and the offset of
/// its local header. Nothing where the bytes cannot be read as a zip archive.
pub uninterp spec fn zip_directory(archive: Seq<u8>) -> Option<Seq<(Seq<char>, u64)>>;

/// The bytes that `rc_zip_sync` reads for the first entry of the name, once
/// they are unpacked. Nothing where the archive cannot be read, where it has
/// no such entry, or where the entry cannot be unpacked.
pub uninterp spec fn zip_content(archive: Seq<u8>, name: Seq<char>) -> Option<Seq<u8>>;

/// The view of an archive that may be missing.
pub open spec fn archive_view(archive: Option<Vec<u8>>) -> Option<Seq<u8>> {
    match archive {
        Some(bytes) => Some(bytes@),
        None => None,
    }
}

/// The views of a sequence of archives that may be missing.
pub open spec fn archives_view(archives: Seq<Option<Vec<u8>>>) -> Seq<Option<Seq<u8>>> {
    archives.map_values(|a: Option<Vec<u8>>| archive_view(a))
}

/// Whether the local header of every entry begins inside the archive.
pub open spec fn headers_inside(archive: Seq<u8>) -> bool {
    match zip_directory(archive) {
        Some(entries) => forall|i: int|
            0 <= i < entries.len() ==> (#[trigger] entries[i]).1 <= archive.len(),
        None => true,
    }
}

/// `ReadZip::read_zip` on the bytes, and then `entries`: the name and the
/// header offset of each entry of the central directory, in its order. The
/// same bytes give the same entries.
#[verifier::external_body]
fn read_directory(archive: &Vec<u8>) -> (r: Option<Vec<(String, u64)>>)
    ensures
        match r {
            Some(entries) => zip_directory(archive@) == Some(
                entries@.map_values(|e: (String, u64)| (e.0@, e.1)),
            ),
            None => zip_directory(archive@) is None,
        },
{
    match archive.read_zip() {
        Ok(zip) => Some(zip.entries().map(|e| (e.name.clone(), e.header_offset)).collect()),
        Err(_) => None,
    }
}

/// `ReadZip::read_zip` on the bytes, then `by_name` and `bytes`: the
/// unpacked content of the first entry of that name. Reading an entry starts
/// at the offset of its local header, which must lie inside the archive.
#[verifier::external_body]
fn read_member(archive: &Vec<u8>, name: &str) -> (r: Option<Vec<u8>>)
    requires
        headers_inside(archive@),
    ensures
        match r {
            Some(bytes) => zip_content(archive@, name@) == Some(bytes@),
            None => zip_content(archive@, name@) is None,
        },
{
    match archive.read_zip() {
        Ok(zip) => match zip.by_name(name) {
            Some(entry) => entry.bytes().ok(),
            None => None,
        },
        Err(_) => None,
    }
}

/// The names of the entries of `archive`, in the order of its directory.
pub open spec fn entry_names(directory: Seq<(Seq<char>, u64)>) -> Seq<Seq<char>> {
    directory.map_values(|e: (Seq<char>, u64)| e.0)
}

/// The name of the entry that holds the compiled class `class_name`: the
/// dots of the name become `/`, and `.class` follows.
pub open spec fn class_file(class_name: Seq<char>) -> Seq<char> {
    replace_char(class_name, '.', '/') + ".class"@
}

/// The name of the entry that holds the compiled class `class_name`.
pub fn class_file_name(class_name: &str) -> (name: String)
    ensures
        name@ == class_file(class_name@),
{
    let chars = chars_of(class_name);
    let mut out: Vec<char> = Vec::new();
    let mut i: usize = 0;
    while i < chars.len()
        invariant
            i <= chars@.len(),
            out@ == replace_char(chars@, '.', '/').take(i as int),
        decreases chars.len() - i,
    {
        let c = chars[i];
        out.push(
            if c == '.' {
                '/'
            } else {
                c
            },
        );
        assert(out@ =~= replace_char(chars@, '.', '/').take(i + 1));
        i += 1;
    }
    assert(replace_char(chars@, '.', '/').take(i as int) =~= replace_char(chars@, '.', '/'));
    let mut name = string_of(&out);
    crate::text::push_text(&mut name, ".class");
    name
}

/// Whether one of `names` is the entry of the compiled class `class_name`.
pub fn lists_class(names: &Vec<String>, class_name: &str) -> (r: bool)
    ensures
        r == texts(names@).contains(class_file(class_name@)),
{
    let wanted = class_file_name(class_name);
    crate::text::among(wanted.as_str(), names)
}

/// Whether the local header of every entry of `entries` begins within
/// `length` bytes.
fn offsets_within(entries: &Vec<(String, u64)>, length: usize) -> (r: bool)
    ensures
        r == forall|i: int| 0 <= i < entries@.len() ==> (#[trigger] entries@[i]).1 <= length,
{
    let mut i: usize = 0;
    while i < entries.len()
        invariant
            i <= entries@.len(),
            forall|k: int| 0 <= k < i ==> (#[trigger] entries@[k]).1 <= length,
        decreases entries.len() - i,
    {
        if entries[i].1 > length as u64 {
            return false;
        }
        i += 1;
    }
    true
}

/// The names of `entries`.
fn names_of(entries: &Vec<(String, u64)>) -> (names: Vec<String>)
    ensures
        texts(names@) == entry_names(entries@.map_values(|e: (String, u64)| (e.0@, e.1))),
{
    let mut names: Vec<String> = Vec::new();
    let mut i: usize = 0;
    let ghost wanted = entry_names(entries@.map_values(|e: (String, u64)| (e.0@, e.1)));
    while i < entries.len()
        invariant
            i <= entries@.len(),
            names@.len() == i,
            wanted == entry_names(entries@.map_values(|e: (String, u64)| (e.0@, e.1))),
            texts(names@) == wanted.take(i as int),
        decreases entries.len() - i,
    {
        names.push(entries[i].0.clone());
        assert(texts(names@) =~= wanted.take(i + 1));
        i += 1;
    }
    assert(wanted.take(i as int) =~= wanted);
    names
}

/// Whether the archive holds the compiled class `class_name`: whether one of
/// the entries of its directory is the file of that class. An archive that
/// cannot be read holds no class.
pub open spec fn holds_class(archive: Seq<u8>, class_name: Seq<char>) -> bool {
    match zip_directory(archive) {
        Some(directory) => entry_names(directory).contains(class_file(class_name)),
        None => false,
    }
}

/// Whether the archive holds the compiled class `class_name`.
pub fn jar_contains_class(archive: &Vec<u8>, class_name: &str) -> (r: bool)
    ensures
        r == holds_class(archive@, class_name@),
{
    match read_directory(archive) {
        Some(entries) => lists_class(&names_of(&entries), class_name),
        None => false,
    }
}

/// The content of the entry `name` of the archive, unpacked. Nothing where
/// the archive cannot be read, where the local header of one of its entries
/// would begin outside it, where it has no such entry or where the entry
/// cannot be unpacked.
pub fn jar_member(archive: &Vec<u8>, name: &str) -> (r: Option<Vec<u8>>)
    ensures
        match r {
            Some(bytes) => headers_inside(archive@) && zip_content(archive@, name@) == Some(
                bytes@,
            ),
            None => !headers_inside(archive@) || zip_content(archive@, name@) is None,
        },
{
    match read_directory(archive) {
        Some(entries) => {
            if offsets_within(&entries, archive.len()) {
                proof {
                    let directory = entries@.map_values(|e: (String, u64)| (e.0@, e.1));
                    assert forall|i: int| 0 <= i < directory.len() implies (
                    #[trigger] directory[i]).1 <= archive@.len() by {
                        assert(directory[i].1 == entries@[i].1);
                    }
                }
                read_member(archive, name)
            } else {
                proof {
                    let directory = entries@.map_values(|e: (String, u64)| (e.0@, e.1));
                    let i = choose|i: int|
                        0 <= i < entries@.len() && !((#[trigger] entries@[i]).1 <= archive@.len());
                    assert(directory[i].1 == entries@[i].1);
                }
                None
            }
        },
        None => read_member(archive, name),
    }
}

/// What the manifest of an archive says, given the content of its manifest
/// entry, if it has one. An archive without manifest has no attributes. A
/// manifest that is not UTF-8 text, or in which a line continues a value before
/// any attribute began, is an error.
pub open spec fn manifest_of(member: Option<Seq<u8>>) -> Result<
    Map<Seq<char>, Seq<char>>,
    ManifestError,
> {
    match member {
        None => Ok(Map::empty()),
        Some(bytes) => match decoded(bytes) {
            None => Err(ManifestError::NotText),
            Some(text) => match manifest_entries(text) {
                Some(entries) => Ok(entries),
                None => Err(ManifestError::ContinuationWithoutKey),
            },
        },
    }
}

/// The view of the attributes of a manifest, or of the error.
pub open spec fn manifest_view(r: Result<Entries, ManifestError>) -> Result<
    Map<Seq<char>, Seq<char>>,
    ManifestError,
> {
    match r {
        Ok(entries) => Ok(entries@),
        Err(e) => Err(e),
    }
}

/// Reads the manifest of an archive from the content of its manifest entry,
/// if it has one.
pub fn read_manifest(member: Option<Vec<u8>>) -> (r: Result<Entries, ManifestError>)
    ensures
        manifest_view(r) == manifest_of(archive_view(member)),
{
    match member {
        None => Ok(Entries::new()),
        Some(bytes) => match utf8_text(bytes.as_slice()) {
            None => Err(ManifestError::NotText),
            Some(text) => read_jar_manifest_content(text),
        },
    }
}

/// The content of the manifest entry of an archive, as far as it can be
/// had.
pub open spec fn manifest_member(archive: Seq<u8>) -> Option<Seq<u8>> {
    if headers_inside(archive) {
        zip_content(archive, "META-INF/MANIFEST.MF"@)
    } else {
        None
    }
}

/// What the manifest of an archive says, given the bytes of the archive, if
/// they could be read at all: an archive that could not be read has no
/// attributes, like one that has no manifest.
pub open spec fn jar_manifest(archive: Option<Seq<u8>>) -> Result<
    Map<Seq<char>, Seq<char>>,
    ManifestError,
> {
    match archive {
        Some(bytes) => manifest_of(manifest_member(bytes)),
        None => Ok(Map::empty()),
    }
}

/// The attributes of the manifest of a Java archive, which stands in its
/// entry `META-INF/MANIFEST.MF`. An archive whose file could not be read, whose
/// bytes are no archive, or that has no manifest, has no attributes: that is no
/// error.
pub fn get_jar_manifest(archive: &Option<Vec<u8>>) -> (r: Result<Entries, ManifestError>)
    ensures
        manifest_view(r) == jar_manifest(archive_view(*archive)),
{
    match archive {
        Some(bytes) => read_manifest(jar_member(bytes, "META-INF/MANIFEST.MF")),
        None => Ok(Entries::new()),
    }
}

} // verus!
