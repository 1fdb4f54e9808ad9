//! Index entries of a pack's files and folders, and their SHA-1 checksums:
//! a generic file is hashed with its name, a folder with its children's
//! checksums, a PBO archive with its inner files' checksums.
use vstd::prelude::*;

use crate::manifest::{PBOPart, PackPart};
use vstd::string::StringSliceAdditionalSpecFns;

verus! {

/// What kind of file an entry describes.
#[derive(Debug)]
pub enum FileKind {
    Generic,
    Pbo { parts: Vec<PBOPart>, blob_offset: u64 },
}

/// What an entry describes.
#[derive(Debug)]
pub enum EntryKind {
    Folder(Vec<ManifestEntry>),
    File { last_modified: u64, length: u64, kind: FileKind },
}

/// The index entry of a file or folder.
#[derive(Debug)]
pub struct ManifestEntry {
    pub name: String,
    pub checksum: Vec<u8>,
    pub kind: EntryKind,
}

/// A cached index entry of a file, valid while the file keeps its
/// modification time and length.
#[derive(Debug)]
pub struct FileCacheEntry {
    pub last_modified: u64,
    pub length: u64,
    pub part: ManifestEntry,
}

/// A cached part of a file, valid while the file keeps its modification time
/// and length.
#[derive(Debug)]
pub struct FileCache {
    pub last_modified: u64,
    pub length: u64,
    pub part: PackPart,
}

/// The SHA-1 digest of `data`.
pub uninterp spec fn sha1_of(data: Seq<u8>) -> Seq<u8>;

/// The SHA-1 digest of `data` (`sha1::Sha1::digest`): `sha1_of` of the
/// input, 20 bytes long.
#[verifier::external_body]
pub(crate) fn sha1_digest(data: &[u8]) -> (r: Vec<u8>)
    ensures
        r@ == sha1_of(data@),
        r@.len() == 20,
{
    <sha1::Sha1 as sha1::Digest>::digest(data).to_vec()
}

/// Whether the regular expression `pattern` compiles.
pub uninterp spec fn regex_compiles(pattern: Seq<char>) -> bool;

/// Whether the compiled `pattern` matches somewhere in `text`.
pub uninterp spec fn regex_match(pattern: Seq<char>, text: Seq<char>) -> bool;

#[verifier::external_type_specification]
#[verifier::external_body]
pub struct ExRegexError(regex::Error);

/// `^(.+)\.pbo$`, the names of PBO archives.
pub open spec fn pbo_name_pattern() -> Seq<char> {
    seq!['^', '(', '.', '+', ')', '\\', '.', 'p', 'b', 'o', '$']
}

/// `.pbo`.
pub open spec fn pbo_extension() -> Seq<char> {
    seq!['.', 'p', 'b', 'o']
}

/// What `^(.+)\.pbo$` matches: a name that ends in `.pbo` after at least
/// one character, none of them a new line.
pub open spec fn is_pbo_name(t: Seq<char>) -> bool {
    &&& t.len() >= 5
    &&& t.subrange(t.len() - 4, t.len() as int) == pbo_extension()
    &&& forall|i: int| 0 <= i < t.len() - 4 ==> t[i] != '\n'
}

/// Compiles `pattern` (`regex::Regex::new`) and, when it compiles, tests
/// `text` against it (`Regex::is_match`). In general whether a pattern
/// compiles and what it matches are only named here, as functions of the two
/// strings. For the pattern `^(.+)\.pbo$` the claim is stated: it compiles,
/// and by the crate's documentation (`^` and `$` the beginning and end of
/// the haystack, `.` any character but a new line, `\.` a dot) it matches
/// exactly the names of [`is_pbo_name`].
#[verifier::external_body]
fn regex_is_match(pattern: &str, text: &str) -> (r: Result<bool, regex::Error>)
    ensures
        r is Ok == regex_compiles(pattern@),
        r matches Ok(b) ==> b == regex_match(pattern@, text@),
        r is Ok || pattern@ != pbo_name_pattern(),
        r matches Ok(b) ==> (pattern@ == pbo_name_pattern() ==> b == is_pbo_name(text@)),
{
    Ok(regex::Regex::new(pattern)?.is_match(text))
}

/// Whether a file name is that of a PBO archive: it matches `^(.+)\.pbo$`,
/// that is, it ends in `.pbo` after at least one character, none of them a
/// new line.
pub fn is_pbo_file_name(file_name: &str) -> (r: bool)
    ensures
        r == is_pbo_name(file_name@),
{
    proof {
        reveal_strlit("^(.+)\\.pbo$");
        assert("^(.+)\\.pbo$"@ =~= pbo_name_pattern());
    }
    match regex_is_match("^(.+)\\.pbo$", file_name) {
        Ok(b) => b,
        Err(_) => false,
    }
}

/// Whether a cached entry still describes a file with this modification
/// time and length.
pub fn cache_entry_fresh(entry: &FileCacheEntry, last_modified: u64, length: u64) -> (r: bool)
    ensures
        r == (entry.last_modified == last_modified && entry.length == length),
{
    entry.last_modified == last_modified && entry.length == length
}

/// The cached index entry to reuse for a file with this modification time
/// and length: the cached one where it is still fresh, otherwise none (the
/// file is read again).
pub fn reusable_cached_part(cached: Option<FileCacheEntry>, last_modified: u64, length: u64) -> (r: Option<
    ManifestEntry,
>)
    ensures
        r == match cached {
            Some(e) => if e.last_modified == last_modified && e.length == length {
                Some(e.part)
            } else {
                None
            },
            None => None,
        },
{
    match cached {
        Some(e) => {
            if cache_entry_fresh(&e, last_modified, length) {
                Some(e.part)
            } else {
                None
            }
        },
        None => None,
    }
}

/// The concatenation of the checksums of `entries`.
pub open spec fn checksums_concat(entries: Seq<ManifestEntry>) -> Seq<u8>
    decreases entries.len(),
{
    if entries.len() == 0 {
        Seq::empty()
    } else {
        checksums_concat(entries.drop_last()) + entries.last().checksum@
    }
}

/// The concatenation of the checksums of PBO parts.
pub open spec fn part_checksums_concat(parts: Seq<PBOPart>) -> Seq<u8>
    decreases parts.len(),
{
    if parts.len() == 0 {
        Seq::empty()
    } else {
        part_checksums_concat(parts.drop_last()) + parts.last().checksum@
    }
}

/// The checksums of two lists of entries, one after the other, are the
/// checksums of the joined list: every entry's checksum counts, in order.
pub proof fn lemma_checksums_concat_append(a: Seq<ManifestEntry>, b: Seq<ManifestEntry>)
    ensures
        checksums_concat(a + b) == checksums_concat(a) + checksums_concat(b),
    decreases b.len(),
{
    if b.len() == 0 {
        assert(a + b =~= a);
        assert(checksums_concat(a) + Seq::<u8>::empty() =~= checksums_concat(a));
    } else {
        assert((a + b).drop_last() =~= a + b.drop_last());
        assert((a + b).last() == b.last());
        lemma_checksums_concat_append(a, b.drop_last());
        assert(checksums_concat(a) + checksums_concat(b.drop_last()) + b.last().checksum@ =~= checksums_concat(a)
            + (checksums_concat(b.drop_last()) + b.last().checksum@));
    }
}

/// The checksums of a single entry are its checksum.
pub proof fn lemma_checksums_concat_single(e: ManifestEntry)
    ensures
        checksums_concat(seq![e]) == e.checksum@,
{
    assert(seq![e].drop_last() =~= Seq::<ManifestEntry>::empty());
    assert(checksums_concat(Seq::<ManifestEntry>::empty()) == Seq::<u8>::empty());
    assert(seq![e].last() == e);
    assert(Seq::<u8>::empty() + e.checksum@ =~= e.checksum@);
}

/// The checksums of two lists of PBO parts, one after the other, are the
/// checksums of the joined list.
pub proof fn lemma_part_checksums_concat_append(a: Seq<PBOPart>, b: Seq<PBOPart>)
    ensures
        part_checksums_concat(a + b) == part_checksums_concat(a) + part_checksums_concat(b),
    decreases b.len(),
{
    if b.len() == 0 {
        assert(a + b =~= a);
        assert(part_checksums_concat(a) + Seq::<u8>::empty() =~= part_checksums_concat(a));
    } else {
        assert((a + b).drop_last() =~= a + b.drop_last());
        assert((a + b).last() == b.last());
        lemma_part_checksums_concat_append(a, b.drop_last());
        assert(part_checksums_concat(a) + part_checksums_concat(b.drop_last()) + b.last().checksum@
            =~= part_checksums_concat(a) + (part_checksums_concat(b.drop_last()) + b.last().checksum@));
    }
}

/// The checksums of a single PBO part are its checksum.
pub proof fn lemma_part_checksums_concat_single(p: PBOPart)
    ensures
        part_checksums_concat(seq![p]) == p.checksum@,
{
    assert(seq![p].drop_last() =~= Seq::<PBOPart>::empty());
    assert(part_checksums_concat(Seq::<PBOPart>::empty()) == Seq::<u8>::empty());
    assert(seq![p].last() == p);
    assert(Seq::<u8>::empty() + p.checksum@ =~= p.checksum@);
}

/// Appends a slice of bytes.
fn append_bytes(v: &mut Vec<u8>, data: &[u8])
    ensures
        final(v)@ == old(v)@ + data@,
{
    v.extend_from_slice(data);
    assert(final(v)@ =~= old(v)@ + data@);
}

/// The entry of a generic file named `file_name` holding `data`: its length
/// is the data's, its checksum the SHA-1 of the data followed by the name's
/// UTF-8 bytes.
pub fn generic_file_entry(file_name: &str, data: &[u8], last_modified: u64) -> (r: ManifestEntry)
    ensures
        r.name@ == file_name@,
        r.checksum@ == sha1_of(data@ + file_name.spec_bytes()),
        r.kind matches EntryKind::File { last_modified: m, length, kind } && m == last_modified
            && length == data@.len() && kind is Generic,
{
    let mut buf: Vec<u8> = Vec::new();
    append_bytes(&mut buf, data);
    append_bytes(&mut buf, file_name.as_bytes());
    assert(buf@ =~= data@ + file_name.spec_bytes());
    let checksum = sha1_digest(buf.as_slice());
    ManifestEntry {
        name: crate::text::to_owned_string(file_name),
        checksum,
        kind: EntryKind::File {
            last_modified,
            length: data.len() as u64,
            kind: FileKind::Generic,
        },
    }
}

/// The entry of a folder named `name` with entries `children` (in the order
/// read): its checksum is the SHA-1 of the name's UTF-8 bytes followed by the
/// children's checksums.
pub fn folder_entry(name: &str, children: Vec<ManifestEntry>) -> (r: ManifestEntry)
    ensures
        r.name@ == name@,
        r.checksum@ == sha1_of(name.spec_bytes() + checksums_concat(children@)),
        r.kind == EntryKind::Folder(children),
{
    let mut buf: Vec<u8> = Vec::new();
    append_bytes(&mut buf, name.as_bytes());
    let mut i: usize = 0;
    while i < children.len()
        invariant
            i <= children.len(),
            buf@ == name.spec_bytes() + checksums_concat(children@.take(i as int)),
        decreases children.len() - i,
    {
        append_bytes(&mut buf, children[i].checksum.as_slice());
        proof {
            let t = children@.take(i + 1);
            assert(t.drop_last() =~= children@.take(i as int));
            assert(buf@ =~= name.spec_bytes() + checksums_concat(t));
        }
        i = i + 1;
    }
    proof {
        assert(children@.take(children.len() as int) =~= children@);
    }
    let checksum = sha1_digest(buf.as_slice());
    ManifestEntry { name: crate::text::to_owned_string(name), checksum, kind: EntryKind::Folder(children) }
}

/// One file inside a PBO archive, as read: its name and data.
#[derive(Debug)]
pub struct PboFileData {
    pub name: String,
    pub data: Vec<u8>,
}

/// The sum of the lengths of the first `n` files.
pub open spec fn offset_of(files: Seq<PboFileData>, n: int) -> int
    decreases n,
{
    if n <= 0 {
        0
    } else {
        offset_of(files, n - 1) + files[n - 1].data@.len()
    }
}

/// The parts of a PBO archive read from its files, in order: each part has
/// the file's name and length, the SHA-1 of its data, and starts where the
/// previous one ended (the first at 0).
pub open spec fn pbo_parts_of(files: Seq<PboFileData>, parts: Seq<PBOPart>) -> bool {
    &&& parts.len() == files.len()
    &&& forall|k: int|
        0 <= k < files.len() ==> {
            &&& (#[trigger] parts[k]).name@ == files[k].name@
            &&& parts[k].length == files[k].data@.len()
            &&& parts[k].checksum@ == sha1_of(files[k].data@)
            &&& parts[k].start_offset == offset_of(files, k)
        }
}

impl ManifestEntry {
    /// The entry of a PBO archive named `rel_path`, from its header checksum,
    /// its files (in archive order), where their data starts and the
    /// archive's length. The archive's checksum is the SHA-1 of the header
    /// checksum, then the parts' checksums, then the name's UTF-8 bytes.
    pub fn from_pbo(
        rel_path: &str,
        header_checksum: &[u8],
        files: &Vec<PboFileData>,
        blob_start: u64,
        length: u64,
        last_modified: u64,
    ) -> (r: ManifestEntry)
        requires
            forall|k: int| 0 <= k < files@.len() ==> (#[trigger] files@[k]).data@.len() <= u32::MAX,
            offset_of(files@, files@.len() as int) <= u64::MAX,
        ensures
            r.name@ == rel_path@,
            r.kind matches EntryKind::File { last_modified: m, length: l, kind } && m
                == last_modified && l == length && (kind matches FileKind::Pbo { parts, blob_offset }
                && blob_offset == blob_start && pbo_parts_of(files@, parts@) && r.checksum@ == sha1_of(
                header_checksum@ + part_checksums_concat(parts@) + rel_path.spec_bytes(),
            )),
    {
        let mut parts: Vec<PBOPart> = Vec::new();
        let mut offset: u64 = 0;
        let mut i: usize = 0;
        while i < files.len()
            invariant
                i <= files.len(),
                forall|k: int| 0 <= k < files@.len() ==> (#[trigger] files@[k]).data@.len() <= u32::MAX,
                offset_of(files@, files@.len() as int) <= u64::MAX,
                offset == offset_of(files@, i as int),
                parts@.len() == i,
                forall|k: int|
                    0 <= k < i ==> {
                        &&& (#[trigger] parts@[k]).name@ == files@[k].name@
                        &&& parts@[k].length == files@[k].data@.len()
                        &&& parts@[k].checksum@ == sha1_of(files@[k].data@)
                        &&& parts@[k].start_offset == offset_of(files@, k)
                    },
            decreases files.len() - i,
        {
            proof {
                lemma_offset_monotone(files@, i + 1, files@.len() as int);
            }
            let size = files[i].data.len();
            let checksum = sha1_digest(files[i].data.as_slice());
            parts.push(
                PBOPart {
                    name: files[i].name.clone(),
                    length: size as u32,
                    checksum,
                    start_offset: offset,
                },
            );
            offset = offset + size as u64;
            i = i + 1;
        }
        proof {
            assert(files@.take(files.len() as int) =~= files@);
        }
        let mut buf: Vec<u8> = Vec::new();
        append_bytes(&mut buf, header_checksum);
        let mut j: usize = 0;
        while j < parts.len()
            invariant
                j <= parts.len(),
                buf@ == header_checksum@ + part_checksums_concat(parts@.take(j as int)),
            decreases parts.len() - j,
        {
            append_bytes(&mut buf, parts[j].checksum.as_slice());
            proof {
                let t = parts@.take(j + 1);
                assert(t.drop_last() =~= parts@.take(j as int));
                assert(buf@ =~= header_checksum@ + part_checksums_concat(t));
            }
            j = j + 1;
        }
        proof {
            assert(parts@.take(parts.len() as int) =~= parts@);
        }
        append_bytes(&mut buf, rel_path.as_bytes());
        let checksum = sha1_digest(buf.as_slice());
        ManifestEntry {
            name: crate::text::to_owned_string(rel_path),
            checksum,
            kind: EntryKind::File {
                last_modified,
                length,
                kind: FileKind::Pbo { parts, blob_offset: blob_start },
            },
        }
    }
}

proof fn lemma_offset_monotone(files: Seq<PboFileData>, a: int, b: int)
    requires
        0 <= a <= b,
    ensures
        offset_of(files, a) <= offset_of(files, b),
    decreases b - a,
{
    if a < b {
        lemma_offset_monotone(files, a, b - 1);
    }
}

} // verus!
