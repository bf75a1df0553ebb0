//! ZIP archive metadata: the listing of its files (operating-system clutter
//! such as resource forks, Finder and Explorer files and Office lock files left
//! out) with their sizes, compression and modification times, and the totals.

use vstd::prelude::*;
use std::io::Cursor;
use zip::ZipArchive;

use crate::office::{open_zip, zip_opens, zip_source};
use crate::pickle::opt_text;
use crate::text::{append_chars, chars_of, decimal, decimal_chars, has_prefix, starts_with, string_of};

verus! {

/// ASCII lower case of one character.
pub open spec fn ascii_lower(c: char) -> char {
    if 'A' <= c && c <= 'Z' {
        (((c as u8) + 32) as u8) as char
    } else {
        c
    }
}

/// Equality up to ASCII case (`str::eq_ignore_ascii_case`).
pub open spec fn eq_ascii_nocase(a: Seq<char>, b: Seq<char>) -> bool {
    a.len() == b.len() && forall|i: int| 0 <= i < a.len() ==> ascii_lower(#[trigger] a[i]) == ascii_lower(b[i])
}

/// Length of `s` once trailing slashes are removed.
pub open spec fn without_trailing_slashes(s: Seq<char>) -> int
    decreases s.len(),
{
    if s.len() > 0 && s.last() == '/' {
        without_trailing_slashes(s.drop_last())
    } else {
        s.len() as int
    }
}

/// Start of the last `/`-separated segment of `s[..e]`.
pub open spec fn segment_start(s: Seq<char>, e: int) -> int
    decreases e,
{
    if e <= 0 {
        0
    } else if s[e - 1] == '/' {
        e
    } else {
        segment_start(s, e - 1)
    }
}

/// The file name of an entry path: its last segment once trailing slashes go.
pub open spec fn entry_file_name(path: Seq<char>) -> Seq<char> {
    let e = without_trailing_slashes(path);
    path.subrange(segment_start(path, e), e)
}

/// Whether an entry path is clutter: under `__MACOSX/`, a file name starting
/// with `._` or `~$`, or one of `.DS_Store`, `Thumbs.db`, `Desktop.ini`,
/// `ehthumbs.db` in any ASCII case.
pub open spec fn spec_should_ignore(path: Seq<char>) -> bool {
    let name = entry_file_name(path);
    ||| has_prefix(path, "__MACOSX/"@)
    ||| has_prefix(name, "._"@)
    ||| has_prefix(name, "~$"@)
    ||| eq_ascii_nocase(name, ".DS_Store"@)
    ||| eq_ascii_nocase(name, "Thumbs.db"@)
    ||| eq_ascii_nocase(name, "Desktop.ini"@)
    ||| eq_ascii_nocase(name, "ehthumbs.db"@)
}

/// ASCII lower case of one character.
fn lower_ascii(c: char) -> (r: char)
    ensures
        r == ascii_lower(c),
{
    if 'A' <= c && c <= 'Z' {
        ((c as u8) + 32u8) as char
    } else {
        c
    }
}

/// `a` and `b` are equal up to ASCII case.
pub(crate) fn same_ignoring_ascii_case(a: &[char], b: &[char]) -> (r: bool)
    ensures
        r == eq_ascii_nocase(a@, b@),
{
    if a.len() != b.len() {
        return false;
    }
    let mut i: usize = 0;
    while i < a.len()
        invariant
            a.len() == b.len(),
            i <= a.len(),
            forall|j: int| 0 <= j < i ==> ascii_lower(#[trigger] a@[j]) == ascii_lower(b@[j]),
        decreases a.len() - i,
    {
        if lower_ascii(a[i]) != lower_ascii(b[i]) {
            return false;
        }
        i = i + 1;
    }
    true
}

/// The file name of an entry path.
fn file_name_of(path: &[char]) -> (r: Vec<char>)
    ensures
        r@ == entry_file_name(path@),
{
    let mut e = path.len();
    assert(path@.subrange(0, e as int) =~= path@);
    while e > 0 && path[e - 1] == '/'
        invariant
            e <= path.len(),
            without_trailing_slashes(path@) == without_trailing_slashes(path@.subrange(0, e as int)),
        decreases e,
    {
        assert(path@.subrange(0, e as int).drop_last() =~= path@.subrange(0, e - 1));
        e = e - 1;
    }
    assert(without_trailing_slashes(path@.subrange(0, e as int)) == e) by {
        if e > 0 {
            assert(path@.subrange(0, e as int).last() == path@[e - 1]);
        }
    }
    let mut b = e;
    while b > 0 && path[b - 1] != '/'
        invariant
            b <= e <= path.len(),
            segment_start(path@, e as int) == segment_start(path@, b as int),
        decreases b,
    {
        b = b - 1;
    }
    let mut out: Vec<char> = Vec::new();
    let mut k = b;
    while k < e
        invariant
            b <= k <= e <= path.len(),
            out@ == path@.subrange(b as int, k as int),
        decreases e - k,
    {
        out.push(path[k]);
        k = k + 1;
        assert(out@ =~= path@.subrange(b as int, k as int));
    }
    out
}

/// Operating-system clutter to leave out of ZIP listings.
pub struct ZipOmit;

impl ZipOmit {
    /// Whether the entry `path` is left out of the listing.
    pub fn should_ignore(path: &str) -> (b: bool)
        ensures
            b == spec_should_ignore(path@),
    {
        let p = chars_of(path);
        let name = file_name_of(p.as_slice());
        starts_with(p.as_slice(), chars_of("__MACOSX/").as_slice())
            || starts_with(name.as_slice(), chars_of("._").as_slice())
            || starts_with(name.as_slice(), chars_of("~$").as_slice())
            || same_ignoring_ascii_case(name.as_slice(), chars_of(".DS_Store").as_slice())
            || same_ignoring_ascii_case(name.as_slice(), chars_of("Thumbs.db").as_slice())
            || same_ignoring_ascii_case(name.as_slice(), chars_of("Desktop.ini").as_slice())
            || same_ignoring_ascii_case(name.as_slice(), chars_of("ehthumbs.db").as_slice())
    }
}

// ---------------------------------------------------------------------------
// Listing
// ---------------------------------------------------------------------------

/// One entry of an archive as the zip crate reads it.
pub struct ZipEntryInfo {
    pub path: String,
    pub is_file: bool,
    pub size: u64,
    pub compressed_size: u64,
    /// The modification time in the crate's display form.
    pub modified: Option<String>,
    /// The compression method in the crate's debug form.
    pub compression: String,
}

/// Model of an entry.
pub struct ZipEntryView {
    pub path: Seq<char>,
    pub is_file: bool,
    pub size: u64,
    pub compressed_size: u64,
    pub modified: Option<Seq<char>>,
    pub compression: Seq<char>,
}

impl View for ZipEntryInfo {
    type V = ZipEntryView;

    open spec fn view(&self) -> ZipEntryView {
        ZipEntryView {
            path: self.path@,
            is_file: self.is_file,
            size: self.size,
            compressed_size: self.compressed_size,
            modified: opt_text(self.modified),
            compression: self.compression@,
        }
    }
}

/// Number of entries in the central directory of the archive in `content`.
pub uninterp spec fn zip_entry_count(content: Seq<u8>) -> nat;

/// Entry `i` of the archive in `content` (`None` where the crate cannot read
/// it or its name).
pub uninterp spec fn zip_entry_at(content: Seq<u8>, i: nat) -> Option<ZipEntryView>;

/// `ZipArchive::len`: the number of entries.
#[verifier::external_body]
pub(crate) fn zip_len(archive: &ZipArchive<Cursor<&[u8]>>) -> (n: usize)
    ensures
        n == zip_entry_count(zip_source(*archive)),
{
    archive.len()
}

/// `ZipArchive::by_index` and the entry's name, kind, sizes, `last_modified`
/// (displayed) and `compression` (debug form); `None` where the entry or its
/// name cannot be read.
#[verifier::external_body]
pub(crate) fn zip_entry_info(archive: &mut ZipArchive<Cursor<&[u8]>>, i: usize) -> (r: Option<ZipEntryInfo>)
    ensures
        zip_source(*final(archive)) == zip_source(*old(archive)),
        match r {
            Some(e) => zip_entry_at(zip_source(*old(archive)), i as nat) == Some(e@),
            None => zip_entry_at(zip_source(*old(archive)), i as nat) is None,
        },
{
    let e = archive.by_index(i).ok()?;
    Some(ZipEntryInfo {
        path: e.name().ok()?.to_string(),
        is_file: e.is_file(),
        size: e.size(),
        compressed_size: e.compressed_size(),
        modified: e.last_modified().map(|dt| format!("{}", dt)),
        compression: format!("{:?}", e.compression()),
    })
}

/// One file of a ZIP listing.
pub struct ZipEntry {
    pub path: String,
    pub uncompressed_size: Option<u64>,
    pub compressed_size: Option<u64>,
    pub detected_type: Option<String>,
    pub modified: Option<String>,
    pub compression_method: Option<String>,
}

/// Metadata of a ZIP archive.
pub struct ZipMetadata {
    pub file_size: Option<usize>,
    pub file_count: Option<usize>,
    pub entries: Option<Vec<ZipEntry>>,
    pub total_uncompressed: Option<u64>,
    pub total_compressed: Option<u64>,
    pub comment: Option<String>,
}

/// The entry `e` as a file of the listing.
pub open spec fn listed_entry(e: ZipEntryView) -> (Seq<char>, u64, u64, Option<Seq<char>>, Seq<char>) {
    (e.path, e.size, e.compressed_size, e.modified, e.compression)
}

/// Model of a listed file: path, sizes, modification time and compression.
pub open spec fn entry_model(e: ZipEntry) -> (Seq<char>, u64, u64, Option<Seq<char>>, Seq<char>) {
    (
        e.path@,
        match e.uncompressed_size {
            Some(v) => v,
            None => 0,
        },
        match e.compressed_size {
            Some(v) => v,
            None => 0,
        },
        opt_text(e.modified),
        match opt_text(e.compression_method) {
            Some(t) => t,
            None => Seq::empty(),
        },
    )
}

/// The entry is listed: a file that is not clutter.
pub open spec fn is_listed_entry(e: ZipEntryView) -> bool {
    e.is_file && !spec_should_ignore(e.path)
}

/// The listed files among the first `k` entries, in index order (all entries
/// being readable).
pub open spec fn listed_files(content: Seq<u8>, k: nat) -> Seq<(Seq<char>, u64, u64, Option<Seq<char>>, Seq<char>)>
    decreases k,
{
    if k == 0 {
        Seq::empty()
    } else {
        let prev = listed_files(content, (k - 1) as nat);
        match zip_entry_at(content, (k - 1) as nat) {
            Some(e) => if is_listed_entry(e) {
                prev.push(listed_entry(e))
            } else {
                prev
            },
            None => prev,
        }
    }
}

/// `a + b`, held at `u64::MAX`.
pub open spec fn sat_add_u64(a: u64, b: u64) -> u64 {
    if a + b > u64::MAX {
        u64::MAX
    } else {
        (a + b) as u64
    }
}

/// Saturating totals of the uncompressed and compressed sizes of the listed files.
pub open spec fn listed_totals(l: Seq<(Seq<char>, u64, u64, Option<Seq<char>>, Seq<char>)>) -> (u64, u64)
    decreases l.len(),
{
    if l.len() == 0 {
        (0, 0)
    } else {
        let t = listed_totals(l.drop_last());
        (sat_add_u64(t.0, l.last().1), sat_add_u64(t.1, l.last().2))
    }
}

/// Every one of the first `k` entries reads.
pub open spec fn entries_readable(content: Seq<u8>, k: nat) -> bool {
    forall|i: nat| i < k ==> #[trigger] zip_entry_at(content, i) is Some
}

/// The metadata of a ZIP archive read from `content`, where it opens and its
/// entries read: the listed files (files that are not clutter, in index order,
/// without a detected type), their number, the saturating totals of their
/// sizes, and no comment.
pub open spec fn zip_metadata_holds(m: ZipMetadata, content: Seq<u8>, byte_count: usize) -> bool {
    let l = listed_files(content, zip_entry_count(content));
    &&& m.file_size == Some(byte_count)
    &&& m.entries matches Some(es) && es@.map_values(|e: ZipEntry| entry_model(e)) == l
        && m.file_count == Some(es@.len() as usize)
        && forall|i: int| 0 <= i < es@.len() ==> (#[trigger] es@[i]).detected_type is None
            && es@[i].uncompressed_size is Some && es@[i].compressed_size is Some
            && es@[i].compression_method is Some
    &&& m.total_uncompressed == Some(listed_totals(l).0)
    &&& m.total_compressed == Some(listed_totals(l).1)
    &&& m.comment is None
}

/// Reads the metadata of a ZIP archive of `byte_count` bytes: fails where the
/// bytes do not open as an archive or an entry cannot be read.
pub fn extract_zip_metadata(content: &[u8], byte_count: usize) -> (r: Result<ZipMetadata, String>)
    ensures
        r is Err <==> !zip_opens(content@) || !entries_readable(content@, zip_entry_count(content@)),
        r matches Ok(m) ==> zip_metadata_holds(m, content@, byte_count),
{
    let mut archive = match open_zip(content) {
        Some(a) => a,
        None => return Err("ZIP parse error".to_string()),
    };
    let n = zip_len(&archive);
    let mut entries: Vec<ZipEntry> = Vec::new();
    let mut total_uncompressed: u64 = 0;
    let mut total_compressed: u64 = 0;
    let mut i: usize = 0;
    while i < n
        invariant
            i <= n,
            n == zip_entry_count(content@),
            zip_source(archive) == content@,
            entries_readable(content@, i as nat),
            entries@.map_values(|e: ZipEntry| entry_model(e)) == listed_files(content@, i as nat),
            forall|q: int| 0 <= q < entries@.len() ==> (#[trigger] entries@[q]).detected_type is None
                && entries@[q].uncompressed_size is Some && entries@[q].compressed_size is Some
                && entries@[q].compression_method is Some,
            (total_uncompressed, total_compressed) == listed_totals(listed_files(content@, i as nat)),
        decreases n - i,
    {
        let info = match zip_entry_info(&mut archive, i) {
            Some(e) => e,
            None => {
                let mut msg = chars_of("ZIP entry ");
                append_chars(&mut msg, decimal_chars(i).as_slice());
                append_chars(&mut msg, chars_of(" could not be read").as_slice());
                return Err(string_of(msg.as_slice()));
            },
        };
        let ghost l0 = listed_files(content@, i as nat);
        if !ZipOmit::should_ignore(info.path.as_str()) && info.is_file {
            total_uncompressed = if info.size > u64::MAX - total_uncompressed {
                u64::MAX
            } else {
                total_uncompressed + info.size
            };
            total_compressed = if info.compressed_size > u64::MAX - total_compressed {
                u64::MAX
            } else {
                total_compressed + info.compressed_size
            };
            let ghost iv = info@;
            let ghost prev = entries@.map_values(|e: ZipEntry| entry_model(e));
            let entry = ZipEntry {
                path: info.path,
                uncompressed_size: Some(info.size),
                compressed_size: Some(info.compressed_size),
                detected_type: None,
                modified: info.modified,
                compression_method: Some(info.compression),
            };
            assert(entry_model(entry) == listed_entry(iv));
            entries.push(entry);
            assert(entries@.map_values(|e: ZipEntry| entry_model(e)) =~= prev.push(listed_entry(iv)));
            assert(l0.push(listed_entry(iv)).drop_last() =~= l0);
        }
        i = i + 1;
        assert forall|q: nat| q < i as nat implies #[trigger] zip_entry_at(content@, q) is Some by {
            if q < (i - 1) as nat {
                assert(entries_readable(content@, (i - 1) as nat));
            }
        }
    }
    let count = entries.len();
    Ok(ZipMetadata {
        file_size: Some(byte_count),
        file_count: Some(count),
        entries: Some(entries),
        total_uncompressed: Some(total_uncompressed),
        total_compressed: Some(total_compressed),
        comment: None,
    })
}

} // verus!
