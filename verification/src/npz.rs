//! NumPy `.npz` archives (ZIP archives of `.npy` members): the archive's entry
//! count and, for the first `.npy` members, their layout and sampled rows.

use vstd::prelude::*;
use std::io::Cursor;
use std::io::Read;
use zip::ZipArchive;

use crate::archive::{zip_entry_at, zip_entry_count, zip_entry_info, zip_len, ZipEntryView};
use crate::npy::{npy_header_bounds, npy_layout_holds, parse_npy_prefix};
use crate::npy_sample::{column_common_from_npy_bytes, npy_common_holds, spec_target_read_len, zip_member_target_read_len, NpySample};
use crate::office::{open_zip, zip_opens, zip_source};
use crate::pickle::opt_text;
use crate::results::ArrayLayoutSummary;
use crate::text::{append_chars, chars_of, string_of};

verus! {

/// At most this many `.npy` members are read.
pub const MAX_NPZ_NPY_ENTRIES: usize = 128;

/// At most this many bytes are read of one member (64 MiB and 256 KiB, so a
/// 64 MiB payload after its header is read whole).
pub const MAX_NPZ_ENTRY_READ: usize = 67371008;

/// The first read of a member is at most this many bytes.
pub const INITIAL_NPZ_READ: usize = 524288;

/// The first `limit` bytes (fewer where the member is shorter) of member `i` of
/// the archive in `content`, decompressed; `None` where reading fails.
pub uninterp spec fn zip_member_prefix(content: Seq<u8>, i: nat, limit: nat) -> Option<Seq<u8>>;

/// `ZipArchive::by_index` and `Read::take(limit)` read to the end: the first
/// `limit` bytes of the member (fewer where it is shorter).
#[verifier::external_body]
fn zip_member_bytes(archive: &mut ZipArchive<Cursor<&[u8]>>, i: usize, limit: usize) -> (r: Option<Vec<u8>>)
    ensures
        zip_source(*final(archive)) == zip_source(*old(archive)),
        match r {
            Some(b) => zip_member_prefix(zip_source(*old(archive)), i as nat, limit as nat) == Some(b@) && b@.len()
                <= limit,
            None => zip_member_prefix(zip_source(*old(archive)), i as nat, limit as nat) is None,
        },
{
    let zf = archive.by_index(i).ok()?;
    let mut buf = Vec::new();
    zf.take(limit as u64).read_to_end(&mut buf).ok()?;
    Some(buf)
}

/// One `.npy` member of an archive.
pub struct NpzNpyEntry {
    pub name: String,
    pub uncompressed_size: Option<u64>,
    pub layout: Option<ArrayLayoutSummary>,
    pub sample: Option<NpySample>,
    pub entry_parse_error: Option<String>,
}

/// Metadata of an `.npz` archive.
pub struct NpzMetadata {
    pub byte_count: usize,
    pub zip_entry_count: Option<usize>,
    pub npy_entries_scanned: Option<usize>,
    pub npy_entries: Option<Vec<NpzNpyEntry>>,
}

/// ASCII lower case of a character.
pub open spec fn lower_ascii(c: char) -> char {
    if 'A' <= c && c <= 'Z' {
        ((c as u32) + 32) as char
    } else {
        c
    }
}

/// The name ends in `.npy`, in any ASCII case.
pub open spec fn is_npy_name(n: Seq<char>) -> bool {
    n.len() >= 4 && lower_ascii(n[n.len() - 4]) == '.' && lower_ascii(n[n.len() - 3]) == 'n'
        && lower_ascii(n[n.len() - 2]) == 'p' && lower_ascii(n[n.len() - 1]) == 'y'
}

/// Indices of the readable entries among the first `k` whose names end in
/// `.npy`, in order.
pub open spec fn npy_members(content: Seq<u8>, k: nat) -> Seq<nat>
    decreases k,
{
    if k == 0 {
        Seq::empty()
    } else {
        let prev = npy_members(content, (k - 1) as nat);
        match zip_entry_at(content, (k - 1) as nat) {
            Some(e) => if is_npy_name(e.path) {
                prev.push((k - 1) as nat)
            } else {
                prev
            },
            None => prev,
        }
    }
}

/// The `.npy` members read: the first `MAX_NPZ_NPY_ENTRIES` of them.
pub open spec fn read_members(content: Seq<u8>) -> Seq<nat> {
    let all = npy_members(content, zip_entry_count(content));
    if all.len() <= MAX_NPZ_NPY_ENTRIES {
        all
    } else {
        all.take(MAX_NPZ_NPY_ENTRIES as int)
    }
}

/// Smaller of two sizes.
pub open spec fn min_size(a: nat, b: nat) -> nat {
    if a < b {
        a
    } else {
        b
    }
}

/// What reading member `i` (of `size` bytes) gives, where every read succeeds
/// and the header parses: first up to 512 KiB (at most the read limit); where
/// its header does not parse and more could be read, up to the read limit; and
/// then, once the layout `l` of that buffer is known, up to the bytes its
/// sample needs (`zip_member_target_read_len`, within the read limit) where the
/// buffer is shorter.
pub open spec fn npz_read_ok(content: Seq<u8>, i: nat, size: usize, cap: usize, buf: Seq<u8>, l: ArrayLayoutSummary) -> bool {
    let max_read = min_size(size as nat, MAX_NPZ_ENTRY_READ as nat);
    &&& zip_member_prefix(content, i, min_size(INITIAL_NPZ_READ as nat, max_read)) matches Some(b1)
    &&& {
        let b2 = if npy_header_bounds(b1) is Ok || b1.len() >= max_read {
            Some(b1)
        } else {
            zip_member_prefix(content, i, max_read)
        };
        &&& b2 matches Some(h)
        &&& npy_layout_holds(h, size, l)
        &&& {
            let target = min_size(spec_target_read_len(l, size, cap) as nat, max_read);
            let need = if target > h.len() {
                target
            } else {
                h.len()
            };
            if h.len() < need {
                zip_member_prefix(content, i, need) == Some(buf)
            } else {
                buf == h
            }
        }
    }
}

/// What an `.npy` member entry says of member `i` (of `size` bytes): its
/// name and size; and either a layout and sample read from the member's
/// buffer (see `npz_read_ok`) and no error, or no layout and sample and an
/// error: a failed read, or the header's own error message after
/// `parse .npy header inside .npz: `.
pub open spec fn npz_entry_holds(e: NpzNpyEntry, content: Seq<u8>, i: nat, v: ZipEntryView, cap: usize) -> bool {
    let size = v.size as usize;
    &&& e.name@ == v.path
    &&& e.uncompressed_size == Some(v.size)
    &&& match (e.layout, e.sample, e.entry_parse_error) {
        (Some(l), Some(s), None) => exists|buf: Seq<u8>| #[trigger] npz_read_ok(content, i, size, cap, buf, l)
            && npy_common_holds(s.common, buf, l, cap),
        (None, None, Some(_)) => forall|buf: Seq<u8>, l: ArrayLayoutSummary| !#[trigger] npz_read_ok(content, i, size, cap, buf, l),
        _ => false,
    }
}

/// The entry says what member `idx` (a readable entry) gives.
pub open spec fn member_entry_ok(e: NpzNpyEntry, content: Seq<u8>, idx: nat, cap: usize) -> bool {
    match zip_entry_at(content, idx) {
        Some(v) => npz_entry_holds(e, content, idx, v, cap),
        None => false,
    }
}

/// Reads what a member gives: its buffer and layout, or an error message.
fn read_npy_zip_member(archive: &mut ZipArchive<Cursor<&[u8]>>, i: usize, size: usize, cap: usize) -> (r: Result<(Vec<u8>, ArrayLayoutSummary), String>)
    ensures
        zip_source(*final(archive)) == zip_source(*old(archive)),
        match r {
            Ok((b, l)) => npz_read_ok(zip_source(*old(archive)), i as nat, size, cap, b@, l),
            Err(_) => forall|buf: Seq<u8>, l: ArrayLayoutSummary| !#[trigger] npz_read_ok(zip_source(*old(archive)), i as nat, size, cap, buf, l),
        },
{
    let ghost content = zip_source(*archive);
    let max_read = if size < MAX_NPZ_ENTRY_READ {
        size
    } else {
        MAX_NPZ_ENTRY_READ
    };
    let first = if INITIAL_NPZ_READ < max_read {
        INITIAL_NPZ_READ
    } else {
        max_read
    };
    let b1 = match zip_member_bytes(archive, i, first) {
        Some(b) => b,
        None => return Err("read npz .npy initial chunk".to_string()),
    };
    let p1 = parse_npy_prefix(b1.as_slice(), size);
    let (b2, parsed) = if p1.is_err() && b1.len() < max_read {
        let b = match zip_member_bytes(archive, i, max_read) {
            Some(b) => b,
            None => return Err("read npz .npy remainder for header".to_string()),
        };
        let p = parse_npy_prefix(b.as_slice(), size);
        (b, p)
    } else {
        (b1, p1)
    };
    let layout = match parsed {
        Ok(l) => l,
        Err(e) => {
            let mut msg = chars_of("parse .npy header inside .npz: ");
            append_chars(&mut msg, chars_of(e.as_str()).as_slice());
            return Err(string_of(msg.as_slice()));
        },
    };
    let target = zip_member_target_read_len(&layout, size, cap);
    let capped = if target < max_read {
        target
    } else {
        max_read
    };
    let need = if capped > b2.len() {
        capped
    } else {
        b2.len()
    };
    if b2.len() < need {
        match zip_member_bytes(archive, i, need) {
            Some(b) => Ok((b, layout)),
            None => Err("read npz .npy sample".to_string()),
        }
    } else {
        Ok((b2, layout))
    }
}

/// Reads the metadata of an `.npz` archive of `byte_count` bytes: the number
/// of ZIP entries and, for each of the first `MAX_NPZ_NPY_ENTRIES` readable
/// members whose names end in `.npy` (any ASCII case), its layout and a
/// sample of at most `cap` rows, or the error reading it. Fails where the
/// bytes do not open as an archive.
pub fn extract_npz_metadata(content: &[u8], byte_count: usize, cap: usize) -> (r: Result<NpzMetadata, String>)
    ensures
        r is Err <==> !zip_opens(content@),
        r matches Ok(m) ==> {
            let ms = read_members(content@);
            &&& m.byte_count == byte_count
            &&& m.zip_entry_count == Some(zip_entry_count(content@) as usize)
            &&& m.npy_entries_scanned == Some(ms.len() as usize)
            &&& m.npy_entries matches Some(es) && es@.len() == ms.len() && forall|k: int|
                0 <= k < es@.len() ==> member_entry_ok(#[trigger] es@[k], content@, ms[k], cap)
        },
{
    let mut archive = match open_zip(content) {
        Some(a) => a,
        None => return Err("open NPZ as ZIP".to_string()),
    };
    let n = zip_len(&archive);
    let mut entries: Vec<NpzNpyEntry> = Vec::new();
    let ghost mut members: Seq<nat> = Seq::empty();
    let mut i: usize = 0;
    loop
        invariant_except_break
            i <= n,
            n == zip_entry_count(content@),
            zip_source(archive) == content@,
            members == npy_members(content@, i as nat),
            entries@.len() == members.len(),
            entries@.len() <= MAX_NPZ_NPY_ENTRIES,
            forall|k: int|
                0 <= k < entries@.len() ==> member_entry_ok(#[trigger] entries@[k], content@, members[k], cap),
        ensures
            n == zip_entry_count(content@),
            entries@.len() <= MAX_NPZ_NPY_ENTRIES,
            entries@.len() == read_members(content@).len(),
            forall|k: int|
                0 <= k < entries@.len() ==> member_entry_ok(#[trigger] entries@[k], content@, read_members(content@)[k], cap),
        decreases n - i,
    {
        if i >= n {
            proof {
                assert(read_members(content@) =~= members);
                assert forall|k: int| 0 <= k < entries@.len() implies member_entry_ok(#[trigger] entries@[k], content@, read_members(content@)[k], cap) by {
                    assert(read_members(content@)[k] == members[k]);
                    assert(member_entry_ok(entries@[k], content@, members[k], cap));
                }
            }
            break;
        }
        if entries.len() >= MAX_NPZ_NPY_ENTRIES {
            proof {
                lemma_members_prefix(content@, i as nat, n as nat);
                assert(read_members(content@) =~= members);
                assert forall|k: int| 0 <= k < entries@.len() implies member_entry_ok(#[trigger] entries@[k], content@, read_members(content@)[k], cap) by {
                    assert(read_members(content@)[k] == members[k]);
                    assert(member_entry_ok(entries@[k], content@, members[k], cap));
                }
            }
            break;
        }
        let ghost prev = members;
        match zip_entry_info(&mut archive, i) {
            None => {},
            Some(info) => {
                if is_npy_file_name(info.path.as_str()) {
                    let size_u64 = info.size;
                    #[verifier::truncate]
            let size = info.size as usize;
                    let entry = match read_npy_zip_member(&mut archive, i, size, cap) {
                        Ok((buf, layout)) => {
                            let sample = column_common_from_npy_bytes(buf.as_slice(), &layout, cap);
                            assert(npz_read_ok(content@, i as nat, size, cap, buf@, layout)
                                && npy_common_holds(sample.common, buf@, layout, cap));
                            let ghost iv = info@;
                            let ghost gl = layout;
                            let ghost gb = buf@;
                            assert(size == iv.size as usize);
                            assert(npz_read_ok(content@, i as nat, iv.size as usize, cap, gb, gl));
                            let en = NpzNpyEntry {
                                name: info.path,
                                uncompressed_size: Some(size_u64),
                                layout: Some(layout),
                                sample: Some(sample),
                                entry_parse_error: None,
                            };
                            assert(npz_entry_holds(en, content@, i as nat, iv, cap));
                            en
                        },
                        Err(e) => {
                            let ghost iv = info@;
                            let en = NpzNpyEntry {
                                name: info.path,
                                uncompressed_size: Some(size_u64),
                                layout: None,
                                sample: None,
                                entry_parse_error: Some(e),
                            };
                            assert(npz_entry_holds(en, content@, i as nat, iv, cap));
                            en
                        },
                    };
                    assert(npz_entry_holds(entry, content@, i as nat, info@, cap));
                    entries.push(entry);
                    proof {
                        members = prev.push(i as nat);
                    }
                }
            },
        }
        assert forall|k: int|
            0 <= k < entries@.len() implies member_entry_ok(#[trigger] entries@[k], content@, members[k], cap) by {
            if k < prev.len() {
                assert(members[k] == prev[k]);
            }
        }
        i = i + 1;
    }
    let scanned = entries.len();
    Ok(NpzMetadata {
        byte_count,
        zip_entry_count: Some(n),
        npy_entries_scanned: Some(scanned),
        npy_entries: Some(entries),
    })
}

/// The members read from the first `i` entries are the first of all members.
proof fn lemma_members_prefix(content: Seq<u8>, i: nat, n: nat)
    requires
        i <= n,
    ensures
        npy_members(content, i).len() <= npy_members(content, n).len(),
        npy_members(content, i) == npy_members(content, n).take(npy_members(content, i).len() as int),
    decreases n - i,
{
    if i < n {
        let a = npy_members(content, (n - 1) as nat);
        let b = npy_members(content, n);
        assert(b.take(a.len() as int) =~= a);
        lemma_members_prefix(content, i, (n - 1) as nat);
        let li = npy_members(content, i).len() as int;
        assert(a.take(li) =~= b.take(li));
    } else {
        assert(npy_members(content, n) =~= npy_members(content, n).take(npy_members(content, n).len() as int));
    }
}

/// Whether a member name ends in `.npy`, in any ASCII case.
fn is_npy_file_name(name: &str) -> (r: bool)
    ensures
        r == is_npy_name(name@),
{
    let c = chars_of(name);
    let n = c.len();
    if n < 4 {
        return false;
    }
    lower_char(c[n - 4]) == '.' && lower_char(c[n - 3]) == 'n' && lower_char(c[n - 2]) == 'p' && lower_char(c[n - 1])
        == 'y'
}

/// ASCII lower case of a character.
fn lower_char(c: char) -> (r: char)
    ensures
        r == lower_ascii(c),
{
    if 'A' <= c && c <= 'Z' {
        ((c as u8) + 32) as char
    } else {
        c
    }
}

} // verus!
