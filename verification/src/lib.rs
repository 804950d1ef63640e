//! A library for the KFN karaoke container format: the binary codec for the
//! header, directory and payload blobs, the effects mini-language embedded in
//! the Song.ini text, the derivation of a time-ordered event stream, and the
//! playback scheduler's control logic.

pub mod decimal;
pub mod helpers;
pub mod kfn_data;
pub mod kfn_header;
pub mod ini_doc;
pub mod kfn_ini;
pub mod kfn_thread;
pub mod roundtrip;
pub mod strutil;

use vstd::prelude::*;

use crate::helpers::{entries_view, file_type_of_code, u32le, Entry, EntryV, FileType};
use crate::kfn_data::KfnData;
use crate::kfn_header::{empty_header, header_bytes, header_ok, HeaderV, KfnHeader};

verus! {

/// The typed failures of decoding a KFN container and its embedded
/// Song.ini. Structural failures abort the whole decode; grammar failures
/// name the section and key at fault.
#[derive(Debug, Clone, PartialEq)]
pub enum KfnParseError {
    /// The magic tag was not the expected one; carries what was read.
    InvalidHeaderSignature(String),
    /// A mandatory field held invalid UTF-8.
    Utf8ConversionError,
    /// A read ran past the end of the buffer.
    TruncatedFile,
    /// No Song.ini entry is present in the directory.
    MissingSongIni,
    /// The Song.ini text is not well-formed INI.
    IniFormat,
    /// A required key of the effects language is missing or malformed.
    GrammarError { section: String, key: String },
}

/// The outcome of decoding a container buffer: the header fields, the
/// directory entries with their payloads attached and offsets made
/// absolute, and the directory's end position; or the failure that stopped
/// the decode.
pub enum ParseV {
    Done(HeaderV, Seq<EntryV>, int),
    BadSig(Seq<char>),
    BadUtf8,
    Short,
}

/// The little-endian `u32` at a byte position.
pub open spec fn le32_at(b: Seq<u8>, p: int) -> u32
    recommends
        0 <= p,
        p + 4 <= b.len(),
{
    (b[p + 3] as u32) << 24 | (b[p + 2] as u32) << 16 | (b[p + 1] as u32) << 8 | (b[p] as u32)
}

/// One numeric header record applied to the header fields; unrecognized
/// tags change nothing.
pub open spec fn apply_num(h: HeaderV, name: Seq<char>, v: u32) -> HeaderV {
    if name == "DIFM"@ {
        HeaderV { diff_men: v, ..h }
    } else if name == "DIFW"@ {
        HeaderV { diff_women: v, ..h }
    } else if name == "GNRE"@ {
        HeaderV { genre: v, ..h }
    } else if name == "SFTV"@ {
        HeaderV { sftv: v, ..h }
    } else if name == "MUSL"@ {
        HeaderV { musl: v, ..h }
    } else if name == "ANME"@ {
        HeaderV { anme: v, ..h }
    } else if name == "TYPE"@ {
        HeaderV { kfn_type: v, ..h }
    } else if name == "RGHT"@ {
        HeaderV { rght: v, ..h }
    } else if name == "PROV"@ {
        HeaderV { prov: v, ..h }
    } else {
        h
    }
}

/// One string header record applied to the header fields; unrecognized
/// tags change nothing.
pub open spec fn apply_str(h: HeaderV, name: Seq<char>, s: Seq<char>) -> HeaderV {
    if name == "FLID"@ {
        HeaderV { flid: s, ..h }
    } else if name == "LANG"@ {
        HeaderV { language: s, ..h }
    } else if name == "TITL"@ {
        HeaderV { title: s, ..h }
    } else if name == "ALBM"@ {
        HeaderV { album: s, ..h }
    } else if name == "ARTS"@ {
        HeaderV { artist: s, ..h }
    } else if name == "COMP"@ {
        HeaderV { composer: s, ..h }
    } else if name == "COPY"@ {
        HeaderV { copyright: s, ..h }
    } else if name == "SORC"@ {
        HeaderV { source_file: s, ..h }
    } else if name == "YEAR"@ {
        HeaderV { year: s, ..h }
    } else if name == "TRAK"@ {
        HeaderV { trak: s, ..h }
    } else if name == "KFNZ"@ {
        HeaderV { karafunizer: s, ..h }
    } else if name == "IDUS"@ {
        HeaderV { idus: s, ..h }
    } else {
        h
    }
}

/// A string payload decoded leniently: invalid UTF-8 falls back to the
/// sentinel string rather than failing.
pub open spec fn str_or_unknown(b: Seq<u8>) -> Seq<char> {
    if vstd::utf8::valid_utf8(b) {
        vstd::utf8::decode_utf8(b)
    } else {
        "Unknown"@
    }
}

/// The header-record loop: reads tag, kind and inline value, applies known
/// records, and hands over to the directory after the closing tag.
pub open spec fn spec_parse_records(bytes: Seq<u8>, pos: int, h: HeaderV) -> ParseV
    decreases bytes.len() - pos,
{
    if pos < 0 || pos + 9 > bytes.len() {
        ParseV::Short
    } else {
        let tag = bytes.subrange(pos, pos + 4);
        let kind = bytes[pos + 4];
        let val = le32_at(bytes, pos + 5);
        if !vstd::utf8::valid_utf8(tag) {
            ParseV::BadUtf8
        } else {
            let name = vstd::utf8::decode_utf8(tag);
            if kind == 1 {
                let h2 = apply_num(h, name, val);
                if name == "ENDH"@ {
                    spec_parse_dir(bytes, pos + 9, h2)
                } else {
                    spec_parse_records(bytes, pos + 9, h2)
                }
            } else if kind == 2 {
                if pos + 9 + val > bytes.len() {
                    ParseV::Short
                } else {
                    let h2 = apply_str(
                        h,
                        name,
                        str_or_unknown(bytes.subrange(pos + 9, pos + 9 + val)),
                    );
                    if name == "ENDH"@ {
                        spec_parse_dir(bytes, pos + 9 + val, h2)
                    } else {
                        spec_parse_records(bytes, pos + 9 + val, h2)
                    }
                }
            } else {
                if name == "ENDH"@ {
                    spec_parse_dir(bytes, pos + 9, h)
                } else {
                    spec_parse_records(bytes, pos + 9, h)
                }
            }
        }
    }
}

/// The directory: an entry count followed by that many records.
pub open spec fn spec_parse_dir(bytes: Seq<u8>, pos: int, h: HeaderV) -> ParseV {
    if pos < 0 || pos + 4 > bytes.len() {
        ParseV::Short
    } else {
        spec_parse_entries(bytes, pos + 4, le32_at(bytes, pos) as int, Seq::<EntryV>::empty(), h)
    }
}

/// One directory record after another: length-prefixed filename (whose
/// UTF-8 must hold), type code and four numeric fields.
pub open spec fn spec_parse_entries(
    bytes: Seq<u8>,
    pos: int,
    remaining: int,
    acc: Seq<EntryV>,
    h: HeaderV,
) -> ParseV
    decreases remaining,
{
    if remaining <= 0 {
        spec_finalize(bytes, pos, acc, h)
    } else if pos < 0 || pos + 4 > bytes.len() {
        ParseV::Short
    } else {
        let namelen = le32_at(bytes, pos) as int;
        if pos + 4 + namelen + 20 > bytes.len() {
            ParseV::Short
        } else {
            let nb = bytes.subrange(pos + 4, pos + 4 + namelen);
            if !vstd::utf8::valid_utf8(nb) {
                ParseV::BadUtf8
            } else {
                let base = pos + 4 + namelen;
                let e = EntryV {
                    file_type: file_type_of_code(le32_at(bytes, base)),
                    filename: vstd::utf8::decode_utf8(nb),
                    len1: le32_at(bytes, base + 4) as int,
                    offset: le32_at(bytes, base + 8) as int,
                    len2: le32_at(bytes, base + 12) as int,
                    flags: le32_at(bytes, base + 16) as int,
                    file_bin: Seq::<u8>::empty(),
                };
                spec_parse_entries(bytes, base + 20, remaining - 1, acc.push(e), h)
            }
        }
    }
}

/// After the directory: offsets become absolute against the directory's
/// end, and each payload is the declared byte range of the buffer; a range
/// past the end fails the whole decode.
pub open spec fn spec_finalize(bytes: Seq<u8>, dir_end: int, acc: Seq<EntryV>, h: HeaderV) -> ParseV {
    if forall|i: int|
        0 <= i < acc.len() ==> (#[trigger] acc[i]).offset + dir_end + acc[i].len1 <= bytes.len() {
        ParseV::Done(h, restore_entries(bytes, dir_end, acc), dir_end)
    } else {
        ParseV::Short
    }
}

/// The decoded entries with absolute offsets and payloads attached.
pub open spec fn restore_entries(bytes: Seq<u8>, dir_end: int, acc: Seq<EntryV>) -> Seq<EntryV> {
    Seq::new(
        acc.len(),
        |i: int|
            EntryV {
                file_type: acc[i].file_type,
                filename: acc[i].filename,
                len1: acc[i].len1,
                offset: acc[i].offset + dir_end,
                len2: acc[i].len2,
                flags: acc[i].flags,
                file_bin: bytes.subrange(
                    acc[i].offset + dir_end,
                    acc[i].offset + dir_end + acc[i].len1,
                ),
            },
    )
}

/// The whole container decode: the magic tag, the header records, the
/// directory and the payload attachment.
pub open spec fn spec_parse(bytes: Seq<u8>) -> ParseV {
    if bytes.len() < 4 {
        ParseV::Short
    } else {
        let magic = bytes.subrange(0, 4);
        if !vstd::utf8::valid_utf8(magic) {
            ParseV::BadUtf8
        } else if vstd::utf8::decode_utf8(magic) != "KFNB"@ {
            ParseV::BadSig(vstd::utf8::decode_utf8(magic))
        } else {
            spec_parse_records(bytes, 4, empty_header())
        }
    }
}

/// Reads the little-endian `u32` at a byte position.
fn read_le32(data: &Vec<u8>, pos: usize) -> (r: u32)
    requires
        pos + 4 <= data@.len(),
    ensures
        r == le32_at(data@, pos as int),
{
    let n = data.len();
    (data[pos + 3] as u32) << 24 | (data[pos + 2] as u32) << 16 | (data[pos + 1] as u32) << 8 | (
    data[pos] as u32)
}

/// Copies the byte range `[a, b)` of the buffer.
fn copy_range(data: &Vec<u8>, a: usize, b: usize) -> (r: Vec<u8>)
    requires
        a <= b <= data@.len(),
    ensures
        r@ == data@.subrange(a as int, b as int),
{
    let mut r: Vec<u8> = Vec::new();
    let mut i: usize = a;
    while i < b
        invariant
            a <= i <= b <= data@.len(),
            r@ == data@.subrange(a as int, i as int),
        decreases b - i,
    {
        r.push(data[i]);
        proof {
            assert(r@ =~= data@.subrange(a as int, i + 1 as int));
        }
        i = i + 1;
    }
    r
}

/// Applies one numeric header record to the header fields.
fn apply_num_exec(h: &mut KfnHeader, name: &str, v: u32)
    ensures
        final (h)@ == apply_num(old(h)@, name@, v),
{
    if crate::strutil::str_eq(name, "DIFM") {
        h.diff_men = v;
    } else if crate::strutil::str_eq(name, "DIFW") {
        h.diff_women = v;
    } else if crate::strutil::str_eq(name, "GNRE") {
        h.genre = v;
    } else if crate::strutil::str_eq(name, "SFTV") {
        h.sftv = v;
    } else if crate::strutil::str_eq(name, "MUSL") {
        h.musl = v;
    } else if crate::strutil::str_eq(name, "ANME") {
        h.anme = v;
    } else if crate::strutil::str_eq(name, "TYPE") {
        h.kfn_type = v;
    } else if crate::strutil::str_eq(name, "RGHT") {
        h.rght = v;
    } else if crate::strutil::str_eq(name, "PROV") {
        h.prov = v;
    }
}

/// Applies one string header record to the header fields.
fn apply_str_exec(h: &mut KfnHeader, name: &str, s: String)
    ensures
        final (h)@ == apply_str(old(h)@, name@, s@),
{
    if crate::strutil::str_eq(name, "FLID") {
        h.flid = s;
    } else if crate::strutil::str_eq(name, "LANG") {
        h.language = s;
    } else if crate::strutil::str_eq(name, "TITL") {
        h.title = s;
    } else if crate::strutil::str_eq(name, "ALBM") {
        h.album = s;
    } else if crate::strutil::str_eq(name, "ARTS") {
        h.artist = s;
    } else if crate::strutil::str_eq(name, "COMP") {
        h.composer = s;
    } else if crate::strutil::str_eq(name, "COPY") {
        h.copyright = s;
    } else if crate::strutil::str_eq(name, "SORC") {
        h.source_file = s;
    } else if crate::strutil::str_eq(name, "YEAR") {
        h.year = s;
    } else if crate::strutil::str_eq(name, "TRAK") {
        h.trak = s;
    } else if crate::strutil::str_eq(name, "KFNZ") {
        h.karafunizer = s;
    } else if crate::strutil::str_eq(name, "IDUS") {
        h.idus = s;
    }
}

/// Decodes a whole container buffer: magic tag, header records, directory
/// and payloads. The result is exactly what `spec_parse` assigns to the
/// buffer, and each failure maps to its typed error.
pub fn decode_container(data: &Vec<u8>) -> (r: Result<(KfnHeader, Vec<Entry>, usize), KfnParseError>)
    ensures
        match r {
            Ok(t) => spec_parse(data@) == ParseV::Done(t.0@, entries_view(t.1@), t.2 as int),
            Err(e) => match spec_parse(data@) {
                ParseV::Done(h, es, de) => false,
                ParseV::BadSig(sg) => e matches KfnParseError::InvalidHeaderSignature(m) && m@
                    == sg,
                ParseV::BadUtf8 => e == KfnParseError::Utf8ConversionError,
                ParseV::Short => e == KfnParseError::TruncatedFile,
            },
        },
{
    let n = data.len();
    if n < 4 {
        return Err(KfnParseError::TruncatedFile);
    }
    let magic = copy_range(data, 0, 4);
    let magic_s = match crate::kfn_data::bytes_to_string(&magic) {
        Some(s) => s,
        None => {
            return Err(KfnParseError::Utf8ConversionError);
        },
    };
    if !crate::strutil::str_eq(magic_s.as_str(), "KFNB") {
        return Err(KfnParseError::InvalidHeaderSignature(magic_s));
    }
    let mut h = KfnHeader::default();
    let mut pos: usize = 4;
    loop
        invariant_except_break
            pos <= n,
            n == data@.len(),
            spec_parse(data@) == spec_parse_records(data@, pos as int, h@),
        ensures
            pos <= n,
            n == data@.len(),
            spec_parse(data@) == spec_parse_dir(data@, pos as int, h@),
        decreases n - pos,
    {
        if n - pos < 9 {
            return Err(KfnParseError::TruncatedFile);
        }
        let tag = copy_range(data, pos, pos + 4);
        let tag_s = match crate::kfn_data::bytes_to_string(&tag) {
            Some(s) => s,
            None => {
                return Err(KfnParseError::Utf8ConversionError);
            },
        };
        let kind = data[pos + 4];
        let val = read_le32(data, pos + 5);
        let is_endh = crate::strutil::str_eq(tag_s.as_str(), "ENDH");
        if kind == 1 {
            apply_num_exec(&mut h, tag_s.as_str(), val);
            pos = pos + 9;
        } else if kind == 2 {
            let vlen = val as usize;
            if n - pos - 9 < vlen {
                return Err(KfnParseError::TruncatedFile);
            }
            let buf = copy_range(data, pos + 9, pos + 9 + vlen);
            let sv = match crate::kfn_data::bytes_to_string(&buf) {
                Some(s) => s,
                None => crate::strutil::str_to_string("Unknown"),
            };
            apply_str_exec(&mut h, tag_s.as_str(), sv);
            pos = pos + 9 + vlen;
        } else {
            pos = pos + 9;
        }
        if is_endh {
            break ;
        }
    }
    if n - pos < 4 {
        return Err(KfnParseError::TruncatedFile);
    }
    let count32 = read_le32(data, pos);
    let count = count32 as usize;
    pos = pos + 4;
    let mut entries: Vec<Entry> = Vec::new();
    proof {
        assert(entries_view(entries@) =~= Seq::<EntryV>::empty());
    }
    let mut rem = count;
    while rem > 0
        invariant
            pos <= n,
            n == data@.len(),
            spec_parse(data@) == spec_parse_entries(
                data@,
                pos as int,
                rem as int,
                entries_view(entries@),
                h@,
            ),
        decreases rem,
    {
        if n - pos < 4 {
            return Err(KfnParseError::TruncatedFile);
        }
        let namelen32 = read_le32(data, pos);
        let namelen = namelen32 as usize;
        if namelen > n - pos - 4 {
            return Err(KfnParseError::TruncatedFile);
        }
        if n - pos - 4 - namelen < 20 {
            return Err(KfnParseError::TruncatedFile);
        }
        let name_bytes = copy_range(data, pos + 4, pos + 4 + namelen);
        let filename = match crate::kfn_data::bytes_to_string(&name_bytes) {
            Some(s) => s,
            None => {
                return Err(KfnParseError::Utf8ConversionError);
            },
        };
        let base = pos + 4 + namelen;
        let file_type = FileType::from(read_le32(data, base));
        let len1 = read_le32(data, base + 4) as usize;
        let offset = read_le32(data, base + 8) as usize;
        let len2 = read_le32(data, base + 12) as usize;
        let flags = read_le32(data, base + 16) as usize;
        let ghost acc0 = entries_view(entries@);
        entries.push(
            Entry { file_type, filename, len1, offset, len2, flags, file_bin: Vec::new() },
        );
        proof {
            let e = EntryV {
                file_type: file_type_of_code(le32_at(data@, base as int)),
                filename: vstd::utf8::decode_utf8(
                    data@.subrange(pos + 4 as int, pos + 4 + namelen as int),
                ),
                len1: le32_at(data@, base + 4 as int) as int,
                offset: le32_at(data@, base + 8 as int) as int,
                len2: le32_at(data@, base + 12 as int) as int,
                flags: le32_at(data@, base + 16 as int) as int,
                file_bin: Seq::<u8>::empty(),
            };
            assert(entries_view(entries@) =~= acc0.push(e)) by {
                assert(entries@.last()@.file_bin =~= Seq::<u8>::empty());
                assert(entries@.last()@ == e);
            }
        }
        pos = base + 20;
        rem = rem - 1;
    }
    let dir_end = pos;
    let ghost acc0 = entries_view(entries@);
    let mut i: usize = 0;
    while i < entries.len()
        invariant
            i <= entries.len(),
            n == data@.len(),
            dir_end <= n,
            entries@.len() == acc0.len(),
            spec_parse(data@) == spec_finalize(data@, dir_end as int, acc0, h@),
            forall|k: int|
                0 <= k < i ==> (#[trigger] acc0[k]).offset + dir_end + acc0[k].len1 <= n
                    && entries@[k]@ == restore_entries(data@, dir_end as int, acc0)[k],
            forall|k: int| i <= k < entries@.len() ==> #[trigger] entries@[k]@ == acc0[k],
        decreases entries.len() - i,
    {
        proof {
            assert(entries@[i as int]@ == acc0[i as int]);
        }
        let off = entries[i].offset;
        let l1 = entries[i].len1;
        if off > n - dir_end {
            proof {
                assert(acc0[i as int].offset + dir_end + acc0[i as int].len1 > n);
            }
            return Err(KfnParseError::TruncatedFile);
        }
        if l1 > n - dir_end - off {
            proof {
                assert(acc0[i as int].offset + dir_end + acc0[i as int].len1 > n);
            }
            return Err(KfnParseError::TruncatedFile);
        }
        let abs = off + dir_end;
        let blob = copy_range(data, abs, abs + l1);
        let ghost prev = entries@;
        let mut e = entries.remove(i);
        e.offset = abs;
        e.file_bin = blob;
        entries.insert(i, e);
        proof {
            assert(forall|k: int|
                0 <= k < entries@.len() && k != i ==> #[trigger] entries@[k] == prev[k]);
            assert(entries@[i as int]@ == restore_entries(data@, dir_end as int, acc0)[i as int]);
        }
        i = i + 1;
    }
    proof {
        assert(entries_view(entries@) =~= restore_entries(data@, dir_end as int, acc0));
        assert(spec_finalize(data@, dir_end as int, acc0, h@) == ParseV::Done(
            h@,
            restore_entries(data@, dir_end as int, acc0),
            dir_end as int,
        ));
    }
    Ok((h, entries, dir_end))
}

/// Inserting a timestamped item into a list, after every item at or below
/// its time: a stable insertion.
pub open spec fn insert_by_time<T>(x: (int, T), s: Seq<(int, T)>) -> Seq<(int, T)>
    decreases s.len(),
{
    if s.len() == 0 {
        seq![x]
    } else if s.last().0 <= x.0 {
        s.push(x)
    } else {
        insert_by_time(x, s.drop_last()).push(s.last())
    }
}

/// A timestamped list rebuilt in ascending time order, stably: each item
/// in turn is inserted after its equals.
pub open spec fn sort_by_time<T>(s: Seq<(int, T)>) -> Seq<(int, T)>
    decreases s.len(),
{
    if s.len() == 0 {
        Seq::empty()
    } else {
        insert_by_time(s.last(), sort_by_time(s.drop_last()))
    }
}

/// Whether a timestamped list ascends.
pub open spec fn time_sorted<T>(s: Seq<(int, T)>) -> bool {
    forall|i: int, j: int| 0 <= i < j < s.len() ==> (#[trigger] s[i]).0 <= (#[trigger] s[j]).0
}

proof fn lemma_insert_by_time_len<T>(x: (int, T), s: Seq<(int, T)>)
    ensures
        insert_by_time(x, s).len() == s.len() + 1,
    decreases s.len(),
{
    if s.len() > 0 && !(s.last().0 <= x.0) {
        lemma_insert_by_time_len(x, s.drop_last());
    }
}

proof fn lemma_insert_by_time_sorted<T>(x: (int, T), s: Seq<(int, T)>)
    requires
        time_sorted(s),
    ensures
        time_sorted(insert_by_time(x, s)),
    decreases s.len(),
{
    lemma_insert_by_time_len(x, s);
    if s.len() == 0 {
    } else if s.last().0 <= x.0 {
        assert forall|i: int, j: int|
            0 <= i < j < s.push(x).len() implies (#[trigger] s.push(x)[i]).0 <= (#[trigger] s.push(
            x,
        )[j]).0 by {
            if j < s.len() {
            } else {
                if i < s.len() {
                    assert(s[i].0 <= s.last().0 || i == s.len() - 1);
                }
            }
        }
    } else {
        assert(time_sorted(s.drop_last())) by {
            assert(forall|k: int|
                0 <= k < s.drop_last().len() ==> #[trigger] s.drop_last()[k] == s[k]);
        }
        lemma_insert_by_time_sorted(x, s.drop_last());
        lemma_insert_by_time_len(x, s.drop_last());
        let inner = insert_by_time(x, s.drop_last());
        lemma_insert_by_time_members(x, s.drop_last());
        assert forall|i: int, j: int|
            0 <= i < j < inner.push(s.last()).len() implies (#[trigger] inner.push(
            s.last(),
        )[i]).0 <= (#[trigger] inner.push(s.last())[j]).0 by {
            if j < inner.len() {
            } else {
                if i < inner.len() {
                    assert(inner[i].0 <= s.last().0);
                }
            }
        }
    }
}

/// Every item of a stable insertion is the inserted one or one of the
/// originals, so its time is bounded by theirs.
proof fn lemma_insert_by_time_members<T>(x: (int, T), s: Seq<(int, T)>)
    ensures
        forall|i: int|
            0 <= i < insert_by_time(x, s).len() ==> (#[trigger] insert_by_time(x, s)[i]).0 == x.0
                || (exists|k: int| 0 <= k < s.len() && (#[trigger] s[k]).0 == insert_by_time(x, s)[i].0),
    decreases s.len(),
{
    lemma_insert_by_time_len(x, s);
    if s.len() == 0 {
    } else if s.last().0 <= x.0 {
    } else {
        lemma_insert_by_time_members(x, s.drop_last());
        lemma_insert_by_time_len(x, s.drop_last());
        assert(forall|k: int|
            0 <= k < s.drop_last().len() ==> #[trigger] s.drop_last()[k] == s[k]);
    }
}

/// The derived timelines ascend: a stably time-sorted list is ordered by
/// ascending timestamp.
pub proof fn lemma_sort_by_time_sorted<T>(s: Seq<(int, T)>)
    ensures
        time_sorted(sort_by_time(s)),
    decreases s.len(),
{
    if s.len() > 0 {
        lemma_sort_by_time_sorted(s.drop_last());
        lemma_insert_by_time_sorted(s.last(), sort_by_time(s.drop_last()));
    }
}

/// Where a stable insertion lands: past every leading item at or below the
/// new time, before the trailing items above it.
proof fn lemma_insert_by_time_at<T>(x: (int, T), s: Seq<(int, T)>, q: int)
    requires
        0 <= q <= s.len(),
        forall|k: int| q <= k < s.len() ==> (#[trigger] s[k]).0 > x.0,
        q > 0 ==> s[q - 1].0 <= x.0,
    ensures
        insert_by_time(x, s) == s.take(q) + seq![x] + s.skip(q),
    decreases s.len() - q,
{
    if q == s.len() {
        if s.len() == 0 {
            assert(insert_by_time(x, s) =~= s.take(q) + seq![x] + s.skip(q));
        } else {
            assert(s.last().0 <= x.0);
            assert(s.push(x) =~= s.take(q) + seq![x] + s.skip(q));
        }
    } else {
        assert(s.last().0 > x.0);
        let dl = s.drop_last();
        assert(forall|k: int| 0 <= k < dl.len() ==> #[trigger] dl[k] == s[k]);
        lemma_insert_by_time_at(x, dl, q);
        assert((dl.take(q) + seq![x] + dl.skip(q)).push(s.last()) =~= s.take(q) + seq![x] + s.skip(
            q,
        ));
    }
}

/// Inserts an event into a time-ascending vector, after every event at or
/// below its time.
fn insert_event_sorted(events: &mut Vec<crate::helpers::event::Event>, e: crate::helpers::event::Event) -> (q:
    usize)
    ensures
        q <= old(events)@.len(),
        final (events)@ == old(events)@.take(q as int) + seq![e] + old(events)@.skip(q as int),
        forall|k: int| q <= k < old(events)@.len() ==> (#[trigger] old(events)@[k]).time > e.time,
        q > 0 ==> old(events)@[q - 1].time <= e.time,
{
    let mut q = events.len();
    while q > 0 && events[q - 1].time > e.time
        invariant
            q <= events@.len(),
            events@ == old(events)@,
            forall|k: int| q <= k < events@.len() ==> (#[trigger] events@[k]).time > e.time,
        decreases q,
    {
        q = q - 1;
    }
    events.insert(q, e);
    proof {
        assert(events@ =~= old(events)@.take(q as int) + seq![e] + old(events)@.skip(q as int));
    }
    q
}

/// How a vector of delivered events realizes a timestamped model list.
pub open spec fn text_events_match(
    r: Seq<crate::helpers::event::Event>,
    ev: Seq<(int, crate::kfn_ini::eff::TextEntryV)>,
) -> bool {
    &&& r.len() == ev.len()
    &&& forall|k: int|
        0 <= k < ev.len() ==> (#[trigger] r[k]).time as int == ev[k].0 && (r[k].event_type
            matches crate::helpers::event::EventType::Text(t)
            && crate::kfn_ini::eff::text_entry_view(t) == ev[k].1)
}

/// How a vector of delivered events realizes a timestamped background
/// model list.
pub open spec fn bg_events_match(
    r: Seq<crate::helpers::event::Event>,
    ev: Seq<(int, crate::kfn_ini::eff::AnimEntry)>,
) -> bool {
    &&& r.len() == ev.len()
    &&& forall|k: int|
        0 <= k < ev.len() ==> (#[trigger] r[k]).time as int == ev[k].0 && (r[k].event_type
            matches crate::helpers::event::EventType::Background(ae) && anim_entry_eqv(
            ae,
            ev[k].1,
        ))
}

/// Inserting matching items keeps a match with the stable insertion.
proof fn lemma_text_match_insert(
    r0: Seq<crate::helpers::event::Event>,
    ev0: Seq<(int, crate::kfn_ini::eff::TextEntryV)>,
    e: crate::helpers::event::Event,
    p: (int, crate::kfn_ini::eff::TextEntryV),
    q: int,
)
    requires
        text_events_match(r0, ev0),
        0 <= q <= r0.len(),
        e.time as int == p.0,
        e.event_type matches crate::helpers::event::EventType::Text(t)
            && crate::kfn_ini::eff::text_entry_view(t) == p.1,
        forall|k: int| q <= k < r0.len() ==> (#[trigger] r0[k]).time > e.time,
        q > 0 ==> r0[q - 1].time <= e.time,
    ensures
        text_events_match(r0.take(q) + seq![e] + r0.skip(q), insert_by_time(p, ev0)),
{
    assert forall|k: int| q <= k < ev0.len() implies (#[trigger] ev0[k]).0 > p.0 by {
        assert(r0[k].time as int == ev0[k].0);
    }
    lemma_insert_by_time_at(p, ev0, q);
    let r1 = r0.take(q) + seq![e] + r0.skip(q);
    let ev1 = ev0.take(q) + seq![p] + ev0.skip(q);
    assert forall|k: int|
        0 <= k < ev1.len() implies (#[trigger] r1[k]).time as int == ev1[k].0 && (r1[k].event_type
        matches crate::helpers::event::EventType::Text(t)
        && crate::kfn_ini::eff::text_entry_view(t) == ev1[k].1) by {
        if k < q {
            assert(r1[k] == r0[k] && ev1[k] == ev0[k]);
        } else if k == q {
            assert(r1[k] == e && ev1[k] == p);
        } else {
            assert(r1[k] == r0[k - 1] && ev1[k] == ev0[k - 1]);
        }
    }
}

/// Inserting matching background items keeps a match with the stable
/// insertion.
proof fn lemma_bg_match_insert(
    r0: Seq<crate::helpers::event::Event>,
    ev0: Seq<(int, crate::kfn_ini::eff::AnimEntry)>,
    e: crate::helpers::event::Event,
    p: (int, crate::kfn_ini::eff::AnimEntry),
    q: int,
)
    requires
        bg_events_match(r0, ev0),
        0 <= q <= r0.len(),
        e.time as int == p.0,
        e.event_type matches crate::helpers::event::EventType::Background(ae) && anim_entry_eqv(
            ae,
            p.1,
        ),
        forall|k: int| q <= k < r0.len() ==> (#[trigger] r0[k]).time > e.time,
        q > 0 ==> r0[q - 1].time <= e.time,
    ensures
        bg_events_match(r0.take(q) + seq![e] + r0.skip(q), insert_by_time(p, ev0)),
{
    assert forall|k: int| q <= k < ev0.len() implies (#[trigger] ev0[k]).0 > p.0 by {
        assert(r0[k].time as int == ev0[k].0);
    }
    lemma_insert_by_time_at(p, ev0, q);
    let r1 = r0.take(q) + seq![e] + r0.skip(q);
    let ev1 = ev0.take(q) + seq![p] + ev0.skip(q);
    assert forall|k: int|
        0 <= k < ev1.len() implies (#[trigger] r1[k]).time as int == ev1[k].0 && (r1[k].event_type
        matches crate::helpers::event::EventType::Background(ae) && anim_entry_eqv(
        ae,
        ev1[k].1,
    )) by {
        if k < q {
            assert(r1[k] == r0[k] && ev1[k] == ev0[k]);
        } else if k == q {
            assert(r1[k] == e && ev1[k] == p);
        } else {
            assert(r1[k] == r0[k - 1] && ev1[k] == ev0[k - 1]);
        }
    }
}

/// The text events of all foreground layers: one per lyric line, at the
/// line's first fragment's sync time, in layer then line order.
pub open spec fn text_events_v(effs: Seq<crate::kfn_ini::eff::Eff>) -> Seq<
    (int, crate::kfn_ini::eff::TextEntryV),
>
    decreases effs.len(),
{
    if effs.len() == 0 {
        Seq::empty()
    } else {
        text_events_v(effs.drop_last()) + (if effs.last().id == 51 {
            Seq::empty()
        } else {
            Seq::new(
                effs.last().texts@.len(),
                |j: int|
                    (
                        effs.last().texts@[j].fragments@[0].0 as int,
                        crate::kfn_ini::eff::text_entry_view(effs.last().texts@[j]),
                    ),
            )
        })
    }
}

/// The background events of the background layer: one per animation entry
/// of the first id-51 layer, at its animation's time, in row then entry
/// order; no background layer means no events.
pub open spec fn bg_events_v(effs: Seq<crate::kfn_ini::eff::Eff>) -> Seq<
    (int, crate::kfn_ini::eff::AnimEntry),
>
    decreases effs.len(),
{
    if effs.len() == 0 {
        Seq::empty()
    } else if effs.first().id == 51 {
        anims_flat(effs.first().anims@)
    } else {
        bg_events_v(effs.drop_first())
    }
}

/// Every (time, entry) pair of a list of animation rows, in order.
pub open spec fn anims_flat(anims: Seq<crate::kfn_ini::eff::Anim>) -> Seq<
    (int, crate::kfn_ini::eff::AnimEntry),
>
    decreases anims.len(),
{
    if anims.len() == 0 {
        Seq::empty()
    } else {
        anims_flat(anims.drop_last()) + Seq::new(
            anims.last().anim_entries@.len(),
            |k: int| (anims.last().time as int, anims.last().anim_entries@[k]),
        )
    }
}

/// Whether two animation entries hold the same content, field for field,
/// comparing the carried strings by their characters.
pub open spec fn anim_entry_eqv(
    a: crate::kfn_ini::eff::AnimEntry,
    b: crate::kfn_ini::eff::AnimEntry,
) -> bool {
    &&& action_eqv(a.action, b.action)
    &&& a.effect == b.effect
    &&& a.trans_time == b.trans_time
    &&& a.trans_type == b.trans_type
}

/// Whether two actions hold the same content.
pub open spec fn action_eqv(a: crate::kfn_ini::eff::Action, b: crate::kfn_ini::eff::Action) -> bool {
    match (a, b) {
        (crate::kfn_ini::eff::Action::NoAction, crate::kfn_ini::eff::Action::NoAction) => true,
        (crate::kfn_ini::eff::Action::ChgBgImg(x), crate::kfn_ini::eff::Action::ChgBgImg(y)) => x@
            == y@,
        (
            crate::kfn_ini::eff::Action::ChgColColor(x),
            crate::kfn_ini::eff::Action::ChgColColor(y),
        ) => x@ == y@,
        (
            crate::kfn_ini::eff::Action::ChgColImageColor(x),
            crate::kfn_ini::eff::Action::ChgColImageColor(y),
        ) => x@ == y@,
        (
            crate::kfn_ini::eff::Action::ChgAlphaBlending(x),
            crate::kfn_ini::eff::Action::ChgAlphaBlending(y),
        ) => x@ == y@,
        (
            crate::kfn_ini::eff::Action::ChgFloatOffsetX(x),
            crate::kfn_ini::eff::Action::ChgFloatOffsetX(y),
        ) => x == y,
        (
            crate::kfn_ini::eff::Action::ChgFloatOffsetY(x),
            crate::kfn_ini::eff::Action::ChgFloatOffsetY(y),
        ) => x == y,
        (
            crate::kfn_ini::eff::Action::ChgFloatDepth(x),
            crate::kfn_ini::eff::Action::ChgFloatDepth(y),
        ) => x == y,
        (
            crate::kfn_ini::eff::Action::ChgTrajectory(x),
            crate::kfn_ini::eff::Action::ChgTrajectory(y),
        ) => x == y,
        _ => false,
    }
}

/// Deriving the event timeline is a pure function of the effect layers:
/// any two derivations from equal layers agree, element for element.
pub proof fn lemma_derive_deterministic(
    effs: Seq<crate::kfn_ini::eff::Eff>,
    r1: Seq<(int, crate::kfn_ini::eff::TextEntryV)>,
    r2: Seq<(int, crate::kfn_ini::eff::TextEntryV)>,
)
    requires
        r1 == sort_by_time(text_events_v(effs)),
        r2 == sort_by_time(text_events_v(effs)),
    ensures
        r1 == r2,
{
}


/// Everything a successful parse guarantees: the decoded header, entries
/// and directory end, the Song.ini document loaded from the first
/// Song.ini entry, and one decoded effect layer per numbered section.
/// The first entry named `Song.ini`, if any.
pub open spec fn first_song_ini(es: Seq<EntryV>) -> Option<EntryV>
    decreases es.len(),
{
    if es.len() == 0 {
        None
    } else if es.first().filename == "Song.ini"@ {
        Some(es.first())
    } else {
        first_song_ini(es.drop_first())
    }
}

/// Skipping entries that are not named `Song.ini` does not change the
/// lookup.
pub proof fn lemma_first_song_ini_skip(es: Seq<EntryV>, i: int)
    requires
        0 <= i <= es.len(),
        forall|k: int| 0 <= k < i ==> (#[trigger] es[k]).filename != "Song.ini"@,
    ensures
        first_song_ini(es) == first_song_ini(es.skip(i)),
    decreases i,
{
    if i > 0 {
        lemma_first_song_ini_skip(es.drop_first(), i - 1);
        assert(es.drop_first().skip(i - 1) =~= es.skip(i));
        assert(forall|k: int|
            0 <= k < i - 1 ==> (#[trigger] es.drop_first()[k]).filename == es[k + 1].filename);
    } else {
        assert(es.skip(0) =~= es);
    }
}

/// When a whole parse is owed success: the container decodes, a Song.ini
/// entry exists whose bytes are UTF-8 and well-formed INI, and every
/// numbered effect section decodes.
pub open spec fn parse_success(bytes: Seq<u8>) -> bool {
    match spec_parse(bytes) {
        ParseV::Done(hv, es, de) => first_song_ini(es) matches Some(e) && vstd::utf8::valid_utf8(
            e.file_bin,
        ) && (crate::ini_doc::ini_doc_of(vstd::utf8::decode_utf8(e.file_bin)) matches Some(d)
            && crate::kfn_ini::eff_sections_ok(d)),
        _ => false,
    }
}

/// Which error a failed parse yields, given the input alone.
pub open spec fn parse_error_for(bytes: Seq<u8>, e: KfnParseError) -> bool {
    match spec_parse(bytes) {
        ParseV::BadSig(sg) => e matches KfnParseError::InvalidHeaderSignature(m) && m@ == sg,
        ParseV::BadUtf8 => e == KfnParseError::Utf8ConversionError,
        ParseV::Short => e == KfnParseError::TruncatedFile,
        ParseV::Done(hv, es, de) => match first_song_ini(es) {
            None => e == KfnParseError::MissingSongIni,
            Some(en) => if !vstd::utf8::valid_utf8(en.file_bin) {
                e == KfnParseError::Utf8ConversionError
            } else {
                match crate::ini_doc::ini_doc_of(vstd::utf8::decode_utf8(en.file_bin)) {
                    None => e == KfnParseError::IniFormat,
                    Some(d) => e is GrammarError && !crate::kfn_ini::eff_sections_ok(d),
                }
            },
        },
    }
}

pub open spec fn parse_ok(k0: Kfn, k1: Kfn) -> bool {
    let pr = spec_parse(k0.file_data@);
    &&& pr matches ParseV::Done(hv, es, de) && k1.header@ == hv && entries_view(k1.data.entries@)
        == es && k1.data.offset_dir_end == de && k1.read_head == de && (first_song_ini(es)
        matches Some(e) && vstd::utf8::valid_utf8(e.file_bin) && crate::ini_doc::ini_doc_of(
        vstd::utf8::decode_utf8(e.file_bin),
    ) == Some(crate::ini_doc::doc_raw(k1.data.song.ini)))
    &&& crate::kfn_ini::eff_sections_ok(crate::ini_doc::doc_raw(k1.data.song.ini))
    &&& crate::kfn_ini::effect_count_of(crate::ini_doc::doc_raw(k1.data.song.ini)) matches Some(c)
        && k1.data.song.effs@.len() == c && (forall|n: int|
        0 <= n < c ==> match crate::ini_doc::sec_lookup(
            crate::ini_doc::doc_raw(k1.data.song.ini),
            #[trigger] crate::kfn_ini::eff_sec_name(n + 1),
        ) {
            Some(pairs) => crate::kfn_ini::eff_rel(pairs, k1.data.song.effs@[n]),
            None => false,
        })
}

/// Deriving the background timeline is a pure function of the effect
/// layers as well.
pub proof fn lemma_derive_bg_deterministic(
    effs: Seq<crate::kfn_ini::eff::Eff>,
    r1: Seq<(int, crate::kfn_ini::eff::AnimEntry)>,
    r2: Seq<(int, crate::kfn_ini::eff::AnimEntry)>,
)
    requires
        r1 == sort_by_time(bg_events_v(effs)),
        r2 == sort_by_time(bg_events_v(effs)),
    ensures
        r1 == r2,
{
}


/// The position of the first entry carrying the given name.
fn find_first_named(entries: &Vec<Entry>, name: &str) -> (r: Option<usize>)
    ensures
        r matches Some(i) ==> i < entries.len() && entries@[i as int].filename@ == name@ && (forall|
            k: int,
        | 0 <= k < i ==> (#[trigger] entries@[k]).filename@ != name@),
        r is None ==> forall|k: int|
            0 <= k < entries@.len() ==> (#[trigger] entries@[k]).filename@ != name@,
{
    let mut i: usize = 0;
    while i < entries.len()
        invariant
            i <= entries.len(),
            forall|k: int| 0 <= k < i ==> (#[trigger] entries@[k]).filename@ != name@,
        decreases entries.len() - i,
    {
        if crate::strutil::str_eq(entries[i].filename.as_str(), name) {
            return Some(i);
        }
        i = i + 1;
    }
    None
}

/// Struct representing a .kfn file and its components, like the header and
/// data.
#[derive(Debug, Clone, PartialEq)]
pub struct Kfn {
    /// The binary data in a vector of bytes.
    pub file_data: Vec<u8>,
    /// The read head, used in calculating the offset from the directory end.
    pub read_head: usize,
    /// The header data of the file.
    pub header: KfnHeader,
    /// The data container for the file.
    pub data: KfnData,
}

impl Kfn {
    /// Constructor for creating a new Kfn struct.
    pub fn new() -> (r: Self)
        ensures
            r.file_data@ == Seq::<u8>::empty(),
            r.read_head == 0,
            r.header@ == empty_header(),
            r.data.entries@ == Seq::<Entry>::empty(),
            r.data.offset_dir_end == 0,
    {
        let r = Kfn {
            file_data: Vec::new(),
            read_head: 0,
            header: KfnHeader::default(),
            data: KfnData::new(),
        };
        proof {
            assert(r.file_data@ =~= Seq::<u8>::empty());
        }
        r
    }

    /// Constructor for creating a Kfn struct from a buffer already read
    /// into memory.
    pub fn from_bytes(file_data: Vec<u8>) -> (r: Self)
        ensures
            r.file_data == file_data,
            r.read_head == 0,
            r.header@ == empty_header(),
            r.data.entries@ == Seq::<Entry>::empty(),
            r.data.offset_dir_end == 0,
    {
        let mut r = Kfn::new();
        r.file_data = file_data;
        r
    }

    /// Method for parsing the file itself: decodes the container, then
    /// loads the embedded Song.ini and its effect sections. It succeeds
    /// exactly when the container decodes, a Song.ini entry is present and
    /// holds well-formed INI text, and every effect section decodes; on any
    /// failure nothing changes, and which error comes is a function of the
    /// buffer alone.
    #[verifier::rlimit(100)]
    #[verifier::spinoff_prover]
    pub fn parse(&mut self) -> (r: Result<bool, KfnParseError>)
        ensures
            final (self).file_data == old(self).file_data,
            r is Ok <==> parse_success(old(self).file_data@),
            r matches Ok(b) ==> b == true && parse_ok(*old(self), *final (self)),
            r matches Err(e) ==> parse_error_for(old(self).file_data@, e),
            r is Err ==> *final (self) == *old(self),
    {
        let (h, entries, de) = match decode_container(&self.file_data) {
            Ok(t) => t,
            Err(e) => {
                return Err(e);
            },
        };
        let ghost es = entries_view(entries@);
        proof {
            assert forall|i: int| 0 <= i < es.len() implies #[trigger] es[i] == entries@[i]@ by {}
        }
        let si = match find_first_named(&entries, "Song.ini") {
            Some(i) => i,
            None => {
                proof {
                    lemma_first_song_ini_skip(es, es.len() as int);
                    assert(es.skip(es.len() as int).len() == 0);
                }
                return Err(KfnParseError::MissingSongIni);
            },
        };
        proof {
            lemma_first_song_ini_skip(es, si as int);
            assert(es.skip(si as int).first() == es[si as int]);
            assert(first_song_ini(es) == Some(es[si as int]));
        }
        let text = match crate::kfn_data::bytes_to_string(&entries[si].file_bin) {
            Some(t) => t,
            None => {
                return Err(KfnParseError::Utf8ConversionError);
            },
        };
        let doc = match crate::ini_doc::parse_ini_text(text.as_str()) {
            Some(d) => d,
            None => {
                return Err(KfnParseError::IniFormat);
            },
        };
        let mut song = crate::kfn_ini::KfnIni::new();
        song.ini = doc;
        match song.load_eff() {
            Ok(_) => {},
            Err(e) => {
                return Err(e);
            },
        }
        self.header = h;
        self.data.entries = entries;
        self.data.offset_dir_end = de;
        self.read_head = de;
        self.data.song = song;
        proof {
            assert(parse_ok(*old(self), *self));
        }
        Ok(true)
    }

    /// Exporting to the binary container form: the canonical header, then
    /// the repacked data block.
    pub fn export(&mut self) -> (r: Vec<u8>)
        requires
            header_ok(old(self).header@),
            crate::kfn_data::entries_ok(entries_view(old(self).data.entries@)),
            crate::kfn_data::pack_ok(entries_view(old(self).data.entries@)),
            old(self).data.entries@.len() <= u32::MAX,
        ensures
            r@ == header_bytes(old(self).header@) + crate::kfn_data::data_bytes(
                crate::kfn_data::pack(entries_view(old(self).data.entries@)),
            ),
            final (self).header == old(self).header,
            entries_view(final (self).data.entries@) == crate::kfn_data::pack(
                entries_view(old(self).data.entries@),
            ),
    {
        let mut data = self.header.to_binary();
        let mut body = self.data.to_binary();
        data.append(&mut body);
        data
    }

    /// Takes the source filename and sets it as the song to play during
    /// playback: the header's source field changes, the `General` section
    /// is repopulated from the header (so `Source` carries the marked
    /// value), and the materials list and Song.ini entry are rewritten.
    pub fn set_source(&mut self, target: &str)
        ensures
            final (self).header@ == (crate::kfn_header::HeaderV {
                source_file: target@,
                ..old(self).header@
            }),
            final (self).file_data == old(self).file_data,
            final (self).read_head == old(self).read_head,
            ({
                let h1 = crate::kfn_header::HeaderV { source_file: target@, ..old(self).header@ };
                let d1 = crate::ini_doc::spec_set(
                    crate::ini_doc::doc_raw(old(self).data.song.ini),
                    "General"@,
                    "Source"@,
                    "1,I,"@ + target@,
                );
                let d2 = crate::kfn_ini::apply_sets(
                    d1,
                    "General"@,
                    crate::kfn_ini::header_general_kvs(h1),
                );
                updated_ini_post(old(self).data, final (self).data, d2)
            }),
    {
        self.header.source_file = crate::strutil::str_to_string(target);
        self.data.song.set_source(target);
        self.update();
    }

    /// Update the ini file from header: repopulates `General` from the
    /// header's fields, rewrites the materials list over the kept entries,
    /// and appends a fresh Song.ini entry rendering the document.
    pub fn update(&mut self)
        ensures
            final (self).header == old(self).header,
            final (self).file_data == old(self).file_data,
            final (self).read_head == old(self).read_head,
            updated_ini_post(
                old(self).data,
                final (self).data,
                crate::kfn_ini::apply_sets(
                    crate::ini_doc::doc_raw(old(self).data.song.ini),
                    "General"@,
                    crate::kfn_ini::header_general_kvs(old(self).header@),
                ),
            ),
    {
        self.data.song.populate_from_header(&self.header);
        self.data.update_ini();
    }

    /// Get texts with syncs in: one event per lyric line of every
    /// foreground layer, timestamped at the line's first sync, the whole
    /// timeline ordered by ascending timestamp (stably, so lines of equal
    /// time keep layer then line order).
    pub fn get_texts_and_syncs(&self) -> (r: Vec<crate::helpers::event::Event>)
        requires
            forall|i: int, j: int|
                0 <= i < self.data.song.effs@.len() && (#[trigger] self.data.song.effs@[i]).id
                    != 51 && 0 <= j < self.data.song.effs@[i].texts@.len() ==> (
                #[trigger] self.data.song.effs@[i].texts@[j]).fragments@.len() > 0,
        ensures
            text_events_match(r@, sort_by_time(text_events_v(self.data.song.effs@))),
            forall|k1: int, k2: int|
                0 <= k1 < k2 < r@.len() ==> (#[trigger] r@[k1]).time <= (#[trigger] r@[k2]).time,
    {
        let mut events: Vec<crate::helpers::event::Event> = Vec::new();
        let mut i: usize = 0;
        while i < self.data.song.effs.len()
            invariant
                i <= self.data.song.effs@.len(),
                forall|i2: int, j: int|
                    0 <= i2 < self.data.song.effs@.len() && (#[trigger] self.data.song.effs@[i2]).id
                        != 51 && 0 <= j < self.data.song.effs@[i2].texts@.len() ==> (
                    #[trigger] self.data.song.effs@[i2].texts@[j]).fragments@.len() > 0,
                text_events_match(
                    events@,
                    sort_by_time(text_events_v(self.data.song.effs@.take(i as int))),
                ),
            decreases self.data.song.effs@.len() - i,
        {
            let ghost effs = self.data.song.effs@;
            proof {
                assert(effs.take(i + 1 as int).drop_last() =~= effs.take(i as int));
                assert(effs.take(i + 1 as int).last() == effs[i as int]);
            }
            let eff = &self.data.song.effs[i];
            if eff.id == 51 {
                i = i + 1;
                proof {
                    assert(text_events_v(effs.take(i as int)) =~= text_events_v(
                        effs.take(i - 1 as int),
                    ) + Seq::<(int, crate::kfn_ini::eff::TextEntryV)>::empty());
                }
                continue ;
            }
            let mut j: usize = 0;
            while j < eff.texts.len()
                invariant
                    j <= eff.texts@.len(),
                    i < self.data.song.effs@.len(),
                    eff == &self.data.song.effs[i as int],
                    eff.id != 51,
                    forall|j2: int|
                        0 <= j2 < eff.texts@.len() ==> (#[trigger] eff.texts@[j2]).fragments@.len()
                            > 0,
                    text_events_match(
                        events@,
                        sort_by_time(
                            text_events_v(self.data.song.effs@.take(i as int)) + Seq::new(
                                j as nat,
                                |j2: int|
                                    (
                                        eff.texts@[j2].fragments@[0].0 as int,
                                        crate::kfn_ini::eff::text_entry_view(eff.texts@[j2]),
                                    ),
                            ),
                        ),
                    ),
                decreases eff.texts@.len() - j,
            {
                let ghost rawpref = text_events_v(self.data.song.effs@.take(i as int)) + Seq::new(
                    j as nat,
                    |j2: int|
                        (
                            eff.texts@[j2].fragments@[0].0 as int,
                            crate::kfn_ini::eff::text_entry_view(eff.texts@[j2]),
                        ),
                );
                let ghost p = (
                    eff.texts@[j as int].fragments@[0].0 as int,
                    crate::kfn_ini::eff::text_entry_view(eff.texts@[j as int]),
                );
                let t = clone_text_entry(&eff.texts[j]);
                let time = t.fragments[0].0;
                let e = crate::helpers::event::Event {
                    event_type: crate::helpers::event::EventType::Text(t),
                    time,
                };
                let ghost ge = e;
                let ghost r0 = events@;
                let ghost s0 = sort_by_time(rawpref);
                let q = insert_event_sorted(&mut events, e);
                proof {
                    assert(rawpref.push(p) =~= text_events_v(
                        self.data.song.effs@.take(i as int),
                    ) + Seq::new(
                        (j + 1) as nat,
                        |j2: int|
                            (
                                eff.texts@[j2].fragments@[0].0 as int,
                                crate::kfn_ini::eff::text_entry_view(eff.texts@[j2]),
                            ),
                    ));
                    assert(rawpref.push(p).drop_last() =~= rawpref);
                    assert(sort_by_time(rawpref.push(p)) == insert_by_time(p, s0));
                    lemma_text_match_insert(r0, s0, ge, p, q as int);
                }
                j = j + 1;
            }
            i = i + 1;
            proof {
                let prev = text_events_v(effs.take(i - 1 as int));
                assert(text_events_v(effs.take(i as int)) == prev + Seq::new(
                    effs[i - 1 as int].texts@.len(),
                    |j2: int|
                        (
                            effs[i - 1 as int].texts@[j2].fragments@[0].0 as int,
                            crate::kfn_ini::eff::text_entry_view(effs[i - 1 as int].texts@[j2]),
                        ),
                ));
            }
        }
        proof {
            assert(self.data.song.effs@.take(self.data.song.effs@.len() as int)
                =~= self.data.song.effs@);
            lemma_sort_by_time_sorted(text_events_v(self.data.song.effs@));
            let ev = sort_by_time(text_events_v(self.data.song.effs@));
            assert forall|k1: int, k2: int|
                0 <= k1 < k2 < events@.len() implies (#[trigger] events@[k1]).time <= (
            #[trigger] events@[k2]).time by {
                assert(events@[k1].time as int == ev[k1].0);
                assert(events@[k2].time as int == ev[k2].0);
            }
        }
        events
    }

    /// The background events: one per animation entry of the background
    /// layer (id 51), at its row's timestamp, the whole timeline ordered by
    /// ascending timestamp (stably, so entries of equal time keep row then
    /// entry order).
    pub fn get_bg_events(&self) -> (r: Vec<crate::helpers::event::Event>)
        ensures
            bg_events_match(r@, sort_by_time(bg_events_v(self.data.song.effs@))),
            forall|k1: int, k2: int|
                0 <= k1 < k2 < r@.len() ==> (#[trigger] r@[k1]).time <= (#[trigger] r@[k2]).time,
    {
        let mut events: Vec<crate::helpers::event::Event> = Vec::new();
        let mut bg: Option<usize> = None;
        let mut i: usize = 0;
        while i < self.data.song.effs.len()
            invariant
                i <= self.data.song.effs@.len(),
                match bg {
                    Some(b) => b < i && self.data.song.effs@[b as int].id == 51 && (forall|k: int|
                        0 <= k < b ==> (#[trigger] self.data.song.effs@[k]).id != 51) && bg_events_v(
                        self.data.song.effs@,
                    ) == anims_flat(self.data.song.effs@[b as int].anims@),
                    None => forall|k: int|
                        0 <= k < i ==> (#[trigger] self.data.song.effs@[k]).id != 51,
                },
            decreases self.data.song.effs@.len() - i,
        {
            if bg.is_none() && self.data.song.effs[i].id == 51 {
                bg = Some(i);
                proof {
                    lemma_bg_events_at(self.data.song.effs@, i as int);
                }
            }
            i = i + 1;
        }
        let b = match bg {
            Some(b) => b,
            None => {
                proof {
                    lemma_bg_events_none(self.data.song.effs@);
                }
                return events;
            },
        };
        let eff = &self.data.song.effs[b];
        let ghost ganims = eff.anims@;
        let mut a: usize = 0;
        while a < eff.anims.len()
            invariant
                a <= ganims.len(),
                b < self.data.song.effs@.len(),
                eff == &self.data.song.effs[b as int],
                ganims == eff.anims@,
                bg_events_v(self.data.song.effs@) == anims_flat(ganims),
                bg_events_match(events@, sort_by_time(anims_flat(ganims.take(a as int)))),
            decreases ganims.len() - a,
        {
            proof {
                assert(ganims.take(a + 1 as int).drop_last() =~= ganims.take(a as int));
                assert(ganims.take(a + 1 as int).last() == ganims[a as int]);
            }
            let anim = &eff.anims[a];
            let time = anim.time;
            let mut k: usize = 0;
            while k < anim.anim_entries.len()
                invariant
                    k <= anim.anim_entries@.len(),
                    a < ganims.len(),
                    anim.anim_entries@ == ganims[a as int].anim_entries@,
                    time == ganims[a as int].time,
                    bg_events_match(
                        events@,
                        sort_by_time(
                            anims_flat(ganims.take(a as int)) + Seq::new(
                                k as nat,
                                |k2: int|
                                    (
                                        ganims[a as int].time as int,
                                        ganims[a as int].anim_entries@[k2],
                                    ),
                            ),
                        ),
                    ),
                decreases anim.anim_entries@.len() - k,
            {
                let ghost rawpref = anims_flat(ganims.take(a as int)) + Seq::new(
                    k as nat,
                    |k2: int| (ganims[a as int].time as int, ganims[a as int].anim_entries@[k2]),
                );
                let ghost p = (
                    ganims[a as int].time as int,
                    ganims[a as int].anim_entries@[k as int],
                );
                let ae = clone_anim_entry(&anim.anim_entries[k]);
                let e = crate::helpers::event::Event {
                    event_type: crate::helpers::event::EventType::Background(ae),
                    time,
                };
                let ghost ge = e;
                let ghost r0 = events@;
                let ghost s0 = sort_by_time(rawpref);
                let q = insert_event_sorted(&mut events, e);
                proof {
                    assert(rawpref.push(p) =~= anims_flat(ganims.take(a as int)) + Seq::new(
                        (k + 1) as nat,
                        |k2: int|
                            (
                                ganims[a as int].time as int,
                                ganims[a as int].anim_entries@[k2],
                            ),
                    ));
                    assert(rawpref.push(p).drop_last() =~= rawpref);
                    assert(sort_by_time(rawpref.push(p)) == insert_by_time(p, s0));
                    lemma_bg_match_insert(r0, s0, ge, p, q as int);
                }
                k = k + 1;
            }
            a = a + 1;
            proof {
                let ev_new = anims_flat(ganims.take(a as int));
                assert(ev_new == anims_flat(ganims.take(a - 1 as int)) + Seq::new(
                    ganims[a - 1 as int].anim_entries@.len(),
                    |k2: int|
                        (ganims[a - 1 as int].time as int, ganims[a - 1 as int].anim_entries@[k2]),
                ));
            }
        }
        proof {
            assert(ganims.take(ganims.len() as int) =~= ganims);
            lemma_sort_by_time_sorted(bg_events_v(self.data.song.effs@));
            let ev = sort_by_time(bg_events_v(self.data.song.effs@));
            assert forall|k1: int, k2: int|
                0 <= k1 < k2 < events@.len() implies (#[trigger] events@[k1]).time <= (
            #[trigger] events@[k2]).time by {
                assert(events@[k1].time as int == ev[k1].0);
                assert(events@[k2].time as int == ev[k2].0);
            }
        }
        events
    }
}

/// A foreground prefix leaves the background events of the rest.
proof fn lemma_bg_events_at(effs: Seq<crate::kfn_ini::eff::Eff>, b: int)
    requires
        0 <= b < effs.len(),
        effs[b].id == 51,
        forall|k: int| 0 <= k < b ==> (#[trigger] effs[k]).id != 51,
    ensures
        bg_events_v(effs) == anims_flat(effs[b].anims@),
    decreases b,
{
    if b > 0 {
        lemma_bg_events_at(effs.drop_first(), b - 1);
        assert(forall|k: int|
            0 <= k < b - 1 ==> (#[trigger] effs.drop_first()[k]).id == effs[k + 1].id);
    }
}

/// Without a background layer there are no background events.
proof fn lemma_bg_events_none(effs: Seq<crate::kfn_ini::eff::Eff>)
    requires
        forall|k: int| 0 <= k < effs.len() ==> (#[trigger] effs[k]).id != 51,
    ensures
        bg_events_v(effs) == Seq::<(int, crate::kfn_ini::eff::AnimEntry)>::empty(),
    decreases effs.len(),
{
    if effs.len() > 0 {
        lemma_bg_events_none(effs.drop_first());
        assert(forall|k: int|
            0 <= k < effs.drop_first().len() ==> (#[trigger] effs.drop_first()[k]).id == effs[k
                + 1].id);
    }
}

/// A content copy of a lyric line.
fn clone_text_entry(t: &crate::kfn_ini::eff::TextEntry) -> (r: crate::kfn_ini::eff::TextEntry)
    ensures
        crate::kfn_ini::eff::text_entry_view(r) == crate::kfn_ini::eff::text_entry_view(*t),
        r.fragments@.len() == t.fragments@.len(),
        forall|k: int|
            0 <= k < t.fragments@.len() ==> (#[trigger] r.fragments@[k]).0 == t.fragments@[k].0,
{
    let display = crate::strutil::str_to_string(t.display.as_str());
    let mut fragments: Vec<(usize, String)> = Vec::new();
    let mut k: usize = 0;
    while k < t.fragments.len()
        invariant
            k <= t.fragments@.len(),
            fragments@.len() == k,
            forall|m: int|
                0 <= m < k ==> (#[trigger] fragments@[m]).0 == t.fragments@[m].0
                    && fragments@[m].1@ == t.fragments@[m].1@,
        decreases t.fragments@.len() - k,
    {
        let stamp = t.fragments[k].0;
        let frag = crate::strutil::str_to_string(t.fragments[k].1.as_str());
        fragments.push((stamp, frag));
        k = k + 1;
    }
    let r = crate::kfn_ini::eff::TextEntry { display, fragments };
    proof {
        assert(crate::kfn_ini::eff::text_entry_view(r).fragments
            =~= crate::kfn_ini::eff::text_entry_view(*t).fragments);
    }
    r
}

/// A content copy of an animation entry.
fn clone_anim_entry(a: &crate::kfn_ini::eff::AnimEntry) -> (r: crate::kfn_ini::eff::AnimEntry)
    ensures
        anim_entry_eqv(r, *a),
{
    let action = match &a.action {
        crate::kfn_ini::eff::Action::NoAction => crate::kfn_ini::eff::Action::NoAction,
        crate::kfn_ini::eff::Action::ChgBgImg(s) => crate::kfn_ini::eff::Action::ChgBgImg(
            crate::strutil::str_to_string(s.as_str()),
        ),
        crate::kfn_ini::eff::Action::ChgColColor(s) => crate::kfn_ini::eff::Action::ChgColColor(
            crate::strutil::str_to_string(s.as_str()),
        ),
        crate::kfn_ini::eff::Action::ChgColImageColor(s) => crate::kfn_ini::eff::Action::ChgColImageColor(
            crate::strutil::str_to_string(s.as_str()),
        ),
        crate::kfn_ini::eff::Action::ChgAlphaBlending(s) => crate::kfn_ini::eff::Action::ChgAlphaBlending(
            crate::strutil::str_to_string(s.as_str()),
        ),
        crate::kfn_ini::eff::Action::ChgFloatOffsetX(d) => crate::kfn_ini::eff::Action::ChgFloatOffsetX(
            *d,
        ),
        crate::kfn_ini::eff::Action::ChgFloatOffsetY(d) => crate::kfn_ini::eff::Action::ChgFloatOffsetY(
            *d,
        ),
        crate::kfn_ini::eff::Action::ChgFloatDepth(d) => crate::kfn_ini::eff::Action::ChgFloatDepth(
            *d,
        ),
        crate::kfn_ini::eff::Action::ChgTrajectory(t) => crate::kfn_ini::eff::Action::ChgTrajectory(
            *t,
        ),
    };
    crate::kfn_ini::eff::AnimEntry {
        action,
        effect: a.effect,
        trans_time: a.trans_time,
        trans_type: a.trans_type,
    }
}

/// What an ini rewrite leaves behind, starting from the document `d`:
/// the last Song.ini entry (if any) left the directory, the `Materials`
/// list was rewritten over the kept entries, and a fresh Song.ini entry
/// rendering the final document sits at the end.
pub open spec fn updated_ini_post(old_data: KfnData, new_data: KfnData, d: crate::kfn_ini::DocRaw) -> bool {
    let kept = new_data.entries@.take(new_data.entries@.len() - 1);
    let added = new_data.entries@.last();
    &&& new_data.entries@.len() >= 1
    &&& crate::kfn_data::removed_named_rel(old_data.entries@, kept, "Song.ini"@)
    &&& added.filename@ == "Song.ini"@
    &&& added.file_type == FileType::SongIni
    &&& added.file_bin@ == vstd::utf8::encode_utf8(
        crate::ini_doc::ini_text_of(crate::ini_doc::doc_raw(new_data.song.ini)),
    )
    &&& added.len1 == added.file_bin@.len()
    &&& added.len2 == added.file_bin@.len()
    &&& added.flags == 0
    &&& added.offset == 0
    &&& crate::ini_doc::doc_raw(new_data.song.ini) == crate::kfn_ini::apply_sets(
        d,
        "Materials"@,
        crate::kfn_ini::mat_kvs(entries_view(kept)),
    )
    &&& new_data.song.effs == old_data.song.effs
    &&& new_data.path_song_ini == old_data.path_song_ini
    &&& new_data.offset_dir_end == old_data.offset_dir_end
}

impl Kfn {
    /// Add file: appends the named bytes as a fresh entry and rewrites the
    /// embedded ini; unless the name is `Song.ini` itself, the new entry
    /// survives the rewrite with its content and extension-derived type.
    pub fn add_file(&mut self, source: &str, content: Vec<u8>)
        requires
            old(self).data.entries@.len() > 0 ==> old(self).data.entries@.last().offset + old(
                self,
            ).data.entries@.last().len1 <= usize::MAX,
        ensures
            final (self).header == old(self).header,
            final (self).file_data == old(self).file_data,
            final (self).data.song.effs == old(self).data.song.effs,
            final (self).data.entries@.len() >= 1,
            final (self).data.entries@.last().filename@ == "Song.ini"@,
            source@ != "Song.ini"@ ==> (exists|i: int|
                0 <= i < final (self).data.entries@.len() - 1 && (#[trigger] final (
                self).data.entries@[i]).filename@ == source@ && final (
                self).data.entries@[i].file_bin@ == content@ && final (
                self).data.entries@[i].file_type == crate::kfn_data::ext_file_type(source@)
                && final (self).data.entries@[i].len1 == content@.len()),
    {
        let ghost content_v = content@;
        self.data.add_entry_from_file(source, content);
        let ghost st1 = self.data.entries@;
        self.update();
        proof {
            let kept = self.data.entries@.take(self.data.entries@.len() - 1);
            if source@ != "Song.ini"@ {
                if forall|k: int|
                    0 <= k < st1.len() ==> (#[trigger] st1[k]).filename@ != "Song.ini"@ {
                    assert(kept == st1);
                    assert(kept[st1.len() - 1].filename@ == source@);
                } else {
                    let id = choose|id: int|
                        0 <= id < st1.len() && (#[trigger] st1[id]).filename@ == "Song.ini"@ && (
                        forall|k: int|
                            id < k < st1.len() ==> (#[trigger] st1[k]).filename@ != "Song.ini"@)
                            && crate::kfn_data::removed_at_rel(st1, kept, id);
                    assert(st1[st1.len() - 1].filename@ == source@);
                    assert(id < st1.len() - 1);
                    assert(kept[kept.len() - 1].filename == st1[st1.len() - 1].filename);
                    assert(kept[kept.len() - 1].file_bin == st1[st1.len() - 1].file_bin);
                }
            }
        }
    }

    /// Remove file: drops the last entry carrying the name and rewrites
    /// the embedded ini (which in turn drops and re-appends Song.ini).
    pub fn remove_file(&mut self, target: &str)
        ensures
            final (self).header == old(self).header,
            final (self).file_data == old(self).file_data,
            final (self).data.song.effs == old(self).data.song.effs,
            ({
                let kept = final (self).data.entries@.take(final (self).data.entries@.len() - 1);
                exists|mid: Seq<Entry>|
                    #[trigger] crate::kfn_data::removed_named_rel(
                        old(self).data.entries@,
                        mid,
                        target@,
                    ) && crate::kfn_data::removed_named_rel(mid, kept, "Song.ini"@)
            }),
            updated_ini_post_some(final (self).data),
    {
        self.data.remove_entry_by_name(target);
        let ghost mid = self.data.entries@;
        self.update();
        proof {
            assert(crate::kfn_data::removed_named_rel(old(self).data.entries@, mid, target@));
        }
    }
}

/// The shape of a directory after an ini rewrite: a fresh Song.ini entry
/// rendering the current document sits at the end.
pub open spec fn updated_ini_post_some(new_data: KfnData) -> bool {
    let added = new_data.entries@.last();
    &&& new_data.entries@.len() >= 1
    &&& added.filename@ == "Song.ini"@
    &&& added.file_type == FileType::SongIni
    &&& added.file_bin@ == vstd::utf8::encode_utf8(
        crate::ini_doc::ini_text_of(crate::ini_doc::doc_raw(new_data.song.ini)),
    )
}

} // verus!
