//! The encode/decode round trip of the container: re-encoding decoded
//! content and decoding it again gives back the same header fields and
//! entries, with the offsets repacked and the payload bytes identical.
//! The proof walks the decoder over the encoder's output one record at a
//! time.

use vstd::prelude::*;

use crate::helpers::{u32le, EntryV};
use crate::kfn_data::{
    data_bytes, dir_bytes, entries_ok, entry_ok, entry_record, pack, pack_ok, payload_bytes,
    prefix_len1,
};
use crate::kfn_header::{
    empty_header, endh_bytes, header_bytes, header_ok, magic_bytes, rec_num, rec_str, HeaderV,
};
use crate::{
    apply_num, apply_str, le32_at, spec_parse, spec_parse_dir, spec_parse_entries,
    spec_parse_records, str_or_unknown, ParseV,
};
use vstd::utf8::{
    decode_utf8, encode_utf8, encode_utf8_decode_utf8, encode_utf8_valid_utf8, is_ascii_chars,
    is_ascii_chars_encode_utf8, valid_utf8,
};

verus! {

/// One header record by content: a numeric or a string record under a
/// four-character ASCII tag.
pub enum RecV {
    Num(Seq<char>, u32),
    Str(Seq<char>, Seq<char>),
}

/// The record's tag name.
pub open spec fn rec_name(r: RecV) -> Seq<char> {
    match r {
        RecV::Num(n, _) => n,
        RecV::Str(n, _) => n,
    }
}

/// The record's byte form.
pub open spec fn rec_bytes(r: RecV) -> Seq<u8> {
    match r {
        RecV::Num(n, v) => rec_num(encode_utf8(n), v),
        RecV::Str(n, s) => rec_str(encode_utf8(n), s),
    }
}

/// A record the decoder walks over without stopping: a four-character
/// ASCII tag other than the closing one, and a string payload whose
/// length fits its prefix.
pub open spec fn rec_ok(r: RecV) -> bool {
    &&& rec_name(r).len() == 4
    &&& is_ascii_chars(rec_name(r))
    &&& rec_name(r) != "ENDH"@
    &&& (r matches RecV::Str(_, s) ==> encode_utf8(s).len() <= u32::MAX)
}

/// The bytes of a list of records, in order.
pub open spec fn recs_bytes(rs: Seq<RecV>) -> Seq<u8>
    decreases rs.len(),
{
    if rs.len() == 0 {
        Seq::<u8>::empty()
    } else {
        rec_bytes(rs.first()) + recs_bytes(rs.drop_first())
    }
}

/// One record applied to the header fields.
pub open spec fn apply_rec(h: HeaderV, r: RecV) -> HeaderV {
    match r {
        RecV::Num(n, v) => apply_num(h, n, v),
        RecV::Str(n, s) => apply_str(h, n, s),
    }
}

/// A list of records folded over the header fields, in order.
pub open spec fn fold_recs(h: HeaderV, rs: Seq<RecV>) -> HeaderV
    decreases rs.len(),
{
    if rs.len() == 0 {
        h
    } else {
        fold_recs(apply_rec(h, rs.first()), rs.drop_first())
    }
}

/// Four little-endian bytes in place read back as their value.
proof fn lemma_le32(bytes: Seq<u8>, p: int, v: u32)
    requires
        0 <= p,
        p + 4 <= bytes.len(),
        bytes[p] == u32le(v)[0],
        bytes[p + 1] == u32le(v)[1],
        bytes[p + 2] == u32le(v)[2],
        bytes[p + 3] == u32le(v)[3],
    ensures
        le32_at(bytes, p) == v,
{
    crate::helpers::lemma_u32le_roundtrip(v);
}

/// The decoder steps over one well-formed record, folding it into the
/// header fields.
#[verifier::rlimit(100)]
#[verifier::spinoff_prover]
proof fn lemma_parse_one_rec(bytes: Seq<u8>, pos: int, r: RecV, h: HeaderV)
    requires
        0 <= pos,
        pos + rec_bytes(r).len() <= bytes.len(),
        bytes.subrange(pos, pos + rec_bytes(r).len()) == rec_bytes(r),
        rec_ok(r),
    ensures
        spec_parse_records(bytes, pos, h) == spec_parse_records(
            bytes,
            pos + rec_bytes(r).len(),
            apply_rec(h, r),
        ),
{
    let n = rec_name(r);
    let rb = rec_bytes(r);
    is_ascii_chars_encode_utf8(n);
    assert(encode_utf8(n).len() == 4);
    encode_utf8_valid_utf8(n);
    encode_utf8_decode_utf8(n);
    assert forall|j: int| 0 <= j < rb.len() implies bytes[pos + j] == #[trigger] rb[j] by {
        assert(rb[j] == bytes.subrange(pos, pos + rec_bytes(r).len())[j]);
    }
    let tag = bytes.subrange(pos, pos + 4);
    assert forall|j: int| 0 <= j < 4 implies tag[j] == encode_utf8(n)[j] by {
        assert(bytes[pos + j] == rb[j]);
    }
    assert(tag =~= encode_utf8(n));
    assert(valid_utf8(tag) && decode_utf8(tag) == n);
    match r {
        RecV::Num(n2, v) => {
            assert(rb[4] == 1u8);
            assert(bytes[pos + 4] == 1u8);
            assert(rb[5] == u32le(v)[0] && rb[6] == u32le(v)[1] && rb[7] == u32le(v)[2] && rb[8]
                == u32le(v)[3]);
            lemma_le32(bytes, pos + 5, v);
        },
        RecV::Str(n2, s) => {
            let sb = encode_utf8(s);
            let blen = sb.len() as u32;
            assert(rb[4] == 2u8);
            assert(bytes[pos + 4] == 2u8);
            assert(rb[5] == u32le(blen)[0] && rb[6] == u32le(blen)[1] && rb[7] == u32le(blen)[2]
                && rb[8] == u32le(blen)[3]);
            lemma_le32(bytes, pos + 5, blen);
            let buf = bytes.subrange(pos + 9, pos + 9 + blen);
            assert forall|k: int| 0 <= k < sb.len() implies buf[k] == sb[k] by {
                assert(buf[k] == bytes[pos + 9 + k]);
                assert(bytes[pos + 9 + k] == rb[9 + k]);
                assert(rb[9 + k] == sb[k]);
            }
            assert(buf =~= sb);
            encode_utf8_valid_utf8(s);
            encode_utf8_decode_utf8(s);
            assert(str_or_unknown(buf) == s);
        },
    }
}

/// The decoder consumes a list of well-formed records, folding each into
/// the header fields and stopping at none of them.
#[verifier::rlimit(100)]
#[verifier::spinoff_prover]
proof fn lemma_parse_recs(bytes: Seq<u8>, pos: int, rs: Seq<RecV>, h: HeaderV)
    requires
        0 <= pos,
        pos + recs_bytes(rs).len() <= bytes.len(),
        bytes.subrange(pos, pos + recs_bytes(rs).len()) == recs_bytes(rs),
        forall|i: int| 0 <= i < rs.len() ==> rec_ok(#[trigger] rs[i]),
    ensures
        spec_parse_records(bytes, pos, h) == spec_parse_records(
            bytes,
            pos + recs_bytes(rs).len(),
            fold_recs(h, rs),
        ),
    decreases rs.len(),
{
    if rs.len() > 0 {
        let r = rs.first();
        let region = recs_bytes(rs);
        let rb = rec_bytes(r);
        let rest = recs_bytes(rs.drop_first());
        assert(region == rb + rest);
        assert forall|j: int| 0 <= j < region.len() implies bytes[pos + j] == #[trigger] region[j] by {
            assert(region[j] == bytes.subrange(pos, pos + recs_bytes(rs).len())[j]);
        }
        let l1 = rb.len() as int;
        assert forall|j: int| 0 <= j < l1 implies bytes.subrange(pos, pos + l1)[j]
            == #[trigger] rb[j] by {
            assert(bytes.subrange(pos, pos + l1)[j] == bytes[pos + j]);
            assert(bytes[pos + j] == region[j]);
        }
        assert(bytes.subrange(pos, pos + l1) =~= rb);
        lemma_parse_one_rec(bytes, pos, r, h);
        assert forall|k: int| 0 <= k < rest.len() implies bytes.subrange(
            pos + l1,
            pos + l1 + rest.len(),
        )[k] == #[trigger] rest[k] by {
            assert(bytes.subrange(pos + l1, pos + l1 + rest.len())[k] == bytes[pos + l1 + k]);
            assert(bytes[pos + l1 + k] == region[l1 + k]);
        }
        assert(bytes.subrange(pos + l1, pos + l1 + rest.len()) =~= rest);
        assert(forall|i: int|
            0 <= i < rs.drop_first().len() ==> rec_ok(#[trigger] rs.drop_first()[i])) by {
            assert(forall|i: int|
                0 <= i < rs.drop_first().len() ==> rs.drop_first()[i] == rs[i + 1]);
        }
        lemma_parse_recs(bytes, pos + l1, rs.drop_first(), apply_rec(h, r));
    } else {
        assert(fold_recs(h, rs) == h);
    }
}

/// The closing record hands the decoder over to the directory.
proof fn lemma_parse_endh(bytes: Seq<u8>, pos: int, h: HeaderV)
    requires
        0 <= pos,
        pos + 9 <= bytes.len(),
        bytes.subrange(pos, pos + 9) == endh_bytes(),
    ensures
        spec_parse_records(bytes, pos, h) == spec_parse_dir(bytes, pos + 9, h),
{
    reveal_strlit("ENDH");
    assert(("ENDH"@).len() == 4);
    assert(is_ascii_chars("ENDH"@)) by {
        assert(("ENDH"@)[0] == 'E');
        assert(("ENDH"@)[1] == 'N');
        assert(("ENDH"@)[2] == 'D');
        assert(("ENDH"@)[3] == 'H');
    }
    is_ascii_chars_encode_utf8("ENDH"@);
    encode_utf8_valid_utf8("ENDH"@);
    encode_utf8_decode_utf8("ENDH"@);
    assert(forall|j: int| 0 <= j < 9 ==> bytes[pos + j] == #[trigger] endh_bytes()[j]) by {
        assert(forall|j: int|
            0 <= j < 9 ==> #[trigger] endh_bytes()[j] == bytes.subrange(pos, pos + 9)[j]);
    }
    let tag = bytes.subrange(pos, pos + 4);
    assert(tag =~= encode_utf8("ENDH"@)) by {
        assert(("ENDH"@)[0] == 'E');
        assert(("ENDH"@)[1] == 'N');
        assert(("ENDH"@)[2] == 'D');
        assert(("ENDH"@)[3] == 'H');
        assert(endh_bytes()[0] == 'E' as u8);
        assert(endh_bytes()[1] == 'N' as u8);
        assert(endh_bytes()[2] == 'D' as u8);
        assert(endh_bytes()[3] == 'H' as u8);
    }
    assert(valid_utf8(tag) && decode_utf8(tag) == "ENDH"@);
    assert(endh_bytes()[4] == 1u8);
    assert(bytes[pos + 4] == 1u8);
    reveal_strlit("DIFM");
    reveal_strlit("DIFW");
    reveal_strlit("GNRE");
    reveal_strlit("SFTV");
    reveal_strlit("MUSL");
    reveal_strlit("ANME");
    reveal_strlit("TYPE");
    reveal_strlit("RGHT");
    reveal_strlit("PROV");
    assert(("DIFM"@)[0] == 'D' && ("DIFW"@)[0] == 'D' && ("GNRE"@)[0] == 'G' && ("SFTV"@)[0] == 'S'
        && ("MUSL"@)[0] == 'M' && ("ANME"@)[0] == 'A' && ("TYPE"@)[0] == 'T' && ("RGHT"@)[0] == 'R'
        && ("PROV"@)[0] == 'P');
    assert(apply_num(h, "ENDH"@, le32_at(bytes, pos + 5)) == h);
}

/// The canonical header records, in write order.
pub open spec fn header_recs(h: HeaderV) -> Seq<RecV> {
    seq![
        RecV::Num("DIFM"@, h.diff_men),
        RecV::Num("DIFW"@, h.diff_women),
        RecV::Num("GNRE"@, h.genre),
        RecV::Num("SFTV"@, h.sftv),
        RecV::Num("MUSL"@, h.musl),
        RecV::Num("ANME"@, h.anme),
        RecV::Num("TYPE"@, h.kfn_type),
        RecV::Str("FLID"@, h.flid),
        RecV::Str("LANG"@, h.language),
        RecV::Str("TITL"@, h.title),
        RecV::Str("ARTS"@, h.artist),
        RecV::Str("ALBM"@, h.album),
        RecV::Str("COMP"@, h.composer),
        RecV::Str("COPY"@, h.copyright),
        RecV::Str("SORC"@, h.source_file),
        RecV::Str("YEAR"@, h.year),
        RecV::Str("TRAK"@, h.trak),
        RecV::Str("KFNZ"@, h.karafunizer),
        RecV::Num("RGHT"@, h.rght),
        RecV::Num("PROV"@, h.prov),
        RecV::Str("IDUS"@, h.idus),
    ]
}

/// Every canonical record is one the decoder walks over.
#[verifier::rlimit(100)]
#[verifier::spinoff_prover]
proof fn lemma_header_recs_ok(h: HeaderV)
    requires
        header_ok(h),
    ensures
        forall|i: int| 0 <= i < header_recs(h).len() ==> rec_ok(#[trigger] header_recs(h)[i]),
{
    reveal_strlit("DIFM");
    reveal_strlit("DIFW");
    reveal_strlit("GNRE");
    reveal_strlit("SFTV");
    reveal_strlit("MUSL");
    reveal_strlit("ANME");
    reveal_strlit("TYPE");
    reveal_strlit("FLID");
    reveal_strlit("LANG");
    reveal_strlit("TITL");
    reveal_strlit("ARTS");
    reveal_strlit("ALBM");
    reveal_strlit("COMP");
    reveal_strlit("COPY");
    reveal_strlit("SORC");
    reveal_strlit("YEAR");
    reveal_strlit("TRAK");
    reveal_strlit("KFNZ");
    reveal_strlit("RGHT");
    reveal_strlit("PROV");
    reveal_strlit("IDUS");
    reveal_strlit("ENDH");
    assert(("DIFM"@).len() == 4);
    assert(("DIFM"@)[0] == 'D' && ("DIFM"@)[1] == 'I' && ("DIFM"@)[2] == 'F' && ("DIFM"@)[3] == 'M');
    assert(is_ascii_chars("DIFM"@)) by {
        assert(forall|i: int| 0 <= i < ("DIFM"@).len() ==> '\0' <= #[trigger] ("DIFM"@)[i] <= '\u{7f}');
    }
    assert(("DIFM"@)[0] != ("ENDH"@)[0]);
    assert(("DIFW"@).len() == 4);
    assert(("DIFW"@)[0] == 'D' && ("DIFW"@)[1] == 'I' && ("DIFW"@)[2] == 'F' && ("DIFW"@)[3] == 'W');
    assert(is_ascii_chars("DIFW"@)) by {
        assert(forall|i: int| 0 <= i < ("DIFW"@).len() ==> '\0' <= #[trigger] ("DIFW"@)[i] <= '\u{7f}');
    }
    assert(("DIFW"@)[0] != ("ENDH"@)[0]);
    assert(("GNRE"@).len() == 4);
    assert(("GNRE"@)[0] == 'G' && ("GNRE"@)[1] == 'N' && ("GNRE"@)[2] == 'R' && ("GNRE"@)[3] == 'E');
    assert(is_ascii_chars("GNRE"@)) by {
        assert(forall|i: int| 0 <= i < ("GNRE"@).len() ==> '\0' <= #[trigger] ("GNRE"@)[i] <= '\u{7f}');
    }
    assert(("GNRE"@)[0] != ("ENDH"@)[0]);
    assert(("SFTV"@).len() == 4);
    assert(("SFTV"@)[0] == 'S' && ("SFTV"@)[1] == 'F' && ("SFTV"@)[2] == 'T' && ("SFTV"@)[3] == 'V');
    assert(is_ascii_chars("SFTV"@)) by {
        assert(forall|i: int| 0 <= i < ("SFTV"@).len() ==> '\0' <= #[trigger] ("SFTV"@)[i] <= '\u{7f}');
    }
    assert(("SFTV"@)[0] != ("ENDH"@)[0]);
    assert(("MUSL"@).len() == 4);
    assert(("MUSL"@)[0] == 'M' && ("MUSL"@)[1] == 'U' && ("MUSL"@)[2] == 'S' && ("MUSL"@)[3] == 'L');
    assert(is_ascii_chars("MUSL"@)) by {
        assert(forall|i: int| 0 <= i < ("MUSL"@).len() ==> '\0' <= #[trigger] ("MUSL"@)[i] <= '\u{7f}');
    }
    assert(("MUSL"@)[0] != ("ENDH"@)[0]);
    assert(("ANME"@).len() == 4);
    assert(("ANME"@)[0] == 'A' && ("ANME"@)[1] == 'N' && ("ANME"@)[2] == 'M' && ("ANME"@)[3] == 'E');
    assert(is_ascii_chars("ANME"@)) by {
        assert(forall|i: int| 0 <= i < ("ANME"@).len() ==> '\0' <= #[trigger] ("ANME"@)[i] <= '\u{7f}');
    }
    assert(("ANME"@)[0] != ("ENDH"@)[0]);
    assert(("TYPE"@).len() == 4);
    assert(("TYPE"@)[0] == 'T' && ("TYPE"@)[1] == 'Y' && ("TYPE"@)[2] == 'P' && ("TYPE"@)[3] == 'E');
    assert(is_ascii_chars("TYPE"@)) by {
        assert(forall|i: int| 0 <= i < ("TYPE"@).len() ==> '\0' <= #[trigger] ("TYPE"@)[i] <= '\u{7f}');
    }
    assert(("TYPE"@)[0] != ("ENDH"@)[0]);
    assert(("FLID"@).len() == 4);
    assert(("FLID"@)[0] == 'F' && ("FLID"@)[1] == 'L' && ("FLID"@)[2] == 'I' && ("FLID"@)[3] == 'D');
    assert(is_ascii_chars("FLID"@)) by {
        assert(forall|i: int| 0 <= i < ("FLID"@).len() ==> '\0' <= #[trigger] ("FLID"@)[i] <= '\u{7f}');
    }
    assert(("FLID"@)[0] != ("ENDH"@)[0]);
    assert(("LANG"@).len() == 4);
    assert(("LANG"@)[0] == 'L' && ("LANG"@)[1] == 'A' && ("LANG"@)[2] == 'N' && ("LANG"@)[3] == 'G');
    assert(is_ascii_chars("LANG"@)) by {
        assert(forall|i: int| 0 <= i < ("LANG"@).len() ==> '\0' <= #[trigger] ("LANG"@)[i] <= '\u{7f}');
    }
    assert(("LANG"@)[0] != ("ENDH"@)[0]);
    assert(("TITL"@).len() == 4);
    assert(("TITL"@)[0] == 'T' && ("TITL"@)[1] == 'I' && ("TITL"@)[2] == 'T' && ("TITL"@)[3] == 'L');
    assert(is_ascii_chars("TITL"@)) by {
        assert(forall|i: int| 0 <= i < ("TITL"@).len() ==> '\0' <= #[trigger] ("TITL"@)[i] <= '\u{7f}');
    }
    assert(("TITL"@)[0] != ("ENDH"@)[0]);
    assert(("ARTS"@).len() == 4);
    assert(("ARTS"@)[0] == 'A' && ("ARTS"@)[1] == 'R' && ("ARTS"@)[2] == 'T' && ("ARTS"@)[3] == 'S');
    assert(is_ascii_chars("ARTS"@)) by {
        assert(forall|i: int| 0 <= i < ("ARTS"@).len() ==> '\0' <= #[trigger] ("ARTS"@)[i] <= '\u{7f}');
    }
    assert(("ARTS"@)[0] != ("ENDH"@)[0]);
    assert(("ALBM"@).len() == 4);
    assert(("ALBM"@)[0] == 'A' && ("ALBM"@)[1] == 'L' && ("ALBM"@)[2] == 'B' && ("ALBM"@)[3] == 'M');
    assert(is_ascii_chars("ALBM"@)) by {
        assert(forall|i: int| 0 <= i < ("ALBM"@).len() ==> '\0' <= #[trigger] ("ALBM"@)[i] <= '\u{7f}');
    }
    assert(("ALBM"@)[0] != ("ENDH"@)[0]);
    assert(("COMP"@).len() == 4);
    assert(("COMP"@)[0] == 'C' && ("COMP"@)[1] == 'O' && ("COMP"@)[2] == 'M' && ("COMP"@)[3] == 'P');
    assert(is_ascii_chars("COMP"@)) by {
        assert(forall|i: int| 0 <= i < ("COMP"@).len() ==> '\0' <= #[trigger] ("COMP"@)[i] <= '\u{7f}');
    }
    assert(("COMP"@)[0] != ("ENDH"@)[0]);
    assert(("COPY"@).len() == 4);
    assert(("COPY"@)[0] == 'C' && ("COPY"@)[1] == 'O' && ("COPY"@)[2] == 'P' && ("COPY"@)[3] == 'Y');
    assert(is_ascii_chars("COPY"@)) by {
        assert(forall|i: int| 0 <= i < ("COPY"@).len() ==> '\0' <= #[trigger] ("COPY"@)[i] <= '\u{7f}');
    }
    assert(("COPY"@)[0] != ("ENDH"@)[0]);
    assert(("SORC"@).len() == 4);
    assert(("SORC"@)[0] == 'S' && ("SORC"@)[1] == 'O' && ("SORC"@)[2] == 'R' && ("SORC"@)[3] == 'C');
    assert(is_ascii_chars("SORC"@)) by {
        assert(forall|i: int| 0 <= i < ("SORC"@).len() ==> '\0' <= #[trigger] ("SORC"@)[i] <= '\u{7f}');
    }
    assert(("SORC"@)[0] != ("ENDH"@)[0]);
    assert(("YEAR"@).len() == 4);
    assert(("YEAR"@)[0] == 'Y' && ("YEAR"@)[1] == 'E' && ("YEAR"@)[2] == 'A' && ("YEAR"@)[3] == 'R');
    assert(is_ascii_chars("YEAR"@)) by {
        assert(forall|i: int| 0 <= i < ("YEAR"@).len() ==> '\0' <= #[trigger] ("YEAR"@)[i] <= '\u{7f}');
    }
    assert(("YEAR"@)[0] != ("ENDH"@)[0]);
    assert(("TRAK"@).len() == 4);
    assert(("TRAK"@)[0] == 'T' && ("TRAK"@)[1] == 'R' && ("TRAK"@)[2] == 'A' && ("TRAK"@)[3] == 'K');
    assert(is_ascii_chars("TRAK"@)) by {
        assert(forall|i: int| 0 <= i < ("TRAK"@).len() ==> '\0' <= #[trigger] ("TRAK"@)[i] <= '\u{7f}');
    }
    assert(("TRAK"@)[0] != ("ENDH"@)[0]);
    assert(("KFNZ"@).len() == 4);
    assert(("KFNZ"@)[0] == 'K' && ("KFNZ"@)[1] == 'F' && ("KFNZ"@)[2] == 'N' && ("KFNZ"@)[3] == 'Z');
    assert(is_ascii_chars("KFNZ"@)) by {
        assert(forall|i: int| 0 <= i < ("KFNZ"@).len() ==> '\0' <= #[trigger] ("KFNZ"@)[i] <= '\u{7f}');
    }
    assert(("KFNZ"@)[0] != ("ENDH"@)[0]);
    assert(("RGHT"@).len() == 4);
    assert(("RGHT"@)[0] == 'R' && ("RGHT"@)[1] == 'G' && ("RGHT"@)[2] == 'H' && ("RGHT"@)[3] == 'T');
    assert(is_ascii_chars("RGHT"@)) by {
        assert(forall|i: int| 0 <= i < ("RGHT"@).len() ==> '\0' <= #[trigger] ("RGHT"@)[i] <= '\u{7f}');
    }
    assert(("RGHT"@)[0] != ("ENDH"@)[0]);
    assert(("PROV"@).len() == 4);
    assert(("PROV"@)[0] == 'P' && ("PROV"@)[1] == 'R' && ("PROV"@)[2] == 'O' && ("PROV"@)[3] == 'V');
    assert(is_ascii_chars("PROV"@)) by {
        assert(forall|i: int| 0 <= i < ("PROV"@).len() ==> '\0' <= #[trigger] ("PROV"@)[i] <= '\u{7f}');
    }
    assert(("PROV"@)[0] != ("ENDH"@)[0]);
    assert(("IDUS"@).len() == 4);
    assert(("IDUS"@)[0] == 'I' && ("IDUS"@)[1] == 'D' && ("IDUS"@)[2] == 'U' && ("IDUS"@)[3] == 'S');
    assert(is_ascii_chars("IDUS"@)) by {
        assert(forall|i: int| 0 <= i < ("IDUS"@).len() ==> '\0' <= #[trigger] ("IDUS"@)[i] <= '\u{7f}');
    }
    assert(("IDUS"@)[0] != ("ENDH"@)[0]);
    assert forall|i: int| 0 <= i < header_recs(h).len() implies rec_ok(
        #[trigger] header_recs(h)[i],
    ) by {
        let names = header_recs(h);
    }
}

/// Folding the canonical records over an empty header restores every
/// field.
#[verifier::rlimit(100)]
#[verifier::spinoff_prover]
proof fn lemma_fold_header(h: HeaderV)
    ensures
        fold_recs(empty_header(), header_recs(h)) == h,
{
    reveal_strlit("DIFM");
    reveal_strlit("DIFW");
    reveal_strlit("GNRE");
    reveal_strlit("SFTV");
    reveal_strlit("MUSL");
    reveal_strlit("ANME");
    reveal_strlit("TYPE");
    reveal_strlit("FLID");
    reveal_strlit("LANG");
    reveal_strlit("TITL");
    reveal_strlit("ARTS");
    reveal_strlit("ALBM");
    reveal_strlit("COMP");
    reveal_strlit("COPY");
    reveal_strlit("SORC");
    reveal_strlit("YEAR");
    reveal_strlit("TRAK");
    reveal_strlit("KFNZ");
    reveal_strlit("RGHT");
    reveal_strlit("PROV");
    reveal_strlit("IDUS");
    reveal_strlit("ENDH");
    assert(("DIFW"@)[3] != ("DIFM"@)[3]);
    assert(("GNRE"@)[0] != ("DIFM"@)[0]);
    assert(("GNRE"@)[0] != ("DIFW"@)[0]);
    assert(("SFTV"@)[0] != ("DIFM"@)[0]);
    assert(("SFTV"@)[0] != ("DIFW"@)[0]);
    assert(("SFTV"@)[0] != ("GNRE"@)[0]);
    assert(("MUSL"@)[0] != ("DIFM"@)[0]);
    assert(("MUSL"@)[0] != ("DIFW"@)[0]);
    assert(("MUSL"@)[0] != ("GNRE"@)[0]);
    assert(("MUSL"@)[0] != ("SFTV"@)[0]);
    assert(("ANME"@)[0] != ("DIFM"@)[0]);
    assert(("ANME"@)[0] != ("DIFW"@)[0]);
    assert(("ANME"@)[0] != ("GNRE"@)[0]);
    assert(("ANME"@)[0] != ("SFTV"@)[0]);
    assert(("ANME"@)[0] != ("MUSL"@)[0]);
    assert(("TYPE"@)[0] != ("DIFM"@)[0]);
    assert(("TYPE"@)[0] != ("DIFW"@)[0]);
    assert(("TYPE"@)[0] != ("GNRE"@)[0]);
    assert(("TYPE"@)[0] != ("SFTV"@)[0]);
    assert(("TYPE"@)[0] != ("MUSL"@)[0]);
    assert(("TYPE"@)[0] != ("ANME"@)[0]);
    assert(("LANG"@)[0] != ("FLID"@)[0]);
    assert(("TITL"@)[0] != ("FLID"@)[0]);
    assert(("TITL"@)[0] != ("LANG"@)[0]);
    assert(("ARTS"@)[0] != ("FLID"@)[0]);
    assert(("ARTS"@)[0] != ("LANG"@)[0]);
    assert(("ARTS"@)[0] != ("TITL"@)[0]);
    assert(("ARTS"@)[1] != ("ALBM"@)[1]);
    assert(("ALBM"@)[0] != ("FLID"@)[0]);
    assert(("ALBM"@)[0] != ("LANG"@)[0]);
    assert(("ALBM"@)[0] != ("TITL"@)[0]);
    assert(("COMP"@)[0] != ("FLID"@)[0]);
    assert(("COMP"@)[0] != ("LANG"@)[0]);
    assert(("COMP"@)[0] != ("TITL"@)[0]);
    assert(("COMP"@)[0] != ("ALBM"@)[0]);
    assert(("COMP"@)[0] != ("ARTS"@)[0]);
    assert(("COPY"@)[0] != ("FLID"@)[0]);
    assert(("COPY"@)[0] != ("LANG"@)[0]);
    assert(("COPY"@)[0] != ("TITL"@)[0]);
    assert(("COPY"@)[0] != ("ALBM"@)[0]);
    assert(("COPY"@)[0] != ("ARTS"@)[0]);
    assert(("COPY"@)[2] != ("COMP"@)[2]);
    assert(("SORC"@)[0] != ("FLID"@)[0]);
    assert(("SORC"@)[0] != ("LANG"@)[0]);
    assert(("SORC"@)[0] != ("TITL"@)[0]);
    assert(("SORC"@)[0] != ("ALBM"@)[0]);
    assert(("SORC"@)[0] != ("ARTS"@)[0]);
    assert(("SORC"@)[0] != ("COMP"@)[0]);
    assert(("SORC"@)[0] != ("COPY"@)[0]);
    assert(("YEAR"@)[0] != ("FLID"@)[0]);
    assert(("YEAR"@)[0] != ("LANG"@)[0]);
    assert(("YEAR"@)[0] != ("TITL"@)[0]);
    assert(("YEAR"@)[0] != ("ALBM"@)[0]);
    assert(("YEAR"@)[0] != ("ARTS"@)[0]);
    assert(("YEAR"@)[0] != ("COMP"@)[0]);
    assert(("YEAR"@)[0] != ("COPY"@)[0]);
    assert(("YEAR"@)[0] != ("SORC"@)[0]);
    assert(("TRAK"@)[0] != ("FLID"@)[0]);
    assert(("TRAK"@)[0] != ("LANG"@)[0]);
    assert(("TRAK"@)[1] != ("TITL"@)[1]);
    assert(("TRAK"@)[0] != ("ALBM"@)[0]);
    assert(("TRAK"@)[0] != ("ARTS"@)[0]);
    assert(("TRAK"@)[0] != ("COMP"@)[0]);
    assert(("TRAK"@)[0] != ("COPY"@)[0]);
    assert(("TRAK"@)[0] != ("SORC"@)[0]);
    assert(("TRAK"@)[0] != ("YEAR"@)[0]);
    assert(("KFNZ"@)[0] != ("FLID"@)[0]);
    assert(("KFNZ"@)[0] != ("LANG"@)[0]);
    assert(("KFNZ"@)[0] != ("TITL"@)[0]);
    assert(("KFNZ"@)[0] != ("ALBM"@)[0]);
    assert(("KFNZ"@)[0] != ("ARTS"@)[0]);
    assert(("KFNZ"@)[0] != ("COMP"@)[0]);
    assert(("KFNZ"@)[0] != ("COPY"@)[0]);
    assert(("KFNZ"@)[0] != ("SORC"@)[0]);
    assert(("KFNZ"@)[0] != ("YEAR"@)[0]);
    assert(("KFNZ"@)[0] != ("TRAK"@)[0]);
    assert(("RGHT"@)[0] != ("DIFM"@)[0]);
    assert(("RGHT"@)[0] != ("DIFW"@)[0]);
    assert(("RGHT"@)[0] != ("GNRE"@)[0]);
    assert(("RGHT"@)[0] != ("SFTV"@)[0]);
    assert(("RGHT"@)[0] != ("MUSL"@)[0]);
    assert(("RGHT"@)[0] != ("ANME"@)[0]);
    assert(("RGHT"@)[0] != ("TYPE"@)[0]);
    assert(("PROV"@)[0] != ("DIFM"@)[0]);
    assert(("PROV"@)[0] != ("DIFW"@)[0]);
    assert(("PROV"@)[0] != ("GNRE"@)[0]);
    assert(("PROV"@)[0] != ("SFTV"@)[0]);
    assert(("PROV"@)[0] != ("MUSL"@)[0]);
    assert(("PROV"@)[0] != ("ANME"@)[0]);
    assert(("PROV"@)[0] != ("TYPE"@)[0]);
    assert(("PROV"@)[0] != ("RGHT"@)[0]);
    assert(("IDUS"@)[0] != ("FLID"@)[0]);
    assert(("IDUS"@)[0] != ("LANG"@)[0]);
    assert(("IDUS"@)[0] != ("TITL"@)[0]);
    assert(("IDUS"@)[0] != ("ALBM"@)[0]);
    assert(("IDUS"@)[0] != ("ARTS"@)[0]);
    assert(("IDUS"@)[0] != ("COMP"@)[0]);
    assert(("IDUS"@)[0] != ("COPY"@)[0]);
    assert(("IDUS"@)[0] != ("SORC"@)[0]);
    assert(("IDUS"@)[0] != ("YEAR"@)[0]);
    assert(("IDUS"@)[0] != ("TRAK"@)[0]);
    assert(("IDUS"@)[0] != ("KFNZ"@)[0]);
    reveal_with_fuel(fold_recs, 25);
    assert(fold_recs(empty_header(), header_recs(h)) == h);
}

/// Appending one record appends its bytes.
proof fn lemma_recs_bytes_snoc(rs: Seq<RecV>, r: RecV)
    ensures
        recs_bytes(rs.push(r)) == recs_bytes(rs) + rec_bytes(r),
    decreases rs.len(),
{
    if rs.len() == 0 {
        assert(rs.push(r).first() == r);
        assert(rs.push(r).drop_first() =~= Seq::<RecV>::empty());
        assert(rec_bytes(r) + recs_bytes(Seq::<RecV>::empty()) =~= recs_bytes(rs) + rec_bytes(r));
    } else {
        assert(rs.push(r).first() == rs.first());
        assert(rs.push(r).drop_first() =~= rs.drop_first().push(r));
        lemma_recs_bytes_snoc(rs.drop_first(), r);
        assert(rec_bytes(rs.first()) + (recs_bytes(rs.drop_first()) + rec_bytes(r)) =~= (rec_bytes(
            rs.first(),
        ) + recs_bytes(rs.drop_first())) + rec_bytes(r));
    }
}

/// The canonical header bytes are the magic tag, the records, and the
/// closing record.
#[verifier::rlimit(100)]
#[verifier::spinoff_prover]
proof fn lemma_header_bytes_split(h: HeaderV)
    ensures
        header_bytes(h) == magic_bytes() + recs_bytes(header_recs(h)) + endh_bytes(),
{
    reveal_strlit("DIFM");
    reveal_strlit("DIFW");
    reveal_strlit("GNRE");
    reveal_strlit("SFTV");
    reveal_strlit("MUSL");
    reveal_strlit("ANME");
    reveal_strlit("TYPE");
    reveal_strlit("FLID");
    reveal_strlit("LANG");
    reveal_strlit("TITL");
    reveal_strlit("ARTS");
    reveal_strlit("ALBM");
    reveal_strlit("COMP");
    reveal_strlit("COPY");
    reveal_strlit("SORC");
    reveal_strlit("YEAR");
    reveal_strlit("TRAK");
    reveal_strlit("KFNZ");
    reveal_strlit("RGHT");
    reveal_strlit("PROV");
    reveal_strlit("IDUS");
    assert(encode_utf8("DIFM"@) =~= seq![('D' as u8), ('I' as u8), ('F' as u8), ('M' as u8)]) by {
        assert(("DIFM"@).len() == 4);
        assert(("DIFM"@)[0] == 'D' && ("DIFM"@)[1] == 'I' && ("DIFM"@)[2] == 'F' && ("DIFM"@)[3] == 'M');
        assert(is_ascii_chars("DIFM"@)) by {
            assert(forall|i: int| 0 <= i < ("DIFM"@).len() ==> '\0' <= #[trigger] ("DIFM"@)[i] <= '\u{7f}');
        }
        is_ascii_chars_encode_utf8("DIFM"@);
    }
    assert(encode_utf8("DIFW"@) =~= seq![('D' as u8), ('I' as u8), ('F' as u8), ('W' as u8)]) by {
        assert(("DIFW"@).len() == 4);
        assert(("DIFW"@)[0] == 'D' && ("DIFW"@)[1] == 'I' && ("DIFW"@)[2] == 'F' && ("DIFW"@)[3] == 'W');
        assert(is_ascii_chars("DIFW"@)) by {
            assert(forall|i: int| 0 <= i < ("DIFW"@).len() ==> '\0' <= #[trigger] ("DIFW"@)[i] <= '\u{7f}');
        }
        is_ascii_chars_encode_utf8("DIFW"@);
    }
    assert(encode_utf8("GNRE"@) =~= seq![('G' as u8), ('N' as u8), ('R' as u8), ('E' as u8)]) by {
        assert(("GNRE"@).len() == 4);
        assert(("GNRE"@)[0] == 'G' && ("GNRE"@)[1] == 'N' && ("GNRE"@)[2] == 'R' && ("GNRE"@)[3] == 'E');
        assert(is_ascii_chars("GNRE"@)) by {
            assert(forall|i: int| 0 <= i < ("GNRE"@).len() ==> '\0' <= #[trigger] ("GNRE"@)[i] <= '\u{7f}');
        }
        is_ascii_chars_encode_utf8("GNRE"@);
    }
    assert(encode_utf8("SFTV"@) =~= seq![('S' as u8), ('F' as u8), ('T' as u8), ('V' as u8)]) by {
        assert(("SFTV"@).len() == 4);
        assert(("SFTV"@)[0] == 'S' && ("SFTV"@)[1] == 'F' && ("SFTV"@)[2] == 'T' && ("SFTV"@)[3] == 'V');
        assert(is_ascii_chars("SFTV"@)) by {
            assert(forall|i: int| 0 <= i < ("SFTV"@).len() ==> '\0' <= #[trigger] ("SFTV"@)[i] <= '\u{7f}');
        }
        is_ascii_chars_encode_utf8("SFTV"@);
    }
    assert(encode_utf8("MUSL"@) =~= seq![('M' as u8), ('U' as u8), ('S' as u8), ('L' as u8)]) by {
        assert(("MUSL"@).len() == 4);
        assert(("MUSL"@)[0] == 'M' && ("MUSL"@)[1] == 'U' && ("MUSL"@)[2] == 'S' && ("MUSL"@)[3] == 'L');
        assert(is_ascii_chars("MUSL"@)) by {
            assert(forall|i: int| 0 <= i < ("MUSL"@).len() ==> '\0' <= #[trigger] ("MUSL"@)[i] <= '\u{7f}');
        }
        is_ascii_chars_encode_utf8("MUSL"@);
    }
    assert(encode_utf8("ANME"@) =~= seq![('A' as u8), ('N' as u8), ('M' as u8), ('E' as u8)]) by {
        assert(("ANME"@).len() == 4);
        assert(("ANME"@)[0] == 'A' && ("ANME"@)[1] == 'N' && ("ANME"@)[2] == 'M' && ("ANME"@)[3] == 'E');
        assert(is_ascii_chars("ANME"@)) by {
            assert(forall|i: int| 0 <= i < ("ANME"@).len() ==> '\0' <= #[trigger] ("ANME"@)[i] <= '\u{7f}');
        }
        is_ascii_chars_encode_utf8("ANME"@);
    }
    assert(encode_utf8("TYPE"@) =~= seq![('T' as u8), ('Y' as u8), ('P' as u8), ('E' as u8)]) by {
        assert(("TYPE"@).len() == 4);
        assert(("TYPE"@)[0] == 'T' && ("TYPE"@)[1] == 'Y' && ("TYPE"@)[2] == 'P' && ("TYPE"@)[3] == 'E');
        assert(is_ascii_chars("TYPE"@)) by {
            assert(forall|i: int| 0 <= i < ("TYPE"@).len() ==> '\0' <= #[trigger] ("TYPE"@)[i] <= '\u{7f}');
        }
        is_ascii_chars_encode_utf8("TYPE"@);
    }
    assert(encode_utf8("FLID"@) =~= seq![('F' as u8), ('L' as u8), ('I' as u8), ('D' as u8)]) by {
        assert(("FLID"@).len() == 4);
        assert(("FLID"@)[0] == 'F' && ("FLID"@)[1] == 'L' && ("FLID"@)[2] == 'I' && ("FLID"@)[3] == 'D');
        assert(is_ascii_chars("FLID"@)) by {
            assert(forall|i: int| 0 <= i < ("FLID"@).len() ==> '\0' <= #[trigger] ("FLID"@)[i] <= '\u{7f}');
        }
        is_ascii_chars_encode_utf8("FLID"@);
    }
    assert(encode_utf8("LANG"@) =~= seq![('L' as u8), ('A' as u8), ('N' as u8), ('G' as u8)]) by {
        assert(("LANG"@).len() == 4);
        assert(("LANG"@)[0] == 'L' && ("LANG"@)[1] == 'A' && ("LANG"@)[2] == 'N' && ("LANG"@)[3] == 'G');
        assert(is_ascii_chars("LANG"@)) by {
            assert(forall|i: int| 0 <= i < ("LANG"@).len() ==> '\0' <= #[trigger] ("LANG"@)[i] <= '\u{7f}');
        }
        is_ascii_chars_encode_utf8("LANG"@);
    }
    assert(encode_utf8("TITL"@) =~= seq![('T' as u8), ('I' as u8), ('T' as u8), ('L' as u8)]) by {
        assert(("TITL"@).len() == 4);
        assert(("TITL"@)[0] == 'T' && ("TITL"@)[1] == 'I' && ("TITL"@)[2] == 'T' && ("TITL"@)[3] == 'L');
        assert(is_ascii_chars("TITL"@)) by {
            assert(forall|i: int| 0 <= i < ("TITL"@).len() ==> '\0' <= #[trigger] ("TITL"@)[i] <= '\u{7f}');
        }
        is_ascii_chars_encode_utf8("TITL"@);
    }
    assert(encode_utf8("ARTS"@) =~= seq![('A' as u8), ('R' as u8), ('T' as u8), ('S' as u8)]) by {
        assert(("ARTS"@).len() == 4);
        assert(("ARTS"@)[0] == 'A' && ("ARTS"@)[1] == 'R' && ("ARTS"@)[2] == 'T' && ("ARTS"@)[3] == 'S');
        assert(is_ascii_chars("ARTS"@)) by {
            assert(forall|i: int| 0 <= i < ("ARTS"@).len() ==> '\0' <= #[trigger] ("ARTS"@)[i] <= '\u{7f}');
        }
        is_ascii_chars_encode_utf8("ARTS"@);
    }
    assert(encode_utf8("ALBM"@) =~= seq![('A' as u8), ('L' as u8), ('B' as u8), ('M' as u8)]) by {
        assert(("ALBM"@).len() == 4);
        assert(("ALBM"@)[0] == 'A' && ("ALBM"@)[1] == 'L' && ("ALBM"@)[2] == 'B' && ("ALBM"@)[3] == 'M');
        assert(is_ascii_chars("ALBM"@)) by {
            assert(forall|i: int| 0 <= i < ("ALBM"@).len() ==> '\0' <= #[trigger] ("ALBM"@)[i] <= '\u{7f}');
        }
        is_ascii_chars_encode_utf8("ALBM"@);
    }
    assert(encode_utf8("COMP"@) =~= seq![('C' as u8), ('O' as u8), ('M' as u8), ('P' as u8)]) by {
        assert(("COMP"@).len() == 4);
        assert(("COMP"@)[0] == 'C' && ("COMP"@)[1] == 'O' && ("COMP"@)[2] == 'M' && ("COMP"@)[3] == 'P');
        assert(is_ascii_chars("COMP"@)) by {
            assert(forall|i: int| 0 <= i < ("COMP"@).len() ==> '\0' <= #[trigger] ("COMP"@)[i] <= '\u{7f}');
        }
        is_ascii_chars_encode_utf8("COMP"@);
    }
    assert(encode_utf8("COPY"@) =~= seq![('C' as u8), ('O' as u8), ('P' as u8), ('Y' as u8)]) by {
        assert(("COPY"@).len() == 4);
        assert(("COPY"@)[0] == 'C' && ("COPY"@)[1] == 'O' && ("COPY"@)[2] == 'P' && ("COPY"@)[3] == 'Y');
        assert(is_ascii_chars("COPY"@)) by {
            assert(forall|i: int| 0 <= i < ("COPY"@).len() ==> '\0' <= #[trigger] ("COPY"@)[i] <= '\u{7f}');
        }
        is_ascii_chars_encode_utf8("COPY"@);
    }
    assert(encode_utf8("SORC"@) =~= seq![('S' as u8), ('O' as u8), ('R' as u8), ('C' as u8)]) by {
        assert(("SORC"@).len() == 4);
        assert(("SORC"@)[0] == 'S' && ("SORC"@)[1] == 'O' && ("SORC"@)[2] == 'R' && ("SORC"@)[3] == 'C');
        assert(is_ascii_chars("SORC"@)) by {
            assert(forall|i: int| 0 <= i < ("SORC"@).len() ==> '\0' <= #[trigger] ("SORC"@)[i] <= '\u{7f}');
        }
        is_ascii_chars_encode_utf8("SORC"@);
    }
    assert(encode_utf8("YEAR"@) =~= seq![('Y' as u8), ('E' as u8), ('A' as u8), ('R' as u8)]) by {
        assert(("YEAR"@).len() == 4);
        assert(("YEAR"@)[0] == 'Y' && ("YEAR"@)[1] == 'E' && ("YEAR"@)[2] == 'A' && ("YEAR"@)[3] == 'R');
        assert(is_ascii_chars("YEAR"@)) by {
            assert(forall|i: int| 0 <= i < ("YEAR"@).len() ==> '\0' <= #[trigger] ("YEAR"@)[i] <= '\u{7f}');
        }
        is_ascii_chars_encode_utf8("YEAR"@);
    }
    assert(encode_utf8("TRAK"@) =~= seq![('T' as u8), ('R' as u8), ('A' as u8), ('K' as u8)]) by {
        assert(("TRAK"@).len() == 4);
        assert(("TRAK"@)[0] == 'T' && ("TRAK"@)[1] == 'R' && ("TRAK"@)[2] == 'A' && ("TRAK"@)[3] == 'K');
        assert(is_ascii_chars("TRAK"@)) by {
            assert(forall|i: int| 0 <= i < ("TRAK"@).len() ==> '\0' <= #[trigger] ("TRAK"@)[i] <= '\u{7f}');
        }
        is_ascii_chars_encode_utf8("TRAK"@);
    }
    assert(encode_utf8("KFNZ"@) =~= seq![('K' as u8), ('F' as u8), ('N' as u8), ('Z' as u8)]) by {
        assert(("KFNZ"@).len() == 4);
        assert(("KFNZ"@)[0] == 'K' && ("KFNZ"@)[1] == 'F' && ("KFNZ"@)[2] == 'N' && ("KFNZ"@)[3] == 'Z');
        assert(is_ascii_chars("KFNZ"@)) by {
            assert(forall|i: int| 0 <= i < ("KFNZ"@).len() ==> '\0' <= #[trigger] ("KFNZ"@)[i] <= '\u{7f}');
        }
        is_ascii_chars_encode_utf8("KFNZ"@);
    }
    assert(encode_utf8("RGHT"@) =~= seq![('R' as u8), ('G' as u8), ('H' as u8), ('T' as u8)]) by {
        assert(("RGHT"@).len() == 4);
        assert(("RGHT"@)[0] == 'R' && ("RGHT"@)[1] == 'G' && ("RGHT"@)[2] == 'H' && ("RGHT"@)[3] == 'T');
        assert(is_ascii_chars("RGHT"@)) by {
            assert(forall|i: int| 0 <= i < ("RGHT"@).len() ==> '\0' <= #[trigger] ("RGHT"@)[i] <= '\u{7f}');
        }
        is_ascii_chars_encode_utf8("RGHT"@);
    }
    assert(encode_utf8("PROV"@) =~= seq![('P' as u8), ('R' as u8), ('O' as u8), ('V' as u8)]) by {
        assert(("PROV"@).len() == 4);
        assert(("PROV"@)[0] == 'P' && ("PROV"@)[1] == 'R' && ("PROV"@)[2] == 'O' && ("PROV"@)[3] == 'V');
        assert(is_ascii_chars("PROV"@)) by {
            assert(forall|i: int| 0 <= i < ("PROV"@).len() ==> '\0' <= #[trigger] ("PROV"@)[i] <= '\u{7f}');
        }
        is_ascii_chars_encode_utf8("PROV"@);
    }
    assert(encode_utf8("IDUS"@) =~= seq![('I' as u8), ('D' as u8), ('U' as u8), ('S' as u8)]) by {
        assert(("IDUS"@).len() == 4);
        assert(("IDUS"@)[0] == 'I' && ("IDUS"@)[1] == 'D' && ("IDUS"@)[2] == 'U' && ("IDUS"@)[3] == 'S');
        assert(is_ascii_chars("IDUS"@)) by {
            assert(forall|i: int| 0 <= i < ("IDUS"@).len() ==> '\0' <= #[trigger] ("IDUS"@)[i] <= '\u{7f}');
        }
        is_ascii_chars_encode_utf8("IDUS"@);
    }
    let r1 = RecV::Num("DIFM"@, h.diff_men);
    let r2 = RecV::Num("DIFW"@, h.diff_women);
    let r3 = RecV::Num("GNRE"@, h.genre);
    let r4 = RecV::Num("SFTV"@, h.sftv);
    let r5 = RecV::Num("MUSL"@, h.musl);
    let r6 = RecV::Num("ANME"@, h.anme);
    let r7 = RecV::Num("TYPE"@, h.kfn_type);
    let r8 = RecV::Str("FLID"@, h.flid);
    let r9 = RecV::Str("LANG"@, h.language);
    let r10 = RecV::Str("TITL"@, h.title);
    let r11 = RecV::Str("ARTS"@, h.artist);
    let r12 = RecV::Str("ALBM"@, h.album);
    let r13 = RecV::Str("COMP"@, h.composer);
    let r14 = RecV::Str("COPY"@, h.copyright);
    let r15 = RecV::Str("SORC"@, h.source_file);
    let r16 = RecV::Str("YEAR"@, h.year);
    let r17 = RecV::Str("TRAK"@, h.trak);
    let r18 = RecV::Str("KFNZ"@, h.karafunizer);
    let r19 = RecV::Num("RGHT"@, h.rght);
    let r20 = RecV::Num("PROV"@, h.prov);
    let r21 = RecV::Str("IDUS"@, h.idus);
    let p0 = Seq::<RecV>::empty();
    let p1 = p0.push(r1);
    let p2 = p1.push(r2);
    let p3 = p2.push(r3);
    let p4 = p3.push(r4);
    let p5 = p4.push(r5);
    let p6 = p5.push(r6);
    let p7 = p6.push(r7);
    let p8 = p7.push(r8);
    let p9 = p8.push(r9);
    let p10 = p9.push(r10);
    let p11 = p10.push(r11);
    let p12 = p11.push(r12);
    let p13 = p12.push(r13);
    let p14 = p13.push(r14);
    let p15 = p14.push(r15);
    let p16 = p15.push(r16);
    let p17 = p16.push(r17);
    let p18 = p17.push(r18);
    let p19 = p18.push(r19);
    let p20 = p19.push(r20);
    let p21 = p20.push(r21);
    assert(recs_bytes(p0) == Seq::<u8>::empty());
    assert(magic_bytes() + recs_bytes(p0) =~= magic_bytes());
    lemma_recs_bytes_snoc(p0, r1);
    assert((magic_bytes() + recs_bytes(p0)) + rec_bytes(r1) =~= magic_bytes() + recs_bytes(p1));
    lemma_recs_bytes_snoc(p1, r2);
    assert((magic_bytes() + recs_bytes(p1)) + rec_bytes(r2) =~= magic_bytes() + recs_bytes(p2));
    lemma_recs_bytes_snoc(p2, r3);
    assert((magic_bytes() + recs_bytes(p2)) + rec_bytes(r3) =~= magic_bytes() + recs_bytes(p3));
    lemma_recs_bytes_snoc(p3, r4);
    assert((magic_bytes() + recs_bytes(p3)) + rec_bytes(r4) =~= magic_bytes() + recs_bytes(p4));
    lemma_recs_bytes_snoc(p4, r5);
    assert((magic_bytes() + recs_bytes(p4)) + rec_bytes(r5) =~= magic_bytes() + recs_bytes(p5));
    lemma_recs_bytes_snoc(p5, r6);
    assert((magic_bytes() + recs_bytes(p5)) + rec_bytes(r6) =~= magic_bytes() + recs_bytes(p6));
    lemma_recs_bytes_snoc(p6, r7);
    assert((magic_bytes() + recs_bytes(p6)) + rec_bytes(r7) =~= magic_bytes() + recs_bytes(p7));
    lemma_recs_bytes_snoc(p7, r8);
    assert((magic_bytes() + recs_bytes(p7)) + rec_bytes(r8) =~= magic_bytes() + recs_bytes(p8));
    lemma_recs_bytes_snoc(p8, r9);
    assert((magic_bytes() + recs_bytes(p8)) + rec_bytes(r9) =~= magic_bytes() + recs_bytes(p9));
    lemma_recs_bytes_snoc(p9, r10);
    assert((magic_bytes() + recs_bytes(p9)) + rec_bytes(r10) =~= magic_bytes() + recs_bytes(p10));
    lemma_recs_bytes_snoc(p10, r11);
    assert((magic_bytes() + recs_bytes(p10)) + rec_bytes(r11) =~= magic_bytes() + recs_bytes(p11));
    lemma_recs_bytes_snoc(p11, r12);
    assert((magic_bytes() + recs_bytes(p11)) + rec_bytes(r12) =~= magic_bytes() + recs_bytes(p12));
    lemma_recs_bytes_snoc(p12, r13);
    assert((magic_bytes() + recs_bytes(p12)) + rec_bytes(r13) =~= magic_bytes() + recs_bytes(p13));
    lemma_recs_bytes_snoc(p13, r14);
    assert((magic_bytes() + recs_bytes(p13)) + rec_bytes(r14) =~= magic_bytes() + recs_bytes(p14));
    lemma_recs_bytes_snoc(p14, r15);
    assert((magic_bytes() + recs_bytes(p14)) + rec_bytes(r15) =~= magic_bytes() + recs_bytes(p15));
    lemma_recs_bytes_snoc(p15, r16);
    assert((magic_bytes() + recs_bytes(p15)) + rec_bytes(r16) =~= magic_bytes() + recs_bytes(p16));
    lemma_recs_bytes_snoc(p16, r17);
    assert((magic_bytes() + recs_bytes(p16)) + rec_bytes(r17) =~= magic_bytes() + recs_bytes(p17));
    lemma_recs_bytes_snoc(p17, r18);
    assert((magic_bytes() + recs_bytes(p17)) + rec_bytes(r18) =~= magic_bytes() + recs_bytes(p18));
    lemma_recs_bytes_snoc(p18, r19);
    assert((magic_bytes() + recs_bytes(p18)) + rec_bytes(r19) =~= magic_bytes() + recs_bytes(p19));
    lemma_recs_bytes_snoc(p19, r20);
    assert((magic_bytes() + recs_bytes(p19)) + rec_bytes(r20) =~= magic_bytes() + recs_bytes(p20));
    lemma_recs_bytes_snoc(p20, r21);
    assert((magic_bytes() + recs_bytes(p20)) + rec_bytes(r21) =~= magic_bytes() + recs_bytes(p21));
    assert(header_recs(h) =~= p21);
    assert(header_bytes(h) == (magic_bytes() + recs_bytes(p21)) + endh_bytes());
}

/// The same entries without their payloads, as the directory loop
/// collects them.
pub open spec fn stripped(es: Seq<EntryV>) -> Seq<EntryV> {
    Seq::new(
        es.len(),
        |i: int|
            EntryV {
                file_type: es[i].file_type,
                filename: es[i].filename,
                len1: es[i].len1,
                offset: es[i].offset,
                len2: es[i].len2,
                flags: es[i].flags,
                file_bin: Seq::<u8>::empty(),
            },
    )
}

/// The same entries with their offsets made absolute against the
/// directory's end.
pub open spec fn shifted(es: Seq<EntryV>, de: int) -> Seq<EntryV> {
    Seq::new(
        es.len(),
        |i: int|
            EntryV {
                file_type: es[i].file_type,
                filename: es[i].filename,
                len1: es[i].len1,
                offset: es[i].offset + de,
                len2: es[i].len2,
                flags: es[i].flags,
                file_bin: es[i].file_bin,
            },
    )
}

/// The directory bytes split at the first record.
proof fn lemma_dir_bytes_first(es: Seq<EntryV>)
    requires
        es.len() > 0,
    ensures
        dir_bytes(es) == entry_record(es.first()) + dir_bytes(es.drop_first()),
    decreases es.len(),
{
    if es.len() == 1 {
        assert(es.drop_last() =~= Seq::<EntryV>::empty());
        assert(es.drop_first() =~= Seq::<EntryV>::empty());
        assert(Seq::<u8>::empty() + entry_record(es.last()) =~= entry_record(es.first())
            + Seq::<u8>::empty());
    } else {
        lemma_dir_bytes_first(es.drop_last());
        assert(es.drop_last().first() == es.first());
        assert(es.drop_last().drop_first() =~= es.drop_first().drop_last());
        assert(es.drop_first().last() == es.last());
        assert((entry_record(es.first()) + dir_bytes(es.drop_first().drop_last())) + entry_record(
            es.last(),
        ) =~= entry_record(es.first()) + (dir_bytes(es.drop_first().drop_last()) + entry_record(
            es.last(),
        )));
    }
}

/// The payload bytes split at the first blob.
proof fn lemma_payload_bytes_first(es: Seq<EntryV>)
    requires
        es.len() > 0,
    ensures
        payload_bytes(es) == es.first().file_bin + payload_bytes(es.drop_first()),
    decreases es.len(),
{
    if es.len() == 1 {
        assert(es.drop_last() =~= Seq::<EntryV>::empty());
        assert(es.drop_first() =~= Seq::<EntryV>::empty());
        assert(Seq::<u8>::empty() + es.last().file_bin =~= es.first().file_bin
            + Seq::<u8>::empty());
    } else {
        lemma_payload_bytes_first(es.drop_last());
        assert(es.drop_last().first() == es.first());
        assert(es.drop_last().drop_first() =~= es.drop_first().drop_last());
        assert(es.drop_first().last() == es.last());
        assert((es.first().file_bin + payload_bytes(es.drop_first().drop_last()))
            + es.last().file_bin =~= es.first().file_bin + (payload_bytes(
            es.drop_first().drop_last(),
        ) + es.last().file_bin));
    }
}

/// The payload's total size is the sum of the declared sizes.
proof fn lemma_payload_len(es: Seq<EntryV>)
    requires
        entries_ok(es),
    ensures
        payload_bytes(es).len() == prefix_len1(es, es.len() as int),
    decreases es.len(),
{
    if es.len() > 0 {
        assert(entries_ok(es.drop_last())) by {
            assert(forall|i: int|
                0 <= i < es.drop_last().len() ==> es.drop_last()[i] == es[i]);
        }
        lemma_payload_len(es.drop_last());
        lemma_prefix_ignores_last(es, es.len() - 1);
        assert(entry_ok(es.last()));
    }
}

/// A prefix sum only reads the entries before its bound.
proof fn lemma_prefix_ignores_last(es: Seq<EntryV>, j: int)
    requires
        0 <= j < es.len(),
    ensures
        prefix_len1(es, j) == prefix_len1(es.drop_last(), j),
    decreases j,
{
    if j > 0 {
        lemma_prefix_ignores_last(es, j - 1);
    }
}

/// Each blob lies at its prefix sum inside the payload bytes.
proof fn lemma_payload_slice(es: Seq<EntryV>, i: int)
    requires
        entries_ok(es),
        0 <= i < es.len(),
    ensures
        prefix_len1(es, i) + es[i].len1 <= payload_bytes(es).len(),
        payload_bytes(es).subrange(prefix_len1(es, i), prefix_len1(es, i) + es[i].len1)
            == es[i].file_bin,
    decreases es.len(),
{
    lemma_payload_len(es);
    crate::kfn_data::lemma_prefix_len1_bounds(es, i);
    crate::kfn_data::lemma_prefix_len1_bounds(es, i + 1);
    assert(entry_ok(es[i]));
    if i == es.len() - 1 {
        lemma_prefix_ignores_last(es, i);
        assert(entries_ok(es.drop_last())) by {
            assert(forall|k: int|
                0 <= k < es.drop_last().len() ==> es.drop_last()[k] == es[k]);
        }
        lemma_payload_len(es.drop_last());
        assert(payload_bytes(es) == payload_bytes(es.drop_last()) + es.last().file_bin);
        assert(payload_bytes(es).subrange(prefix_len1(es, i), prefix_len1(es, i) + es[i].len1)
            =~= es[i].file_bin);
    } else {
        assert(entries_ok(es.drop_last())) by {
            assert(forall|k: int|
                0 <= k < es.drop_last().len() ==> es.drop_last()[k] == es[k]);
        }
        lemma_payload_slice(es.drop_last(), i);
        lemma_prefix_ignores_last(es, i);
        assert(payload_bytes(es) == payload_bytes(es.drop_last()) + es.last().file_bin);
        lemma_payload_len(es.drop_last());
        crate::kfn_data::lemma_prefix_len1_bounds(es.drop_last(), i + 1);
        assert(es.drop_last()[i] == es[i]);
        lemma_prefix_ignores_last(es, i);
        assert(prefix_len1(es, i) == prefix_len1(es.drop_last(), i));
        assert(prefix_len1(es, i) + es[i].len1 <= payload_bytes(es.drop_last()).len());
        let p = prefix_len1(es, i);
        let l = es[i].len1;
        assert(payload_bytes(es).len() == payload_bytes(es.drop_last()).len()
            + es.last().file_bin.len());
        assert(p + l <= payload_bytes(es).len());
        assert(l >= 0);
        assert forall|k: int| 0 <= k < l implies #[trigger] payload_bytes(es).subrange(p, p + l)[k]
            == payload_bytes(es.drop_last()).subrange(p, p + l)[k] by {
            assert(payload_bytes(es).subrange(p, p + l)[k] == payload_bytes(es)[p + k]);
            assert(payload_bytes(es)[p + k] == (payload_bytes(es.drop_last())
                + es.last().file_bin)[p + k]);
            assert((payload_bytes(es.drop_last()) + es.last().file_bin)[p + k] == payload_bytes(
                es.drop_last(),
            )[p + k]);
        }
        assert(payload_bytes(es).subrange(p, p + l) =~= payload_bytes(es.drop_last()).subrange(
            p,
            p + l,
        ));
    }
}

/// The decoder reads one directory record into the accumulator.
#[verifier::rlimit(100)]
#[verifier::spinoff_prover]
proof fn lemma_parse_one_entry(bytes: Seq<u8>, pos: int, e: EntryV, rem: int, acc: Seq<EntryV>, h: HeaderV)
    requires
        0 <= pos,
        pos + entry_record(e).len() <= bytes.len(),
        bytes.subrange(pos, pos + entry_record(e).len()) == entry_record(e),
        rem >= 1,
        vstd::utf8::encode_utf8(e.filename).len() <= u32::MAX,
        0 <= e.len1 <= u32::MAX,
        0 <= e.offset <= u32::MAX,
        0 <= e.len2 <= u32::MAX,
        0 <= e.flags <= u32::MAX,
    ensures
        spec_parse_entries(bytes, pos, rem, acc, h) == spec_parse_entries(
            bytes,
            pos + entry_record(e).len(),
            rem - 1,
            acc.push(
                EntryV {
                    file_type: e.file_type,
                    filename: e.filename,
                    len1: e.len1,
                    offset: e.offset,
                    len2: e.len2,
                    flags: e.flags,
                    file_bin: Seq::<u8>::empty(),
                },
            ),
            h,
        ),
{
    let er = entry_record(e);
    let fb = encode_utf8(e.filename);
    let nl = fb.len() as int;
    assert forall|j: int| 0 <= j < er.len() implies bytes[pos + j] == #[trigger] er[j] by {
        assert(er[j] == bytes.subrange(pos, pos + entry_record(e).len())[j]);
    }
    let nlen32 = (nl as u32);
    assert(er[0] == u32le(nlen32)[0] && er[1] == u32le(nlen32)[1] && er[2] == u32le(nlen32)[2]
        && er[3] == u32le(nlen32)[3]);
    lemma_le32(bytes, pos, nlen32);
    let nb = bytes.subrange(pos + 4, pos + 4 + nl);
    assert forall|k: int| 0 <= k < nl implies nb[k] == fb[k] by {
        assert(nb[k] == bytes[pos + 4 + k]);
        assert(bytes[pos + 4 + k] == er[4 + k]);
        assert(er[4 + k] == fb[k]);
    }
    assert(nb =~= fb);
    encode_utf8_valid_utf8(e.filename);
    encode_utf8_decode_utf8(e.filename);
    let base = pos + 4 + nl;
    let tc = crate::helpers::file_type_code(e.file_type);
    assert(er[4 + nl] == u32le(tc)[0] && er[5 + nl] == u32le(tc)[1] && er[6 + nl] == u32le(tc)[2]
        && er[7 + nl] == u32le(tc)[3]);
    lemma_le32(bytes, base, tc);
    assert(crate::helpers::file_type_of_code(tc) == e.file_type);
    assert(er[8 + nl] == u32le(e.len1 as u32)[0] && er[9 + nl] == u32le(e.len1 as u32)[1] && er[10
        + nl] == u32le(e.len1 as u32)[2] && er[11 + nl] == u32le(e.len1 as u32)[3]);
    lemma_le32(bytes, base + 4, e.len1 as u32);
    assert(er[12 + nl] == u32le(e.offset as u32)[0] && er[13 + nl] == u32le(e.offset as u32)[1]
        && er[14 + nl] == u32le(e.offset as u32)[2] && er[15 + nl] == u32le(e.offset as u32)[3]);
    lemma_le32(bytes, base + 8, e.offset as u32);
    assert(er[16 + nl] == u32le(e.len2 as u32)[0] && er[17 + nl] == u32le(e.len2 as u32)[1] && er[18
        + nl] == u32le(e.len2 as u32)[2] && er[19 + nl] == u32le(e.len2 as u32)[3]);
    lemma_le32(bytes, base + 12, e.len2 as u32);
    assert(er[20 + nl] == u32le(e.flags as u32)[0] && er[21 + nl] == u32le(e.flags as u32)[1]
        && er[22 + nl] == u32le(e.flags as u32)[2] && er[23 + nl] == u32le(e.flags as u32)[3]);
    lemma_le32(bytes, base + 16, e.flags as u32);
}

/// The decoder consumes a run of directory records, accumulating them in
/// order, and then finalizes.
#[verifier::rlimit(100)]
#[verifier::spinoff_prover]
proof fn lemma_parse_dir_records(bytes: Seq<u8>, pos: int, sub: Seq<EntryV>, acc: Seq<EntryV>, h: HeaderV)
    requires
        0 <= pos,
        pos + dir_bytes(sub).len() <= bytes.len(),
        bytes.subrange(pos, pos + dir_bytes(sub).len()) == dir_bytes(sub),
        forall|i: int|
            0 <= i < sub.len() ==> {
                &&& vstd::utf8::encode_utf8((#[trigger] sub[i]).filename).len() <= u32::MAX
                &&& 0 <= sub[i].len1 <= u32::MAX
                &&& 0 <= sub[i].offset <= u32::MAX
                &&& 0 <= sub[i].len2 <= u32::MAX
                &&& 0 <= sub[i].flags <= u32::MAX
            },
    ensures
        spec_parse_entries(bytes, pos, sub.len() as int, acc, h) == crate::spec_finalize(
            bytes,
            pos + dir_bytes(sub).len(),
            acc + stripped(sub),
            h,
        ),
    decreases sub.len(),
{
    if sub.len() == 0 {
        assert(acc + stripped(sub) =~= acc);
        assert(spec_parse_entries(bytes, pos, 0, acc, h) == crate::spec_finalize(bytes, pos, acc, h));
    } else {
        let e = sub.first();
        lemma_dir_bytes_first(sub);
        let er = entry_record(e);
        let region = dir_bytes(sub);
        let rest = dir_bytes(sub.drop_first());
        assert(region == er + rest);
        assert forall|j: int| 0 <= j < region.len() implies bytes[pos + j] == #[trigger] region[j] by {
            assert(region[j] == bytes.subrange(pos, pos + dir_bytes(sub).len())[j]);
        }
        assert forall|j: int| 0 <= j < er.len() implies bytes.subrange(pos, pos + er.len())[j]
            == #[trigger] er[j] by {
            assert(bytes.subrange(pos, pos + er.len())[j] == bytes[pos + j]);
        }
        assert(bytes.subrange(pos, pos + er.len()) =~= er);
        lemma_parse_one_entry(bytes, pos, e, sub.len() as int, acc, h);
        let e2 = EntryV {
            file_type: e.file_type,
            filename: e.filename,
            len1: e.len1,
            offset: e.offset,
            len2: e.len2,
            flags: e.flags,
            file_bin: Seq::<u8>::empty(),
        };
        assert forall|k: int| 0 <= k < rest.len() implies bytes.subrange(
            pos + er.len(),
            pos + er.len() + rest.len(),
        )[k] == #[trigger] rest[k] by {
            assert(bytes.subrange(pos + er.len(), pos + er.len() + rest.len())[k] == bytes[pos
                + er.len() + k]);
            assert(bytes[pos + er.len() + k] == region[er.len() + k]);
        }
        assert(bytes.subrange(pos + er.len(), pos + er.len() + rest.len()) =~= rest);
        assert(forall|i: int|
            0 <= i < sub.drop_first().len() ==> sub.drop_first()[i] == sub[i + 1]);
        lemma_parse_dir_records(bytes, pos + er.len(), sub.drop_first(), acc.push(e2), h);
        assert(acc.push(e2) + stripped(sub.drop_first()) =~= acc + stripped(sub));
    }
}

/// Attaching the payloads restores every entry: absolute offsets, and the
/// byte range of each entry equal to its original payload.
#[verifier::rlimit(100)]
#[verifier::spinoff_prover]
proof fn lemma_finalize(bytes: Seq<u8>, de: int, packed: Seq<EntryV>, h: HeaderV)
    requires
        0 <= de,
        entries_ok(packed),
        forall|i: int|
            0 <= i < packed.len() ==> (#[trigger] packed[i]).offset == prefix_len1(packed, i),
        bytes.len() == de + payload_bytes(packed).len(),
        bytes.subrange(de, bytes.len() as int) == payload_bytes(packed),
    ensures
        crate::spec_finalize(bytes, de, stripped(packed), h) == ParseV::Done(
            h,
            shifted(packed, de),
            de,
        ),
{
    let acc = stripped(packed);
    lemma_payload_len(packed);
    assert forall|i: int|
        0 <= i < acc.len() implies (#[trigger] acc[i]).offset + de + acc[i].len1
        <= bytes.len() by {
        crate::kfn_data::lemma_prefix_len1_bounds(packed, i + 1);
        assert(acc[i].offset == packed[i].offset);
    }
    assert forall|i: int|
        0 <= i < acc.len() implies crate::restore_entries(bytes, de, acc)[i] == shifted(
        packed,
        de,
    )[i] by {
        lemma_payload_slice(packed, i);
        crate::kfn_data::lemma_prefix_len1_bounds(packed, i);
        crate::kfn_data::lemma_prefix_len1_bounds(packed, i + 1);
        let off = packed[i].offset;
        let l = packed[i].len1;
        assert(entry_ok(packed[i]));
        assert forall|k: int|
            0 <= k < l implies #[trigger] bytes.subrange(off + de, off + de + l)[k]
            == payload_bytes(packed).subrange(off, off + l)[k] by {
            assert(bytes.subrange(off + de, off + de + l)[k] == bytes[off + de + k]);
            assert(bytes[off + de + k] == bytes.subrange(de, bytes.len() as int)[off + k]);
            assert(payload_bytes(packed).subrange(off, off + l)[k] == payload_bytes(packed)[off
                + k]);
        }
        assert(bytes.subrange(off + de, off + de + l) =~= payload_bytes(packed).subrange(
            off,
            off + l,
        ));
    }
    assert(crate::restore_entries(bytes, de, acc) =~= shifted(packed, de));
}

/// Where each piece of the canonical header stands inside the encoded
/// buffer.
#[verifier::rlimit(100)]
#[verifier::spinoff_prover]
proof fn lemma_header_regions(h: HeaderV, tail: Seq<u8>)
    ensures
        ({
            let hb = header_bytes(h);
            let rb = recs_bytes(header_recs(h));
            let bytes = hb + tail;
            &&& hb.len() == 13 + rb.len()
            &&& bytes.subrange(0, 4) == magic_bytes()
            &&& bytes.subrange(4, 4 + rb.len() as int) == rb
            &&& bytes.subrange(4 + rb.len() as int, 13 + rb.len() as int) == endh_bytes()
        }),
{
    let hb = header_bytes(h);
    let rb = recs_bytes(header_recs(h));
    let bytes = hb + tail;
    lemma_header_bytes_split(h);
    assert(hb == magic_bytes() + rb + endh_bytes());
    assert forall|j: int| 0 <= j < 4 implies bytes.subrange(0, 4)[j]
        == #[trigger] magic_bytes()[j] by {
        assert(bytes.subrange(0, 4)[j] == bytes[j]);
        assert(bytes[j] == hb[j]);
        assert(hb[j] == (magic_bytes() + rb)[j]);
    }
    assert(bytes.subrange(0, 4) =~= magic_bytes());
    let rbl = rb.len() as int;
    assert forall|j: int| 0 <= j < rbl implies bytes.subrange(4, 4 + rbl)[j]
        == #[trigger] rb[j] by {
        assert(bytes.subrange(4, 4 + rbl)[j] == bytes[4 + j]);
        assert(bytes[4 + j] == hb[4 + j]);
        assert(hb[4 + j] == (magic_bytes() + rb)[4 + j]);
        assert((magic_bytes() + rb)[4 + j] == rb[j]);
    }
    assert(bytes.subrange(4, 4 + rbl) =~= rb);
    assert forall|j: int| 0 <= j < 9 implies bytes.subrange(4 + rbl, 13 + rbl)[j]
        == #[trigger] endh_bytes()[j] by {
        assert(bytes.subrange(4 + rbl, 13 + rbl)[j] == bytes[4 + rbl + j]);
        assert(bytes[4 + rbl + j] == hb[4 + rbl + j]);
        assert(hb[4 + rbl + j] == endh_bytes()[j]);
    }
    assert(bytes.subrange(4 + rbl, 13 + rbl) =~= endh_bytes());
}

/// The magic tag is the UTF-8 form of its name.
proof fn lemma_kfnb()
    ensures
        valid_utf8(magic_bytes()),
        decode_utf8(magic_bytes()) == "KFNB"@,
{
    reveal_strlit("KFNB");
    assert(("KFNB"@).len() == 4);
    assert(("KFNB"@)[0] == 'K' && ("KFNB"@)[1] == 'F' && ("KFNB"@)[2] == 'N' && ("KFNB"@)[3]
        == 'B');
    assert(is_ascii_chars("KFNB"@)) by {
        assert(forall|i: int|
            0 <= i < ("KFNB"@).len() ==> '\0' <= #[trigger] ("KFNB"@)[i] <= '\u{7f}');
    }
    is_ascii_chars_encode_utf8("KFNB"@);
    assert(encode_utf8("KFNB"@) =~= magic_bytes());
    encode_utf8_valid_utf8("KFNB"@);
    encode_utf8_decode_utf8("KFNB"@);
}

/// The header phase of the round trip: the decoder walks the canonical
/// header bytes and restores every field, whatever follows them.
#[verifier::rlimit(100)]
#[verifier::spinoff_prover]
proof fn lemma_roundtrip_header(h: HeaderV, tail: Seq<u8>)
    requires
        header_ok(h),
    ensures
        ({
            let bytes = header_bytes(h) + tail;
            spec_parse(bytes) == spec_parse_dir(bytes, header_bytes(h).len() as int, h)
        }),
{
    let hb = header_bytes(h);
    let bytes = hb + tail;
    let rb = recs_bytes(header_recs(h));
    let rbl = rb.len() as int;
    lemma_header_regions(h, tail);
    lemma_kfnb();
    lemma_header_recs_ok(h);
    lemma_fold_header(h);
    assert(spec_parse(bytes) == spec_parse_records(bytes, 4, empty_header()));
    lemma_parse_recs(bytes, 4, header_recs(h), empty_header());
    lemma_parse_endh(bytes, 4 + rbl, h);
    assert(4 + rbl + 9 == hb.len());
}

/// Where each piece of the data block stands inside the encoded buffer.
#[verifier::rlimit(100)]
#[verifier::spinoff_prover]
proof fn lemma_data_regions(packed: Seq<EntryV>, prefix: Seq<u8>)
    requires
        packed.len() <= u32::MAX,
    ensures
        ({
            let data = data_bytes(packed);
            let bytes = prefix + data;
            let hbl = prefix.len() as int;
            let dl = dir_bytes(packed).len() as int;
            &&& le32_at(bytes, hbl) == packed.len() as u32
            &&& hbl + 4 <= bytes.len()
            &&& bytes.subrange(hbl + 4, hbl + 4 + dl) == dir_bytes(packed)
            &&& bytes.len() == hbl + 4 + dl + payload_bytes(packed).len()
            &&& bytes.subrange(hbl + 4 + dl, bytes.len() as int) == payload_bytes(packed)
        }),
{
    let data = data_bytes(packed);
    let bytes = prefix + data;
    let hbl = prefix.len() as int;
    let n32 = packed.len() as u32;
    assert(data == u32le(n32) + dir_bytes(packed) + payload_bytes(packed));
    assert forall|j: int| 0 <= j < data.len() implies bytes[hbl + j] == #[trigger] data[j] by {}
    assert(data[0] == u32le(n32)[0] && data[1] == u32le(n32)[1] && data[2] == u32le(n32)[2]
        && data[3] == u32le(n32)[3]) by {
        assert((u32le(n32) + dir_bytes(packed))[0] == u32le(n32)[0]);
        assert((u32le(n32) + dir_bytes(packed))[1] == u32le(n32)[1]);
        assert((u32le(n32) + dir_bytes(packed))[2] == u32le(n32)[2]);
        assert((u32le(n32) + dir_bytes(packed))[3] == u32le(n32)[3]);
    }
    lemma_le32(bytes, hbl, n32);
    let dp = hbl + 4;
    let dl = dir_bytes(packed).len() as int;
    assert forall|j: int| 0 <= j < dl implies bytes.subrange(dp, dp + dl)[j]
        == #[trigger] dir_bytes(packed)[j] by {
        assert(bytes.subrange(dp, dp + dl)[j] == bytes[dp + j]);
        assert(bytes[dp + j] == data[4 + j]);
        assert(data[4 + j] == (u32le(n32) + dir_bytes(packed))[4 + j]);
        assert((u32le(n32) + dir_bytes(packed))[4 + j] == dir_bytes(packed)[j]);
    }
    assert(bytes.subrange(dp, dp + dl) =~= dir_bytes(packed));
    let de = dp + dl;
    assert forall|k: int|
        0 <= k < payload_bytes(packed).len() implies bytes.subrange(de, bytes.len() as int)[k]
        == #[trigger] payload_bytes(packed)[k] by {
        assert(bytes.subrange(de, bytes.len() as int)[k] == bytes[de + k]);
        assert(bytes[de + k] == data[4 + dl + k]);
        assert(data[4 + dl + k] == payload_bytes(packed)[k]);
    }
    assert(bytes.subrange(de, bytes.len() as int) =~= payload_bytes(packed));
}


/// Packing keeps every entry well formed and pins each offset to its
/// prefix sum.
#[verifier::rlimit(100)]
#[verifier::spinoff_prover]
proof fn lemma_pack_entries_ok(es: Seq<EntryV>)
    requires
        entries_ok(es),
        pack_ok(es),
    ensures
        entries_ok(pack(es)),
        forall|i: int|
            0 <= i < pack(es).len() ==> (#[trigger] pack(es)[i]).offset == prefix_len1(
                pack(es),
                i,
            ),
{
    let packed = pack(es);
    assert forall|i: int| 0 <= i < packed.len() implies entry_ok(#[trigger] packed[i]) by {
        crate::kfn_data::lemma_prefix_len1_bounds(es, i);
    }
    assert forall|i: int|
        0 <= i < packed.len() implies (#[trigger] packed[i]).offset == prefix_len1(
        packed,
        i,
    ) by {
        lemma_prefix_same(es, packed, i);
    }
}

/// The directory phase against abstract regions: with the count, the
/// records and the payloads in place, the decoder restores the entries.
#[verifier::rlimit(100)]
#[verifier::spinoff_prover]
proof fn lemma_dir_phase_core(bytes: Seq<u8>, hbl: int, packed: Seq<EntryV>, h: HeaderV)
    requires
        0 <= hbl,
        hbl + 4 <= bytes.len(),
        packed.len() <= u32::MAX,
        le32_at(bytes, hbl) == packed.len() as u32,
        bytes.subrange(hbl + 4, hbl + 4 + dir_bytes(packed).len() as int) == dir_bytes(packed),
        bytes.len() == hbl + 4 + dir_bytes(packed).len() + payload_bytes(packed).len(),
        bytes.subrange(hbl + 4 + dir_bytes(packed).len() as int, bytes.len() as int)
            == payload_bytes(packed),
        entries_ok(packed),
        forall|i: int|
            0 <= i < packed.len() ==> (#[trigger] packed[i]).offset == prefix_len1(packed, i),
    ensures
        spec_parse_dir(bytes, hbl, h) == ParseV::Done(
            h,
            shifted(packed, hbl + 4 + dir_bytes(packed).len() as int),
            hbl + 4 + dir_bytes(packed).len() as int,
        ),
{
    let dl = dir_bytes(packed).len() as int;
    lemma_entry_field_bounds(packed);
    assert(spec_parse_dir(bytes, hbl, h) == spec_parse_entries(
        bytes,
        hbl + 4,
        packed.len() as int,
        Seq::<EntryV>::empty(),
        h,
    ));
    lemma_parse_dir_records(bytes, hbl + 4, packed, Seq::<EntryV>::empty(), h);
    assert(Seq::<EntryV>::empty() + stripped(packed) =~= stripped(packed));
    lemma_finalize(bytes, hbl + 4 + dl, packed, h);
}

/// Every field of a well-formed entry fits its directory field.
#[verifier::spinoff_prover]
proof fn lemma_entry_field_bounds(packed: Seq<EntryV>)
    requires
        entries_ok(packed),
        forall|i: int|
            0 <= i < packed.len() ==> (#[trigger] packed[i]).offset == prefix_len1(packed, i),
    ensures
        forall|i: int|
            0 <= i < packed.len() ==> {
                &&& vstd::utf8::encode_utf8((#[trigger] packed[i]).filename).len() <= u32::MAX
                &&& 0 <= packed[i].len1 <= u32::MAX
                &&& 0 <= packed[i].offset <= u32::MAX
                &&& 0 <= packed[i].len2 <= u32::MAX
                &&& 0 <= packed[i].flags <= u32::MAX
            },
{
    assert forall|i: int|
        0 <= i < packed.len() implies {
            &&& vstd::utf8::encode_utf8((#[trigger] packed[i]).filename).len() <= u32::MAX
            &&& 0 <= packed[i].len1 <= u32::MAX
            &&& 0 <= packed[i].offset <= u32::MAX
            &&& 0 <= packed[i].len2 <= u32::MAX
            &&& 0 <= packed[i].flags <= u32::MAX
        } by {
        assert(entry_ok(packed[i]));
        crate::kfn_data::lemma_prefix_len1_bounds(packed, i);
    }
}

/// The directory phase of the round trip: after any prefix, the decoder
/// reads the packed directory and payloads back exactly.
#[verifier::rlimit(100)]
#[verifier::spinoff_prover]
proof fn lemma_roundtrip_dir(h: HeaderV, es: Seq<EntryV>, prefix: Seq<u8>)
    requires
        entries_ok(es),
        pack_ok(es),
        es.len() <= u32::MAX,
    ensures
        ({
            let packed = pack(es);
            let bytes = prefix + data_bytes(packed);
            let de = prefix.len() + 4 + dir_bytes(packed).len() as int;
            spec_parse_dir(bytes, prefix.len() as int, h) == ParseV::Done(
                h,
                shifted(packed, de as int),
                de as int,
            )
        }),
{
    let packed = pack(es);
    let bytes = prefix + data_bytes(packed);
    lemma_data_regions(packed, prefix);
    lemma_pack_entries_ok(es);
    lemma_dir_phase_core(bytes, prefix.len() as int, packed, h);
}

/// The whole round trip: encoding a header and entries and decoding the
/// result succeeds and restores the header fields exactly, and the
/// entries with their filenames, types, sizes and flags unchanged, their
/// offsets repacked contiguously and made absolute against the
/// directory's end, and their payload bytes identical.
pub proof fn lemma_container_roundtrip(h: HeaderV, es: Seq<EntryV>)
    requires
        header_ok(h),
        entries_ok(es),
        pack_ok(es),
        es.len() <= u32::MAX,
    ensures
        ({
            let packed = pack(es);
            let bytes = header_bytes(h) + data_bytes(packed);
            let de = header_bytes(h).len() + 4 + dir_bytes(packed).len() as int;
            spec_parse(bytes) == ParseV::Done(h, shifted(packed, de as int), de as int)
        }),
{
    lemma_roundtrip_header(h, data_bytes(pack(es)));
    lemma_roundtrip_dir(h, es, header_bytes(h));
}

/// Packing keeps the declared sizes, so packed prefix sums are the
/// original ones, and a packed offset is its own prefix sum.
proof fn lemma_prefix_same(es: Seq<EntryV>, packed: Seq<EntryV>, i: int)
    requires
        packed == pack(es),
        0 <= i <= es.len(),
    ensures
        prefix_len1(packed, i) == prefix_len1(es, i),
    decreases i,
{
    if i > 0 {
        lemma_prefix_same(es, packed, i - 1);
    }
}

} // verus!
