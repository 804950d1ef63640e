//! The header of the KFN file, containing non-essential data for playing,
//! like the artist or title, and its canonical binary rendering: a fixed
//! sequence of tagged records, each either an inline `u32` value (kind 1) or
//! a length-prefixed UTF-8 string (kind 2), closed by the `ENDH` sentinel.

use vstd::prelude::*;

use crate::helpers::u32le;

verus! {

/// Header, containing information about the KFN file.
#[derive(Debug, Clone, PartialEq)]
pub struct KfnHeader {
    /// Difficulty for men. Value between 1 to 5.
    pub diff_men: u32,
    /// Difficulty for women. Value between 1 to 5.
    pub diff_women: u32,
    pub genre: u32,
    pub sftv: u32,
    pub musl: u32,
    pub anme: u32,
    pub kfn_type: u32,
    pub flid: String,
    pub language: String,
    pub album: String,
    pub title: String,
    pub artist: String,
    pub composer: String,
    pub copyright: String,
    pub source_file: String,
    pub year: String,
    pub trak: String,
    pub rght: u32,
    pub prov: u32,
    pub karafunizer: String,
    pub idus: String,
}

/// The mathematical image of a header: the same fields with the strings as
/// character sequences.
pub struct HeaderV {
    pub diff_men: u32,
    pub diff_women: u32,
    pub genre: u32,
    pub sftv: u32,
    pub musl: u32,
    pub anme: u32,
    pub kfn_type: u32,
    pub flid: Seq<char>,
    pub language: Seq<char>,
    pub album: Seq<char>,
    pub title: Seq<char>,
    pub artist: Seq<char>,
    pub composer: Seq<char>,
    pub copyright: Seq<char>,
    pub source_file: Seq<char>,
    pub year: Seq<char>,
    pub trak: Seq<char>,
    pub rght: u32,
    pub prov: u32,
    pub karafunizer: Seq<char>,
    pub idus: Seq<char>,
}

impl View for KfnHeader {
    type V = HeaderV;

    open spec fn view(&self) -> HeaderV {
        HeaderV {
            diff_men: self.diff_men,
            diff_women: self.diff_women,
            genre: self.genre,
            sftv: self.sftv,
            musl: self.musl,
            anme: self.anme,
            kfn_type: self.kfn_type,
            flid: self.flid@,
            language: self.language@,
            album: self.album@,
            title: self.title@,
            artist: self.artist@,
            composer: self.composer@,
            copyright: self.copyright@,
            source_file: self.source_file@,
            year: self.year@,
            trak: self.trak@,
            rght: self.rght,
            prov: self.prov,
            karafunizer: self.karafunizer@,
            idus: self.idus@,
        }
    }
}

/// The header with every numeric field zero and every string field empty.
pub open spec fn empty_header() -> HeaderV {
    HeaderV {
        diff_men: 0,
        diff_women: 0,
        genre: 0,
        sftv: 0,
        musl: 0,
        anme: 0,
        kfn_type: 0,
        flid: Seq::<char>::empty(),
        language: Seq::<char>::empty(),
        album: Seq::<char>::empty(),
        title: Seq::<char>::empty(),
        artist: Seq::<char>::empty(),
        composer: Seq::<char>::empty(),
        copyright: Seq::<char>::empty(),
        source_file: Seq::<char>::empty(),
        year: Seq::<char>::empty(),
        trak: Seq::<char>::empty(),
        rght: 0,
        prov: 0,
        karafunizer: Seq::<char>::empty(),
        idus: Seq::<char>::empty(),
    }
}

impl Default for KfnHeader {
    /// A header with every numeric field zero and every string field empty.
    fn default() -> (r: Self)
        ensures
            r@ == empty_header(),
    {
        let r = KfnHeader {
            diff_men: 0,
            diff_women: 0,
            genre: 0,
            sftv: 0,
            musl: 0,
            anme: 0,
            kfn_type: 0,
            flid: String::new(),
            language: String::new(),
            album: String::new(),
            title: String::new(),
            artist: String::new(),
            composer: String::new(),
            copyright: String::new(),
            source_file: String::new(),
            year: String::new(),
            trak: String::new(),
            rght: 0,
            prov: 0,
            karafunizer: String::new(),
            idus: String::new(),
        };
        proof {
            assert(r@.flid =~= empty_header().flid);
            assert(r@.language =~= empty_header().language);
            assert(r@.album =~= empty_header().album);
            assert(r@.title =~= empty_header().title);
            assert(r@.artist =~= empty_header().artist);
            assert(r@.composer =~= empty_header().composer);
            assert(r@.copyright =~= empty_header().copyright);
            assert(r@.source_file =~= empty_header().source_file);
            assert(r@.year =~= empty_header().year);
            assert(r@.trak =~= empty_header().trak);
            assert(r@.karafunizer =~= empty_header().karafunizer);
            assert(r@.idus =~= empty_header().idus);
        }
        r
    }
}

/// The four ASCII bytes of the magic tag.
pub open spec fn magic_bytes() -> Seq<u8> {
    seq![('K' as u8), ('F' as u8), ('N' as u8), ('B' as u8)]
}

/// One numeric header record: tag, kind byte 1, inline little-endian value.
pub open spec fn rec_num(tag: Seq<u8>, v: u32) -> Seq<u8> {
    tag + seq![1u8] + u32le(v)
}

/// One string header record: tag, kind byte 2, little-endian byte length,
/// then the UTF-8 bytes of the string.
pub open spec fn rec_str(tag: Seq<u8>, s: Seq<char>) -> Seq<u8> {
    tag + seq![2u8] + u32le(vstd::utf8::encode_utf8(s).len() as u32) + vstd::utf8::encode_utf8(s)
}

/// The closing record: the `ENDH` tag with the all-ones sentinel value.
pub open spec fn endh_bytes() -> Seq<u8> {
    seq![('E' as u8), ('N' as u8), ('D' as u8), ('H' as u8)] + seq![1u8] + u32le(0xffffffffu32)
}

/// A header can be length-prefixed: every string's UTF-8 form fits a `u32`.
pub open spec fn header_ok(h: HeaderV) -> bool {
    &&& vstd::utf8::encode_utf8(h.flid).len() <= u32::MAX
    &&& vstd::utf8::encode_utf8(h.language).len() <= u32::MAX
    &&& vstd::utf8::encode_utf8(h.album).len() <= u32::MAX
    &&& vstd::utf8::encode_utf8(h.title).len() <= u32::MAX
    &&& vstd::utf8::encode_utf8(h.artist).len() <= u32::MAX
    &&& vstd::utf8::encode_utf8(h.composer).len() <= u32::MAX
    &&& vstd::utf8::encode_utf8(h.copyright).len() <= u32::MAX
    &&& vstd::utf8::encode_utf8(h.source_file).len() <= u32::MAX
    &&& vstd::utf8::encode_utf8(h.year).len() <= u32::MAX
    &&& vstd::utf8::encode_utf8(h.trak).len() <= u32::MAX
    &&& vstd::utf8::encode_utf8(h.karafunizer).len() <= u32::MAX
    &&& vstd::utf8::encode_utf8(h.idus).len() <= u32::MAX
}

/// The full canonical binary rendering of a header: the magic tag, the
/// numeric records, the string records, and the closing `ENDH` record, in
/// this fixed order.
pub open spec fn header_bytes(h: HeaderV) -> Seq<u8> {
    magic_bytes() + rec_num(seq![('D' as u8), ('I' as u8), ('F' as u8), ('M' as u8)], h.diff_men) + rec_num(
        seq![('D' as u8), ('I' as u8), ('F' as u8), ('W' as u8)],
        h.diff_women,
    ) + rec_num(seq![('G' as u8), ('N' as u8), ('R' as u8), ('E' as u8)], h.genre) + rec_num(
        seq![('S' as u8), ('F' as u8), ('T' as u8), ('V' as u8)],
        h.sftv,
    ) + rec_num(seq![('M' as u8), ('U' as u8), ('S' as u8), ('L' as u8)], h.musl) + rec_num(
        seq![('A' as u8), ('N' as u8), ('M' as u8), ('E' as u8)],
        h.anme,
    ) + rec_num(seq![('T' as u8), ('Y' as u8), ('P' as u8), ('E' as u8)], h.kfn_type) + rec_str(
        seq![('F' as u8), ('L' as u8), ('I' as u8), ('D' as u8)],
        h.flid,
    ) + rec_str(seq![('L' as u8), ('A' as u8), ('N' as u8), ('G' as u8)], h.language) + rec_str(
        seq![('T' as u8), ('I' as u8), ('T' as u8), ('L' as u8)],
        h.title,
    ) + rec_str(seq![('A' as u8), ('R' as u8), ('T' as u8), ('S' as u8)], h.artist) + rec_str(
        seq![('A' as u8), ('L' as u8), ('B' as u8), ('M' as u8)],
        h.album,
    ) + rec_str(seq![('C' as u8), ('O' as u8), ('M' as u8), ('P' as u8)], h.composer) + rec_str(
        seq![('C' as u8), ('O' as u8), ('P' as u8), ('Y' as u8)],
        h.copyright,
    ) + rec_str(seq![('S' as u8), ('O' as u8), ('R' as u8), ('C' as u8)], h.source_file) + rec_str(
        seq![('Y' as u8), ('E' as u8), ('A' as u8), ('R' as u8)],
        h.year,
    ) + rec_str(seq![('T' as u8), ('R' as u8), ('A' as u8), ('K' as u8)], h.trak) + rec_str(
        seq![('K' as u8), ('F' as u8), ('N' as u8), ('Z' as u8)],
        h.karafunizer,
    ) + rec_num(seq![('R' as u8), ('G' as u8), ('H' as u8), ('T' as u8)], h.rght) + rec_num(
        seq![('P' as u8), ('R' as u8), ('O' as u8), ('V' as u8)],
        h.prov,
    ) + rec_str(seq![('I' as u8), ('D' as u8), ('U' as u8), ('S' as u8)], h.idus) + endh_bytes()
}

/// Appends the four bytes of a record tag.
fn push_tag(data: &mut Vec<u8>, a: u8, b: u8, c: u8, d: u8)
    ensures
        final (data)@ == old(data)@ + seq![a, b, c, d],
{
    data.push(a);
    data.push(b);
    data.push(c);
    data.push(d);
    proof {
        assert(data@ =~= old(data)@ + seq![a, b, c, d]);
    }
}

/// Appends the four little-endian bytes of a value.
pub fn push_u32(data: &mut Vec<u8>, v: u32)
    ensures
        final (data)@ == old(data)@ + u32le(v),
{
    data.push((v & 0xff) as u8);
    data.push(((v >> 8) & 0xff) as u8);
    data.push(((v >> 16) & 0xff) as u8);
    data.push(((v >> 24) & 0xff) as u8);
    proof {
        assert(data@ =~= old(data)@ + u32le(v));
    }
}

fn push_num_record(data: &mut Vec<u8>, a: u8, b: u8, c: u8, d: u8, v: u32)
    ensures
        final (data)@ == old(data)@ + rec_num(seq![a, b, c, d], v),
{
    push_tag(data, a, b, c, d);
    data.push(1u8);
    push_u32(data, v);
    proof {
        assert(data@ =~= old(data)@ + rec_num(seq![a, b, c, d], v));
    }
}

fn push_str_record(data: &mut Vec<u8>, a: u8, b: u8, c: u8, d: u8, s: &String)
    requires
        vstd::utf8::encode_utf8(s@).len() <= u32::MAX,
    ensures
        final (data)@ == old(data)@ + rec_str(seq![a, b, c, d], s@),
{
    push_tag(data, a, b, c, d);
    data.push(2u8);
    let mut bytes = s.as_str().as_bytes_vec();
    let n = bytes.len();
    push_u32(data, n as u32);
    data.append(&mut bytes);
    proof {
        assert(data@ =~= old(data)@ + rec_str(seq![a, b, c, d], s@));
    }
}

impl KfnHeader {
    /// Renders the header in its canonical binary form, magic tag included.
    pub fn to_binary(&self) -> (r: Vec<u8>)
        requires
            header_ok(self@),
        ensures
            r@ == header_bytes(self@),
    {
        let mut data: Vec<u8> = Vec::new();
        push_tag(&mut data, ('K' as u8), ('F' as u8), ('N' as u8), ('B' as u8));
        proof {
            assert(data@ =~= magic_bytes());
        }
        push_num_record(&mut data, ('D' as u8), ('I' as u8), ('F' as u8), ('M' as u8), self.diff_men);
        push_num_record(&mut data, ('D' as u8), ('I' as u8), ('F' as u8), ('W' as u8), self.diff_women);
        push_num_record(&mut data, ('G' as u8), ('N' as u8), ('R' as u8), ('E' as u8), self.genre);
        push_num_record(&mut data, ('S' as u8), ('F' as u8), ('T' as u8), ('V' as u8), self.sftv);
        push_num_record(&mut data, ('M' as u8), ('U' as u8), ('S' as u8), ('L' as u8), self.musl);
        push_num_record(&mut data, ('A' as u8), ('N' as u8), ('M' as u8), ('E' as u8), self.anme);
        push_num_record(&mut data, ('T' as u8), ('Y' as u8), ('P' as u8), ('E' as u8), self.kfn_type);
        push_str_record(&mut data, ('F' as u8), ('L' as u8), ('I' as u8), ('D' as u8), &self.flid);
        push_str_record(&mut data, ('L' as u8), ('A' as u8), ('N' as u8), ('G' as u8), &self.language);
        push_str_record(&mut data, ('T' as u8), ('I' as u8), ('T' as u8), ('L' as u8), &self.title);
        push_str_record(&mut data, ('A' as u8), ('R' as u8), ('T' as u8), ('S' as u8), &self.artist);
        push_str_record(&mut data, ('A' as u8), ('L' as u8), ('B' as u8), ('M' as u8), &self.album);
        push_str_record(&mut data, ('C' as u8), ('O' as u8), ('M' as u8), ('P' as u8), &self.composer);
        push_str_record(&mut data, ('C' as u8), ('O' as u8), ('P' as u8), ('Y' as u8), &self.copyright);
        push_str_record(&mut data, ('S' as u8), ('O' as u8), ('R' as u8), ('C' as u8), &self.source_file);
        push_str_record(&mut data, ('Y' as u8), ('E' as u8), ('A' as u8), ('R' as u8), &self.year);
        push_str_record(&mut data, ('T' as u8), ('R' as u8), ('A' as u8), ('K' as u8), &self.trak);
        push_str_record(&mut data, ('K' as u8), ('F' as u8), ('N' as u8), ('Z' as u8), &self.karafunizer);
        push_num_record(&mut data, ('R' as u8), ('G' as u8), ('H' as u8), ('T' as u8), self.rght);
        push_num_record(&mut data, ('P' as u8), ('R' as u8), ('O' as u8), ('V' as u8), self.prov);
        push_str_record(&mut data, ('I' as u8), ('D' as u8), ('U' as u8), ('S' as u8), &self.idus);
        push_tag(&mut data, ('E' as u8), ('N' as u8), ('D' as u8), ('H' as u8));
        data.push(1u8);
        push_u32(&mut data, 0xffffffffu32);
        proof {
            assert(data@ =~= header_bytes(self@));
        }
        data
    }
}

} // verus!
