//! Small byte-level helpers shared by the container codec: the little-endian
//! u32 encoding used throughout the directory, a hex dump of a byte buffer,
//! and the directory entry model.

pub mod event;

use vstd::prelude::*;

use crate::strutil::push_char;

verus! {

/// The four little-endian bytes of a `u32`, least significant first; this is
/// the byte order of every numeric field in the container.
pub open spec fn u32le(x: u32) -> Seq<u8> {
    seq![
        (x & 0xff) as u8,
        ((x >> 8) & 0xff) as u8,
        ((x >> 16) & 0xff) as u8,
        ((x >> 24) & 0xff) as u8,
    ]
}

/// Reassembling the four little-endian bytes gives back the original value.
pub proof fn lemma_u32le_roundtrip(x: u32)
    ensures
        ((u32le(x)[3] as u32) << 24 | (u32le(x)[2] as u32) << 16 | (u32le(x)[1] as u32) << 8 | (
        u32le(x)[0] as u32)) == x,
{
    assert((((x >> 24) & 0xff) as u8 as u32) << 24 | (((x >> 16) & 0xff) as u8 as u32) << 16 | (((x
        >> 8) & 0xff) as u8 as u32) << 8 | ((x & 0xff) as u8 as u32) == x) by (bit_vector);
}


/// Helper function to slice up an u32 to a vector of u8s.
pub fn u32_to_u8_arr(x: u32) -> (r: Vec<u8>)
    ensures
        r@ == u32le(x),
{
    let b1: u8 = ((x >> 24) & 0xff) as u8;
    let b2: u8 = ((x >> 16) & 0xff) as u8;
    let b3: u8 = ((x >> 8) & 0xff) as u8;
    let b4: u8 = (x & 0xff) as u8;
    let r = vec![b4, b3, b2, b1];
    proof {
        assert(r@ =~= u32le(x));
    }
    r
}

/// The uppercase hex digit for a value below 16.
pub open spec fn hex_digit(n: u8) -> char
    recommends
        n < 16,
{
    if n == 0 {
        '0'
    } else if n == 1 {
        '1'
    } else if n == 2 {
        '2'
    } else if n == 3 {
        '3'
    } else if n == 4 {
        '4'
    } else if n == 5 {
        '5'
    } else if n == 6 {
        '6'
    } else if n == 7 {
        '7'
    } else if n == 8 {
        '8'
    } else if n == 9 {
        '9'
    } else if n == 10 {
        'A'
    } else if n == 11 {
        'B'
    } else if n == 12 {
        'C'
    } else if n == 13 {
        'D'
    } else if n == 14 {
        'E'
    } else {
        'F'
    }
}

/// One byte rendered as `{:X}` would print it: a single digit below 16, two
/// digits otherwise.
pub open spec fn hex_byte(b: u8) -> Seq<char> {
    if b < 16 {
        seq![hex_digit(b)]
    } else {
        seq![hex_digit(b / 16), hex_digit(b % 16)]
    }
}

/// The hex dump of a whole buffer: each byte as `hex_byte` plus a trailing
/// space, the groups separated by one more space.
pub open spec fn hex_dump(bytes: Seq<u8>) -> Seq<char>
    decreases bytes.len(),
{
    if bytes.len() == 0 {
        Seq::<char>::empty()
    } else if bytes.len() == 1 {
        hex_byte(bytes[0]) + seq![' ']
    } else {
        hex_dump(bytes.drop_last()) + seq![' '] + hex_byte(bytes.last()) + seq![' ']
    }
}

fn push_hex_byte(out: &mut String, b: u8)
    ensures
        final (out)@ == old(out)@ + hex_byte(b),
{
    if b >= 16 {
        let hi: u8 = b / 16;
        push_char(out, hex_char_of(hi));
    }
    push_char(out, hex_char_of(b % 16));
    proof {
        if b < 16 {
            assert(out@ =~= old(out)@ + hex_byte(b));
        } else {
            assert(out@ =~= old(out)@ + hex_byte(b));
        }
    }
}

fn hex_char_of(n: u8) -> (c: char)
    requires
        n < 16,
    ensures
        c == hex_digit(n),
{
    match n {
        0 => '0',
        1 => '1',
        2 => '2',
        3 => '3',
        4 => '4',
        5 => '5',
        6 => '6',
        7 => '7',
        8 => '8',
        9 => '9',
        10 => 'A',
        11 => 'B',
        12 => 'C',
        13 => 'D',
        14 => 'E',
        _ => 'F',
    }
}

/// Converting a Vector of u8s HEX to String HEX
pub fn dump_hex(array: &Vec<u8>) -> (r: String)
    ensures
        r@ == hex_dump(array@),
{
    let mut output = String::new();
    let mut i: usize = 0;
    while i < array.len()
        invariant
            i <= array.len(),
            output@ == hex_dump(array@.take(i as int)),
        decreases array.len() - i,
    {
        if i > 0 {
            push_char(&mut output, ' ');
        }
        push_hex_byte(&mut output, array[i]);
        push_char(&mut output, ' ');
        proof {
            let t = array@.take(i + 1 as int);
            assert(t.drop_last() =~= array@.take(i as int));
            assert(t.last() == array@[i as int]);
            if i == 0 {
                assert(output@ =~= hex_dump(array@.take(i + 1 as int)));
            } else {
                assert(output@ =~= hex_dump(array@.take(i + 1 as int)));
            }
        }
        i = i + 1;
    }
    proof {
        assert(array@.take(array@.len() as int) =~= array@);
    }
    output
}

/// File types, that indicate what kind of files can occur in a KFN file.
#[derive(Debug, Copy, Clone, PartialEq, Eq, Structural)]
pub enum FileType {
    SongIni,
    Music,
    Image,
    Font,
    Video,
    INVALID,
}

/// The numeric code of a file type in the directory; `INVALID` writes as 0.
pub open spec fn file_type_code(t: FileType) -> u32 {
    match t {
        FileType::SongIni => 1,
        FileType::Music => 2,
        FileType::Image => 3,
        FileType::Font => 4,
        FileType::Video => 5,
        FileType::INVALID => 0,
    }
}

/// The file type a numeric code stands for; unrecognized codes decode as
/// `INVALID`.
pub open spec fn file_type_of_code(n: u32) -> FileType {
    if n == 1 {
        FileType::SongIni
    } else if n == 2 {
        FileType::Music
    } else if n == 3 {
        FileType::Image
    } else if n == 4 {
        FileType::Font
    } else if n == 5 {
        FileType::Video
    } else {
        FileType::INVALID
    }
}

impl FileType {
    /// Helper to read the file type in the directory.
    pub fn from(numeric: u32) -> (r: Self)
        ensures
            r == file_type_of_code(numeric),
    {
        match numeric {
            1 => FileType::SongIni,
            2 => FileType::Music,
            3 => FileType::Image,
            4 => FileType::Font,
            5 => FileType::Video,
            _ => FileType::INVALID,
        }
    }

    /// The numeric code written to the directory for this file type.
    pub fn into(self) -> (r: u32)
        ensures
            r == file_type_code(self),
    {
        match self {
            FileType::SongIni => 1,
            FileType::Music => 2,
            FileType::Image => 3,
            FileType::Font => 4,
            FileType::Video => 5,
            FileType::INVALID => 0,
        }
    }
}

impl Default for FileType {
    /// The placeholder file type.
    fn default() -> (r: Self)
        ensures
            r == FileType::INVALID,
    {
        FileType::INVALID
    }
}

/// Representing a file entry in the KFN file.
#[derive(Debug, Clone, PartialEq)]
pub struct Entry {
    pub file_type: FileType,
    pub filename: String,
    pub len1: usize,
    pub offset: usize,
    pub len2: usize,
    pub flags: usize,
    pub file_bin: Vec<u8>,
}

/// The mathematical image of a directory entry.
pub struct EntryV {
    pub file_type: FileType,
    pub filename: Seq<char>,
    pub len1: int,
    pub offset: int,
    pub len2: int,
    pub flags: int,
    pub file_bin: Seq<u8>,
}

impl View for Entry {
    type V = EntryV;

    open spec fn view(&self) -> EntryV {
        EntryV {
            file_type: self.file_type,
            filename: self.filename@,
            len1: self.len1 as int,
            offset: self.offset as int,
            len2: self.len2 as int,
            flags: self.flags as int,
            file_bin: self.file_bin@,
        }
    }
}

/// The views of a vector of entries.
pub open spec fn entries_view(es: Seq<Entry>) -> Seq<EntryV> {
    es.map_values(|e: Entry| e@)
}


} // verus!
