//! The main data of the KFN file: the directory of entries with their
//! payload blobs, and the embedded Song.ini. The directory's binary form is
//! the entry count, one record per entry, then the payload blobs in entry
//! order; before encoding, offsets are repacked contiguously.

use vstd::prelude::*;

use crate::helpers::{entries_view, file_type_code, u32le, Entry, EntryV, FileType};
use crate::ini_doc::{doc_raw, ini_doc_of, ini_text_of};
use crate::kfn_ini::KfnIni;
use crate::strutil::str_eq;

verus! {

/// An entry that can be written to the directory: every numeric field fits
/// a `u32`, and the declared size is the payload's size.
pub open spec fn entry_ok(e: EntryV) -> bool {
    &&& vstd::utf8::encode_utf8(e.filename).len() <= u32::MAX
    &&& 0 <= e.len1 <= u32::MAX
    &&& 0 <= e.offset <= u32::MAX
    &&& 0 <= e.len2 <= u32::MAX
    &&& 0 <= e.flags <= u32::MAX
    &&& e.len1 == e.file_bin.len()
}

/// All entries can be written.
pub open spec fn entries_ok(es: Seq<EntryV>) -> bool {
    forall|i: int| 0 <= i < es.len() ==> entry_ok(#[trigger] es[i])
}

/// The total declared size of the first `i` entries.
pub open spec fn prefix_len1(es: Seq<EntryV>, i: int) -> int
    decreases i,
{
    if i <= 0 {
        0
    } else {
        prefix_len1(es, i - 1) + es[i - 1].len1
    }
}

/// The entries with their offsets repacked contiguously: entry `i` starts
/// where the payloads of the entries before it end.
pub open spec fn pack(es: Seq<EntryV>) -> Seq<EntryV> {
    Seq::new(
        es.len(),
        |i: int|
            EntryV {
                file_type: es[i].file_type,
                filename: es[i].filename,
                len1: es[i].len1,
                offset: prefix_len1(es, i),
                len2: es[i].len2,
                flags: es[i].flags,
                file_bin: es[i].file_bin,
            },
    )
}

/// Every packed offset fits the directory's `u32` fields (the bound on the
/// total covers every prefix).
pub open spec fn pack_ok(es: Seq<EntryV>) -> bool {
    prefix_len1(es, es.len() as int) <= u32::MAX
}

/// One directory record: length-prefixed filename, then the type code and
/// the four numeric fields, all little-endian.
pub open spec fn entry_record(e: EntryV) -> Seq<u8> {
    u32le(vstd::utf8::encode_utf8(e.filename).len() as u32) + vstd::utf8::encode_utf8(e.filename)
        + u32le(file_type_code(e.file_type)) + u32le(e.len1 as u32) + u32le(e.offset as u32)
        + u32le(e.len2 as u32) + u32le(e.flags as u32)
}

/// The directory records of all entries, in order.
pub open spec fn dir_bytes(es: Seq<EntryV>) -> Seq<u8>
    decreases es.len(),
{
    if es.len() == 0 {
        Seq::<u8>::empty()
    } else {
        dir_bytes(es.drop_last()) + entry_record(es.last())
    }
}

/// The payload blobs of all entries, concatenated in entry order.
pub open spec fn payload_bytes(es: Seq<EntryV>) -> Seq<u8>
    decreases es.len(),
{
    if es.len() == 0 {
        Seq::<u8>::empty()
    } else {
        payload_bytes(es.drop_last()) + es.last().file_bin
    }
}

/// The binary form of the whole data block: entry count, directory,
/// payloads.
pub open spec fn data_bytes(es: Seq<EntryV>) -> Seq<u8> {
    u32le(es.len() as u32) + dir_bytes(es) + payload_bytes(es)
}

/// Prefix sums start at zero and never decrease.
pub proof fn lemma_prefix_len1_bounds(es: Seq<EntryV>, i: int)
    requires
        0 <= i <= es.len(),
        entries_ok(es),
    ensures
        0 <= prefix_len1(es, i) <= prefix_len1(es, es.len() as int),
{
    lemma_prefix_nonneg(es, i);
    lemma_prefix_mono(es, i);
}

proof fn lemma_prefix_nonneg(es: Seq<EntryV>, i: int)
    requires
        0 <= i <= es.len(),
        entries_ok(es),
    ensures
        prefix_len1(es, i) >= 0,
    decreases i,
{
    if i > 0 {
        lemma_prefix_nonneg(es, i - 1);
        assert(entry_ok(es[i - 1]));
    }
}

proof fn lemma_prefix_mono(es: Seq<EntryV>, i: int)
    requires
        0 <= i <= es.len(),
        entries_ok(es),
    ensures
        prefix_len1(es, i) <= prefix_len1(es, es.len() as int),
    decreases es.len() - i,
{
    if i < es.len() {
        assert(entry_ok(es[i]));
        lemma_prefix_mono(es, i + 1);
    }
}

/// The packing invariant: packed offsets start at zero and are contiguous,
/// each entry starting where the previous payload ends.
pub proof fn lemma_packed_offsets(es: Seq<EntryV>)
    ensures
        es.len() > 0 ==> pack(es)[0].offset == 0,
        forall|i: int|
            1 <= i < es.len() ==> (#[trigger] pack(es)[i]).offset == pack(es)[i - 1].offset + pack(
                es,
            )[i - 1].len1,
{
}

/// KfnData depicting the directory contents of a KFN file.
#[derive(Debug, Clone, PartialEq)]
pub struct KfnData {
    /// The location of the Songs.ini file.
    pub path_song_ini: String,
    /// Files in the directory/library.
    pub entries: Vec<Entry>,
    /// End of the directory header.
    pub offset_dir_end: usize,
    /// Representation of the last file of the directory, the Song.ini.
    pub song: KfnIni,
}

impl KfnData {
    /// Creating a new KfnData with default values.
    pub fn new() -> (r: Self)
        ensures
            r.path_song_ini@ == Seq::<char>::empty(),
            r.entries@ == Seq::<Entry>::empty(),
            r.offset_dir_end == 0,
            doc_raw(r.song.ini) == Seq::<(Seq<char>, Seq<(Seq<char>, Seq<char>)>)>::empty(),
            r.song.effs@ == Seq::<Eff2>::empty(),
    {
        let r = KfnData {
            path_song_ini: String::new(),
            entries: Vec::new(),
            offset_dir_end: 0,
            song: KfnIni::new(),
        };
        proof {
            assert(r.entries@ =~= Seq::<Entry>::empty());
        }
        r
    }

    /// The position of the first entry named `Song.ini`, if any.
    pub fn find_song_ini(&self) -> (r: Option<usize>)
        ensures
            r matches Some(i) ==> i < self.entries.len() && self.entries@[i as int].filename@
                == "Song.ini"@ && (forall|k: int|
                0 <= k < i ==> (#[trigger] self.entries@[k]).filename@ != "Song.ini"@),
            r is None ==> forall|k: int|
                0 <= k < self.entries.len() ==> (#[trigger] self.entries@[k]).filename@
                    != "Song.ini"@,
    {
        let mut i: usize = 0;
        while i < self.entries.len()
            invariant
                i <= self.entries.len(),
                forall|k: int| 0 <= k < i ==> (#[trigger] self.entries@[k]).filename@ != "Song.ini"@,
            decreases self.entries.len() - i,
        {
            if str_eq(self.entries[i].filename.as_str(), "Song.ini") {
                return Some(i);
            }
            i = i + 1;
        }
        None
    }

    /// Get the Songs.ini file from the entries: a copy of the first entry
    /// named `Song.ini`.
    pub fn get_songs_ini(&self) -> (r: Option<Entry>)
        ensures
            r matches Some(e) ==> (exists|i: int|
                0 <= i < self.entries@.len() && (#[trigger] self.entries@[i]).filename@
                    == "Song.ini"@ && (forall|k: int|
                    0 <= k < i ==> (#[trigger] self.entries@[k]).filename@ != "Song.ini"@) && e@
                    == self.entries@[i]@),
            r is None ==> forall|k: int|
                0 <= k < self.entries.len() ==> (#[trigger] self.entries@[k]).filename@
                    != "Song.ini"@,
    {
        match self.find_song_ini() {
            Some(i) => {
                let e = clone_entry(&self.entries[i]);
                proof {
                    assert((self.entries@[i as int]).filename@ == "Song.ini"@);
                }
                Some(e)
            },
            None => None,
        }
    }

    /// Used before writing to binary, to readjust the offsets that became
    /// misaligned: repacks all offsets contiguously from zero. Every
    /// post-pack offset is the sum of the declared sizes before it.
    pub fn adjust_dir_offset(&mut self)
        requires
            entries_ok(entries_view(old(self).entries@)),
            pack_ok(entries_view(old(self).entries@)),
        ensures
            entries_view(final (self).entries@) == pack(entries_view(old(self).entries@)),
            final (self).entries@.len() == old(self).entries@.len(),
            final (self).path_song_ini == old(self).path_song_ini,
            final (self).offset_dir_end == old(self).offset_dir_end,
            final (self).song == old(self).song,
            final (self).entries@.len() > 0 ==> final (self).entries@[0].offset == 0,
            forall|i: int|
                1 <= i < final (self).entries@.len() ==> (#[trigger] final (
                self).entries@[i]).offset == final (self).entries@[i - 1].offset + final (
                self).entries@[i - 1].len1,
    {
        let ghost es0 = entries_view(self.entries@);
        let mut acc: usize = 0;
        let mut i: usize = 0;
        while i < self.entries.len()
            invariant
                i <= self.entries.len(),
                es0 == entries_view(old(self).entries@),
                entries_ok(es0),
                pack_ok(es0),
                self.entries@.len() == old(self).entries@.len(),
                acc == prefix_len1(es0, i as int),
                self.path_song_ini == old(self).path_song_ini,
                self.offset_dir_end == old(self).offset_dir_end,
                self.song == old(self).song,
                forall|k: int|
                    i <= k < self.entries@.len() ==> #[trigger] self.entries@[k] == old(
                    self).entries@[k],
                forall|k: int|
                    0 <= k < i ==> #[trigger] self.entries@[k]@ == pack(es0)[k],
            decreases self.entries.len() - i,
        {
            proof {
                lemma_prefix_len1_bounds(es0, i + 1 as int);
                assert(es0[i as int] == old(self).entries@[i as int]@);
            }
            let len1 = self.entries[i].len1;
            let ghost prev = self.entries@;
            let mut e = self.entries.remove(i);
            e.offset = acc;
            self.entries.insert(i, e);
            acc = acc + len1;
            proof {
                assert(forall|k: int|
                    0 <= k < self.entries@.len() && k != i ==> #[trigger] self.entries@[k]
                        == prev[k]);
                assert(self.entries@[i as int]@ == pack(es0)[i as int]);
            }
            i = i + 1;
        }
        proof {
            assert(entries_view(self.entries@) =~= pack(es0));
            lemma_packed_offsets(es0);
            if self.entries@.len() > 0 {
                assert(entries_view(self.entries@)[0] == self.entries@[0]@);
            }
            assert forall|k: int|
                1 <= k < self.entries@.len() implies (#[trigger] self.entries@[k]).offset
                == self.entries@[k - 1].offset + self.entries@[k - 1].len1 by {
                assert(entries_view(self.entries@)[k] == self.entries@[k]@);
                assert(entries_view(self.entries@)[k - 1] == self.entries@[k - 1]@);
                assert(pack(es0)[k].offset == pack(es0)[k - 1].offset + pack(es0)[k - 1].len1);
            }
        }
    }

    /// Adds an entry to the directory.
    pub fn add_entry(&mut self, new_entry: Entry)
        ensures
            final (self).entries@ == old(self).entries@.push(new_entry),
            final (self).path_song_ini == old(self).path_song_ini,
            final (self).offset_dir_end == old(self).offset_dir_end,
            final (self).song == old(self).song,
    {
        self.entries.push(new_entry);
    }

    /// Removing an entry from the data. Later entries give back the
    /// removed payload's size in their offsets, stopping at zero.
    pub fn remove_entry_by_id(&mut self, id: usize)
        requires
            id < old(self).entries@.len(),
        ensures
            removed_at_rel(old(self).entries@, final (self).entries@, id as int),
            final (self).path_song_ini == old(self).path_song_ini,
            final (self).offset_dir_end == old(self).offset_dir_end,
            final (self).song == old(self).song,
    {
        let removed_len = self.entries[id].len1;
        self.entries.remove(id);
        let mut i: usize = id;
        while i < self.entries.len()
            invariant
                id <= i <= self.entries.len(),
                self.entries@.len() == old(self).entries@.len() - 1,
                forall|k: int| 0 <= k < id ==> #[trigger] self.entries@[k] == old(self).entries@[k],
                removed_len == old(self).entries@[id as int].len1,
                forall|k: int|
                    id <= k < i ==> (#[trigger] self.entries@[k]).filename == old(
                    self).entries@[k + 1].filename && self.entries@[k].file_type == old(
                    self).entries@[k + 1].file_type && self.entries@[k].len1 == old(
                    self).entries@[k + 1].len1 && self.entries@[k].len2 == old(
                    self).entries@[k + 1].len2 && self.entries@[k].flags == old(
                    self).entries@[k + 1].flags && self.entries@[k].file_bin == old(
                    self).entries@[k + 1].file_bin && self.entries@[k].offset == sub_floor(
                    old(self).entries@[k + 1].offset as int,
                    old(self).entries@[id as int].len1 as int,
                ),
                forall|k: int|
                    i <= k < self.entries@.len() ==> #[trigger] self.entries@[k] == old(
                    self).entries@[k + 1],
                self.path_song_ini == old(self).path_song_ini,
                self.offset_dir_end == old(self).offset_dir_end,
                self.song == old(self).song,
            decreases self.entries.len() - i,
        {
            let mut e = self.entries.remove(i);
            if e.offset >= removed_len {
                e.offset = e.offset - removed_len;
            } else {
                e.offset = 0;
            }
            self.entries.insert(i, e);
            i = i + 1;
        }
    }

    /// Gets the next available offset for a new entry: where the last
    /// entry's payload ends, relative to the directory's end.
    pub fn get_next_offset(&self) -> (r: usize)
        requires
            self.entries@.len() > 0 ==> self.entries@.last().offset + self.entries@.last().len1
                <= usize::MAX,
        ensures
            self.entries@.len() == 0 ==> r == 0,
            self.entries@.len() > 0 ==> r == sub_floor(
                self.entries@.last().offset + self.entries@.last().len1,
                self.offset_dir_end as int,
            ),
    {
        if self.entries.len() == 0 {
            return 0;
        }
        let last_index = self.entries.len() - 1;
        let total = self.entries[last_index].offset + self.entries[last_index].len1;
        if total >= self.offset_dir_end {
            total - self.offset_dir_end
        } else {
            0
        }
    }

    /// The binary form of the data block: repacks the offsets, then writes
    /// the entry count, the directory records and the payload blobs.
    #[verifier::rlimit(100)]
    #[verifier::spinoff_prover]
    pub fn to_binary(&mut self) -> (r: Vec<u8>)
        requires
            entries_ok(entries_view(old(self).entries@)),
            pack_ok(entries_view(old(self).entries@)),
            old(self).entries@.len() <= u32::MAX,
        ensures
            r@ == data_bytes(pack(entries_view(old(self).entries@))),
            entries_view(final (self).entries@) == pack(entries_view(old(self).entries@)),
            final (self).path_song_ini == old(self).path_song_ini,
            final (self).offset_dir_end == old(self).offset_dir_end,
            final (self).song == old(self).song,
    {
        self.adjust_dir_offset();
        let ghost pes = pack(entries_view(old(self).entries@));
        proof {
            assert forall|i: int| 0 <= i < pes.len() implies entry_ok(#[trigger] pes[i]) by {
                lemma_prefix_len1_bounds(entries_view(old(self).entries@), i);
            }
        }
        let mut data: Vec<u8> = Vec::new();
        crate::kfn_header::push_u32(&mut data, self.entries.len() as u32);
        let mut i: usize = 0;
        while i < self.entries.len()
            invariant
                i <= self.entries.len(),
                pes == pack(entries_view(old(self).entries@)),
                entries_view(self.entries@) == pes,
                entries_ok(pes),
                data@ == u32le(pes.len() as u32) + dir_bytes(pes.take(i as int)),
            decreases self.entries.len() - i,
        {
            proof {
                assert(self.entries@[i as int]@ == pes[i as int]);
                assert(pes.take(i + 1 as int).drop_last() =~= pes.take(i as int));
                assert(pes.take(i + 1 as int).last() == pes[i as int]);
            }
            let e = &self.entries[i];
            let mut name_bytes = e.filename.as_str().as_bytes_vec();
            let nlen = name_bytes.len();
            crate::kfn_header::push_u32(&mut data, nlen as u32);
            data.append(&mut name_bytes);
            crate::kfn_header::push_u32(&mut data, e.file_type.into());
            crate::kfn_header::push_u32(&mut data, e.len1 as u32);
            crate::kfn_header::push_u32(&mut data, e.offset as u32);
            crate::kfn_header::push_u32(&mut data, e.len2 as u32);
            crate::kfn_header::push_u32(&mut data, e.flags as u32);
            proof {
                assert(data@ =~= u32le(pes.len() as u32) + dir_bytes(pes.take(i + 1 as int)));
            }
            i = i + 1;
        }
        proof {
            assert(pes.take(self.entries.len() as int) =~= pes);
        }
        let ghost dirlen = data@.len();
        let mut i2: usize = 0;
        while i2 < self.entries.len()
            invariant
                i2 <= self.entries.len(),
                pes == pack(entries_view(old(self).entries@)),
                entries_view(self.entries@) == pes,
                data@ == u32le(pes.len() as u32) + dir_bytes(pes) + payload_bytes(
                    pes.take(i2 as int),
                ),
            decreases self.entries.len() - i2,
        {
            proof {
                assert(self.entries@[i2 as int]@ == pes[i2 as int]);
                assert(pes.take(i2 + 1 as int).drop_last() =~= pes.take(i2 as int));
                assert(pes.take(i2 + 1 as int).last() == pes[i2 as int]);
            }
            let mut blob = clone_bytes(&self.entries[i2].file_bin);
            data.append(&mut blob);
            proof {
                assert(data@ =~= u32le(pes.len() as u32) + dir_bytes(pes) + payload_bytes(
                    pes.take(i2 + 1 as int),
                ));
            }
            i2 = i2 + 1;
        }
        proof {
            assert(pes.take(self.entries.len() as int) =~= pes);
        }
        data
    }

    /// Reads the Song.ini entry's bytes as INI text into the embedded
    /// document. Fails when the entry is missing, is not UTF-8, or is not
    /// well-formed INI.
    pub fn read_ini(&mut self) -> (r: Result<(), crate::KfnParseError>)
        ensures
            final (self).entries == old(self).entries,
            final (self).path_song_ini == old(self).path_song_ini,
            final (self).offset_dir_end == old(self).offset_dir_end,
            final (self).song.effs == old(self).song.effs,
            r matches Ok(_) ==> (exists|i: int|
                0 <= i < old(self).entries@.len() && (#[trigger] old(self).entries@[i]).filename@
                    == "Song.ini"@ && (forall|k: int|
                    0 <= k < i ==> (#[trigger] old(self).entries@[k]).filename@ != "Song.ini"@)
                    && vstd::utf8::valid_utf8(old(self).entries@[i].file_bin@) && ini_doc_of(
                    vstd::utf8::decode_utf8(old(self).entries@[i].file_bin@),
                ) == Some(doc_raw(final (self).song.ini))),
            r is Err ==> final (self).song == old(self).song,
            r matches Err(e) ==> (e == crate::KfnParseError::MissingSongIni && (forall|k: int|
                0 <= k < old(self).entries@.len() ==> (#[trigger] old(
                self).entries@[k]).filename@ != "Song.ini"@)) || (exists|i: int|
                0 <= i < old(self).entries@.len() && (#[trigger] old(self).entries@[i]).filename@
                    == "Song.ini"@ && (forall|k: int|
                    0 <= k < i ==> (#[trigger] old(self).entries@[k]).filename@ != "Song.ini"@) && (
                (e == crate::KfnParseError::Utf8ConversionError && !vstd::utf8::valid_utf8(
                    old(self).entries@[i].file_bin@,
                )) || (e == crate::KfnParseError::IniFormat && vstd::utf8::valid_utf8(
                    old(self).entries@[i].file_bin@,
                ) && ini_doc_of(vstd::utf8::decode_utf8(old(self).entries@[i].file_bin@))
                    is None))),
    {
        let i = match self.find_song_ini() {
            Some(i) => i,
            None => {
                return Err(crate::KfnParseError::MissingSongIni);
            },
        };
        let text = match bytes_to_string(&self.entries[i].file_bin) {
            Some(t) => t,
            None => {
                return Err(crate::KfnParseError::Utf8ConversionError);
            },
        };
        let doc = match crate::ini_doc::parse_ini_text(text.as_str()) {
            Some(d) => d,
            None => {
                return Err(crate::KfnParseError::IniFormat);
            },
        };
        self.song.ini = doc;
        Ok(())
    }

    /// Updates the ini entry: removes the Song.ini entry, rewrites the
    /// materials list, renders the document, and appends it as a fresh
    /// Song.ini entry.
    pub fn update_ini(&mut self)
        ensures
            ({
                let kept = final (self).entries@.take(final (self).entries@.len() - 1);
                let added = final (self).entries@.last();
                &&& final (self).entries@.len() >= 1
                &&& removed_named_rel(old(self).entries@, kept, "Song.ini"@)
                &&& added.filename@ == "Song.ini"@
                &&& added.file_type == FileType::SongIni
                &&& added.file_bin@ == vstd::utf8::encode_utf8(
                    ini_text_of(doc_raw(final (self).song.ini)),
                )
                &&& added.len1 == added.file_bin@.len()
                &&& added.len2 == added.file_bin@.len()
                &&& added.flags == 0
                &&& added.offset == 0
                &&& doc_raw(final (self).song.ini) == crate::kfn_ini::apply_sets(
                    doc_raw(old(self).song.ini),
                    "Materials"@,
                    crate::kfn_ini::mat_kvs(entries_view(kept)),
                )
                &&& final (self).song.effs == old(self).song.effs
                &&& final (self).path_song_ini == old(self).path_song_ini
                &&& final (self).offset_dir_end == old(self).offset_dir_end
            }),
    {
        self.remove_entry_by_name("Song.ini");
        self.song.set_materials(&self.entries);
        let text = crate::ini_doc::write_ini_text(&self.song.ini);
        let data = text.as_str().as_bytes_vec();
        let len = data.len();
        let new_entry = Entry {
            file_type: FileType::SongIni,
            filename: song_ini_name(),
            len1: len,
            offset: 0,
            len2: len,
            flags: 0,
            file_bin: data,
        };
        let ghost kept = self.entries@;
        self.add_entry(new_entry);
        proof {
            assert(self.entries@.take(self.entries@.len() - 1) =~= kept);
        }
    }
}

/// How one removal at `id` relates the new entries to the old: the prefix
/// unchanged, later entries shifted down one place with the removed
/// payload's size given back in their offsets, stopping at zero.
pub open spec fn removed_at_rel(old_es: Seq<Entry>, new_es: Seq<Entry>, id: int) -> bool {
    &&& new_es.len() == old_es.len() - 1
    &&& forall|k: int| 0 <= k < id ==> #[trigger] new_es[k] == old_es[k]
    &&& forall|k: int|
        id <= k < new_es.len() ==> (#[trigger] new_es[k]).filename == old_es[k + 1].filename
            && new_es[k].file_type == old_es[k + 1].file_type && new_es[k].len1 == old_es[k
            + 1].len1 && new_es[k].len2 == old_es[k + 1].len2 && new_es[k].flags == old_es[k
            + 1].flags && new_es[k].file_bin == old_es[k + 1].file_bin && new_es[k].offset
            == sub_floor(old_es[k + 1].offset as int, old_es[id].len1 as int)
}

/// How removing the last entry carrying `name` relates new entries to old:
/// without a match nothing changes; with one, the last match leaves as
/// `removed_at_rel` says.
pub open spec fn removed_named_rel(
    old_es: Seq<Entry>,
    new_es: Seq<Entry>,
    name: Seq<char>,
) -> bool {
    if forall|k: int| 0 <= k < old_es.len() ==> (#[trigger] old_es[k]).filename@ != name {
        new_es == old_es
    } else {
        exists|id: int|
            0 <= id < old_es.len() && (#[trigger] old_es[id]).filename@ == name && (forall|k: int|
                id < k < old_es.len() ==> (#[trigger] old_es[k]).filename@ != name)
                && removed_at_rel(old_es, new_es, id)
    }
}

/// A saturating difference on mathematical integers.
pub open spec fn sub_floor(a: int, b: int) -> int {
    if a >= b {
        a - b
    } else {
        0
    }
}

/// An alias so the ensures above can speak of the effect type.
pub use crate::kfn_ini::eff::Eff as Eff2;

fn song_ini_name() -> (r: String)
    ensures
        r@ == "Song.ini"@,
{
    crate::strutil::str_to_string("Song.ini")
}

/// A field-for-field copy of an entry.
pub fn clone_entry(e: &Entry) -> (r: Entry)
    ensures
        r@ == e@,
{
    let r = Entry {
        file_type: e.file_type,
        filename: crate::strutil::str_to_string(e.filename.as_str()),
        len1: e.len1,
        offset: e.offset,
        len2: e.len2,
        flags: e.flags,
        file_bin: clone_bytes(&e.file_bin),
    };
    r
}

/// A copy of a byte vector.
pub fn clone_bytes(v: &Vec<u8>) -> (r: Vec<u8>)
    ensures
        r@ == v@,
{
    let mut r: Vec<u8> = Vec::new();
    let mut i: usize = 0;
    while i < v.len()
        invariant
            i <= v.len(),
            r@ == v@.take(i as int),
        decreases v.len() - i,
    {
        r.push(v[i]);
        proof {
            assert(r@ =~= v@.take(i + 1 as int));
        }
        i = i + 1;
    }
    proof {
        assert(v@.take(v@.len() as int) =~= v@);
    }
    r
}

/// Relies on `String::from_utf8`: succeeds exactly on valid UTF-8, and
/// returns its decoding.
#[verifier::external_body]
pub(crate) fn bytes_to_string(v: &Vec<u8>) -> (r: Option<String>)
    ensures
        r is Some <==> vstd::utf8::valid_utf8(v@),
        r matches Some(s) ==> s@ == vstd::utf8::decode_utf8(v@),
{
    String::from_utf8(v.clone()).ok()
}

impl KfnData {
    /// Removing an entry by name from the data: the last entry carrying
    /// the name leaves; without a match nothing changes.
    pub fn remove_entry_by_name(&mut self, name: &str)
        ensures
            removed_named_rel(old(self).entries@, final (self).entries@, name@),
            final (self).path_song_ini == old(self).path_song_ini,
            final (self).offset_dir_end == old(self).offset_dir_end,
            final (self).song == old(self).song,
    {
        let mut found: Option<usize> = None;
        let mut i: usize = 0;
        while i < self.entries.len()
            invariant
                i <= self.entries.len(),
                *self == *old(self),
                match found {
                    Some(f) => f < i && self.entries@[f as int].filename@ == name@ && (forall|
                        k: int,
                    |
                        f < k < i ==> (#[trigger] self.entries@[k]).filename@ != name@),
                    None => forall|k: int|
                        0 <= k < i ==> (#[trigger] self.entries@[k]).filename@ != name@,
                },
            decreases self.entries.len() - i,
        {
            if str_eq(self.entries[i].filename.as_str(), name) {
                found = Some(i);
            }
            i = i + 1;
        }
        match found {
            Some(id) => {
                self.remove_entry_by_id(id);
            },
            None => {},
        }
    }
}

/// The file type an extension selects when adding a file.
pub open spec fn ext_file_type(filename: Seq<char>) -> FileType {
    let parts = crate::strutil::spec_split(filename, set!['.']);
    let ext = parts.last();
    if ext == "png"@ || ext == "jpg"@ {
        FileType::Image
    } else if ext == "mp3"@ || ext == "wav"@ {
        FileType::Music
    } else if ext == "ttf"@ || ext == "otf"@ {
        FileType::Font
    } else {
        FileType::INVALID
    }
}

impl KfnData {
    /// Adding a new entry from a file's name and bytes: the extension
    /// selects the type, and the entry lands after the last payload.
    pub fn add_entry_from_file(&mut self, filename: &str, content: Vec<u8>)
        requires
            old(self).entries@.len() > 0 ==> old(self).entries@.last().offset + old(
                self,
            ).entries@.last().len1 <= usize::MAX,
        ensures
            final (self).entries@.len() == old(self).entries@.len() + 1,
            ({
                let e = final (self).entries@.last();
                &&& e.filename@ == filename@
                &&& e.file_type == ext_file_type(filename@)
                &&& e.len1 == content@.len()
                &&& e.len2 == content@.len()
                &&& e.flags == 0
                &&& e.file_bin@ == content@
                &&& e.offset as int == (if old(self).entries@.len() == 0 {
                    0
                } else {
                    sub_floor(
                        old(self).entries@.last().offset + old(self).entries@.last().len1,
                        old(self).offset_dir_end as int,
                    )
                })
            }),
            final (self).entries@.take(old(self).entries@.len() as int) == old(self).entries@,
            final (self).song == old(self).song,
            final (self).path_song_ini == old(self).path_song_ini,
            final (self).offset_dir_end == old(self).offset_dir_end,
    {
        let seps = vec!['.'];
        proof {
            crate::strutil::lemma_set_of_one('.');
            assert(seps@ =~= seq!['.']);
        }
        let parts = crate::strutil::split_on(filename, &seps);
        let last = parts.len() - 1;
        proof {
            assert(parts.deep_view()[last as int] == parts@[last as int]@);
            assert(parts.deep_view().last() == parts.deep_view()[last as int]);
        }
        let ext = parts[last].as_str();
        let file_type = if crate::strutil::str_eq(ext, "png") || crate::strutil::str_eq(
            ext,
            "jpg",
        ) {
            FileType::Image
        } else if crate::strutil::str_eq(ext, "mp3") || crate::strutil::str_eq(ext, "wav") {
            FileType::Music
        } else if crate::strutil::str_eq(ext, "ttf") || crate::strutil::str_eq(ext, "otf") {
            FileType::Font
        } else {
            FileType::INVALID
        };
        let len = content.len();
        let offset = self.get_next_offset();
        let new_entry = Entry {
            file_type,
            filename: crate::strutil::str_to_string(filename),
            len1: len,
            offset,
            len2: len,
            flags: 0,
            file_bin: content,
        };
        let ghost before = self.entries@;
        self.add_entry(new_entry);
        proof {
            assert(self.entries@.take(before.len() as int) =~= before);
        }
    }
}

} // verus!
