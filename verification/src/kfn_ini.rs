//! The Song.ini file, which is at the very end of a .kfn file.
//! Contains most of the information for replicating a karaoke video: the
//! `General` section, the `Eff{n}` effect sections, and the `Materials`
//! list. The document model is the library's own ordered INI substrate.

pub mod eff;
pub mod trajectory;

use vstd::prelude::*;

use crate::helpers::{Entry, EntryV};
use crate::ini_doc::{doc_raw, spec_get, spec_set, IniDoc};
use crate::kfn_header::KfnHeader;
use crate::kfn_ini::eff::Eff;
use crate::strutil::{dec_string, match_at, spec_split, u64_to_string};

verus! {

/// The raw view of an INI document: sections of key-value pairs.
pub type DocRaw = Seq<(Seq<char>, Seq<(Seq<char>, Seq<char>)>)>;

/// A list of key-value writes applied to one section, in order.
pub open spec fn apply_sets(d: DocRaw, sec: Seq<char>, kvs: Seq<(Seq<char>, Seq<char>)>) -> DocRaw
    decreases kvs.len(),
{
    if kvs.len() == 0 {
        d
    } else {
        spec_set(apply_sets(d, sec, kvs.drop_last()), sec, kvs.last().0, kvs.last().1)
    }
}

/// The `General` keys written when populating with empty data.
pub open spec fn empty_general_kvs() -> Seq<(Seq<char>, Seq<char>)> {
    seq![
        ("Title"@, ""@),
        ("Artist"@, ""@),
        ("Album"@, ""@),
        ("Composer"@, ""@),
        ("Year"@, ""@),
        ("Track"@, ""@),
        ("GenreID"@, "-1"@),
        ("Copyright"@, ""@),
        ("Comment"@, ""@),
        ("Source"@, ""@),
        ("EffectCount"@, ""@),
        ("LanguageID"@, ""@),
        ("DiffMen"@, ""@),
        ("DiffWomen"@, ""@),
        ("KFNType"@, "0"@),
        ("Properties"@, ""@),
        ("KaraokeVersion"@, ""@),
        ("VocalGuide"@, ""@),
        ("KaraFunization"@, ""@),
    ]
}

/// The `General` keys written when populating from a header.
pub open spec fn header_general_kvs(h: crate::kfn_header::HeaderV) -> Seq<(Seq<char>, Seq<char>)> {
    seq![
        ("Title"@, h.title),
        ("Artist"@, h.artist),
        ("Album"@, h.album),
        ("Composer"@, h.composer),
        ("Year"@, h.year),
        ("Track"@, h.trak),
        ("GenreID"@, dec_string(h.genre as nat)),
        ("Copyright"@, h.copyright),
        ("Comment"@, ""@),
        ("Source"@, source_value(h.source_file)),
        ("EffectCount"@, ""@),
        ("LanguageID"@, h.language),
        ("DiffMen"@, dec_string(h.diff_men as nat)),
        ("DiffWomen"@, dec_string(h.diff_women as nat)),
        ("KFNType"@, dec_string(h.kfn_type as nat)),
        ("Properties"@, ""@),
        ("KaraokeVersion"@, ""@),
        ("VocalGuide"@, ""@),
        ("KaraFunization"@, h.karafunizer),
    ]
}

/// The source value a header yields: the raw source filename, prefixed
/// with the `1,I,` marker when it is long enough and does not carry it
/// already.
pub open spec fn source_value(sf: Seq<char>) -> Seq<char> {
    if sf.len() > 4 && sf.take(4) != "1,I,"@ {
        "1,I,"@ + sf
    } else {
        sf
    }
}

/// The `Materials` keys: the count, then one numbered key per listed
/// file, so that every listed filename is enumerated.
pub open spec fn mat_kvs(ms: Seq<EntryV>) -> Seq<(Seq<char>, Seq<char>)> {
    seq![("MatCount"@, dec_string(ms.len()))] + Seq::new(
        ms.len(),
        |n: int| ("Mat"@ + dec_string(n as nat), ms[n].filename),
    )
}

/// The Song.ini file: the document and the decoded effect layers.
#[derive(Debug, Clone, PartialEq)]
pub struct KfnIni {
    /// The INI document itself.
    pub ini: IniDoc,
    /// Representation of the various effects, texts and syncs.
    pub effs: Vec<Eff>,
}

impl KfnIni {
    /// Creating a new ini file.
    pub fn new() -> (r: Self)
        ensures
            doc_raw(r.ini) == Seq::<(Seq<char>, Seq<(Seq<char>, Seq<char>)>)>::empty(),
            r.effs@ == Seq::<Eff>::empty(),
    {
        let r = KfnIni { ini: IniDoc::new(), effs: Vec::new() };
        proof {
            assert(r.effs@ =~= Seq::<Eff>::empty());
        }
        r
    }

    /// Populating the General section with empty data.
    #[verifier::rlimit(100)]
    #[verifier::spinoff_prover]
    pub fn populate_empty(&mut self)
        ensures
            doc_raw(final (self).ini) == apply_sets(
                doc_raw(old(self).ini),
                "General"@,
                empty_general_kvs(),
            ),
            final (self).effs == old(self).effs,
    {
        let ghost d0 = doc_raw(self.ini);
        let ghost gsec = "General"@;
        let ghost mut kvs: Seq<(Seq<char>, Seq<char>)> = Seq::empty();
        proof {
            assert(apply_sets(d0, gsec, kvs) == doc_raw(self.ini));
        }
        self.ini.set("General", "Title", "");
        proof {
            let prev = kvs;
            kvs = kvs.push(("Title"@, ""@));
            assert(kvs.drop_last() =~= prev);
            assert(doc_raw(self.ini) == apply_sets(d0, gsec, kvs));
        }
        self.ini.set("General", "Artist", "");
        proof {
            let prev = kvs;
            kvs = kvs.push(("Artist"@, ""@));
            assert(kvs.drop_last() =~= prev);
            assert(doc_raw(self.ini) == apply_sets(d0, gsec, kvs));
        }
        self.ini.set("General", "Album", "");
        proof {
            let prev = kvs;
            kvs = kvs.push(("Album"@, ""@));
            assert(kvs.drop_last() =~= prev);
            assert(doc_raw(self.ini) == apply_sets(d0, gsec, kvs));
        }
        self.ini.set("General", "Composer", "");
        proof {
            let prev = kvs;
            kvs = kvs.push(("Composer"@, ""@));
            assert(kvs.drop_last() =~= prev);
            assert(doc_raw(self.ini) == apply_sets(d0, gsec, kvs));
        }
        self.ini.set("General", "Year", "");
        proof {
            let prev = kvs;
            kvs = kvs.push(("Year"@, ""@));
            assert(kvs.drop_last() =~= prev);
            assert(doc_raw(self.ini) == apply_sets(d0, gsec, kvs));
        }
        self.ini.set("General", "Track", "");
        proof {
            let prev = kvs;
            kvs = kvs.push(("Track"@, ""@));
            assert(kvs.drop_last() =~= prev);
            assert(doc_raw(self.ini) == apply_sets(d0, gsec, kvs));
        }
        self.ini.set("General", "GenreID", "-1");
        proof {
            let prev = kvs;
            kvs = kvs.push(("GenreID"@, "-1"@));
            assert(kvs.drop_last() =~= prev);
            assert(doc_raw(self.ini) == apply_sets(d0, gsec, kvs));
        }
        self.ini.set("General", "Copyright", "");
        proof {
            let prev = kvs;
            kvs = kvs.push(("Copyright"@, ""@));
            assert(kvs.drop_last() =~= prev);
            assert(doc_raw(self.ini) == apply_sets(d0, gsec, kvs));
        }
        self.ini.set("General", "Comment", "");
        proof {
            let prev = kvs;
            kvs = kvs.push(("Comment"@, ""@));
            assert(kvs.drop_last() =~= prev);
            assert(doc_raw(self.ini) == apply_sets(d0, gsec, kvs));
        }
        self.ini.set("General", "Source", "");
        proof {
            let prev = kvs;
            kvs = kvs.push(("Source"@, ""@));
            assert(kvs.drop_last() =~= prev);
            assert(doc_raw(self.ini) == apply_sets(d0, gsec, kvs));
        }
        self.ini.set("General", "EffectCount", "");
        proof {
            let prev = kvs;
            kvs = kvs.push(("EffectCount"@, ""@));
            assert(kvs.drop_last() =~= prev);
            assert(doc_raw(self.ini) == apply_sets(d0, gsec, kvs));
        }
        self.ini.set("General", "LanguageID", "");
        proof {
            let prev = kvs;
            kvs = kvs.push(("LanguageID"@, ""@));
            assert(kvs.drop_last() =~= prev);
            assert(doc_raw(self.ini) == apply_sets(d0, gsec, kvs));
        }
        self.ini.set("General", "DiffMen", "");
        proof {
            let prev = kvs;
            kvs = kvs.push(("DiffMen"@, ""@));
            assert(kvs.drop_last() =~= prev);
            assert(doc_raw(self.ini) == apply_sets(d0, gsec, kvs));
        }
        self.ini.set("General", "DiffWomen", "");
        proof {
            let prev = kvs;
            kvs = kvs.push(("DiffWomen"@, ""@));
            assert(kvs.drop_last() =~= prev);
            assert(doc_raw(self.ini) == apply_sets(d0, gsec, kvs));
        }
        self.ini.set("General", "KFNType", "0");
        proof {
            let prev = kvs;
            kvs = kvs.push(("KFNType"@, "0"@));
            assert(kvs.drop_last() =~= prev);
            assert(doc_raw(self.ini) == apply_sets(d0, gsec, kvs));
        }
        self.ini.set("General", "Properties", "");
        proof {
            let prev = kvs;
            kvs = kvs.push(("Properties"@, ""@));
            assert(kvs.drop_last() =~= prev);
            assert(doc_raw(self.ini) == apply_sets(d0, gsec, kvs));
        }
        self.ini.set("General", "KaraokeVersion", "");
        proof {
            let prev = kvs;
            kvs = kvs.push(("KaraokeVersion"@, ""@));
            assert(kvs.drop_last() =~= prev);
            assert(doc_raw(self.ini) == apply_sets(d0, gsec, kvs));
        }
        self.ini.set("General", "VocalGuide", "");
        proof {
            let prev = kvs;
            kvs = kvs.push(("VocalGuide"@, ""@));
            assert(kvs.drop_last() =~= prev);
            assert(doc_raw(self.ini) == apply_sets(d0, gsec, kvs));
        }
        self.ini.set("General", "KaraFunization", "");
        proof {
            let prev = kvs;
            kvs = kvs.push(("KaraFunization"@, ""@));
            assert(kvs.drop_last() =~= prev);
            assert(doc_raw(self.ini) == apply_sets(d0, gsec, kvs));
        }
        proof {
            assert(kvs =~= empty_general_kvs());
        }
    }

    /// Populating the General section with empty data.
    pub fn populate(&mut self)
        ensures
            doc_raw(final (self).ini) == apply_sets(
                doc_raw(old(self).ini),
                "General"@,
                empty_general_kvs(),
            ),
            final (self).effs == old(self).effs,
    {
        self.populate_empty();
    }

    /// Populating the General section from the header's fields.
    #[verifier::rlimit(100)]
    #[verifier::spinoff_prover]
    pub fn populate_from_header(&mut self, header: &KfnHeader)
        ensures
            doc_raw(final (self).ini) == apply_sets(
                doc_raw(old(self).ini),
                "General"@,
                header_general_kvs(header@),
            ),
            final (self).effs == old(self).effs,
    {
        let ghost d0 = doc_raw(self.ini);
        let ghost gsec = "General"@;
        let ghost h = header@;
        let n = header.source_file.as_str().unicode_len();
        let mut source: String;
        if n > 4 && !crate::strutil::str_eq(
            header.source_file.as_str().substring_char(0, 4),
            "1,I,",
        ) {
            source = crate::strutil::str_to_string("1,I,");
            crate::strutil::append_str(&mut source, header.source_file.as_str());
            proof {
                assert(header.source_file@.subrange(0, 4) =~= header.source_file@.take(4));
                assert(source@ == source_value(h.source_file));
            }
        } else {
            source = crate::strutil::str_to_string(header.source_file.as_str());
            proof {
                if n > 4 {
                    assert(header.source_file@.subrange(0, 4) =~= header.source_file@.take(4));
                }
                assert(source@ == source_value(h.source_file));
            }
        }
        let genre_s = u64_to_string(header.genre as u64);
        let diffm_s = u64_to_string(header.diff_men as u64);
        let diffw_s = u64_to_string(header.diff_women as u64);
        let kfntype_s = u64_to_string(header.kfn_type as u64);
        let ghost mut kvs: Seq<(Seq<char>, Seq<char>)> = Seq::empty();
        proof {
            assert(apply_sets(d0, gsec, kvs) == doc_raw(self.ini));
        }
        self.ini.set("General", "Title", header.title.as_str());
        proof {
            let prev = kvs;
            kvs = kvs.push(("Title"@, h.title));
            assert(kvs.drop_last() =~= prev);
            assert(doc_raw(self.ini) == apply_sets(d0, gsec, kvs));
        }
        self.ini.set("General", "Artist", header.artist.as_str());
        proof {
            let prev = kvs;
            kvs = kvs.push(("Artist"@, h.artist));
            assert(kvs.drop_last() =~= prev);
            assert(doc_raw(self.ini) == apply_sets(d0, gsec, kvs));
        }
        self.ini.set("General", "Album", header.album.as_str());
        proof {
            let prev = kvs;
            kvs = kvs.push(("Album"@, h.album));
            assert(kvs.drop_last() =~= prev);
            assert(doc_raw(self.ini) == apply_sets(d0, gsec, kvs));
        }
        self.ini.set("General", "Composer", header.composer.as_str());
        proof {
            let prev = kvs;
            kvs = kvs.push(("Composer"@, h.composer));
            assert(kvs.drop_last() =~= prev);
            assert(doc_raw(self.ini) == apply_sets(d0, gsec, kvs));
        }
        self.ini.set("General", "Year", header.year.as_str());
        proof {
            let prev = kvs;
            kvs = kvs.push(("Year"@, h.year));
            assert(kvs.drop_last() =~= prev);
            assert(doc_raw(self.ini) == apply_sets(d0, gsec, kvs));
        }
        self.ini.set("General", "Track", header.trak.as_str());
        proof {
            let prev = kvs;
            kvs = kvs.push(("Track"@, h.trak));
            assert(kvs.drop_last() =~= prev);
            assert(doc_raw(self.ini) == apply_sets(d0, gsec, kvs));
        }
        self.ini.set("General", "GenreID", genre_s.as_str());
        proof {
            let prev = kvs;
            kvs = kvs.push(("GenreID"@, dec_string(h.genre as nat)));
            assert(kvs.drop_last() =~= prev);
            assert(doc_raw(self.ini) == apply_sets(d0, gsec, kvs));
        }
        self.ini.set("General", "Copyright", header.copyright.as_str());
        proof {
            let prev = kvs;
            kvs = kvs.push(("Copyright"@, h.copyright));
            assert(kvs.drop_last() =~= prev);
            assert(doc_raw(self.ini) == apply_sets(d0, gsec, kvs));
        }
        self.ini.set("General", "Comment", "");
        proof {
            let prev = kvs;
            kvs = kvs.push(("Comment"@, ""@));
            assert(kvs.drop_last() =~= prev);
            assert(doc_raw(self.ini) == apply_sets(d0, gsec, kvs));
        }
        self.ini.set("General", "Source", source.as_str());
        proof {
            let prev = kvs;
            kvs = kvs.push(("Source"@, source_value(h.source_file)));
            assert(kvs.drop_last() =~= prev);
            assert(doc_raw(self.ini) == apply_sets(d0, gsec, kvs));
        }
        self.ini.set("General", "EffectCount", "");
        proof {
            let prev = kvs;
            kvs = kvs.push(("EffectCount"@, ""@));
            assert(kvs.drop_last() =~= prev);
            assert(doc_raw(self.ini) == apply_sets(d0, gsec, kvs));
        }
        self.ini.set("General", "LanguageID", header.language.as_str());
        proof {
            let prev = kvs;
            kvs = kvs.push(("LanguageID"@, h.language));
            assert(kvs.drop_last() =~= prev);
            assert(doc_raw(self.ini) == apply_sets(d0, gsec, kvs));
        }
        self.ini.set("General", "DiffMen", diffm_s.as_str());
        proof {
            let prev = kvs;
            kvs = kvs.push(("DiffMen"@, dec_string(h.diff_men as nat)));
            assert(kvs.drop_last() =~= prev);
            assert(doc_raw(self.ini) == apply_sets(d0, gsec, kvs));
        }
        self.ini.set("General", "DiffWomen", diffw_s.as_str());
        proof {
            let prev = kvs;
            kvs = kvs.push(("DiffWomen"@, dec_string(h.diff_women as nat)));
            assert(kvs.drop_last() =~= prev);
            assert(doc_raw(self.ini) == apply_sets(d0, gsec, kvs));
        }
        self.ini.set("General", "KFNType", kfntype_s.as_str());
        proof {
            let prev = kvs;
            kvs = kvs.push(("KFNType"@, dec_string(h.kfn_type as nat)));
            assert(kvs.drop_last() =~= prev);
            assert(doc_raw(self.ini) == apply_sets(d0, gsec, kvs));
        }
        self.ini.set("General", "Properties", "");
        proof {
            let prev = kvs;
            kvs = kvs.push(("Properties"@, ""@));
            assert(kvs.drop_last() =~= prev);
            assert(doc_raw(self.ini) == apply_sets(d0, gsec, kvs));
        }
        self.ini.set("General", "KaraokeVersion", "");
        proof {
            let prev = kvs;
            kvs = kvs.push(("KaraokeVersion"@, ""@));
            assert(kvs.drop_last() =~= prev);
            assert(doc_raw(self.ini) == apply_sets(d0, gsec, kvs));
        }
        self.ini.set("General", "VocalGuide", "");
        proof {
            let prev = kvs;
            kvs = kvs.push(("VocalGuide"@, ""@));
            assert(kvs.drop_last() =~= prev);
            assert(doc_raw(self.ini) == apply_sets(d0, gsec, kvs));
        }
        self.ini.set("General", "KaraFunization", header.karafunizer.as_str());
        proof {
            let prev = kvs;
            kvs = kvs.push(("KaraFunization"@, h.karafunizer));
            assert(kvs.drop_last() =~= prev);
            assert(doc_raw(self.ini) == apply_sets(d0, gsec, kvs));
        }
        proof {
            assert(kvs =~= header_general_kvs(h));
        }
    }

    /// Setting the source file for the KFN. This must be a music type file.
    pub fn set_source(&mut self, source: &str)
        ensures
            doc_raw(final (self).ini) == spec_set(
                doc_raw(old(self).ini),
                "General"@,
                "Source"@,
                "1,I,"@ + source@,
            ),
            final (self).effs == old(self).effs,
    {
        let mut value = crate::strutil::str_to_string("1,I,");
        crate::strutil::append_str(&mut value, source);
        self.ini.set("General", "Source", value.as_str());
    }

    /// Sets the list of files in the ini, based on the entries given: the
    /// count, then one numbered key per entry, every filename enumerated.
    pub fn set_materials(&mut self, materials: &Vec<Entry>)
        ensures
            doc_raw(final (self).ini) == apply_sets(
                doc_raw(old(self).ini),
                "Materials"@,
                mat_kvs(crate::helpers::entries_view(materials@)),
            ),
            final (self).effs == old(self).effs,
    {
        let ghost d0 = doc_raw(self.ini);
        let ghost gsec = "Materials"@;
        let ghost gms = crate::helpers::entries_view(materials@);
        let mat_count = materials.len();
        let count_s = u64_to_string(mat_count as u64);
        self.ini.set("Materials", "MatCount", count_s.as_str());
        let ghost mut kvs: Seq<(Seq<char>, Seq<char>)> = seq![
            ("MatCount"@, dec_string(mat_count as nat)),
        ];
        proof {
            assert(kvs.drop_last() =~= Seq::<(Seq<char>, Seq<char>)>::empty());
            assert(apply_sets(d0, gsec, kvs.drop_last()) == d0);
            assert(doc_raw(self.ini) == apply_sets(d0, gsec, kvs));
        }
        let mut n: usize = 0;
        while n < mat_count
            invariant
                n <= mat_count,
                gsec == "Materials"@,
                mat_count == materials.len(),
                gms == crate::helpers::entries_view(materials@),
                kvs == seq![("MatCount"@, dec_string(mat_count as nat))] + Seq::new(
                    n as nat,
                    |i: int| ("Mat"@ + dec_string(i as nat), gms[i].filename),
                ),
                doc_raw(self.ini) == apply_sets(d0, gsec, kvs),
                self.effs == old(self).effs,
            decreases mat_count - n,
        {
            let mut key = crate::strutil::str_to_string("Mat");
            let num = u64_to_string(n as u64);
            crate::strutil::append_str(&mut key, num.as_str());
            self.ini.set("Materials", key.as_str(), materials[n].filename.as_str());
            proof {
                let prev = kvs;
                kvs = kvs.push(("Mat"@ + dec_string(n as nat), gms[n as int].filename));
                assert(kvs.drop_last() =~= prev);
                assert(gms[n as int].filename == materials@[n as int].filename@);
                assert(kvs.last().0 == key@ && kvs.last().1 == materials@[n as int].filename@);
                assert(doc_raw(self.ini) == apply_sets(d0, gsec, kvs));
                assert(kvs =~= seq![("MatCount"@, dec_string(mat_count as nat))] + Seq::new(
                    (n + 1) as nat,
                    |i: int| ("Mat"@ + dec_string(i as nat), gms[i].filename),
                ));
            }
            n = n + 1;
        }
        proof {
            assert(kvs =~= mat_kvs(gms));
        }
    }

    /// Returns the name of the source sound file: the `General.Source`
    /// value with its four-character marker stripped.
    pub fn get_source_name(&self) -> (r: Option<String>)
        ensures
            match r {
                Some(s) => spec_get(doc_raw(self.ini), "General"@, "Source"@) matches Some(v)
                    && v.len() >= 4 && s@ == v.skip(4),
                None => !(spec_get(doc_raw(self.ini), "General"@, "Source"@) matches Some(v)
                    && v.len() >= 4),
            },
    {
        match self.ini.get_from("General", "Source") {
            Some(v) => {
                let n = v.as_str().unicode_len();
                if n >= 4 {
                    Some(crate::strutil::str_to_string(v.as_str().substring_char(4, n)))
                } else {
                    None
                }
            },
            None => None,
        }
    }

    /// Returns the secondary source / vocal included track, if it exists:
    /// the `MP3Music.Track0` value cut after the last `.mp3` marker.
    #[verifier::rlimit(60)]
    pub fn get_secondary_source(&self) -> (r: Option<String>)
        ensures
            match r {
                Some(s) => spec_get(doc_raw(self.ini), "MP3Music"@, "Track0"@) matches Some(v)
                    && cut_after_last_mp3(v, s@),
                None => match spec_get(doc_raw(self.ini), "MP3Music"@, "Track0"@) {
                    Some(v) => !has_mp3_marker(v),
                    None => true,
                },
            },
    {
        match self.ini.get_from("MP3Music", "Track0") {
            Some(v) => {
                let vs = v.as_str();
                match crate::strutil::rfind_sub(vs, ".mp3") {
                    Some(i) => {
                        proof {
                            reveal_strlit(".mp3");
                            assert(".mp3"@.len() == 4);
                        }
                        let n = vs.unicode_len();
                        let s = crate::strutil::str_to_string(vs.substring_char(0, i + 4));
                        proof {
                            assert(v@.subrange(0, i + 4 as int) =~= v@.take(i + 4 as int));
                            assert(match_at(v@, ".mp3"@, i as int) && s@ == v@.take(i + 4) && (
                            forall|j: int| j > i ==> !match_at(v@, ".mp3"@, j)));
                            assert(cut_after_last_mp3(v@, s@));
                        }
                        Some(s)
                    },
                    None => {
                        proof {
                            assert forall|j: int|
                                0 <= j && j + ".mp3"@.len() <= v@.len() implies #[trigger] v@.subrange(
                                j,
                                j + ".mp3"@.len(),
                            ) != ".mp3"@ by {
                                assert(!match_at(vs@, ".mp3"@, j));
                            }
                            assert(!has_mp3_marker(v@));
                        }
                        None
                    },
                }
            },
            None => {
                proof {
                    assert(spec_get(doc_raw(self.ini), "MP3Music"@, "Track0"@) is None);
                }
                None
            },
        }
    }

    /// Whether the secondary track replaces the main track rather than
    /// overlaying it: the third comma field of `MP3Music.Track0` is not 0.
    pub fn replaces_track(&self) -> (r: bool)
        ensures
            r == (spec_get(doc_raw(self.ini), "MP3Music"@, "Track0"@) matches Some(v) && {
                let parts = spec_split(v, set![',']);
                parts.len() >= 3 && parts[2] != "0"@
            }),
    {
        match self.ini.get_from("MP3Music", "Track0") {
            Some(v) => {
                let seps = vec![','];
                proof {
                    crate::strutil::lemma_set_of_one(',');
                    assert(seps@ =~= seq![',']);
                }
                let parts = crate::strutil::split_on(v.as_str(), &seps);
                if parts.len() >= 3 {
                    proof {
                        assert(parts.deep_view()[2] == parts@[2]@);
                    }
                    !crate::strutil::str_eq(parts[2].as_str(), "0")
                } else {
                    false
                }
            },
            None => false,
        }
    }
}

/// The cut value ends right after the last `.mp3` marker of the original.
pub open spec fn cut_after_last_mp3(v: Seq<char>, s: Seq<char>) -> bool {
    exists|i: int|
        #[trigger] match_at(v, ".mp3"@, i) && s == v.take(i + 4) && (forall|j: int|
            j > i ==> !match_at(v, ".mp3"@, j))
}

/// Whether the `.mp3` marker occurs anywhere in the value.
pub open spec fn has_mp3_marker(v: Seq<char>) -> bool {
    exists|i: int| match_at(v, ".mp3"@, i)
}

/// A key holds sync timestamps when it mentions `Sync` but not `InSync`.
pub open spec fn sync_key(k: Seq<char>) -> bool {
    crate::strutil::has_substring(k, "Sync"@) && !crate::strutil::has_substring(k, "InSync"@)
}

/// A comma list of numbers, each a digit run that fits a `usize`.
pub open spec fn parse_nat_list(segs: Seq<Seq<char>>) -> Option<Seq<int>>
    decreases segs.len(),
{
    if segs.len() == 0 {
        Some(Seq::<int>::empty())
    } else {
        match parse_nat_list(segs.drop_last()) {
            Some(xs) => if crate::strutil::is_dec_digits(segs.last()) && crate::strutil::dec_val(
                segs.last(),
            ) <= usize::MAX {
                Some(xs.push(crate::strutil::dec_val(segs.last()) as int))
            } else {
                None
            },
            None => None,
        }
    }
}

/// The timestamps one sync value carries.
pub open spec fn sync_list_of(v: Seq<char>) -> Option<Seq<int>> {
    parse_nat_list(spec_split(v, set![',']))
}

/// All sync timestamps of a section: the values of its sync keys,
/// concatenated in the section's native key order.
pub open spec fn syncs_of(pairs: Seq<(Seq<char>, Seq<char>)>) -> Option<Seq<int>>
    decreases pairs.len(),
{
    if pairs.len() == 0 {
        Some(Seq::<int>::empty())
    } else {
        match syncs_of(pairs.drop_last()) {
            Some(acc) => if sync_key(pairs.last().0) {
                match sync_list_of(pairs.last().1) {
                    Some(l) => Some(acc + l),
                    None => None,
                }
            } else {
                Some(acc)
            },
            None => None,
        }
    }
}

/// The value under a key, or the empty string when the key is absent.
pub open spec fn opt_value(pairs: Seq<(Seq<char>, Seq<char>)>, key: Seq<char>) -> Seq<char> {
    match crate::ini_doc::pair_lookup(pairs, key) {
        Some(v) => v,
        None => Seq::<char>::empty(),
    }
}

/// A required numeric key: absent or non-numeric is failure.
pub open spec fn req_nat(pairs: Seq<(Seq<char>, Seq<char>)>, key: Seq<char>) -> Option<int> {
    match crate::ini_doc::pair_lookup(pairs, key) {
        Some(v) => if crate::strutil::is_dec_digits(v) && crate::strutil::dec_val(v)
            <= usize::MAX {
            Some(crate::strutil::dec_val(v) as int)
        } else {
            None
        },
        None => None,
    }
}

/// An optional numeric key: absent counts as zero, present must parse.
pub open spec fn opt_nat(pairs: Seq<(Seq<char>, Seq<char>)>, key: Seq<char>) -> Option<int> {
    match crate::ini_doc::pair_lookup(pairs, key) {
        Some(v) => if crate::strutil::is_dec_digits(v) && crate::strutil::dec_val(v)
            <= usize::MAX {
            Some(crate::strutil::dec_val(v) as int)
        } else {
            None
        },
        None => Some(0),
    }
}

/// The effect count of a document: `General.EffectCount`, absent meaning
/// zero.
pub open spec fn effect_count_of(d: DocRaw) -> Option<int> {
    match spec_get(d, "General"@, "EffectCount"@) {
        Some(v) => if crate::strutil::is_dec_digits(v) && crate::strutil::dec_val(v)
            <= usize::MAX {
            Some(crate::strutil::dec_val(v) as int)
        } else {
            None
        },
        None => Some(0),
    }
}

/// Whether a font filename carries one of the accepted extensions.
pub open spec fn font_ext_ok(name: Seq<char>) -> bool {
    name.len() >= 4 && {
        let ext = name.skip(name.len() - 4);
        ext == ".ttf"@ || ext == ".TTF"@ || ext == ".otf"@
    }
}

/// A font value fails when it has no star segment for the size, or an
/// accepted font names a size that is not a number fitting `u32`.
pub open spec fn font_err(pairs: Seq<(Seq<char>, Seq<char>)>) -> bool {
    match crate::ini_doc::pair_lookup(pairs, "Font"@) {
        Some(v) => {
            let parts = spec_split(v, set!['*']);
            parts.len() < 2 || (font_ext_ok(parts[0]) && !(crate::strutil::is_dec_digits(parts[1])
                && crate::strutil::dec_val(parts[1]) <= u32::MAX))
        },
        None => false,
    }
}

/// What the font field decodes to: an accepted extension gives the
/// filename and point size, any other filename counts as absent.
pub open spec fn font_rel(pairs: Seq<(Seq<char>, Seq<char>)>, f: Option<(String, u32)>) -> bool {
    match crate::ini_doc::pair_lookup(pairs, "Font"@) {
        None => f is None,
        Some(v) => {
            let parts = spec_split(v, set!['*']);
            parts.len() >= 2 && if font_ext_ok(parts[0]) {
                f matches Some(p) && p.0@ == parts[0] && crate::strutil::is_dec_digits(parts[1])
                    && p.1 == crate::strutil::dec_val(parts[1])
            } else {
                f is None
            }
        },
    }
}

/// What an optional name field decodes to: absent or empty is none.
pub open spec fn opt_name_rel(
    pairs: Seq<(Seq<char>, Seq<char>)>,
    key: Seq<char>,
    o: Option<String>,
) -> bool {
    match crate::ini_doc::pair_lookup(pairs, key) {
        None => o is None,
        Some(v) => if v.len() == 0 {
            o is None
        } else {
            o matches Some(s) && s@ == v
        },
    }
}

/// What a color field decodes to: the raw value passes through.
pub open spec fn color_rel(
    pairs: Seq<(Seq<char>, Seq<char>)>,
    key: Seq<char>,
    o: Option<String>,
) -> bool {
    match crate::ini_doc::pair_lookup(pairs, key) {
        None => o is None,
        Some(v) => o matches Some(s) && s@ == v,
    }
}

/// The key of the `j`-th animation row.
pub open spec fn anim_key(j: int) -> Seq<char> {
    "Anim"@ + dec_string(j as nat)
}

/// The key of the `j`-th text row.
pub open spec fn text_key(j: int) -> Seq<char> {
    "Text"@ + dec_string(j as nat)
}

/// The name of the `n`-th effect section.
pub open spec fn eff_sec_name(n: int) -> Seq<char> {
    "Eff"@ + dec_string(n as nat)
}

/// Some animation row up to `nb` is missing or malformed.
pub open spec fn anims_err(pairs: Seq<(Seq<char>, Seq<char>)>, nb: int) -> bool {
    exists|j: int|
        0 <= j < nb && match crate::ini_doc::pair_lookup(pairs, #[trigger] anim_key(j)) {
            Some(v) => crate::kfn_ini::eff::anim_row_err(v),
            None => true,
        }
}

/// Every decoded animation matches its row.
pub open spec fn anims_rel(
    pairs: Seq<(Seq<char>, Seq<char>)>,
    anims: Seq<crate::kfn_ini::eff::Anim>,
) -> bool {
    forall|j: int|
        0 <= j < anims.len() ==> match crate::ini_doc::pair_lookup(pairs, #[trigger] anim_key(j)) {
            Some(v) => crate::kfn_ini::eff::anim_row_rel(v, anims[j]),
            None => false,
        }
}

/// The text value of the `j`-th row, empty when absent.
pub open spec fn text_value(pairs: Seq<(Seq<char>, Seq<char>)>, j: int) -> Seq<char> {
    opt_value(pairs, text_key(j))
}

/// The text values of the first `count` rows.
pub open spec fn text_values(pairs: Seq<(Seq<char>, Seq<char>)>, count: int) -> Seq<Seq<char>> {
    Seq::new(count as nat, |j: int| text_value(pairs, j))
}

/// The lyric lines produced by sweeping the text rows while sync
/// timestamps remain. `c0` is the cursor at the start of the current
/// sweep, `cursor` the next unconsumed sync, `i` the current row. Each
/// nonempty row splits into fragments, each consuming one sync; a row
/// whose fragments would outrun the syncs is a failure; a sweep that
/// consumed nothing ends the aggregation.
pub open spec fn collect(
    values: Seq<Seq<char>>,
    syncs: Seq<int>,
    c0: int,
    cursor: int,
    i: int,
) -> Option<(Seq<crate::kfn_ini::eff::TextEntryV>, int)>
    decreases syncs.len() - c0, values.len() - i,
{
    if !(0 <= c0 <= cursor <= syncs.len() && 0 <= i <= values.len()) {
        None
    } else if i == values.len() {
        if cursor > c0 && cursor < syncs.len() {
            collect(values, syncs, cursor, cursor, 0)
        } else {
            Some((Seq::<crate::kfn_ini::eff::TextEntryV>::empty(), cursor))
        }
    } else {
        let v = values[i];
        if v.len() == 0 {
            collect(values, syncs, c0, cursor, i + 1)
        } else {
            let frags = spec_split(v, set!['/', ' ']);
            if cursor + frags.len() > syncs.len() {
                None
            } else {
                let entry = crate::kfn_ini::eff::TextEntryV {
                    display: crate::strutil::remove_char(v, '/'),
                    fragments: Seq::new(frags.len(), |k: int| (syncs[cursor + k], frags[k])),
                };
                match collect(values, syncs, c0, cursor + frags.len(), i + 1) {
                    Some((es, c)) => Some((seq![entry] + es, c)),
                    None => None,
                }
            }
        }
    }
}

/// The lyric lines of a section with `count` text rows and the given
/// syncs; nothing is produced without rows or without syncs.
pub open spec fn texts_of(
    pairs: Seq<(Seq<char>, Seq<char>)>,
    count: int,
    syncs: Seq<int>,
) -> Option<(Seq<crate::kfn_ini::eff::TextEntryV>, int)> {
    if count == 0 || syncs.len() == 0 {
        Some((Seq::<crate::kfn_ini::eff::TextEntryV>::empty(), 0))
    } else {
        collect(text_values(pairs, count), syncs, 0, 0, 0)
    }
}

/// An effect section fails to decode when a required number is missing or
/// malformed, its trajectory or font is malformed, an animation row is
/// missing or malformed, a sync value is malformed, or its text rows
/// outrun its syncs.
pub open spec fn eff_err(pairs: Seq<(Seq<char>, Seq<char>)>) -> bool {
    ||| req_nat(pairs, "ID"@) is None
    ||| req_nat(pairs, "NbAnim"@) is None
    ||| opt_nat(pairs, "TextCount"@) is None
    ||| crate::kfn_ini::trajectory::spec_trajectory(opt_value(pairs, "Trajectory"@)) is None
    ||| font_err(pairs)
    ||| (req_nat(pairs, "NbAnim"@) matches Some(nb) && anims_err(pairs, nb))
    ||| syncs_of(pairs) is None
    ||| (opt_nat(pairs, "TextCount"@) matches Some(tc) && syncs_of(pairs) matches Some(ss)
        && texts_of(pairs, tc, ss) is None)
}

/// What one effect section decodes to.
pub open spec fn eff_rel(pairs: Seq<(Seq<char>, Seq<char>)>, e: Eff) -> bool {
    &&& req_nat(pairs, "ID"@) == Some(e.id as int)
    &&& req_nat(pairs, "NbAnim"@) == Some(e.anims@.len() as int)
    &&& anims_rel(pairs, e.anims@)
    &&& syncs_of(pairs) == Some(e.syncs@.map_values(|x: usize| x as int))
    &&& opt_nat(pairs, "TextCount"@) matches Some(tc) && (texts_of(
        pairs,
        tc,
        e.syncs@.map_values(|x: usize| x as int),
    ) matches Some(p) && p.0 == crate::kfn_ini::eff::texts_view(e.texts@))
    &&& crate::kfn_ini::trajectory::spec_trajectory(opt_value(pairs, "Trajectory"@)) == Some(
        e.initial_trajectory,
    )
    &&& opt_name_rel(pairs, "LibImage"@, e.initial_lib_image)
    &&& opt_name_rel(pairs, "VideoFile"@, e.initial_video_file)
    &&& font_rel(pairs, e.initial_font)
    &&& color_rel(pairs, "InactiveColor"@, e.initial_inactive_color)
    &&& color_rel(pairs, "ActiveColor"@, e.initial_active_color)
}

/// Every numbered effect section of the document is present and decodes.
pub open spec fn eff_sections_ok(d: DocRaw) -> bool {
    effect_count_of(d) matches Some(c) && forall|n: int|
        1 <= n <= c ==> match crate::ini_doc::sec_lookup(d, #[trigger] eff_sec_name(n)) {
            Some(pairs) => !eff_err(pairs),
            None => false,
        }
}

/// A sequence of machine sizes as mathematical integers.
pub open spec fn usizes_int(s: Seq<usize>) -> Seq<int> {
    s.map_values(|x: usize| x as int)
}

/// A malformed element makes the whole number list malformed.
proof fn lemma_nat_list_none(segs: Seq<Seq<char>>, k: int)
    requires
        0 <= k < segs.len(),
        !(crate::strutil::is_dec_digits(segs[k]) && crate::strutil::dec_val(segs[k])
            <= usize::MAX),
    ensures
        parse_nat_list(segs) is None,
    decreases segs.len(),
{
    if k < segs.len() - 1 {
        lemma_nat_list_none(segs.drop_last(), k);
    }
}

/// A malformed sync value makes the whole section's syncs malformed.
proof fn lemma_syncs_none(pairs: Seq<(Seq<char>, Seq<char>)>, k: int)
    requires
        0 <= k < pairs.len(),
        sync_key(pairs[k].0),
        sync_list_of(pairs[k].1) is None,
    ensures
        syncs_of(pairs) is None,
    decreases pairs.len(),
{
    if k < pairs.len() - 1 {
        lemma_syncs_none(pairs.drop_last(), k);
    }
}

fn grammar_err(section: &str, key: &str) -> (r: crate::KfnParseError)
    ensures
        r matches crate::KfnParseError::GrammarError { section: s, key: k } && s@ == section@ && k@
            == key@,
{
    crate::KfnParseError::GrammarError { section: section.to_owned(), key: key.to_owned() }
}

fn sec_req_nat(sec: &crate::ini_doc::IniSection, key: &str) -> (r: Option<usize>)
    ensures
        r matches Some(v) ==> req_nat(sec.pairs.deep_view(), key@) == Some(v as int),
        r is None ==> req_nat(sec.pairs.deep_view(), key@) is None,
{
    match sec.get(key) {
        Some(v) => crate::strutil::parse_usize(v.as_str()),
        None => None,
    }
}

fn sec_opt_nat(sec: &crate::ini_doc::IniSection, key: &str) -> (r: Option<usize>)
    ensures
        r matches Some(v) ==> opt_nat(sec.pairs.deep_view(), key@) == Some(v as int),
        r is None ==> opt_nat(sec.pairs.deep_view(), key@) is None,
{
    match sec.get(key) {
        Some(v) => crate::strutil::parse_usize(v.as_str()),
        None => Some(0),
    }
}

/// Parses one comma list of sync timestamps onto the end of `out`.
fn parse_sync_values(v: &str, out: &mut Vec<usize>) -> (ok: bool)
    ensures
        ok ==> (sync_list_of(v@) matches Some(l) && usizes_int(final (out)@) == usizes_int(
            old(out)@,
        ) + l),
        !ok ==> sync_list_of(v@) is None,
{
    let seps = vec![','];
    proof {
        crate::strutil::lemma_set_of_one(',');
        assert(seps@ =~= seq![',']);
    }
    let parts = crate::strutil::split_on(v, &seps);
    let ghost gparts = spec_split(v@, set![',']);
    let ghost base = usizes_int(out@);
    let mut k: usize = 0;
    while k < parts.len()
        invariant
            k <= parts.len(),
            gparts == spec_split(v@, set![',']),
            parts.deep_view() == gparts,
            parse_nat_list(gparts.take(k as int)) matches Some(xs) && usizes_int(out@) == base
                + xs,
        decreases parts.len() - k,
    {
        proof {
            assert(parts.deep_view()[k as int] == parts@[k as int]@);
            assert(gparts.take(k + 1 as int).drop_last() =~= gparts.take(k as int));
            assert(gparts.take(k + 1 as int).last() == gparts[k as int]);
        }
        match crate::strutil::parse_usize(parts[k].as_str()) {
            Some(n) => {
                let ghost out0 = out@;
                out.push(n);
                proof {
                    let prev = parse_nat_list(gparts.take(k as int));
                    assert(usizes_int(out@) =~= usizes_int(out0).push(n as int));
                    assert(usizes_int(out@) =~= base + prev->Some_0.push(n as int));
                }
            },
            None => {
                proof {
                    lemma_nat_list_none(gparts, k as int);
                }
                return false;
            },
        }
        k = k + 1;
    }
    proof {
        assert(gparts.take(parts.len() as int) =~= gparts);
    }
    true
}

/// Gathers all sync timestamps of one section, in key order.
fn syncs_from_section(sec: &crate::ini_doc::IniSection) -> (r: Option<Vec<usize>>)
    ensures
        r matches Some(v) ==> syncs_of(sec.pairs.deep_view()) == Some(usizes_int(v@)),
        r is None ==> syncs_of(sec.pairs.deep_view()) is None,
{
    let ghost dv = sec.pairs.deep_view();
    let mut out: Vec<usize> = Vec::new();
    let mut i: usize = 0;
    while i < sec.pairs.len()
        invariant
            i <= sec.pairs.len(),
            dv == sec.pairs.deep_view(),
            syncs_of(dv.take(i as int)) == Some(usizes_int(out@)),
        decreases sec.pairs.len() - i,
    {
        proof {
            assert(dv[i as int] == (sec.pairs@[i as int].0@, sec.pairs@[i as int].1@));
            assert(dv.take(i + 1 as int).drop_last() =~= dv.take(i as int));
            assert(dv.take(i + 1 as int).last() == dv[i as int]);
        }
        let k = sec.pairs[i].0.as_str();
        if crate::strutil::contains_sub(k, "Sync") && !crate::strutil::contains_sub(k, "InSync") {
            if !parse_sync_values(sec.pairs[i].1.as_str(), &mut out) {
                proof {
                    lemma_syncs_none(dv, i as int);
                }
                return None;
            }
        }
        i = i + 1;
    }
    proof {
        assert(dv.take(sec.pairs.len() as int) =~= dv);
    }
    Some(out)
}

/// Decodes the numbered animation rows of one section.
fn anims_from_section(sec: &crate::ini_doc::IniSection, nb: usize) -> (r: Option<
    Vec<crate::kfn_ini::eff::Anim>,
>)
    ensures
        r matches Some(v) ==> v.len() == nb && anims_rel(sec.pairs.deep_view(), v@) && !anims_err(
            sec.pairs.deep_view(),
            nb as int,
        ),
        r is None ==> anims_err(sec.pairs.deep_view(), nb as int),
{
    let ghost dv = sec.pairs.deep_view();
    let mut anims: Vec<crate::kfn_ini::eff::Anim> = Vec::new();
    let mut j: usize = 0;
    while j < nb
        invariant
            j <= nb,
            dv == sec.pairs.deep_view(),
            anims.len() == j,
            forall|k: int|
                0 <= k < j ==> match crate::ini_doc::pair_lookup(dv, #[trigger] anim_key(k)) {
                    Some(v) => !crate::kfn_ini::eff::anim_row_err(v)
                        && crate::kfn_ini::eff::anim_row_rel(v, anims@[k]),
                    None => false,
                },
        decreases nb - j,
    {
        let mut key = crate::strutil::str_to_string("Anim");
        let num = u64_to_string(j as u64);
        crate::strutil::append_str(&mut key, num.as_str());
        proof {
            assert(key@ == anim_key(j as int));
        }
        let v = match sec.get(key.as_str()) {
            Some(v) => v,
            None => {
                proof {
                    assert(crate::ini_doc::pair_lookup(dv, anim_key(j as int)) is None);
                }
                return None;
            },
        };
        match crate::kfn_ini::eff::parse_anim_row(v.as_str()) {
            Some(a) => {
                anims.push(a);
            },
            None => {
                proof {
                    assert(crate::ini_doc::pair_lookup(dv, anim_key(j as int)) == Some(v@));
                }
                return None;
            },
        }
        j = j + 1;
    }
    proof {
        assert(!anims_err(dv, nb as int));
    }
    Some(anims)
}

/// Decodes the font field of one section.
fn font_from_section(sec: &crate::ini_doc::IniSection) -> (r: Result<Option<(String, u32)>, ()>)
    ensures
        r matches Ok(f) ==> font_rel(sec.pairs.deep_view(), f) && !font_err(sec.pairs.deep_view()),
        r is Err ==> font_err(sec.pairs.deep_view()),
{
    let ghost dv = sec.pairs.deep_view();
    let v = match sec.get("Font") {
        Some(v) => v,
        None => {
            return Ok(None);
        },
    };
    let seps = vec!['*'];
    proof {
        crate::strutil::lemma_set_of_one('*');
        assert(seps@ =~= seq!['*']);
    }
    let parts = crate::strutil::split_on(v.as_str(), &seps);
    if parts.len() < 2 {
        return Err(());
    }
    proof {
        assert(parts.deep_view()[0] == parts@[0]@);
        assert(parts.deep_view()[1] == parts@[1]@);
    }
    let name = parts[0].as_str();
    let nlen = name.unicode_len();
    let ext_ok: bool;
    if nlen >= 4 {
        let ext = name.substring_char(nlen - 4, nlen);
        proof {
            assert(name@.subrange(nlen - 4, nlen as int) =~= name@.skip(name@.len() - 4));
        }
        ext_ok = crate::strutil::str_eq(ext, ".ttf") || crate::strutil::str_eq(ext, ".TTF")
            || crate::strutil::str_eq(ext, ".otf");
    } else {
        ext_ok = false;
    }
    if !ext_ok {
        return Ok(None);
    }
    match crate::strutil::parse_usize(parts[1].as_str()) {
        Some(sz) => {
            if sz <= 0xffffffff {
                Ok(Some((crate::strutil::str_to_string(name), sz as u32)))
            } else {
                Err(())
            }
        },
        None => Err(()),
    }
}

/// Decodes an optional name field: absent or empty is none.
fn opt_name_from(sec: &crate::ini_doc::IniSection, key: &str) -> (r: Option<String>)
    ensures
        opt_name_rel(sec.pairs.deep_view(), key@, r),
{
    match sec.get(key) {
        Some(v) => {
            if v.as_str().unicode_len() == 0 {
                None
            } else {
                Some(v)
            }
        },
        None => None,
    }
}

/// Aggregates the lyric lines of one section: sweeps the text rows while
/// unconsumed syncs remain, each nonempty row taking one sync per
/// fragment.
fn texts_from_section(
    sec: &crate::ini_doc::IniSection,
    text_count: usize,
    syncs: &Vec<usize>,
) -> (r: Option<Vec<crate::kfn_ini::eff::TextEntry>>)
    ensures
        r matches Some(ts) ==> (texts_of(
            sec.pairs.deep_view(),
            text_count as int,
            usizes_int(syncs@),
        ) matches Some(p) && p.0 == crate::kfn_ini::eff::texts_view(ts@)),
        r is None ==> texts_of(sec.pairs.deep_view(), text_count as int, usizes_int(syncs@))
            is None,
{
    let ghost dv = sec.pairs.deep_view();
    let ghost gsyncs = usizes_int(syncs@);
    if text_count == 0 || syncs.len() == 0 {
        let ts: Vec<crate::kfn_ini::eff::TextEntry> = Vec::new();
        proof {
            assert(crate::kfn_ini::eff::texts_view(ts@) =~= Seq::<
                crate::kfn_ini::eff::TextEntryV,
            >::empty());
        }
        return Some(ts);
    }
    let mut values: Vec<String> = Vec::new();
    let mut j: usize = 0;
    while j < text_count
        invariant
            j <= text_count,
            dv == sec.pairs.deep_view(),
            values.len() == j,
            values.deep_view() == text_values(dv, j as int),
        decreases text_count - j,
    {
        let mut key = crate::strutil::str_to_string("Text");
        let num = u64_to_string(j as u64);
        crate::strutil::append_str(&mut key, num.as_str());
        proof {
            assert(key@ == text_key(j as int));
        }
        let v = match sec.get(key.as_str()) {
            Some(v) => v,
            None => String::new(),
        };
        let ghost gv = v@;
        let ghost dvals0 = values.deep_view();
        proof {
            assert(gv == text_value(dv, j as int));
        }
        values.push(v);
        proof {
            assert(values.deep_view() =~= dvals0.push(gv));
            assert(values.deep_view() =~= text_values(dv, (j + 1) as int));
        }
        j = j + 1;
    }
    let ghost gvals = text_values(dv, text_count as int);
    let ghost total = collect(gvals, gsyncs, 0, 0, 0);
    let mut texts: Vec<crate::kfn_ini::eff::TextEntry> = Vec::new();
    let mut cursor: usize = 0;
    let fr_seps = vec!['/', ' '];
    proof {
        crate::strutil::lemma_set_of_two('/', ' ');
        assert(fr_seps@ =~= seq!['/', ' ']);
    }
    loop
        invariant
            cursor <= syncs.len(),
            text_count > 0,
            gsyncs.len() > 0,
            gvals == text_values(dv, text_count as int),
            gsyncs == usizes_int(syncs@),
            gsyncs.len() == syncs.len(),
            gvals.len() == values.len(),
            values.deep_view() == gvals,
            total == collect(gvals, gsyncs, 0, 0, 0),
            fr_seps@.to_set() == set!['/', ' '],
            dv == sec.pairs.deep_view(),
            text_count as int == gvals.len(),
            (match collect(gvals, gsyncs, cursor as int, cursor as int, 0) {
                Some(p) => total == Some(
                    (crate::kfn_ini::eff::texts_view(texts@) + p.0, p.1),
                ),
                None => total is None,
            }),
        decreases gsyncs.len() - cursor,
    {
        let c0 = cursor;
        let mut i: usize = 0;
        while i < values.len()
            invariant
                i <= values.len(),
                c0 <= cursor <= syncs.len(),
                text_count > 0,
                gsyncs.len() > 0,
                gvals == text_values(dv, text_count as int),
                gsyncs == usizes_int(syncs@),
                gsyncs.len() == syncs.len(),
                gvals.len() == values.len(),
                values.deep_view() == gvals,
                total == collect(gvals, gsyncs, 0, 0, 0),
                fr_seps@.to_set() == set!['/', ' '],
                dv == sec.pairs.deep_view(),
                text_count as int == gvals.len(),
                (match collect(gvals, gsyncs, c0 as int, cursor as int, i as int) {
                    Some(p) => total == Some(
                        (crate::kfn_ini::eff::texts_view(texts@) + p.0, p.1),
                    ),
                    None => total is None,
                }),
            decreases values.len() - i,
        {
            proof {
                assert(values.deep_view()[i as int] == values@[i as int]@);
            }
            let v = &values[i];
            if v.as_str().unicode_len() == 0 {
                i = i + 1;
                continue ;
            }
            let frags = crate::strutil::split_on(v.as_str(), &fr_seps);
            let ghost gfrags = spec_split(gvals[i as int], set!['/', ' ']);
            proof {
                assert(frags.deep_view() == gfrags);
            }
            if frags.len() > syncs.len() - cursor {
                proof {
                    assert(collect(gvals, gsyncs, c0 as int, cursor as int, i as int) is None);
                }
                return None;
            }
            let display = crate::strutil::strip_char(v.as_str(), '/');
            let mut fragments: Vec<(usize, String)> = Vec::new();
            let mut k: usize = 0;
            while k < frags.len()
                invariant
                    k <= frags.len(),
                    cursor + frags.len() <= syncs.len(),
                    gsyncs == usizes_int(syncs@),
                    gsyncs.len() == syncs.len(),
                    frags.deep_view() == gfrags,
                    gfrags.len() == frags.len(),
                    fragments.len() == k,
                    forall|m: int|
                        0 <= m < k ==> #[trigger] fragments@[m].0 as int == gsyncs[cursor + m]
                            && fragments@[m].1@ == gfrags[m],
                decreases frags.len() - k,
            {
                proof {
                    assert(frags.deep_view()[k as int] == frags@[k as int]@);
                    assert(gsyncs[cursor + k as int] == syncs@[cursor + k as int] as int);
                }
                fragments.push((syncs[cursor + k], frags[k].clone()));
                k = k + 1;
            }
            let entry = crate::kfn_ini::eff::TextEntry { display, fragments };
            let ghost gentry = crate::kfn_ini::eff::TextEntryV {
                display: crate::strutil::remove_char(gvals[i as int], '/'),
                fragments: Seq::new(
                    gfrags.len(),
                    |k: int| (gsyncs[cursor + k], gfrags[k]),
                ),
            };
            proof {
                assert(crate::kfn_ini::eff::text_entry_view(entry).fragments =~= gentry.fragments);
                assert(crate::kfn_ini::eff::text_entry_view(entry) == gentry);
            }
            let ghost texts0 = texts@;
            texts.push(entry);
            proof {
                assert(crate::kfn_ini::eff::texts_view(texts@) =~= crate::kfn_ini::eff::texts_view(
                    texts0,
                ).push(crate::kfn_ini::eff::text_entry_view(entry)));
            }
            cursor = cursor + frags.len();
            i = i + 1;
            proof {
                let before = collect(gvals, gsyncs, c0 as int, (cursor - frags.len()) as int, (i
                    - 1) as int);
                let after = collect(gvals, gsyncs, c0 as int, cursor as int, i as int);
                match after {
                    Some(p) => {
                        assert(before == Some((seq![gentry] + p.0, p.1)));
                        assert(crate::kfn_ini::eff::texts_view(texts0).push(gentry) + p.0
                            =~= crate::kfn_ini::eff::texts_view(texts0) + (seq![gentry] + p.0));
                    },
                    None => {
                        assert(before is None);
                    },
                }
            }
        }
        // end of one sweep over all rows
        proof {
            assert(collect(gvals, gsyncs, c0 as int, cursor as int, i as int) == if cursor > c0
                && cursor < gsyncs.len() {
                collect(gvals, gsyncs, cursor as int, cursor as int, 0)
            } else {
                Some((Seq::<crate::kfn_ini::eff::TextEntryV>::empty(), cursor as int))
            });
        }
        if cursor == c0 || cursor >= syncs.len() {
            proof {
                assert(crate::kfn_ini::eff::texts_view(texts@) + Seq::<
                    crate::kfn_ini::eff::TextEntryV,
                >::empty() =~= crate::kfn_ini::eff::texts_view(texts@));
            }
            return Some(texts);
        }
    }
}

/// The key a failing effect section's error names, in the order the
/// decoder checks its fields.
pub open spec fn eff_err_key(pairs: Seq<(Seq<char>, Seq<char>)>) -> Seq<char> {
    if req_nat(pairs, "ID"@) is None {
        "ID"@
    } else if req_nat(pairs, "NbAnim"@) is None {
        "NbAnim"@
    } else if opt_nat(pairs, "TextCount"@) is None {
        "TextCount"@
    } else if crate::kfn_ini::trajectory::spec_trajectory(opt_value(pairs, "Trajectory"@))
        is None {
        "Trajectory"@
    } else if anims_err(pairs, req_nat(pairs, "NbAnim"@)->Some_0) {
        "Anim"@
    } else if syncs_of(pairs) is None {
        "Sync"@
    } else if texts_of(
        pairs,
        opt_nat(pairs, "TextCount"@)->Some_0,
        syncs_of(pairs)->Some_0,
    ) is None {
        "Text"@
    } else {
        "Font"@
    }
}

/// Which section and key a grammar failure names: a bad effect count
/// names `General.EffectCount`; otherwise some section is the first that
/// fails, and the error names it and its first failing key.
pub open spec fn load_err_desc(d: DocRaw, section: Seq<char>, key: Seq<char>) -> bool {
    ||| (effect_count_of(d) is None && section == "General"@ && key == "EffectCount"@)
    ||| (effect_count_of(d) matches Some(c) && (exists|n0: int|
        1 <= n0 <= c && #[trigger] load_err_at(d, n0, section, key)))
}

/// A grammar failure at section `n0`: every earlier section decodes, the
/// error names section `n0`, and its key is the missing `ID` of an absent
/// section or the first failing key of a present one.
pub open spec fn load_err_at(d: DocRaw, n0: int, section: Seq<char>, key: Seq<char>) -> bool {
    &&& (forall|m: int|
        1 <= m < n0 ==> match crate::ini_doc::sec_lookup(d, #[trigger] eff_sec_name(m)) {
            Some(ps) => !eff_err(ps),
            None => false,
        })
    &&& section == eff_sec_name(n0)
    &&& match crate::ini_doc::sec_lookup(d, eff_sec_name(n0)) {
        None => key == "ID"@,
        Some(pairs) => eff_err(pairs) && key == eff_err_key(pairs),
    }
}

impl KfnIni {
    /// Reading the Eff# headed sections: decodes `General.EffectCount`
    /// sections named `Eff1..` and appends one effect layer for each. On a
    /// missing section or a malformed field nothing is appended and the
    /// error names the section (and, where one is at fault, the key).
    pub fn load_eff(&mut self) -> (r: Result<(), crate::KfnParseError>)
        ensures
            final (self).ini == old(self).ini,
            r is Ok <==> eff_sections_ok(doc_raw(old(self).ini)),
            r matches Ok(_) ==> (effect_count_of(doc_raw(old(self).ini)) matches Some(c)
                && final (self).effs@.len() == old(self).effs@.len() + c && final (
            self).effs@.take(old(self).effs@.len() as int) == old(self).effs@ && (forall|n: int|
                0 <= n < c ==> match crate::ini_doc::sec_lookup(
                    doc_raw(old(self).ini),
                    #[trigger] eff_sec_name(n + 1),
                ) {
                    Some(pairs) => eff_rel(pairs, final (self).effs@[old(self).effs@.len() + n]),
                    None => false,
                })),
            r is Err ==> final (self).effs@ == old(self).effs@,
            r matches Err(e) ==> (e matches crate::KfnParseError::GrammarError { section, key }
                && load_err_desc(doc_raw(old(self).ini), section@, key@)),
    {
        let ghost d = doc_raw(self.ini);
        let count: usize = match self.ini.get_from("General", "EffectCount") {
            Some(v) => match crate::strutil::parse_usize(v.as_str()) {
                Some(c) => c,
                None => {
                    return Err(grammar_err("General", "EffectCount"));
                },
            },
            None => 0,
        };
        proof {
            assert(effect_count_of(d) == Some(count as int));
        }
        let base_len = self.effs.len();
        let ghost base = base_len as int;
        let ghost effs0 = self.effs@;
        let mut n: usize = 0;
        while n < count
            invariant
                n <= count,
                d == doc_raw(self.ini),
                self.ini == old(self).ini,
                effect_count_of(d) == Some(count as int),
                base == effs0.len(),
                base == base_len as int,
                effs0 == old(self).effs@,
                self.effs@.len() == base + n,
                self.effs@.take(base) == effs0,
                forall|m: int|
                    0 <= m < n ==> match crate::ini_doc::sec_lookup(
                        d,
                        #[trigger] eff_sec_name(m + 1),
                    ) {
                        Some(pairs) => !eff_err(pairs) && eff_rel(pairs, self.effs@[base + m]),
                        None => false,
                    },
            decreases count - n,
        {
            let i = n + 1;
            let mut sec_name = crate::strutil::str_to_string("Eff");
            let num = u64_to_string(i as u64);
            crate::strutil::append_str(&mut sec_name, num.as_str());
            proof {
                assert(sec_name@ == eff_sec_name(i as int));
            }
            let si = match self.ini.find_section(sec_name.as_str()) {
                Some(si) => si,
                None => {
                    proof {
                        crate::ini_doc::lemma_sec_lookup_skip(
                            d,
                            sec_name@,
                            d.len() as int,
                        );
                        assert(d.skip(d.len() as int).len() == 0);
                        assert(crate::ini_doc::sec_lookup(d, eff_sec_name(i as int)) is None);
                    }
                    self.effs.truncate(base_len);
                    proof {
                        assert(self.effs@ =~= effs0);
                        assert(!eff_sections_ok(d));
                        assert forall|m2: int|
                            1 <= m2 < i as int implies match crate::ini_doc::sec_lookup(
                            d,
                            #[trigger] eff_sec_name(m2),
                        ) {
                            Some(ps) => !eff_err(ps),
                            None => false,
                        } by {
                            assert(eff_sec_name((m2 - 1) + 1) == eff_sec_name(m2));
                        }
                        assert(load_err_at(d, i as int, sec_name@, "ID"@));
                    }
                    return Err(grammar_err(sec_name.as_str(), "ID"));
                },
            };
            proof {
                lemma_doc_sec_at(d, sec_name@, self.ini, si as int);
            }
            let ghost pairs = d[si as int].1;
            let sec = &self.ini.sections[si];
            proof {
                assert(pairs == sec.pairs.deep_view());
            }
            let id = match sec_req_nat(sec, "ID") {
                Some(v) => v,
                None => {
                    self.effs.truncate(base_len);
                    proof {
                        assert(self.effs@ =~= effs0);
                        assert(eff_err(pairs));
                        assert(!eff_sections_ok(d));
                        assert(eff_err_key(pairs) == "ID"@);
                        assert forall|m2: int|
                            1 <= m2 < i as int implies match crate::ini_doc::sec_lookup(
                            d,
                            #[trigger] eff_sec_name(m2),
                        ) {
                            Some(ps) => !eff_err(ps),
                            None => false,
                        } by {
                            assert(eff_sec_name((m2 - 1) + 1) == eff_sec_name(m2));
                        }
                        assert(load_err_at(d, i as int, sec_name@, "ID"@));
                    }
                    return Err(grammar_err(sec_name.as_str(), "ID"));
                },
            };
            let nb = match sec_req_nat(sec, "NbAnim") {
                Some(v) => v,
                None => {
                    self.effs.truncate(base_len);
                    proof {
                        assert(self.effs@ =~= effs0);
                        assert(eff_err(pairs));
                        assert(!eff_sections_ok(d));
                        assert(eff_err_key(pairs) == "NbAnim"@);
                        assert forall|m2: int|
                            1 <= m2 < i as int implies match crate::ini_doc::sec_lookup(
                            d,
                            #[trigger] eff_sec_name(m2),
                        ) {
                            Some(ps) => !eff_err(ps),
                            None => false,
                        } by {
                            assert(eff_sec_name((m2 - 1) + 1) == eff_sec_name(m2));
                        }
                        assert(load_err_at(d, i as int, sec_name@, "NbAnim"@));
                    }
                    return Err(grammar_err(sec_name.as_str(), "NbAnim"));
                },
            };
            let tc = match sec_opt_nat(sec, "TextCount") {
                Some(v) => v,
                None => {
                    self.effs.truncate(base_len);
                    proof {
                        assert(self.effs@ =~= effs0);
                        assert(eff_err(pairs));
                        assert(!eff_sections_ok(d));
                        assert(eff_err_key(pairs) == "TextCount"@);
                        assert forall|m2: int|
                            1 <= m2 < i as int implies match crate::ini_doc::sec_lookup(
                            d,
                            #[trigger] eff_sec_name(m2),
                        ) {
                            Some(ps) => !eff_err(ps),
                            None => false,
                        } by {
                            assert(eff_sec_name((m2 - 1) + 1) == eff_sec_name(m2));
                        }
                        assert(load_err_at(d, i as int, sec_name@, "TextCount"@));
                    }
                    return Err(grammar_err(sec_name.as_str(), "TextCount"));
                },
            };
            let tv = match sec.get("Trajectory") {
                Some(v) => v,
                None => String::new(),
            };
            proof {
                assert(tv@ == opt_value(pairs, "Trajectory"@));
            }
            let traj = match crate::kfn_ini::trajectory::Trajectory::from(tv.as_str()) {
                Some(t) => t,
                None => {
                    self.effs.truncate(base_len);
                    proof {
                        assert(self.effs@ =~= effs0);
                        assert(eff_err(pairs));
                        assert(!eff_sections_ok(d));
                        assert(eff_err_key(pairs) == "Trajectory"@);
                        assert forall|m2: int|
                            1 <= m2 < i as int implies match crate::ini_doc::sec_lookup(
                            d,
                            #[trigger] eff_sec_name(m2),
                        ) {
                            Some(ps) => !eff_err(ps),
                            None => false,
                        } by {
                            assert(eff_sec_name((m2 - 1) + 1) == eff_sec_name(m2));
                        }
                        assert(load_err_at(d, i as int, sec_name@, "Trajectory"@));
                    }
                    return Err(grammar_err(sec_name.as_str(), "Trajectory"));
                },
            };
            let anims = match anims_from_section(sec, nb) {
                Some(a) => a,
                None => {
                    self.effs.truncate(base_len);
                    proof {
                        assert(self.effs@ =~= effs0);
                        assert(eff_err(pairs));
                        assert(!eff_sections_ok(d));
                        assert(eff_err_key(pairs) == "Anim"@);
                        assert forall|m2: int|
                            1 <= m2 < i as int implies match crate::ini_doc::sec_lookup(
                            d,
                            #[trigger] eff_sec_name(m2),
                        ) {
                            Some(ps) => !eff_err(ps),
                            None => false,
                        } by {
                            assert(eff_sec_name((m2 - 1) + 1) == eff_sec_name(m2));
                        }
                        assert(load_err_at(d, i as int, sec_name@, "Anim"@));
                    }
                    return Err(grammar_err(sec_name.as_str(), "Anim"));
                },
            };
            let syncs = match syncs_from_section(sec) {
                Some(ss) => ss,
                None => {
                    self.effs.truncate(base_len);
                    proof {
                        assert(self.effs@ =~= effs0);
                        assert(eff_err(pairs));
                        assert(!eff_sections_ok(d));
                        assert(eff_err_key(pairs) == "Sync"@);
                        assert forall|m2: int|
                            1 <= m2 < i as int implies match crate::ini_doc::sec_lookup(
                            d,
                            #[trigger] eff_sec_name(m2),
                        ) {
                            Some(ps) => !eff_err(ps),
                            None => false,
                        } by {
                            assert(eff_sec_name((m2 - 1) + 1) == eff_sec_name(m2));
                        }
                        assert(load_err_at(d, i as int, sec_name@, "Sync"@));
                    }
                    return Err(grammar_err(sec_name.as_str(), "Sync"));
                },
            };
            let texts = match texts_from_section(sec, tc, &syncs) {
                Some(ts) => ts,
                None => {
                    self.effs.truncate(base_len);
                    proof {
                        assert(self.effs@ =~= effs0);
                        assert(eff_err(pairs));
                        assert(!eff_sections_ok(d));
                        assert(eff_err_key(pairs) == "Text"@);
                        assert forall|m2: int|
                            1 <= m2 < i as int implies match crate::ini_doc::sec_lookup(
                            d,
                            #[trigger] eff_sec_name(m2),
                        ) {
                            Some(ps) => !eff_err(ps),
                            None => false,
                        } by {
                            assert(eff_sec_name((m2 - 1) + 1) == eff_sec_name(m2));
                        }
                        assert(load_err_at(d, i as int, sec_name@, "Text"@));
                    }
                    return Err(grammar_err(sec_name.as_str(), "Text"));
                },
            };
            let initial_font = match font_from_section(sec) {
                Ok(f) => f,
                Err(_) => {
                    self.effs.truncate(base_len);
                    proof {
                        assert(self.effs@ =~= effs0);
                        assert(eff_err(pairs));
                        assert(!eff_sections_ok(d));
                        assert(eff_err_key(pairs) == "Font"@);
                        assert forall|m2: int|
                            1 <= m2 < i as int implies match crate::ini_doc::sec_lookup(
                            d,
                            #[trigger] eff_sec_name(m2),
                        ) {
                            Some(ps) => !eff_err(ps),
                            None => false,
                        } by {
                            assert(eff_sec_name((m2 - 1) + 1) == eff_sec_name(m2));
                        }
                        assert(load_err_at(d, i as int, sec_name@, "Font"@));
                    }
                    return Err(grammar_err(sec_name.as_str(), "Font"));
                },
            };
            let initial_lib_image = opt_name_from(sec, "LibImage");
            let initial_video_file = opt_name_from(sec, "VideoFile");
            let initial_inactive_color = sec.get("InactiveColor");
            let initial_active_color = sec.get("ActiveColor");
            let eff = Eff {
                id,
                anims,
                syncs,
                texts,
                initial_trajectory: traj,
                initial_lib_image,
                initial_video_file,
                initial_font,
                initial_inactive_color,
                initial_active_color,
            };
            proof {
                assert(eff_rel(pairs, eff));
                assert(!eff_err(pairs));
            }
            let ghost effs_before = self.effs@;
            self.effs.push(eff);
            proof {
                assert(self.effs@.take(base) =~= effs_before.take(base));
            }
            n = n + 1;
        }
        proof {
            assert forall|n2: int|
                1 <= n2 <= count ==> match crate::ini_doc::sec_lookup(
                    d,
                    #[trigger] eff_sec_name(n2),
                ) {
                    Some(pairs) => !eff_err(pairs),
                    None => false,
                } by {
                assert(eff_sec_name((n2 - 1) + 1) == eff_sec_name(n2));
            }
            assert(eff_sections_ok(d));
        }
        Ok(())
    }
}

/// The document-level lookup of a section at its first match.
proof fn lemma_doc_sec_at(
    d: DocRaw,
    name: Seq<char>,
    doc: IniDoc,
    i: int,
)
    requires
        d == doc_raw(doc),
        0 <= i < doc.sections.len(),
        doc.sections@[i].name@ == name,
        forall|k: int| 0 <= k < i ==> (#[trigger] doc.sections@[k]).name@ != name,
    ensures
        crate::ini_doc::sec_lookup(d, name) == Some(d[i].1),
        d[i].1 == doc.sections@[i].pairs.deep_view(),
{
    assert(forall|k: int| 0 <= k < i ==> (#[trigger] d[k]).0 != name);
    crate::ini_doc::lemma_sec_lookup_skip(d, name, i);
    assert(d.skip(i).first() == d[i]);
}

/// Fragments consume syncs one for one: a successful aggregation yields
/// exactly one fragment per consumed sync, and never runs past the syncs.
proof fn lemma_collect_frag_count(
    values: Seq<Seq<char>>,
    syncs: Seq<int>,
    c0: int,
    cursor: int,
    i: int,
)
    requires
        collect(values, syncs, c0, cursor, i) is Some,
    ensures
        ({
            let p = collect(values, syncs, c0, cursor, i)->Some_0;
            crate::kfn_ini::eff::frag_count(p.0) == p.1 - cursor && cursor <= p.1 <= syncs.len()
        }),
    decreases syncs.len() - c0, values.len() - i,
{
    if !(0 <= c0 <= cursor <= syncs.len() && 0 <= i <= values.len()) {
    } else if i == values.len() {
        if cursor > c0 && cursor < syncs.len() {
            lemma_collect_frag_count(values, syncs, cursor, cursor, 0);
        }
    } else {
        let v = values[i];
        if v.len() == 0 {
            lemma_collect_frag_count(values, syncs, c0, cursor, i + 1);
        } else {
            let frags = spec_split(v, set!['/', ' ']);
            if cursor + frags.len() <= syncs.len() {
                lemma_collect_frag_count(values, syncs, c0, cursor + frags.len(), i + 1);
                let entry = crate::kfn_ini::eff::TextEntryV {
                    display: crate::strutil::remove_char(v, '/'),
                    fragments: Seq::new(frags.len(), |k: int| (syncs[cursor + k], frags[k])),
                };
                let rest = collect(values, syncs, c0, cursor + frags.len(), i + 1)->Some_0;
                assert((seq![entry] + rest.0).drop_first() =~= rest.0);
                assert((seq![entry] + rest.0).first() == entry);
            }
        }
    }
}

/// For a text-bearing effect layer, the total fragment count across its
/// lyric lines never exceeds its sync count.
pub proof fn lemma_fragments_bounded(pairs: Seq<(Seq<char>, Seq<char>)>, e: Eff)
    requires
        eff_rel(pairs, e),
    ensures
        crate::kfn_ini::eff::frag_count(crate::kfn_ini::eff::texts_view(e.texts@))
            <= e.syncs@.len(),
{
    let tc = opt_nat(pairs, "TextCount"@)->Some_0;
    let gsyncs = e.syncs@.map_values(|x: usize| x as int);
    let p = texts_of(pairs, tc, gsyncs)->Some_0;
    if tc == 0 || gsyncs.len() == 0 {
        assert(crate::kfn_ini::eff::frag_count(p.0) == 0);
    } else {
        lemma_collect_frag_count(text_values(pairs, tc), gsyncs, 0, 0, 0);
    }
}

/// The re-encoded actions of one animation row, in order.
pub open spec fn actions_chars(es: Seq<crate::kfn_ini::eff::AnimEntry>) -> Seq<char>
    decreases es.len(),
{
    if es.len() == 0 {
        Seq::<char>::empty()
    } else {
        actions_chars(es.drop_last()) + crate::kfn_ini::eff::action_chars(es.last().action)
    }
}

/// The re-encoded form of one animation row: the timestamp, a bar, then
/// the actions.
pub open spec fn anim_val_chars(a: crate::kfn_ini::eff::Anim) -> Seq<char> {
    dec_string(a.time as nat) + seq!['|'] + actions_chars(a.anim_entries@)
}

/// All sync timestamps joined with commas.
pub open spec fn syncs_val_chars(ss: Seq<usize>) -> Seq<char>
    decreases ss.len(),
{
    if ss.len() == 0 {
        Seq::<char>::empty()
    } else if ss.len() == 1 {
        dec_string(ss[0] as nat)
    } else {
        syncs_val_chars(ss.drop_last()) + seq![','] + dec_string(ss.last() as nat)
    }
}

/// The numbered animation keys of one effect section.
pub open spec fn anim_kvs(anims: Seq<crate::kfn_ini::eff::Anim>) -> Seq<(Seq<char>, Seq<char>)> {
    Seq::new(anims.len(), |j: int| (anim_key(j), anim_val_chars(anims[j])))
}

/// The numbered text keys of one effect section: only the display string
/// of each line is re-emitted.
pub open spec fn text_kvs(texts: Seq<crate::kfn_ini::eff::TextEntry>) -> Seq<
    (Seq<char>, Seq<char>),
> {
    Seq::new(texts.len(), |t: int| (text_key(t), texts[t].display@))
}

/// Every key one effect section writes, in write order: the counts and
/// trajectory, the animation rows, one aggregated sync key, and the text
/// rows.
pub open spec fn eff_kvs(e: Eff) -> Seq<(Seq<char>, Seq<char>)> {
    seq![
        ("ID"@, dec_string(e.id as nat)),
        ("NbAnim"@, dec_string(e.anims@.len() as nat)),
        ("TextCount"@, dec_string(e.texts@.len() as nat)),
        ("Trajectory"@, crate::kfn_ini::trajectory::trajectory_chars(e.initial_trajectory)),
    ] + anim_kvs(e.anims@) + seq![("Sync0"@, syncs_val_chars(e.syncs@))] + text_kvs(e.texts@)
}

/// The document after writing every effect section in order; section
/// numbering starts at one.
pub open spec fn apply_effs(d: DocRaw, effs: Seq<Eff>) -> DocRaw
    decreases effs.len(),
{
    if effs.len() == 0 {
        d
    } else {
        apply_sets(
            apply_effs(d, effs.drop_last()),
            eff_sec_name(effs.len() as int),
            eff_kvs(effs.last()),
        )
    }
}

impl KfnIni {
    /// Method for setting up the effect in the Ini file: writes the effect
    /// count into `General` and one `Eff{n}` section per layer.
    pub fn set_eff(&mut self)
        ensures
            doc_raw(final (self).ini) == apply_effs(
                spec_set(
                    doc_raw(old(self).ini),
                    "General"@,
                    "EffectCount"@,
                    dec_string(old(self).effs@.len() as nat),
                ),
                old(self).effs@,
            ),
            final (self).effs == old(self).effs,
    {
        let count_s = u64_to_string(self.effs.len() as u64);
        self.ini.set("General", "EffectCount", count_s.as_str());
        let ghost d1 = doc_raw(self.ini);
        let ghost geffs = self.effs@;
        let mut eff_n: usize = 0;
        while eff_n < self.effs.len()
            invariant
                eff_n <= self.effs.len(),
                self.effs == old(self).effs,
                geffs == self.effs@,
                doc_raw(self.ini) == apply_effs(d1, geffs.take(eff_n as int)),
            decreases self.effs.len() - eff_n,
        {
            let mut sec_name = crate::strutil::str_to_string("Eff");
            let num = u64_to_string((eff_n + 1) as u64);
            crate::strutil::append_str(&mut sec_name, num.as_str());
            let ghost gsec = eff_sec_name((eff_n + 1) as int);
            proof {
                assert(sec_name@ == gsec);
            }
            let ghost dbase = doc_raw(self.ini);
            let ghost geff = geffs[eff_n as int];
            let ghost mut kvs: Seq<(Seq<char>, Seq<char>)> = Seq::empty();
            proof {
                assert(apply_sets(dbase, gsec, kvs) == doc_raw(self.ini));
            }
            let id_s = u64_to_string(self.effs[eff_n].id as u64);
            self.ini.set(sec_name.as_str(), "ID", id_s.as_str());
            proof {
                let prev = kvs;
                kvs = kvs.push(("ID"@, dec_string(geff.id as nat)));
                assert(kvs.drop_last() =~= prev);
                assert(doc_raw(self.ini) == apply_sets(dbase, gsec, kvs));
            }
            let nb_s = u64_to_string(self.effs[eff_n].anims.len() as u64);
            self.ini.set(sec_name.as_str(), "NbAnim", nb_s.as_str());
            proof {
                let prev = kvs;
                kvs = kvs.push(("NbAnim"@, dec_string(geff.anims@.len() as nat)));
                assert(kvs.drop_last() =~= prev);
                assert(doc_raw(self.ini) == apply_sets(dbase, gsec, kvs));
            }
            let tc_s = u64_to_string(self.effs[eff_n].texts.len() as u64);
            self.ini.set(sec_name.as_str(), "TextCount", tc_s.as_str());
            proof {
                let prev = kvs;
                kvs = kvs.push(("TextCount"@, dec_string(geff.texts@.len() as nat)));
                assert(kvs.drop_last() =~= prev);
                assert(doc_raw(self.ini) == apply_sets(dbase, gsec, kvs));
            }
            let traj_s = self.effs[eff_n].initial_trajectory.to_string();
            self.ini.set(sec_name.as_str(), "Trajectory", traj_s.as_str());
            proof {
                let prev = kvs;
                kvs = kvs.push(
                    (
                        "Trajectory"@,
                        crate::kfn_ini::trajectory::trajectory_chars(geff.initial_trajectory),
                    ),
                );
                assert(kvs.drop_last() =~= prev);
                assert(doc_raw(self.ini) == apply_sets(dbase, gsec, kvs));
            }
            let ghost base4 = kvs;
            let mut anim_n: usize = 0;
            while anim_n < self.effs[eff_n].anims.len()
                invariant
                    anim_n <= geff.anims@.len(),
                    eff_n < self.effs.len(),
                    self.effs == old(self).effs,
                    geffs == self.effs@,
                    geff == geffs[eff_n as int],
                    gsec == eff_sec_name((eff_n + 1) as int),
                    sec_name@ == gsec,
                    kvs == base4 + anim_kvs(geff.anims@).take(anim_n as int),
                    doc_raw(self.ini) == apply_sets(dbase, gsec, kvs),
                decreases geff.anims@.len() - anim_n,
            {
                let anim = &self.effs[eff_n].anims[anim_n];
                let mut anim_key_s = crate::strutil::str_to_string("Anim");
                let anum = u64_to_string(anim_n as u64);
                crate::strutil::append_str(&mut anim_key_s, anum.as_str());
                proof {
                    assert(anim_key_s@ == anim_key(anim_n as int));
                }
                let mut anim_val = u64_to_string(anim.time as u64);
                crate::strutil::push_char(&mut anim_val, '|');
                let mut k: usize = 0;
                while k < anim.anim_entries.len()
                    invariant
                        k <= anim.anim_entries.len(),
                        anim.anim_entries@ == geff.anims@[anim_n as int].anim_entries@,
                        anim.time == geff.anims@[anim_n as int].time,
                        anim_val@ == dec_string(anim.time as nat) + seq!['|'] + actions_chars(
                            anim.anim_entries@.take(k as int),
                        ),
                    decreases anim.anim_entries.len() - k,
                {
                    let a_s = anim.anim_entries[k].action.to_string();
                    crate::strutil::append_str(&mut anim_val, a_s.as_str());
                    proof {
                        assert(anim.anim_entries@.take(k + 1 as int).drop_last()
                            =~= anim.anim_entries@.take(k as int));
                        assert(anim.anim_entries@.take(k + 1 as int).last()
                            == anim.anim_entries@[k as int]);
                    }
                    k = k + 1;
                }
                proof {
                    assert(anim.anim_entries@.take(anim.anim_entries.len() as int)
                        =~= anim.anim_entries@);
                    assert(anim_val@ == anim_val_chars(geff.anims@[anim_n as int]));
                }
                self.ini.set(sec_name.as_str(), anim_key_s.as_str(), anim_val.as_str());
                proof {
                    let prev = kvs;
                    kvs = kvs.push(
                        (anim_key(anim_n as int), anim_val_chars(geff.anims@[anim_n as int])),
                    );
                    assert(kvs.drop_last() =~= prev);
                    assert(doc_raw(self.ini) == apply_sets(dbase, gsec, kvs));
                    assert(kvs =~= base4 + anim_kvs(geff.anims@).take((anim_n + 1) as int));
                }
                anim_n = anim_n + 1;
            }
            proof {
                assert(anim_kvs(geff.anims@).take(geff.anims@.len() as int) =~= anim_kvs(
                    geff.anims@,
                ));
            }
            // the aggregated sync key
            let mut sync_val = String::new();
            let mut sk: usize = 0;
            while sk < self.effs[eff_n].syncs.len()
                invariant
                    sk <= geff.syncs@.len(),
                    eff_n < self.effs.len(),
                    self.effs == old(self).effs,
                    geffs == self.effs@,
                    geff == geffs[eff_n as int],
                    sync_val@ == syncs_val_chars(geff.syncs@.take(sk as int)),
                decreases geff.syncs@.len() - sk,
            {
                if sk > 0 {
                    crate::strutil::push_char(&mut sync_val, ',');
                }
                let n_s = u64_to_string(self.effs[eff_n].syncs[sk] as u64);
                crate::strutil::append_str(&mut sync_val, n_s.as_str());
                proof {
                    assert(geff.syncs@.take(sk + 1 as int).drop_last() =~= geff.syncs@.take(
                        sk as int,
                    ));
                    assert(geff.syncs@.take(sk + 1 as int).last() == geff.syncs@[sk as int]);
                    assert(sync_val@ =~= syncs_val_chars(geff.syncs@.take((sk + 1) as int)));
                }
                sk = sk + 1;
            }
            proof {
                assert(geff.syncs@.take(geff.syncs@.len() as int) =~= geff.syncs@);
            }
            self.ini.set(sec_name.as_str(), "Sync0", sync_val.as_str());
            proof {
                let prev = kvs;
                kvs = kvs.push(("Sync0"@, syncs_val_chars(geff.syncs@)));
                assert(kvs.drop_last() =~= prev);
                assert(doc_raw(self.ini) == apply_sets(dbase, gsec, kvs));
            }
            let ghost base5 = kvs;
            let mut t_n: usize = 0;
            while t_n < self.effs[eff_n].texts.len()
                invariant
                    t_n <= geff.texts@.len(),
                    eff_n < self.effs.len(),
                    self.effs == old(self).effs,
                    geffs == self.effs@,
                    geff == geffs[eff_n as int],
                    gsec == eff_sec_name((eff_n + 1) as int),
                    sec_name@ == gsec,
                    kvs == base5 + text_kvs(geff.texts@).take(t_n as int),
                    doc_raw(self.ini) == apply_sets(dbase, gsec, kvs),
                decreases geff.texts@.len() - t_n,
            {
                let mut text_key_s = crate::strutil::str_to_string("Text");
                let tnum = u64_to_string(t_n as u64);
                crate::strutil::append_str(&mut text_key_s, tnum.as_str());
                proof {
                    assert(text_key_s@ == text_key(t_n as int));
                }
                let tval = crate::strutil::str_to_string(
                    self.effs[eff_n].texts[t_n].display.as_str(),
                );
                self.ini.set(sec_name.as_str(), text_key_s.as_str(), tval.as_str());
                proof {
                    let prev = kvs;
                    kvs = kvs.push((text_key(t_n as int), geff.texts@[t_n as int].display@));
                    assert(kvs.drop_last() =~= prev);
                    assert(doc_raw(self.ini) == apply_sets(dbase, gsec, kvs));
                    assert(kvs =~= base5 + text_kvs(geff.texts@).take((t_n + 1) as int));
                }
                t_n = t_n + 1;
            }
            proof {
                assert(text_kvs(geff.texts@).take(geff.texts@.len() as int) =~= text_kvs(
                    geff.texts@,
                ));
                assert(kvs =~= eff_kvs(geff));
                assert(geffs.take((eff_n + 1) as int).drop_last() =~= geffs.take(eff_n as int));
                assert(geffs.take((eff_n + 1) as int).last() == geffs[eff_n as int]);
                assert(doc_raw(self.ini) == apply_effs(d1, geffs.take((eff_n + 1) as int)));
            }
            eff_n = eff_n + 1;
        }
        proof {
            assert(geffs.take(self.effs.len() as int) =~= geffs);
        }
    }
}

} // verus!
