//! The INI-style document substrate the effects language operates on: named
//! sections of key-value pairs whose key order is the file order. The
//! document model itself is the library's own, with verified lookup and
//! update operations pinned to first-match semantics and insertion order;
//! only the conversion between this model and INI text goes through the
//! outside INI reader/writer, behind two trusted wrappers.

use vstd::prelude::*;

verus! {

/// One named section: its key-value pairs in file order.
#[derive(Debug, Clone, PartialEq)]
pub struct IniSection {
    pub name: String,
    pub pairs: Vec<(String, String)>,
}

/// An ordered INI-style document.
#[derive(Debug, Clone, PartialEq)]
pub struct IniDoc {
    pub sections: Vec<IniSection>,
}

/// The mathematical image of a section: its name and pairs as sequences.
pub open spec fn sec_raw(s: IniSection) -> (Seq<char>, Seq<(Seq<char>, Seq<char>)>) {
    (s.name@, s.pairs.deep_view())
}

/// The mathematical image of a document.
pub open spec fn doc_raw(d: IniDoc) -> Seq<(Seq<char>, Seq<(Seq<char>, Seq<char>)>)> {
    d.sections@.map_values(|s: IniSection| sec_raw(s))
}

/// The pairs of the first section with the given name, if any.
pub open spec fn sec_lookup(
    d: Seq<(Seq<char>, Seq<(Seq<char>, Seq<char>)>)>,
    name: Seq<char>,
) -> Option<Seq<(Seq<char>, Seq<char>)>>
    decreases d.len(),
{
    if d.len() == 0 {
        None
    } else if d.first().0 == name {
        Some(d.first().1)
    } else {
        sec_lookup(d.drop_first(), name)
    }
}

/// The value of the first pair with the given key, if any.
pub open spec fn pair_lookup(ps: Seq<(Seq<char>, Seq<char>)>, key: Seq<char>) -> Option<Seq<char>>
    decreases ps.len(),
{
    if ps.len() == 0 {
        None
    } else if ps.first().0 == key {
        Some(ps.first().1)
    } else {
        pair_lookup(ps.drop_first(), key)
    }
}

/// The value under a key in a named section, if both exist.
pub open spec fn spec_get(
    d: Seq<(Seq<char>, Seq<(Seq<char>, Seq<char>)>)>,
    sec: Seq<char>,
    key: Seq<char>,
) -> Option<Seq<char>> {
    match sec_lookup(d, sec) {
        Some(ps) => pair_lookup(ps, key),
        None => None,
    }
}

/// The pairs after setting a key: the first pair with the key changes its
/// value in place, otherwise the pair is appended.
pub open spec fn pair_set(
    ps: Seq<(Seq<char>, Seq<char>)>,
    key: Seq<char>,
    value: Seq<char>,
) -> Seq<(Seq<char>, Seq<char>)>
    decreases ps.len(),
{
    if ps.len() == 0 {
        seq![(key, value)]
    } else if ps.first().0 == key {
        seq![(key, value)] + ps.drop_first()
    } else {
        seq![ps.first()] + pair_set(ps.drop_first(), key, value)
    }
}

/// The document after setting a key in a named section: the first section
/// with the name takes the pair, otherwise a new section is appended.
pub open spec fn spec_set(
    d: Seq<(Seq<char>, Seq<(Seq<char>, Seq<char>)>)>,
    sec: Seq<char>,
    key: Seq<char>,
    value: Seq<char>,
) -> Seq<(Seq<char>, Seq<(Seq<char>, Seq<char>)>)>
    decreases d.len(),
{
    if d.len() == 0 {
        seq![(sec, seq![(key, value)])]
    } else if d.first().0 == sec {
        seq![(sec, pair_set(d.first().1, key, value))] + d.drop_first()
    } else {
        seq![d.first()] + spec_set(d.drop_first(), sec, key, value)
    }
}

/// Skipping a non-matching prefix does not change a section lookup.
pub proof fn lemma_sec_lookup_skip(
    d: Seq<(Seq<char>, Seq<(Seq<char>, Seq<char>)>)>,
    name: Seq<char>,
    i: int,
)
    requires
        0 <= i <= d.len(),
        forall|k: int| 0 <= k < i ==> (#[trigger] d[k]).0 != name,
    ensures
        sec_lookup(d, name) == sec_lookup(d.skip(i), name),
    decreases i,
{
    if i > 0 {
        assert(d.skip(0) =~= d);
        lemma_sec_lookup_skip(d.drop_first(), name, i - 1);
        assert(d.drop_first().skip(i - 1) =~= d.skip(i));
        assert(forall|k: int|
            0 <= k < i - 1 ==> (#[trigger] d.drop_first()[k]).0 == d[k + 1].0);
    } else {
        assert(d.skip(0) =~= d);
    }
}

/// Skipping a non-matching prefix does not change a pair lookup.
pub proof fn lemma_pair_lookup_skip(ps: Seq<(Seq<char>, Seq<char>)>, key: Seq<char>, i: int)
    requires
        0 <= i <= ps.len(),
        forall|k: int| 0 <= k < i ==> (#[trigger] ps[k]).0 != key,
    ensures
        pair_lookup(ps, key) == pair_lookup(ps.skip(i), key),
    decreases i,
{
    if i > 0 {
        lemma_pair_lookup_skip(ps.drop_first(), key, i - 1);
        assert(ps.drop_first().skip(i - 1) =~= ps.skip(i));
        assert(forall|k: int|
            0 <= k < i - 1 ==> (#[trigger] ps.drop_first()[k]).0 == ps[k + 1].0);
    } else {
        assert(ps.skip(0) =~= ps);
    }
}

/// The position of the first pair with the given key.
fn find_pair(pairs: &Vec<(String, String)>, key: &str) -> (r: Option<usize>)
    ensures
        r matches Some(i) ==> i < pairs.len() && pairs.deep_view()[i as int].0 == key@ && (forall|
            k: int,
        |
            0 <= k < i ==> (#[trigger] pairs.deep_view()[k]).0 != key@),
        r is None ==> forall|k: int|
            0 <= k < pairs.len() ==> (#[trigger] pairs.deep_view()[k]).0 != key@,
{
    let mut i: usize = 0;
    while i < pairs.len()
        invariant
            i <= pairs.len(),
            forall|k: int| 0 <= k < i ==> (#[trigger] pairs.deep_view()[k]).0 != key@,
        decreases pairs.len() - i,
    {
        proof {
            assert(pairs.deep_view()[i as int] == (pairs@[i as int].0@, pairs@[i as int].1@));
        }
        if crate::strutil::str_eq(pairs[i].0.as_str(), key) {
            return Some(i);
        }
        i = i + 1;
    }
    None
}

impl IniDoc {
    /// An empty document.
    pub fn new() -> (r: Self)
        ensures
            doc_raw(r) == Seq::<(Seq<char>, Seq<(Seq<char>, Seq<char>)>)>::empty(),
    {
        let r = IniDoc { sections: Vec::new() };
        proof {
            assert(doc_raw(r) =~= Seq::<(Seq<char>, Seq<(Seq<char>, Seq<char>)>)>::empty());
        }
        r
    }

    /// The position of the first section with the given name.
    pub fn find_section(&self, name: &str) -> (r: Option<usize>)
        ensures
            r matches Some(i) ==> i < self.sections.len() && self.sections@[i as int].name@
                == name@ && (forall|k: int|
                0 <= k < i ==> (#[trigger] self.sections@[k]).name@ != name@),
            r is None ==> forall|k: int|
                0 <= k < self.sections.len() ==> (#[trigger] self.sections@[k]).name@ != name@,
    {
        let mut i: usize = 0;
        while i < self.sections.len()
            invariant
                i <= self.sections.len(),
                forall|k: int| 0 <= k < i ==> (#[trigger] self.sections@[k]).name@ != name@,
            decreases self.sections.len() - i,
        {
            if crate::strutil::str_eq(self.sections[i].name.as_str(), name) {
                return Some(i);
            }
            i = i + 1;
        }
        None
    }

    /// The value under `key` in the section named `sec`, by first match.
    pub fn get_from(&self, sec: &str, key: &str) -> (r: Option<String>)
        ensures
            match r {
                Some(v) => spec_get(doc_raw(*self), sec@, key@) == Some(v@),
                None => spec_get(doc_raw(*self), sec@, key@) is None,
            },
    {
        let si = match self.find_section(sec) {
            Some(i) => i,
            None => {
                proof {
                    lemma_sec_lookup_none(doc_raw(*self), sec@, *self);
                }
                return None;
            },
        };
        proof {
            lemma_sec_lookup_at(doc_raw(*self), sec@, *self, si as int);
        }
        let section = &self.sections[si];
        let ghost ps = doc_raw(*self)[si as int].1;
        let mut j: usize = 0;
        while j < section.pairs.len()
            invariant
                j <= section.pairs.len(),
                ps == section.pairs.deep_view(),
                sec_lookup(doc_raw(*self), sec@) == Some(ps),
                forall|k: int| 0 <= k < j ==> (#[trigger] ps[k]).0 != key@,
            decreases section.pairs.len() - j,
        {
            proof {
                assert(ps[j as int] == (section.pairs@[j as int].0@, section.pairs@[j as int].1@));
            }
            if crate::strutil::str_eq(section.pairs[j].0.as_str(), key) {
                proof {
                    lemma_pair_lookup_skip(ps, key@, j as int);
                    assert(ps.skip(j as int).first() == ps[j as int]);
                }
                return Some(section.pairs[j].1.clone());
            }
            j = j + 1;
        }
        proof {
            lemma_pair_lookup_skip(ps, key@, section.pairs.len() as int);
            assert(ps.skip(section.pairs.len() as int).len() == 0);
        }
        None
    }

    /// Sets `key` to `value` in the section named `sec`, creating the
    /// section or the pair if absent, replacing the first match otherwise.
    pub fn set(&mut self, sec: &str, key: &str, value: &str)
        ensures
            doc_raw(*final (self)) == spec_set(doc_raw(*old(self)), sec@, key@, value@),
    {
        let ghost d0 = doc_raw(*old(self));
        let si = match self.find_section(sec) {
            Some(i) => i,
            None => {
                let mut pairs: Vec<(String, String)> = Vec::new();
                pairs.push((crate::strutil::str_to_string(key), crate::strutil::str_to_string(value)));
                let section = IniSection { name: crate::strutil::str_to_string(sec), pairs };
                proof {
                    lemma_sec_set_missing(d0, sec@, key@, value@, *old(self));
                    assert(sec_raw(section) == (sec@, seq![(key@, value@)])) by {
                        assert(section.pairs.deep_view() =~= seq![(key@, value@)]);
                    }
                }
                self.sections.push(section);
                proof {
                    assert(doc_raw(*self) =~= d0 + seq![(sec@, seq![(key@, value@)])]);
                }
                return ;
            },
        };
        proof {
            lemma_sec_set_found(d0, sec@, key@, value@, *old(self), si as int);
        }
        let ghost ps0 = d0[si as int].1;
        let mut section = self.sections.remove(si);
        proof {
            assert(ps0 == section.pairs.deep_view());
            assert(section.name@ == sec@);
        }
        let pair = (crate::strutil::str_to_string(key), crate::strutil::str_to_string(value));
        let found = find_pair(&section.pairs, key);
        let ghost new_ps: Seq<(Seq<char>, Seq<char>)> = match found {
            Some(j) => ps0.update(j as int, (key@, value@)),
            None => ps0 + seq![(key@, value@)],
        };
        match found {
            Some(j) => {
                section.pairs.remove(j);
                section.pairs.insert(j, pair);
                proof {
                    lemma_pair_set_found(ps0, key@, value@, j as int);
                    assert(section.pairs.deep_view() =~= new_ps);
                }
            },
            None => {
                section.pairs.push(pair);
                proof {
                    lemma_pair_set_missing(ps0, key@, value@);
                    assert(section.pairs.deep_view() =~= new_ps);
                }
            },
        }
        let ghost gsec = section;
        self.sections.insert(si, section);
        proof {
            assert(sec_raw(gsec) == (sec@, new_ps)) by {
                assert(gsec.name@ == sec@);
            }
            assert(doc_raw(*self) =~= d0.update(si as int, (sec@, new_ps)));
            finish_set(d0, sec@, key@, value@, *self, si as int, new_ps);
        }
    }
}

/// When no section matches, `find_section`'s failure carries to the raw
/// lookup.
proof fn lemma_sec_lookup_none(
    d: Seq<(Seq<char>, Seq<(Seq<char>, Seq<char>)>)>,
    name: Seq<char>,
    doc: IniDoc,
)
    requires
        d == doc_raw(doc),
        forall|k: int| 0 <= k < doc.sections.len() ==> (#[trigger] doc.sections@[k]).name@ != name,
    ensures
        sec_lookup(d, name) is None,
{
    assert(forall|k: int| 0 <= k < d.len() ==> (#[trigger] d[k]).0 != name);
    lemma_sec_lookup_skip(d, name, d.len() as int);
    assert(d.skip(d.len() as int).len() == 0);
}

/// A first match at `i` pins the raw lookup to that section's pairs.
proof fn lemma_sec_lookup_at(
    d: Seq<(Seq<char>, Seq<(Seq<char>, Seq<char>)>)>,
    name: Seq<char>,
    doc: IniDoc,
    i: int,
)
    requires
        d == doc_raw(doc),
        0 <= i < doc.sections.len(),
        doc.sections@[i].name@ == name,
        forall|k: int| 0 <= k < i ==> (#[trigger] doc.sections@[k]).name@ != name,
    ensures
        sec_lookup(d, name) == Some(d[i].1),
        d[i].1 == doc.sections@[i].pairs.deep_view(),
{
    assert(forall|k: int| 0 <= k < i ==> (#[trigger] d[k]).0 != name);
    lemma_sec_lookup_skip(d, name, i);
    assert(d.skip(i).first() == d[i]);
}

/// Replacing the first matching pair realizes `pair_set`.
proof fn lemma_pair_set_found(ps: Seq<(Seq<char>, Seq<char>)>, key: Seq<char>, value: Seq<char>, i: int)
    requires
        0 <= i < ps.len(),
        ps[i].0 == key,
        forall|k: int| 0 <= k < i ==> (#[trigger] ps[k]).0 != key,
    ensures
        pair_set(ps, key, value) == ps.update(i, (key, value)),
    decreases i,
{
    if i == 0 {
        assert(ps.first().0 == key);
        assert(seq![(key, value)] + ps.drop_first() =~= ps.update(0, (key, value)));
    } else {
        assert(ps.first().0 != key);
        lemma_pair_set_found(ps.drop_first(), key, value, i - 1);
        assert(forall|k: int|
            0 <= k < i - 1 ==> (#[trigger] ps.drop_first()[k]).0 == ps[k + 1].0);
        assert(seq![ps.first()] + ps.drop_first().update(i - 1, (key, value)) =~= ps.update(
            i,
            (key, value),
        ));
    }
}

/// Appending realizes `pair_set` when no pair matches.
proof fn lemma_pair_set_missing(ps: Seq<(Seq<char>, Seq<char>)>, key: Seq<char>, value: Seq<char>)
    requires
        forall|k: int| 0 <= k < ps.len() ==> (#[trigger] ps[k]).0 != key,
    ensures
        pair_set(ps, key, value) == ps + seq![(key, value)],
    decreases ps.len(),
{
    if ps.len() == 0 {
        assert(pair_set(ps, key, value) =~= ps + seq![(key, value)]);
    } else {
        lemma_pair_set_missing(ps.drop_first(), key, value);
        assert(forall|k: int|
            0 <= k < ps.drop_first().len() ==> (#[trigger] ps.drop_first()[k]).0 == ps[k + 1].0);
        assert(seq![ps.first()] + (ps.drop_first() + seq![(key, value)]) =~= ps + seq![
            (key, value),
        ]);
    }
}

/// Updating the section at the first match realizes `spec_set`.
proof fn lemma_sec_set_found(
    d: Seq<(Seq<char>, Seq<(Seq<char>, Seq<char>)>)>,
    sec: Seq<char>,
    key: Seq<char>,
    value: Seq<char>,
    doc: IniDoc,
    i: int,
)
    requires
        d == doc_raw(doc),
        0 <= i < doc.sections.len(),
        doc.sections@[i].name@ == sec,
        forall|k: int| 0 <= k < i ==> (#[trigger] doc.sections@[k]).name@ != sec,
    ensures
        spec_set(d, sec, key, value) == d.update(i, (sec, pair_set(d[i].1, key, value))),
{
    assert(forall|k: int| 0 <= k < i ==> (#[trigger] d[k]).0 != sec);
    lemma_spec_set_at(d, sec, key, value, i);
}

/// The recursion of `spec_set` reaches index `i` untouched when nothing
/// before it matches.
proof fn lemma_spec_set_at(
    d: Seq<(Seq<char>, Seq<(Seq<char>, Seq<char>)>)>,
    sec: Seq<char>,
    key: Seq<char>,
    value: Seq<char>,
    i: int,
)
    requires
        0 <= i < d.len(),
        d[i].0 == sec,
        forall|k: int| 0 <= k < i ==> (#[trigger] d[k]).0 != sec,
    ensures
        spec_set(d, sec, key, value) == d.update(i, (sec, pair_set(d[i].1, key, value))),
    decreases i,
{
    if i == 0 {
        assert(seq![(sec, pair_set(d.first().1, key, value))] + d.drop_first() =~= d.update(
            0,
            (sec, pair_set(d[0].1, key, value)),
        ));
    } else {
        lemma_spec_set_at(d.drop_first(), sec, key, value, i - 1);
        assert(forall|k: int|
            0 <= k < i - 1 ==> (#[trigger] d.drop_first()[k]).0 == d[k + 1].0);
        assert(seq![d.first()] + d.drop_first().update(i - 1, (sec, pair_set(d[i].1, key, value)))
            =~= d.update(i, (sec, pair_set(d[i].1, key, value))));
    }
}

/// Appending a fresh section realizes `spec_set` when no section matches.
proof fn lemma_sec_set_missing(
    d: Seq<(Seq<char>, Seq<(Seq<char>, Seq<char>)>)>,
    sec: Seq<char>,
    key: Seq<char>,
    value: Seq<char>,
    doc: IniDoc,
)
    requires
        d == doc_raw(doc),
        forall|k: int| 0 <= k < doc.sections.len() ==> (#[trigger] doc.sections@[k]).name@ != sec,
    ensures
        spec_set(d, sec, key, value) == d + seq![(sec, seq![(key, value)])],
{
    assert(forall|k: int| 0 <= k < d.len() ==> (#[trigger] d[k]).0 != sec);
    lemma_spec_set_append(d, sec, key, value);
}

proof fn lemma_spec_set_append(
    d: Seq<(Seq<char>, Seq<(Seq<char>, Seq<char>)>)>,
    sec: Seq<char>,
    key: Seq<char>,
    value: Seq<char>,
)
    requires
        forall|k: int| 0 <= k < d.len() ==> (#[trigger] d[k]).0 != sec,
    ensures
        spec_set(d, sec, key, value) == d + seq![(sec, seq![(key, value)])],
    decreases d.len(),
{
    if d.len() == 0 {
        assert(spec_set(d, sec, key, value) =~= d + seq![(sec, seq![(key, value)])]);
    } else {
        lemma_spec_set_append(d.drop_first(), sec, key, value);
        assert(forall|k: int|
            0 <= k < d.drop_first().len() ==> (#[trigger] d.drop_first()[k]).0 == d[k + 1].0);
        assert(seq![d.first()] + (d.drop_first() + seq![(sec, seq![(key, value)])]) =~= d + seq![
            (sec, seq![(key, value)]),
        ]);
    }
}

/// After the section at `i` was rewritten to `new_ps`, the whole document
/// matches `spec_set`.
proof fn finish_set(
    d0: Seq<(Seq<char>, Seq<(Seq<char>, Seq<char>)>)>,
    sec: Seq<char>,
    key: Seq<char>,
    value: Seq<char>,
    doc: IniDoc,
    i: int,
    new_ps: Seq<(Seq<char>, Seq<char>)>,
)
    requires
        0 <= i < doc.sections.len(),
        doc_raw(doc) == d0.update(i, (sec, new_ps)),
        spec_set(d0, sec, key, value) == d0.update(i, (sec, pair_set(d0[i].1, key, value))),
        new_ps == pair_set(d0[i].1, key, value),
    ensures
        doc_raw(doc) == spec_set(d0, sec, key, value),
{
}

/// Relies on `ini::Ini::load_from_str`: parses INI text into sections of
/// key-value pairs, section and key order following the file. The result is
/// a function of the text alone, named by `ini_doc_of`.
#[verifier::external_body]
pub fn parse_ini_text(text: &str) -> (r: Option<IniDoc>)
    ensures
        r is Some <==> ini_doc_of(text@) is Some,
        r matches Some(d) ==> ini_doc_of(text@) == Some(doc_raw(d)),
{
    let ini = match ini::Ini::load_from_str(text) {
        Ok(i) => i,
        Err(_) => return None,
    };
    Some(IniDoc {
        sections: ini
            .iter()
            .map(|(name, props)| IniSection {
                name: name.unwrap_or("").to_string(),
                pairs: props.iter().map(|(k, v)| (k.to_string(), v.to_string())).collect(),
            })
            .collect(),
    })
}

/// What the outside INI reader yields on a text: its sections in order,
/// each with its key-value pairs in order, or nothing when the text is not
/// well-formed INI.
pub uninterp spec fn ini_doc_of(text: Seq<char>) -> Option<
    Seq<(Seq<char>, Seq<(Seq<char>, Seq<char>)>)>,
>;

/// The INI text the outside writer produces for a document's sections.
pub uninterp spec fn ini_text_of(doc: Seq<(Seq<char>, Seq<(Seq<char>, Seq<char>)>)>) -> Seq<char>;

/// Relies on `ini::Ini::write_to`: renders sections of key-value pairs as
/// INI text, in order. The result is a function of the sections alone,
/// named by `ini_text_of`; the line separator it uses is fixed when the
/// library is built (the writer picks it per target), so the name denotes
/// the rendering of this build.
#[verifier::external_body]
pub fn write_ini_text(doc: &IniDoc) -> (r: String)
    ensures
        r@ == ini_text_of(doc_raw(*doc)),
{
    let mut ini = ini::Ini::new();
    for sec in &doc.sections {
        for (k, v) in &sec.pairs {
            ini.with_section(Some(sec.name.as_str())).set(k.as_str(), v.as_str());
        }
    }
    let mut buf: Vec<u8> = Vec::new();
    let _ = ini.write_to(&mut buf);
    String::from_utf8(buf).unwrap_or_default()
}

impl IniSection {
    /// The value of the first pair with the given key in this section.
    pub fn get(&self, key: &str) -> (r: Option<String>)
        ensures
            match r {
                Some(v) => pair_lookup(self.pairs.deep_view(), key@) == Some(v@),
                None => pair_lookup(self.pairs.deep_view(), key@) is None,
            },
    {
        match find_pair(&self.pairs, key) {
            Some(i) => {
                proof {
                    lemma_pair_lookup_skip(self.pairs.deep_view(), key@, i as int);
                    assert(self.pairs.deep_view().skip(i as int).first()
                        == self.pairs.deep_view()[i as int]);
                    assert(self.pairs.deep_view()[i as int] == (
                        self.pairs@[i as int].0@,
                        self.pairs@[i as int].1@,
                    ));
                }
                Some(self.pairs[i].1.clone())
            },
            None => {
                proof {
                    lemma_pair_lookup_skip(
                        self.pairs.deep_view(),
                        key@,
                        self.pairs.deep_view().len() as int,
                    );
                }
                None
            },
        }
    }
}

} // verus!
