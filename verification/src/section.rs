//! The dynamic value model: a `Section` is an ordered mapping from short
//! byte-string keys to typed entries, mirroring the wire model one to one.
//! Keys are opaque byte strings; a `Double` carries the IEEE-754 bit
//! pattern, whose eight little-endian bytes are exactly its wire payload.

use vstd::prelude::*;

verus! {

/// Mathematical view of one (key, entry) pair.
pub struct FieldV {
    pub key: Seq<u8>,
    pub entry: EntryV,
}

/// Mathematical view of an entry.
pub enum EntryV {
    Int64(i64),
    Int32(i32),
    Int16(i16),
    Int8(i8),
    UInt64(u64),
    UInt32(u32),
    UInt16(u16),
    UInt8(u8),
    /// IEEE-754 binary64 bit pattern.
    Double(u64),
    Blob(Seq<u8>),
    Bool(bool),
    Object(Seq<FieldV>),
    Array(ArrayV),
}

/// Mathematical view of a homogeneous array entry.
pub enum ArrayV {
    Int64(Seq<i64>),
    Int32(Seq<i32>),
    Int16(Seq<i16>),
    Int8(Seq<i8>),
    UInt64(Seq<u64>),
    UInt32(Seq<u32>),
    UInt16(Seq<u16>),
    UInt8(Seq<u8>),
    /// IEEE-754 binary64 bit patterns.
    Double(Seq<u64>),
    Blob(Seq<Seq<u8>>),
    Bool(Seq<bool>),
    Object(Seq<Seq<FieldV>>),
}

/// A homogeneous array entry.  Arrays never nest: no variant holds an array.
#[derive(Debug, PartialEq)]
pub enum SectionArray {
    Int64(Vec<i64>),
    Int32(Vec<i32>),
    Int16(Vec<i16>),
    Int8(Vec<i8>),
    UInt64(Vec<u64>),
    UInt32(Vec<u32>),
    UInt16(Vec<u16>),
    UInt8(Vec<u8>),
    /// IEEE-754 binary64 bit patterns.
    Double(Vec<u64>),
    Blob(Vec<Vec<u8>>),
    Bool(Vec<bool>),
    Object(Vec<Section>),
}

/// A single typed value inside a section.
#[derive(Debug, PartialEq)]
pub enum SectionEntry {
    Int64(i64),
    Int32(i32),
    Int16(i16),
    Int8(i8),
    UInt64(u64),
    UInt32(u32),
    UInt16(u16),
    UInt8(u8),
    /// IEEE-754 binary64 bit pattern.
    Double(u64),
    Blob(Vec<u8>),
    Bool(bool),
    Object(Section),
    Array(SectionArray),
}

/// An ordered sequence of (key, entry) pairs.  Duplicate keys are kept, as
/// the wire permits them; lookups expose the last binding.
#[derive(Debug, PartialEq)]
pub struct Section {
    pub fields: Vec<(Vec<u8>, SectionEntry)>,
}

/// View of an entry.
pub open spec fn spec_entry_view(e: SectionEntry) -> EntryV
    decreases e,
{
    match e {
        SectionEntry::Int64(x) => EntryV::Int64(x),
        SectionEntry::Int32(x) => EntryV::Int32(x),
        SectionEntry::Int16(x) => EntryV::Int16(x),
        SectionEntry::Int8(x) => EntryV::Int8(x),
        SectionEntry::UInt64(x) => EntryV::UInt64(x),
        SectionEntry::UInt32(x) => EntryV::UInt32(x),
        SectionEntry::UInt16(x) => EntryV::UInt16(x),
        SectionEntry::UInt8(x) => EntryV::UInt8(x),
        SectionEntry::Double(x) => EntryV::Double(x),
        SectionEntry::Blob(b) => EntryV::Blob(b@),
        SectionEntry::Bool(x) => EntryV::Bool(x),
        SectionEntry::Object(s) => EntryV::Object(spec_section_view(s)),
        SectionEntry::Array(a) => EntryV::Array(spec_array_view(a)),
    }
}

/// View of a sequence of raw (key, entry) pairs.
pub open spec fn spec_fields_view(fs: Seq<(Vec<u8>, SectionEntry)>) -> Seq<FieldV>
    decreases fs,
{
    if fs.len() == 0 {
        Seq::empty()
    } else {
        seq![FieldV { key: fs[0].0@, entry: spec_entry_view(fs[0].1) }] + spec_fields_view(
            fs.subrange(1, fs.len() as int),
        )
    }
}

/// View of a section.
pub open spec fn spec_section_view(s: Section) -> Seq<FieldV>
    decreases s,
{
    spec_fields_view(s.fields@)
}

/// View of a list of sections (an array of objects).
pub open spec fn spec_sections_view(list: Seq<Section>) -> Seq<Seq<FieldV>>
    decreases list,
{
    if list.len() == 0 {
        Seq::empty()
    } else {
        seq![spec_section_view(list[0])] + spec_sections_view(list.subrange(1, list.len() as int))
    }
}

/// View of a list of byte buffers.
pub open spec fn spec_blobs_view(list: Seq<Vec<u8>>) -> Seq<Seq<u8>> {
    list.map_values(|b: Vec<u8>| b@)
}

/// View of an array entry.
pub open spec fn spec_array_view(a: SectionArray) -> ArrayV
    decreases a,
{
    match a {
        SectionArray::Int64(v) => ArrayV::Int64(v@),
        SectionArray::Int32(v) => ArrayV::Int32(v@),
        SectionArray::Int16(v) => ArrayV::Int16(v@),
        SectionArray::Int8(v) => ArrayV::Int8(v@),
        SectionArray::UInt64(v) => ArrayV::UInt64(v@),
        SectionArray::UInt32(v) => ArrayV::UInt32(v@),
        SectionArray::UInt16(v) => ArrayV::UInt16(v@),
        SectionArray::UInt8(v) => ArrayV::UInt8(v@),
        SectionArray::Double(v) => ArrayV::Double(v@),
        SectionArray::Blob(v) => ArrayV::Blob(spec_blobs_view(v@)),
        SectionArray::Bool(v) => ArrayV::Bool(v@),
        SectionArray::Object(v) => ArrayV::Object(spec_sections_view(v@)),
    }
}

impl View for SectionEntry {
    type V = EntryV;

    open spec fn view(&self) -> EntryV {
        spec_entry_view(*self)
    }
}

impl View for SectionArray {
    type V = ArrayV;

    open spec fn view(&self) -> ArrayV {
        spec_array_view(*self)
    }
}

impl View for Section {
    type V = Seq<FieldV>;

    open spec fn view(&self) -> Seq<FieldV> {
        spec_section_view(*self)
    }
}

/// The last binding of `key` among the viewed pairs, if any.
pub open spec fn spec_lookup(v: Seq<FieldV>, key: Seq<u8>) -> Option<EntryV>
    decreases v.len(),
{
    if v.len() == 0 {
        None
    } else if v[v.len() - 1].key == key {
        Some(v[v.len() - 1].entry)
    } else {
        spec_lookup(v.subrange(0, v.len() - 1), key)
    }
}

/// Compares two byte strings.
pub fn bytes_eq(a: &[u8], b: &[u8]) -> (r: bool)
    ensures
        r == (a@ == b@),
{
    if a.len() != b.len() {
        proof {
            assert(a@.len() != b@.len());
        }
        return false;
    }
    let mut i: usize = 0;
    while i < a.len()
        invariant
            i <= a@.len(),
            a@.len() == b@.len(),
            forall|k: int| 0 <= k < i ==> a@[k] == b@[k],
        decreases a@.len() - i,
    {
        if a[i] != b[i] {
            return false;
        }
        i = i + 1;
    }
    proof {
        assert(a@ =~= b@);
    }
    true
}

impl Section {
    /// An empty section.
    pub fn new() -> (r: Self)
        ensures
            r@ == Seq::<FieldV>::empty(),
    {
        Section { fields: Vec::new() }
    }

    /// Number of (key, entry) pairs held.
    pub fn len(&self) -> (r: usize)
        ensures
            r == self@.len(),
    {
        proof {
            lemma_fields_view_len(self.fields@);
        }
        self.fields.len()
    }

    /// Appends a binding.  A key already present is kept as well: the wire
    /// permits duplicates, and lookups expose the later binding.
    pub fn insert(&mut self, key: Vec<u8>, entry: SectionEntry)
        ensures
            final(self)@ == old(self)@.push(FieldV { key: key@, entry: entry@ }),
    {
        let ghost before = self.fields@;
        self.fields.push((key, entry));
        proof {
            lemma_fields_view_push(before, (key, entry));
        }
    }

    /// The last entry bound to `key`, if any.
    pub fn get(&self, key: &[u8]) -> (r: Option<&SectionEntry>)
        ensures
            match spec_lookup(self@, key@) {
                Some(ev) => r matches Some(e) && e@ == ev,
                None => r is None,
            },
    {
        let n = self.fields.len();
        let mut i: usize = n;
        proof {
            lemma_fields_view_len(self.fields@);
            assert(self@.subrange(0, n as int) =~= self@);
        }
        while i > 0
            invariant
                i <= self.fields@.len(),
                self@.len() == self.fields@.len(),
                spec_lookup(self@, key@) == spec_lookup(self@.subrange(0, i as int), key@),
            decreases i,
        {
            i = i - 1;
            proof {
                lemma_fields_view_len(self.fields@);
                lemma_fields_view_index(self.fields@, i as int);
                assert(self@.subrange(0, i + 1).subrange(0, i as int) =~= self@.subrange(
                    0,
                    i as int,
                ));
                assert(self@.subrange(0, i + 1)[i as int] == self@[i as int]);
            }
            if bytes_eq(self.fields[i].0.as_slice(), key) {
                return Some(&self.fields[i].1);
            }
        }
        proof {
            assert(self@.subrange(0, 0) =~= Seq::<FieldV>::empty());
        }
        None
    }
}

/// The view of raw pairs has the same length.
pub proof fn lemma_fields_view_len(fs: Seq<(Vec<u8>, SectionEntry)>)
    ensures
        spec_fields_view(fs).len() == fs.len(),
    decreases fs.len(),
{
    if fs.len() > 0 {
        lemma_fields_view_len(fs.subrange(1, fs.len() as int));
    }
}

/// The view of raw pairs is the pairs' views, position by position.
pub proof fn lemma_fields_view_index(fs: Seq<(Vec<u8>, SectionEntry)>, i: int)
    requires
        0 <= i < fs.len(),
    ensures
        spec_fields_view(fs).len() == fs.len(),
        spec_fields_view(fs)[i] == (FieldV { key: fs[i].0@, entry: spec_entry_view(fs[i].1) }),
    decreases fs.len(),
{
    lemma_fields_view_len(fs);
    if i > 0 {
        lemma_fields_view_index(fs.subrange(1, fs.len() as int), i - 1);
    }
}

/// The view of a section list has the same length.
pub proof fn lemma_sections_view_len(list: Seq<Section>)
    ensures
        spec_sections_view(list).len() == list.len(),
    decreases list.len(),
{
    if list.len() > 0 {
        lemma_sections_view_len(list.subrange(1, list.len() as int));
    }
}

/// The view of a section list is the sections' views, position by position.
pub proof fn lemma_sections_view_index(list: Seq<Section>, i: int)
    requires
        0 <= i < list.len(),
    ensures
        spec_sections_view(list).len() == list.len(),
        spec_sections_view(list)[i] == spec_section_view(list[i]),
    decreases list.len(),
{
    lemma_sections_view_len(list);
    if i > 0 {
        lemma_sections_view_index(list.subrange(1, list.len() as int), i - 1);
    }
}

/// Appending a section appends its view.
pub proof fn lemma_sections_view_push(list: Seq<Section>, s: Section)
    ensures
        spec_sections_view(list.push(s)) == spec_sections_view(list).push(spec_section_view(s)),
    decreases list.len(),
{
    lemma_sections_view_len(list);
    lemma_sections_view_len(list.push(s));
    let l = spec_sections_view(list.push(s));
    let r = spec_sections_view(list).push(spec_section_view(s));
    assert forall|i: int| 0 <= i < l.len() implies l[i] == r[i] by {
        lemma_sections_view_index(list.push(s), i);
        if i < list.len() {
            lemma_sections_view_index(list, i);
            assert(list.push(s)[i] == list[i]);
        }
    };
    assert(l =~= r);
}

/// Appending a raw pair appends its view.
pub proof fn lemma_fields_view_push(fs: Seq<(Vec<u8>, SectionEntry)>, p: (Vec<u8>, SectionEntry))
    ensures
        spec_fields_view(fs.push(p)) == spec_fields_view(fs).push(
            FieldV { key: p.0@, entry: spec_entry_view(p.1) },
        ),
    decreases fs.len(),
{
    lemma_fields_view_len(fs);
    lemma_fields_view_len(fs.push(p));
    let l = spec_fields_view(fs.push(p));
    let r = spec_fields_view(fs).push(FieldV { key: p.0@, entry: spec_entry_view(p.1) });
    assert forall|i: int| 0 <= i < l.len() implies l[i] == r[i] by {
        lemma_fields_view_index(fs.push(p), i);
        if i < fs.len() {
            lemma_fields_view_index(fs, i);
            assert(fs.push(p)[i] == fs[i]);
        }
    };
    assert(l =~= r);
}

impl Section {
    /// The last `u64` bound to `key`; absent when the key is missing or
    /// bound to a different variant.
    pub fn get_u64(&self, key: &[u8]) -> (r: Option<u64>)
        ensures
            match spec_lookup(self@, key@) {
                Some(EntryV::UInt64(x)) => r == Some(x),
                _ => r is None,
            },
    {
        match self.get(key) {
            Some(SectionEntry::UInt64(x)) => Some(*x),
            _ => None,
        }
    }

    /// The last `i64` bound to `key`, fail-soft.
    pub fn get_i64(&self, key: &[u8]) -> (r: Option<i64>)
        ensures
            match spec_lookup(self@, key@) {
                Some(EntryV::Int64(x)) => r == Some(x),
                _ => r is None,
            },
    {
        match self.get(key) {
            Some(SectionEntry::Int64(x)) => Some(*x),
            _ => None,
        }
    }

    /// The last boolean bound to `key`, fail-soft.
    pub fn get_bool(&self, key: &[u8]) -> (r: Option<bool>)
        ensures
            match spec_lookup(self@, key@) {
                Some(EntryV::Bool(x)) => r == Some(x),
                _ => r is None,
            },
    {
        match self.get(key) {
            Some(SectionEntry::Bool(x)) => Some(*x),
            _ => None,
        }
    }

    /// The IEEE-754 bit pattern of the last double bound to `key`,
    /// fail-soft.
    pub fn get_double_bits(&self, key: &[u8]) -> (r: Option<u64>)
        ensures
            match spec_lookup(self@, key@) {
                Some(EntryV::Double(x)) => r == Some(x),
                _ => r is None,
            },
    {
        match self.get(key) {
            Some(SectionEntry::Double(x)) => Some(*x),
            _ => None,
        }
    }

    /// The last string/blob bound to `key`, fail-soft.
    pub fn get_blob(&self, key: &[u8]) -> (r: Option<&Vec<u8>>)
        ensures
            match spec_lookup(self@, key@) {
                Some(EntryV::Blob(s)) => r matches Some(b) && b@ == s,
                _ => r is None,
            },
    {
        match self.get(key) {
            Some(SectionEntry::Blob(b)) => Some(b),
            _ => None,
        }
    }

    /// The last nested section bound to `key`, fail-soft.
    pub fn get_section(&self, key: &[u8]) -> (r: Option<&Section>)
        ensures
            match spec_lookup(self@, key@) {
                Some(EntryV::Object(fs)) => r matches Some(s) && s@ == fs,
                _ => r is None,
            },
    {
        match self.get(key) {
            Some(SectionEntry::Object(s)) => Some(s),
            _ => None,
        }
    }

    /// The last array bound to `key`, fail-soft.
    pub fn get_array(&self, key: &[u8]) -> (r: Option<&SectionArray>)
        ensures
            match spec_lookup(self@, key@) {
                Some(EntryV::Array(av)) => r matches Some(a) && a@ == av,
                _ => r is None,
            },
    {
        match self.get(key) {
            Some(SectionEntry::Array(a)) => Some(a),
            _ => None,
        }
    }

    /// Binds `key` to a `u64`.
    pub fn set_u64(&mut self, key: Vec<u8>, v: u64)
        ensures
            final(self)@ == old(self)@.push(FieldV { key: key@, entry: EntryV::UInt64(v) }),
    {
        self.insert(key, SectionEntry::UInt64(v));
    }

    /// Binds `key` to an `i64`.
    pub fn set_i64(&mut self, key: Vec<u8>, v: i64)
        ensures
            final(self)@ == old(self)@.push(FieldV { key: key@, entry: EntryV::Int64(v) }),
    {
        self.insert(key, SectionEntry::Int64(v));
    }

    /// Binds `key` to a boolean.
    pub fn set_bool(&mut self, key: Vec<u8>, v: bool)
        ensures
            final(self)@ == old(self)@.push(FieldV { key: key@, entry: EntryV::Bool(v) }),
    {
        self.insert(key, SectionEntry::Bool(v));
    }

    /// Binds `key` to a double given by its IEEE-754 bit pattern.
    pub fn set_double_bits(&mut self, key: Vec<u8>, bits: u64)
        ensures
            final(self)@ == old(self)@.push(FieldV { key: key@, entry: EntryV::Double(bits) }),
    {
        self.insert(key, SectionEntry::Double(bits));
    }

    /// Binds `key` to a string/blob.
    pub fn set_blob(&mut self, key: Vec<u8>, v: Vec<u8>)
        ensures
            final(self)@ == old(self)@.push(FieldV { key: key@, entry: EntryV::Blob(v@) }),
    {
        self.insert(key, SectionEntry::Blob(v));
    }

    /// Binds `key` to a nested section.
    pub fn set_section(&mut self, key: Vec<u8>, v: Section)
        ensures
            final(self)@ == old(self)@.push(
                FieldV { key: key@, entry: EntryV::Object(spec_section_view(v)) },
            ),
    {
        self.insert(key, SectionEntry::Object(v));
    }

    /// Binds `key` to an array.
    pub fn set_array(&mut self, key: Vec<u8>, v: SectionArray)
        ensures
            final(self)@ == old(self)@.push(
                FieldV { key: key@, entry: EntryV::Array(spec_array_view(v)) },
            ),
    {
        self.insert(key, SectionEntry::Array(v));
    }
}

} // verus!
