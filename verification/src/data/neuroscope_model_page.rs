//! The page of a model: which neurons matter, and how much.

use vstd::prelude::*;
use crate::data::neuron_index::NeuronIndex;
use crate::data::ordering::{
    ascending, is_canonical_order_of, lemma_canonical_order_unique, sort_by_score, with_rank,
    Importance,
};
use crate::data::score::Score;
use crate::data::wire::{
    deflate, deflated, inflate, inflated, list_layout, postcard_from_bytes, postcard_parse,
    postcard_to_allocvec, Record,
};
use crate::failure::Failure;

verus! {

/// What an attempt to read a whole file gave.
#[derive(Clone, Debug, PartialEq, Eq)]
pub enum FileRead {
    /// There is no file at the path.
    Missing,
    /// The file is there, but reading it failed.
    Unreadable,
    /// The bytes of the file.
    Bytes(Vec<u8>),
}

/// The record that stores an entry.
pub open spec fn record_of(e: Importance) -> Record {
    (
        e.0.layer,
        e.0.neuron,
        (e.1.bits % 256) as u8,
        (e.1.bits / 256 % 256) as u8,
        (e.1.bits / 65536 % 256) as u8,
        (e.1.bits / 16777216) as u8,
    )
}

/// The entry that a record stores.
pub open spec fn importance_of(r: Record) -> Importance {
    (
        NeuronIndex { layer: r.0, neuron: r.1 },
        Score { bits: (r.2 + 256 * r.3 + 65536 * r.4 + 16777216 * r.5) as u32 },
    )
}

/// The records that store the entries, in the same order.
pub open spec fn records_of(entries: Seq<Importance>) -> Seq<Record> {
    Seq::new(entries.len(), |i: int| record_of(entries[i]))
}

/// The entries that the records store, in the same order.
pub open spec fn importances_of(records: Seq<Record>) -> Seq<Importance> {
    Seq::new(records.len(), |i: int| importance_of(records[i]))
}

/// The bytes that store a page with these entries: the layout of its records,
/// compressed. `None` where the compressor reports a failure.
pub open spec fn encoding_of(entries: Seq<Importance>) -> Option<Seq<u8>> {
    deflated(list_layout(records_of(entries)))
}

/// The bytes are a DEFLATE stream of a list of records, and `page` is the
/// canonical order of the entries in that list.
pub open spec fn decodes_to(bytes: Seq<u8>, page: Seq<Importance>) -> bool {
    &&& inflated(bytes) matches Some(raw)
    &&& postcard_parse(raw) matches Some(records)
    &&& is_canonical_order_of(page, importances_of(records))
}

/// The bytes are no DEFLATE stream, or what they hold is no list of records.
pub open spec fn is_corrupt(bytes: Seq<u8>) -> bool {
    match inflated(bytes) {
        Some(raw) => postcard_parse(raw) is None,
        None => true,
    }
}

/// A record stores its entry without loss.
pub proof fn lemma_record_round_trip(e: Importance)
    ensures
        importance_of(record_of(e)) == e,
{
    let b = e.1.bits as int;
    assert(b == b % 256 + 256 * (b / 256 % 256) + 65536 * (b / 65536 % 256) + 16777216 * (b
        / 16777216));
}

/// A list of records stores its entries without loss.
pub proof fn lemma_records_round_trip(entries: Seq<Importance>)
    ensures
        importances_of(records_of(entries)) == entries,
{
    assert forall|i: int| 0 <= i < entries.len() implies importances_of(records_of(entries))[i]
        == entries[i] by {
        lemma_record_round_trip(entries[i]);
    }
    assert(importances_of(records_of(entries)) =~= entries);
}

/// Bytes decode to one page at most.
pub proof fn lemma_decoding_unique(bytes: Seq<u8>, p: Seq<Importance>, q: Seq<Importance>)
    requires
        decodes_to(bytes, p),
        decodes_to(bytes, q),
    ensures
        p == q,
        !is_corrupt(bytes),
{
    let records = postcard_parse(inflated(bytes)->Some_0)->Some_0;
    let entries = importances_of(records);
    assert forall|rank: int| #[trigger] with_rank(p, rank) == with_rank(q, rank) by {
        assert(with_rank(p, rank) == with_rank(entries, rank));
        assert(with_rank(q, rank) == with_rank(entries, rank));
    }
    lemma_canonical_order_unique(p, q);
}

/// Round trip: where `stored` are the entries of the page whose encoding
/// `bytes` is, and `read` are the entries that decoding `bytes` gives, the two
/// are the same; and if `stored` is the canonical order of some list, so is
/// `read`.
pub proof fn lemma_round_trip(
    given: Seq<Importance>,
    stored: Seq<Importance>,
    bytes: Seq<u8>,
    read: Seq<Importance>,
)
    requires
        is_canonical_order_of(stored, given),
        decodes_to(bytes, stored),
        decodes_to(bytes, read),
    ensures
        read == stored,
        is_canonical_order_of(read, given),
{
    lemma_decoding_unique(bytes, stored, read);
}

/// The important neurons of a model, always in canonical order: ascending by
/// the total order of their scores, entries of equal rank in the order in which
/// they were given.
#[derive(Debug, PartialEq, Eq)]
pub struct NeuroscopeModelPage {
    important_neurons: Vec<Importance>,
}

impl View for NeuroscopeModelPage {
    type V = Seq<Importance>;

    closed spec fn view(&self) -> Seq<Importance> {
        self.important_neurons@
    }
}

impl Clone for NeuroscopeModelPage {
    fn clone(&self) -> (copy: Self)
        ensures
            copy@ == self@,
    {
        proof {
            use_type_invariant(self);
        }
        let mut entries: Vec<Importance> = Vec::new();
        let mut i: usize = 0;
        while i < self.important_neurons.len()
            invariant
                i <= self.important_neurons.len(),
                entries@ == self.important_neurons@.take(i as int),
            decreases self.important_neurons.len() - i,
        {
            entries.push(self.important_neurons[i]);
            i = i + 1;
            assert(entries@ =~= self.important_neurons@.take(i as int));
        }
        assert(self.important_neurons@.take(i as int) =~= self.important_neurons@);
        Self { important_neurons: entries }
    }
}

impl NeuroscopeModelPage {
    #[verifier::type_invariant]
    spec fn in_order(self) -> bool {
        ascending(self.important_neurons@)
    }

    /// Makes a page of the entries, putting them in canonical order.
    pub fn new(important_neurons: Vec<Importance>) -> (page: Self)
        ensures
            is_canonical_order_of(page@, important_neurons@),
            page@.len() == important_neurons@.len(),
            page@.to_multiset() == important_neurons@.to_multiset(),
    {
        let sorted = sort_by_score(&important_neurons);
        Self { important_neurons: sorted }
    }

    /// The entries of the page, in canonical order.
    pub fn important_neurons(&self) -> (entries: &[Importance])
        ensures
            entries@ == self@,
            ascending(self@),
    {
        proof {
            use_type_invariant(self);
        }
        self.important_neurons.as_slice()
    }

    /// The records that store the page.
    fn to_records(&self) -> (records: Vec<Record>)
        ensures
            records@ == records_of(self@),
    {
        let mut records: Vec<Record> = Vec::new();
        let mut i: usize = 0;
        while i < self.important_neurons.len()
            invariant
                i <= self.important_neurons.len(),
                records@ == records_of(self.important_neurons@.take(i as int)),
            decreases self.important_neurons.len() - i,
        {
            let e = self.important_neurons[i];
            let bits = e.1.bits;
            records.push(
                (
                    e.0.layer,
                    e.0.neuron,
                    (bits % 256) as u8,
                    (bits / 256 % 256) as u8,
                    (bits / 65536 % 256) as u8,
                    (bits / 16777216) as u8,
                ),
            );
            i = i + 1;
            assert(records@ =~= records_of(self.important_neurons@.take(i as int)));
        }
        assert(self.important_neurons@.take(i as int) =~= self.important_neurons@);
        records
    }

    /// The page that the records store.
    fn from_records(records: &Vec<Record>) -> (page: Self)
        ensures
            is_canonical_order_of(page@, importances_of(records@)),
    {
        let mut entries: Vec<Importance> = Vec::new();
        let mut i: usize = 0;
        while i < records.len()
            invariant
                i <= records.len(),
                entries@ == importances_of(records@.take(i as int)),
            decreases records.len() - i,
        {
            let r = records[i];
            let bits: u32 = r.2 as u32 + 256 * (r.3 as u32) + 65536 * (r.4 as u32) + 16777216 * (
            r.5 as u32);
            entries.push((NeuronIndex { layer: r.0, neuron: r.1 }, Score { bits }));
            i = i + 1;
            assert(entries@ =~= importances_of(records@.take(i as int)));
        }
        assert(records@.take(i as int) =~= records@);
        Self::new(entries)
    }

    /// The bytes that store the page: its records in their compact layout,
    /// compressed. The page is laid out and handed to the compressor whatever
    /// it holds; the result is `None` exactly where the compressor reports a
    /// failure, and else the stream it wrote, from which `decode` reads the
    /// page back.
    pub fn encode(&self) -> (encoded: Option<Vec<u8>>)
        ensures
            match encoding_of(self@) {
                Some(stream) => encoded matches Some(bytes) && bytes@ == stream && decodes_to(
                    bytes@,
                    self@,
                ) && !is_corrupt(bytes@),
                None => encoded is None,
            },
    {
        proof {
            use_type_invariant(self);
            lemma_records_round_trip(self@);
        }
        let records = self.to_records();
        match postcard_to_allocvec(&records) {
            Ok(raw) => match deflate(&raw) {
                Ok(bytes) => Some(bytes),
                Err(_) => None,
            },
            Err(_) => None,
        }
    }

    /// Reads a page from the bytes that store it. `None` if and only if the
    /// bytes are corrupt.
    pub fn decode(bytes: &Vec<u8>) -> (decoded: Option<Self>)
        ensures
            match decoded {
                Some(page) => decodes_to(bytes@, page@),
                None => is_corrupt(bytes@),
            },
    {
        match inflate(bytes) {
            Ok(raw) => match postcard_from_bytes(&raw) {
                Ok(records) => Some(Self::from_records(&records)),
                Err(_) => None,
            },
            Err(_) => None,
        }
    }

    /// What to write to the file at `path` to store the page there: the
    /// encoding of the page, or `IOError` with the path where the compressor
    /// reports a failure. The caller makes sure that the directory of `path`
    /// exists and replaces the file.
    pub fn to_file(&self, path: &str) -> (written: Result<Vec<u8>, Failure>)
        ensures
            match encoding_of(self@) {
                Some(stream) => written matches Ok(bytes) && bytes@ == stream && decodes_to(
                    bytes@,
                    self@,
                ) && !is_corrupt(bytes@),
                None => written matches Err(Failure::IOError { path: p }) && p@ == path@,
            },
    {
        match self.encode() {
            Some(bytes) => Ok(bytes),
            None => Err(Failure::IOError { path: path.to_owned() }),
        }
    }

    /// The page stored in the file at `path`, given what reading that file gave.
    pub fn from_file(path: &str, read: &FileRead) -> (loaded: Result<Self, Failure>)
        ensures
            match *read {
                FileRead::Missing => loaded matches Err(Failure::NotFound { path: p }) && p@
                    == path@,
                FileRead::Unreadable => loaded matches Err(Failure::IOError { path: p }) && p@
                    == path@,
                FileRead::Bytes(bytes) => if is_corrupt(bytes@) {
                    loaded matches Err(Failure::CorruptData { path: p }) && p@ == path@
                } else {
                    loaded matches Ok(page) && decodes_to(bytes@, page@)
                },
            },
    {
        match read {
            FileRead::Missing => Err(Failure::NotFound { path: path.to_owned() }),
            FileRead::Unreadable => Err(Failure::IOError { path: path.to_owned() }),
            FileRead::Bytes(bytes) => match Self::decode(bytes) {
                Some(page) => {
                    proof {
                        lemma_decoding_unique(bytes@, page@, page@);
                    }
                    Ok(page)
                },
                None => Err(Failure::CorruptData { path: path.to_owned() }),
            },
        }
    }
}

} // verus!
