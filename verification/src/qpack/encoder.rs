//! The encoder: from a list of header fields to a header block.
//!
//! A block begins with two integers, the number of insertions that the block
//! relies on and the base that its relative indices count from; the encoder
//! writes the number of entries inserted into its table so far for the first
//! and a difference of zero for the second. The fields follow in order: each
//! as an index where a table holds it, else with a reference for its name
//! where a table holds the name, else with name and value as strings.
use super::buffer::splice;
use super::dynamic_table::{field_size, DynamicTable, TableView};
use super::error::Error;
use super::header::{fields_of, Field, NameValue};
use super::literal::{encode_str_at, encoded_str_len, lemma_splice_append, string_encoding};
use super::prefix_int::{encode_int_at, encoded_int_len, int_encoding, lemma_int_encoding_len};
use super::static_table::{find, static_match};
use super::text::{lower, to_lower};
use super::{INDEXED, LITERAL, LITERAL_WITH_NAME_REF};
use vstd::prelude::*;

verus! {

/// The first byte's high bits of an indexed field line that refers to the
/// static table.
pub const INDEXED_STATIC: u8 = 0b1100_0000;

/// The first byte's high bits of a literal field line whose name refers to
/// the static table.
pub const LITERAL_WITH_STATIC_NAME_REF: u8 = 0b0101_0000;

/// How a field is written in a header block.
#[derive(Clone, Copy, Debug, PartialEq, Eq, Structural)]
pub enum Representation {
    /// The index of a static table entry with the field's name and value.
    IndexedStatic(u64),
    /// The distance below the base of a dynamic table entry with the field's
    /// name and value.
    IndexedDynamic(u64),
    /// The index of a static table entry with the field's name; the value
    /// follows as a string.
    StaticNameRef(u64),
    /// The distance below the base of a dynamic table entry with the field's
    /// name; the value follows as a string.
    DynamicNameRef(u64),
    /// The name and the value, as strings.
    Literal,
}

/// The form that the field `f` takes with the dynamic table `t`: an index
/// where an entry has its name and value, the static table first; else a
/// reference to an entry with its name, the static table first; else
/// literal.
#[verifier::opaque]
pub open spec fn representation(t: TableView, f: Field) -> Representation {
    let fixed = static_match(f.0, f.1);
    let dynamic = t.best_match(f.0, f.1);
    if fixed is Some && fixed->Some_0.1 {
        Representation::IndexedStatic(fixed->Some_0.0)
    } else if dynamic is Some && dynamic->Some_0.1 {
        Representation::IndexedDynamic((t.inserted() - dynamic->Some_0.0) as u64)
    } else if fixed is Some {
        Representation::StaticNameRef(fixed->Some_0.0)
    } else if dynamic is Some {
        Representation::DynamicNameRef((t.inserted() - dynamic->Some_0.0) as u64)
    } else {
        Representation::Literal
    }
}

/// The bytes of the field `f` in the form `rep`. A literal name is written
/// in lower case.
pub open spec fn represented(rep: Representation, f: Field) -> Seq<u8> {
    match rep {
        Representation::IndexedStatic(i) => int_encoding(i, 6, INDEXED_STATIC),
        Representation::IndexedDynamic(d) => int_encoding(d, 6, INDEXED),
        Representation::StaticNameRef(i) => int_encoding(i, 4, LITERAL_WITH_STATIC_NAME_REF)
            + string_encoding(f.1, 7, 0),
        Representation::DynamicNameRef(d) => int_encoding(d, 4, LITERAL_WITH_NAME_REF)
            + string_encoding(f.1, 7, 0),
        Representation::Literal => string_encoding(lower(f.0), 3, LITERAL) + string_encoding(
            f.1,
            7,
            0,
        ),
    }
}

/// The bytes of the field `f`, encoded with the dynamic table `t`.
#[verifier::opaque]
pub open spec fn field_encoding(t: TableView, f: Field) -> Seq<u8> {
    represented(representation(t, f), f)
}

/// The bytes of the fields `fs`, one after the other.
pub open spec fn fields_encoding(t: TableView, fs: Seq<Field>) -> Seq<u8>
    decreases fs.len(),
{
    if fs.len() == 0 {
        Seq::empty()
    } else {
        fields_encoding(t, fs.drop_last()) + field_encoding(t, fs.last())
    }
}

/// The two integers that begin a block encoded with the dynamic table `t`.
pub open spec fn block_prefix(t: TableView) -> Seq<u8> {
    int_encoding(t.inserted() as u64, 8, 0) + int_encoding(0, 7, 0)
}

/// The header block of the fields `fs`, encoded with the dynamic table `t`.
pub open spec fn block_encoding(t: TableView, fs: Seq<Field>) -> Seq<u8> {
    block_prefix(t) + fields_encoding(t, fs)
}

/// The table after an attempt to insert `f`: with `f` as its newest entry
/// where `f` fits in the table's capacity and the table can still count it,
/// and as it was where not.
pub open spec fn inserted_into(t: TableView, f: Field) -> TableView {
    if field_size(f) <= t.capacity && t.inserted() + 1 < u64::MAX {
        t.with_entry(f)
    } else {
        t
    }
}

/// Whether `rep` is an index that stands for a whole field.
pub open spec fn is_indexed(rep: Representation) -> bool {
    rep is IndexedStatic || rep is IndexedDynamic
}

/// The table after an attempt to insert, in order, each field of `fs`
/// that no entry of either table stands for at its turn, with its name in
/// lower case.
pub open spec fn with_fields(t: TableView, fs: Seq<Field>) -> TableView
    decreases fs.len(),
{
    if fs.len() == 0 {
        t
    } else {
        let before = with_fields(t, fs.drop_last());
        let f = fs.last();
        if is_indexed(representation(before, f)) {
            before
        } else {
            inserted_into(before, (lower(f.0), f.1))
        }
    }
}

/// The first fields of a list take no more bytes than the whole list.
pub proof fn lemma_fields_encoding_grows(t: TableView, fs: Seq<Field>, k: int)
    requires
        0 <= k <= fs.len(),
    ensures
        fields_encoding(t, fs.subrange(0, k)).len() <= fields_encoding(t, fs).len(),
    decreases fs.len() - k,
{
    if k == fs.len() {
        assert(fs.subrange(0, k) =~= fs);
    } else {
        lemma_fields_encoding_grows(t, fs, k + 1);
        assert(fs.subrange(0, k + 1).drop_last() =~= fs.subrange(0, k));
    }
}

/// An encoder of header blocks, with its dynamic table.
pub struct Encoder {
    table: DynamicTable,
}

impl Encoder {
    /// The encoder's dynamic table, as plain data.
    pub closed spec fn table(&self) -> TableView {
        self.table@
    }

    /// Whether the encoder is well formed: its table is.
    pub closed spec fn wf(&self) -> bool {
        self.table.wf() && self.table@.inserted() < u64::MAX
    }

    /// An encoder whose dynamic table has no capacity: it encodes with the
    /// static table alone.
    pub fn new() -> (r: Encoder)
        ensures
            r.wf(),
            r.table() == (TableView { entries: Seq::empty(), dropped: 0, capacity: 0 }),
    {
        Encoder { table: DynamicTable::new(0) }
    }

    /// An encoder whose dynamic table has the capacity `capacity`.
    pub fn with_capacity(capacity: u64) -> (r: Encoder)
        ensures
            r.wf(),
            r.table() == (TableView {
                entries: Seq::empty(),
                dropped: 0,
                capacity: capacity as nat,
            }),
    {
        Encoder { table: DynamicTable::new(capacity) }
    }

    /// The capacity of the dynamic table.
    pub fn capacity(&self) -> (r: u64)
        ensures
            r == self.table().capacity,
    {
        self.table.capacity()
    }

    /// Changes the capacity of the dynamic table; the oldest entries leave
    /// until the rest fits.
    pub fn set_capacity(&mut self, capacity: u64)
        requires
            old(self).wf(),
        ensures
            final(self).wf(),
            final(self).table() == old(self).table().with_capacity(capacity as nat),
    {
        proof {
            super::dynamic_table::lemma_evict(self.table@.entries, capacity as nat);
        }
        self.table.set_capacity(capacity);
    }

    /// The number of entries inserted into the dynamic table so far.
    pub fn inserted(&self) -> (r: u64)
        requires
            self.wf(),
        ensures
            r == self.table().inserted(),
    {
        self.table.inserted()
    }

    /// Inserts the field `name: value` into the dynamic table, where it fits
    /// and the table can still count it, and says whether it was inserted.
    pub fn insert(&mut self, name: &[u8], value: &[u8]) -> (r: bool)
        requires
            old(self).wf(),
        ensures
            final(self).wf(),
            final(self).table() == inserted_into(old(self).table(), (name@, value@)),
            r <==> field_size((name@, value@)) <= old(self).table().capacity && old(
                self,
            ).table().inserted() + 1 < u64::MAX,
    {
        if self.table.inserted() >= u64::MAX - 1 {
            return false;
        }
        match self.table.insert(name, value) {
            Ok(_) => true,
            Err(_) => false,
        }
    }

    /// The form that the field `name: value` takes.
    pub fn representation_of(&self, name: &[u8], value: &[u8]) -> (r: Representation)
        requires
            self.wf(),
        ensures
            r == representation(self.table(), (name@, value@)),
    {
        proof {
            reveal(representation);
        }
        let fixed = find(name, value);
        if let Some((i, true)) = fixed {
            return Representation::IndexedStatic(i);
        }
        let dynamic = self.table.find(name, value);
        let base: u64 = self.table.inserted();
        proof {
            super::dynamic_table::lemma_best_match(self.table@, name@, value@);
        }
        if let Some((a, true)) = dynamic {
            return Representation::IndexedDynamic(base - a);
        }
        if let Some((i, _)) = fixed {
            return Representation::StaticNameRef(i);
        }
        if let Some((a, _)) = dynamic {
            return Representation::DynamicNameRef(base - a);
        }
        Representation::Literal
    }

    /// The number of bytes that the field `name: value` takes.
    pub fn encoded_field_len(&self, name: &[u8], value: &[u8]) -> (r: u128)
        requires
            self.wf(),
        ensures
            r == field_encoding(self.table(), (name@, value@)).len(),
            1 <= r <= name@.len() + value@.len() + 22,
            r <= 2 * usize::MAX + 22,
    {
        proof {
            reveal(field_encoding);
        }
        match self.representation_of(name, value) {
            Representation::IndexedStatic(i) => {
                proof {
                    lemma_int_encoding_len(i, 6, INDEXED_STATIC);
                }
                encoded_int_len(i, 6) as u128
            },
            Representation::IndexedDynamic(d) => {
                proof {
                    lemma_int_encoding_len(d, 6, INDEXED);
                }
                encoded_int_len(d, 6) as u128
            },
            Representation::StaticNameRef(i) => {
                proof {
                    lemma_int_encoding_len(i, 4, LITERAL_WITH_STATIC_NAME_REF);
                }
                encoded_int_len(i, 4) as u128 + encoded_str_len(value, 7)
            },
            Representation::DynamicNameRef(d) => {
                proof {
                    lemma_int_encoding_len(d, 4, LITERAL_WITH_NAME_REF);
                }
                encoded_int_len(d, 4) as u128 + encoded_str_len(value, 7)
            },
            Representation::Literal => {
                let lowered = to_lower(name);
                encoded_str_len(lowered.as_slice(), 3) + encoded_str_len(value, 7)
            },
        }
    }

    /// Writes the field `name: value` into `out` at `off` and returns the
    /// number of bytes written.
    ///
    /// Nothing is written unless the whole field fits between `off` and the
    /// end of `out`.
    pub fn encode_field_at(&self, name: &[u8], value: &[u8], out: &mut [u8], off: usize) -> (r:
        Result<usize, Error>)
        requires
            self.wf(),
        ensures
            r is Ok <==> off + field_encoding(self.table(), (name@, value@)).len() <= old(
                out,
            )@.len(),
            r is Ok ==> r->Ok_0 == field_encoding(self.table(), (name@, value@)).len(),
            r is Ok ==> final(out)@ == splice(
                old(out)@,
                off as int,
                field_encoding(self.table(), (name@, value@)),
            ),
            r is Err ==> r->Err_0 == Error::BufferTooShort && final(out)@ == old(out)@,
    {
        let need: u128 = self.encoded_field_len(name, value);
        if off > out.len() || ((out.len() - off) as u128) < need {
            return Err(Error::BufferTooShort);
        }
        let ghost before = out@;
        proof {
            reveal(field_encoding);
        }
        match self.representation_of(name, value) {
            Representation::IndexedStatic(i) => encode_int_at(i, 6, INDEXED_STATIC, out, off),
            Representation::IndexedDynamic(d) => encode_int_at(d, 6, INDEXED, out, off),
            Representation::StaticNameRef(i) => {
                let n: usize = match encode_int_at(i, 4, LITERAL_WITH_STATIC_NAME_REF, out, off) {
                    Ok(n) => n,
                    Err(e) => {
                        return Err(e);
                    },
                };
                let m: usize = match encode_str_at(value, 7, 0, out, off + n) {
                    Ok(m) => m,
                    Err(e) => {
                        return Err(e);
                    },
                };
                proof {
                    lemma_splice_append(
                        before,
                        off as int,
                        int_encoding(i, 4, LITERAL_WITH_STATIC_NAME_REF),
                        string_encoding(value@, 7, 0),
                    );
                }
                Ok(n + m)
            },
            Representation::DynamicNameRef(d) => {
                let n: usize = match encode_int_at(d, 4, LITERAL_WITH_NAME_REF, out, off) {
                    Ok(n) => n,
                    Err(e) => {
                        return Err(e);
                    },
                };
                let m: usize = match encode_str_at(value, 7, 0, out, off + n) {
                    Ok(m) => m,
                    Err(e) => {
                        return Err(e);
                    },
                };
                proof {
                    lemma_splice_append(
                        before,
                        off as int,
                        int_encoding(d, 4, LITERAL_WITH_NAME_REF),
                        string_encoding(value@, 7, 0),
                    );
                }
                Ok(n + m)
            },
            Representation::Literal => {
                let lowered = to_lower(name);
                let n: usize = match encode_str_at(lowered.as_slice(), 3, LITERAL, out, off) {
                    Ok(n) => n,
                    Err(e) => {
                        return Err(e);
                    },
                };
                let m: usize = match encode_str_at(value, 7, 0, out, off + n) {
                    Ok(m) => m,
                    Err(e) => {
                        return Err(e);
                    },
                };
                proof {
                    lemma_splice_append(
                        before,
                        off as int,
                        string_encoding(lower(name@), 3, LITERAL),
                        string_encoding(value@, 7, 0),
                    );
                }
                Ok(n + m)
            },
        }
    }

    /// The number of bytes that the header block of `headers` takes, where
    /// it is no more than `limit`; `None` where it is more.
    pub fn encoded_len<T: NameValue>(&self, headers: &[T], limit: usize) -> (r: Option<usize>)
        requires
            self.wf(),
        ensures
            r is Some <==> block_encoding(self.table(), fields_of(headers@)).len() <= limit,
            r is Some ==> r->Some_0 == block_encoding(self.table(), fields_of(headers@)).len(),
    {
        let ghost t = self.table();
        let ghost fs = fields_of(headers@);
        proof {
            lemma_int_encoding_len(t.inserted() as u64, 8, 0);
            lemma_int_encoding_len(0, 7, 0);
        }
        let mut total: u128 = encoded_int_len(self.table.inserted(), 8) as u128 + encoded_int_len(
            0,
            7,
        ) as u128;
        let n: usize = headers.len();
        let mut i: usize = 0;
        proof {
            assert(fields_encoding(t, fs.subrange(0, 0)).len() == 0);
        }
        while i < n
            invariant
                self.wf(),
                t == self.table(),
                fs == fields_of(headers@),
                n == headers@.len(),
                i <= n,
                total == block_prefix(t).len() + fields_encoding(t, fs.subrange(0, i as int)).len(),
                total <= limit + 12,
            decreases n - i,
        {
            if total > limit as u128 {
                proof {
                    lemma_fields_encoding_grows(t, fs, i as int);
                }
                return None;
            }
            let h = &headers[i];
            let len: u128 = self.encoded_field_len(h.name(), h.value());
            proof {
                assert(fs.subrange(0, i + 1).drop_last() =~= fs.subrange(0, i as int));
                assert(fs.subrange(0, i + 1).last() == (h.name_view(), h.value_view()));
            }
            if len > limit as u128 {
                proof {
                    lemma_fields_encoding_grows(t, fs, i + 1);
                }
                return None;
            }
            total = total + len;
            if total > limit as u128 {
                proof {
                    lemma_fields_encoding_grows(t, fs, i + 1);
                }
                return None;
            }
            i = i + 1;
        }
        proof {
            assert(fs.subrange(0, n as int) =~= fs);
        }
        if total > limit as u128 {
            None
        } else {
            Some(total as usize)
        }
    }

    /// Writes the header block of `headers` at the start of `out` and
    /// returns the number of bytes written.
    ///
    /// Fails with `BufferTooShort`, and writes nothing, where the block does
    /// not fit in `out`.
    pub fn encode<T: NameValue>(&self, headers: &[T], out: &mut [u8]) -> (r: Result<usize, Error>)
        requires
            self.wf(),
        ensures
            r is Ok <==> block_encoding(self.table(), fields_of(headers@)).len() <= old(
                out,
            )@.len(),
            r is Ok ==> r->Ok_0 == block_encoding(self.table(), fields_of(headers@)).len(),
            r is Ok ==> final(out)@ == splice(
                old(out)@,
                0,
                block_encoding(self.table(), fields_of(headers@)),
            ),
            r is Err ==> r->Err_0 == Error::BufferTooShort && final(out)@ == old(out)@,
    {
        let total: usize = match self.encoded_len(headers, out.len()) {
            Some(n) => n,
            None => {
                return Err(Error::BufferTooShort);
            },
        };
        let ghost t = self.table();
        let ghost fs = fields_of(headers@);
        let ghost before = out@;
        let ghost head = int_encoding(t.inserted() as u64, 8, 0);
        proof {
            lemma_int_encoding_len(t.inserted() as u64, 8, 0);
            lemma_int_encoding_len(0, 7, 0);
        }
        let a: usize = match encode_int_at(self.table.inserted(), 8, 0, out, 0) {
            Ok(n) => n,
            Err(e) => {
                return Err(e);
            },
        };
        let b: usize = match encode_int_at(0, 7, 0, out, a) {
            Ok(n) => n,
            Err(e) => {
                return Err(e);
            },
        };
        let mut off: usize = a + b;
        let n: usize = headers.len();
        let mut i: usize = 0;
        proof {
            lemma_splice_append(before, 0, head, int_encoding(0, 7, 0));
            assert(fields_encoding(t, fs.subrange(0, 0)) =~= Seq::<u8>::empty());
            assert(block_prefix(t) + fields_encoding(t, fs.subrange(0, 0)) =~= block_prefix(t));
        }
        while i < n
            invariant
                self.wf(),
                t == self.table(),
                fs == fields_of(headers@),
                n == headers@.len(),
                i <= n,
                out@.len() == before.len(),
                total == block_encoding(t, fs).len(),
                total <= before.len(),
                off == block_prefix(t).len() + fields_encoding(t, fs.subrange(0, i as int)).len(),
                out@ == splice(
                    before,
                    0,
                    block_prefix(t) + fields_encoding(t, fs.subrange(0, i as int)),
                ),
            decreases n - i,
        {
            let h = &headers[i];
            let ghost done = block_prefix(t) + fields_encoding(t, fs.subrange(0, i as int));
            let ghost f = (h.name_view(), h.value_view());
            proof {
                assert(fs.subrange(0, i + 1).drop_last() =~= fs.subrange(0, i as int));
                assert(fs.subrange(0, i + 1).last() == f);
                lemma_fields_encoding_grows(t, fs, i + 1);
            }
            let m: usize = match self.encode_field_at(h.name(), h.value(), out, off) {
                Ok(m) => m,
                Err(e) => {
                    return Err(e);
                },
            };
            proof {
                lemma_splice_append(before, 0, done, field_encoding(t, f));
                assert(done + field_encoding(t, f) =~= block_prefix(t) + fields_encoding(
                    t,
                    fs.subrange(0, i + 1),
                ));
            }
            off = off + m;
            i = i + 1;
        }
        proof {
            assert(fs.subrange(0, n as int) =~= fs);
        }
        Ok(off)
    }

    /// Writes the header block of `headers` as `encode` does, and where
    /// that succeeds, inserts into the dynamic table each field that no
    /// entry of either table stood for, for later blocks to refer to.
    ///
    /// The block itself refers only to entries that were in the table
    /// before the call.
    pub fn encode_with_insert<T: NameValue>(&mut self, headers: &[T], out: &mut [u8]) -> (r:
        Result<usize, Error>)
        requires
            old(self).wf(),
        ensures
            final(self).wf(),
            r is Ok <==> block_encoding(old(self).table(), fields_of(headers@)).len() <= old(
                out,
            )@.len(),
            r is Ok ==> r->Ok_0 == block_encoding(old(self).table(), fields_of(headers@)).len(),
            r is Ok ==> final(out)@ == splice(
                old(out)@,
                0,
                block_encoding(old(self).table(), fields_of(headers@)),
            ),
            r is Ok ==> final(self).table() == with_fields(
                old(self).table(),
                fields_of(headers@),
            ),
            r is Err ==> r->Err_0 == Error::BufferTooShort && final(out)@ == old(out)@,
            r is Err ==> final(self).table() == old(self).table(),
    {
        let written: usize = match self.encode(headers, out) {
            Ok(n) => n,
            Err(e) => {
                return Err(e);
            },
        };
        let ghost t = self.table();
        let ghost fs = fields_of(headers@);
        let n: usize = headers.len();
        let mut i: usize = 0;
        proof {
            assert(fs.subrange(0, 0) =~= Seq::<Field>::empty());
        }
        while i < n
            invariant
                self.wf(),
                fs == fields_of(headers@),
                n == headers@.len(),
                i <= n,
                self.table() == with_fields(t, fs.subrange(0, i as int)),
            decreases n - i,
        {
            let h = &headers[i];
            proof {
                assert(fs.subrange(0, i + 1).drop_last() =~= fs.subrange(0, i as int));
                assert(fs.subrange(0, i + 1).last() == (h.name_view(), h.value_view()));
            }
            match self.representation_of(h.name(), h.value()) {
                Representation::IndexedStatic(_) => {},
                Representation::IndexedDynamic(_) => {},
                _ => {
                    let lowered = to_lower(h.name());
                    self.insert(lowered.as_slice(), h.value());
                },
            }
            i = i + 1;
        }
        proof {
            assert(fs.subrange(0, n as int) =~= fs);
        }
        Ok(written)
    }
}

} // verus!
