//! The decoder: from a header block back to the list of header fields.
//!
//! A block is read from left to right. Its first byte's leading bits tell
//! each field line's kind; indices are resolved against the static table or
//! the decoder's dynamic table; every name comes out in lower case; and the
//! sizes of the fields are counted against a limit as they are decoded.
use super::buffer::get_u8_at;
use super::dynamic_table::{field_size, DynamicTable, TableView, ENTRY_OVERHEAD};
use super::error::Error;
use super::header::{header_fields, Field, Header};
use super::literal::{decode_str_at, string_decoding};
use super::prefix_int::{decode_int_at, int_decoding, lemma_int_advances};
use super::static_table::{lookup, static_name, static_value, STATIC_TABLE_LEN};
use super::text::{lower, to_lower};
use super::{INDEXED, INDEXED_WITH_POST_BASE, LITERAL, LITERAL_WITH_NAME_REF};
use vstd::prelude::*;
use vstd::slice::slice_to_vec;

verus! {

/// In an indexed field line: the bit that says that the index refers to the
/// static table.
pub const INDEXED_STATIC_BIT: u8 = 0b0100_0000;

/// In a literal field line with a name reference: the bit that says that the
/// index refers to the static table.
pub const NAME_REF_STATIC_BIT: u8 = 0b0001_0000;

/// In the second integer of a block's prefix: the bit that says that the
/// base lies below the number of insertions that the block relies on.
pub const BASE_SIGN_BIT: u8 = 0b1000_0000;

/// The kinds of field lines, told apart by the leading bits of their first
/// byte.
#[derive(Clone, Copy, Debug, PartialEq, Eq, Structural)]
pub enum Kind {
    /// `1xxxxxxx`: an index stands for name and value.
    Indexed,
    /// `0001xxxx`: an index above the base stands for name and value.
    IndexedWithPostBase,
    /// `001xxxxx`: name and value are strings.
    Literal,
    /// `01xxxxxx`: an index stands for the name; the value is a string.
    LiteralWithNameRef,
    /// `0000xxxx`: an index above the base stands for the name; the value is
    /// a string.
    LiteralWithPostBase,
}

/// The kind of the field line that begins with the byte `b`.
pub open spec fn kind_of(b: u8) -> Kind {
    if b & INDEXED == INDEXED {
        Kind::Indexed
    } else if b & LITERAL_WITH_NAME_REF == LITERAL_WITH_NAME_REF {
        Kind::LiteralWithNameRef
    } else if b & LITERAL == LITERAL {
        Kind::Literal
    } else if b & INDEXED_WITH_POST_BASE == INDEXED_WITH_POST_BASE {
        Kind::IndexedWithPostBase
    } else {
        Kind::LiteralWithPostBase
    }
}

impl Kind {
    /// The kind of the field line that begins with the byte `b`.
    pub fn from_byte(b: u8) -> (r: Kind)
        ensures
            r == kind_of(b),
    {
        if b & INDEXED == INDEXED {
            Kind::Indexed
        } else if b & LITERAL_WITH_NAME_REF == LITERAL_WITH_NAME_REF {
            Kind::LiteralWithNameRef
        } else if b & LITERAL == LITERAL {
            Kind::Literal
        } else if b & INDEXED_WITH_POST_BASE == INDEXED_WITH_POST_BASE {
            Kind::IndexedWithPostBase
        } else {
            Kind::LiteralWithPostBase
        }
    }
}

/// A field line as it stands in a block, before its indices are resolved.
pub enum Line {
    /// An index into the static table (`fixed`) or a distance below the
    /// base.
    Indexed { fixed: bool, index: u64 },
    /// A distance above the base.
    IndexedWithPostBase { index: u64 },
    /// A name and a value.
    Literal { name: Seq<u8>, value: Seq<u8> },
    /// An index into the static table (`fixed`) or a distance below the
    /// base, for the name; and a value.
    LiteralWithNameRef { fixed: bool, index: u64, value: Seq<u8> },
    /// A distance above the base, for the name; and a value.
    LiteralWithPostBase { index: u64, value: Seq<u8> },
}

/// The field line that begins at `buf[off]`, and the offset behind it. No
/// string in it may have more than `max_len` bytes.
#[verifier::opaque]
pub open spec fn line_decoding(buf: Seq<u8>, off: int, max_len: nat) -> Result<(Line, nat), Error> {
    if off < 0 || off >= buf.len() {
        Err(Error::BufferTooShort)
    } else {
        match kind_of(buf[off]) {
            Kind::Indexed => match int_decoding(buf, off, 6) {
                Err(e) => Err(e),
                Ok((index, next)) => Ok(
                    (
                        Line::Indexed {
                            fixed: buf[off] & INDEXED_STATIC_BIT == INDEXED_STATIC_BIT,
                            index,
                        },
                        next,
                    ),
                ),
            },
            Kind::IndexedWithPostBase => match int_decoding(buf, off, 4) {
                Err(e) => Err(e),
                Ok((index, next)) => Ok((Line::IndexedWithPostBase { index }, next)),
            },
            Kind::Literal => match string_decoding(buf, off, 3, max_len) {
                Err(e) => Err(e),
                Ok((name, next)) => match string_decoding(buf, next as int, 7, max_len) {
                    Err(e) => Err(e),
                    Ok((value, end)) => Ok((Line::Literal { name, value }, end)),
                },
            },
            Kind::LiteralWithNameRef => match int_decoding(buf, off, 4) {
                Err(e) => Err(e),
                Ok((index, next)) => match string_decoding(buf, next as int, 7, max_len) {
                    Err(e) => Err(e),
                    Ok((value, end)) => Ok(
                        (
                            Line::LiteralWithNameRef {
                                fixed: buf[off] & NAME_REF_STATIC_BIT == NAME_REF_STATIC_BIT,
                                index,
                                value,
                            },
                            end,
                        ),
                    ),
                },
            },
            Kind::LiteralWithPostBase => match int_decoding(buf, off, 3) {
                Err(e) => Err(e),
                Ok((index, next)) => match string_decoding(buf, next as int, 7, max_len) {
                    Err(e) => Err(e),
                    Ok((value, end)) => Ok((Line::LiteralWithPostBase { index, value }, end)),
                },
            },
        }
    }
}

/// The entry of the static table at `index`, where there is one.
pub open spec fn static_field(index: u64) -> Option<Field> {
    if index < STATIC_TABLE_LEN {
        Some((static_name(index as nat), static_value(index as nat)))
    } else {
        None
    }
}

/// The entry that an index refers to: in the static table where `fixed`,
/// else in `t` at that distance below `base`.
pub open spec fn referred(t: TableView, base: nat, fixed: bool, index: u64) -> Option<Field> {
    if fixed {
        static_field(index)
    } else {
        t.relative(base, index as nat)
    }
}

/// The field that `line` stands for, with `t` as the dynamic table and
/// `base` as the base; `None` where it refers to an entry that does not
/// exist.
pub open spec fn resolved(t: TableView, base: nat, line: Line) -> Option<Field> {
    match line {
        Line::Indexed { fixed, index } => referred(t, base, fixed, index),
        Line::IndexedWithPostBase { index } => t.post_base(base, index as nat),
        Line::Literal { name, value } => Some((name, value)),
        Line::LiteralWithNameRef { fixed, index, value } => match referred(t, base, fixed, index) {
            Some(entry) => Some((entry.0, value)),
            None => None,
        },
        Line::LiteralWithPostBase { index, value } => match t.post_base(base, index as nat) {
            Some(entry) => Some((entry.0, value)),
            None => None,
        },
    }
}

/// The field that begins at `buf[off]`, with its name in lower case, and
/// the offset behind it. `left` is what is left of the size limit.
///
/// Fails as reading the line fails; with `InvalidStaticTableIndex` where
/// the line refers to an entry that does not exist; with
/// `HeaderListTooLarge` where the field's size is more than `left`.
#[verifier::opaque]
pub open spec fn field_decoding(t: TableView, base: nat, buf: Seq<u8>, off: int, left: nat)
    -> Result<(Field, nat), Error> {
    match line_decoding(buf, off, left) {
        Err(e) => Err(e),
        Ok((line, next)) => match resolved(t, base, line) {
            None => Err(Error::InvalidStaticTableIndex),
            Some(f) => if field_size(f) > left {
                Err(Error::HeaderListTooLarge)
            } else {
                Ok(((lower(f.0), f.1), next))
            },
        },
    }
}

/// The fields from `buf[off]` to the end of `buf`.
#[verifier::opaque]
pub open spec fn fields_decoding(t: TableView, base: nat, buf: Seq<u8>, off: int, left: nat)
    -> Result<Seq<Field>, Error>
    decreases buf.len() - off,
    via fields_decoding_decreases
{
    if off < 0 || off >= buf.len() {
        Ok(Seq::empty())
    } else {
        match field_decoding(t, base, buf, off, left) {
            Err(e) => Err(e),
            Ok((f, next)) => with_front(
                seq![f],
                fields_decoding(t, base, buf, next as int, (left - field_size(f)) as nat),
            ),
        }
    }
}

/// `r` with `done` in front, where `r` is a list.
pub open spec fn with_front(done: Seq<Field>, r: Result<Seq<Field>, Error>) -> Result<
    Seq<Field>,
    Error,
> {
    match r {
        Ok(rest) => Ok(done + rest),
        Err(e) => Err(e),
    }
}

#[via_fn]
proof fn fields_decoding_decreases(t: TableView, base: nat, buf: Seq<u8>, off: int, left: nat) {
    if 0 <= off < buf.len() {
        lemma_field_advances(t, base, buf, off, left);
    }
}

/// The base of a block, from the two integers of its prefix: the number of
/// insertions that the block relies on, and the base's distance above it
/// or, where `below`, one less than its distance below it.
pub open spec fn block_base(insertions: u64, below: bool, delta: u64) -> Option<u64> {
    if below {
        if insertions > delta {
            Some((insertions - delta - 1) as u64)
        } else {
            None
        }
    } else if insertions + delta <= u64::MAX {
        Some((insertions + delta) as u64)
    } else {
        None
    }
}

/// The fields of the header block `buf`, decoded with the dynamic table `t`
/// under the size limit `max`.
///
/// Fails with `InvalidHeaderValue` where the prefix gives no base, and else
/// as reading the prefix or a field fails.
#[verifier::opaque]
pub open spec fn block_decoding(t: TableView, buf: Seq<u8>, max: nat) -> Result<Seq<Field>, Error> {
    match prefix_decoding(buf) {
        Err(e) => Err(e),
        Ok((base, start)) => fields_decoding(t, base as nat, buf, start as int, max),
    }
}

/// A string that is read ends behind where it begins, within the buffer.
pub proof fn lemma_string_advances(buf: Seq<u8>, off: int, prefix: u8, max_len: nat)
    ensures
        match string_decoding(buf, off, prefix, max_len) {
            Ok((s, next)) => 0 <= off < next <= buf.len() && s.len() <= max_len,
            Err(_) => true,
        },
{
    reveal(string_decoding);
    lemma_int_advances(buf, off, prefix);
}

/// A field line that is read ends behind where it begins, within the
/// buffer.
pub proof fn lemma_line_advances(buf: Seq<u8>, off: int, max_len: nat)
    ensures
        match line_decoding(buf, off, max_len) {
            Ok((_, next)) => 0 <= off < next <= buf.len(),
            Err(_) => true,
        },
{
    reveal(line_decoding);
    if 0 <= off < buf.len() {
        lemma_int_advances(buf, off, 6);
        lemma_int_advances(buf, off, 4);
        lemma_int_advances(buf, off, 3);
        lemma_string_advances(buf, off, 3, max_len);
        match int_decoding(buf, off, 4) {
            Ok((_, next)) => {
                lemma_string_advances(buf, next as int, 7, max_len);
            },
            Err(_) => {},
        }
        match int_decoding(buf, off, 3) {
            Ok((_, next)) => {
                lemma_string_advances(buf, next as int, 7, max_len);
            },
            Err(_) => {},
        }
        match string_decoding(buf, off, 3, max_len) {
            Ok((_, next)) => {
                lemma_string_advances(buf, next as int, 7, max_len);
            },
            Err(_) => {},
        }
    }
}

/// A field that is read ends behind where it begins, within the buffer,
/// and is within the size limit.
pub proof fn lemma_field_advances(t: TableView, base: nat, buf: Seq<u8>, off: int, left: nat)
    ensures
        match field_decoding(t, base, buf, off, left) {
            Ok((f, next)) => 0 <= off < next <= buf.len() && field_size(f) <= left,
            Err(_) => true,
        },
{
    reveal(field_decoding);
    lemma_line_advances(buf, off, left);
}

/// The fields from an offset on are the field at the offset, followed by
/// the fields behind it, read under what the field leaves of the limit.
pub proof fn lemma_fields_decoding_unfold(
    t: TableView,
    base: nat,
    buf: Seq<u8>,
    off: int,
    left: nat,
)
    ensures
        fields_decoding(t, base, buf, off, left) == if off < 0 || off >= buf.len() {
            Ok::<Seq<Field>, Error>(Seq::empty())
        } else {
            match field_decoding(t, base, buf, off, left) {
                Err(e) => Err(e),
                Ok((f, next)) => with_front(
                    seq![f],
                    fields_decoding(t, base, buf, next as int, (left - field_size(f)) as nat),
                ),
            }
        },
{
    reveal(fields_decoding);
}

/// A list put in front of a result in two parts is put in front of it whole.
pub proof fn lemma_with_front_twice(done: Seq<Field>, more: Seq<Field>, r: Result<Seq<Field>, Error>)
    ensures
        with_front(done, with_front(more, r)) == with_front(done + more, r),
{
    match r {
        Ok(rest) => {
            assert(done + (more + rest) =~= (done + more) + rest);
        },
        Err(_) => {},
    }
}

/// Nothing put in front of a result leaves it as it is.
pub proof fn lemma_with_front_empty(r: Result<Seq<Field>, Error>)
    ensures
        with_front(Seq::empty(), r) == r,
{
    match r {
        Ok(rest) => {
            assert(Seq::<Field>::empty() + rest =~= rest);
        },
        Err(_) => {},
    }
}

/// A field line as it was read from a block.
pub enum FieldLine {
    /// An index into the static table (`fixed`) or a distance below the
    /// base.
    Indexed { fixed: bool, index: u64 },
    /// A distance above the base.
    IndexedWithPostBase { index: u64 },
    /// A name and a value.
    Literal { name: Vec<u8>, value: Vec<u8> },
    /// An index into the static table (`fixed`) or a distance below the
    /// base, for the name; and a value.
    LiteralWithNameRef { fixed: bool, index: u64, value: Vec<u8> },
    /// A distance above the base, for the name; and a value.
    LiteralWithPostBase { index: u64, value: Vec<u8> },
}

impl View for FieldLine {
    type V = Line;

    open spec fn view(&self) -> Line {
        match self {
            FieldLine::Indexed { fixed, index } => Line::Indexed { fixed: *fixed, index: *index },
            FieldLine::IndexedWithPostBase { index } => Line::IndexedWithPostBase {
                index: *index,
            },
            FieldLine::Literal { name, value } => Line::Literal { name: name@, value: value@ },
            FieldLine::LiteralWithNameRef { fixed, index, value } => Line::LiteralWithNameRef {
                fixed: *fixed,
                index: *index,
                value: value@,
            },
            FieldLine::LiteralWithPostBase { index, value } => Line::LiteralWithPostBase {
                index: *index,
                value: value@,
            },
        }
    }
}

/// Reads the field line that begins at `buf[off]` and returns it with the
/// offset behind it. No string in it may have more than `max_len` bytes.
pub fn decode_line_at(buf: &[u8], off: usize, max_len: u64) -> (r: Result<
    (FieldLine, usize),
    Error,
>)
    ensures
        match line_decoding(buf@, off as int, max_len as nat) {
            Ok((line, next)) => r is Ok && r->Ok_0.0@ == line && r->Ok_0.1 == next && off < next
                <= buf@.len(),
            Err(e) => r is Err && r->Err_0 == e,
        },
{
    proof {
        reveal(line_decoding);
    }
    let first: u8 = match get_u8_at(buf, off) {
        Ok(b) => b,
        Err(e) => {
            return Err(Error::from(e));
        },
    };
    match Kind::from_byte(first) {
        Kind::Indexed => {
            let fixed: bool = first & INDEXED_STATIC_BIT == INDEXED_STATIC_BIT;
            match decode_int_at(buf, off, 6) {
                Ok((index, next)) => Ok((FieldLine::Indexed { fixed, index }, next)),
                Err(e) => Err(e),
            }
        },
        Kind::IndexedWithPostBase => match decode_int_at(buf, off, 4) {
            Ok((index, next)) => Ok((FieldLine::IndexedWithPostBase { index }, next)),
            Err(e) => Err(e),
        },
        Kind::Literal => match decode_str_at(buf, off, 3, max_len) {
            Ok((name, next)) => match decode_str_at(buf, next, 7, max_len) {
                Ok((value, end)) => Ok((FieldLine::Literal { name, value }, end)),
                Err(e) => Err(e),
            },
            Err(e) => Err(e),
        },
        Kind::LiteralWithNameRef => {
            let fixed: bool = first & NAME_REF_STATIC_BIT == NAME_REF_STATIC_BIT;
            match decode_int_at(buf, off, 4) {
                Ok((index, next)) => match decode_str_at(buf, next, 7, max_len) {
                    Ok((value, end)) => Ok(
                        (FieldLine::LiteralWithNameRef { fixed, index, value }, end),
                    ),
                    Err(e) => Err(e),
                },
                Err(e) => Err(e),
            }
        },
        Kind::LiteralWithPostBase => match decode_int_at(buf, off, 3) {
            Ok((index, next)) => match decode_str_at(buf, next, 7, max_len) {
                Ok((value, end)) => Ok((FieldLine::LiteralWithPostBase { index, value }, end)),
                Err(e) => Err(e),
            },
            Err(e) => Err(e),
        },
    }
}

/// The header for a field that was read, where its size is within `left`.
fn sized_header(name: &[u8], value: Vec<u8>, left: u64) -> (r: Result<Header, Error>)
    ensures
        r is Ok <==> field_size((name@, value@)) <= left,
        r is Ok ==> r->Ok_0@ == (lower(name@), value@),
        r is Err ==> r->Err_0 == Error::HeaderListTooLarge,
{
    let size: u128 = name.len() as u128 + value.len() as u128 + ENTRY_OVERHEAD as u128;
    if size > left as u128 {
        return Err(Error::HeaderListTooLarge);
    }
    Ok(Header { name: to_lower(name), value })
}

/// What reading the prefix of a block gives: the base and the offset of the
/// first field.
pub open spec fn prefix_decoding(buf: Seq<u8>) -> Result<(u64, nat), Error> {
    match int_decoding(buf, 0, 8) {
        Err(e) => Err(e),
        Ok((insertions, a)) => match int_decoding(buf, a as int, 7) {
            Err(e) => Err(e),
            Ok((delta, b)) => match block_base(
                insertions,
                buf[a as int] & BASE_SIGN_BIT == BASE_SIGN_BIT,
                delta,
            ) {
                None => Err(Error::InvalidHeaderValue),
                Some(base) => Ok((base, b)),
            },
        },
    }
}

/// Reads the prefix of the block `buf` and returns the block's base with
/// the offset of the first field.
pub fn decode_prefix(buf: &[u8]) -> (r: Result<(u64, usize), Error>)
    ensures
        match prefix_decoding(buf@) {
            Ok((base, b)) => r is Ok && r->Ok_0.0 == base && r->Ok_0.1 == b && b <= buf@.len(),
            Err(e) => r is Err && r->Err_0 == e,
        },
{
    let (insertions, a) = match decode_int_at(buf, 0, 8) {
        Ok(x) => x,
        Err(e) => {
            return Err(e);
        },
    };
    proof {
        lemma_int_advances(buf@, a as int, 7);
    }
    let sign: u8 = match get_u8_at(buf, a) {
        Ok(b) => b,
        Err(e) => {
            return Err(Error::from(e));
        },
    };
    let (delta, b) = match decode_int_at(buf, a, 7) {
        Ok(x) => x,
        Err(e) => {
            return Err(e);
        },
    };
    if sign & BASE_SIGN_BIT == BASE_SIGN_BIT {
        if insertions > delta {
            Ok((insertions - delta - 1, b))
        } else {
            Err(Error::InvalidHeaderValue)
        }
    } else {
        match insertions.checked_add(delta) {
            Some(base) => Ok((base, b)),
            None => Err(Error::InvalidHeaderValue),
        }
    }
}

/// A decoder of header blocks, with its dynamic table.
pub struct Decoder {
    table: DynamicTable,
}

impl Decoder {
    /// The decoder's dynamic table, as plain data.
    pub closed spec fn table(&self) -> TableView {
        self.table@
    }

    /// Whether the decoder is well formed: its table is.
    pub closed spec fn wf(&self) -> bool {
        self.table.wf()
    }

    /// A decoder whose dynamic table has no capacity: it resolves indices
    /// into the static table alone.
    pub fn new() -> (r: Decoder)
        ensures
            r.wf(),
            r.table() == (TableView { entries: Seq::empty(), dropped: 0, capacity: 0 }),
    {
        Decoder { table: DynamicTable::new(0) }
    }

    /// A decoder whose dynamic table has the capacity `capacity`.
    pub fn with_capacity(capacity: u64) -> (r: Decoder)
        ensures
            r.wf(),
            r.table() == (TableView {
                entries: Seq::empty(),
                dropped: 0,
                capacity: capacity as nat,
            }),
    {
        Decoder { table: DynamicTable::new(capacity) }
    }

    /// The capacity of the dynamic table.
    pub fn capacity(&self) -> (r: u64)
        ensures
            r == self.table().capacity,
    {
        self.table.capacity()
    }

    /// Changes the capacity of the dynamic table; the oldest entries leave
    /// until the rest fits.
    pub fn set_capacity(&mut self, capacity: u64)
        requires
            old(self).wf(),
        ensures
            final(self).wf(),
            final(self).table() == old(self).table().with_capacity(capacity as nat),
    {
        self.table.set_capacity(capacity);
    }

    /// The number of entries inserted into the dynamic table so far.
    pub fn inserted(&self) -> (r: u64)
        requires
            self.wf(),
        ensures
            r == self.table().inserted(),
    {
        self.table.inserted()
    }

    /// Inserts the field `name: value` into the dynamic table, where it fits
    /// and the table can still count it, and says whether it was inserted.
    pub fn insert(&mut self, name: &[u8], value: &[u8]) -> (r: bool)
        requires
            old(self).wf(),
        ensures
            final(self).wf(),
            r <==> field_size((name@, value@)) <= old(self).table().capacity && old(
                self,
            ).table().inserted() < u64::MAX,
            r ==> final(self).table() == old(self).table().with_entry((name@, value@)),
            !r ==> final(self).table() == old(self).table(),
    {
        if self.table.inserted() == u64::MAX {
            return false;
        }
        match self.table.insert(name, value) {
            Ok(_) => true,
            Err(_) => false,
        }
    }

    /// The entry that an index refers to: in the static table where `fixed`,
    /// else in the dynamic table at that distance below `base`.
    fn referred_entry(&self, base: u64, fixed: bool, index: u64) -> (r: Result<
        (&[u8], &[u8]),
        Error,
    >)
        requires
            self.wf(),
        ensures
            match referred(self.table(), base as nat, fixed, index) {
                Some(f) => r is Ok && r->Ok_0.0@ == f.0 && r->Ok_0.1@ == f.1,
                None => r is Err && r->Err_0 == Error::InvalidStaticTableIndex,
            },
    {
        if fixed {
            match lookup(index) {
                Ok((name, value)) => Ok((name, value)),
                Err(e) => Err(e),
            }
        } else {
            self.table.lookup_relative(base, index)
        }
    }

    /// The header that `line` stands for, where its size is within `left`.
    pub fn resolve(&self, base: u64, line: FieldLine, left: u64) -> (r: Result<Header, Error>)
        requires
            self.wf(),
        ensures
            match resolved(self.table(), base as nat, line@) {
                None => r is Err && r->Err_0 == Error::InvalidStaticTableIndex,
                Some(f) => if field_size(f) > left {
                    r is Err && r->Err_0 == Error::HeaderListTooLarge
                } else {
                    r is Ok && r->Ok_0@ == (lower(f.0), f.1)
                },
            },
    {
        match line {
            FieldLine::Indexed { fixed, index } => match self.referred_entry(base, fixed, index) {
                Ok((name, value)) => sized_header(name, slice_to_vec(value), left),
                Err(e) => Err(e),
            },
            FieldLine::IndexedWithPostBase { index } => match self.table.lookup_post_base(
                base,
                index,
            ) {
                Ok((name, value)) => sized_header(name, slice_to_vec(value), left),
                Err(e) => Err(e),
            },
            FieldLine::Literal { name, value } => sized_header(name.as_slice(), value, left),
            FieldLine::LiteralWithNameRef { fixed, index, value } => match self.referred_entry(
                base,
                fixed,
                index,
            ) {
                Ok((name, _)) => sized_header(name, value, left),
                Err(e) => Err(e),
            },
            FieldLine::LiteralWithPostBase { index, value } => match self.table.lookup_post_base(
                base,
                index,
            ) {
                Ok((name, _)) => sized_header(name, value, left),
                Err(e) => Err(e),
            },
        }
    }

    /// Reads the field that begins at `buf[off]` and returns it with the
    /// offset behind it. `left` is what is left of the size limit.
    pub fn decode_field_at(&self, base: u64, buf: &[u8], off: usize, left: u64) -> (r: Result<
        (Header, usize),
        Error,
    >)
        requires
            self.wf(),
        ensures
            match field_decoding(self.table(), base as nat, buf@, off as int, left as nat) {
                Ok((f, next)) => r is Ok && r->Ok_0.0@ == f && r->Ok_0.1 == next && off < next
                    <= buf@.len() && field_size(f) <= left,
                Err(e) => r is Err && r->Err_0 == e,
            },
    {
        proof {
            reveal(field_decoding);
        }
        let (line, next) = match decode_line_at(buf, off, left) {
            Ok(x) => x,
            Err(e) => {
                return Err(e);
            },
        };
        match self.resolve(base, line, left) {
            Ok(h) => Ok((h, next)),
            Err(e) => Err(e),
        }
    }

    /// The header fields of the block `buf`, in order, with their names in
    /// lower case.
    ///
    /// `max_header_list_size` bounds the sizes of the fields together, each
    /// counted as its name's and value's lengths and the entry overhead.
    pub fn decode(&self, buf: &[u8], max_header_list_size: u64) -> (r: Result<Vec<Header>, Error>)
        requires
            self.wf(),
        ensures
            match block_decoding(self.table(), buf@, max_header_list_size as nat) {
                Ok(fields) => r is Ok && header_fields(r->Ok_0@) == fields,
                Err(e) => r is Err && r->Err_0 == e,
            },
    {
        proof {
            reveal(block_decoding);
        }
        let (base, start) = match decode_prefix(buf) {
            Ok(x) => x,
            Err(e) => {
                return Err(e);
            },
        };
        let ghost t = self.table();
        let n: usize = buf.len();
        let mut out: Vec<Header> = Vec::new();
        let mut left: u64 = max_header_list_size;
        let mut off: usize = start;
        proof {
            assert(header_fields(out@) =~= Seq::<Field>::empty());
            lemma_with_front_empty(
                fields_decoding(t, base as nat, buf@, start as int, left as nat),
            );
        }
        while off < n
            invariant
                self.wf(),
                t == self.table(),
                n == buf@.len(),
                off <= n,
                block_decoding(t, buf@, max_header_list_size as nat) == fields_decoding(
                    t,
                    base as nat,
                    buf@,
                    start as int,
                    max_header_list_size as nat,
                ),
                fields_decoding(
                    t,
                    base as nat,
                    buf@,
                    start as int,
                    max_header_list_size as nat,
                ) == with_front(
                    header_fields(out@),
                    fields_decoding(t, base as nat, buf@, off as int, left as nat),
                ),
            decreases n - off,
        {
            let ghost done = header_fields(out@);
            proof {
                lemma_fields_decoding_unfold(t, base as nat, buf@, off as int, left as nat);
            }
            let (h, next) = match self.decode_field_at(base, buf, off, left) {
                Ok(x) => x,
                Err(e) => {
                    return Err(e);
                },
            };
            let size: u64 = (h.name.len() as u128 + h.value.len() as u128
                + ENTRY_OVERHEAD as u128) as u64;
            proof {
                let rest = fields_decoding(
                    t,
                    base as nat,
                    buf@,
                    next as int,
                    (left - size) as nat,
                );
                lemma_with_front_twice(done, seq![h@], rest);
                assert(header_fields(out@.push(h)) =~= done + seq![h@]);
            }
            left = left - size;
            out.push(h);
            off = next;
        }
        proof {
            lemma_fields_decoding_unfold(t, base as nat, buf@, off as int, left as nat);
            assert(header_fields(out@) + Seq::<Field>::empty() =~= header_fields(out@));
        }
        Ok(out)
    }
}

} // verus!
