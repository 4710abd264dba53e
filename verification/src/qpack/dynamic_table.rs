//! The dynamic table: header fields that were inserted while the connection
//! runs, oldest first, held within a capacity.
//!
//! Every insertion gets the next absolute index, starting at 1; an index is
//! never given twice. When the table would outgrow its capacity the oldest
//! entries leave, and their indices with them.
use super::error::Error;
use super::header::{header_fields, Field, Header};
use super::text::{bytes_eq, lower, lower_eq};
use std::collections::VecDeque;
use vstd::prelude::*;

verus! {

/// What every entry costs beside its name and its value.
pub const ENTRY_OVERHEAD: u64 = 32;

/// The size that a field is counted with.
pub open spec fn field_size(f: Field) -> nat {
    f.0.len() + f.1.len() + ENTRY_OVERHEAD as nat
}

/// The sizes of all of `entries`, added up.
pub open spec fn total_size(entries: Seq<Field>) -> nat
    decreases entries.len(),
{
    if entries.len() == 0 {
        0
    } else {
        field_size(entries[0]) + total_size(entries.skip(1))
    }
}

/// `entries` without as many of its oldest as have to leave for the rest to
/// fit in `room`.
pub open spec fn evict(entries: Seq<Field>, room: nat) -> Seq<Field>
    decreases entries.len(),
{
    if entries.len() == 0 || total_size(entries) <= room {
        entries
    } else {
        evict(entries.skip(1), room)
    }
}

/// A dynamic table as plain data.
pub struct TableView {
    /// The entries that are in the table, oldest first.
    pub entries: Seq<Field>,
    /// The number of entries that have left the table.
    pub dropped: nat,
    /// The size that the entries may have together.
    pub capacity: nat,
}

impl TableView {
    /// The number of entries inserted so far: the absolute index of the
    /// newest.
    pub open spec fn inserted(self) -> nat {
        self.dropped + self.entries.len()
    }

    /// The entry with the absolute index `index`, where it is in the table.
    pub open spec fn entry_at(self, index: int) -> Option<Field> {
        if self.dropped < index <= self.inserted() {
            Some(self.entries[index - self.dropped - 1])
        } else {
            None
        }
    }

    /// The entry at the distance `distance` below `base`.
    pub open spec fn relative(self, base: nat, distance: nat) -> Option<Field> {
        self.entry_at(base - distance)
    }

    /// The entry at the distance `distance` above `base`.
    pub open spec fn post_base(self, base: nat, distance: nat) -> Option<Field> {
        self.entry_at((base + 1 + distance) as int)
    }

    /// The table with the capacity `capacity`: the oldest entries leave
    /// until the rest fits.
    pub open spec fn with_capacity(self, capacity: nat) -> TableView {
        let kept = evict(self.entries, capacity);
        TableView {
            entries: kept,
            dropped: self.dropped + (self.entries.len() - kept.len()) as nat,
            capacity,
        }
    }

    /// The table after `f` has been inserted: the oldest entries leave until
    /// `f` fits, and `f` becomes the newest.
    pub open spec fn with_entry(self, f: Field) -> TableView
        recommends
            field_size(f) <= self.capacity,
    {
        let kept = evict(self.entries, (self.capacity - field_size(f)) as nat);
        TableView {
            entries: kept.push(f),
            dropped: self.dropped + (self.entries.len() - kept.len()) as nat,
            capacity: self.capacity,
        }
    }

    /// The absolute index of the newest of the first `k` entries that has
    /// the name `name` and the value `value`.
    pub open spec fn newest_exact(self, name: Seq<u8>, value: Seq<u8>, k: nat) -> Option<nat>
        decreases k,
    {
        if k == 0 || k > self.entries.len() {
            None
        } else if self.entries[k - 1] == (name, value) {
            Some(self.dropped + k)
        } else {
            self.newest_exact(name, value, (k - 1) as nat)
        }
    }

    /// The absolute index of the newest of the first `k` entries that has
    /// the name `name`.
    pub open spec fn newest_named(self, name: Seq<u8>, k: nat) -> Option<nat>
        decreases k,
    {
        if k == 0 || k > self.entries.len() {
            None
        } else if self.entries[k - 1].0 == name {
            Some(self.dropped + k)
        } else {
            self.newest_named(name, (k - 1) as nat)
        }
    }

    /// The best match of the table for a header: the newest entry with the
    /// header's name, in lower case, and its value, marked `true`; where
    /// there is none, the newest entry with that name, marked `false`;
    /// `None` where no entry has the name.
    #[verifier::opaque]
    pub open spec fn best_match(self, name: Seq<u8>, value: Seq<u8>) -> Option<(u64, bool)> {
        match self.newest_exact(lower(name), value, self.entries.len()) {
            Some(i) => Some((i as u64, true)),
            None => match self.newest_named(lower(name), self.entries.len()) {
                Some(i) => Some((i as u64, false)),
                None => None,
            },
        }
    }
}

/// One more entry adds its size to the total.
pub proof fn lemma_total_size_push(entries: Seq<Field>, f: Field)
    ensures
        total_size(entries.push(f)) == total_size(entries) + field_size(f),
    decreases entries.len(),
{
    let all = entries.push(f);
    if entries.len() == 0 {
        assert(all.skip(1) =~= Seq::<Field>::empty());
        assert(all[0] == f);
        assert(total_size(all) == field_size(f) + total_size(all.skip(1)));
        assert(total_size(all.skip(1)) == 0);
    } else {
        assert(all.skip(1) =~= entries.skip(1).push(f));
        assert(all[0] == entries[0]);
        lemma_total_size_push(entries.skip(1), f);
        assert(total_size(all) == field_size(all[0]) + total_size(all.skip(1)));
    }
}

/// What is left after eviction are the newest entries, and they fit.
pub proof fn lemma_evict(entries: Seq<Field>, room: nat)
    ensures
        evict(entries, room).len() <= entries.len(),
        evict(entries, room) == entries.skip(entries.len() - evict(entries, room).len()),
        total_size(evict(entries, room)) <= room,
        total_size(entries) <= room ==> evict(entries, room) == entries,
    decreases entries.len(),
{
    if entries.len() == 0 || total_size(entries) <= room {
        assert(entries.skip(0) =~= entries);
    } else {
        let rest = entries.skip(1);
        lemma_evict(rest, room);
        let kept = evict(rest, room);
        assert(rest.skip(rest.len() - kept.len()) =~= entries.skip(entries.len() - kept.len()));
    }
}

/// A search that finds an entry finds one that is in the table and fits.
pub proof fn lemma_newest_exact(t: TableView, name: Seq<u8>, value: Seq<u8>, k: nat)
    requires
        k <= t.entries.len(),
    ensures
        match t.newest_exact(name, value, k) {
            Some(i) => t.dropped < i <= t.dropped + k && t.entry_at(i as int) == Some(
                (name, value),
            ),
            None => true,
        },
    decreases k,
{
    if k > 0 && t.entries[k - 1] != (name, value) {
        lemma_newest_exact(t, name, value, (k - 1) as nat);
    }
}

/// A search by name that finds an entry finds one that is in the table and
/// has the name.
pub proof fn lemma_newest_named(t: TableView, name: Seq<u8>, k: nat)
    requires
        k <= t.entries.len(),
    ensures
        match t.newest_named(name, k) {
            Some(i) => t.dropped < i <= t.dropped + k && t.entry_at(i as int) is Some
                && t.entry_at(i as int)->Some_0.0 == name,
            None => true,
        },
    decreases k,
{
    if k > 0 && t.entries[k - 1].0 != name {
        lemma_newest_named(t, name, (k - 1) as nat);
    }
}

/// The entry that the best match names is in the table, below the base that
/// the number of insertions makes, and has the header's name in lower case;
/// where the match is marked `true`, its value too.
pub proof fn lemma_best_match(t: TableView, name: Seq<u8>, value: Seq<u8>)
    requires
        t.inserted() <= u64::MAX,
    ensures
        match t.best_match(name, value) {
            Some((i, exact)) => t.dropped < i <= t.inserted() && t.entry_at(i as int) is Some
                && t.entry_at(i as int)->Some_0.0 == lower(name) && (exact ==> t.entry_at(
                i as int,
            )->Some_0.1 == value),
            None => true,
        },
{
    reveal(TableView::best_match);
    lemma_newest_exact(t, lower(name), value, t.entries.len());
    lemma_newest_named(t, lower(name), t.entries.len());
}

/// An insertion gives the new entry the next absolute index and leaves every
/// other entry that stays in the table at its own; an index whose entry has
/// left refers to nothing, then and ever after.
pub proof fn lemma_insert_keeps_indices(t: TableView, f: Field, index: int)
    requires
        field_size(f) <= t.capacity,
    ensures
        t.with_entry(f).inserted() == t.inserted() + 1,
        t.with_entry(f).dropped >= t.dropped,
        t.with_entry(f).entry_at((t.inserted() + 1) as int) == Some(f),
        total_size(t.with_entry(f).entries) <= t.capacity,
        index <= t.inserted() ==> t.with_entry(f).entry_at(index) == if index > t.with_entry(
            f,
        ).dropped {
            t.entry_at(index)
        } else {
            None
        },
{
    let room = (t.capacity - field_size(f)) as nat;
    let kept = evict(t.entries, room);
    lemma_evict(t.entries, room);
    lemma_total_size_push(kept, f);
}

/// A change of capacity leaves every entry that stays in the table at its
/// absolute index, and what stays fits in the new capacity.
pub proof fn lemma_capacity_keeps_indices(t: TableView, capacity: nat, index: int)
    ensures
        t.with_capacity(capacity).inserted() == t.inserted(),
        t.with_capacity(capacity).dropped >= t.dropped,
        total_size(t.with_capacity(capacity).entries) <= capacity,
        total_size(t.entries) <= capacity ==> t.with_capacity(capacity).entries == t.entries,
        t.with_capacity(capacity).entry_at(index) == if index > t.with_capacity(
            capacity,
        ).dropped {
            t.entry_at(index)
        } else {
            None
        },
{
    lemma_evict(t.entries, capacity);
}

/// A dynamic table.
pub struct DynamicTable {
    /// The entries, oldest first.
    entries: VecDeque<Header>,
    /// The number of entries that have left.
    dropped: u64,
    /// The size of the entries together.
    size: u64,
    /// The size that the entries may have together.
    capacity: u64,
}

impl View for DynamicTable {
    type V = TableView;

    closed spec fn view(&self) -> TableView {
        TableView {
            entries: header_fields(self.entries@),
            dropped: self.dropped as nat,
            capacity: self.capacity as nat,
        }
    }
}

impl DynamicTable {
    /// Whether the table is well formed: its entries fit in its capacity,
    /// and the number of insertions in a `u64`.
    pub closed spec fn wf(&self) -> bool {
        &&& self.size == total_size(self@.entries)
        &&& self.size <= self.capacity
        &&& self.dropped + self.entries@.len() <= u64::MAX
    }

    /// What a well-formed table's view is bound by.
    pub proof fn lemma_wf(&self)
        requires
            self.wf(),
        ensures
            total_size(self@.entries) <= self@.capacity <= u64::MAX,
            self@.inserted() <= u64::MAX,
    {
    }

    /// An empty table with the capacity `capacity`.
    pub fn new(capacity: u64) -> (r: DynamicTable)
        ensures
            r.wf(),
            r@ == (TableView { entries: Seq::empty(), dropped: 0, capacity: capacity as nat }),
    {
        let r = DynamicTable { entries: VecDeque::new(), dropped: 0, size: 0, capacity };
        proof {
            assert(r@.entries =~= Seq::<Field>::empty());
        }
        r
    }

    /// The size that the entries may have together.
    pub fn capacity(&self) -> (r: u64)
        ensures
            r == self@.capacity,
    {
        self.capacity
    }

    /// The number of entries in the table.
    pub fn len(&self) -> (r: usize)
        ensures
            r == self@.entries.len(),
    {
        self.entries.len()
    }

    /// The number of entries inserted so far, which is the absolute index of
    /// the newest.
    pub fn inserted(&self) -> (r: u64)
        requires
            self.wf(),
        ensures
            r == self@.inserted(),
    {
        self.dropped + self.entries.len() as u64
    }

    /// Lets the oldest entries leave until the rest fits in `room`.
    fn make_room(&mut self, room: u64)
        requires
            old(self).wf(),
        ensures
            final(self).wf(),
            final(self).capacity == old(self).capacity,
            final(self)@.entries == evict(old(self)@.entries, room as nat),
            final(self)@.dropped + final(self)@.entries.len() == old(self)@.inserted(),
            final(self).size <= room,
    {
        while self.size > room
            invariant
                self.wf(),
                self.capacity == old(self).capacity,
                evict(self@.entries, room as nat) == evict(old(self)@.entries, room as nat),
                self@.entries.len() <= old(self)@.entries.len(),
                self@.dropped + self@.entries.len() == old(self)@.inserted(),
            decreases self.entries@.len(),
        {
            let ghost before = self@.entries;
            match self.entries.pop_front() {
                Some(h) => {
                    proof {
                        assert(self@.entries =~= before.skip(1));
                        assert(field_size(before[0]) == h.name@.len() + h.value@.len() + 32);
                    }
                    let freed: u128 = h.name.len() as u128 + h.value.len() as u128
                        + ENTRY_OVERHEAD as u128;
                    self.size = (self.size as u128 - freed) as u64;
                    self.dropped = self.dropped + 1;
                },
                None => {
                    proof {
                        assert(before.len() == 0);
                    }
                    self.size = 0;
                },
            }
        }
    }

    /// Changes the capacity to `capacity`; the oldest entries leave until
    /// the rest fits.
    pub fn set_capacity(&mut self, capacity: u64)
        requires
            old(self).wf(),
        ensures
            final(self).wf(),
            final(self)@ == old(self)@.with_capacity(capacity as nat),
    {
        proof {
            lemma_evict(self@.entries, capacity as nat);
        }
        self.make_room(capacity);
        self.capacity = capacity;
    }

    /// Inserts the field `name: value` as the newest entry and returns its
    /// absolute index; the oldest entries leave until it fits.
    ///
    /// Fails with `BufferTooShort`, and leaves the table as it is, where the
    /// field alone is larger than the table's capacity.
    pub fn insert(&mut self, name: &[u8], value: &[u8]) -> (r: Result<u64, Error>)
        requires
            old(self).wf(),
            old(self)@.inserted() < u64::MAX,
        ensures
            final(self).wf(),
            r is Ok <==> field_size((name@, value@)) <= old(self)@.capacity,
            r is Ok ==> final(self)@ == old(self)@.with_entry((name@, value@)) && r->Ok_0
                == final(self)@.inserted() && r->Ok_0 == old(self)@.inserted() + 1,
            r is Err ==> r->Err_0 == Error::BufferTooShort && final(self)@ == old(self)@,
    {
        let needed: u128 = name.len() as u128 + value.len() as u128 + ENTRY_OVERHEAD as u128;
        if needed > self.capacity as u128 {
            return Err(Error::BufferTooShort);
        }
        let ghost before = self@.entries;
        let room: u64 = self.capacity - needed as u64;
        self.make_room(room);
        let ghost kept = self@.entries;
        self.entries.push_back(Header::new(name, value));
        self.size = self.size + needed as u64;
        proof {
            assert(self@.entries =~= kept.push((name@, value@)));
            lemma_total_size_push(kept, (name@, value@));
            lemma_evict(before, room as nat);
        }
        Ok(self.dropped + self.entries.len() as u64)
    }

    /// The entry with the absolute index `index`;
    /// `InvalidStaticTableIndex` where no such entry is in the table.
    pub fn lookup_absolute(&self, index: u64) -> (r: Result<(&[u8], &[u8]), Error>)
        requires
            self.wf(),
        ensures
            match self@.entry_at(index as int) {
                Some(f) => r is Ok && r->Ok_0.0@ == f.0 && r->Ok_0.1@ == f.1,
                None => r == Err::<(&[u8], &[u8]), Error>(Error::InvalidStaticTableIndex),
            },
    {
        if index <= self.dropped || index - self.dropped > self.entries.len() as u64 {
            return Err(Error::InvalidStaticTableIndex);
        }
        let h: &Header = &self.entries[(index - self.dropped - 1) as usize];
        Ok((h.name.as_slice(), h.value.as_slice()))
    }

    /// The entry at the distance `distance` below `base`: distance 0 is the
    /// entry with the absolute index `base`.
    pub fn lookup_relative(&self, base: u64, distance: u64) -> (r: Result<(&[u8], &[u8]), Error>)
        requires
            self.wf(),
        ensures
            match self@.relative(base as nat, distance as nat) {
                Some(f) => r is Ok && r->Ok_0.0@ == f.0 && r->Ok_0.1@ == f.1,
                None => r == Err::<(&[u8], &[u8]), Error>(Error::InvalidStaticTableIndex),
            },
    {
        if distance >= base {
            return Err(Error::InvalidStaticTableIndex);
        }
        self.lookup_absolute(base - distance)
    }

    /// The entry at the distance `distance` above `base`: distance 0 is the
    /// first entry inserted after the entry with the absolute index `base`.
    pub fn lookup_post_base(&self, base: u64, distance: u64) -> (r: Result<(&[u8], &[u8]), Error>)
        requires
            self.wf(),
        ensures
            match self@.post_base(base as nat, distance as nat) {
                Some(f) => r is Ok && r->Ok_0.0@ == f.0 && r->Ok_0.1@ == f.1,
                None => r == Err::<(&[u8], &[u8]), Error>(Error::InvalidStaticTableIndex),
            },
    {
        let index: u64 = match base.checked_add(distance) {
            Some(x) => match x.checked_add(1) {
                Some(y) => y,
                None => {
                    return Err(Error::InvalidStaticTableIndex);
                },
            },
            None => {
                return Err(Error::InvalidStaticTableIndex);
            },
        };
        self.lookup_absolute(index)
    }

    /// The best match of the table for the header `name: value`: the
    /// absolute index of an entry, and whether its value matches too. The
    /// name is compared in lower case.
    pub fn find(&self, name: &[u8], value: &[u8]) -> (r: Option<(u64, bool)>)
        requires
            self.wf(),
        ensures
            r == self@.best_match(name@, value@),
    {
        let n: usize = self.entries.len();
        let mut named: Option<u64> = None;
        let mut k: usize = n;
        while k > 0
            invariant
                self.wf(),
                n == self@.entries.len(),
                k <= n,
                self@.newest_exact(lower(name@), value@, n as nat) == self@.newest_exact(
                    lower(name@),
                    value@,
                    k as nat,
                ),
                match named {
                    Some(i) => self@.newest_named(lower(name@), n as nat) == Some(i as nat),
                    None => self@.newest_named(lower(name@), n as nat) == self@.newest_named(
                        lower(name@),
                        k as nat,
                    ),
                },
            decreases k,
        {
            let h: &Header = &self.entries[k - 1];
            let index: u64 = self.dropped + k as u64;
            if lower_eq(h.name.as_slice(), name) {
                if bytes_eq(h.value.as_slice(), value) {
                    proof {
                        reveal(TableView::best_match);
                    }
                    return Some((index, true));
                }
                if named.is_none() {
                    named = Some(index);
                }
            }
            k = k - 1;
        }
        proof {
            reveal(TableView::best_match);
        }
        match named {
            Some(i) => Some((i, false)),
            None => None,
        }
    }
}

} // verus!
