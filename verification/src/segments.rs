//! The segment table: growable storage of word arrays addressed by 32-bit
//! identifiers, with last-in-first-out reuse of released identifiers.

use vstd::prelude::*;

verus! {

/// Number of distinct segment identifiers.
pub const IDENTIFIERS: u64 = 0x1_0000_0000;

/// Mathematical model of a segment table.
///
/// `slots[id]` is `Some(words)` while `id` is live and `None` once it has
/// been released. `free_list` holds the released identifiers, oldest first.
pub struct Table {
    pub slots: Seq<Option<Seq<u32>>>,
    pub free_list: Seq<u32>,
}

impl Table {
    /// The table before any segment exists.
    pub open spec fn empty() -> Table {
        Table { slots: Seq::empty(), free_list: Seq::empty() }
    }

    /// Every slot has an identifier, and the free list names exactly the
    /// released slots, each once, never identifier zero.
    pub open spec fn wf(self) -> bool {
        &&& self.slots.len() <= IDENTIFIERS
        &&& self.free_list.no_duplicates()
        &&& !self.free_list.contains(0u32)
        &&& forall|id: u32|
            self.free_list.contains(id) <==> (id < self.slots.len() && self.slots[id as int]
                is None)
    }

    /// A segment with this identifier exists and has not been released.
    pub open spec fn live(self, id: u32) -> bool {
        id < self.slots.len() && self.slots[id as int] is Some
    }

    /// Contents of a live segment.
    pub open spec fn segment(self, id: u32) -> Seq<u32>
        recommends
            self.live(id),
    {
        self.slots[id as int]->0
    }

    /// `offset` addresses a word of a live segment.
    pub open spec fn addressable(self, id: u32, offset: u32) -> bool {
        self.live(id) && offset < self.segment(id).len()
    }

    /// An allocation can be given an identifier.
    pub open spec fn has_room(self) -> bool {
        self.free_list.len() > 0 || self.slots.len() < IDENTIFIERS
    }

    /// The identifier that the next allocation returns: the most recently
    /// released one if any, else the one past the table's tail.
    pub open spec fn next_id(self) -> u32
        recommends
            self.has_room(),
    {
        if self.free_list.len() > 0 {
            self.free_list.last()
        } else {
            self.slots.len() as u32
        }
    }

    /// The table after a segment with the given contents is appended.
    pub open spec fn append(self, words: Seq<u32>) -> Table {
        Table { slots: self.slots.push(Some(words)), free_list: self.free_list }
    }

    /// The table after a zeroed segment of `length` words is allocated at
    /// `next_id()`.
    pub open spec fn allocate(self, length: u32) -> Table
        recommends
            self.has_room(),
    {
        let zeroed = Seq::new(length as nat, |i: int| 0u32);
        if self.free_list.len() > 0 {
            Table {
                slots: self.slots.update(self.free_list.last() as int, Some(zeroed)),
                free_list: self.free_list.drop_last(),
            }
        } else {
            self.append(zeroed)
        }
    }

    /// The table after zeroed segments of the given lengths are allocated
    /// one after the other.
    pub open spec fn allocate_all(self, lengths: Seq<u32>) -> Table
        decreases lengths.len(),
    {
        if lengths.len() == 0 {
            self
        } else {
            self.allocate_all(lengths.drop_last()).allocate(lengths.last())
        }
    }

    /// The table after segment `id` is released.
    pub open spec fn release(self, id: u32) -> Table
        recommends
            id != 0,
            self.live(id),
    {
        Table { slots: self.slots.update(id as int, None), free_list: self.free_list.push(id) }
    }

    /// The word at `offset` of segment `id`.
    pub open spec fn read(self, id: u32, offset: u32) -> u32
        recommends
            self.addressable(id, offset),
    {
        self.segment(id)[offset as int]
    }

    /// The table after `word` is stored at `offset` of segment `id`.
    pub open spec fn write(self, id: u32, offset: u32, word: u32) -> Table
        recommends
            self.addressable(id, offset),
    {
        Table {
            slots: self.slots.update(
                id as int,
                Some(self.segment(id).update(offset as int, word)),
            ),
            free_list: self.free_list,
        }
    }

    /// The table after segment zero takes the contents of segment `id`.
    pub open spec fn replace_zero_from(self, id: u32) -> Table
        recommends
            self.live(0),
            self.live(id),
    {
        Table { slots: self.slots.update(0, Some(self.segment(id))), free_list: self.free_list }
    }
}

/// The segment table of a machine.
pub struct SegmentTable {
    slots: Vec<Option<Vec<u32>>>,
    free_list: Vec<u32>,
}

impl View for SegmentTable {
    type V = Table;

    closed spec fn view(&self) -> Table {
        Table {
            slots: Seq::new(
                self.slots@.len(),
                |i: int|
                    match self.slots@[i] {
                        Some(words) => Some(words@),
                        None => None,
                    },
            ),
            free_list: self.free_list@,
        }
    }
}

impl SegmentTable {
    /// Creates a table without segments.
    pub fn new() -> (table: SegmentTable)
        ensures
            table@ == Table::empty(),
            table@.wf(),
    {
        let table = SegmentTable { slots: Vec::new(), free_list: Vec::new() };
        assert(table@.slots =~= Seq::empty());
        table
    }

    /// Appends `words` as a new segment at the table's tail, where it gets
    /// the identifier that equals the table's length before the call.
    pub fn append(&mut self, words: Vec<u32>)
        requires
            old(self)@.wf(),
            old(self)@.slots.len() < IDENTIFIERS,
        ensures
            final(self)@ == old(self)@.append(words@),
            final(self)@.wf(),
    {
        self.slots.push(Some(words));
        proof {
            assert(self@.slots =~= old(self)@.slots.push(Some(words@)));
            lemma_append_wf(old(self)@, words@);
        }
    }

    /// Tells whether an allocation can be given an identifier.
    pub fn has_room(&self) -> (room: bool)
        ensures
            room == self@.has_room(),
    {
        self.free_list.len() > 0 || (self.slots.len() as u64) < IDENTIFIERS
    }

    /// Allocates a zero-filled segment of `length` words and returns its
    /// identifier: the most recently released one if the free list holds
    /// any, else the next unused one at the table's tail.
    pub fn allocate(&mut self, length: u32) -> (id: u32)
        requires
            old(self)@.wf(),
            old(self)@.has_room(),
        ensures
            id == old(self)@.next_id(),
            final(self)@ == old(self)@.allocate(length),
            final(self)@.wf(),
            final(self)@.live(id),
            final(self)@.segment(id) == Seq::new(length as nat, |i: int| 0u32),
    {
        let zeroed = vec![0u32; length as usize];
        assert(zeroed@ =~= Seq::new(length as nat, |i: int| 0u32));
        proof {
            lemma_allocate_wf(self@, length);
        }
        match self.free_list.pop() {
            Some(id) => {
                assert(old(self)@.free_list.contains(id));
                self.slots[id as usize] = Some(zeroed);
                assert(self@.slots =~= old(self)@.slots.update(id as int, Some(zeroed@)));
                id
            },
            None => {
                let id = self.slots.len() as u32;
                self.slots.push(Some(zeroed));
                assert(self@.slots =~= old(self)@.slots.push(Some(zeroed@)));
                id
            },
        }
    }

    /// Releases segment `id`: its storage is dropped, its slot stays in the
    /// table, and `id` becomes the next identifier to be reused.
    pub fn release(&mut self, id: u32)
        requires
            old(self)@.wf(),
            id != 0,
            old(self)@.live(id),
        ensures
            final(self)@ == old(self)@.release(id),
            final(self)@.wf(),
    {
        self.slots[id as usize] = None;
        self.free_list.push(id);
        proof {
            assert(self@.slots =~= old(self)@.slots.update(id as int, None));
            lemma_release_wf(old(self)@, id);
        }
    }

    /// Tells whether `id` names a live segment.
    pub fn is_live(&self, id: u32) -> (live: bool)
        ensures
            live == self@.live(id),
    {
        (id as usize) < self.slots.len() && self.slots[id as usize].is_some()
    }

    /// Length of segment `id`, or `None` where `id` is not live.
    pub fn segment_len(&self, id: u32) -> (len: Option<usize>)
        ensures
            len is Some <==> self@.live(id),
            len matches Some(n) ==> n == self@.segment(id).len(),
    {
        if (id as usize) < self.slots.len() {
            match &self.slots[id as usize] {
                Some(words) => Some(words.len()),
                None => None,
            }
        } else {
            None
        }
    }

    /// Tells whether `offset` addresses a word of a live segment `id`.
    pub fn is_addressable(&self, id: u32, offset: u32) -> (ok: bool)
        ensures
            ok == self@.addressable(id, offset),
    {
        match self.segment_len(id) {
            Some(len) => (offset as usize) < len,
            None => false,
        }
    }

    /// The length of a live segment fits the machine's address width.
    pub proof fn lemma_segment_fits(&self, id: u32)
        requires
            self@.live(id),
        ensures
            self@.segment(id).len() <= usize::MAX,
    {
        let words = self.slots@[id as int]->0;
        assert(self@.segment(id) == words@);
        assert(words@.len() == words.len());
    }

    /// The word at position `index` of segment `id`, for positions that
    /// need not fit in a register.
    pub fn word_at(&self, id: u32, index: usize) -> (word: u32)
        requires
            self@.live(id),
            index < self@.segment(id).len(),
        ensures
            word == self@.segment(id)[index as int],
    {
        match &self.slots[id as usize] {
            Some(words) => words[index],
            None => 0,
        }
    }

    /// Reads the word at `offset` of segment `id`.
    pub fn read(&self, id: u32, offset: u32) -> (word: u32)
        requires
            self@.addressable(id, offset),
        ensures
            word == self@.read(id, offset),
    {
        self.word_at(id, offset as usize)
    }

    /// Stores `word` at `offset` of segment `id`.
    pub fn write(&mut self, id: u32, offset: u32, word: u32)
        requires
            old(self)@.wf(),
            old(self)@.addressable(id, offset),
        ensures
            final(self)@ == old(self)@.write(id, offset, word),
            final(self)@.wf(),
    {
        match &mut self.slots[id as usize] {
            Some(words) => {
                words[offset as usize] = word;
            },
            None => {},
        }
        proof {
            assert(self@.slots =~= old(self)@.write(id, offset, word).slots);
            lemma_write_wf(old(self)@, id, offset, word);
        }
    }

    /// Replaces the contents of segment zero by a copy of segment `id`.
    /// With `id == 0` nothing is copied and the table stays as it is.
    pub fn replace_zero_from(&mut self, id: u32)
        requires
            old(self)@.wf(),
            old(self)@.live(0),
            old(self)@.live(id),
        ensures
            final(self)@ == old(self)@.replace_zero_from(id),
            final(self)@.wf(),
            id == 0 ==> final(self)@ == old(self)@,
    {
        proof {
            lemma_replace_zero_wf(self@, id);
        }
        if id != 0 {
            let copy = match &self.slots[id as usize] {
                Some(words) => words.clone(),
                None => Vec::new(),
            };
            assert(copy@ =~= self@.segment(id));
            self.slots[0] = Some(copy);
            assert(self@.slots =~= old(self)@.replace_zero_from(id).slots);
        } else {
            assert(self@.slots =~= self@.replace_zero_from(id).slots);
        }
    }
}

/// Appending a segment keeps a table well formed.
pub proof fn lemma_append_wf(t: Table, words: Seq<u32>)
    requires
        t.wf(),
        t.slots.len() < IDENTIFIERS,
    ensures
        t.append(words).wf(),
{
    let u = t.append(words);
    assert forall|id: u32|
        u.free_list.contains(id) <==> (id < u.slots.len() && u.slots[id as int] is None) by {
        assert(t.free_list.contains(id) <==> (id < t.slots.len() && t.slots[id as int] is None));
    }
}

/// Allocation keeps a table well formed and makes the returned identifier
/// live.
pub proof fn lemma_allocate_wf(t: Table, length: u32)
    requires
        t.wf(),
        t.has_room(),
    ensures
        t.allocate(length).wf(),
        t.allocate(length).live(t.next_id()),
        t.allocate(length).segment(t.next_id()) == Seq::new(length as nat, |i: int| 0u32),
        t.free_list.len() > 0 ==> t.next_id() < t.slots.len() && !t.live(t.next_id()),
        t.free_list.len() == 0 ==> t.next_id() == t.slots.len(),
{
    let u = t.allocate(length);
    let zeroed = Seq::new(length as nat, |i: int| 0u32);
    if t.free_list.len() > 0 {
        let id = t.free_list.last();
        assert(t.free_list.contains(id));
        assert(u.free_list.no_duplicates());
        assert forall|other: u32|
            u.free_list.contains(other) <==> (other < u.slots.len() && u.slots[other as int]
                is None) by {
            assert(t.free_list.contains(other) <==> (other < t.slots.len()
                && t.slots[other as int] is None));
            if u.free_list.contains(other) {
                let k = choose|k: int| 0 <= k < u.free_list.len() && u.free_list[k] == other;
                assert(t.free_list[k] == other);
                assert(other != id);
            }
            if t.free_list.contains(other) && other != id {
                let k = choose|k: int| 0 <= k < t.free_list.len() && t.free_list[k] == other;
                assert(u.free_list[k] == other);
            }
        }
        if u.free_list.contains(0u32) {
            let k = choose|k: int| 0 <= k < u.free_list.len() && u.free_list[k] == 0u32;
            assert(t.free_list[k] == 0u32);
        }
    } else {
        lemma_append_wf(t, zeroed);
    }
}

/// Releasing a live segment other than zero keeps a table well formed.
pub proof fn lemma_release_wf(t: Table, id: u32)
    requires
        t.wf(),
        id != 0,
        t.live(id),
    ensures
        t.release(id).wf(),
        !t.release(id).live(id),
{
    let u = t.release(id);
    assert(!t.free_list.contains(id));
    assert(u.free_list.last() == id);
    assert forall|other: u32|
        u.free_list.contains(other) <==> (other < u.slots.len() && u.slots[other as int]
            is None) by {
        assert(t.free_list.contains(other) <==> (other < t.slots.len() && t.slots[other as int]
            is None));
        if t.free_list.contains(other) {
            let k = choose|k: int| 0 <= k < t.free_list.len() && t.free_list[k] == other;
            assert(u.free_list[k] == other);
        }
        if u.free_list.contains(other) && other != id {
            let k = choose|k: int| 0 <= k < u.free_list.len() && u.free_list[k] == other;
            assert(t.free_list[k] == other);
        }
    }
    if u.free_list.contains(0u32) {
        let k = choose|k: int| 0 <= k < u.free_list.len() && u.free_list[k] == 0u32;
        assert(t.free_list[k] == 0u32);
    }
}

/// A store keeps a table well formed.
pub proof fn lemma_write_wf(t: Table, id: u32, offset: u32, word: u32)
    requires
        t.wf(),
        t.addressable(id, offset),
    ensures
        t.write(id, offset, word).wf(),
{
    let u = t.write(id, offset, word);
    assert forall|other: u32|
        u.free_list.contains(other) <==> (other < u.slots.len() && u.slots[other as int]
            is None) by {
        assert(t.free_list.contains(other) <==> (other < t.slots.len() && t.slots[other as int]
            is None));
    }
}

/// Replacing segment zero keeps a table well formed, and replacing it by
/// itself changes nothing.
pub proof fn lemma_replace_zero_wf(t: Table, id: u32)
    requires
        t.wf(),
        t.live(0),
        t.live(id),
    ensures
        t.replace_zero_from(id).wf(),
        id == 0 ==> t.replace_zero_from(id) == t,
{
    let u = t.replace_zero_from(id);
    assert forall|other: u32|
        u.free_list.contains(other) <==> (other < u.slots.len() && u.slots[other as int]
            is None) by {
        assert(t.free_list.contains(other) <==> (other < t.slots.len() && t.slots[other as int]
            is None));
    }
    if id == 0 {
        assert(u.slots =~= t.slots);
    }
}

/// While the free list is empty, allocation hands out the identifiers in
/// increasing order from the table's length on: allocation number `k`,
/// counted from zero, returns the length of the table at the start plus
/// `k`, and leaves the free list empty. On a table that holds segment zero
/// alone the identifiers are therefore 1, 2, 3 and so on.
pub proof fn lemma_growth_identifiers(t: Table, lengths: Seq<u32>, k: int)
    requires
        t.wf(),
        t.free_list.len() == 0,
        t.slots.len() + lengths.len() <= IDENTIFIERS,
        0 <= k < lengths.len(),
    ensures
        t.allocate_all(lengths.take(k)).next_id() == t.slots.len() + k,
        t.allocate_all(lengths.take(k)).has_room(),
        t.allocate_all(lengths).wf(),
        t.allocate_all(lengths).free_list.len() == 0,
        t.allocate_all(lengths).slots.len() == t.slots.len() + lengths.len(),
{
    lemma_growth(t, lengths.take(k));
    lemma_growth(t, lengths);
}

/// With an empty free list, allocations append to the table and keep the
/// free list empty.
pub proof fn lemma_growth(t: Table, lengths: Seq<u32>)
    requires
        t.wf(),
        t.free_list.len() == 0,
        t.slots.len() + lengths.len() <= IDENTIFIERS,
    ensures
        t.allocate_all(lengths).wf(),
        t.allocate_all(lengths).free_list.len() == 0,
        t.allocate_all(lengths).slots.len() == t.slots.len() + lengths.len(),
    decreases lengths.len(),
{
    if lengths.len() > 0 {
        lemma_growth(t, lengths.drop_last());
        lemma_allocate_wf(t.allocate_all(lengths.drop_last()), lengths.last());
    }
}

/// A released identifier is the one that the next allocation returns, and
/// that allocation makes it a live, zero-filled segment of the requested
/// length while the rest of the table and of the free list is as before
/// the release.
pub proof fn lemma_release_then_allocate(t: Table, id: u32, length: u32)
    requires
        t.wf(),
        id != 0,
        t.live(id),
    ensures
        t.release(id).has_room(),
        t.release(id).next_id() == id,
        t.release(id).allocate(length).live(id),
        t.release(id).allocate(length).segment(id) == Seq::new(length as nat, |i: int| 0u32),
        t.release(id).allocate(length).free_list == t.free_list,
        forall|other: u32|
            other != id && other < t.slots.len() ==> t.release(id).allocate(
                length,
            ).slots[other as int] == t.slots[other as int],
{
    let r = t.release(id);
    assert(r.free_list.last() == id);
    assert(r.free_list.drop_last() =~= t.free_list);
}

} // verus!
