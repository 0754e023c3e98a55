use vstd::prelude::*;

verus! {

pub type ZobristHash = u64;

/// How a stored evaluation relates to the true value of the position.
#[derive(PartialEq, Eq, Structural, Clone, Copy, Debug)]
pub enum MatchType {
    EXACT,
    LOWERBOUND,
    UPPERBOUND,
}

#[derive(PartialEq, Eq, Structural, Clone, Copy, Debug)]
pub struct TranspositionEntry {
    pub evaluation: i32,
    pub depth: u16,
    pub match_type: MatchType,
    pub zobrist_hash: ZobristHash,
}

/// A fixed-capacity table of search results, one slot per `hash % capacity`; a
/// new entry overwrites whatever the slot held.
pub struct TranspositionTable {
    data: Vec<Option<TranspositionEntry>>,
    capacity: usize,
}

impl View for TranspositionTable {
    type V = Seq<Option<TranspositionEntry>>;

    closed spec fn view(&self) -> Seq<Option<TranspositionEntry>> {
        self.data@
    }
}

/// The slot of a hash in a table of `capacity` slots.
pub open spec fn slot_of(hash: u64, capacity: int) -> int {
    hash as int % capacity
}

/// What a lookup of `hash` at `depth` finds: the stored bound and evaluation, when the
/// slot holds this hash searched at least that deep.
pub open spec fn lookup(
    slots: Seq<Option<TranspositionEntry>>,
    hash: u64,
    depth: u16,
) -> Option<(MatchType, i32)> {
    match slots[slot_of(hash, slots.len() as int)] {
        None => None,
        Some(e) => if e.zobrist_hash == hash && e.depth >= depth {
            Some((e.match_type, e.evaluation))
        } else {
            None
        },
    }
}

impl TranspositionTable {
    /// Every slot exists, there is at least one, and no stored evaluation is `i32::MIN`.
    pub closed spec fn wf(self) -> bool {
        &&& self.data@.len() == self.capacity
        &&& self.capacity > 0
        &&& forall|i: int|
            0 <= i < self.data@.len() ==> (#[trigger] self.data@[i] matches Some(e)
                ==> e.evaluation > i32::MIN)
    }

    pub fn with_capacity(capacity: usize) -> (r: TranspositionTable)
        requires
            capacity > 0,
        ensures
            r.wf(),
            r@ == Seq::new(capacity as nat, |i: int| None::<TranspositionEntry>),
    {
        let mut data: Vec<Option<TranspositionEntry>> = Vec::new();
        while data.len() < capacity
            invariant
                data@.len() <= capacity,
                data@ == Seq::new(data@.len(), |i: int| None::<TranspositionEntry>),
            decreases capacity - data@.len(),
        {
            data.push(None);
            assert(data@ =~= Seq::new(data@.len(), |i: int| None::<TranspositionEntry>));
        }
        let r = TranspositionTable { data, capacity };
        assert forall|i: int| 0 <= i < r.data@.len() implies (#[trigger] r.data@[i] matches Some(
            e,
        ) ==> e.evaluation > i32::MIN) by {
            assert(r.data@[i] == None::<TranspositionEntry>);
        }
        r
    }

    /// The stored bound and evaluation for `zobrist_hash`, if its slot holds that hash
    /// searched at least `depth` deep.
    pub fn check(&self, zobrist_hash: ZobristHash, depth: u16) -> (r: Option<(MatchType, i32)>)
        requires
            self.wf(),
        ensures
            self@.len() > 0,
            r == lookup(self@, zobrist_hash, depth),
            r matches Some((_, e)) ==> e > i32::MIN,
    {
        let table_index = self.get_table_index(zobrist_hash);
        match self.data[table_index] {
            None => None,
            Some(entry) => {
                if entry.zobrist_hash == zobrist_hash && entry.depth >= depth {
                    Some((entry.match_type, entry.evaluation))
                } else {
                    None
                }
            },
        }
    }

    /// Stores an entry in the slot of `zobrist_hash`, replacing what was there.
    pub fn update(
        &mut self,
        zobrist_hash: ZobristHash,
        depth: u16,
        evaluation: i32,
        match_type: MatchType,
    )
        requires
            old(self).wf(),
            evaluation > i32::MIN,
        ensures
            final(self).wf(),
            final(self)@ == old(self)@.update(
                slot_of(zobrist_hash, old(self)@.len() as int),
                Some(TranspositionEntry { evaluation, depth, match_type, zobrist_hash }),
            ),
    {
        let table_index = self.get_table_index(zobrist_hash);
        let entry = TranspositionEntry { evaluation, depth, match_type, zobrist_hash };
        self.data.set(table_index, Some(entry));
        assert forall|i: int| 0 <= i < self.data@.len() implies (#[trigger] self.data@[i] matches Some(
            e,
        ) ==> e.evaluation > i32::MIN) by {
            if i != table_index {
                assert(self.data@[i] == old(self).data@[i]);
            }
        }
    }

    fn get_table_index(&self, zobrist_hash: ZobristHash) -> (r: usize)
        requires
            self.wf(),
        ensures
            self@.len() > 0,
            r == slot_of(zobrist_hash, self@.len() as int),
            r < self@.len(),
    {
        (zobrist_hash % (self.capacity as u64)) as usize
    }
}

} // verus!
