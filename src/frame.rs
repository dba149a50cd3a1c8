use vstd::prelude::*;
use crate::geometry::Position;

verus! {

/// The number of slot ids: slots are `u8`.
pub const SLOTS: usize = 256;

/// Number of occupied entries of a slot table.
pub open spec fn count_present(s: Seq<Option<Position>>) -> nat
    decreases s.len(),
{
    if s.len() == 0 {
        0
    } else {
        count_present(s.drop_last()) + if s.last() is Some { 1nat } else { 0nat }
    }
}

/// Sum of the x coordinates of the occupied entries.
pub open spec fn sum_x(s: Seq<Option<Position>>) -> nat
    decreases s.len(),
{
    if s.len() == 0 {
        0
    } else {
        sum_x(s.drop_last()) + match s.last() {
            Some(p) => p.x as nat,
            None => 0nat,
        }
    }
}

/// Sum of the y coordinates of the occupied entries.
pub open spec fn sum_y(s: Seq<Option<Position>>) -> nat
    decreases s.len(),
{
    if s.len() == 0 {
        0
    } else {
        sum_y(s.drop_last()) + match s.last() {
            Some(p) => p.y as nat,
            None => 0nat,
        }
    }
}

/// The component-wise mean of the occupied entries, truncated; none for an empty table.
pub open spec fn centroid_of(s: Seq<Option<Position>>) -> Option<Position> {
    let n = count_present(s);
    if n == 0 {
        None
    } else {
        Some(Position { x: (sum_x(s) / n) as u16, y: (sum_y(s) / n) as u16 })
    }
}

/// A slot table with every entry empty.
pub open spec fn empty_table() -> Seq<Option<Position>> {
    Seq::new(SLOTS as nat, |i: int| None)
}

proof fn lemma_sums_bounded(s: Seq<Option<Position>>)
    ensures
        sum_x(s) <= count_present(s) * 0xffff,
        sum_y(s) <= count_present(s) * 0xffff,
        count_present(s) <= s.len(),
    decreases s.len(),
{
    if s.len() > 0 {
        lemma_sums_bounded(s.drop_last());
    }
}

/// Two tables with the same occupied slots hold as many fingers.
pub proof fn lemma_count_same_slots(a: Seq<Option<Position>>, b: Seq<Option<Position>>)
    requires
        a.len() == b.len(),
        forall|i: int| 0 <= i < a.len() ==> (#[trigger] a[i] is Some <==> b[i] is Some),
    ensures
        count_present(a) == count_present(b),
    decreases a.len(),
{
    if a.len() > 0 {
        let (da, db) = (a.drop_last(), b.drop_last());
        assert forall|i: int| 0 <= i < da.len() implies (#[trigger] da[i] is Some <==> db[i] is Some) by {
            assert(da[i] == a[i] && db[i] == b[i]);
        }
        lemma_count_same_slots(da, db);
        assert(a.last() is Some <==> b.last() is Some) by {
            assert(a[a.len() - 1] is Some <==> b[a.len() - 1] is Some);
        }
    }
}

/// The finger positions of one synchronisation frame, by slot id.
pub struct State {
    positions: Vec<Option<Position>>,
}

impl View for State {
    type V = Seq<Option<Position>>;

    closed spec fn view(&self) -> Seq<Option<Position>> {
        self.positions@
    }
}

impl State {
    /// A table with room for every slot id.
    pub open spec fn wf(&self) -> bool {
        self@.len() == SLOTS
    }

    /// A frame with no finger down.
    pub fn new() -> (r: State)
        ensures
            r.wf(),
            r@ == empty_table(),
    {
        let mut positions: Vec<Option<Position>> = Vec::new();
        let mut i: usize = 0;
        while i < SLOTS
            invariant
                i <= SLOTS,
                positions@ == Seq::new(i as nat, |j: int| None::<Position>),
            decreases SLOTS - i,
        {
            positions.push(None);
            i = i + 1;
        }
        let r = State { positions };
        assert(r@ =~= empty_table());
        r
    }

    /// The position of the finger in `slot`, if one is down there.
    pub fn get(&self, slot: u8) -> (r: Option<Position>)
        requires
            self.wf(),
        ensures
            r == self@[slot as int],
    {
        self.positions[slot as usize]
    }

    /// Whether a finger is down in `slot`.
    pub fn contains(&self, slot: u8) -> (r: bool)
        requires
            self.wf(),
        ensures
            r == self@[slot as int] is Some,
    {
        self.positions[slot as usize].is_some()
    }

    /// Records a finger at `pos` in `slot`.
    pub fn insert(&mut self, slot: u8, pos: Position)
        requires
            old(self).wf(),
        ensures
            final(self).wf(),
            final(self)@ == old(self)@.update(slot as int, Some(pos)),
    {
        self.positions.set(slot as usize, Some(pos));
    }

    /// Forgets the finger in `slot`.
    pub fn remove(&mut self, slot: u8)
        requires
            old(self).wf(),
        ensures
            final(self).wf(),
            final(self)@ == old(self)@.update(slot as int, None),
    {
        self.positions.set(slot as usize, None);
    }

    /// Forgets every finger.
    pub fn clear(&mut self)
        requires
            old(self).wf(),
        ensures
            final(self).wf(),
            final(self)@ == empty_table(),
    {
        let mut i: usize = 0;
        while i < SLOTS
            invariant
                i <= SLOTS,
                self.positions@.len() == SLOTS,
                forall|j: int| 0 <= j < i ==> self.positions@[j] is None,
            decreases SLOTS - i,
        {
            self.positions.set(i, None);
            i = i + 1;
        }
        assert(self@ =~= empty_table());
    }

    /// Sets every entry to that of `other`.
    pub fn copy_from(&mut self, other: &State)
        requires
            old(self).wf(),
            other.wf(),
        ensures
            final(self).wf(),
            final(self)@ == other@,
    {
        let mut i: usize = 0;
        while i < SLOTS
            invariant
                i <= SLOTS,
                self.positions@.len() == SLOTS,
                other.positions@.len() == SLOTS,
                forall|j: int| 0 <= j < i ==> self.positions@[j] == other.positions@[j],
            decreases SLOTS - i,
        {
            self.positions.set(i, other.positions[i]);
            i = i + 1;
        }
        assert(self@ =~= other@);
    }

    /// The number of fingers down.
    pub fn len(&self) -> (r: usize)
        requires
            self.wf(),
        ensures
            r == count_present(self@),
    {
        let mut n: usize = 0;
        let mut i: usize = 0;
        while i < SLOTS
            invariant
                i <= SLOTS,
                self.positions@.len() == SLOTS,
                n == count_present(self.positions@.take(i as int)),
            decreases SLOTS - i,
        {
            proof {
                assert(self.positions@.take(i + 1).drop_last() =~= self.positions@.take(i as int));
                lemma_sums_bounded(self.positions@.take(i as int));
            }
            if self.positions[i].is_some() {
                n = n + 1;
            }
            i = i + 1;
        }
        assert(self.positions@.take(SLOTS as int) =~= self.positions@);
        n
    }

    /// Whether no finger is down.
    pub fn is_empty(&self) -> (r: bool)
        requires
            self.wf(),
        ensures
            r == (count_present(self@) == 0),
    {
        self.len() == 0
    }

    /// The component-wise mean of the finger positions, truncated; none when no finger is down.
    pub fn centroid(&self) -> (r: Option<Position>)
        requires
            self.wf(),
        ensures
            r == centroid_of(self@),
    {
        let mut n: u32 = 0;
        let mut sx: u32 = 0;
        let mut sy: u32 = 0;
        let mut i: usize = 0;
        while i < SLOTS
            invariant
                i <= SLOTS,
                self.positions@.len() == SLOTS,
                n == count_present(self.positions@.take(i as int)),
                sx == sum_x(self.positions@.take(i as int)),
                sy == sum_y(self.positions@.take(i as int)),
            decreases SLOTS - i,
        {
            proof {
                assert(self.positions@.take(i + 1).drop_last() =~= self.positions@.take(i as int));
                lemma_sums_bounded(self.positions@.take(i as int));
            }
            match self.positions[i] {
                Some(p) => {
                    n = n + 1;
                    sx = sx + p.x as u32;
                    sy = sy + p.y as u32;
                },
                None => {},
            }
            i = i + 1;
        }
        assert(self.positions@.take(SLOTS as int) =~= self.positions@);
        if n == 0 {
            return None;
        }
        proof {
            lemma_sums_bounded(self@);
            assert(sx / n <= 0xffff) by (nonlinear_arith)
                requires sx <= n * 0xffff, n > 0;
            assert(sy / n <= 0xffff) by (nonlinear_arith)
                requires sy <= n * 0xffff, n > 0;
        }
        Some(Position { x: (sx / n) as u16, y: (sy / n) as u16 })
    }
}

/// A set of slot ids.
pub struct SlotSet {
    members: Vec<bool>,
}

/// Number of members of a slot-set table.
pub open spec fn count_members(s: Seq<bool>) -> nat
    decreases s.len(),
{
    if s.len() == 0 {
        0
    } else {
        count_members(s.drop_last()) + if s.last() { 1nat } else { 0nat }
    }
}

proof fn lemma_count_members_bounded(s: Seq<bool>)
    ensures
        count_members(s) <= s.len(),
    decreases s.len(),
{
    if s.len() > 0 {
        lemma_count_members_bounded(s.drop_last());
    }
}

/// The slots occupied in a slot table.
pub open spec fn occupied(s: Seq<Option<Position>>) -> Seq<bool> {
    Seq::new(s.len(), |i: int| s[i] is Some)
}

/// The slot-set table with only `slot`.
pub open spec fn singleton(slot: u8) -> Seq<bool> {
    Seq::new(SLOTS as nat, |i: int| i == slot)
}

impl View for SlotSet {
    type V = Seq<bool>;

    closed spec fn view(&self) -> Seq<bool> {
        self.members@
    }
}

impl SlotSet {
    /// A table with room for every slot id.
    pub open spec fn wf(&self) -> bool {
        self@.len() == SLOTS
    }

    /// The empty set.
    pub fn new() -> (r: SlotSet)
        ensures
            r.wf(),
            r@ == Seq::new(SLOTS as nat, |i: int| false),
    {
        let mut members: Vec<bool> = Vec::new();
        let mut i: usize = 0;
        while i < SLOTS
            invariant
                i <= SLOTS,
                members@ == Seq::new(i as nat, |j: int| false),
            decreases SLOTS - i,
        {
            members.push(false);
            i = i + 1;
        }
        let r = SlotSet { members };
        assert(r@ =~= Seq::new(SLOTS as nat, |i: int| false));
        r
    }

    /// The set holding only `slot`.
    pub fn single(slot: u8) -> (r: SlotSet)
        ensures
            r.wf(),
            r@ == singleton(slot),
    {
        let mut members: Vec<bool> = Vec::new();
        let mut i: usize = 0;
        while i < SLOTS
            invariant
                i <= SLOTS,
                members@ == Seq::new(i as nat, |j: int| j == slot),
            decreases SLOTS - i,
        {
            members.push(i == slot as usize);
            i = i + 1;
        }
        let r = SlotSet { members };
        assert(r@ =~= singleton(slot));
        r
    }

    /// The slots where a finger is down in `state`.
    pub fn from_state(state: &State) -> (r: SlotSet)
        requires
            state.wf(),
        ensures
            r.wf(),
            r@ == occupied(state@),
    {
        let mut members: Vec<bool> = Vec::new();
        let mut i: usize = 0;
        while i < SLOTS
            invariant
                i <= SLOTS,
                state.wf(),
                members@ == Seq::new(i as nat, |j: int| state@[j] is Some),
            decreases SLOTS - i,
        {
            members.push(state.contains(i as u8));
            i = i + 1;
        }
        let r = SlotSet { members };
        assert(r@ =~= occupied(state@));
        r
    }

    /// Whether `slot` is a member.
    pub fn contains(&self, slot: u8) -> (r: bool)
        requires
            self.wf(),
        ensures
            r == self@[slot as int],
    {
        self.members[slot as usize]
    }

    /// Adds `slot`.
    pub fn insert(&mut self, slot: u8)
        requires
            old(self).wf(),
        ensures
            final(self).wf(),
            final(self)@ == old(self)@.update(slot as int, true),
    {
        self.members.set(slot as usize, true);
    }

    /// Adds every member of `other`.
    pub fn union_with(&mut self, other: &SlotSet)
        requires
            old(self).wf(),
            other.wf(),
        ensures
            final(self).wf(),
            final(self)@ == Seq::new(SLOTS as nat, |i: int| old(self)@[i] || other@[i]),
    {
        let ghost start = self.members@;
        let mut i: usize = 0;
        while i < SLOTS
            invariant
                i <= SLOTS,
                self.members@.len() == SLOTS,
                other.members@.len() == SLOTS,
                start.len() == SLOTS,
                forall|j: int| 0 <= j < i ==> #[trigger] self.members@[j] == (start[j] || other.members@[j]),
                forall|j: int| i <= j < SLOTS ==> #[trigger] self.members@[j] == start[j],
            decreases SLOTS - i,
        {
            let v = self.members[i] || other.members[i];
            assert(v == (start[i as int] || other.members@[i as int]));
            self.members.set(i, v);
            i = i + 1;
        }
        assert(self@ =~= Seq::new(SLOTS as nat, |i: int| start[i] || other@[i]));
    }

    /// The number of members.
    pub fn len(&self) -> (r: usize)
        requires
            self.wf(),
        ensures
            r == count_members(self@),
    {
        let mut n: usize = 0;
        let mut i: usize = 0;
        while i < SLOTS
            invariant
                i <= SLOTS,
                self.members@.len() == SLOTS,
                n == count_members(self.members@.take(i as int)),
            decreases SLOTS - i,
        {
            proof {
                assert(self.members@.take(i + 1).drop_last() =~= self.members@.take(i as int));
                lemma_count_members_bounded(self.members@.take(i as int));
            }
            if self.members[i] {
                n = n + 1;
            }
            i = i + 1;
        }
        assert(self.members@.take(SLOTS as int) =~= self.members@);
        n
    }
}

} // verus!
