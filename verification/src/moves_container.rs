//! Containers that hand moves back in the order in which to try them.

use vstd::prelude::*;
use crate::moves::{Move, MoveQuality};

verus! {

/// A store of moves that are retrieved one by one.
///
/// `pending` is the sequence of moves still to be retrieved, the next one
/// first. `place` says where in that sequence a new move goes.
pub trait MovesContainer {
    /// The moves not yet retrieved, in retrieval order.
    spec fn pending(&self) -> Seq<Move>;

    /// The number that `count` reports.
    spec fn total(&self) -> nat;

    /// The invariant of the container.
    spec fn well_formed(&self) -> bool;

    /// The pending sequence after `m` has joined `pending`.
    spec fn place(pending: Seq<Move>, m: Move) -> Seq<Move>;

    /// Adds a move.
    fn push(&mut self, m: Move)
        requires
            old(self).well_formed(),
        ensures
            final(self).well_formed(),
            final(self).pending() == Self::place(old(self).pending(), m),
            final(self).total() == old(self).total() + 1,
    ;

    /// Whether a move is left to retrieve.
    fn has_next(&self) -> (r: bool)
        requires
            self.well_formed(),
        ensures
            r == (self.pending().len() > 0),
    ;

    /// Retrieves the next move.
    fn pop_next_move(&mut self) -> (m: Move)
        requires
            old(self).well_formed(),
            old(self).pending().len() > 0,
        ensures
            final(self).well_formed(),
            m == old(self).pending()[0],
            final(self).pending() == old(self).pending().drop_first(),
    ;

    /// Empties the container.
    fn reset(&mut self)
        ensures
            final(self).well_formed(),
            final(self).pending() == Seq::<Move>::empty(),
            final(self).total() == 0,
    ;

    /// The number of moves that the container counts.
    fn count(&self) -> (c: usize)
        requires
            self.well_formed(),
        ensures
            c == self.total(),
    ;

    /// Adds `m` tagged as the principal move.
    fn set_first_move(&mut self, m: Move)
        requires
            old(self).well_formed(),
        ensures
            final(self).well_formed(),
            final(self).pending() == Self::place(
                old(self).pending(),
                m.retagged(MoveQuality::Principal),
            ),
            final(self).total() == old(self).total() + 1,
    ;

    /// Adds `m` tagged as a killer move.
    fn add_killer_move(&mut self, m: Move)
        requires
            old(self).well_formed(),
        ensures
            final(self).well_formed(),
            final(self).pending() == Self::place(
                old(self).pending(),
                m.retagged(MoveQuality::KillerMove),
            ),
            final(self).total() == old(self).total() + 1,
    ;
}

/// The pending sequence after the moves of `ms` have joined `start` one by
/// one, the first of `ms` first.
pub open spec fn place_all<C: MovesContainer>(start: Seq<Move>, ms: Seq<Move>) -> Seq<Move>
    decreases ms.len(),
{
    if ms.len() == 0 {
        start
    } else {
        C::place(place_all::<C>(start, ms.drop_last()), ms.last())
    }
}

/// Placing a sequence and then one more move is placing the longer sequence.
pub proof fn lemma_place_all_push<C: MovesContainer>(start: Seq<Move>, ms: Seq<Move>, m: Move)
    ensures
        place_all::<C>(start, ms.push(m)) == C::place(place_all::<C>(start, ms), m),
{
    assert(ms.push(m).drop_last() =~= ms);
}

/// Placing two sequences one after the other is placing their concatenation.
pub proof fn lemma_place_all_concat<C: MovesContainer>(
    start: Seq<Move>,
    a: Seq<Move>,
    b: Seq<Move>,
)
    ensures
        place_all::<C>(start, a + b) == place_all::<C>(place_all::<C>(start, a), b),
    decreases b.len(),
{
    if b.len() == 0 {
        assert(a + b =~= a);
    } else {
        lemma_place_all_concat::<C>(start, a, b.drop_last());
        assert((a + b).drop_last() =~= a + b.drop_last());
    }
}

/// A container that hands moves back in the order in which they came.
pub struct SimpleMovesContainer {
    pub moves: Vec<Move>,
    index: usize,
}

impl SimpleMovesContainer {
    /// Number of moves already retrieved.
    pub closed spec fn cursor(&self) -> nat {
        self.index as nat
    }

    /// Every move added since the container was last emptied, retrieved or not.
    pub closed spec fn stored(&self) -> Seq<Move> {
        self.moves@
    }

    /// The moves retrieved or pending are the stored moves split at the cursor.
    pub proof fn lemma_pending(&self)
        requires
            self.well_formed(),
        ensures
            self.cursor() <= self.stored().len(),
            self.pending() == self.stored().subrange(
                self.cursor() as int,
                self.stored().len() as int,
            ),
            self.total() == self.stored().len(),
    {
    }

    /// Every move added since the container was last emptied.
    pub fn stored_moves(&self) -> (v: &Vec<Move>)
        ensures
            v@ == self.stored(),
    {
        &self.moves
    }

    /// An empty container.
    pub fn new() -> (c: SimpleMovesContainer)
        ensures
            c.well_formed(),
            c.pending() == Seq::<Move>::empty(),
            c.total() == 0,
            c.stored() == Seq::<Move>::empty(),
            c.cursor() == 0,
    {
        SimpleMovesContainer { moves: Vec::with_capacity(128), index: 0 }
    }
}

impl MovesContainer for SimpleMovesContainer {
    closed spec fn pending(&self) -> Seq<Move> {
        self.moves@.subrange(self.index as int, self.moves@.len() as int)
    }

    closed spec fn total(&self) -> nat {
        self.moves@.len()
    }

    closed spec fn well_formed(&self) -> bool {
        self.index <= self.moves@.len()
    }

    open spec fn place(pending: Seq<Move>, m: Move) -> Seq<Move> {
        pending.push(m)
    }

    fn push(&mut self, m: Move)
        ensures
            final(self).stored() == old(self).stored().push(m),
            final(self).cursor() == old(self).cursor(),
    {
        self.moves.push(m);
        assert(self.pending() =~= old(self).pending().push(m));
    }

    fn has_next(&self) -> (r: bool) {
        self.index < self.moves.len()
    }

    fn pop_next_move(&mut self) -> (m: Move)
        ensures
            final(self).stored() == old(self).stored(),
            final(self).cursor() == old(self).cursor() + 1,
            final(self).total() == old(self).total(),
    {
        let i = self.index;
        let n = self.moves.len();
        assert(self.pending().len() == n - i);
        self.index = i + 1;
        assert(self.pending() =~= old(self).pending().drop_first());
        self.moves[i]
    }

    fn reset(&mut self)
        ensures
            final(self).stored() == Seq::<Move>::empty(),
            final(self).cursor() == 0,
    {
        self.moves.clear();
        self.index = 0;
        assert(self.pending() =~= Seq::<Move>::empty());
    }

    fn count(&self) -> (c: usize) {
        self.moves.len()
    }

    fn set_first_move(&mut self, m: Move) {
        let mut first = m;
        first.set_quality(MoveQuality::Principal);
        self.push(first);
    }

    fn add_killer_move(&mut self, m: Move) {
        let mut killer = m;
        killer.set_quality(MoveQuality::KillerMove);
        self.push(killer);
    }
}

/// Moves that join a container of the simple kind are retrieved in the
/// order in which they came.
pub proof fn lemma_simple_place_all(start: Seq<Move>, ms: Seq<Move>)
    ensures
        place_all::<SimpleMovesContainer>(start, ms) == start + ms,
    decreases ms.len(),
{
    if ms.len() == 0 {
        assert(start + ms =~= start);
    } else {
        lemma_simple_place_all(start, ms.drop_last());
        assert((start + ms.drop_last()).push(ms.last()) =~= start + ms);
    }
}

/// The place of a move of rank `r` in a pending sequence: behind the last
/// move whose rank is at least `r`.
pub open spec fn slot(s: Seq<Move>, r: int) -> int
    decreases s.len(),
{
    if s.len() == 0 {
        0
    } else if s.last().quality.rank_spec() >= r {
        s.len() as int
    } else {
        slot(s.drop_last(), r)
    }
}

/// No move of the sequence is followed by one of a higher rank.
pub open spec fn ordered(s: Seq<Move>) -> bool {
    forall|i: int, j: int|
        0 <= i <= j < s.len() ==> s[i].quality.rank_spec() >= s[j].quality.rank_spec()
}

/// `slot` lies in the sequence; no move from it on reaches rank `r`, and in
/// an ordered sequence every move before it does.
pub proof fn lemma_slot(s: Seq<Move>, r: int)
    ensures
        0 <= slot(s, r) <= s.len(),
        forall|j: int| slot(s, r) <= j < s.len() ==> s[j].quality.rank_spec() < r,
        ordered(s) ==> forall|i: int| 0 <= i < slot(s, r) ==> s[i].quality.rank_spec() >= r,
    decreases s.len(),
{
    if s.len() > 0 && s.last().quality.rank_spec() < r {
        let t = s.drop_last();
        lemma_slot(t, r);
        assert forall|j: int| slot(s, r) <= j < s.len() implies s[j].quality.rank_spec() < r by {
            if j < t.len() {
                assert(t[j] == s[j]);
            }
        }
        if ordered(s) {
            assert forall|i: int, j: int| 0 <= i <= j < t.len() implies t[i].quality.rank_spec()
                >= t[j].quality.rank_spec() by {
                assert(t[i] == s[i] && t[j] == s[j]);
            }
            assert forall|i: int| 0 <= i < slot(s, r) implies s[i].quality.rank_spec() >= r by {
                assert(t[i] == s[i]);
            }
        }
    } else if s.len() > 0 {
        if ordered(s) {
            assert forall|i: int| 0 <= i < slot(s, r) implies s[i].quality.rank_spec() >= r by {
                assert(s[i].quality.rank_spec() >= s[s.len() - 1].quality.rank_spec());
            }
        }
    }
}

/// A move placed by rank keeps an ordered sequence ordered.
pub proof fn lemma_insert_keeps_order(s: Seq<Move>, m: Move)
    requires
        ordered(s),
    ensures
        ordered(s.insert(slot(s, m.quality.rank_spec()), m)),
{
    lemma_slot(s, m.quality.rank_spec());
}

/// Where a move placed by rank comes to stand: every move before it is one
/// that was pending and has at least its rank, every move behind it is one
/// that was pending and has a lower rank.
pub proof fn lemma_placed_by_rank(s: Seq<Move>, m: Move)
    requires
        ordered(s),
    ensures
        ({
            let k = slot(s, m.quality.rank_spec());
            let t = SmartMoveContainer::place(s, m);
            &&& 0 <= k <= s.len()
            &&& t.len() == s.len() + 1
            &&& t[k] == m
            &&& forall|i: int|
                0 <= i < k ==> #[trigger] t[i] == s[i] && t[i].quality.rank_spec()
                    >= m.quality.rank_spec()
            &&& forall|i: int|
                k < i < t.len() ==> #[trigger] t[i] == s[i - 1] && t[i].quality.rank_spec()
                    < m.quality.rank_spec()
            &&& ordered(t)
        }),
{
    lemma_slot(s, m.quality.rank_spec());
}

/// Moves placed by rank one by one, from none, stand in an order in which
/// the rank never rises.
pub proof fn lemma_all_placed_by_rank_ordered(ms: Seq<Move>)
    ensures
        ordered(place_all::<SmartMoveContainer>(Seq::empty(), ms)),
    decreases ms.len(),
{
    if ms.len() > 0 {
        lemma_all_placed_by_rank_ordered(ms.drop_last());
        lemma_insert_keeps_order(
            place_all::<SmartMoveContainer>(Seq::empty(), ms.drop_last()),
            ms.last(),
        );
    }
}

/// A principal move placed among moves of lower rank is retrieved first.
pub proof fn lemma_principal_first(s: Seq<Move>, m: Move)
    requires
        ordered(s),
        forall|i: int| 0 <= i < s.len() ==> (#[trigger] s[i]).quality != MoveQuality::Principal,
    ensures
        SmartMoveContainer::place(s, m.retagged(MoveQuality::Principal))[0] == m.retagged(
            MoveQuality::Principal,
        ),
{
    let p = m.retagged(MoveQuality::Principal);
    lemma_placed_by_rank(s, p);
    let k = slot(s, 5);
    if k > 0 {
        assert(s[0].quality.rank_spec() >= 5);
    }
}

/// A killer move is retrieved before every capture and every quiet move.
pub proof fn lemma_killer_before_captures(s: Seq<Move>, m: Move, i: int, j: int)
    requires
        ordered(s),
        0 <= i < s.len() + 1,
        0 <= j < s.len() + 1,
        SmartMoveContainer::place(s, m.retagged(MoveQuality::KillerMove))[i] == m.retagged(
            MoveQuality::KillerMove,
        ),
        SmartMoveContainer::place(s, m.retagged(MoveQuality::KillerMove))[j].quality.rank_spec()
            < 4,
    ensures
        i < j,
{
    let k = m.retagged(MoveQuality::KillerMove);
    lemma_placed_by_rank(s, k);
}

/// What holds of every pending move and of a new move holds of every move
/// after the new move was placed by rank.
pub proof fn lemma_placed_by_rank_keeps(s: Seq<Move>, m: Move, p: spec_fn(Move) -> bool)
    requires
        forall|i: int| 0 <= i < s.len() ==> p(#[trigger] s[i]),
        p(m),
    ensures
        forall|i: int|
            0 <= i < SmartMoveContainer::place(s, m).len() ==> p(
                #[trigger] SmartMoveContainer::place(s, m)[i],
            ),
{
    lemma_slot(s, m.quality.rank_spec());
}

/// What holds of every move placed by rank holds of every pending move.
pub proof fn lemma_all_placed_by_rank_keep(start: Seq<Move>, ms: Seq<Move>, p: spec_fn(Move) -> bool)
    requires
        forall|i: int| 0 <= i < start.len() ==> p(#[trigger] start[i]),
        forall|i: int| 0 <= i < ms.len() ==> p(#[trigger] ms[i]),
    ensures
        forall|i: int|
            0 <= i < place_all::<SmartMoveContainer>(start, ms).len() ==> p(
                #[trigger] place_all::<SmartMoveContainer>(start, ms)[i],
            ),
    decreases ms.len(),
{
    if ms.len() > 0 {
        lemma_all_placed_by_rank_keep(start, ms.drop_last(), p);
        lemma_placed_by_rank_keeps(
            place_all::<SmartMoveContainer>(start, ms.drop_last()),
            ms.last(),
            p,
        );
    }
}

/// A container that hands back the moves of the highest rank first, and
/// moves of one rank in the order in which they came.
pub struct SmartMoveContainer {
    moves: Vec<Move>,
}

impl SmartMoveContainer {
    /// An empty container.
    pub fn new() -> (c: SmartMoveContainer)
        ensures
            c.well_formed(),
            c.pending() == Seq::<Move>::empty(),
            c.total() == 0,
    {
        SmartMoveContainer { moves: Vec::with_capacity(128) }
    }

    /// The moves are retrieved in an order in which the rank never rises.
    pub proof fn lemma_retrieval_order(&self)
        requires
            self.well_formed(),
        ensures
            ordered(self.pending()),
    {
    }

    /// Retrieves the next move.
    pub fn get_next(&mut self) -> (m: Move)
        requires
            old(self).well_formed(),
            old(self).pending().len() > 0,
        ensures
            final(self).well_formed(),
            m == old(self).pending()[0],
            final(self).pending() == old(self).pending().drop_first(),
            final(self).total() == old(self).total() - 1,
            forall|i: int|
                0 <= i < final(self).pending().len() ==> (#[trigger] final(self).pending()[i])
                    .quality.rank_spec() <= m.quality.rank_spec(),
    {
        self.pop_next_move()
    }
}

impl MovesContainer for SmartMoveContainer {
    closed spec fn pending(&self) -> Seq<Move> {
        self.moves@
    }

    closed spec fn total(&self) -> nat {
        self.moves@.len()
    }

    closed spec fn well_formed(&self) -> bool {
        ordered(self.moves@)
    }

    open spec fn place(pending: Seq<Move>, m: Move) -> Seq<Move> {
        pending.insert(slot(pending, m.quality.rank_spec()), m)
    }

    fn push(&mut self, m: Move) {
        let r = m.quality.rank();
        let mut i = self.moves.len();
        assert(self.moves@.subrange(0, i as int) =~= self.moves@);
        while i > 0 && self.moves[i - 1].quality.rank() < r
            invariant
                i <= self.moves@.len(),
                r == m.quality.rank_spec(),
                slot(self.moves@, r as int) == slot(self.moves@.subrange(0, i as int), r as int),
            decreases i,
        {
            proof {
                let s = self.moves@.subrange(0, i as int);
                assert(s.drop_last() =~= self.moves@.subrange(0, i - 1));
            }
            i = i - 1;
        }
        proof {
            let s = self.moves@.subrange(0, i as int);
            if i == 0 {
                assert(s.len() == 0);
            }
            lemma_insert_keeps_order(self.moves@, m);
        }
        self.moves.insert(i, m);
    }

    fn has_next(&self) -> (r: bool) {
        self.moves.len() > 0
    }

    fn pop_next_move(&mut self) -> (m: Move)
        ensures
            final(self).total() == old(self).total() - 1,
            forall|i: int|
                0 <= i < final(self).pending().len() ==> (#[trigger] final(self).pending()[i])
                    .quality.rank_spec() <= m.quality.rank_spec(),
    {
        let m = self.moves.remove(0);
        assert(self.moves@ =~= old(self).moves@.drop_first());
        m
    }

    fn reset(&mut self) {
        self.moves.clear();
    }

    fn count(&self) -> (c: usize) {
        self.moves.len()
    }

    fn set_first_move(&mut self, m: Move) {
        let mut first = m;
        first.set_quality(MoveQuality::Principal);
        self.push(first);
    }

    fn add_killer_move(&mut self, m: Move) {
        let mut killer = m;
        killer.set_quality(MoveQuality::KillerMove);
        self.push(killer);
    }
}

} // verus!
