use vstd::prelude::*;
use vstd::multiset::Multiset;
use crate::card::{PlayCard, Rank, rank_number};
use crate::deck::ids_of;
use crate::errors::InternalMeldError;
use crate::meld::{CANASTA_SIZE, Meld, meldable, wilds_in, naturals_in, batch_fits, lemma_parts_fit};

verus! {

/// One staging slot and one meld slot per rank from Ace to King.
pub const SLOTS: usize = 13;

/// Cards a new meld needs at the least.
pub const MIN_MELD_SIZE: usize = 3;

/// The slot of a rank: Ace 0 up to King 12.
pub open spec fn slot_of(r: Rank) -> int {
    rank_number(r) - 1
}

/// Index of the first card of `s` with identity `id`, or -1 if none has it.
pub open spec fn find_first(s: Seq<PlayCard>, id: u8) -> int
    decreases s.len(),
{
    if s.len() == 0 {
        -1
    } else {
        let k = find_first(s.drop_last(), id);
        if k >= 0 {
            k
        } else if s.last().spec_id() == id {
            s.len() - 1
        } else {
            -1
        }
    }
}

/// `find_first` names a card with that identity, and only fails when no
/// card of `s` has it.
pub proof fn lemma_find_first(s: Seq<PlayCard>, id: u8)
    ensures
        -1 <= find_first(s, id) < s.len(),
        find_first(s, id) >= 0 ==> s[find_first(s, id)].spec_id() == id,
        find_first(s, id) == -1 <==> forall|j: int| 0 <= j < s.len() ==> (#[trigger] s[j]).spec_id() != id,
    decreases s.len(),
{
    if s.len() > 0 {
        let t = s.drop_last();
        lemma_find_first(t, id);
        if find_first(s, id) == -1 {
            assert forall|j: int| 0 <= j < s.len() implies (#[trigger] s[j]).spec_id() != id by {
                if j < t.len() {
                    assert(s[j] == t[j]);
                }
            }
        }
        if find_first(t, id) >= 0 {
            assert(s[find_first(t, id)] == t[find_first(t, id)]);
        }
    }
}

/// The cards of `s` that are red threes, in order.
pub open spec fn red_threes_in(s: Seq<PlayCard>) -> Seq<PlayCard>
    decreases s.len(),
{
    if s.len() == 0 {
        Seq::empty()
    } else if s.last().spec_is_red_three() {
        red_threes_in(s.drop_last()).push(s.last())
    } else {
        red_threes_in(s.drop_last())
    }
}

/// The cards of `s` that are not red threes, in order.
pub open spec fn without_red_threes(s: Seq<PlayCard>) -> Seq<PlayCard>
    decreases s.len(),
{
    if s.len() == 0 {
        Seq::empty()
    } else if s.last().spec_is_red_three() {
        without_red_threes(s.drop_last())
    } else {
        without_red_threes(s.drop_last()).push(s.last())
    }
}

/// No card of `s` is a red three.
pub open spec fn no_red_threes(s: Seq<PlayCard>) -> bool {
    forall|i: int| 0 <= i < s.len() ==> !(#[trigger] s[i]).spec_is_red_three()
}

/// Removing a card keeps a hand free of red threes.
pub proof fn lemma_no_red_threes_remove(s: Seq<PlayCard>, k: int)
    requires
        no_red_threes(s),
        0 <= k < s.len(),
    ensures
        no_red_threes(s.remove(k)),
{
    let t = s.remove(k);
    assert forall|x: int| 0 <= x < t.len() implies !(#[trigger] t[x]).spec_is_red_three() by {
        if x < k {
            assert(t[x] == s[x]);
        } else {
            assert(t[x] == s[x + 1]);
        }
    }
}

/// Every card of `s` may stand in the meld of the rank in slot `slot`: it is
/// wild, or of that rank, and it is not a red three.
pub open spec fn fits_slot(s: Seq<PlayCard>, slot: int) -> bool {
    forall|i: int| 0 <= i < s.len() ==> {
        &&& ((#[trigger] s[i]).spec_is_wild() || slot_of(s[i].spec_rank()) == slot)
        &&& !s[i].spec_is_red_three()
    }
}

/// The staged cards of the first `n` slots, slot after slot.
pub open spec fn staged_upto(staged: Seq<Seq<PlayCard>>, n: int) -> Seq<PlayCard>
    decreases n,
{
    if n <= 0 {
        Seq::empty()
    } else {
        staged_upto(staged, n - 1) + staged[n - 1]
    }
}

/// The number of complete melds among the first `n` slots.
pub open spec fn complete_upto(melds: Seq<Option<Meld>>, n: int) -> int
    decreases n,
{
    if n <= 0 {
        0
    } else {
        complete_upto(melds, n - 1) + match melds[n - 1] {
            Some(m) => if m.spec_len() >= CANASTA_SIZE { 1int } else { 0int },
            None => 0int,
        }
    }
}

/// One card of a staging request: the first card of `rem` with identity
/// `id` moves to `picked` if it is wild, or, unless it is a red three, of
/// rank `rank`.
pub open spec fn stage_step(rem: Seq<PlayCard>, picked: Seq<PlayCard>, id: u8, rank: Rank)
    -> Result<(Seq<PlayCard>, Seq<PlayCard>), InternalMeldError>
{
    let k = find_first(rem, id);
    if k < 0 {
        Err(InternalMeldError::InvalidCardId(id))
    } else if rem[k].spec_is_wild() {
        Ok((rem.remove(k), picked.push(rem[k])))
    } else if rem[k].spec_is_red_three() {
        Err(InternalMeldError::InvalidCardToMeld(id))
    } else if rem[k].spec_rank() != rank {
        Err(InternalMeldError::IncorrectRank(id))
    } else {
        Ok((rem.remove(k), picked.push(rem[k])))
    }
}

/// Staging the identities `ids`, in order, out of `hand` for a meld of rank
/// `rank`: what stays in hand and what is staged, or the first error.
pub open spec fn stage_run(hand: Seq<PlayCard>, ids: Seq<u8>, rank: Rank)
    -> Result<(Seq<PlayCard>, Seq<PlayCard>), InternalMeldError>
    decreases ids.len(),
{
    if ids.len() == 0 {
        Ok((hand, Seq::empty()))
    } else {
        match stage_run(hand, ids.drop_last(), rank) {
            Err(e) => Err(e),
            Ok((rem, picked)) => stage_step(rem, picked, ids.last(), rank),
        }
    }
}

/// Once staging a prefix of the identities has failed, staging all of them
/// fails with the same error.
pub proof fn lemma_stage_error_stays(hand: Seq<PlayCard>, ids: Seq<u8>, j: int, rank: Rank)
    requires
        0 <= j <= ids.len(),
        stage_run(hand, ids.subrange(0, j), rank) is Err,
    ensures
        stage_run(hand, ids, rank) == stage_run(hand, ids.subrange(0, j), rank),
    decreases ids.len(),
{
    if j == ids.len() {
        assert(ids.subrange(0, j) =~= ids);
    } else {
        let t = ids.drop_last();
        assert(t.subrange(0, j) =~= ids.subrange(0, j));
        lemma_stage_error_stays(hand, t, j, rank);
    }
}

/// Splitting the red threes out of `s` keeps every card: the two parts
/// hold as many cards, and the same identities, as `s`.
pub proof fn lemma_red_three_split(s: Seq<PlayCard>)
    ensures
        without_red_threes(s).len() + red_threes_in(s).len() == s.len(),
        ids_of(without_red_threes(s)).to_multiset().add(ids_of(red_threes_in(s)).to_multiset())
            == ids_of(s).to_multiset(),
    decreases s.len(),
{
    broadcast use vstd::seq_lib::group_to_multiset_ensures;
    if s.len() == 0 {
        assert(ids_of(s) =~= Seq::<u8>::empty());
        assert(ids_of(without_red_threes(s)) =~= Seq::<u8>::empty());
        assert(ids_of(red_threes_in(s)) =~= Seq::<u8>::empty());
        assert(Multiset::<u8>::empty().add(Multiset::empty()) =~= Multiset::empty());
    } else {
        let t = s.drop_last();
        let c = s.last();
        lemma_red_three_split(t);
        assert(ids_of(s) =~= ids_of(t).push(c.spec_id()));
        if c.spec_is_red_three() {
            assert(ids_of(red_threes_in(s)) =~= ids_of(red_threes_in(t)).push(c.spec_id()));
            assert(ids_of(without_red_threes(s)) =~= ids_of(without_red_threes(t)));
        } else {
            assert(ids_of(without_red_threes(s)) =~= ids_of(without_red_threes(t)).push(c.spec_id()));
            assert(ids_of(red_threes_in(s)) =~= ids_of(red_threes_in(t)));
        }
        assert(ids_of(without_red_threes(s)).to_multiset().add(ids_of(red_threes_in(s)).to_multiset())
            =~= ids_of(s).to_multiset());
    }
}

/// The first of the first `n` slots that holds a card with identity `id`,
/// or -1 if none does.
pub open spec fn slot_holding(staged: Seq<Seq<PlayCard>>, id: u8, n: int) -> int
    decreases n,
{
    if n <= 0 {
        -1
    } else {
        let k = slot_holding(staged, id, n - 1);
        if k >= 0 {
            k
        } else if find_first(staged[n - 1], id) >= 0 {
            n - 1
        } else {
            -1
        }
    }
}

pub proof fn lemma_slot_holding(staged: Seq<Seq<PlayCard>>, id: u8, n: int)
    requires
        0 <= n <= staged.len(),
    ensures
        -1 <= slot_holding(staged, id, n) < n,
        slot_holding(staged, id, n) >= 0 ==> find_first(staged[slot_holding(staged, id, n)], id) >= 0,
    decreases n,
{
    if n > 0 {
        lemma_slot_holding(staged, id, n - 1);
    }
}

/// Returning the identities `ids`, in order, from the staging slots to the
/// hand: the slots and the hand afterwards, and the identities not found.
pub open spec fn unstage_run(staged: Seq<Seq<PlayCard>>, hand: Seq<PlayCard>, ids: Seq<u8>)
    -> (Seq<Seq<PlayCard>>, Seq<PlayCard>, Seq<u8>)
    decreases ids.len(),
{
    if ids.len() == 0 {
        (staged, hand, Seq::empty())
    } else {
        let (st, h, f) = unstage_run(staged, hand, ids.drop_last());
        let id = ids.last();
        let q = slot_holding(st, id, st.len() as int);
        if q < 0 {
            (st, h, f.push(id))
        } else {
            let k = find_first(st[q], id);
            (st.update(q, st[q].remove(k)), h.push(st[q][k]), f)
        }
    }
}

/// Removing a card keeps a staging slot fitting.
pub proof fn lemma_fits_slot_remove(s: Seq<PlayCard>, slot: int, k: int)
    requires
        fits_slot(s, slot),
        0 <= k < s.len(),
    ensures
        fits_slot(s.remove(k), slot),
{
    let t = s.remove(k);
    assert forall|x: int| 0 <= x < t.len() implies {
        &&& ((#[trigger] t[x]).spec_is_wild() || slot_of(t[x].spec_rank()) == slot)
        &&& !t[x].spec_is_red_three()
    } by {
        if x < k {
            assert(t[x] == s[x]);
        } else {
            assert(t[x] == s[x + 1]);
        }
    }
}

/// Committing the cards staged for a rank to that rank's meld, `current`
/// (none yet if `None`), is allowed: they fit the ratio rule, and a new
/// meld starts with at least three cards.
pub open spec fn commit_allowed(current: Option<Meld>, rank: Rank, batch: Seq<PlayCard>) -> bool {
    match current {
        Some(m) => m.admits(batch),
        None => {
            &&& batch.len() >= MIN_MELD_SIZE
            &&& batch_fits(rank, batch)
            &&& wilds_in(batch).len() < naturals_in(batch).len()
        },
    }
}

/// Copies a sequence of cards.
pub fn copy_cards(s: &[PlayCard]) -> (r: Vec<PlayCard>)
    ensures
        r@ == s@,
{
    let mut r: Vec<PlayCard> = Vec::new();
    let mut i: usize = 0;
    while i < s.len()
        invariant
            i <= s@.len(),
            r@ == s@.subrange(0, i as int),
        decreases s@.len() - i,
    {
        r.push(s[i]);
        i = i + 1;
        assert(r@ =~= s@.subrange(0, i as int));
    }
    assert(s@.subrange(0, s@.len() as int) =~= s@);
    r
}

/// Position of the first card of `s` with identity `id`.
pub fn find_id(s: &Vec<PlayCard>, id: u8) -> (r: Option<usize>)
    ensures
        find_first(s@, id) == -1 ==> r is None,
        find_first(s@, id) >= 0 ==> r == Some(find_first(s@, id) as usize),
{
    let mut found: Option<usize> = None;
    let mut i: usize = 0;
    while i < s.len()
        invariant
            i <= s@.len(),
            found is None ==> find_first(s@.subrange(0, i as int), id) == -1,
            found matches Some(k) ==> find_first(s@.subrange(0, i as int), id) == k,
        decreases s@.len() - i,
    {
        assert(s@.subrange(0, i + 1).drop_last() =~= s@.subrange(0, i as int));
        if found.is_none() && s[i].get_id() == id {
            found = Some(i);
        }
        i = i + 1;
    }
    assert(s@.subrange(0, s@.len() as int) =~= s@);
    found
}

/// A player: a hand, red threes set aside, cards staged per rank for a
/// meld, and the melds committed per rank.
pub struct Player {
    id: u8,
    hand: Vec<PlayCard>,
    melds: Vec<Option<Meld>>,
    temp_melds: Vec<Vec<PlayCard>>,
    red_threes: Vec<PlayCard>,
}

impl Player {
    pub closed spec fn spec_id(&self) -> u8 {
        self.id
    }

    pub closed spec fn spec_hand(&self) -> Seq<PlayCard> {
        self.hand@
    }

    pub closed spec fn spec_red_threes(&self) -> Seq<PlayCard> {
        self.red_threes@
    }

    /// The cards staged in each slot.
    pub closed spec fn spec_staged(&self) -> Seq<Seq<PlayCard>> {
        self.temp_melds@.map_values(|v: Vec<PlayCard>| v@)
    }

    /// The meld committed in each slot, if any.
    pub closed spec fn spec_melds(&self) -> Seq<Option<Meld>> {
        self.melds@
    }

    /// Both players are in the same state.
    pub open spec fn same_state(&self, o: &Player) -> bool {
        &&& self.spec_id() == o.spec_id()
        &&& self.spec_hand() == o.spec_hand()
        &&& self.spec_red_threes() == o.spec_red_threes()
        &&& self.spec_staged() == o.spec_staged()
        &&& self.spec_melds() == o.spec_melds()
    }

    /// Thirteen slots; each staged card fits its slot; each committed meld
    /// is well formed, of its slot's rank, and at least three cards long.
    pub open spec fn wf(&self) -> bool {
        &&& self.spec_staged().len() == SLOTS
        &&& self.spec_melds().len() == SLOTS
        &&& forall|i: int| 0 <= i < SLOTS ==> fits_slot(#[trigger] self.spec_staged()[i], i)
        &&& forall|i: int| 0 <= i < SLOTS ==> (#[trigger] self.spec_melds()[i] matches Some(m) ==> {
            &&& m.wf()
            &&& slot_of(m.spec_rank()) == i
            &&& m.spec_len() >= MIN_MELD_SIZE
        })
    }

    pub fn new(id: u8) -> (r: Player)
        ensures
            r.wf(),
            r.spec_id() == id,
            r.spec_hand().len() == 0,
            r.spec_red_threes().len() == 0,
            forall|i: int| 0 <= i < SLOTS ==> (#[trigger] r.spec_staged()[i]).len() == 0,
            forall|i: int| 0 <= i < SLOTS ==> (#[trigger] r.spec_melds()[i]) is None,
    {
        let mut melds: Vec<Option<Meld>> = Vec::new();
        let mut temp_melds: Vec<Vec<PlayCard>> = Vec::new();
        let mut i: usize = 0;
        while i < SLOTS
            invariant
                i <= SLOTS,
                melds@.len() == i,
                temp_melds@.len() == i,
                forall|j: int| 0 <= j < i ==> (#[trigger] melds@[j]) is None,
                forall|j: int| 0 <= j < i ==> (#[trigger] temp_melds@[j])@.len() == 0,
            decreases SLOTS - i,
        {
            melds.push(None);
            temp_melds.push(Vec::new());
            i = i + 1;
        }
        Player { id, hand: Vec::new(), melds, temp_melds, red_threes: Vec::new() }
    }

    pub fn get_id(&self) -> (r: u8)
        ensures
            r == self.spec_id(),
    {
        self.id
    }

    /// Puts a card in the hand, last.
    pub fn add_hand(&mut self, card: PlayCard)
        ensures
            final(self).spec_hand() == old(self).spec_hand().push(card),
            final(self).spec_id() == old(self).spec_id(),
            final(self).spec_red_threes() == old(self).spec_red_threes(),
            final(self).spec_staged() == old(self).spec_staged(),
            final(self).spec_melds() == old(self).spec_melds(),
    {
        self.hand.push(card);
    }

    /// Sets a red three aside, out of play.
    pub fn add_red_three(&mut self, card: PlayCard)
        ensures
            final(self).spec_red_threes() == old(self).spec_red_threes().push(card),
            final(self).spec_id() == old(self).spec_id(),
            final(self).spec_hand() == old(self).spec_hand(),
            final(self).spec_staged() == old(self).spec_staged(),
            final(self).spec_melds() == old(self).spec_melds(),
    {
        self.red_threes.push(card);
    }

    /// Moves every red three of the hand to the red-three pile, keeping the
    /// order of both; returns how many were moved.
    pub fn meld_red_threes(&mut self) -> (r: usize)
        ensures
            final(self).spec_hand() == without_red_threes(old(self).spec_hand()),
            final(self).spec_red_threes() == old(self).spec_red_threes() + red_threes_in(old(self).spec_hand()),
            r == red_threes_in(old(self).spec_hand()).len(),
            no_red_threes(final(self).spec_hand()),
            final(self).spec_id() == old(self).spec_id(),
            final(self).spec_staged() == old(self).spec_staged(),
            final(self).spec_melds() == old(self).spec_melds(),
    {
        let mut kept: Vec<PlayCard> = Vec::new();
        let mut moved: usize = 0;
        let ghost red_before = self.red_threes@;
        let mut i: usize = 0;
        while i < self.hand.len()
            invariant
                i <= self.hand@.len(),
                self.hand@ == old(self).hand@,
                self.id == old(self).id,
                self.temp_melds@ == old(self).temp_melds@,
                self.melds@ == old(self).melds@,
                kept@ == without_red_threes(self.hand@.subrange(0, i as int)),
                self.red_threes@ == red_before + red_threes_in(self.hand@.subrange(0, i as int)),
                moved == red_threes_in(self.hand@.subrange(0, i as int)).len(),
                moved <= i,
                no_red_threes(kept@),
            decreases self.hand@.len() - i,
        {
            assert(self.hand@.subrange(0, i + 1).drop_last() =~= self.hand@.subrange(0, i as int));
            let c = self.hand[i];
            if c.is_red_three() {
                self.red_threes.push(c);
                moved = moved + 1;
            } else {
                kept.push(c);
            }
            i = i + 1;
        }
        assert(self.hand@.subrange(0, self.hand@.len() as int) =~= self.hand@);
        self.hand = kept;
        moved
    }

    pub fn get_hand(&self) -> (r: &[PlayCard])
        ensures
            r@ == self.spec_hand(),
    {
        self.hand.as_slice()
    }

    pub fn get_red_threes(&self) -> (r: &[PlayCard])
        ensures
            r@ == self.spec_red_threes(),
    {
        self.red_threes.as_slice()
    }

    /// Removes and returns the first card of the hand with identity
    /// `card_id`; `None`, with nothing changed, if the hand has none.
    pub fn discard(&mut self, card_id: u8) -> (r: Option<PlayCard>)
        ensures
            find_first(old(self).spec_hand(), card_id) == -1 ==> r is None && *final(self) == *old(self),
            find_first(old(self).spec_hand(), card_id) >= 0 ==> {
                let k = find_first(old(self).spec_hand(), card_id);
                &&& r == Some(old(self).spec_hand()[k])
                &&& final(self).spec_hand() == old(self).spec_hand().remove(k)
                &&& final(self).spec_id() == old(self).spec_id()
                &&& final(self).spec_red_threes() == old(self).spec_red_threes()
                &&& final(self).spec_staged() == old(self).spec_staged()
                &&& final(self).spec_melds() == old(self).spec_melds()
            },
    {
        proof {
            lemma_find_first(self.hand@, card_id);
        }
        match find_id(&self.hand, card_id) {
            Some(i) => Some(self.hand.remove(i)),
            None => None,
        }
    }

    /// Stages the cards with identities `cards` from the hand for a meld of
    /// `rank`. All or nothing: on any error the player is left as it was.
    pub fn meld(&mut self, cards: Vec<u8>, rank: Rank) -> (r: Result<(), InternalMeldError>)
        requires
            old(self).wf(),
        ensures
            final(self).wf(),
            no_red_threes(old(self).spec_hand()) ==> no_red_threes(final(self).spec_hand()),
            !meldable(rank) ==> r == Err::<(), InternalMeldError>(InternalMeldError::IneligibleRank)
                && *final(self) == *old(self),
            meldable(rank) ==> match stage_run(old(self).spec_hand(), cards@, rank) {
                Err(e) => r == Err::<(), InternalMeldError>(e) && *final(self) == *old(self),
                Ok((rem, picked)) => {
                    &&& r is Ok
                    &&& final(self).spec_hand() == rem
                    &&& final(self).spec_staged() == old(self).spec_staged().update(
                        slot_of(rank),
                        old(self).spec_staged()[slot_of(rank)] + picked,
                    )
                    &&& final(self).spec_id() == old(self).spec_id()
                    &&& final(self).spec_red_threes() == old(self).spec_red_threes()
                    &&& final(self).spec_melds() == old(self).spec_melds()
                },
            },
    {
        if rank == Rank::Two || rank == Rank::Joker {
            return Err(InternalMeldError::IneligibleRank);
        }
        let slot = (rank.number() - 1) as usize;
        let mut rem = copy_cards(self.hand.as_slice());
        let mut picked: Vec<PlayCard> = Vec::new();
        let mut i: usize = 0;
        while i < cards.len()
            invariant
                i <= cards@.len(),
                meldable(rank),
                slot == slot_of(rank),
                *self == *old(self),
                old(self).wf(),
                stage_run(self.hand@, cards@.subrange(0, i as int), rank) == Ok::<_, InternalMeldError>((rem@, picked@)),
                fits_slot(picked@, slot as int),
                no_red_threes(old(self).spec_hand()) ==> no_red_threes(rem@),
            decreases cards@.len() - i,
        {
            let ghost pre = cards@.subrange(0, i as int);
            assert(cards@.subrange(0, i + 1).drop_last() =~= pre);
            let id = cards[i];
            proof {
                lemma_find_first(rem@, id);
            }
            let k = match find_id(&rem, id) {
                Some(k) => k,
                None => {
                    proof {
                        assert(stage_run(self.hand@, cards@.subrange(0, i + 1), rank)
                            == stage_step(rem@, picked@, id, rank));
                        lemma_stage_error_stays(self.hand@, cards@, i + 1, rank);
                    }
                    return Err(InternalMeldError::InvalidCardId(id));
                },
            };
            let c = rem[k];
            assert(stage_run(self.hand@, cards@.subrange(0, i + 1), rank)
                == stage_step(rem@, picked@, id, rank));
            if c.is_wild() {
            } else if c.is_red_three() {
                proof {
                    lemma_stage_error_stays(self.hand@, cards@, i + 1, rank);
                }
                return Err(InternalMeldError::InvalidCardToMeld(id));
            } else if c.rank() != &rank {
                proof {
                    lemma_stage_error_stays(self.hand@, cards@, i + 1, rank);
                }
                return Err(InternalMeldError::IncorrectRank(id));
            }
            let ghost rem0 = rem@;
            rem.remove(k);
            picked.push(c);
            proof {
                if no_red_threes(old(self).spec_hand()) {
                    assert forall|x: int| 0 <= x < rem@.len() implies !(#[trigger] rem@[x]).spec_is_red_three() by {
                        if x < k {
                            assert(rem@[x] == rem0[x]);
                        } else {
                            assert(rem@[x] == rem0[x + 1]);
                        }
                    }
                }
            }
            i = i + 1;
        }
        assert(cards@.subrange(0, cards@.len() as int) =~= cards@);
        self.hand = rem;
        let mut slot_cards: Vec<PlayCard> = Vec::new();
        std::mem::swap(&mut slot_cards, &mut self.temp_melds[slot]);
        let ghost before = slot_cards@;
        let mut j: usize = 0;
        while j < picked.len()
            invariant
                j <= picked@.len(),
                slot_cards@ == before + picked@.subrange(0, j as int),
            decreases picked@.len() - j,
        {
            slot_cards.push(picked[j]);
            j = j + 1;
            assert(slot_cards@ =~= before + picked@.subrange(0, j as int));
        }
        assert(picked@.subrange(0, picked@.len() as int) =~= picked@);
        std::mem::swap(&mut slot_cards, &mut self.temp_melds[slot]);
        proof {
            assert(self.spec_staged() =~= old(self).spec_staged().update(slot as int, before + picked@));
            assert forall|q: int| 0 <= q < SLOTS implies fits_slot(#[trigger] self.spec_staged()[q], q) by {
                if q == slot {
                    let t = before + picked@;
                    assert(fits_slot(old(self).spec_staged()[q], q));
                    assert forall|x: int| 0 <= x < t.len() implies {
                        &&& ((#[trigger] t[x]).spec_is_wild() || slot_of(t[x].spec_rank()) == q)
                        &&& !t[x].spec_is_red_three()
                    } by {
                        if x < before.len() {
                            assert(t[x] == old(self).spec_staged()[q][x]);
                        } else {
                            assert(t[x] == picked@[x - before.len()]);
                        }
                    }
                } else {
                    assert(self.spec_staged()[q] == old(self).spec_staged()[q]);
                }
            }
        }
        Ok(())
    }

    /// Commits the cards staged for `rank` to that rank's meld, making the
    /// meld if there is none. On refusal nothing changes: the cards stay staged.
    pub fn commit_meld(&mut self, rank: Rank) -> (r: Result<(), ()>)
        requires
            old(self).wf(),
        ensures
            final(self).wf(),
            final(self).spec_id() == old(self).spec_id(),
            final(self).spec_hand() == old(self).spec_hand(),
            final(self).spec_red_threes() == old(self).spec_red_threes(),
            r is Ok <==> meldable(rank) && commit_allowed(
                old(self).spec_melds()[slot_of(rank)],
                rank,
                old(self).spec_staged()[slot_of(rank)],
            ),
            r is Err ==> *final(self) == *old(self),
            r is Ok ==> {
                let i = slot_of(rank);
                let batch = old(self).spec_staged()[i];
                &&& final(self).spec_staged() == old(self).spec_staged().update(i, Seq::empty())
                &&& final(self).spec_melds() == old(self).spec_melds().update(i, final(self).spec_melds()[i])
                &&& final(self).spec_melds()[i] matches Some(m) && {
                    &&& m.spec_rank() == rank
                    &&& m.spec_wilds().len() < m.spec_naturals().len()
                    &&& old(self).spec_melds()[i] matches Some(o) ==> {
                        &&& m.spec_naturals() == o.spec_naturals() + naturals_in(batch)
                        &&& m.spec_wilds() == o.spec_wilds() + wilds_in(batch)
                    }
                    &&& old(self).spec_melds()[i] is None ==> {
                        &&& m.spec_naturals() == naturals_in(batch)
                        &&& m.spec_wilds() == wilds_in(batch)
                    }
                }
            },
    {
        if rank == Rank::Two || rank == Rank::Joker {
            return Err(());
        }
        let slot = (rank.number() - 1) as usize;
        let ghost batch = self.spec_staged()[slot as int];
        assert(self.temp_melds@[slot as int]@ == batch);
        let is_new = self.melds[slot].is_none();
        if is_new && self.temp_melds[slot].len() < MIN_MELD_SIZE {
            return Err(());
        }
        let check = match &self.melds[slot] {
            Some(existing) => existing.can_add(&self.temp_melds[slot]),
            None => Meld::new(rank).can_add(&self.temp_melds[slot]),
        };
        if check.is_err() {
            return Err(());
        }
        let mut current: Option<Meld> = None;
        std::mem::swap(&mut current, &mut self.melds[slot]);
        let mut m = match current {
            Some(m) => m,
            None => Meld::new(rank),
        };
        proof {
            if !is_new {
                assert(old(self).spec_melds()[slot as int] matches Some(o) && o == m);
            }
        }
        m.add(&self.temp_melds[slot]);
        proof {
            lemma_parts_fit(rank, batch);
        }
        let mut filled: Option<Meld> = Some(m);
        std::mem::swap(&mut filled, &mut self.melds[slot]);
        let mut emptied: Vec<PlayCard> = Vec::new();
        std::mem::swap(&mut emptied, &mut self.temp_melds[slot]);
        proof {
            assert(self.spec_staged() =~= old(self).spec_staged().update(slot as int, Seq::empty()));
            assert forall|q: int| 0 <= q < SLOTS implies fits_slot(#[trigger] self.spec_staged()[q], q) by {
                if q != slot {
                    assert(self.spec_staged()[q] == old(self).spec_staged()[q]);
                }
            }
        }
        Ok(())
    }
    /// Returns the cards with identities `cards` from the staging slots to the
    /// hand. Each one found goes back whatever happens to the others; the
    /// identities not found come back as the error.
    pub fn remove_from_temp(&mut self, cards: Vec<u8>) -> (r: Result<(), Vec<u8>>)
        requires
            old(self).wf(),
        ensures
            final(self).wf(),
            ({
                let (st, h, f) = unstage_run(old(self).spec_staged(), old(self).spec_hand(), cards@);
                &&& final(self).spec_staged() == st
                &&& final(self).spec_hand() == h
                &&& (r is Ok <==> f.len() == 0)
                &&& (r matches Err(v) ==> v@ == f)
            }),
            no_red_threes(old(self).spec_hand()) ==> no_red_threes(final(self).spec_hand()),
            final(self).spec_id() == old(self).spec_id(),
            final(self).spec_red_threes() == old(self).spec_red_threes(),
            final(self).spec_melds() == old(self).spec_melds(),
    {
        let mut failed: Vec<u8> = Vec::new();
        let mut i: usize = 0;
        while i < cards.len()
            invariant
                i <= cards@.len(),
                self.wf(),
                unstage_run(old(self).spec_staged(), old(self).spec_hand(), cards@.subrange(0, i as int))
                    == (self.spec_staged(), self.spec_hand(), failed@),
                no_red_threes(old(self).spec_hand()) ==> no_red_threes(self.spec_hand()),
                self.id == old(self).id,
                self.red_threes@ == old(self).red_threes@,
                self.melds@ == old(self).melds@,
            decreases cards@.len() - i,
        {
            assert(cards@.subrange(0, i + 1).drop_last() =~= cards@.subrange(0, i as int));
            let id = cards[i];
            let ghost st = self.spec_staged();
            let ghost h0 = self.hand@;
            let mut found: Option<usize> = None;
            let mut q: usize = 0;
            while q < SLOTS
                invariant
                    q <= SLOTS,
                    self.temp_melds@.len() == SLOTS,
                    st == self.spec_staged(),
                    found is None ==> slot_holding(st, id, q as int) == -1,
                    found matches Some(x) ==> slot_holding(st, id, q as int) == x,
                decreases SLOTS - q,
            {
                if found.is_none() {
                    assert(self.temp_melds@[q as int]@ == st[q as int]);
                    if find_id(&self.temp_melds[q], id).is_some() {
                        found = Some(q);
                    }
                }
                q = q + 1;
            }
            proof {
                lemma_slot_holding(st, id, SLOTS as int);
            }
            match found {
                Some(q) => {
                    assert(self.temp_melds@[q as int]@ == st[q as int]);
                    proof {
                        lemma_find_first(st[q as int], id);
                        assert(find_first(st[q as int], id) >= 0);
                    }
                    let found_k = find_id(&self.temp_melds[q], id);
                    assert(0 <= find_first(st[q as int], id) < st[q as int].len());
                    assert(found_k == Some(find_first(st[q as int], id) as usize));
                    let k = match found_k {
                        Some(k) => k,
                        None => 0,
                    };
                    let mut slot_cards: Vec<PlayCard> = Vec::new();
                    std::mem::swap(&mut slot_cards, &mut self.temp_melds[q]);
                    let c = slot_cards.remove(k);
                    std::mem::swap(&mut slot_cards, &mut self.temp_melds[q]);
                    self.hand.push(c);
                    proof {
                        assert(self.spec_staged() =~= st.update(q as int, st[q as int].remove(k as int)));
                        lemma_fits_slot_remove(st[q as int], q as int, k as int);
                        assert(fits_slot(st[q as int], q as int));
                        assert forall|p: int| 0 <= p < SLOTS implies fits_slot(#[trigger] self.spec_staged()[p], p) by {
                            if p != q {
                                assert(self.spec_staged()[p] == st[p]);
                            }
                        }
                        assert(st.len() == SLOTS);
                        assert(q == slot_holding(st, id, st.len() as int));
                        assert(k == find_first(st[q as int], id));
                        assert(c == st[q as int][k as int]);
                        assert(self.hand@ == h0.push(c));
                        assert(unstage_run(old(self).spec_staged(), old(self).spec_hand(), cards@.subrange(0, i + 1))
                            == (self.spec_staged(), self.spec_hand(), failed@));
                        if no_red_threes(old(self).spec_hand()) {
                            assert forall|x: int| 0 <= x < self.hand@.len() implies !(#[trigger] self.hand@[x]).spec_is_red_three() by {
                                if x == self.hand@.len() - 1 {
                                    assert(self.hand@[x] == st[q as int][k as int]);
                                }
                            }
                        }
                    }
                },
                None => {
                    failed.push(id);
                    assert(unstage_run(old(self).spec_staged(), old(self).spec_hand(), cards@.subrange(0, i + 1))
                        == (self.spec_staged(), self.spec_hand(), failed@));
                },
            }
            i = i + 1;
        }
        assert(cards@.subrange(0, cards@.len() as int) =~= cards@);
        if failed.len() == 0 {
            Ok(())
        } else {
            Err(failed)
        }
    }

    /// Returns every staged card to the hand, slot after slot, leaving all
    /// slots empty.
    pub fn clear_temp_meld(&mut self)
        requires
            old(self).wf(),
        ensures
            final(self).wf(),
            final(self).spec_hand() == old(self).spec_hand() + staged_upto(old(self).spec_staged(), SLOTS as int),
            forall|i: int| 0 <= i < SLOTS ==> (#[trigger] final(self).spec_staged()[i]).len() == 0,
            no_red_threes(old(self).spec_hand()) ==> no_red_threes(final(self).spec_hand()),
            final(self).spec_id() == old(self).spec_id(),
            final(self).spec_red_threes() == old(self).spec_red_threes(),
            final(self).spec_melds() == old(self).spec_melds(),
    {
        let ghost st = old(self).spec_staged();
        let mut q: usize = 0;
        while q < SLOTS
            invariant
                q <= SLOTS,
                self.temp_melds@.len() == SLOTS,
                old(self).wf(),
                st == old(self).spec_staged(),
                self.hand@ == old(self).hand@ + staged_upto(st, q as int),
                forall|p: int| 0 <= p < q ==> (#[trigger] self.spec_staged()[p]).len() == 0,
                forall|p: int| q <= p < SLOTS ==> #[trigger] self.spec_staged()[p] == st[p],
                no_red_threes(old(self).spec_hand()) ==> no_red_threes(self.spec_hand()),
                self.id == old(self).id,
                self.red_threes@ == old(self).red_threes@,
                self.melds@ == old(self).melds@,
            decreases SLOTS - q,
        {
            let ghost before = self.spec_staged();
            let mut slot_cards: Vec<PlayCard> = Vec::new();
            std::mem::swap(&mut slot_cards, &mut self.temp_melds[q]);
            assert(slot_cards@ == st[q as int]) by {
                assert(before[q as int] == st[q as int]);
            }
            assert(fits_slot(st[q as int], q as int));
            let ghost hand0 = self.hand@;
            let ghost tm = self.temp_melds@;
            let mut j: usize = 0;
            while j < slot_cards.len()
                invariant
                    j <= slot_cards@.len(),
                    q < SLOTS,
                    st.len() == SLOTS,
                    self.temp_melds@ == tm,
                    self.id == old(self).id,
                    self.red_threes@ == old(self).red_threes@,
                    self.melds@ == old(self).melds@,
                    slot_cards@ == st[q as int],
                    fits_slot(st[q as int], q as int),
                    self.hand@ == hand0 + slot_cards@.subrange(0, j as int),
                    no_red_threes(old(self).spec_hand()) ==> no_red_threes(hand0),
                    no_red_threes(old(self).spec_hand()) ==> no_red_threes(self.spec_hand()),
                decreases slot_cards@.len() - j,
            {
                self.hand.push(slot_cards[j]);
                j = j + 1;
                assert(self.hand@ =~= hand0 + slot_cards@.subrange(0, j as int));
            }
            assert(slot_cards@.subrange(0, slot_cards@.len() as int) =~= slot_cards@);
            proof {
                assert(self.temp_melds@[q as int]@ == Seq::<PlayCard>::empty());
                assert(self.spec_staged() =~= before.update(q as int, Seq::empty()));
            }
            q = q + 1;
        }
        proof {
            assert forall|i: int| 0 <= i < SLOTS implies fits_slot(#[trigger] self.spec_staged()[i], i) by {
                assert(self.spec_staged()[i].len() == 0);
            }
        }
    }

    /// Puts `cards` in the hand, after the cards already there.
    pub fn take_cards(&mut self, cards: Vec<PlayCard>)
        ensures
            final(self).spec_hand() == old(self).spec_hand() + cards@,
            final(self).spec_id() == old(self).spec_id(),
            final(self).spec_red_threes() == old(self).spec_red_threes(),
            final(self).spec_staged() == old(self).spec_staged(),
            final(self).spec_melds() == old(self).spec_melds(),
    {
        let mut i: usize = 0;
        while i < cards.len()
            invariant
                i <= cards@.len(),
                self.hand@ == old(self).hand@ + cards@.subrange(0, i as int),
                self.id == old(self).id,
                self.red_threes@ == old(self).red_threes@,
                self.temp_melds@ == old(self).temp_melds@,
                self.melds@ == old(self).melds@,
            decreases cards@.len() - i,
        {
            self.hand.push(cards[i]);
            i = i + 1;
            assert(self.hand@ =~= old(self).hand@ + cards@.subrange(0, i as int));
        }
        assert(cards@.subrange(0, cards@.len() as int) =~= cards@);
    }

    /// The cards staged for `rank`.
    pub fn view_temp_meld(&self, rank: Rank) -> (r: &[PlayCard])
        requires
            self.wf(),
            rank != Rank::Joker,
        ensures
            r@ == self.spec_staged()[slot_of(rank)],
    {
        let slot = (rank.number() - 1) as usize;
        self.temp_melds[slot].as_slice()
    }

    /// The cards staged in every slot; slot `i` holds rank number `i + 1`.
    pub fn view_all_temp(&self) -> (r: &Vec<Vec<PlayCard>>)
        ensures
            r@.map_values(|v: Vec<PlayCard>| v@) == self.spec_staged(),
    {
        &self.temp_melds
    }

    /// The meld committed for `rank`, if any.
    pub fn view_meld(&self, rank: Rank) -> (r: Option<&Meld>)
        requires
            self.wf(),
            rank != Rank::Joker,
        ensures
            r matches Some(m) ==> self.spec_melds()[slot_of(rank)] == Some(*m),
            r is None ==> self.spec_melds()[slot_of(rank)] is None,
    {
        let slot = (rank.number() - 1) as usize;
        match &self.melds[slot] {
            Some(m) => Some(m),
            None => None,
        }
    }

    /// How many of the player's melds are complete.
    pub fn canasta_count(&self) -> (r: usize)
        requires
            self.wf(),
        ensures
            r == complete_upto(self.spec_melds(), SLOTS as int),
    {
        let mut count: usize = 0;
        let mut q: usize = 0;
        while q < SLOTS
            invariant
                q <= SLOTS,
                self.wf(),
                count == complete_upto(self.spec_melds(), q as int),
                count <= q,
            decreases SLOTS - q,
        {
            match &self.melds[q] {
                Some(m) => {
                    if m.is_complete() {
                        count = count + 1;
                    }
                },
                None => {},
            }
            q = q + 1;
        }
        count
    }
    /// Whether the hand holds a card with identity `card_id`.
    pub fn has_card(&self, card_id: u8) -> (r: bool)
        ensures
            r == (find_first(self.spec_hand(), card_id) >= 0),
    {
        find_id(&self.hand, card_id).is_some()
    }

    /// Whether the hand holds a natural card of rank `rank`.
    pub fn has_natural(&self, rank: Rank) -> (r: bool)
        ensures
            r == exists|i: int| 0 <= i < self.spec_hand().len()
                && !(#[trigger] self.spec_hand()[i]).spec_is_wild() && self.spec_hand()[i].spec_rank() == rank,
    {
        let mut i: usize = 0;
        while i < self.hand.len()
            invariant
                i <= self.hand@.len(),
                forall|j: int| 0 <= j < i ==> !(!(#[trigger] self.hand@[j]).spec_is_wild() && self.hand@[j].spec_rank() == rank),
            decreases self.hand@.len() - i,
        {
            let c = self.hand[i];
            if !c.is_wild() && c.rank() == &rank {
                return true;
            }
            i = i + 1;
        }
        false
    }
}

} // verus!
