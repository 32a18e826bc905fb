use vstd::prelude::*;
use crate::card::{PlayCard, Rank, Suit, rank_of_number, suit_of_index, card_value};

verus! {

broadcast use vstd::seq_lib::group_to_multiset_ensures;

/// Cards in a full pack: per suit, two runs Ace to King and one Joker.
pub const DECK_SIZE: usize = 108;

/// Cards of one suit in a full pack.
pub const CARDS_PER_SUIT: u8 = 27;

/// The suit of the card with identity `id` in a full pack.
pub open spec fn suit_for_id(id: int) -> Suit {
    match suit_of_index(id / 27) {
        Some(s) => s,
        None => Suit::Spades,
    }
}

/// The rank of the card with identity `id`: within a suit's 27 cards, the
/// first 26 are two runs Ace to King and the last is the Joker.
pub open spec fn rank_for_id(id: int) -> Rank {
    if id % 27 == 26 {
        Rank::Joker
    } else {
        rank_of_number(id % 27 % 13 + 1)
    }
}

/// `c` is the card that a full pack holds under identity `c`'s id.
pub open spec fn is_card_for_id(c: PlayCard) -> bool {
    &&& c.spec_suit() == suit_for_id(c.spec_id() as int)
    &&& c.spec_rank() == rank_for_id(c.spec_id() as int)
    &&& c.spec_value() as int == card_value(c.spec_suit(), c.spec_rank())
    &&& c.wf()
}

/// An order of the identities of a full pack: each of 0..108 exactly once.
pub open spec fn is_deck_order(s: Seq<u8>) -> bool {
    &&& s.len() == DECK_SIZE
    &&& s.no_duplicates()
    &&& forall|i: int| 0 <= i < s.len() ==> s[i] < DECK_SIZE
}

/// The identities of a sequence of cards, in order.
pub open spec fn ids_of(s: Seq<PlayCard>) -> Seq<u8> {
    s.map_values(|c: PlayCard| c.spec_id())
}

/// The face-down draw pile; the last card is the next one drawn.
pub struct Deck {
    cards: Vec<PlayCard>,
}

impl View for Deck {
    type V = Seq<PlayCard>;

    closed spec fn view(&self) -> Seq<PlayCard> {
        self.cards@
    }
}

/// Relies on rand's `SliceRandom::shuffle` for slices, with the generator of
/// `rand::thread_rng`: a Fisher-Yates pass that only swaps elements at
/// indices in bounds, so the result is a permutation of the input. Seeding
/// the generator panics only when the system's randomness source is
/// unavailable, which ends the program.
#[verifier::external_body]
fn shuffle_ids(ids: &mut Vec<u8>)
    ensures
        final(ids)@.len() == old(ids)@.len(),
        final(ids)@.to_multiset() == old(ids)@.to_multiset(),
{
    let mut rng = rand::thread_rng();
    rand::seq::SliceRandom::shuffle(ids.as_mut_slice(), &mut rng);
}

/// The card a full pack holds under identity `id`.
pub fn card_for_id(id: u8) -> (r: PlayCard)
    requires
        id < DECK_SIZE,
    ensures
        r.spec_id() == id,
        is_card_for_id(r),
{
    let suit = match Suit::from_index(id / CARDS_PER_SUIT) {
        Some(s) => s,
        None => Suit::Spades,
    };
    let pos: u8 = id % CARDS_PER_SUIT;
    let rank = if pos == 26 {
        Rank::Joker
    } else {
        Rank::from(pos % 13 + 1)
    };
    PlayCard::new(id, suit, rank)
}

/// A uniformly shuffled order of the identities of a full pack.
pub fn shuffled_order() -> (r: Vec<u8>)
    ensures
        is_deck_order(r@),
{
    let mut order: Vec<u8> = Vec::new();
    let mut i: u8 = 0;
    while i < 108
        invariant
            i <= 108,
            order@.len() == i,
            forall|j: int| 0 <= j < i ==> order@[j] == j,
        decreases 108 - i,
    {
        order.push(i);
        i = i + 1;
    }
    assert(order@.no_duplicates());
    let ghost before = order@;
    shuffle_ids(&mut order);
    proof {
        before.lemma_multiset_has_no_duplicates();
        assert forall|x: u8| order@.to_multiset().contains(x) implies order@.to_multiset().count(x) == 1 by {
            assert(before.to_multiset().contains(x));
        }
        order@.lemma_multiset_has_no_duplicates_conv();
        assert forall|k: int| 0 <= k < order@.len() implies order@[k] < DECK_SIZE by {
            assert(order@.to_multiset().contains(order@[k]));
            assert(before.contains(order@[k]));
        }
    }
    order
}

impl Deck {
    /// A full pack of 108 cards, shuffled uniformly.
    pub fn new() -> (r: Deck)
        ensures
            r@.len() == DECK_SIZE,
            is_deck_order(ids_of(r@)),
            forall|i: int| 0 <= i < r@.len() ==> is_card_for_id(#[trigger] r@[i]),
    {
        let order = shuffled_order();
        Deck::from_order(&order)
    }

    /// The pack in the given order: its last identity is drawn first.
    pub fn from_order(order: &Vec<u8>) -> (r: Deck)
        requires
            is_deck_order(order@),
        ensures
            ids_of(r@) == order@,
            r@.len() == DECK_SIZE,
            is_deck_order(ids_of(r@)),
            forall|i: int| 0 <= i < r@.len() ==> is_card_for_id(#[trigger] r@[i]),
    {
        let mut cards: Vec<PlayCard> = Vec::new();
        let mut i: usize = 0;
        while i < order.len()
            invariant
                i <= order@.len(),
                is_deck_order(order@),
                cards@.len() == i,
                forall|j: int| 0 <= j < i ==> #[trigger] cards@[j].spec_id() == order@[j],
                forall|j: int| 0 <= j < i ==> is_card_for_id(#[trigger] cards@[j]),
            decreases order@.len() - i,
        {
            let c = card_for_id(order[i]);
            cards.push(c);
            i = i + 1;
        }
        assert(ids_of(cards@) =~= order@);
        Deck { cards }
    }

    /// How many cards are left to draw.
    pub fn remaining(&self) -> (r: usize)
        ensures
            r == self@.len(),
    {
        self.cards.len()
    }

    /// Takes the next card of a pack that is not exhausted.
    pub fn take_top(&mut self) -> (r: PlayCard)
        requires
            old(self)@.len() > 0,
        ensures
            r == old(self)@.last(),
            final(self)@ == old(self)@.drop_last(),
    {
        let top = self.cards[self.cards.len() - 1];
        self.cards.pop();
        top
    }

    /// Takes the next card, or `None` once the pack is exhausted.
    pub fn draw(&mut self) -> (r: Option<PlayCard>)
        ensures
            old(self)@.len() == 0 ==> r is None && final(self)@ == old(self)@,
            old(self)@.len() > 0 ==> r == Some(old(self)@.last())
                && final(self)@ == old(self)@.drop_last(),
    {
        self.cards.pop()
    }
}

} // verus!
