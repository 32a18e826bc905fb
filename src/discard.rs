use vstd::prelude::*;
use crate::card::PlayCard;

verus! {

/// The face-up pile. It freezes when a wild card is thrown on it and stays
/// frozen until the whole pile is taken.
pub struct Discard {
    cards: Vec<PlayCard>,
    frozen: bool,
}

impl View for Discard {
    type V = Seq<PlayCard>;

    closed spec fn view(&self) -> Seq<PlayCard> {
        self.cards@
    }
}

impl Discard {
    pub closed spec fn spec_frozen(&self) -> bool {
        self.frozen
    }

    pub fn new() -> (r: Discard)
        ensures
            r@.len() == 0,
            !r.spec_frozen(),
    {
        Discard { cards: Vec::new(), frozen: false }
    }

    /// The most recently thrown card, if any.
    pub fn top(&self) -> (r: Option<&PlayCard>)
        ensures
            self@.len() == 0 ==> r is None,
            self@.len() > 0 ==> (r matches Some(c) && *c == self@.last()),
    {
        if self.cards.len() == 0 {
            None
        } else {
            Some(&self.cards[self.cards.len() - 1])
        }
    }

    /// Puts `card` on top; a wild card freezes the pile.
    pub fn throw(&mut self, card: PlayCard)
        ensures
            final(self)@ == old(self)@.push(card),
            final(self).spec_frozen() == (old(self).spec_frozen() || card.spec_is_wild()),
    {
        if card.is_wild() {
            self.frozen = true;
        }
        self.cards.push(card);
    }

    /// Takes the whole pile, leaving it empty and unfrozen.
    pub fn take(&mut self) -> (r: Vec<PlayCard>)
        ensures
            r@ == old(self)@,
            final(self)@.len() == 0,
            !final(self).spec_frozen(),
    {
        let mut taken: Vec<PlayCard> = Vec::new();
        std::mem::swap(&mut taken, &mut self.cards);
        self.frozen = false;
        taken
    }

    pub fn is_frozen(&self) -> (r: bool)
        ensures
            r == self.spec_frozen(),
    {
        self.frozen
    }

    /// The pile, bottom first.
    pub fn cards(&self) -> (r: &[PlayCard])
        ensures
            r@ == self@,
    {
        self.cards.as_slice()
    }

    /// How many cards the pile holds.
    pub fn len(&self) -> (r: usize)
        ensures
            r == self@.len(),
    {
        self.cards.len()
    }
}


/// Whether some card of `cards` is wild.
pub open spec fn has_wild(cards: Seq<PlayCard>) -> bool {
    exists|i: int| 0 <= i < cards.len() && (#[trigger] cards[i]).spec_is_wild()
}

/// `piles` are the states of one pile while the cards `thrown` are thrown
/// on it one after another, as `Discard::throw` describes each step.
pub open spec fn is_throw_sequence(piles: Seq<Discard>, thrown: Seq<PlayCard>) -> bool {
    &&& piles.len() == thrown.len() + 1
    &&& forall|i: int| 0 <= i < thrown.len() ==> {
        &&& (#[trigger] piles[i + 1])@ == piles[i]@.push(thrown[i])
        &&& piles[i + 1].spec_frozen() == (piles[i].spec_frozen() || thrown[i].spec_is_wild())
    }
}

/// Throwing cards on the pile freezes it exactly when one of them is wild,
/// and a frozen pile stays frozen: after any run of throws the pile is
/// frozen if and only if it was before or a wild card was thrown.
pub proof fn lemma_frozen_after_throws(piles: Seq<Discard>, thrown: Seq<PlayCard>)
    requires
        is_throw_sequence(piles, thrown),
    ensures
        piles.last().spec_frozen() == (piles[0].spec_frozen() || has_wild(thrown)),
        forall|i: int| 0 <= i < piles.len() && piles[0].spec_frozen() ==> (#[trigger] piles[i]).spec_frozen(),
    decreases thrown.len(),
{
    if thrown.len() > 0 {
        let n = thrown.len() - 1;
        let ps = piles.drop_last();
        let ts = thrown.drop_last();
        assert forall|i: int| 0 <= i < ts.len() implies {
            &&& (#[trigger] ps[i + 1])@ == ps[i]@.push(ts[i])
            &&& ps[i + 1].spec_frozen() == (ps[i].spec_frozen() || ts[i].spec_is_wild())
        } by {
            assert(piles[i + 1] == ps[i + 1]);
        }
        lemma_frozen_after_throws(ps, ts);
        assert(piles[n + 1]@ == piles[n]@.push(thrown[n]));
        assert(piles.last() == piles[n + 1]);
        if has_wild(thrown) && !has_wild(ts) {
            let i = choose|i: int| 0 <= i < thrown.len() && (#[trigger] thrown[i]).spec_is_wild();
            if i < n {
                assert(ts[i] == thrown[i]);
            }
        }
        if has_wild(ts) {
            let i = choose|i: int| 0 <= i < ts.len() && (#[trigger] ts[i]).spec_is_wild();
            assert(thrown[i] == ts[i]);
        }
        assert forall|i: int| 0 <= i < piles.len() && piles[0].spec_frozen() implies (#[trigger] piles[i]).spec_frozen() by {
            if i < piles.len() - 1 {
                assert(piles[i] == ps[i]);
            }
        }
    }
}

} // verus!
