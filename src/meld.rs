use vstd::prelude::*;
use crate::card::{PlayCard, Rank};

verus! {

/// Cards needed before a meld counts as complete (a canasta).
pub const CANASTA_SIZE: usize = 7;

/// Ranks that can form a meld: every rank but the wild ones.
pub open spec fn meldable(r: Rank) -> bool {
    r != Rank::Two && r != Rank::Joker
}

/// The wild cards of `s`, in order.
pub open spec fn wilds_in(s: Seq<PlayCard>) -> Seq<PlayCard>
    decreases s.len(),
{
    if s.len() == 0 {
        Seq::empty()
    } else if s.last().spec_is_wild() {
        wilds_in(s.drop_last()).push(s.last())
    } else {
        wilds_in(s.drop_last())
    }
}

/// The cards of `s` that are not wild, in order.
pub open spec fn naturals_in(s: Seq<PlayCard>) -> Seq<PlayCard>
    decreases s.len(),
{
    if s.len() == 0 {
        Seq::empty()
    } else if s.last().spec_is_wild() {
        naturals_in(s.drop_last())
    } else {
        naturals_in(s.drop_last()).push(s.last())
    }
}

/// Every card of `s` is wild or of rank `r`.
pub open spec fn batch_fits(r: Rank, s: Seq<PlayCard>) -> bool {
    forall|i: int| 0 <= i < s.len() ==> (#[trigger] s[i]).spec_is_wild() || s[i].spec_rank() == r
}

/// A group of one rank's cards, with wild cards standing in, that scores.
pub struct Meld {
    rank: Rank,
    cards: Vec<PlayCard>,
    wilds: Vec<PlayCard>,
}

impl Meld {
    pub closed spec fn spec_rank(&self) -> Rank {
        self.rank
    }

    /// The meld's cards of its own rank.
    pub closed spec fn spec_naturals(&self) -> Seq<PlayCard> {
        self.cards@
    }

    /// The wild cards standing in the meld.
    pub closed spec fn spec_wilds(&self) -> Seq<PlayCard> {
        self.wilds@
    }

    pub open spec fn spec_len(&self) -> int {
        (self.spec_naturals().len() + self.spec_wilds().len()) as int
    }

    /// A meld of a meldable rank whose naturals are of that rank, whose
    /// stand-ins are wild, and which, unless empty, has more naturals than wilds.
    pub open spec fn wf(&self) -> bool {
        &&& meldable(self.spec_rank())
        &&& forall|i: int| 0 <= i < self.spec_naturals().len()
            ==> (#[trigger] self.spec_naturals()[i]).spec_rank() == self.spec_rank()
        &&& forall|i: int| 0 <= i < self.spec_wilds().len()
            ==> (#[trigger] self.spec_wilds()[i]).spec_is_wild()
        &&& (self.spec_len() == 0 || self.spec_wilds().len() < self.spec_naturals().len())
    }

    /// The batch `s` may join this meld: all its cards fit the rank, and
    /// the wild cards stay strictly fewer than the naturals afterwards.
    pub open spec fn admits(&self, s: Seq<PlayCard>) -> bool {
        &&& batch_fits(self.spec_rank(), s)
        &&& self.spec_wilds().len() + wilds_in(s).len()
            < self.spec_naturals().len() + naturals_in(s).len()
    }

    pub fn new(rank: Rank) -> (r: Meld)
        requires
            meldable(rank),
        ensures
            r.spec_rank() == rank,
            r.spec_naturals().len() == 0,
            r.spec_wilds().len() == 0,
            r.wf(),
    {
        Meld { rank, cards: Vec::new(), wilds: Vec::new() }
    }

    pub fn rank(&self) -> (r: Rank)
        ensures
            r == self.spec_rank(),
    {
        self.rank
    }

    pub fn len(&self) -> (r: usize)
        requires
            self.spec_len() <= usize::MAX,
        ensures
            r == self.spec_len(),
    {
        self.cards.len() + self.wilds.len()
    }

    pub fn normal_count(&self) -> (r: usize)
        ensures
            r == self.spec_naturals().len(),
    {
        self.cards.len()
    }

    pub fn wild_count(&self) -> (r: usize)
        ensures
            r == self.spec_wilds().len(),
    {
        self.wilds.len()
    }

    pub fn is_natural(&self) -> (r: bool)
        ensures
            r == (self.spec_wilds().len() == 0),
    {
        self.wilds.len() == 0
    }

    /// A meld is complete (a canasta) once it holds seven cards or more,
    /// however many of them are wild.
    pub fn is_complete(&self) -> (r: bool)
        ensures
            r == (self.spec_len() >= CANASTA_SIZE),
    {
        self.cards.len() >= CANASTA_SIZE || self.wilds.len() >= CANASTA_SIZE - self.cards.len()
    }

    /// Whether the batch `cards` may join this meld.
    pub fn can_add(&self, cards: &Vec<PlayCard>) -> (r: Result<(), ()>)
        ensures
            r is Ok <==> self.admits(cards@),
    {
        let (wild_count, natural_count, fits) = count_batch(self.rank, cards);
        if !fits {
            return Err(());
        }
        let existing_naturals = self.cards.len();
        let existing_wilds = self.wilds.len();
        // wilds after the addition must stay strictly fewer than naturals
        let ratio_ok = if existing_naturals >= existing_wilds {
            wild_count < natural_count || wild_count - natural_count < existing_naturals - existing_wilds
        } else {
            natural_count > wild_count && natural_count - wild_count > existing_wilds - existing_naturals
        };
        if ratio_ok {
            Ok(())
        } else {
            Err(())
        }
    }

    /// Adds an admitted batch: its naturals after the meld's naturals and its
    /// wild cards after the meld's wild cards, each in the batch's order.
    pub fn add(&mut self, cards: &Vec<PlayCard>)
        requires
            old(self).wf(),
            old(self).admits(cards@),
        ensures
            final(self).wf(),
            final(self).spec_rank() == old(self).spec_rank(),
            final(self).spec_naturals() == old(self).spec_naturals() + naturals_in(cards@),
            final(self).spec_wilds() == old(self).spec_wilds() + wilds_in(cards@),
    {
        let ghost old_cards = self.cards@;
        let ghost old_wilds = self.wilds@;
        let mut i: usize = 0;
        while i < cards.len()
            invariant
                i <= cards@.len(),
                meldable(self.rank),
                self.rank == old(self).spec_rank(),
                old(self).wf(),
                old(self).admits(cards@),
                old_cards == old(self).spec_naturals(),
                old_wilds == old(self).spec_wilds(),
                self.cards@ == old_cards + naturals_in(cards@.subrange(0, i as int)),
                self.wilds@ == old_wilds + wilds_in(cards@.subrange(0, i as int)),
            decreases cards@.len() - i,
        {
            assert(cards@.subrange(0, i + 1).drop_last() =~= cards@.subrange(0, i as int));
            let c = cards[i];
            if c.is_wild() {
                self.wilds.push(c);
            } else {
                self.cards.push(c);
            }
            i = i + 1;
        }
        assert(cards@.subrange(0, cards@.len() as int) =~= cards@);
        proof {
            lemma_parts_fit(self.rank, cards@);
            assert forall|k: int| 0 <= k < self.cards@.len()
                implies (#[trigger] self.cards@[k]).spec_rank() == self.rank by {
                if k >= old_cards.len() {
                    assert(self.cards@[k] == naturals_in(cards@)[k - old_cards.len()]);
                }
            }
            assert forall|k: int| 0 <= k < self.wilds@.len()
                implies (#[trigger] self.wilds@[k]).spec_is_wild() by {
                if k >= old_wilds.len() {
                    assert(self.wilds@[k] == wilds_in(cards@)[k - old_wilds.len()]);
                }
            }
        }
    }
}

/// The parts of a batch that fits rank `r`: its naturals are of rank `r`,
/// its wild part is wild, and the two parts together are the batch's size.
pub proof fn lemma_parts_fit(r: Rank, s: Seq<PlayCard>)
    requires
        batch_fits(r, s),
    ensures
        forall|k: int| 0 <= k < naturals_in(s).len() ==> (#[trigger] naturals_in(s)[k]).spec_rank() == r
            && !naturals_in(s)[k].spec_is_wild(),
        forall|k: int| 0 <= k < wilds_in(s).len() ==> (#[trigger] wilds_in(s)[k]).spec_is_wild(),
        naturals_in(s).len() + wilds_in(s).len() == s.len(),
    decreases s.len(),
{
    if s.len() > 0 {
        let t = s.drop_last();
        assert(batch_fits(r, t)) by {
            assert forall|i: int| 0 <= i < t.len() implies (#[trigger] t[i]).spec_is_wild() || t[i].spec_rank() == r by {
                assert(t[i] == s[i]);
            }
        }
        lemma_parts_fit(r, t);
        assert(s[s.len() - 1] == s.last());
    }
}

/// Counts the wild cards and the naturals of a batch, and tells whether
/// every card is wild or of rank `r`.
fn count_batch(r: Rank, cards: &Vec<PlayCard>) -> (res: (usize, usize, bool))
    ensures
        res.0 == wilds_in(cards@).len(),
        res.1 == naturals_in(cards@).len(),
        res.2 == batch_fits(r, cards@),
{
    let mut wild_count: usize = 0;
    let mut natural_count: usize = 0;
    let mut fits = true;
    let mut i: usize = 0;
    while i < cards.len()
        invariant
            i <= cards@.len(),
            wild_count == wilds_in(cards@.subrange(0, i as int)).len(),
            natural_count == naturals_in(cards@.subrange(0, i as int)).len(),
            wild_count + natural_count == i,
            fits == batch_fits(r, cards@.subrange(0, i as int)),
        decreases cards@.len() - i,
    {
        let ghost pre = cards@.subrange(0, i as int);
        let ghost next = cards@.subrange(0, i + 1);
        assert(next.drop_last() =~= pre);
        let c = cards[i];
        if c.is_wild() {
            wild_count = wild_count + 1;
        } else {
            natural_count = natural_count + 1;
            if c.rank() != &r {
                fits = false;
            }
        }
        proof {
            if fits {
                assert forall|k: int| 0 <= k < next.len() implies (#[trigger] next[k]).spec_is_wild() || next[k].spec_rank() == r by {
                    if k < pre.len() {
                        assert(next[k] == pre[k]);
                    }
                }
            } else {
                if !batch_fits(r, pre) {
                    let k = choose|k: int| 0 <= k < pre.len() && !((#[trigger] pre[k]).spec_is_wild() || pre[k].spec_rank() == r);
                    assert(next[k] == pre[k]);
                } else {
                    assert(next[i as int] == c);
                }
            }
        }
        i = i + 1;
    }
    assert(cards@.subrange(0, cards@.len() as int) =~= cards@);
    (wild_count, natural_count, fits)
}

} // verus!
