use vstd::prelude::*;
use vstd::multiset::Multiset;
use crate::card::{PlayCard, Rank};
use crate::deck::{Deck, DECK_SIZE, is_deck_order, ids_of};
use crate::discard::Discard;
use crate::errors::{GameError, PlayerActionError};
use crate::game_builder::GameBuilder;
use crate::meld::{Meld, meldable, wilds_in, naturals_in};
use crate::player::{
    Player, SLOTS, find_first, lemma_find_first, no_red_threes, red_threes_in, without_red_threes,
    stage_run, unstage_run, lemma_red_three_split, lemma_no_red_threes_remove, commit_allowed, slot_of, staged_upto, complete_upto,
};

verus! {

broadcast use vstd::seq_lib::group_to_multiset_ensures;

/// The phase of the current player's turn.
#[derive(Clone, Copy, Debug, PartialEq, Eq, Structural)]
pub enum TurnPhase {
    /// The current player must draw, or take the discard pile.
    Draw,
    /// The current player may meld, and must discard to end the turn.
    Meld,
    /// The turn has ended; play passes to the next player.
    TurnOver,
    /// The game has ended; no action is accepted.
    GameOver,
}

/// Cards dealt to each player: 15 with two players, 13 with three, 11 with more.
pub open spec fn deal_size(players: int) -> int {
    if players == 2 {
        15
    } else if players == 3 {
        13
    } else {
        11
    }
}

/// A card that can start the discard pile: not wild and not a three.
pub open spec fn is_safe_start(c: PlayCard) -> bool {
    !c.spec_is_wild() && !c.spec_is_red_three() && !c.spec_is_black_three()
}

/// Index of the first card from the top of `deck` (its end) that is not a
/// red three, or -1 if there is none.
pub open spec fn first_playable(deck: Seq<PlayCard>) -> int
    decreases deck.len(),
{
    if deck.len() == 0 {
        -1
    } else if !deck.last().spec_is_red_three() {
        deck.len() - 1
    } else {
        first_playable(deck.drop_last())
    }
}

/// The red threes drawn from the top of `deck` before a playable card, in
/// the order they were drawn.
pub open spec fn red_threes_on_top(deck: Seq<PlayCard>) -> Seq<PlayCard>
    decreases deck.len(),
{
    if deck.len() == 0 || !deck.last().spec_is_red_three() {
        Seq::empty()
    } else {
        seq![deck.last()] + red_threes_on_top(deck.drop_last())
    }
}

/// A player whose hand holds a natural card of rank `r`.
pub open spec fn hand_has_natural(hand: Seq<PlayCard>, r: Rank) -> bool {
    exists|i: int| 0 <= i < hand.len() && !(#[trigger] hand[i]).spec_is_wild() && hand[i].spec_rank() == r
}

/// Whether `order` holds each identity of the pack exactly once.
pub fn check_deck_order(order: &Vec<u8>) -> (r: bool)
    ensures
        r == is_deck_order(order@),
{
    if order.len() != DECK_SIZE {
        return false;
    }
    let mut seen: Vec<bool> = Vec::new();
    let mut k: usize = 0;
    while k < DECK_SIZE
        invariant
            k <= DECK_SIZE,
            seen@.len() == k,
            forall|x: int| 0 <= x < k ==> !(#[trigger] seen@[x]),
        decreases DECK_SIZE - k,
    {
        seen.push(false);
        k = k + 1;
    }
    let mut i: usize = 0;
    while i < order.len()
        invariant
            i <= order@.len(),
            order@.len() == DECK_SIZE,
            seen@.len() == DECK_SIZE,
            forall|a: int| 0 <= a < i ==> (#[trigger] order@[a]) < DECK_SIZE,
            order@.subrange(0, i as int).no_duplicates(),
            forall|x: int| 0 <= x < DECK_SIZE ==> (#[trigger] seen@[x] <==> order@.subrange(0, i as int).contains(x as u8)),
        decreases order@.len() - i,
    {
        let v = order[i];
        if v as usize >= DECK_SIZE || seen[v as usize] {
            proof {
                if (v as usize) < DECK_SIZE {
                    let a = choose|a: int| 0 <= a < i && order@.subrange(0, i as int)[a] == v;
                    assert(order@[a] == order@[i as int]);
                }
            }
            return false;
        }
        let ghost seen0 = seen@;
        seen.set(v as usize, true);
        proof {
            let pre = order@.subrange(0, i as int);
            let next = order@.subrange(0, i + 1);
            assert(next =~= pre.push(v));
            assert forall|x: int| 0 <= x < DECK_SIZE implies (#[trigger] seen@[x] <==> next.contains(x as u8)) by {
                assert(seen0[x] <==> pre.contains(x as u8));
                if x == v as int {
                    assert(next[i as int] == v);
                }
                if next.contains(x as u8) {
                    let a = choose|a: int| 0 <= a < next.len() && next[a] == x as u8;
                    if a < i {
                        assert(pre[a] == x as u8);
                    }
                }
                if pre.contains(x as u8) {
                    let a = choose|a: int| 0 <= a < pre.len() && pre[a] == x as u8;
                    assert(next[a] == x as u8);
                }
            }
            assert forall|a: int, b: int| 0 <= a < next.len() && 0 <= b < next.len() && a != b
                implies next[a] != next[b] by {
                if a < i && b < i {
                    assert(next[a] == pre[a] && next[b] == pre[b]);
                } else if a < i {
                    assert(next[a] == pre[a]);
                    assert(pre.contains(next[a]));
                } else if b < i {
                    assert(next[b] == pre[b]);
                    assert(pre.contains(next[b]));
                }
            }
        }
        i = i + 1;
    }
    assert(order@.subrange(0, order@.len() as int) =~= order@);
    true
}

/// The identities a player holds in hand and among the red threes set aside.
pub open spec fn held_ids(p: Player) -> Multiset<u8> {
    ids_of(p.spec_hand()).to_multiset().add(ids_of(p.spec_red_threes()).to_multiset())
}

/// The identities held by all the players of `ps`.
pub open spec fn all_held_ids(ps: Seq<Player>) -> Multiset<u8>
    decreases ps.len(),
{
    if ps.len() == 0 {
        Multiset::empty()
    } else {
        all_held_ids(ps.drop_last()).add(held_ids(ps.last()))
    }
}

/// The identities of every card of a freshly dealt game: in the players'
/// hands and red threes, in the draw pile and in the discard pile.
pub open spec fn dealt_ids(g: CanastaGame) -> Multiset<u8> {
    all_held_ids(g.spec_players()).add(ids_of(g.spec_deck()).to_multiset()).add(
        ids_of(g.spec_discard()).to_multiset(),
    )
}

/// When one player comes to hold `extra` more identities, all the players
/// together hold `extra` more.
pub proof fn lemma_all_held_update(ps: Seq<Player>, p: int, np: Player, extra: Multiset<u8>)
    requires
        0 <= p < ps.len(),
        held_ids(np) == held_ids(ps[p]).add(extra),
    ensures
        all_held_ids(ps.update(p, np)) == all_held_ids(ps).add(extra),
    decreases ps.len(),
{
    let q = ps.update(p, np);
    if p == ps.len() - 1 {
        assert(q.drop_last() =~= ps.drop_last());
        assert(q.last() == np);
        assert(all_held_ids(q) =~= all_held_ids(ps).add(extra));
    } else {
        assert(q.drop_last() =~= ps.drop_last().update(p, np));
        lemma_all_held_update(ps.drop_last(), p, np, extra);
        assert(q.last() == ps.last());
        assert(all_held_ids(q) =~= all_held_ids(ps).add(extra));
    }
}

/// The identities of a sequence with one card more.
pub proof fn lemma_ids_push(s: Seq<PlayCard>, c: PlayCard)
    ensures
        ids_of(s.push(c)).to_multiset() == ids_of(s).to_multiset().insert(c.spec_id()),
{
    assert(ids_of(s.push(c)) =~= ids_of(s).push(c.spec_id()));
}

/// The identities of a pack in a valid order, each once.
pub proof fn lemma_deck_order_ids(s: Seq<u8>)
    requires
        is_deck_order(s),
    ensures
        forall|x: u8| s.to_multiset().count(x) <= 1,
        s.to_multiset().len() == DECK_SIZE,
{
    s.lemma_multiset_has_no_duplicates();
    assert forall|x: u8| s.to_multiset().count(x) <= 1 by {
        if s.to_multiset().contains(x) {
        }
    }
}

/// What staging leaves in hand and what it stages, when it succeeds.
pub open spec fn staged_parts(hand: Seq<PlayCard>, ids: Seq<u8>, rank: Rank) -> (Seq<PlayCard>, Seq<PlayCard>) {
    match stage_run(hand, ids, rank) {
        Ok(parts) => parts,
        Err(_) => (hand, Seq::empty()),
    }
}

/// Once a draw has succeeded, the same player's next draw is refused with
/// `IncorrectTurnPhase`: a successful draw leaves the same player to move,
/// in the meld phase.
pub proof fn lemma_second_draw_refused(before: CanastaGame, after: CanastaGame, player: u8)
    requires
        before.refusal(player, TurnPhase::Draw) is None,
        after.spec_phase() == TurnPhase::Meld,
        after.spec_current() == before.spec_current(),
    ensures
        after.refusal(player, TurnPhase::Draw) == Some(PlayerActionError::IncorrectTurnPhase),
{
}

/// The game: players in turn order, the draw pile, the discard pile and
/// the state of the turn.
pub struct CanastaGame {
    game_id: u32,
    players: Vec<Player>,
    deck: Deck,
    discard: Discard,
    full_game: bool,
    canastas_go_out: u8,
    current_player: u8,
    turn_phase: TurnPhase,
}

impl CanastaGame {
    pub closed spec fn spec_players(&self) -> Seq<Player> {
        self.players@
    }

    pub closed spec fn spec_deck(&self) -> Seq<PlayCard> {
        self.deck@
    }

    pub closed spec fn spec_discard(&self) -> Seq<PlayCard> {
        self.discard@
    }

    pub closed spec fn spec_frozen(&self) -> bool {
        self.discard.spec_frozen()
    }

    pub closed spec fn spec_current(&self) -> u8 {
        self.current_player
    }

    pub closed spec fn spec_phase(&self) -> TurnPhase {
        self.turn_phase
    }

    pub closed spec fn spec_full_game(&self) -> bool {
        self.full_game
    }

    pub closed spec fn spec_canastas_go_out(&self) -> u8 {
        self.canastas_go_out
    }

    /// Two to six players, each well formed with no red three in hand, the
    /// current player one of them, and never a pending turn change.
    pub open spec fn wf(&self) -> bool {
        &&& 2 <= self.spec_players().len() <= 6
        &&& self.spec_current() < self.spec_players().len()
        &&& forall|i: int| 0 <= i < self.spec_players().len() ==> {
            &&& (#[trigger] self.spec_players()[i]).wf()
            &&& no_red_threes(self.spec_players()[i].spec_hand())
        }
        &&& self.spec_phase() != TurnPhase::TurnOver
    }

    /// The hand of the player in position `p`.
    pub open spec fn hand_of(&self, p: int) -> Seq<PlayCard> {
        self.spec_players()[p].spec_hand()
    }

    /// The error with which an action by `player` that needs phase `needed`
    /// is refused, before anything else is looked at; `None` if it is not.
    pub open spec fn refusal(&self, player: u8, needed: TurnPhase) -> Option<PlayerActionError> {
        if player != self.spec_current() {
            Some(PlayerActionError::NotPlayerTurn(self.spec_current()))
        } else if self.spec_phase() == TurnPhase::GameOver {
            Some(PlayerActionError::GameOver)
        } else if self.spec_phase() != needed {
            Some(PlayerActionError::IncorrectTurnPhase)
        } else {
            None
        }
    }

    /// `other` differs from `self` at most in player `p`, the two piles and
    /// the state of the turn.
    pub open spec fn others_same(&self, other: &CanastaGame, p: int) -> bool {
        &&& other.spec_players().len() == self.spec_players().len()
        &&& forall|i: int| 0 <= i < self.spec_players().len() && i != p
            ==> #[trigger] other.spec_players()[i] == self.spec_players()[i]
        &&& other.spec_players()[p].spec_id() == self.spec_players()[p].spec_id()
        &&& other.spec_full_game() == self.spec_full_game()
        &&& other.spec_canastas_go_out() == self.spec_canastas_go_out()
    }

    /// `other` differs from `self` at most in the state of player `p`.
    pub open spec fn same_but_player(&self, other: &CanastaGame, p: int) -> bool {
        &&& other.spec_players().len() == self.spec_players().len()
        &&& forall|i: int| 0 <= i < self.spec_players().len() && i != p
            ==> #[trigger] other.spec_players()[i] == self.spec_players()[i]
        &&& other.spec_players()[p].spec_id() == self.spec_players()[p].spec_id()
        &&& other.spec_deck() == self.spec_deck()
        &&& other.spec_discard() == self.spec_discard()
        &&& other.spec_frozen() == self.spec_frozen()
        &&& other.spec_current() == self.spec_current()
        &&& other.spec_phase() == self.spec_phase()
        &&& other.spec_full_game() == self.spec_full_game()
        &&& other.spec_canastas_go_out() == self.spec_canastas_go_out()
    }

    fn check_turn(&self, player: u8, needed: TurnPhase) -> (r: Result<(), PlayerActionError>)
        ensures
            r is Ok <==> self.refusal(player, needed) is None,
            r matches Err(e) ==> self.refusal(player, needed) == Some(e),
    {
        if player != self.current_player {
            return Err(PlayerActionError::NotPlayerTurn(self.current_player));
        }
        if self.turn_phase == TurnPhase::GameOver {
            return Err(PlayerActionError::GameOver);
        }
        if self.turn_phase != needed {
            return Err(PlayerActionError::IncorrectTurnPhase);
        }
        Ok(())
    }

    /// Deals a game from a full pack: each player gets `deal_size` cards,
    /// one at a time in turn, and sets aside the red threes among them;
    /// then cards are turned up onto the discard pile until one is neither
    /// wild nor a three. Player 0 starts, in the draw phase.
    fn from_deck(players: u8, canastas: u8, full_game: bool, deck: Deck) -> (r: CanastaGame)
        requires
            2 <= players <= 6,
            deck@.len() == DECK_SIZE,
        ensures
            r.wf(),
            r.spec_players().len() == players,
            forall|i: int| 0 <= i < players ==> (#[trigger] r.spec_players()[i]).spec_hand().len()
                + r.spec_players()[i].spec_red_threes().len() == deal_size(players as int),
            forall|i: int| 0 <= i < players ==> (#[trigger] r.spec_players()[i]).spec_id() == i,
            r.spec_discard().len() >= 1,
            r.spec_deck().len() == DECK_SIZE - deal_size(players as int) * players - r.spec_discard().len(),
            r.spec_deck().len() > 0 ==> is_safe_start(r.spec_discard().last()),
            forall|i: int| 0 <= i < r.spec_discard().len() - 1 ==> !is_safe_start(#[trigger] r.spec_discard()[i]),
            r.spec_deck() == deck@.subrange(0, r.spec_deck().len() as int),
            dealt_ids(r) == ids_of(deck@).to_multiset(),
            r.spec_current() == 0,
            r.spec_phase() == TurnPhase::Draw,
            r.spec_full_game() == full_game,
            r.spec_canastas_go_out() == canastas,
    {
        let ghost deck0 = deck@;
        let mut game = CanastaGame {
            game_id: 0,
            players: Vec::new(),
            deck,
            discard: Discard::new(),
            full_game,
            canastas_go_out: canastas,
            current_player: 0,
            turn_phase: TurnPhase::Draw,
        };
        proof {
            assert(ids_of(game.discard@) =~= Seq::<u8>::empty());
            assert(dealt_ids(game) =~= ids_of(deck0).to_multiset());
        }
        let mut i: u8 = 0;
        while i < players
            invariant
                i <= players,
                game.players@.len() == i,
                game.deck@.len() == DECK_SIZE,
                game.discard@.len() == 0,
                !game.discard.spec_frozen(),
                game.current_player == 0,
                game.turn_phase == TurnPhase::Draw,
                game.full_game == full_game,
                game.canastas_go_out == canastas,
                game.deck@ == deck0.subrange(0, game.deck@.len() as int),
                deck0.len() == DECK_SIZE,
                dealt_ids(game) == ids_of(deck0).to_multiset(),
                forall|j: int| 0 <= j < i ==> (#[trigger] game.players@[j]).wf()
                    && game.players@[j].spec_hand().len() == 0
                    && game.players@[j].spec_red_threes().len() == 0
                    && game.players@[j].spec_id() == j,
            decreases players - i,
        {
            let ghost ps0 = game.players@;
            game.players.push(Player::new(i));
            proof {
                let np = game.players@.last();
                assert(game.players@.drop_last() =~= ps0);
                assert(ids_of(np.spec_hand()) =~= Seq::<u8>::empty());
                assert(ids_of(np.spec_red_threes()) =~= Seq::<u8>::empty());
                assert(held_ids(np) =~= Multiset::empty());
                assert(all_held_ids(game.players@) =~= all_held_ids(ps0));
                assert(dealt_ids(game) =~= ids_of(deck0).to_multiset());
            }
            i = i + 1;
        }
        let deal: u8 = if players == 2 {
            15
        } else if players == 3 {
            13
        } else {
            11
        };
        assert(deal * players <= 66) by (nonlinear_arith)
            requires
                deal == deal_size(players as int),
                2 <= players <= 6,
        ;
        let mut round: u8 = 0;
        while round < deal
            invariant
                round <= deal,
                deal == deal_size(players as int),
                deal * players <= 66,
                game.players@.len() == players,
                game.deck@.len() == DECK_SIZE - round * players,
                game.discard@.len() == 0,
                !game.discard.spec_frozen(),
                game.current_player == 0,
                game.turn_phase == TurnPhase::Draw,
                game.full_game == full_game,
                game.canastas_go_out == canastas,
                game.deck@ == deck0.subrange(0, game.deck@.len() as int),
                deck0.len() == DECK_SIZE,
                dealt_ids(game) == ids_of(deck0).to_multiset(),
                forall|j: int| 0 <= j < players ==> (#[trigger] game.players@[j]).wf()
                    && game.players@[j].spec_hand().len() == round
                    && game.players@[j].spec_red_threes().len() == 0
                    && game.players@[j].spec_id() == j,
            decreases deal - round,
        {
            let mut p: usize = 0;
            while p < players as usize
                invariant
                    round < deal,
                    p <= players,
                    deal * players <= 66,
                    game.players@.len() == players,
                    game.deck@.len() == DECK_SIZE - round * players - p,
                    game.discard@.len() == 0,
                    !game.discard.spec_frozen(),
                    game.current_player == 0,
                    game.turn_phase == TurnPhase::Draw,
                    game.full_game == full_game,
                    game.canastas_go_out == canastas,
                game.deck@ == deck0.subrange(0, game.deck@.len() as int),
                deck0.len() == DECK_SIZE,
                dealt_ids(game) == ids_of(deck0).to_multiset(),
                    forall|j: int| 0 <= j < players ==> (#[trigger] game.players@[j]).wf()
                        && game.players@[j].spec_hand().len() == (if j < p { round + 1 } else { round as int })
                        && game.players@[j].spec_red_threes().len() == 0
                        && game.players@[j].spec_id() == j,
                decreases players - p,
            {
                assert(round * players + p < deal * players) by (nonlinear_arith)
                    requires
                        round < deal,
                        p < players,
                ;
                let ghost dk = game.deck@;
                let card = game.deck.take_top();
                let ghost ps0 = game.players@;
                game.players[p].add_hand(card);
                proof {
                    let np = game.players@[p as int];
                    assert(dk =~= game.deck@.push(card));
                    lemma_ids_push(game.deck@, card);
                    lemma_ids_push(ps0[p as int].spec_hand(), card);
                    assert(held_ids(np) =~= held_ids(ps0[p as int]).add(Multiset::singleton(card.spec_id())));
                    assert(game.players@ == ps0.update(p as int, np));
                    lemma_all_held_update(ps0, p as int, np, Multiset::singleton(card.spec_id()));
                    assert(dealt_ids(game) =~= ids_of(deck0).to_multiset());
                }
                assert(game.deck@ =~= deck0.subrange(0, game.deck@.len() as int));
                p = p + 1;
            }
            assert((round + 1) * players == round * players + players) by (nonlinear_arith);
            round = round + 1;
        }
        let mut p: usize = 0;
        while p < players as usize
            invariant
                p <= players,
                game.players@.len() == players,
                deal == deal_size(players as int),
                deal * players <= 66,
                game.deck@.len() == DECK_SIZE - deal * players,
                game.discard@.len() == 0,
                !game.discard.spec_frozen(),
                game.current_player == 0,
                game.turn_phase == TurnPhase::Draw,
                game.full_game == full_game,
                game.canastas_go_out == canastas,
                game.deck@ == deck0.subrange(0, game.deck@.len() as int),
                deck0.len() == DECK_SIZE,
                dealt_ids(game) == ids_of(deck0).to_multiset(),
                forall|j: int| 0 <= j < players ==> (#[trigger] game.players@[j]).wf()
                    && game.players@[j].spec_hand().len() + game.players@[j].spec_red_threes().len() == deal
                    && game.players@[j].spec_id() == j
                    && (j < p ==> no_red_threes(game.players@[j].spec_hand())),
            decreases players - p,
        {
            proof {
                lemma_red_three_split(game.players@[p as int].spec_hand());
            }
            let ghost ps0 = game.players@;
            game.players[p].meld_red_threes();
            proof {
                let op = ps0[p as int];
                let np = game.players@[p as int];
                let h = op.spec_hand();
                assert(ids_of(np.spec_red_threes()) =~= ids_of(op.spec_red_threes()) + ids_of(red_threes_in(h)));
                vstd::seq_lib::lemma_multiset_commutative(ids_of(op.spec_red_threes()), ids_of(red_threes_in(h)));
                assert(held_ids(np) =~= held_ids(op).add(Multiset::empty()));
                assert(game.players@ == ps0.update(p as int, np));
                lemma_all_held_update(ps0, p as int, np, Multiset::empty());
                assert(dealt_ids(game) =~= ids_of(deck0).to_multiset());
            }
            p = p + 1;
        }
        let ghost dealt_deck = game.deck@;
        let mut found = false;
        while !found
            invariant
                game.players@.len() == players,
                game.deck@.len() + game.discard@.len() == dealt_deck.len(),
                dealt_deck.len() == DECK_SIZE - deal * players,
                deal * players <= 66,
                found ==> game.discard@.len() >= 1 && is_safe_start(game.discard@.last()),
                !found ==> forall|k: int| 0 <= k < game.discard@.len() ==> !is_safe_start(#[trigger] game.discard@[k]),
                found ==> forall|k: int| 0 <= k < game.discard@.len() - 1 ==> !is_safe_start(#[trigger] game.discard@[k]),
                forall|j: int| 0 <= j < players ==> (#[trigger] game.players@[j]).wf()
                    && game.players@[j].spec_hand().len() + game.players@[j].spec_red_threes().len() == deal
                    && game.players@[j].spec_id() == j
                    && no_red_threes(game.players@[j].spec_hand()),
                game.current_player == 0,
                game.turn_phase == TurnPhase::Draw,
                game.full_game == full_game,
                game.canastas_go_out == canastas,
                game.deck@ == deck0.subrange(0, game.deck@.len() as int),
                deck0.len() == DECK_SIZE,
                dealt_ids(game) == ids_of(deck0).to_multiset(),
            ensures
                found || game.deck@.len() == 0,
            decreases game.deck@.len() + (if found { 0int } else { 1int }),
        {
            let ghost dk = game.deck@;
            match game.deck.draw() {
                Some(card) => {
                    assert(game.deck@ =~= deck0.subrange(0, game.deck@.len() as int));
                    let safe = !(card.is_wild() || card.is_red_three() || card.is_black_three());
                    let ghost before = game.discard@;
                    game.discard.throw(card);
                    proof {
                        assert(dk =~= game.deck@.push(card));
                        lemma_ids_push(game.deck@, card);
                        lemma_ids_push(before, card);
                        assert(dealt_ids(game) =~= ids_of(deck0).to_multiset());
                        assert forall|k: int| 0 <= k < game.discard@.len() - 1 implies !is_safe_start(#[trigger] game.discard@[k]) by {
                            assert(game.discard@[k] == before[k]);
                        }
                    }
                    if safe {
                        found = true;
                    }
                },
                None => {
                    // every card left was wild or a three; the pile cannot start safely
                    break;
                },
            }
        }
        proof {
            if game.deck@.len() > 0 {
                assert(found);
            }
            assert(game.discard@.len() >= 1);
        }
        game
    }
    /// Nothing observable differs between `self` and `other`.
    pub open spec fn unchanged(&self, other: &CanastaGame) -> bool {
        &&& other.spec_players().len() == self.spec_players().len()
        &&& forall|i: int| 0 <= i < self.spec_players().len()
            ==> (#[trigger] other.spec_players()[i]).same_state(&self.spec_players()[i])
        &&& other.spec_deck() == self.spec_deck()
        &&& other.spec_discard() == self.spec_discard()
        &&& other.spec_frozen() == self.spec_frozen()
        &&& other.spec_current() == self.spec_current()
        &&& other.spec_phase() == self.spec_phase()
        &&& other.spec_full_game() == self.spec_full_game()
        &&& other.spec_canastas_go_out() == self.spec_canastas_go_out()
    }

    /// A new game for `players` players with a freshly shuffled pack; see
    /// `with_deck_order` for how it is dealt.
    pub fn new(players: u8, canastas: u8, full_game: bool) -> (r: CanastaGame)
        requires
            2 <= players <= 6,
        ensures
            r.wf(),
            r.spec_players().len() == players,
            forall|i: int| 0 <= i < players ==> (#[trigger] r.spec_players()[i]).spec_hand().len()
                + r.spec_players()[i].spec_red_threes().len() == deal_size(players as int),
            r.spec_discard().len() >= 1,
            r.spec_deck().len() == DECK_SIZE - deal_size(players as int) * players - r.spec_discard().len(),
            r.spec_deck().len() > 0 ==> is_safe_start(r.spec_discard().last()),
            forall|x: u8| dealt_ids(r).count(x) <= 1,
            dealt_ids(r).len() == DECK_SIZE,
            r.spec_current() == 0,
            r.spec_phase() == TurnPhase::Draw,
            r.spec_full_game() == full_game,
            r.spec_canastas_go_out() == canastas,
    {
        let deck = Deck::new();
        let g = CanastaGame::from_deck(players, canastas, full_game, deck);
        proof {
            lemma_deck_order_ids(ids_of(deck@));
        }
        g
    }

    /// A game dealt from a pack in the given order of identities (the last
    /// one is drawn first): each player gets 15 cards with two players, 13
    /// with three and 11 with more, one at a time in turn, and sets aside
    /// the red threes among them; then cards are turned up onto the discard
    /// pile until one is neither wild nor a three. Player 0 starts, in the
    /// draw phase. `None` unless there are two to six players and `order`
    /// holds each identity of the pack once.
    pub fn with_deck_order(players: u8, canastas: u8, full_game: bool, order: Vec<u8>) -> (r: Option<CanastaGame>)
        ensures
            r is Some <==> 2 <= players <= 6 && is_deck_order(order@),
            r matches Some(g) ==> {
                &&& g.wf()
                &&& g.spec_players().len() == players
                &&& forall|i: int| 0 <= i < players ==> (#[trigger] g.spec_players()[i]).spec_hand().len()
                    + g.spec_players()[i].spec_red_threes().len() == deal_size(players as int)
                &&& g.spec_discard().len() >= 1
                &&& g.spec_deck().len() == DECK_SIZE - deal_size(players as int) * players - g.spec_discard().len()
                &&& g.spec_deck().len() > 0 ==> is_safe_start(g.spec_discard().last())
                &&& forall|i: int| 0 <= i < g.spec_discard().len() - 1 ==> !is_safe_start(#[trigger] g.spec_discard()[i])
                &&& ids_of(g.spec_deck()) == order@.subrange(0, g.spec_deck().len() as int)
                &&& forall|x: u8| dealt_ids(g).count(x) <= 1
                &&& dealt_ids(g).len() == DECK_SIZE
                &&& g.spec_current() == 0
                &&& g.spec_phase() == TurnPhase::Draw
                &&& g.spec_full_game() == full_game
                &&& g.spec_canastas_go_out() == canastas
            },
    {
        if players < 2 || players > 6 {
            return None;
        }
        if !check_deck_order(&order) {
            return None;
        }
        let deck = Deck::from_order(&order);
        let g = CanastaGame::from_deck(players, canastas, full_game, deck);
        proof {
            lemma_deck_order_ids(order@);
        }
        assert(ids_of(g.spec_deck()) =~= order@.subrange(0, g.spec_deck().len() as int));
        Some(g)
    }

    /// Ends the game: no further action is accepted.
    pub fn end_game(&mut self)
        requires
            old(self).wf(),
        ensures
            final(self).wf(),
            final(self).spec_phase() == TurnPhase::GameOver,
            final(self).spec_players() == old(self).spec_players(),
            final(self).spec_deck() == old(self).spec_deck(),
            final(self).spec_discard() == old(self).spec_discard(),
            final(self).spec_frozen() == old(self).spec_frozen(),
            final(self).spec_current() == old(self).spec_current(),
            final(self).spec_full_game() == old(self).spec_full_game(),
            final(self).spec_canastas_go_out() == old(self).spec_canastas_go_out(),
    {
        self.turn_phase = TurnPhase::GameOver;
    }

    /// A builder for the settings of a new game.
    pub fn builder() -> (r: GameBuilder)
        ensures
            r.spec_players() is None,
            r.spec_canastas() is None,
            r.spec_full_game() is None,
    {
        GameBuilder::new()
    }

    /// A single hand for two players, one canasta needed to go out.
    pub fn quick_hand() -> (r: CanastaGame)
        ensures
            r.wf(),
            r.spec_players().len() == 2,
            forall|i: int| 0 <= i < 2 ==> (#[trigger] r.spec_players()[i]).spec_hand().len()
                + r.spec_players()[i].spec_red_threes().len() == 15,
            r.spec_current() == 0,
            r.spec_phase() == TurnPhase::Draw,
            !r.spec_full_game(),
            r.spec_canastas_go_out() == 1,
    {
        CanastaGame::new(2, 1, false)
    }

    /// The number of the player whose turn it is; it starts at 0 and moves
    /// on each time a player discards.
    pub fn get_current_player(&self) -> (r: u8)
        ensures
            r == self.spec_current(),
    {
        self.current_player
    }

    pub fn get_phase(&self) -> (r: TurnPhase)
        ensures
            r == self.spec_phase(),
    {
        self.turn_phase
    }

    pub fn player_count(&self) -> (r: usize)
        ensures
            r == self.spec_players().len(),
    {
        self.players.len()
    }

    /// Cards left in the draw pile.
    pub fn deck_remaining(&self) -> (r: usize)
        ensures
            r == self.spec_deck().len(),
    {
        self.deck.remaining()
    }

    /// The discard pile, bottom first.
    pub fn discard_pile(&self) -> (r: &[PlayCard])
        ensures
            r@ == self.spec_discard(),
    {
        self.discard.cards()
    }

    pub fn is_discard_frozen(&self) -> (r: bool)
        ensures
            r == self.spec_frozen(),
    {
        self.discard.is_frozen()
    }

    pub fn is_full_game(&self) -> (r: bool)
        ensures
            r == self.spec_full_game(),
    {
        self.full_game
    }

    pub fn canastas_to_go_out(&self) -> (r: u8)
        ensures
            r == self.spec_canastas_go_out(),
    {
        self.canastas_go_out
    }

    /// The hand of player `player`, or `InvalidPlayer` if there is no such player.
    pub fn get_hand(&self, player: u8) -> (r: Result<&[PlayCard], GameError>)
        ensures
            player < self.spec_players().len() ==> (r matches Ok(h) && h@ == self.hand_of(player as int)),
            player >= self.spec_players().len() ==> r == Err::<&[PlayCard], GameError>(GameError::InvalidPlayer),
    {
        if (player as usize) < self.players.len() {
            Ok(self.players[player as usize].get_hand())
        } else {
            Err(GameError::InvalidPlayer)
        }
    }

    /// The red threes player `player` has set aside.
    pub fn get_red_threes(&self, player: u8) -> (r: Result<&[PlayCard], GameError>)
        ensures
            player < self.spec_players().len() ==> (r matches Ok(h)
                && h@ == self.spec_players()[player as int].spec_red_threes()),
            player >= self.spec_players().len() ==> r == Err::<&[PlayCard], GameError>(GameError::InvalidPlayer),
    {
        if (player as usize) < self.players.len() {
            Ok(self.players[player as usize].get_red_threes())
        } else {
            Err(GameError::InvalidPlayer)
        }
    }

    /// The cards player `player` has staged for `rank`; empty for Joker.
    pub fn get_staged(&self, player: u8, rank: Rank) -> (r: Result<&[PlayCard], GameError>)
        requires
            self.wf(),
        ensures
            player < self.spec_players().len() && rank != Rank::Joker ==> (r matches Ok(h)
                && h@ == self.spec_players()[player as int].spec_staged()[slot_of(rank)]),
            player < self.spec_players().len() && rank == Rank::Joker ==> (r matches Ok(h) && h@.len() == 0),
            player >= self.spec_players().len() ==> r == Err::<&[PlayCard], GameError>(GameError::InvalidPlayer),
    {
        if (player as usize) >= self.players.len() {
            return Err(GameError::InvalidPlayer);
        }
        if rank == Rank::Joker {
            let empty: &[PlayCard] = &[];
            return Ok(empty);
        }
        Ok(self.players[player as usize].view_temp_meld(rank))
    }

    /// The meld player `player` has committed for `rank`, if any.
    pub fn get_meld(&self, player: u8, rank: Rank) -> (r: Result<Option<&Meld>, GameError>)
        requires
            self.wf(),
        ensures
            player >= self.spec_players().len() ==> r == Err::<Option<&Meld>, GameError>(GameError::InvalidPlayer),
            player < self.spec_players().len() && rank == Rank::Joker ==> r == Ok::<Option<&Meld>, GameError>(None),
            player < self.spec_players().len() && rank != Rank::Joker ==> (r matches Ok(o) && match o {
                Some(m) => self.spec_players()[player as int].spec_melds()[slot_of(rank)] == Some(*m),
                None => self.spec_players()[player as int].spec_melds()[slot_of(rank)] is None,
            }),
    {
        if (player as usize) >= self.players.len() {
            return Err(GameError::InvalidPlayer);
        }
        if rank == Rank::Joker {
            return Ok(None);
        }
        Ok(self.players[player as usize].view_meld(rank))
    }

    /// Draws for `player`: cards come off the pack until one is not a red
    /// three; the red threes are set aside and the card goes to the hand,
    /// and the turn moves to the meld phase. If the pack runs out first the
    /// game is over.
    pub fn draw(&mut self, player: u8) -> (r: Result<PlayCard, PlayerActionError>)
        requires
            old(self).wf(),
        ensures
            final(self).wf(),
            old(self).refusal(player, TurnPhase::Draw) matches Some(e) ==> r == Err::<PlayCard, PlayerActionError>(e)
                && old(self).unchanged(final(self)),
            old(self).refusal(player, TurnPhase::Draw) is None ==> {
                let p = player as int;
                let d = old(self).spec_deck();
                let j = first_playable(d);
                let before = old(self).spec_players()[p];
                let after = final(self).spec_players()[p];
                &&& old(self).others_same(final(self), p)
                &&& final(self).spec_discard() == old(self).spec_discard()
                &&& final(self).spec_frozen() == old(self).spec_frozen()
                &&& after.spec_red_threes() == before.spec_red_threes() + red_threes_on_top(d)
                &&& after.spec_staged() == before.spec_staged()
                &&& after.spec_melds() == before.spec_melds()
                &&& j >= 0 ==> {
                    &&& r == Ok::<PlayCard, PlayerActionError>(d[j])
                    &&& final(self).spec_deck() == d.subrange(0, j)
                    &&& after.spec_hand() == before.spec_hand().push(d[j])
                    &&& final(self).spec_phase() == TurnPhase::Meld
                    &&& final(self).spec_current() == old(self).spec_current()
                }
                &&& j < 0 ==> {
                    &&& r == Err::<PlayCard, PlayerActionError>(PlayerActionError::GameOver)
                    &&& final(self).spec_deck().len() == 0
                    &&& after.spec_hand() == before.spec_hand()
                    &&& final(self).spec_phase() == TurnPhase::GameOver
                }
            },
    {
        match self.check_turn(player, TurnPhase::Draw) {
            Ok(()) => {},
            Err(e) => {
                return Err(e);
            },
        }
        let p = player as usize;
        let ghost d0 = self.deck@;
        let ghost red0 = self.players@[p as int].spec_red_threes();
        let ghost drawn: Seq<PlayCard> = Seq::empty();
        loop
            invariant
                old(self).wf(),
                old(self).refusal(player, TurnPhase::Draw) is None,
                p == player,
                p < self.players@.len(),
                d0 == old(self).spec_deck(),
                red0 == old(self).spec_players()[p as int].spec_red_threes(),
                self.deck@ == d0.subrange(0, self.deck@.len() as int),
                self.deck@.len() <= d0.len(),
                first_playable(d0) == first_playable(self.deck@),
                red_threes_on_top(d0) == drawn + red_threes_on_top(self.deck@),
                self.players@[p as int].spec_red_threes() == red0 + drawn,
                self.players@[p as int].spec_hand() == old(self).spec_players()[p as int].spec_hand(),
                self.players@[p as int].spec_staged() == old(self).spec_players()[p as int].spec_staged(),
                self.players@[p as int].spec_melds() == old(self).spec_players()[p as int].spec_melds(),
                self.players@[p as int].spec_id() == old(self).spec_players()[p as int].spec_id(),
                self.players@.len() == old(self).spec_players().len(),
                forall|i: int| 0 <= i < self.players@.len() && i != p ==> #[trigger] self.players@[i] == old(self).spec_players()[i],
                self.discard@ == old(self).spec_discard(),
                self.discard.spec_frozen() == old(self).spec_frozen(),
                self.current_player == old(self).spec_current(),
                self.turn_phase == old(self).spec_phase(),
                self.full_game == old(self).spec_full_game(),
                self.canastas_go_out == old(self).spec_canastas_go_out(),
            decreases self.deck@.len(),
        {
            let ghost cur = self.deck@;
            match self.deck.draw() {
                None => {
                    proof {
                        assert(first_playable(cur) == -1);
                        assert(red_threes_on_top(cur) =~= Seq::<PlayCard>::empty());
                        assert(drawn + Seq::<PlayCard>::empty() =~= drawn);
                    }
                    self.end_game();
                    return Err(PlayerActionError::GameOver);
                },
                Some(c) => {
                    assert(self.deck@ =~= d0.subrange(0, self.deck@.len() as int));
                    if c.is_red_three() {
                        self.players[p].add_red_three(c);
                        proof {
                            assert(red_threes_on_top(cur) == seq![c] + red_threes_on_top(self.deck@));
                            assert(drawn + red_threes_on_top(cur) =~= drawn.push(c) + red_threes_on_top(self.deck@));
                            drawn = drawn.push(c);
                        }
                    } else {
                        proof {
                            assert(red_threes_on_top(cur) =~= Seq::<PlayCard>::empty());
                            assert(drawn + Seq::<PlayCard>::empty() =~= drawn);
                            assert(c == d0[self.deck@.len() as int]);
                        }
                        self.players[p].add_hand(c);
                        self.turn_phase = TurnPhase::Meld;
                        return Ok(c);
                    }
                },
            }
        }
    }
    /// Player `p` may take the discard pile: it is not empty, and if it is
    /// frozen its top card is a natural, not a red three, and the player
    /// holds a natural of the same rank to meld it with.
    pub open spec fn may_take_pile(&self, p: int) -> bool {
        &&& self.spec_discard().len() > 0
        &&& self.spec_frozen() ==> {
            let top = self.spec_discard().last();
            &&& !top.spec_is_wild()
            &&& !top.spec_is_red_three()
            &&& hand_has_natural(self.hand_of(p), top.spec_rank())
        }
    }

    /// Discards the card with identity `card_id` from `player`'s hand onto
    /// the pile, which ends the turn: staged cards go back to the hand; if
    /// the hand is then empty and the player has the canastas needed, the
    /// game is over, and otherwise the next player is to draw.
    pub fn discard(&mut self, player: u8, card_id: u8) -> (r: Result<PlayCard, PlayerActionError>)
        requires
            old(self).wf(),
        ensures
            final(self).wf(),
            old(self).refusal(player, TurnPhase::Meld) matches Some(e) ==> r == Err::<PlayCard, PlayerActionError>(e)
                && old(self).unchanged(final(self)),
            old(self).refusal(player, TurnPhase::Meld) is None ==> {
                let p = player as int;
                let before = old(self).spec_players()[p];
                let after = final(self).spec_players()[p];
                let k = find_first(before.spec_hand(), card_id);
                &&& k < 0 ==> r == Err::<PlayCard, PlayerActionError>(PlayerActionError::InvalidCard)
                    && old(self).unchanged(final(self))
                &&& k >= 0 ==> {
                    let c = before.spec_hand()[k];
                    let left = before.spec_hand().remove(k) + staged_upto(before.spec_staged(), SLOTS as int);
                    let goes_out = left.len() == 0
                        && complete_upto(before.spec_melds(), SLOTS as int) >= old(self).spec_canastas_go_out();
                    &&& r == Ok::<PlayCard, PlayerActionError>(c)
                    &&& old(self).others_same(final(self), p)
                    &&& final(self).spec_discard() == old(self).spec_discard().push(c)
                    &&& final(self).spec_frozen() == (old(self).spec_frozen() || c.spec_is_wild())
                    &&& final(self).spec_deck() == old(self).spec_deck()
                    &&& after.spec_hand() == left
                    &&& forall|i: int| 0 <= i < SLOTS ==> (#[trigger] after.spec_staged()[i]).len() == 0
                    &&& after.spec_melds() == before.spec_melds()
                    &&& after.spec_red_threes() == before.spec_red_threes()
                    &&& goes_out ==> final(self).spec_phase() == TurnPhase::GameOver
                        && final(self).spec_current() == old(self).spec_current()
                    &&& !goes_out ==> final(self).spec_phase() == TurnPhase::Draw
                        && final(self).spec_current() == (old(self).spec_current() + 1) % (old(self).spec_players().len() as int)
                }
            },
    {
        match self.check_turn(player, TurnPhase::Meld) {
            Ok(()) => {},
            Err(e) => {
                return Err(e);
            },
        }
        let p = player as usize;
        if !self.players[p].has_card(card_id) {
            return Err(PlayerActionError::InvalidCard);
        }
        let ghost h0 = self.players@[p as int].spec_hand();
        proof {
            lemma_find_first(h0, card_id);
        }
        let card = match self.players[p].discard(card_id) {
            Some(c) => c,
            None => {
                return Err(PlayerActionError::InvalidCard);
            },
        };
        proof {
            lemma_no_red_threes_remove(h0, find_first(h0, card_id));
        }
        let ghost mid = self.players@[p as int];
        assert(card == h0[find_first(h0, card_id)]);
        assert(mid.spec_hand() == h0.remove(find_first(h0, card_id)));
        self.discard.throw(card);
        self.players[p].clear_temp_meld();
        let ghost after = self.players@[p as int];
        assert(after.spec_hand() == mid.spec_hand() + staged_upto(mid.spec_staged(), SLOTS as int));
        assert(after.spec_melds() == old(self).spec_players()[p as int].spec_melds());
        let hand_empty = self.players[p].get_hand().len() == 0;
        let canastas = self.players[p].canasta_count();
        if hand_empty && canastas >= self.canastas_go_out as usize {
            self.turn_phase = TurnPhase::GameOver;
        } else {
            let next: usize = (self.current_player as usize + 1) % self.players.len();
            assert(next < 6);
            self.current_player = next as u8;
            assert(self.current_player as int == (old(self).spec_current() + 1) % (old(self).spec_players().len() as int));
            self.turn_phase = TurnPhase::Draw;
        }
        assert(self.players@[p as int] == after);
        Ok(card)
    }

    /// Stages the cards with identities `cards` from `player`'s hand for a
    /// meld of `rank`, all or none; any card that cannot be staged refuses
    /// the whole request with `InvalidCard`.
    pub fn meld(&mut self, player: u8, cards: Vec<u8>, rank: Rank) -> (r: Result<(), PlayerActionError>)
        requires
            old(self).wf(),
        ensures
            final(self).wf(),
            old(self).refusal(player, TurnPhase::Meld) matches Some(e) ==> r == Err::<(), PlayerActionError>(e)
                && old(self).unchanged(final(self)),
            old(self).refusal(player, TurnPhase::Meld) is None ==> {
                let p = player as int;
                let before = old(self).spec_players()[p];
                let after = final(self).spec_players()[p];
                let ok = meldable(rank) && stage_run(before.spec_hand(), cards@, rank) is Ok;
                let (rem, picked) = staged_parts(before.spec_hand(), cards@, rank);
                &&& !ok ==> r == Err::<(), PlayerActionError>(PlayerActionError::InvalidCard)
                    && old(self).unchanged(final(self))
                &&& ok ==> {
                    &&& r is Ok
                    &&& old(self).same_but_player(final(self), p)
                    &&& after.spec_hand() == rem
                    &&& after.spec_staged() == before.spec_staged().update(
                        slot_of(rank),
                        before.spec_staged()[slot_of(rank)] + picked,
                    )
                    &&& after.spec_melds() == before.spec_melds()
                    &&& after.spec_red_threes() == before.spec_red_threes()
                }
            },
    {
        match self.check_turn(player, TurnPhase::Meld) {
            Ok(()) => {},
            Err(e) => {
                return Err(e);
            },
        }
        let p = player as usize;
        match self.players[p].meld(cards, rank) {
            Ok(()) => Ok(()),
            Err(_) => Err(PlayerActionError::InvalidCard),
        }
    }

    /// Returns the cards with identities `cards` from `player`'s staging
    /// slots to the hand. Every card found goes back; if any is not staged
    /// the result is `InvalidCard`.
    pub fn unstage(&mut self, player: u8, cards: Vec<u8>) -> (r: Result<(), PlayerActionError>)
        requires
            old(self).wf(),
        ensures
            final(self).wf(),
            old(self).refusal(player, TurnPhase::Meld) matches Some(e) ==> r == Err::<(), PlayerActionError>(e)
                && old(self).unchanged(final(self)),
            old(self).refusal(player, TurnPhase::Meld) is None ==> {
                let p = player as int;
                let before = old(self).spec_players()[p];
                let after = final(self).spec_players()[p];
                let (st, h, f) = unstage_run(before.spec_staged(), before.spec_hand(), cards@);
                &&& old(self).same_but_player(final(self), p)
                &&& after.spec_staged() == st
                &&& after.spec_hand() == h
                &&& after.spec_melds() == before.spec_melds()
                &&& after.spec_red_threes() == before.spec_red_threes()
                &&& (r is Ok <==> f.len() == 0)
                &&& r is Err ==> r == Err::<(), PlayerActionError>(PlayerActionError::InvalidCard)
            },
    {
        match self.check_turn(player, TurnPhase::Meld) {
            Ok(()) => {},
            Err(e) => {
                return Err(e);
            },
        }
        let p = player as usize;
        match self.players[p].remove_from_temp(cards) {
            Ok(()) => Ok(()),
            Err(_) => Err(PlayerActionError::InvalidCard),
        }
    }

    /// Commits the cards `player` has staged for `rank` to that rank's meld.
    /// A new meld needs at least three cards, and wild cards must stay
    /// fewer than naturals; otherwise `InvalidCard`, with the cards left staged.
    pub fn commit(&mut self, player: u8, rank: Rank) -> (r: Result<(), PlayerActionError>)
        requires
            old(self).wf(),
        ensures
            final(self).wf(),
            old(self).refusal(player, TurnPhase::Meld) matches Some(e) ==> r == Err::<(), PlayerActionError>(e)
                && old(self).unchanged(final(self)),
            old(self).refusal(player, TurnPhase::Meld) is None ==> {
                let p = player as int;
                let before = old(self).spec_players()[p];
                let after = final(self).spec_players()[p];
                let i = slot_of(rank);
                let batch = before.spec_staged()[i];
                let ok = meldable(rank) && commit_allowed(before.spec_melds()[i], rank, batch);
                &&& !ok ==> r == Err::<(), PlayerActionError>(PlayerActionError::InvalidCard)
                    && old(self).unchanged(final(self))
                &&& ok ==> {
                    &&& r is Ok
                    &&& old(self).same_but_player(final(self), p)
                    &&& after.spec_hand() == before.spec_hand()
                    &&& after.spec_red_threes() == before.spec_red_threes()
                    &&& after.spec_staged() == before.spec_staged().update(i, Seq::empty())
                    &&& after.spec_melds() == before.spec_melds().update(i, after.spec_melds()[i])
                    &&& after.spec_melds()[i] matches Some(m) && {
                        &&& m.spec_rank() == rank
                        &&& m.spec_wilds().len() < m.spec_naturals().len()
                        &&& before.spec_melds()[i] matches Some(o) ==> {
                            &&& m.spec_naturals() == o.spec_naturals() + naturals_in(batch)
                            &&& m.spec_wilds() == o.spec_wilds() + wilds_in(batch)
                        }
                        &&& before.spec_melds()[i] is None ==> {
                            &&& m.spec_naturals() == naturals_in(batch)
                            &&& m.spec_wilds() == wilds_in(batch)
                        }
                    }
                }
            },
    {
        match self.check_turn(player, TurnPhase::Meld) {
            Ok(()) => {},
            Err(e) => {
                return Err(e);
            },
        }
        let p = player as usize;
        match self.players[p].commit_meld(rank) {
            Ok(()) => Ok(()),
            Err(()) => Err(PlayerActionError::InvalidCard),
        }
    }

    /// Takes the whole discard pile into `player`'s hand instead of drawing;
    /// red threes in it are set aside, the pile is left empty and unfrozen,
    /// and the turn moves to the meld phase. Refused with `InvalidCard` when
    /// the pile may not be taken (see `may_take_pile`).
    pub fn take_discard(&mut self, player: u8) -> (r: Result<Vec<PlayCard>, PlayerActionError>)
        requires
            old(self).wf(),
        ensures
            final(self).wf(),
            old(self).refusal(player, TurnPhase::Draw) matches Some(e) ==> r == Err::<Vec<PlayCard>, PlayerActionError>(e)
                && old(self).unchanged(final(self)),
            old(self).refusal(player, TurnPhase::Draw) is None ==> {
                let p = player as int;
                let before = old(self).spec_players()[p];
                let after = final(self).spec_players()[p];
                let gathered = before.spec_hand() + old(self).spec_discard();
                &&& !old(self).may_take_pile(p) ==> r == Err::<Vec<PlayCard>, PlayerActionError>(PlayerActionError::InvalidCard)
                    && old(self).unchanged(final(self))
                &&& old(self).may_take_pile(p) ==> {
                    &&& r matches Ok(v) && v@ == old(self).spec_discard()
                    &&& final(self).spec_players().len() == old(self).spec_players().len()
                    &&& forall|i: int| 0 <= i < old(self).spec_players().len() && i != p
                        ==> #[trigger] final(self).spec_players()[i] == old(self).spec_players()[i]
                    &&& final(self).spec_discard().len() == 0
                    &&& !final(self).spec_frozen()
                    &&& final(self).spec_deck() == old(self).spec_deck()
                    &&& final(self).spec_phase() == TurnPhase::Meld
                    &&& final(self).spec_current() == old(self).spec_current()
                    &&& after.spec_hand() == without_red_threes(gathered)
                    &&& after.spec_red_threes() == before.spec_red_threes() + red_threes_in(gathered)
                    &&& after.spec_staged() == before.spec_staged()
                    &&& after.spec_melds() == before.spec_melds()
                    &&& after.spec_id() == before.spec_id()
                }
            },
    {
        match self.check_turn(player, TurnPhase::Draw) {
            Ok(()) => {},
            Err(e) => {
                return Err(e);
            },
        }
        let p = player as usize;
        let top = match self.discard.top() {
            Some(c) => *c,
            None => {
                return Err(PlayerActionError::InvalidCard);
            },
        };
        if self.discard.is_frozen() {
            if top.is_wild() || top.is_red_three() || !self.players[p].has_natural(*top.rank()) {
                return Err(PlayerActionError::InvalidCard);
            }
        }
        let pile = self.discard.take();
        let for_hand = crate::player::copy_cards(pile.as_slice());
        self.players[p].take_cards(for_hand);
        self.players[p].meld_red_threes();
        self.turn_phase = TurnPhase::Meld;
        Ok(pile)
    }
}

} // verus!
