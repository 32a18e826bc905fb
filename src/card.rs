use vstd::prelude::*;

verus! {

/// The four suits of a pack.
#[derive(Clone, Copy, Debug, PartialEq, Eq, Hash, Structural)]
pub enum Suit {
    Hearts,
    Diamonds,
    Clubs,
    Spades,
}

/// Card ranks, ordered from Ace (1) to Joker (14).
#[derive(Clone, Copy, Debug, PartialEq, Eq, PartialOrd, Ord, Hash, Structural)]
pub enum Rank {
    Ace,
    Two,
    Three,
    Four,
    Five,
    Six,
    Seven,
    Eight,
    Nine,
    Ten,
    Jack,
    Queen,
    King,
    Joker,
}

/// The number of a rank: Ace is 1, King is 13, Joker is 14.
pub open spec fn rank_number(r: Rank) -> int {
    match r {
        Rank::Ace => 1,
        Rank::Two => 2,
        Rank::Three => 3,
        Rank::Four => 4,
        Rank::Five => 5,
        Rank::Six => 6,
        Rank::Seven => 7,
        Rank::Eight => 8,
        Rank::Nine => 9,
        Rank::Ten => 10,
        Rank::Jack => 11,
        Rank::Queen => 12,
        Rank::King => 13,
        Rank::Joker => 14,
    }
}

/// The rank with number `n`; every number outside 1..=13 reads as Joker.
pub open spec fn rank_of_number(n: int) -> Rank {
    if n == 1 { Rank::Ace }
    else if n == 2 { Rank::Two }
    else if n == 3 { Rank::Three }
    else if n == 4 { Rank::Four }
    else if n == 5 { Rank::Five }
    else if n == 6 { Rank::Six }
    else if n == 7 { Rank::Seven }
    else if n == 8 { Rank::Eight }
    else if n == 9 { Rank::Nine }
    else if n == 10 { Rank::Ten }
    else if n == 11 { Rank::Jack }
    else if n == 12 { Rank::Queen }
    else if n == 13 { Rank::King }
    else { Rank::Joker }
}

/// The suit with index `n` (Hearts 0, Diamonds 1, Clubs 2, Spades 3).
pub open spec fn suit_of_index(n: int) -> Option<Suit> {
    if n == 0 { Some(Suit::Hearts) }
    else if n == 1 { Some(Suit::Diamonds) }
    else if n == 2 { Some(Suit::Clubs) }
    else if n == 3 { Some(Suit::Spades) }
    else { None }
}

pub open spec fn is_red(s: Suit) -> bool {
    s == Suit::Hearts || s == Suit::Diamonds
}

/// Point value of a card: Ace and Two 20, black Three 5, red Three 100,
/// Four to Seven 5, Eight to King 10, Joker 50.
pub open spec fn card_value(s: Suit, r: Rank) -> int {
    let n = rank_number(r);
    if n <= 2 { 20 }
    else if n == 3 { if is_red(s) { 100 } else { 5 } }
    else if n <= 7 { 5 }
    else if n <= 13 { 10 }
    else { 50 }
}

impl Rank {
    /// The rank's number, 1 for Ace up to 14 for Joker.
    pub fn number(&self) -> (r: u8)
        ensures
            r as int == rank_number(*self),
    {
        match self {
            Rank::Ace => 1,
            Rank::Two => 2,
            Rank::Three => 3,
            Rank::Four => 4,
            Rank::Five => 5,
            Rank::Six => 6,
            Rank::Seven => 7,
            Rank::Eight => 8,
            Rank::Nine => 9,
            Rank::Ten => 10,
            Rank::Jack => 11,
            Rank::Queen => 12,
            Rank::King => 13,
            Rank::Joker => 14,
        }
    }

    /// The rank's name, as a word.
    pub fn name(&self) -> (r: &'static str)
        ensures
            r == rank_name(*self),
    {
        match self {
            Rank::Ace => "Ace",
            Rank::Two => "Two",
            Rank::Three => "Three",
            Rank::Four => "Four",
            Rank::Five => "Five",
            Rank::Six => "Six",
            Rank::Seven => "Seven",
            Rank::Eight => "Eight",
            Rank::Nine => "Nine",
            Rank::Ten => "Ten",
            Rank::Jack => "Jack",
            Rank::Queen => "Queen",
            Rank::King => "King",
            Rank::Joker => "Joker",
        }
    }
}

pub open spec fn rank_name(r: Rank) -> &'static str {
    match r {
        Rank::Ace => "Ace",
        Rank::Two => "Two",
        Rank::Three => "Three",
        Rank::Four => "Four",
        Rank::Five => "Five",
        Rank::Six => "Six",
        Rank::Seven => "Seven",
        Rank::Eight => "Eight",
        Rank::Nine => "Nine",
        Rank::Ten => "Ten",
        Rank::Jack => "Jack",
        Rank::Queen => "Queen",
        Rank::King => "King",
        Rank::Joker => "Joker",
    }
}

impl From<u8> for Rank {
    /// The rank with number `value`; any number outside 1..=13 gives Joker.
    fn from(value: u8) -> (r: Rank) {
        match value {
            1 => Rank::Ace,
            2 => Rank::Two,
            3 => Rank::Three,
            4 => Rank::Four,
            5 => Rank::Five,
            6 => Rank::Six,
            7 => Rank::Seven,
            8 => Rank::Eight,
            9 => Rank::Nine,
            10 => Rank::Ten,
            11 => Rank::Jack,
            12 => Rank::Queen,
            13 => Rank::King,
            _ => Rank::Joker,
        }
    }
}

impl vstd::std_specs::convert::FromSpecImpl<u8> for Rank {
    open spec fn obeys_from_spec() -> bool {
        true
    }

    open spec fn from_spec(v: u8) -> Rank {
        rank_of_number(v as int)
    }
}

impl Suit {
    /// The suit with index `value` (Hearts 0, Diamonds 1, Clubs 2, Spades 3),
    /// or `None` for any other index.
    pub fn from_index(value: u8) -> (r: Option<Suit>)
        ensures
            r == suit_of_index(value as int),
    {
        match value {
            0 => Some(Suit::Hearts),
            1 => Some(Suit::Diamonds),
            2 => Some(Suit::Clubs),
            3 => Some(Suit::Spades),
            _ => None,
        }
    }

    /// The suit's name, as a word.
    pub fn name(&self) -> (r: &'static str)
        ensures
            r == suit_name(*self),
    {
        match self {
            Suit::Hearts => "Hearts",
            Suit::Diamonds => "Diamonds",
            Suit::Clubs => "Clubs",
            Suit::Spades => "Spades",
        }
    }
}

pub open spec fn suit_name(s: Suit) -> &'static str {
    match s {
        Suit::Hearts => "Hearts",
        Suit::Diamonds => "Diamonds",
        Suit::Clubs => "Clubs",
        Suit::Spades => "Spades",
    }
}

/// One physical card: its identity within a game, suit, rank and the
/// point value fixed when it was made.
#[derive(Clone, Copy, Debug, PartialEq, Eq, Structural)]
pub struct PlayCard {
    id: u8,
    suit: Suit,
    rank: Rank,
    value: u8,
}

impl PlayCard {
    pub closed spec fn spec_id(self) -> u8 {
        self.id
    }

    pub closed spec fn spec_suit(self) -> Suit {
        self.suit
    }

    pub closed spec fn spec_rank(self) -> Rank {
        self.rank
    }

    pub closed spec fn spec_value(self) -> u8 {
        self.value
    }

    /// Every card holds the value its suit and rank call for.
    pub closed spec fn wf(self) -> bool {
        self.value as int == card_value(self.suit, self.rank)
    }

    pub open spec fn spec_is_wild(self) -> bool {
        self.spec_rank() == Rank::Two || self.spec_rank() == Rank::Joker
    }

    pub open spec fn spec_is_red_three(self) -> bool {
        is_red(self.spec_suit()) && self.spec_rank() == Rank::Three
    }

    pub open spec fn spec_is_black_three(self) -> bool {
        !is_red(self.spec_suit()) && self.spec_rank() == Rank::Three
    }

    pub fn new(id: u8, suit: Suit, rank: Rank) -> (r: PlayCard)
        ensures
            r.spec_id() == id,
            r.spec_suit() == suit,
            r.spec_rank() == rank,
            r.spec_value() as int == card_value(suit, rank),
            r.wf(),
    {
        let value = calculate_card_value(&suit, &rank);
        PlayCard { id, suit, rank, value }
    }

    pub fn is_red_three(&self) -> (r: bool)
        ensures
            r == self.spec_is_red_three(),
    {
        (self.suit == Suit::Diamonds || self.suit == Suit::Hearts) && self.rank == Rank::Three
    }

    pub fn is_wild(&self) -> (r: bool)
        ensures
            r == self.spec_is_wild(),
    {
        self.rank == Rank::Two || self.rank == Rank::Joker
    }

    pub fn is_black_three(&self) -> (r: bool)
        ensures
            r == self.spec_is_black_three(),
    {
        (self.suit == Suit::Clubs || self.suit == Suit::Spades) && self.rank == Rank::Three
    }

    pub fn get_id(&self) -> (r: u8)
        ensures
            r == self.spec_id(),
    {
        self.id
    }

    pub fn suit(&self) -> (r: &Suit)
        ensures
            *r == self.spec_suit(),
    {
        &self.suit
    }

    pub fn rank(&self) -> (r: &Rank)
        ensures
            *r == self.spec_rank(),
    {
        &self.rank
    }

    /// The card's point value.
    pub fn value(&self) -> (r: u8)
        ensures
            r == self.spec_value(),
            self.wf() ==> r as int == card_value(self.spec_suit(), self.spec_rank()),
    {
        self.value
    }
}

/// The point value of a card of this suit and rank.
pub fn calculate_card_value(suit: &Suit, rank: &Rank) -> (r: u8)
    ensures
        r as int == card_value(*suit, *rank),
{
    let num: u8 = rank.number();
    if num <= 2 {
        20
    } else if num == 3 {
        match suit {
            Suit::Spades | Suit::Clubs => 5,
            Suit::Hearts | Suit::Diamonds => 100,
        }
    } else if num <= 7 {
        5
    } else if num <= 13 {
        10
    } else {
        50
    }
}

} // verus!
