//! Card identities of a standard 52-card deck and their wire text.

use vstd::prelude::*;

verus! {

/// The four suits, in canonical deck order.
#[derive(PartialEq, Eq, Structural, Clone, Copy, Debug, Hash)]
pub enum CardSuit {
    Heart,
    Diamond,
    Spade,
    Club,
}

/// The thirteen ranks, in canonical deck order.
#[derive(PartialEq, Eq, Structural, Clone, Copy, Debug, Hash)]
pub enum CardRank {
    _02,
    _03,
    _04,
    _05,
    _06,
    _07,
    _08,
    _09,
    _10,
    _J,
    _Q,
    _K,
    _A,
}

/// One card: a suit and a rank.
#[derive(PartialEq, Eq, Structural, Clone, Copy, Debug, Hash)]
pub struct CardSpec {
    pub suit: CardSuit,
    pub rank: CardRank,
}

/// The wire name of a suit.
pub open spec fn suit_name(s: CardSuit) -> Seq<char> {
    match s {
        CardSuit::Heart => "hearts"@,
        CardSuit::Diamond => "diamonds"@,
        CardSuit::Spade => "spades"@,
        CardSuit::Club => "clubs"@,
    }
}

/// The wire name of a rank: numeric ranks are two digits, zero-padded.
pub open spec fn rank_name(r: CardRank) -> Seq<char> {
    match r {
        CardRank::_02 => "02"@,
        CardRank::_03 => "03"@,
        CardRank::_04 => "04"@,
        CardRank::_05 => "05"@,
        CardRank::_06 => "06"@,
        CardRank::_07 => "07"@,
        CardRank::_08 => "08"@,
        CardRank::_09 => "09"@,
        CardRank::_10 => "10"@,
        CardRank::_J => "J"@,
        CardRank::_Q => "Q"@,
        CardRank::_K => "K"@,
        CardRank::_A => "A"@,
    }
}

/// The suit whose wire name is `s`, if any.
pub open spec fn suit_from_name(s: Seq<char>) -> Option<CardSuit> {
    if s == "hearts"@ {
        Some(CardSuit::Heart)
    } else if s == "diamonds"@ {
        Some(CardSuit::Diamond)
    } else if s == "spades"@ {
        Some(CardSuit::Spade)
    } else if s == "clubs"@ {
        Some(CardSuit::Club)
    } else {
        None
    }
}

/// The rank whose wire name is `s`, if any.
pub open spec fn rank_from_name(s: Seq<char>) -> Option<CardRank> {
    if s == "02"@ {
        Some(CardRank::_02)
    } else if s == "03"@ {
        Some(CardRank::_03)
    } else if s == "04"@ {
        Some(CardRank::_04)
    } else if s == "05"@ {
        Some(CardRank::_05)
    } else if s == "06"@ {
        Some(CardRank::_06)
    } else if s == "07"@ {
        Some(CardRank::_07)
    } else if s == "08"@ {
        Some(CardRank::_08)
    } else if s == "09"@ {
        Some(CardRank::_09)
    } else if s == "10"@ {
        Some(CardRank::_10)
    } else if s == "J"@ {
        Some(CardRank::_J)
    } else if s == "Q"@ {
        Some(CardRank::_Q)
    } else if s == "K"@ {
        Some(CardRank::_K)
    } else if s == "A"@ {
        Some(CardRank::_A)
    } else {
        None
    }
}

/// The wire text of a card: `<suit-name>,<rank-name>`.
pub open spec fn card_text(c: CardSpec) -> Seq<char> {
    suit_name(c.suit) + ","@ + rank_name(c.rank)
}

/// Number of suits and of ranks.
pub const NUM_SUITS: usize = 4;
pub const NUM_RANKS: usize = 13;

/// The suit at position `i` of the canonical order.
pub open spec fn suit_at(i: int) -> CardSuit {
    if i == 0 {
        CardSuit::Heart
    } else if i == 1 {
        CardSuit::Diamond
    } else if i == 2 {
        CardSuit::Spade
    } else {
        CardSuit::Club
    }
}

pub open spec fn suit_index(s: CardSuit) -> int {
    match s {
        CardSuit::Heart => 0,
        CardSuit::Diamond => 1,
        CardSuit::Spade => 2,
        CardSuit::Club => 3,
    }
}

/// The rank at position `i` of the canonical order.
pub open spec fn rank_at(i: int) -> CardRank {
    if i == 0 {
        CardRank::_02
    } else if i == 1 {
        CardRank::_03
    } else if i == 2 {
        CardRank::_04
    } else if i == 3 {
        CardRank::_05
    } else if i == 4 {
        CardRank::_06
    } else if i == 5 {
        CardRank::_07
    } else if i == 6 {
        CardRank::_08
    } else if i == 7 {
        CardRank::_09
    } else if i == 8 {
        CardRank::_10
    } else if i == 9 {
        CardRank::_J
    } else if i == 10 {
        CardRank::_Q
    } else if i == 11 {
        CardRank::_K
    } else {
        CardRank::_A
    }
}

pub open spec fn rank_index(r: CardRank) -> int {
    match r {
        CardRank::_02 => 0,
        CardRank::_03 => 1,
        CardRank::_04 => 2,
        CardRank::_05 => 3,
        CardRank::_06 => 4,
        CardRank::_07 => 5,
        CardRank::_08 => 6,
        CardRank::_09 => 7,
        CardRank::_10 => 8,
        CardRank::_J => 9,
        CardRank::_Q => 10,
        CardRank::_K => 11,
        CardRank::_A => 12,
    }
}

/// The card at position `i` of the canonical order: suit-major, rank-minor.
pub open spec fn card_at(i: int) -> CardSpec {
    CardSpec { suit: suit_at(i / 13), rank: rank_at(i % 13) }
}

/// The 52 cards in canonical order.
pub open spec fn canonical_deck() -> Seq<CardSpec> {
    Seq::new(52, |i: int| card_at(i))
}

/// The canonical order lists every card exactly once.
pub proof fn lemma_canonical_deck()
    ensures
        canonical_deck().len() == 52,
        canonical_deck().no_duplicates(),
        forall|c: CardSpec| canonical_deck().contains(c),
{
    assert forall|i: int| 0 <= i < 52 implies suit_index(card_at(i).suit) * 13 + rank_index(
        card_at(i).rank,
    ) == i by {
        let q = i / 13;
        let r = i % 13;
        assert(0 <= q < 4 && 0 <= r < 13 && i == q * 13 + r) by (nonlinear_arith)
            requires
                0 <= i < 52,
                q == i / 13,
                r == i % 13,
        ;
    }
    assert forall|c: CardSpec| canonical_deck().contains(c) by {
        let i = suit_index(c.suit) * 13 + rank_index(c.rank);
        assert(i / 13 == suit_index(c.suit) && i % 13 == rank_index(c.rank)) by (nonlinear_arith)
            requires
                i == suit_index(c.suit) * 13 + rank_index(c.rank),
                0 <= rank_index(c.rank) < 13,
        ;
        assert(canonical_deck()[i] == c);
    }
}

/// Every suit and rank name reads back as the suit or rank it names.
pub proof fn lemma_names_round_trip(s: CardSuit, r: CardRank)
    ensures
        suit_from_name(suit_name(s)) == Some(s),
        rank_from_name(rank_name(r)) == Some(r),
{
    reveal_strlit("hearts");
    reveal_strlit("diamonds");
    reveal_strlit("spades");
    reveal_strlit("clubs");
    reveal_strlit("02");
    reveal_strlit("03");
    reveal_strlit("04");
    reveal_strlit("05");
    reveal_strlit("06");
    reveal_strlit("07");
    reveal_strlit("08");
    reveal_strlit("09");
    reveal_strlit("10");
    reveal_strlit("J");
    reveal_strlit("Q");
    reveal_strlit("K");
    reveal_strlit("A");
    assert("diamonds"@[0] != "hearts"@[0]);
    assert("spades"@[0] != "hearts"@[0] && "spades"@[0] != "diamonds"@[0]);
    assert("clubs"@[0] != "hearts"@[0] && "clubs"@[0] != "diamonds"@[0] && "clubs"@[0]
        != "spades"@[0]);
    let nums = seq!["02"@, "03"@, "04"@, "05"@, "06"@, "07"@, "08"@, "09"@, "10"@];
    assert(forall|i: int, j: int| 0 <= i < j < 9 ==> nums[i][1] != nums[j][1] || nums[i][0] != nums[j][0]);
    assert(forall|i: int| 0 <= i < 9 ==> nums[i].len() == 2);
    assert(forall|i: int| 0 <= i < 9 ==> nums[i] != "J"@ && nums[i] != "Q"@ && nums[i] != "K"@
        && nums[i] != "A"@);
    assert("J"@[0] != "Q"@[0] && "J"@[0] != "K"@[0] && "J"@[0] != "A"@[0]);
    assert("Q"@[0] != "K"@[0] && "Q"@[0] != "A"@[0] && "K"@[0] != "A"@[0]);
}

/// Character-wise equality of two strings.
pub fn str_eq(a: &str, b: &str) -> (r: bool)
    ensures
        r == (a@ == b@),
{
    let n = a.unicode_len();
    if n != b.unicode_len() {
        return false;
    }
    let mut i: usize = 0;
    while i < n
        invariant
            n == a@.len(),
            n == b@.len(),
            i <= n,
            a@.subrange(0, i as int) == b@.subrange(0, i as int),
        decreases n - i,
    {
        if a.get_char(i) != b.get_char(i) {
            return false;
        }
        assert(a@.subrange(0, i + 1) =~= a@.subrange(0, i as int).push(a@[i as int]));
        assert(b@.subrange(0, i + 1) =~= b@.subrange(0, i as int).push(b@[i as int]));
        i = i + 1;
    }
    assert(a@ =~= a@.subrange(0, n as int));
    assert(b@ =~= b@.subrange(0, n as int));
    true
}

impl CardSuit {
    /// The suit at position `i` of the canonical order.
    pub fn from_index(i: usize) -> (r: CardSuit)
        requires
            i < NUM_SUITS,
        ensures
            r == suit_at(i as int),
    {
        if i == 0 {
            CardSuit::Heart
        } else if i == 1 {
            CardSuit::Diamond
        } else if i == 2 {
            CardSuit::Spade
        } else {
            CardSuit::Club
        }
    }

    /// The suit named `s`, or `None` where `s` names no suit.
    pub fn parse(s: &str) -> (r: Option<CardSuit>)
        ensures
            r == suit_from_name(s@),
    {
        if str_eq(s, "hearts") {
            Some(CardSuit::Heart)
        } else if str_eq(s, "diamonds") {
            Some(CardSuit::Diamond)
        } else if str_eq(s, "spades") {
            Some(CardSuit::Spade)
        } else if str_eq(s, "clubs") {
            Some(CardSuit::Club)
        } else {
            None
        }
    }

    /// The suit named `s`; `s` must be one of the four suit names.
    pub fn from_str(s: &str) -> (r: CardSuit)
        requires
            suit_from_name(s@).is_some(),
        ensures
            suit_from_name(s@) == Some(r),
    {
        Self::parse(s).unwrap()
    }

    pub fn to_str(&self) -> (r: &'static str)
        ensures
            r@ == suit_name(*self),
    {
        match self {
            CardSuit::Heart => "hearts",
            CardSuit::Diamond => "diamonds",
            CardSuit::Spade => "spades",
            CardSuit::Club => "clubs",
        }
    }
}

impl CardRank {
    /// The rank at position `i` of the canonical order.
    pub fn from_index(i: usize) -> (r: CardRank)
        requires
            i < NUM_RANKS,
        ensures
            r == rank_at(i as int),
    {
        if i == 0 {
            CardRank::_02
        } else if i == 1 {
            CardRank::_03
        } else if i == 2 {
            CardRank::_04
        } else if i == 3 {
            CardRank::_05
        } else if i == 4 {
            CardRank::_06
        } else if i == 5 {
            CardRank::_07
        } else if i == 6 {
            CardRank::_08
        } else if i == 7 {
            CardRank::_09
        } else if i == 8 {
            CardRank::_10
        } else if i == 9 {
            CardRank::_J
        } else if i == 10 {
            CardRank::_Q
        } else if i == 11 {
            CardRank::_K
        } else {
            CardRank::_A
        }
    }

    /// The rank named `s`, or `None` where `s` names no rank.
    pub fn parse(s: &str) -> (r: Option<CardRank>)
        ensures
            r == rank_from_name(s@),
    {
        if str_eq(s, "02") {
            Some(CardRank::_02)
        } else if str_eq(s, "03") {
            Some(CardRank::_03)
        } else if str_eq(s, "04") {
            Some(CardRank::_04)
        } else if str_eq(s, "05") {
            Some(CardRank::_05)
        } else if str_eq(s, "06") {
            Some(CardRank::_06)
        } else if str_eq(s, "07") {
            Some(CardRank::_07)
        } else if str_eq(s, "08") {
            Some(CardRank::_08)
        } else if str_eq(s, "09") {
            Some(CardRank::_09)
        } else if str_eq(s, "10") {
            Some(CardRank::_10)
        } else if str_eq(s, "J") {
            Some(CardRank::_J)
        } else if str_eq(s, "Q") {
            Some(CardRank::_Q)
        } else if str_eq(s, "K") {
            Some(CardRank::_K)
        } else if str_eq(s, "A") {
            Some(CardRank::_A)
        } else {
            None
        }
    }

    /// The rank named `s`; `s` must be one of the thirteen rank names.
    pub fn from_str(s: &str) -> (r: CardRank)
        requires
            rank_from_name(s@).is_some(),
        ensures
            rank_from_name(s@) == Some(r),
    {
        Self::parse(s).unwrap()
    }

    pub fn to_str(&self) -> (r: &'static str)
        ensures
            r@ == rank_name(*self),
    {
        match self {
            CardRank::_02 => "02",
            CardRank::_03 => "03",
            CardRank::_04 => "04",
            CardRank::_05 => "05",
            CardRank::_06 => "06",
            CardRank::_07 => "07",
            CardRank::_08 => "08",
            CardRank::_09 => "09",
            CardRank::_10 => "10",
            CardRank::_J => "J",
            CardRank::_Q => "Q",
            CardRank::_K => "K",
            CardRank::_A => "A",
        }
    }
}

impl CardSpec {
    /// The card named by a suit name and a rank name; both must be valid names.
    pub fn from_strs(suit: &str, rank: &str) -> (r: CardSpec)
        requires
            suit_from_name(suit@).is_some(),
            rank_from_name(rank@).is_some(),
        ensures
            Some(r.suit) == suit_from_name(suit@),
            Some(r.rank) == rank_from_name(rank@),
    {
        CardSpec { suit: CardSuit::from_str(suit), rank: CardRank::from_str(rank) }
    }

    /// The card's wire text, `<suit-name>,<rank-name>`.
    pub fn to_string(&self) -> (r: String)
        ensures
            r@ == card_text(*self),
    {
        let mut s = String::from_str(self.suit.to_str());
        s.append(",");
        s.append(self.rank.to_str());
        s
    }
}

} // verus!
