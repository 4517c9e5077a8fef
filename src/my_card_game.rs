//! The card-game session: deck, players, animations in flight, and the
//! protocol spoken with remote player devices.

use crate::progress::{
    lemma_progression_done_after, lemma_splay_done_after, splay_total_ticks, ticks_for,
    Progression, SplayProgression,
};
use crate::standard_deck::{
    canonical_deck, card_text, lemma_canonical_deck, rank_from_name, str_eq, suit_at,
    suit_from_name, CardRank, CardSpec, CardSuit, NUM_RANKS, NUM_SUITS,
};
use rand::seq::SliceRandom;
use vstd::prelude::*;

verus! {

/// Relies on rand's `SliceRandom::shuffle`, driven by `thread_rng`: it only
/// swaps elements, so the result is a permutation of its input.
#[verifier::external_body]
fn shuffle_cards(cards: &mut Vec<CardSpec>)
    ensures
        final(cards)@.len() == old(cards)@.len(),
        final(cards)@.to_multiset() == old(cards)@.to_multiset(),
{
    cards.shuffle(&mut rand::thread_rng());
}

//////// Helpers ////////
/// Position of the first `sep` in `s`, or the length of `s` where there is none.
pub open spec fn sep_index(s: Seq<char>, sep: char) -> nat
    decreases s.len(),
{
    if s.len() == 0 {
        0
    } else if s[0] == sep {
        0
    } else {
        1 + sep_index(s.drop_first(), sep)
    }
}

/// Field `k` of `s` split at each `sep`, counting from zero, or `None` where
/// `s` has fewer than `k` separators.
pub open spec fn field(s: Seq<char>, sep: char, k: nat) -> Option<Seq<char>>
    decreases k,
{
    let i = sep_index(s, sep);
    if k == 0 {
        Some(s.take(i as int))
    } else if i < s.len() {
        field(s.skip(i + 1 as int), sep, (k - 1) as nat)
    } else {
        None
    }
}

/// Field `k`, or the empty text where there is none.
pub open spec fn field_or_empty(s: Seq<char>, sep: char, k: nat) -> Seq<char> {
    match field(s, sep, k) {
        Some(f) => f,
        None => Seq::empty(),
    }
}

proof fn lemma_sep_index(s: Seq<char>, sep: char)
    ensures
        sep_index(s, sep) <= s.len(),
        forall|j: int| 0 <= j < sep_index(s, sep) ==> s[j] != sep,
        sep_index(s, sep) < s.len() ==> s[sep_index(s, sep) as int] == sep,
    decreases s.len(),
{
    if s.len() > 0 && s[0] != sep {
        lemma_sep_index(s.drop_first(), sep);
        assert forall|j: int| 0 <= j < sep_index(s, sep) implies s[j] != sep by {
            if j > 0 {
                assert(s[j] == s.drop_first()[j - 1]);
            }
        }
    }
}

proof fn lemma_sep_index_unique(s: Seq<char>, sep: char, i: int)
    requires
        0 <= i <= s.len(),
        forall|j: int| 0 <= j < i ==> s[j] != sep,
        i < s.len() ==> s[i] == sep,
    ensures
        sep_index(s, sep) == i,
{
    lemma_sep_index(s, sep);
}

/// Splits `s` at its first `sep`: the text before it, and the text after it
/// where there is a separator.
pub fn split_first(s: &str, sep: char) -> (r: (&str, Option<&str>))
    ensures
        sep_index(s@, sep) <= s@.len(),
        r.0@ == s@.take(sep_index(s@, sep) as int),
        sep_index(s@, sep) < s@.len() ==> r.1 is Some && r.1.unwrap()@ == s@.skip(
            sep_index(s@, sep) + 1 as int,
        ),
        sep_index(s@, sep) == s@.len() ==> r.1 is None,
{
    let n = s.unicode_len();
    let mut i: usize = 0;
    while i < n && s.get_char(i) != sep
        invariant
            n == s@.len(),
            i <= n,
            forall|j: int| 0 <= j < i ==> s@[j] != sep,
        decreases n - i,
    {
        i = i + 1;
    }
    proof {
        lemma_sep_index_unique(s@, sep, i as int);
    }
    let head = s.substring_char(0, i);
    if i < n {
        (head, Some(s.substring_char(i + 1, n)))
    } else {
        (head, None)
    }
}

/// Splits a card payload `<side>,<suit>,<rank>` into its three fields; `None`
/// where it has fewer than three.
pub fn parse_card(card_str: &str) -> (r: Option<(&str, &str, &str)>)
    ensures
        r is Some <==> field(card_str@, ',', 2) is Some,
        r is Some ==> field(card_str@, ',', 0) == Some(r.unwrap().0@) && field(card_str@, ',', 1)
            == Some(r.unwrap().1@) && field(card_str@, ',', 2) == Some(r.unwrap().2@),
{
    let (side, rest) = split_first(card_str, ',');
    proof {
        lemma_field_skip(card_str@, ',', 1);
        lemma_field_skip(card_str@, ',', 2);
    }
    match rest {
        None => None,
        Some(rest) => {
            let (suit, rest2) = split_first(rest, ',');
            match rest2 {
                None => {
                    proof {
                        lemma_field_skip(rest@, ',', 1);
                    }
                    None
                },
                Some(rest2) => {
                    let (rank, _) = split_first(rest2, ',');
                    proof {
                        lemma_field_skip(rest@, ',', 1);
                        assert(field(card_str@, ',', 1) == field(rest@, ',', 0));
                        assert(field(card_str@, ',', 2) == field(rest2@, ',', 0));
                    }
                    Some((side, suit, rank))
                },
            }
        },
    }
}

proof fn lemma_field_skip(s: Seq<char>, sep: char, k: nat)
    requires
        k > 0,
    ensures
        sep_index(s, sep) < s.len() ==> field(s, sep, k) == field(
            s.skip(sep_index(s, sep) + 1 as int),
            sep,
            (k - 1) as nat,
        ),
        sep_index(s, sep) == s.len() ==> field(s, sep, k) is None,
{
    lemma_sep_index(s, sep);
}

//////// Deck ////////
/// A face-down stack of distinct cards; the top is the end of the sequence.
pub struct Deck {
    cards: Vec<CardSpec>,
}

impl View for Deck {
    type V = Seq<CardSpec>;

    closed spec fn view(&self) -> Seq<CardSpec> {
        self.cards@
    }
}

impl Deck {
    /// The deck holds distinct cards, at most 52.
    pub open spec fn wf(&self) -> bool {
        self@.no_duplicates() && self@.len() <= 52
    }

    /// All 52 cards, shuffled.
    pub fn new() -> (r: Deck)
        ensures
            r.wf(),
            r@.len() == 52,
            r@.to_multiset() == canonical_deck().to_multiset(),
            forall|c: CardSpec| r@.to_multiset().count(c) == 1,
    {
        let mut cards: Vec<CardSpec> = Vec::new();
        let mut si: usize = 0;
        while si < NUM_SUITS
            invariant
                si <= NUM_SUITS,
                cards@ == canonical_deck().take(si * 13),
            decreases NUM_SUITS - si,
        {
            let suit = CardSuit::from_index(si);
            let mut ri: usize = 0;
            while ri < NUM_RANKS
                invariant
                    si < NUM_SUITS,
                    ri <= NUM_RANKS,
                    suit == suit_at(si as int),
                    cards@ == canonical_deck().take(si * 13 + ri),
                decreases NUM_RANKS - ri,
            {
                let idx = si * 13 + ri;
                assert(idx / 13 == si && idx % 13 == ri) by (nonlinear_arith)
                    requires
                        idx == si * 13 + ri,
                        ri < 13,
                ;
                cards.push(CardSpec { suit, rank: CardRank::from_index(ri) });
                assert(cards@ =~= canonical_deck().take(si * 13 + ri + 1));
                ri = ri + 1;
            }
            si = si + 1;
        }
        assert(cards@ =~= canonical_deck());
        shuffle_cards(&mut cards);
        proof {
            lemma_canonical_deck();
            canonical_deck().lemma_multiset_has_no_duplicates();
            assert forall|c: CardSpec| cards@.to_multiset().count(c) == 1 by {
                canonical_deck().to_multiset_ensures();
            }
            cards@.lemma_multiset_has_no_duplicates_conv();
        }
        Deck { cards }
    }

    /// Cards left in the deck.
    pub fn len(&self) -> (r: usize)
        ensures
            r == self@.len(),
    {
        self.cards.len()
    }

    /// Takes the top card, or `None` where the deck is empty.
    pub fn pop(&mut self) -> (r: Option<CardSpec>)
        requires
            old(self).wf(),
        ensures
            final(self).wf(),
            old(self)@.len() == 0 ==> r is None && final(self)@ == old(self)@,
            old(self)@.len() > 0 ==> r == Some(old(self)@.last()) && final(self)@ == old(
                self,
            )@.drop_last(),
    {
        let r = self.cards.pop();
        proof {
            assert forall|i: int, j: int|
                0 <= i < j < self@.len() implies self@[i] != self@[j] by {
                assert(self@[i] == old(self)@[i] && self@[j] == old(self)@[j]);
            }
        }
        r
    }

    /// Height of the drawn stack: one card for every six, rounded up.
    pub fn deck_height(&self) -> (r: usize)
        requires
            self.wf(),
        ensures
            r == (self@.len() + 5) / 6,
    {
        (self.cards.len() + 5) / 6
    }
}

//////// Player ////////
/// What a player is, as the session's contracts see it.
pub struct PlayerView {
    pub handle: Seq<char>,
    pub name: Seq<char>,
    pub left: Option<CardSpec>,
    pub right: Option<CardSpec>,
}

/// The wire text of a card slot: the card's text, or nothing where it is empty.
pub open spec fn slot_text(c: Option<CardSpec>) -> Seq<char> {
    match c {
        Some(c) => card_text(c),
        None => Seq::empty(),
    }
}

impl PlayerView {
    /// `<name>:<left-card-or-empty>:<right-card-or-empty>`.
    pub open spec fn state_string(self) -> Seq<char> {
        self.name + ":"@ + slot_text(self.left) + ":"@ + slot_text(self.right)
    }

    /// The message that tells a player its state.
    pub open spec fn state_message(self) -> Seq<char> {
        "state:playing:"@ + self.state_string()
    }

    /// The player with one slot emptied.
    pub open spec fn revoked(self, is_left: bool) -> PlayerView {
        if is_left {
            PlayerView { left: None, ..self }
        } else {
            PlayerView { right: None, ..self }
        }
    }

    /// The player with one slot holding `card`.
    pub open spec fn holding(self, is_left: bool, card: CardSpec) -> PlayerView {
        if is_left {
            PlayerView { left: Some(card), ..self }
        } else {
            PlayerView { right: Some(card), ..self }
        }
    }
}

/// A remote participant: its connection handle, its name and up to two cards.
pub struct Player {
    handle: String,
    name: String,
    left_card: Option<CardSpec>,
    right_card: Option<CardSpec>,
}

impl View for Player {
    type V = PlayerView;

    closed spec fn view(&self) -> PlayerView {
        PlayerView {
            handle: self.handle@,
            name: self.name@,
            left: self.left_card,
            right: self.right_card,
        }
    }
}

/// Appends the wire text of a card slot.
fn append_slot(s: &mut String, c: Option<CardSpec>)
    ensures
        final(s)@ == old(s)@ + slot_text(c),
{
    match c {
        Some(card) => {
            let t = card.to_string();
            s.append(t.as_str());
        },
        None => {
            assert(old(s)@ + slot_text(c) =~= old(s)@);
        },
    }
}

impl Player {
    pub fn new(handle: String, name: String, left_card: Option<CardSpec>, right_card: Option<
        CardSpec,
    >) -> (r: Player)
        ensures
            r@ == (PlayerView { handle: handle@, name: name@, left: left_card, right: right_card }),
    {
        Player { handle, name, left_card, right_card }
    }

    pub fn handle(&self) -> (r: &String)
        ensures
            r@ == self@.handle,
    {
        &self.handle
    }

    pub fn name(&self) -> (r: &String)
        ensures
            r@ == self@.name,
    {
        &self.name
    }

    pub fn left_card(&self) -> (r: Option<CardSpec>)
        ensures
            r == self@.left,
    {
        self.left_card
    }

    pub fn right_card(&self) -> (r: Option<CardSpec>)
        ensures
            r == self@.right,
    {
        self.right_card
    }

    /// `<name>:<left-card-or-empty>:<right-card-or-empty>`.
    pub fn state_string(&self) -> (r: String)
        ensures
            r@ == self@.state_string(),
    {
        let mut s = self.name.clone();
        s.append(":");
        append_slot(&mut s, self.left_card);
        s.append(":");
        append_slot(&mut s, self.right_card);
        s
    }

    /// The message that tells this player its state, addressed to its handle.
    pub fn send_state(&self) -> (r: (String, String))
        ensures
            r.0@ == self@.handle,
            r.1@ == self@.state_message(),
    {
        let body = self.state_string();
        let mut text = String::from_str("state:playing:");
        text.append(body.as_str());
        (self.handle.clone(), text)
    }

    /// Empties the left slot, or the right one.
    pub fn revoke_card(&mut self, is_left: bool)
        ensures
            final(self)@ == old(self)@.revoked(is_left),
    {
        if is_left {
            self.left_card = None;
        } else {
            self.right_card = None;
        }
    }

    /// Puts `card` into the left slot, or the right one.
    fn set_card(&mut self, is_left: bool, card: CardSpec)
        ensures
            final(self)@ == old(self)@.holding(is_left, card),
    {
        if is_left {
            self.left_card = Some(card);
        } else {
            self.right_card = Some(card);
        }
    }
}

//////// MyCardGame ////////
/// Duration of the give transition, in milliseconds.
pub const GIVING_TRAVEL_TIME: u64 = 1000;

/// Index of the first player whose handle is `h`.
pub open spec fn player_index(ps: Seq<PlayerView>, h: Seq<char>) -> Option<int>
    decreases ps.len(),
{
    if ps.len() == 0 {
        None
    } else if ps[0].handle == h {
        Some(0)
    } else {
        match player_index(ps.drop_first(), h) {
            Some(i) => Some(i + 1),
            None => None,
        }
    }
}

proof fn lemma_player_index(ps: Seq<PlayerView>, h: Seq<char>, i: int)
    requires
        0 <= i <= ps.len(),
        forall|j: int| 0 <= j < i ==> ps[j].handle != h,
        i < ps.len() ==> ps[i].handle == h,
    ensures
        player_index(ps, h) == if i < ps.len() {
            Some(i)
        } else {
            None::<int>
        },
    decreases ps.len(),
{
    if ps.len() > 0 && i > 0 {
        assert forall|j: int| 0 <= j < i - 1 implies ps.drop_first()[j].handle != h by {
            assert(ps.drop_first()[j] == ps[j + 1]);
        }
        lemma_player_index(ps.drop_first(), h, i - 1);
    }
}

/// Handles are distinct.
pub open spec fn handles_unique(ps: Seq<PlayerView>) -> bool {
    forall|i: int, j: int| 0 <= i < j < ps.len() ==> ps[i].handle != ps[j].handle
}

/// Outbound messages as `(handle, text)` pairs.
pub open spec fn outbound_view(v: Seq<(String, String)>) -> Seq<(Seq<char>, Seq<char>)> {
    Seq::new(v.len(), |i: int| (v[i].0@, v[i].1@))
}

/// The session as its contracts see it.
pub struct SessionView {
    /// The deck; its top is the last card.
    pub deck: Seq<CardSpec>,
    /// Revealed cards, in reveal order.
    pub splayed: Seq<CardSpec>,
    /// Cards on their way to the revealed row, with their animation.
    pub splaying: Seq<(CardSpec, SplayProgression)>,
    pub center: CardSpec,
    /// The give transition in flight: the receiving player's handle and its timer.
    pub giving: Option<(Seq<char>, Progression)>,
    pub players: Seq<PlayerView>,
}

impl SessionView {
    /// `deal`: the top card of the deck starts a splay sequence; nothing
    /// happens where the deck is empty.
    pub open spec fn dealt(self) -> SessionView {
        if self.deck.len() == 0 {
            self
        } else {
            SessionView {
                deck: self.deck.drop_last(),
                splaying: self.splaying.push((self.deck.last(), SplayProgression::start())),
                ..self
            }
        }
    }

    /// A give request of player `i`: unless a give is in flight, the deck
    /// is empty or there is no player `i`, the named card becomes the center card, the top card of the
    /// deck replaces the player's card on the chosen side, and the give
    /// transition starts.
    pub open spec fn give_started(self, i: int, is_left: bool, card: CardSpec) -> SessionView {
        if self.giving is Some || self.deck.len() == 0 || !(0 <= i < self.players.len()) {
            self
        } else {
            SessionView {
                deck: self.deck.drop_last(),
                center: card,
                players: self.players.update(
                    i,
                    self.players[i].revoked(is_left).holding(is_left, self.deck.last()),
                ),
                giving: Some(
                    (self.players[i].handle, Progression::fresh(GIVING_TRAVEL_TIME as nat)),
                ),
                ..self
            }
        }
    }

    /// The player that joins as `client` under `name`: it takes the top card
    /// of the deck into its left slot and the next into its right slot, as
    /// far as the deck has cards.
    pub open spec fn joining_player(self, client: Seq<char>, name: Seq<char>) -> PlayerView {
        PlayerView {
            handle: client,
            name,
            left: if self.deck.len() >= 1 {
                Some(self.deck[self.deck.len() - 1])
            } else {
                None
            },
            right: if self.deck.len() >= 2 {
                Some(self.deck[self.deck.len() - 2])
            } else {
                None
            },
        }
    }

    pub open spec fn joined(self, client: Seq<char>, name: Seq<char>) -> SessionView {
        SessionView {
            deck: self.deck.take(
                if self.deck.len() >= 2 {
                    self.deck.len() - 2
                } else {
                    0
                },
            ),
            players: self.players.push(self.joining_player(client, name)),
            ..self
        }
    }
}

/// The splay sequences that are still running after one tick, in order.
pub open spec fn splays_kept(s: Seq<(CardSpec, SplayProgression)>) -> Seq<
    (CardSpec, SplayProgression),
>
    decreases s.len(),
{
    if s.len() == 0 {
        Seq::empty()
    } else {
        let prev = splays_kept(s.drop_last());
        let t = s.last().1.ticked();
        if t.done() {
            prev
        } else {
            prev.push((s.last().0, t))
        }
    }
}

/// The cards whose splay sequence completes on one tick, in order.
pub open spec fn splays_finished(s: Seq<(CardSpec, SplayProgression)>) -> Seq<CardSpec>
    decreases s.len(),
{
    if s.len() == 0 {
        Seq::empty()
    } else {
        let prev = splays_finished(s.drop_last());
        if s.last().1.ticked().done() {
            prev.push(s.last().0)
        } else {
            prev
        }
    }
}

/// The notice that ends a give transition: the state message of the player
/// with handle `h`, where there is one.
pub open spec fn give_notice(ps: Seq<PlayerView>, h: Seq<char>) -> Seq<(Seq<char>, Seq<char>)> {
    match player_index(ps, h) {
        Some(i) => seq![(h, ps[i].state_message())],
        None => Seq::empty(),
    }
}

impl SessionView {
    /// One tick: every splay sequence advances and the completed ones move,
    /// in order, to the revealed row; the give transition advances and ends
    /// once its progression is done.
    pub open spec fn updated(self) -> SessionView {
        SessionView {
            splaying: splays_kept(self.splaying),
            splayed: self.splayed + splays_finished(self.splaying),
            giving: match self.giving {
                Some((h, p)) => if p.ticked().done() {
                    None
                } else {
                    Some((h, p.ticked()))
                },
                None => None,
            },
            ..self
        }
    }

    /// The messages one tick sends: the deferred notice of a give transition
    /// that ends on this tick.
    pub open spec fn update_messages(self) -> Seq<(Seq<char>, Seq<char>)> {
        match self.giving {
            Some((h, p)) => if p.ticked().done() {
                give_notice(self.players, h)
            } else {
                Seq::empty()
            },
            None => Seq::empty(),
        }
    }
}

/// A card request `<side>,<suit>,<rank>`: whether the side is the left one
/// (`L`), and the card named; `None` where the payload has fewer than three
/// fields or names no card.
pub open spec fn card_request(payload: Seq<char>) -> Option<(bool, CardSpec)> {
    match (field(payload, ',', 0), field(payload, ',', 1), field(payload, ',', 2)) {
        (Some(side), Some(suit), Some(rank)) => match (suit_from_name(suit), rank_from_name(rank)) {
            (Some(s), Some(r)) => Some((side == "L"@, CardSpec { suit: s, rank: r })),
            _ => None,
        },
        _ => None,
    }
}

impl SessionView {
    /// How the session answers `msg` from `client`: the next session and the
    /// messages to send. The message type is the text before the first `:`,
    /// its argument the text between the first and the second.
    ///
    /// A joined client may ask for its state, deal, or request a card; an
    /// unjoined one may ask for its state (it is told it is joining) or join.
    /// Anything else leaves the session as it is and sends nothing.
    pub open spec fn handled(self, client: Seq<char>, msg: Seq<char>) -> (
        SessionView,
        Seq<(Seq<char>, Seq<char>)>,
    ) {
        let t = field_or_empty(msg, ':', 0);
        let arg = field_or_empty(msg, ':', 1);
        match player_index(self.players, client) {
            Some(i) => if t == "state-request"@ {
                (self, seq![(client, self.players[i].state_message())])
            } else if t == "deal"@ {
                (self.dealt(), Seq::empty())
            } else if t == "card"@ {
                match card_request(arg) {
                    Some((is_left, card)) => (self.give_started(i, is_left, card), Seq::empty()),
                    None => (self, Seq::empty()),
                }
            } else {
                (self, Seq::empty())
            },
            None => if t == "state-request"@ {
                (self, seq![(client, "state:joining"@)])
            } else if t == "join"@ {
                (
                    self.joined(client, arg),
                    seq![(client, self.joining_player(client, arg).state_message())],
                )
            } else {
                (self, Seq::empty())
            },
        }
    }
}

impl SessionView {
    /// The session `n` ticks later.
    pub open spec fn after_updates(self, n: nat) -> SessionView
        decreases n,
    {
        if n == 0 {
            self
        } else {
            self.after_updates((n - 1) as nat).updated()
        }
    }
}

proof fn lemma_single_splay(d: SessionView, c: CardSpec, n: nat)
    requires
        d.splaying == seq![(c, SplayProgression::start())],
        n <= splay_total_ticks(),
    ensures
        d.after_updates(n).deck == d.deck,
        d.after_updates(n).players == d.players,
        n < splay_total_ticks() ==> d.after_updates(n).splayed == d.splayed && d.after_updates(
            n,
        ).splaying == seq![(c, SplayProgression::start().after(n))],
        n == splay_total_ticks() ==> d.after_updates(n).splayed == d.splayed.push(c)
            && d.after_updates(n).splaying.len() == 0,
    decreases n,
{
    lemma_splay_done_after(n);
    if n > 0 {
        let m = (n - 1) as nat;
        lemma_single_splay(d, c, m);
        let prev = d.after_updates(m);
        let x = (c, SplayProgression::start().after(m));
        reveal_with_fuel(splays_kept, 2);
        reveal_with_fuel(splays_finished, 2);
        assert(prev.splaying.drop_last() =~= Seq::<(CardSpec, SplayProgression)>::empty());
        assert(SplayProgression::start().after(n) == x.1.ticked());
        if n < splay_total_ticks() {
            assert(splays_kept(prev.splaying) =~= seq![(c, SplayProgression::start().after(n))]);
            assert(prev.splayed + splays_finished(prev.splaying) =~= prev.splayed);
        } else {
            assert(splays_kept(prev.splaying) =~= Seq::<(CardSpec, SplayProgression)>::empty());
            assert(prev.splayed + splays_finished(prev.splaying) =~= prev.splayed.push(c));
        }
    } else {
        assert(SplayProgression::start().after(0) == SplayProgression::start());
    }
}

/// Dealing, on a session with no splay sequence running, moves the top card
/// of the deck into a splay sequence; the card joins the revealed row on the
/// tick that completes the sequence, and not before; the deck gives up that
/// one card and no other.
pub proof fn lemma_deal_then_settle(s: SessionView)
    requires
        s.deck.len() > 0,
        s.splaying.len() == 0,
    ensures
        s.dealt().deck == s.deck.drop_last(),
        s.dealt().after_updates(splay_total_ticks()).deck == s.deck.drop_last(),
        s.dealt().after_updates(splay_total_ticks()).splayed == s.splayed.push(s.deck.last()),
        s.dealt().after_updates(splay_total_ticks()).splaying.len() == 0,
        forall|n: nat|
            n < splay_total_ticks() ==> #[trigger] s.dealt().after_updates(n).splayed == s.splayed,
        splay_total_ticks() == 126,
{
    let d = s.dealt();
    assert(d.splaying =~= seq![(s.deck.last(), SplayProgression::start())]);
    lemma_single_splay(d, s.deck.last(), splay_total_ticks());
    assert forall|n: nat| n < splay_total_ticks() implies #[trigger] d.after_updates(n).splayed
        == s.splayed by {
        lemma_single_splay(d, s.deck.last(), n);
    }
    lemma_splay_done_after(0);
}

proof fn lemma_updates_keep_players(g: SessionView, n: nat)
    ensures
        g.after_updates(n).players == g.players,
        g.after_updates(n).center == g.center,
        g.after_updates(n).deck == g.deck,
    decreases n,
{
    if n > 0 {
        lemma_updates_keep_players(g, (n - 1) as nat);
    }
}

proof fn lemma_give_timer(g: SessionView, h: Seq<char>, n: nat)
    requires
        g.giving == Some((h, Progression::fresh(GIVING_TRAVEL_TIME as nat))),
        n < 60,
    ensures
        g.after_updates(n).giving == Some((h, Progression::fresh(GIVING_TRAVEL_TIME as nat).after(n))),
    decreases n,
{
    if n > 0 {
        lemma_give_timer(g, h, (n - 1) as nat);
        lemma_progression_done_after(GIVING_TRAVEL_TIME as nat, n);
    }
}

/// A card request from a joined player, with no give transition in flight
/// and a card left in the deck, changes the player's card on the chosen side
/// and the center card at once, and sends nothing; the player's state goes
/// out once, on the tick that ends the give transition, and on no earlier
/// tick.
pub proof fn lemma_give_notice_deferred(
    s: SessionView,
    client: Seq<char>,
    msg: Seq<char>,
    is_left: bool,
    card: CardSpec,
)
    requires
        handles_unique(s.players),
        player_index(s.players, client) is Some,
        s.giving is None,
        s.deck.len() > 0,
        field_or_empty(msg, ':', 0) == "card"@,
        card_request(field_or_empty(msg, ':', 1)) == Some((is_left, card)),
    ensures
        ({
            let i = player_index(s.players, client).unwrap();
            let g = s.handled(client, msg).0;
            &&& s.handled(client, msg).1.len() == 0
            &&& g.center == card
            &&& g.players[i] == s.players[i].holding(is_left, s.deck.last())
            &&& g.deck == s.deck.drop_last()
            &&& forall|n: nat|
                n + 1 < ticks_for(GIVING_TRAVEL_TIME as nat) ==> (
                #[trigger] g.after_updates(n)).update_messages().len() == 0
            &&& g.after_updates((ticks_for(GIVING_TRAVEL_TIME as nat) - 1) as nat).update_messages()
                == seq![(client, g.players[i].state_message())]
            &&& g.after_updates(ticks_for(GIVING_TRAVEL_TIME as nat)).giving is None
        }),
{
    let i = player_index(s.players, client).unwrap();
    assert forall|j: int| 0 <= j < i implies s.players[j].handle != client by {
        lemma_player_index_found(s.players, client);
    }
    lemma_player_index_found(s.players, client);
    let g = s.give_started(i, is_left, card);
    lemma_message_types_distinct();
    assert(s.handled(client, msg).0 == g);
    assert(g.players[i] =~= s.players[i].holding(is_left, s.deck.last()));
    assert forall|j: int| 0 <= j < i implies g.players[j].handle != client by {}
    lemma_player_index(g.players, client, i);
    let h = s.players[i].handle;
    Progression::lemma_fresh(GIVING_TRAVEL_TIME as nat);
    assert(ticks_for(GIVING_TRAVEL_TIME as nat) == 60);
    assert forall|n: nat| n + 1 < 60 implies (#[trigger] g.after_updates(n)).update_messages().len()
        == 0 by {
        lemma_give_timer(g, h, n);
        lemma_progression_done_after(GIVING_TRAVEL_TIME as nat, n + 1);
    }
    lemma_give_timer(g, h, 59);
    lemma_progression_done_after(GIVING_TRAVEL_TIME as nat, 60);
    lemma_updates_keep_players(g, 59);
}

proof fn lemma_player_index_found(ps: Seq<PlayerView>, h: Seq<char>)
    ensures
        player_index(ps, h) matches Some(i) ==> 0 <= i < ps.len() && ps[i].handle == h && forall|
            j: int,
        |
            0 <= j < i ==> ps[j].handle != h,
        player_index(ps, h) is None ==> forall|j: int| 0 <= j < ps.len() ==> ps[j].handle != h,
    decreases ps.len(),
{
    if ps.len() > 0 {
        lemma_player_index_found(ps.drop_first(), h);
        assert forall|j: int| 0 < j < ps.len() implies ps[j] == ps.drop_first()[j - 1] by {}
    }
}

/// While a give transition is in flight, a card request changes nothing and
/// sends nothing; from a joined client whose request has three fields it is
/// reported as handled, not as an error.
pub proof fn lemma_card_while_giving(s: SessionView, client: Seq<char>, msg: Seq<char>)
    requires
        s.giving is Some,
        field_or_empty(msg, ':', 0) == "card"@,
    ensures
        s.handled(client, msg) == (s, Seq::<(Seq<char>, Seq<char>)>::empty()),
        player_index(s.players, client) is Some && field(field_or_empty(msg, ':', 1), ',', 2) is Some
            ==> s.message_outcome(client, msg) == MessageOutcome::Handled,
{
    lemma_message_types_distinct();
}

proof fn lemma_message_types_distinct()
    ensures
        "card"@ != "join"@,
        "card"@ != "state-request"@,
        "card"@ != "deal"@,
        "deal"@ != "join"@,
        "deal"@ != "state-request"@,
        "join"@ != "state-request"@,
{
    reveal_strlit("card");
    reveal_strlit("join");
    reveal_strlit("deal");
    reveal_strlit("state-request");
    assert("card"@[1] != "join"@[1]);
    assert("card"@.len() != "state-request"@.len());
    assert("card"@[0] != "deal"@[0]);
    assert("deal"@[0] != "join"@[0]);
    assert("deal"@.len() != "state-request"@.len());
    assert("join"@.len() != "state-request"@.len());
}

/// A client that has not joined changes nothing and receives nothing with
/// any message but a join or a state request.
pub proof fn lemma_unjoined_ignored(s: SessionView, client: Seq<char>, msg: Seq<char>)
    requires
        player_index(s.players, client) is None,
        field_or_empty(msg, ':', 0) != "join"@,
        field_or_empty(msg, ':', 0) != "state-request"@,
    ensures
        s.handled(client, msg) == (s, Seq::<(Seq<char>, Seq<char>)>::empty()),
        s.message_outcome(client, msg) == MessageOutcome::NotJoined,
{
}

/// What became of an inbound message, beside the state change and the
/// messages it caused.
#[derive(PartialEq, Eq, Structural, Clone, Copy, Debug)]
pub enum MessageOutcome {
    /// The message was acted on, or dropped as the protocol asks (a card
    /// request while a give is in flight or with an empty deck).
    Handled,
    /// A joined client sent a message of unknown type; it was ignored.
    UnknownMessage,
    /// A card request had fewer than three fields; it was ignored.
    MalformedCard,
    /// A card request that would start a give named no card: an unknown suit
    /// or rank. The session is left as it was; this is a protocol violation
    /// that the caller must not pass over.
    InvalidCard,
    /// A client that has not joined sent a message other than a join or a
    /// state request; it was ignored.
    NotJoined,
}

impl SessionView {
    /// The outcome of `msg` from `client`, as `handled` treats it.
    pub open spec fn message_outcome(self, client: Seq<char>, msg: Seq<char>) -> MessageOutcome {
        let t = field_or_empty(msg, ':', 0);
        let arg = field_or_empty(msg, ':', 1);
        match player_index(self.players, client) {
            Some(i) => if t == "state-request"@ || t == "deal"@ {
                MessageOutcome::Handled
            } else if t == "card"@ {
                if field(arg, ',', 2) is None {
                    MessageOutcome::MalformedCard
                } else if self.giving is Some || self.deck.len() == 0 {
                    MessageOutcome::Handled
                } else if card_request(arg) is None {
                    MessageOutcome::InvalidCard
                } else {
                    MessageOutcome::Handled
                }
            } else {
                MessageOutcome::UnknownMessage
            },
            None => if t == "state-request"@ || t == "join"@ {
                MessageOutcome::Handled
            } else {
                MessageOutcome::NotJoined
            },
        }
    }
}

/// The session: a deck, the revealed row, the animations in flight, the
/// center card and the players.
pub struct MyCardGame {
    deck: Deck,
    splayed_cards: Vec<CardSpec>,
    splaying_cards: Vec<(CardSpec, SplayProgression)>,
    center_card: CardSpec,
    giving_card: Option<(String, Progression)>,
    players: Vec<Player>,
}

impl View for MyCardGame {
    type V = SessionView;

    closed spec fn view(&self) -> SessionView {
        SessionView {
            deck: self.deck@,
            splayed: self.splayed_cards@,
            splaying: self.splaying_cards@,
            center: self.center_card,
            giving: match self.giving_card {
                Some((h, p)) => Some((h@, p)),
                None => None,
            },
            players: Seq::new(self.players@.len(), |i: int| self.players@[i]@),
        }
    }
}

impl MyCardGame {
    /// The deck holds distinct cards and the players distinct handles.
    pub open spec fn wf(&self) -> bool {
        self@.deck.no_duplicates() && self@.deck.len() <= 52 && handles_unique(self@.players)
    }

    /// A fresh session: a shuffled deck whose top card has become the center card.
    pub fn new() -> (r: MyCardGame)
        ensures
            r.wf(),
            r@.deck.len() == 51,
            r@.deck.push(r@.center).to_multiset() == canonical_deck().to_multiset(),
            r@.splayed.len() == 0,
            r@.splaying.len() == 0,
            r@.giving is None,
            r@.players.len() == 0,
    {
        let mut deck = Deck::new();
        let ghost full = deck@;
        let center_card = deck.pop().unwrap();
        assert(full =~= deck@.push(center_card));
        let r = MyCardGame {
            deck,
            splayed_cards: Vec::new(),
            splaying_cards: Vec::new(),
            center_card,
            giving_card: None,
            players: Vec::new(),
        };
        r
    }

    /// The index of the player whose handle is `h`.
    fn find_player(&self, h: &String) -> (r: Option<usize>)
        ensures
            r matches Some(i) ==> player_index(self@.players, h@) == Some(i as int) && i
                < self@.players.len() && self@.players[i as int].handle == h@,
            r is None ==> player_index(self@.players, h@) is None && forall|j: int|
                0 <= j < self@.players.len() ==> self@.players[j].handle != h@,
    {
        let mut i: usize = 0;
        while i < self.players.len()
            invariant
                i <= self.players@.len(),
                forall|j: int| 0 <= j < i ==> self@.players[j].handle != h@,
            decreases self.players@.len() - i,
        {
            if self.players[i].handle == *h {
                proof {
                    lemma_player_index(self@.players, h@, i as int);
                }
                return Some(i);
            }
            i = i + 1;
        }
        proof {
            lemma_player_index(self@.players, h@, i as int);
        }
        None
    }

    /// Takes the top card of the deck and starts its splay sequence.
    fn deal(&mut self)
        requires
            old(self).wf(),
        ensures
            final(self).wf(),
            final(self)@ == old(self)@.dealt(),
    {
        if let Some(next_card) = self.deck.pop() {
            self.splaying_cards.push((next_card, SplayProgression::new()));
        }
        assert(self@.players =~= old(self)@.players);
    }

    /// Starts a give transition for player `i`: see `SessionView::give_started`.
    /// The player is told of its new card only when the transition ends.
    pub fn start_give_card(&mut self, i: usize, is_left: bool, card: CardSpec)
        requires
            old(self).wf(),
        ensures
            final(self).wf(),
            final(self)@ == old(self)@.give_started(i as int, is_left, card),
            old(self)@.giving is Some ==> final(self)@ == old(self)@,
    {
        if self.giving_card.is_some() || i >= self.players.len() {
            return;
        }
        if let Some(next_card) = self.deck.pop() {
            self.center_card = card;
            self.players[i].revoke_card(is_left);
            self.players[i].set_card(is_left, next_card);
            let handle = self.players[i].handle.clone();
            self.giving_card = Some((handle, Progression::new(GIVING_TRAVEL_TIME)));
            assert(self@.players =~= old(self)@.players.update(
                i as int,
                old(self)@.players[i as int].revoked(is_left).holding(is_left, next_card),
            ));
        }
    }

    /// The notice that ends a give transition to the player with handle `h`.
    fn finish_give_card(&self, h: &String) -> (r: Vec<(String, String)>)
        ensures
            outbound_view(r@) == give_notice(self@.players, h@),
    {
        let mut out: Vec<(String, String)> = Vec::new();
        if let Some(i) = self.find_player(h) {
            out.push(self.players[i].send_state());
            assert(outbound_view(out@) =~= give_notice(self@.players, h@));
        } else {
            assert(outbound_view(out@) =~= give_notice(self@.players, h@));
        }
        out
    }

    /// One tick; returns the messages to send.
    pub fn update(&mut self) -> (r: Vec<(String, String)>)
        requires
            old(self).wf(),
        ensures
            final(self).wf(),
            final(self)@ == old(self)@.updated(),
            outbound_view(r@) == old(self)@.update_messages(),
    {
        let ghost s0 = self@;
        let mut kept: Vec<(CardSpec, SplayProgression)> = Vec::new();
        let mut i: usize = 0;
        while i < self.splaying_cards.len()
            invariant
                self.wf(),
                i <= self.splaying_cards@.len(),
                self.splaying_cards@ == s0.splaying,
                self@.deck == s0.deck,
                self@.center == s0.center,
                self@.giving == s0.giving,
                self@.players == s0.players,
                kept@ == splays_kept(s0.splaying.take(i as int)),
                self.splayed_cards@ == s0.splayed + splays_finished(s0.splaying.take(i as int)),
            decreases self.splaying_cards@.len() - i,
        {
            let (card, sp0) = self.splaying_cards[i];
            let mut sp = sp0;
            sp.update();
            assert(s0.splaying.take(i + 1).drop_last() =~= s0.splaying.take(i as int));
            if sp.is_done() {
                self.splayed_cards.push(card);
            } else {
                kept.push((card, sp));
            }
            assert(self.splayed_cards@ =~= s0.splayed + splays_finished(
                s0.splaying.take(i + 1),
            ));
            i = i + 1;
        }
        assert(s0.splaying.take(i as int) =~= s0.splaying);
        self.splaying_cards = kept;
        let mut out: Vec<(String, String)> = Vec::new();
        if let Some((h, p)) = &self.giving_card {
            let mut q = *p;
            let handle = h.clone();
            q.update();
            if q.is_done() {
                self.giving_card = None;
                out = self.finish_give_card(&handle);
            } else {
                self.giving_card = Some((handle, q));
            }
        }
        assert(self@ =~= s0.updated());
        assert(outbound_view(out@) =~= s0.update_messages());
        out
    }

    /// Handles one inbound message from `client`; returns the messages to send.
    /// Handles one inbound message from `client`; returns the messages to
    /// send and what became of the message.
    pub fn handle_controlpad_message(&mut self, client: String, message: String) -> (r: (
        Vec<(String, String)>,
        MessageOutcome,
    ))
        requires
            old(self).wf(),
        ensures
            final(self).wf(),
            (final(self)@, outbound_view(r.0@)) == old(self)@.handled(client@, message@),
            r.1 == old(self)@.message_outcome(client@, message@),
    {
        let ghost s0 = self@;
        let (msg_type, rest) = split_first(message.as_str(), ':');
        let arg = match rest {
            Some(rest) => split_first(rest, ':').0,
            None => {
                proof {
                    reveal_strlit("");
                }
                assert(""@ =~= Seq::<char>::empty());
                ""
            },
        };
        proof {
            lemma_field_skip(message@, ':', 1);
            assert(msg_type@ == field_or_empty(message@, ':', 0));
            assert(arg@ == field_or_empty(message@, ':', 1));
        }
        let mut out: Vec<(String, String)> = Vec::new();
        let mut outcome = MessageOutcome::Handled;
        proof {
            lemma_message_types_distinct();
        }
        match self.find_player(&client) {
            Some(i) => {
                if str_eq(msg_type, "state-request") {
                    out.push(self.players[i].send_state());
                } else if str_eq(msg_type, "deal") {
                    self.deal();
                } else if str_eq(msg_type, "card") {
                    match parse_card(arg) {
                        None => {
                            outcome = MessageOutcome::MalformedCard;
                        },
                        Some((side, suit, rank)) => {
                            if self.giving_card.is_none() && self.deck.len() > 0 {
                                match (CardSuit::parse(suit), CardRank::parse(rank)) {
                                    (Some(s), Some(r)) => {
                                        let is_left = str_eq(side, "L");
                                        self.start_give_card(
                                            i,
                                            is_left,
                                            CardSpec { suit: s, rank: r },
                                        );
                                    },
                                    _ => {
                                        outcome = MessageOutcome::InvalidCard;
                                    },
                                }
                            }
                        },
                    }
                } else {
                    outcome = MessageOutcome::UnknownMessage;
                }
            },
            None => {
                if str_eq(msg_type, "state-request") {
                    out.push((client, String::from_str("state:joining")));
                } else if str_eq(msg_type, "join") {
                    let name = String::from_str(arg);
                    let left_card = self.deck.pop();
                    let right_card = self.deck.pop();
                    let player = Player::new(client, name, left_card, right_card);
                    assert(player@ == s0.joining_player(client@, arg@));
                    out.push(player.send_state());
                    self.players.push(player);
                    assert(self@.deck =~= s0.joined(client@, arg@).deck);
                    assert(self@.players =~= s0.joined(client@, arg@).players);
                } else {
                    outcome = MessageOutcome::NotJoined;
                }
            },
        }
        assert(outbound_view(out@) =~= s0.handled(client@, message@).1);
        (out, outcome)
    }

    pub fn deck(&self) -> (r: &Deck)
        ensures
            r@ == self@.deck,
            self.wf() ==> r.wf(),
    {
        &self.deck
    }

    /// Revealed cards, in reveal order.
    pub fn splayed_cards(&self) -> (r: &Vec<CardSpec>)
        ensures
            r@ == self@.splayed,
    {
        &self.splayed_cards
    }

    /// Cards on their way to the revealed row, with their animation.
    pub fn splaying_cards(&self) -> (r: &Vec<(CardSpec, SplayProgression)>)
        ensures
            r@ == self@.splaying,
    {
        &self.splaying_cards
    }

    pub fn center_card(&self) -> (r: CardSpec)
        ensures
            r == self@.center,
    {
        self.center_card
    }

    /// The timer of the give transition in flight, if any.
    pub fn giving_progress(&self) -> (r: Option<Progression>)
        ensures
            r == (match self@.giving {
                Some((_, p)) => Some(p),
                None => None,
            }),
    {
        match &self.giving_card {
            Some((_, p)) => Some(*p),
            None => None,
        }
    }

    pub fn players(&self) -> (r: &Vec<Player>)
        ensures
            r@.len() == self@.players.len(),
            forall|i: int| 0 <= i < r@.len() ==> r@[i]@ == self@.players[i],
    {
        &self.players
    }

    /// The local trigger: deals a card.
    pub fn handle_key_press(&mut self)
        requires
            old(self).wf(),
        ensures
            final(self).wf(),
            final(self)@ == old(self)@.dealt(),
    {
        self.deal();
    }
}

} // verus!
