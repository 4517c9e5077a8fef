use card_session::my_card_game::{parse_card, Deck, MessageOutcome, MyCardGame, Player};
use card_session::progress::{Progression, SplayProgression};
use card_session::standard_deck::{CardRank, CardSpec, CardSuit};
use std::collections::HashSet;

fn card(suit: &str, rank: &str) -> CardSpec {
    CardSpec::from_strs(suit, rank)
}

fn drain(mut deck: Deck) -> Vec<CardSpec> {
    let mut out = Vec::new();
    while let Some(c) = deck.pop() {
        out.push(c);
    }
    out
}

fn msg(game: &mut MyCardGame, client: &str, text: &str) -> Vec<(String, String)> {
    game.handle_controlpad_message(client.to_string(), text.to_string()).0
}

fn outcome(game: &mut MyCardGame, client: &str, text: &str) -> MessageOutcome {
    game.handle_controlpad_message(client.to_string(), text.to_string()).1
}

#[test]
fn card_text_round_trip() {
    let c = card("hearts", "10");
    assert_eq!(c.suit, CardSuit::Heart);
    assert_eq!(c.rank, CardRank::_10);
    assert_eq!(c.to_string(), "hearts,10");
    assert_eq!(card("clubs", "02").to_string(), "clubs,02");
    assert_eq!(card("spades", "A").to_string(), "spades,A");
    assert_eq!(CardSuit::from_str("diamonds").to_str(), "diamonds");
    assert_eq!(CardRank::from_str("Q").to_str(), "Q");
}

#[test]
fn unknown_names_do_not_parse() {
    assert_eq!(CardSuit::parse("heart"), None);
    assert_eq!(CardSuit::parse(""), None);
    assert_eq!(CardRank::parse("2"), None);
    assert_eq!(CardRank::parse("11"), None);
    assert_eq!(CardRank::parse("K"), Some(CardRank::_K));
}

#[test]
fn fresh_deck_holds_each_card_once() {
    let cards = drain(Deck::new());
    assert_eq!(cards.len(), 52);
    let distinct: HashSet<CardSpec> = cards.iter().cloned().collect();
    assert_eq!(distinct.len(), 52);
}

#[test]
fn fresh_decks_are_shuffled() {
    let first = drain(Deck::new());
    let mut differs = false;
    for _ in 0..10 {
        if drain(Deck::new()) != first {
            differs = true;
        }
    }
    assert!(differs);
}

#[test]
fn deck_height_rounds_up() {
    let mut deck = Deck::new();
    assert_eq!(deck.deck_height(), 9);
    for _ in 0..46 {
        deck.pop();
    }
    assert_eq!(deck.len(), 6);
    assert_eq!(deck.deck_height(), 1);
    deck.pop();
    assert_eq!(deck.deck_height(), 1);
    for _ in 0..5 {
        deck.pop();
    }
    assert_eq!(deck.deck_height(), 0);
    assert_eq!(deck.pop(), None);
}

#[test]
fn progression_of_one_second_takes_sixty_ticks() {
    let mut p = Progression::new(1000);
    assert_eq!(p.progress(), (0, 3000));
    for _ in 0..59 {
        p.update();
    }
    assert!(!p.is_done());
    assert_eq!(p.progress(), (2950, 3000));
    p.update();
    assert!(p.is_done());
    assert_eq!(p.progress(), (3000, 3000));
}

#[test]
fn progression_step_is_one_over_sixty_durations() {
    // 10 ms: each tick adds 1 / (60 * 0.01) = 5/3
    let mut p = Progression::new(10);
    assert_eq!(p.progress(), (0, 30));
    assert!(!p.is_done());
    p.update();
    assert_eq!(p.progress(), (50, 30));
    assert!(p.is_done());
    p.update();
    assert_eq!(p.progress(), (100, 30));
}

#[test]
fn progression_partial_tick_durations() {
    // 210 ms is 12.6 ticks: done after 13, not after 12
    let mut p = Progression::new(210);
    for _ in 0..12 {
        p.update();
    }
    assert!(!p.is_done());
    p.update();
    assert!(p.is_done());
}

#[test]
fn progression_of_a_very_long_duration() {
    let mut p = Progression::new(u64::MAX);
    p.update();
    assert!(!p.is_done());
    assert_eq!(p.progress(), (50, u64::MAX as u128 * 3));
}

#[test]
fn splay_sequence_phases() {
    let mut sp = SplayProgression::new();
    for t in 1..=126 {
        sp.update();
        let travel = matches!(sp, SplayProgression::Travel(_));
        assert_eq!(travel, t >= 36, "tick {}", t);
        assert_eq!(sp.is_done(), t >= 126, "tick {}", t);
    }
}

#[test]
fn card_payload_fields() {
    assert_eq!(parse_card("L,hearts,10"), Some(("L", "hearts", "10")));
    assert_eq!(parse_card("R,clubs,A,extra"), Some(("R", "clubs", "A")));
    assert_eq!(parse_card("L,hearts"), None);
    assert_eq!(parse_card(""), None);
}

#[test]
fn player_state_string() {
    let mut p = Player::new(
        "h1".to_string(),
        "Bob".to_string(),
        Some(card("hearts", "10")),
        Some(card("spades", "K")),
    );
    assert_eq!(p.state_string(), "Bob:hearts,10:spades,K");
    p.revoke_card(false);
    assert_eq!(p.state_string(), "Bob:hearts,10:");
    p.revoke_card(true);
    assert_eq!(p.state_string(), "Bob::");
    let (to, text) = p.send_state();
    assert_eq!(to, "h1");
    assert_eq!(text, "state:playing:Bob::");
}

#[test]
fn join_sends_state_with_two_cards() {
    let mut game = MyCardGame::new();
    assert_eq!(game.deck().len(), 51);
    let out = msg(&mut game, "c1", "join:Alice");
    assert_eq!(out.len(), 1);
    assert_eq!(out[0].0, "c1");
    let text = &out[0].1;
    assert!(text.starts_with("state:playing:Alice:"));
    let parts: Vec<&str> = text.split(':').collect();
    assert_eq!(parts.len(), 5);
    assert!(!parts[3].is_empty());
    assert!(!parts[4].is_empty());
    assert_eq!(game.players().len(), 1);
    assert_eq!(game.deck().len(), 49);
    let p = &game.players()[0];
    let left = p.left_card().unwrap().to_string();
    let right = p.right_card().unwrap().to_string();
    assert_eq!(*text, format!("state:playing:Alice:{}:{}", left, right));
}

#[test]
fn state_request_before_and_after_join() {
    let mut game = MyCardGame::new();
    let out = msg(&mut game, "c1", "state-request");
    assert_eq!(out, vec![("c1".to_string(), "state:joining".to_string())]);
    let joined = msg(&mut game, "c1", "join:Alice");
    let again = msg(&mut game, "c1", "state-request");
    assert_eq!(again, joined);
}

#[test]
fn deal_then_settle_reveals_one_card() {
    let mut game = MyCardGame::new();
    msg(&mut game, "c1", "join:Alice");
    let deck_before = game.deck().len();
    assert!(msg(&mut game, "c1", "deal").is_empty());
    assert_eq!(game.deck().len(), deck_before - 1);
    assert_eq!(game.splaying_cards().len(), 1);
    let dealt = game.splaying_cards()[0].0;
    for _ in 0..125 {
        assert!(game.update().is_empty());
        assert_eq!(game.splayed_cards().len(), 0);
    }
    game.update();
    assert_eq!(game.splayed_cards(), &vec![dealt]);
    assert_eq!(game.splaying_cards().len(), 0);
    assert_eq!(game.deck().len(), deck_before - 1);
}

#[test]
fn key_press_deals() {
    let mut game = MyCardGame::new();
    game.handle_key_press();
    assert_eq!(game.deck().len(), 50);
    assert_eq!(game.splaying_cards().len(), 1);
}

#[test]
fn give_notice_waits_for_transition() {
    let mut game = MyCardGame::new();
    msg(&mut game, "c1", "join:Alice");
    let old_left = game.players()[0].left_card();
    let right = game.players()[0].right_card();
    let deck_before = game.deck().len();
    let out = msg(&mut game, "c1", "card:L,hearts,10");
    assert!(out.is_empty());
    assert_eq!(game.center_card(), card("hearts", "10"));
    let new_left = game.players()[0].left_card();
    assert!(new_left.is_some());
    assert_ne!(new_left, old_left);
    assert_eq!(game.players()[0].right_card(), right);
    assert_eq!(game.deck().len(), deck_before - 1);
    assert!(game.giving_progress().is_some());
    for _ in 0..59 {
        assert!(game.update().is_empty());
    }
    let out = game.update();
    assert_eq!(out.len(), 1);
    assert_eq!(out[0].0, "c1");
    let expected = format!(
        "state:playing:Alice:{}:{}",
        new_left.unwrap().to_string(),
        right.unwrap().to_string()
    );
    assert_eq!(out[0].1, expected);
    assert!(game.giving_progress().is_none());
    assert!(game.update().is_empty());
}

#[test]
fn second_card_request_while_giving_is_ignored() {
    let mut game = MyCardGame::new();
    msg(&mut game, "c1", "join:Alice");
    msg(&mut game, "c1", "card:L,hearts,10");
    let left = game.players()[0].left_card();
    let right = game.players()[0].right_card();
    let deck_len = game.deck().len();
    let timer = game.giving_progress().unwrap().progress();
    let out = msg(&mut game, "c1", "card:R,clubs,02");
    assert!(out.is_empty());
    assert_eq!(game.center_card(), card("hearts", "10"));
    assert_eq!(game.players()[0].left_card(), left);
    assert_eq!(game.players()[0].right_card(), right);
    assert_eq!(game.deck().len(), deck_len);
    assert_eq!(game.giving_progress().unwrap().progress(), timer);
}

#[test]
fn malformed_card_request_is_ignored() {
    let mut game = MyCardGame::new();
    msg(&mut game, "c1", "join:Alice");
    let center = game.center_card();
    let deck_len = game.deck().len();
    assert!(msg(&mut game, "c1", "card:L,hearts").is_empty());
    assert_eq!(outcome(&mut game, "c1", "card:L,hearts"), MessageOutcome::MalformedCard);
    assert_eq!(outcome(&mut game, "c1", "card"), MessageOutcome::MalformedCard);
    assert_eq!(outcome(&mut game, "c1", "shout:hello"), MessageOutcome::UnknownMessage);
    assert_eq!(game.center_card(), center);
    assert_eq!(game.deck().len(), deck_len);
    assert!(game.giving_progress().is_none());
}

#[test]
fn card_request_with_unknown_names_is_reported() {
    let mut game = MyCardGame::new();
    msg(&mut game, "c1", "join:Alice");
    let center = game.center_card();
    let deck_len = game.deck().len();
    let (out, result) =
        game.handle_controlpad_message("c1".to_string(), "card:L,stars,10".to_string());
    assert!(out.is_empty());
    assert_eq!(result, MessageOutcome::InvalidCard);
    assert_eq!(outcome(&mut game, "c1", "card:L,hearts,11"), MessageOutcome::InvalidCard);
    assert_eq!(game.center_card(), center);
    assert_eq!(game.deck().len(), deck_len);
    assert!(game.giving_progress().is_none());
    assert_eq!(outcome(&mut game, "c1", "card:R,hearts,J"), MessageOutcome::Handled);
    // a request dropped while a give is in flight is no error
    assert_eq!(outcome(&mut game, "c1", "card:L,stars,10"), MessageOutcome::Handled);
}

#[test]
fn start_give_card_while_giving_changes_nothing() {
    let mut game = MyCardGame::new();
    msg(&mut game, "c1", "join:Alice");
    game.start_give_card(0, true, card("hearts", "10"));
    assert_eq!(game.center_card(), card("hearts", "10"));
    let left = game.players()[0].left_card();
    let deck_len = game.deck().len();
    game.start_give_card(0, false, card("clubs", "02"));
    assert_eq!(game.center_card(), card("hearts", "10"));
    assert_eq!(game.players()[0].left_card(), left);
    assert_eq!(game.deck().len(), deck_len);
    game.start_give_card(7, true, card("clubs", "02"));
    assert_eq!(game.deck().len(), deck_len);
}

#[test]
fn unjoined_client_cannot_play() {
    let mut game = MyCardGame::new();
    assert!(msg(&mut game, "c9", "deal").is_empty());
    assert!(msg(&mut game, "c9", "card:L,hearts,10").is_empty());
    assert!(msg(&mut game, "c9", "").is_empty());
    assert_eq!(outcome(&mut game, "c9", "deal"), MessageOutcome::NotJoined);
    assert_eq!(outcome(&mut game, "c9", "state-request"), MessageOutcome::Handled);
    assert_eq!(game.players().len(), 0);
    assert_eq!(game.deck().len(), 51);
    assert_eq!(game.splaying_cards().len(), 0);
}

#[test]
fn join_with_empty_deck_gives_no_cards() {
    let mut game = MyCardGame::new();
    msg(&mut game, "c0", "join:Host");
    for _ in 0..50 {
        game.handle_key_press();
    }
    assert_eq!(game.deck().len(), 0);
    let out = msg(&mut game, "c1", "join:Late");
    assert_eq!(out, vec![("c1".to_string(), "state:playing:Late::".to_string())]);
    assert!(msg(&mut game, "c1", "card:L,hearts,10").is_empty());
    assert!(game.giving_progress().is_none());
    game.handle_key_press();
    assert_eq!(game.splaying_cards().len(), 49);
}

#[test]
fn join_without_name() {
    let mut game = MyCardGame::new();
    let out = msg(&mut game, "c1", "join");
    assert_eq!(out.len(), 1);
    assert!(out[0].1.starts_with("state:playing::"));
}
