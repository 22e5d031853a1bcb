use uno::card::{Card, Color, Type};
use uno::game::{placement_order, Game, START_FAILED};
use uno::packets::PacketType;

fn server_text(p: &PacketType) -> String {
    match p {
        PacketType::Message(from, body) => {
            assert_eq!(from, "Server");
            body.clone()
        }
        _ => panic!("not a message"),
    }
}

fn seated(ids: &[u128]) -> Game {
    let mut g = Game::new();
    for id in ids {
        g.join(*id);
        g.init_player(*id, "p");
    }
    g
}

#[test]
fn rooms_get_distinct_ids() {
    assert_ne!(Game::new().id, Game::new().id);
}

#[test]
fn join_twice_adds_once() {
    let mut g = Game::default();
    g.join(1);
    g.join(1);
    assert_eq!(g.players.len(), 1);
    assert_eq!(g.players[0].username, "connecting...");
}

#[test]
fn first_player_is_host_and_told() {
    let mut g = Game::new();
    g.join(1);
    let out = g.init_player(1, "ann");
    assert_eq!(out.len(), 1);
    assert_eq!(out[0].recipients, vec![1]);
    assert_eq!(server_text(&out[0].packet), "You are the host");
    g.join(2);
    let out2 = g.init_player(2, "bob");
    assert!(out2.is_empty());
    assert!(g.players[0].is_host);
    assert!(!g.players[1].is_host);
    assert_eq!(g.players[1].username, "bob");
    assert!(g.players[1].is_connected);
}

#[test]
fn get_player_reports_missing() {
    let g = seated(&[1, 2]);
    assert_eq!(g.get_player(2).unwrap().id, 2);
    assert!(g.get_player(3).is_none());
    assert_eq!(g.find_index(2), Some(1));
}

#[test]
fn addressing() {
    let g = seated(&[1, 2, 3]);
    let e = g.emit(2, PacketType::Register("x".to_string()));
    assert_eq!(e.recipients, vec![2]);
    let none = g.emit(9, PacketType::Register("x".to_string()));
    assert!(none.recipients.is_empty());
    let b = g.broadcast(PacketType::Register("x".to_string()));
    assert_eq!(b.recipients, vec![1, 2, 3]);
    let o = g.broadcast_ignore_self(2, PacketType::Register("x".to_string()));
    assert_eq!(o.recipients, vec![1, 3]);
}

#[test]
fn start_deals_eight_each() {
    let mut g = seated(&[1, 2, 3]);
    let out = g.start(10);
    assert!(g.active);
    assert_eq!(out.len(), 1);
    assert_eq!(out[0].recipients, vec![1, 2, 3]);
    assert_eq!(server_text(&out[0].packet), "The host has started the game");
    for p in &g.players {
        assert_eq!(p.cards.len(), 8);
    }
    assert_eq!(g.discard.len(), 1);
    assert!(g.discard[0].owner.is_none());
    assert_eq!(g.deck.len(), 120 - 1 - 24);
    assert_eq!(g.current_turn, Some(1));
    assert_eq!(g.statistics.started_at, 10);
}

#[test]
fn start_with_given_deck_is_exact() {
    let mut g = seated(&[1, 2]);
    let mut deck = Vec::new();
    deck.push(Card::new(Type::Nine, Color::Yellow));
    for _ in 0..8 {
        deck.push(Card::new(Type::One, Color::Red));
    }
    for _ in 0..8 {
        deck.push(Card::new(Type::Two, Color::Blue));
    }
    deck.push(Card::new(Type::Switch, Color::Green));
    let out = g.start_with_deck(deck, 0);
    assert_eq!(out.len(), 1);
    assert_eq!(g.discard, vec![Card::new(Type::Two, Color::Blue)]);
    assert!(g.players[0].cards.iter().any(|c| c.kind == Type::Switch));
    assert!(g.players[1].cards.iter().all(|c| c.kind == Type::One));
    assert_eq!(g.deck, vec![Card::new(Type::Nine, Color::Yellow)]);
}

#[test]
fn start_fails_when_deck_too_small() {
    let mut g = seated(&[1, 2]);
    let deck = vec![Card::new(Type::One, Color::Red); 16];
    let out = g.start_with_deck(deck, 0);
    assert!(!g.active);
    assert_eq!(out.len(), 1);
    assert_eq!(out[0].recipients, vec![1]);
    assert!(matches!(out[0].packet, PacketType::Error(code, _) if code == START_FAILED));
}

#[test]
fn start_fails_without_start_card() {
    let mut g = seated(&[1]);
    let deck = vec![Card::new(Type::Block, Color::Red); 20];
    let out = g.start_with_deck(deck, 0);
    assert!(!g.active);
    assert!(g.discard.is_empty());
    assert!(matches!(out[0].packet, PacketType::Error(_, _)));
}

#[test]
fn start_fails_for_fifteen_players() {
    let ids: Vec<u128> = (1..=15).collect();
    let mut g = seated(&ids);
    let out = g.start(0);
    assert!(!g.active);
    assert_eq!(out.len(), 1);
}

#[test]
fn start_while_active_does_nothing() {
    let mut g = seated(&[1]);
    g.start(0);
    let deck_len = g.deck.len();
    assert!(g.start(5).is_empty());
    assert_eq!(g.deck.len(), deck_len);
}

#[test]
fn forced_leave_ends_once() {
    let mut g = seated(&[1, 2, 3]);
    g.start(0);
    let out = g.leave(2, 30);
    assert!(!g.active);
    assert_eq!(out.len(), 2);
    assert_eq!(out[0].recipients, vec![1, 3]);
    assert_eq!(server_text(&out[0].packet), "Game ended due to one of the players leaving");
    assert!(matches!(out[1].packet, PacketType::WinUpdate(..)));
    let again = g.leave(2, 31);
    assert!(again.is_empty());
    assert!(!g.active);
    assert_eq!(g.players.len(), 2);
}

#[test]
fn leave_while_waiting_sends_nothing() {
    let mut g = seated(&[1, 2]);
    assert!(g.leave(1, 0).is_empty());
    assert_eq!(g.players.len(), 1);
    assert_eq!(g.players[0].id, 2);
}

#[test]
fn last_player_leaving_ends_game() {
    let mut g = seated(&[1]);
    g.start(0);
    assert!(g.leave(1, 5).is_empty());
    assert!(!g.active);
}

#[test]
fn end_names_player_with_empty_hand() {
    let mut g = seated(&[1, 2, 3]);
    g.players[1].username = "bob".to_string();
    g.start(100);
    g.players[1].cards.clear();
    g.players[2].cards.truncate(3);
    let out = g.end(160);
    assert!(!g.active);
    assert_eq!(out.len(), 1);
    assert_eq!(out[0].recipients, vec![1, 2, 3]);
    match &out[0].packet {
        PacketType::WinUpdate(wid, wname, others, stats) => {
            assert_eq!(*wid, 2);
            assert_eq!(wname, "bob");
            assert_eq!(others.len(), 2);
            assert_eq!(stats.player_count, 3);
            assert_eq!(stats.duration(), 60);
        }
        _ => panic!("expected a win update"),
    }
    assert!(g.end(200).is_empty());
}

#[test]
fn placements_by_hand_size_then_join_order() {
    let mut g = seated(&[1, 2, 3, 4]);
    g.players[0].cards = vec![Card::new(Type::One, Color::Red); 3];
    g.players[1].cards = vec![Card::new(Type::One, Color::Red); 1];
    g.players[2].cards = vec![Card::new(Type::One, Color::Red); 3];
    g.players[3].cards = vec![Card::new(Type::One, Color::Red); 2];
    assert_eq!(placement_order(&g.players), vec![1, 3, 0, 2]);
}

#[test]
fn game_data_snapshot() {
    let mut g = Game::new();
    g.join(1);
    g.init_player(1, "ann");
    g.join(2);
    g.init_player(2, "bob");
    match g.game_data(2) {
        Some(PacketType::GameData(own, name, all)) => {
            assert_eq!(own, 2);
            assert_eq!(name, "bob");
            assert_eq!(all, vec![(1, "ann".to_string()), (2, "bob".to_string())]);
        }
        _ => panic!("expected a snapshot"),
    }
    assert!(g.game_data(3).is_none());
}
