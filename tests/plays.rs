use uno::card::{Card, Color, Type};
use uno::game::{Game, ACTION_REFUSED};
use uno::packets::PacketType;
use uno::player::Actions;

fn table(ids: &[u128]) -> Game {
    let mut g = Game::new();
    for id in ids {
        g.join(*id);
        g.init_player(*id, "p");
    }
    g.start(0);
    g.discard = vec![Card::new(Type::Five, Color::Red)];
    g
}

fn refused(out: &[uno::packets::Outbound], id: u128) -> bool {
    out.len() == 1
        && out[0].recipients == vec![id]
        && matches!(out[0].packet, PacketType::Error(code, _) if code == ACTION_REFUSED)
}

#[test]
fn draw_takes_card_from_draw_end() {
    let mut g = table(&[1, 2]);
    let top = *g.deck.last().unwrap();
    let deck_len = g.deck.len();
    assert!(g.draw_card(1).is_empty());
    assert_eq!(g.deck.len(), deck_len - 1);
    assert_eq!(g.players[0].cards.len(), 9);
    assert_eq!(*g.players[0].cards.last().unwrap(), top);
    assert_eq!(g.players[0].actions, vec![Actions::DrawCard]);
}

#[test]
fn draw_out_of_turn_is_refused() {
    let mut g = table(&[1, 2]);
    let out = g.draw_card(2);
    assert!(refused(&out, 2));
    assert_eq!(g.players[1].cards.len(), 8);
}

#[test]
fn draw_before_start_is_refused() {
    let mut g = Game::new();
    g.join(1);
    assert!(refused(&g.draw_card(1), 1));
}

#[test]
fn place_legal_card() {
    let mut g = table(&[1, 2]);
    g.players[0].cards = vec![Card::new(Type::Five, Color::Blue), Card::new(Type::Nine, Color::Green)];
    assert!(g.place_card(1, 0, 5).is_empty());
    assert_eq!(g.discard[0], Card::new_with_owner(Type::Five, Color::Blue, Some(1)));
    assert_eq!(g.discard.len(), 2);
    assert_eq!(g.players[0].cards, vec![Card::new(Type::Nine, Color::Green)]);
    assert!(g.players[0].can_end());
    assert!(g.active);
}

#[test]
fn place_illegal_card_is_refused() {
    let mut g = table(&[1, 2]);
    g.players[0].cards = vec![Card::new(Type::Nine, Color::Green)];
    let out = g.place_card(1, 0, 5);
    assert!(refused(&out, 1));
    assert_eq!(g.players[0].cards.len(), 1);
    assert_eq!(g.discard.len(), 1);
}

#[test]
fn place_bad_index_is_refused() {
    let mut g = table(&[1, 2]);
    assert!(refused(&g.place_card(1, 8, 5), 1));
}

#[test]
fn place_last_card_wins() {
    let mut g = table(&[1, 2]);
    g.players[0].cards = vec![Card::new(Type::Two, Color::Red)];
    let out = g.place_card(1, 0, 9);
    assert!(!g.active);
    assert_eq!(out.len(), 1);
    match &out[0].packet {
        PacketType::WinUpdate(wid, _, others, stats) => {
            assert_eq!(*wid, 1);
            assert_eq!(others.len(), 1);
            assert_eq!(stats.player_count, 2);
        }
        _ => panic!("expected a win update"),
    }
}

#[test]
fn reverse_turns_direction() {
    let mut g = table(&[1, 2, 3]);
    g.players[0].cards = vec![Card::new(Type::Reverse, Color::Red), Card::new(Type::One, Color::Blue)];
    g.place_card(1, 0, 0);
    assert!(g.reversed);
    assert!(g.end_turn(1).is_empty());
    assert_eq!(g.current_turn, Some(3));
}

#[test]
fn end_turn_passes_to_next_player() {
    let mut g = table(&[1, 2, 3]);
    g.draw_card(1);
    g.draw_card(1);
    assert!(refused(&g.end_turn(1), 1));
    g.draw_card(1);
    assert!(g.end_turn(1).is_empty());
    assert_eq!(g.current_turn, Some(2));
    assert!(g.players[0].actions.is_empty());
    assert!(refused(&g.end_turn(1), 1));
}

#[test]
fn end_turn_wraps_around() {
    let mut g = table(&[1, 2]);
    g.current_turn = Some(2);
    g.players[1].record_place();
    assert!(g.end_turn(2).is_empty());
    assert_eq!(g.current_turn, Some(1));
}
