use uno::card::{Card, Color, Type};

fn card(kind: Type, color: Color) -> Card {
    Card::new(kind, color)
}

fn owned(kind: Type, color: Color, owner: u128) -> Card {
    Card::new_with_owner(kind, color, Some(owner))
}

#[test]
fn color_iter_lists_four_colors() {
    assert_eq!(Color::iter(), vec![Color::Red, Color::Blue, Color::Green, Color::Yellow]);
}

#[test]
fn type_iter_lists_fifteen_kinds() {
    let kinds = Type::iter();
    assert_eq!(kinds.len(), 15);
    assert_eq!(kinds[0], Type::Zero);
    assert_eq!(kinds[9], Type::Nine);
    assert_eq!(kinds[14], Type::DrawFour);
}

#[test]
fn deck_has_two_of_every_pair() {
    let deck = Card::generate_deck();
    assert_eq!(deck.len(), 120);
    for c in Color::iter() {
        for k in Type::iter() {
            let n = deck.iter().filter(|x| x.kind == k && x.color == c).count();
            assert_eq!(n, 2);
        }
    }
    assert!(deck.iter().all(|x| x.owner.is_none()));
}

#[test]
fn deck_is_shuffled() {
    let mut ordered = Vec::new();
    for c in Color::iter() {
        for k in Type::iter() {
            ordered.push(card(k, c));
            ordered.push(card(k, c));
        }
    }
    let a = Card::generate_deck();
    let b = Card::generate_deck();
    assert!(a != ordered || b != ordered);
}

#[test]
fn start_card_is_last_allowed_and_removed() {
    let mut deck = vec![
        card(Type::Three, Color::Blue),
        card(Type::Five, Color::Red),
        card(Type::Block, Color::Red),
        card(Type::Switch, Color::Green),
        card(Type::DrawFour, Color::Red),
        card(Type::Reverse, Color::Yellow),
        card(Type::DrawTwo, Color::Blue),
    ];
    let c = Card::get_allowed_start_card(&mut deck);
    assert_eq!(c, Some(card(Type::Five, Color::Red)));
    assert_eq!(deck.len(), 6);
    assert_eq!(deck[0], card(Type::Three, Color::Blue));
    assert_eq!(deck[1], card(Type::Block, Color::Red));
}

#[test]
fn start_card_none_when_all_excluded() {
    let mut deck = vec![
        card(Type::Block, Color::Red),
        card(Type::Switch, Color::Green),
        card(Type::DrawFour, Color::Red),
        card(Type::Reverse, Color::Yellow),
        card(Type::DrawTwo, Color::Blue),
    ];
    let before = deck.clone();
    assert_eq!(Card::get_allowed_start_card(&mut deck), None);
    assert_eq!(deck, before);
}

#[test]
fn start_card_from_full_deck_is_never_excluded() {
    for _ in 0..20 {
        let mut deck = Card::generate_deck();
        let c = Card::get_allowed_start_card(&mut deck).unwrap();
        assert!(!matches!(
            c.kind,
            Type::Block | Type::Switch | Type::DrawFour | Type::Reverse | Type::DrawTwo
        ));
        assert_eq!(deck.len(), 119);
    }
}

#[test]
fn legality_own_top_card_needs_same_kind() {
    let top = owned(Type::Five, Color::Red, 7);
    let hand = vec![card(Type::Five, Color::Blue), card(Type::Nine, Color::Red)];
    let r = Card::get_allowed_cards(top, hand, 7);
    assert_eq!(r, vec![card(Type::Five, Color::Blue)]);
}

#[test]
fn legality_unowned_top_card() {
    let top = card(Type::Switch, Color::Green);
    let hand = vec![
        card(Type::DrawFour, Color::Red),
        card(Type::Zero, Color::Green),
        card(Type::Two, Color::Blue),
    ];
    let r = Card::get_allowed_cards(top, hand, 7);
    assert_eq!(r, vec![card(Type::DrawFour, Color::Red), card(Type::Zero, Color::Green)]);
}

#[test]
fn legality_draw_card_from_other_needs_same_kind() {
    let top = owned(Type::DrawTwo, Color::Red, 3);
    let hand = vec![
        card(Type::DrawTwo, Color::Blue),
        card(Type::DrawFour, Color::Red),
        card(Type::Seven, Color::Red),
        card(Type::Switch, Color::Green),
    ];
    let r = Card::get_allowed_cards(top, hand, 7);
    assert_eq!(r, vec![card(Type::DrawTwo, Color::Blue)]);
}

#[test]
fn legality_other_owner_open_play() {
    let top = owned(Type::Seven, Color::Yellow, 3);
    let hand = vec![
        card(Type::Seven, Color::Blue),
        card(Type::One, Color::Yellow),
        card(Type::Switch, Color::Red),
        card(Type::Two, Color::Green),
    ];
    let r = Card::get_allowed_cards(top, hand, 7);
    assert_eq!(
        r,
        vec![
            card(Type::Seven, Color::Blue),
            card(Type::One, Color::Yellow),
            card(Type::Switch, Color::Red)
        ]
    );
}

#[test]
fn legality_empty_hand_gives_nothing() {
    let top = card(Type::One, Color::Red);
    assert!(Card::get_allowed_cards(top, Vec::new(), 1).is_empty());
}
