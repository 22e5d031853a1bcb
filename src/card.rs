use vstd::prelude::*;

verus! {

/// The four card colors.
#[derive(Debug, Clone, Copy, PartialEq, Eq, Structural)]
pub enum Color {
    Red,
    Blue,
    Green,
    Yellow,
}

/// The fifteen card kinds: the numbers zero to nine and the five action kinds.
#[derive(Debug, Clone, Copy, PartialEq, Eq, Structural)]
pub enum Type {
    Zero,
    One,
    Two,
    Three,
    Four,
    Five,
    Six,
    Seven,
    Eight,
    Nine,
    Block,
    Reverse,
    DrawTwo,
    Switch,
    DrawFour,
}

/// A card: its kind, its color and the player who placed it last, if any.
#[derive(Debug, Clone, Copy, PartialEq, Eq, Structural)]
pub struct Card {
    pub kind: Type,
    pub color: Color,
    pub owner: Option<u128>,
}

/// Every color, in declaration order.
pub open spec fn all_colors() -> Seq<Color> {
    seq![Color::Red, Color::Blue, Color::Green, Color::Yellow]
}

/// Every kind, in declaration order.
pub open spec fn all_kinds() -> Seq<Type> {
    seq![
        Type::Zero, Type::One, Type::Two, Type::Three, Type::Four,
        Type::Five, Type::Six, Type::Seven, Type::Eight, Type::Nine,
        Type::Block, Type::Reverse, Type::DrawTwo, Type::Switch, Type::DrawFour,
    ]
}

/// Kinds that may be played on any color.
pub open spec fn is_special(k: Type) -> bool {
    k == Type::Switch || k == Type::DrawFour
}

/// Kinds whose effect makes the next player draw.
pub open spec fn is_draw_kind(k: Type) -> bool {
    k == Type::DrawTwo || k == Type::DrawFour
}

/// Kinds that may not open the discard pile.
pub open spec fn is_start_excluded(k: Type) -> bool {
    k == Type::Block || k == Type::Switch || k == Type::DrawFour || k == Type::Reverse
        || k == Type::DrawTwo
}

/// The open-play rule: a special kind, or the same color, or the same kind.
pub open spec fn matches_open(top: Card, card: Card) -> bool {
    is_special(card.kind) || card.color == top.color || card.kind == top.kind
}

/// Whether `card` may be placed on `top` by the player `actor`.
pub open spec fn is_legal(top: Card, card: Card, actor: u128) -> bool {
    if top.owner == Some(actor) {
        card.kind == top.kind
    } else if top.owner is None {
        matches_open(top, card)
    } else if is_draw_kind(top.kind) {
        card.kind == top.kind
    } else {
        matches_open(top, card)
    }
}

/// `is_legal` as a predicate on cards, for a fixed top card and actor.
pub open spec fn legal_on(top: Card, actor: u128) -> spec_fn(Card) -> bool {
    |c: Card| is_legal(top, c, actor)
}

/// The unowned card of the given kind and color.
pub open spec fn fresh(k: Type, c: Color) -> Card {
    Card { kind: k, color: c, owner: None }
}

/// Position of a color in `all_colors`.
pub open spec fn color_rank(c: Color) -> int {
    match c {
        Color::Red => 0,
        Color::Blue => 1,
        Color::Green => 2,
        Color::Yellow => 3,
    }
}

/// Position of a kind in `all_kinds`.
pub open spec fn kind_rank(k: Type) -> int {
    match k {
        Type::Zero => 0,
        Type::One => 1,
        Type::Two => 2,
        Type::Three => 3,
        Type::Four => 4,
        Type::Five => 5,
        Type::Six => 6,
        Type::Seven => 7,
        Type::Eight => 8,
        Type::Nine => 9,
        Type::Block => 10,
        Type::Reverse => 11,
        Type::DrawTwo => 12,
        Type::Switch => 13,
        Type::DrawFour => 14,
    }
}

/// A full deck: 120 cards, two unowned cards of every kind and color.
pub open spec fn is_full_deck(d: Seq<Card>) -> bool {
    &&& d.len() == 120
    &&& forall|k: Type, c: Color| #[trigger] d.to_multiset().count(fresh(k, c)) == 2
    &&& forall|i: int| 0 <= i < d.len() ==> (#[trigger] d[i]).owner is None
}

/// `i` is the position of the start card that `get_allowed_start_card` takes:
/// the last card of `d` whose kind may open the discard pile.
pub open spec fn is_start_position(d: Seq<Card>, i: int) -> bool {
    &&& 0 <= i < d.len()
    &&& !is_start_excluded(d[i].kind)
    &&& forall|j: int| i < j < d.len() ==> is_start_excluded(#[trigger] d[j].kind)
}

/// Whether some card of `d` may open the discard pile.
pub open spec fn has_start_card(d: Seq<Card>) -> bool {
    exists|i: int| 0 <= i < d.len() && !is_start_excluded(#[trigger] d[i].kind)
}

/// Relies on rand's `SliceRandom::shuffle` with `thread_rng`: it permutes the
/// slice in place by swaps, so the same cards remain.
#[verifier::external_body]
fn shuffle_cards(v: &mut Vec<Card>)
    ensures
        final(v)@.to_multiset() == old(v)@.to_multiset(),
{
    rand::seq::SliceRandom::shuffle(v.as_mut_slice(), &mut rand::thread_rng());
}

impl Color {
    pub fn iter() -> (r: Vec<Color>)
        ensures
            r@ == all_colors(),
    {
        let r = vec![Color::Red, Color::Blue, Color::Green, Color::Yellow];
        assert(r@ =~= all_colors());
        r
    }
}

impl Type {
    pub fn iter() -> (r: Vec<Type>)
        ensures
            r@ == all_kinds(),
    {
        let r = vec![
            Type::Zero,
            Type::One,
            Type::Two,
            Type::Three,
            Type::Four,
            Type::Five,
            Type::Six,
            Type::Seven,
            Type::Eight,
            Type::Nine,
            Type::Block,
            Type::Reverse,
            Type::DrawTwo,
            Type::Switch,
            Type::DrawFour,
        ];
        assert(r@ =~= all_kinds());
        r
    }
}

impl Card {
    pub fn new(kind: Type, color: Color) -> (r: Card)
        ensures
            r == fresh(kind, color),
    {
        Card { kind, color, owner: None }
    }

    pub fn new_with_owner(kind: Type, color: Color, owner: Option<u128>) -> (r: Card)
        ensures
            r == (Card { kind, color, owner }),
    {
        Card { kind, color, owner }
    }

    /// A full deck of 120 cards in random order.
    pub fn generate_deck() -> (r: Vec<Card>)
        ensures
            is_full_deck(r@),
    {
        broadcast use vstd::seq_lib::group_seq_properties;

        let mut l: Vec<Card> = Vec::new();
        let colors = Color::iter();
        let kinds = Type::iter();
        let mut i: usize = 0;
        while i < colors.len()
            invariant
                colors@ == all_colors(),
                kinds@ == all_kinds(),
                i <= 4,
                l@.len() == 30 * i,
                forall|j: int| 0 <= j < l@.len() ==> (#[trigger] l@[j]).owner is None,
                forall|k: Type, c: Color| #[trigger]
                    l@.to_multiset().count(fresh(k, c)) == if color_rank(c) < i {
                        2int
                    } else {
                        0
                    },
            decreases colors@.len() - i,
        {
            let c = colors[i];
            assert(color_rank(c) == i);
            let mut j: usize = 0;
            while j < kinds.len()
                invariant
                    colors@ == all_colors(),
                    kinds@ == all_kinds(),
                    i < 4,
                    color_rank(c) == i,
                    j <= 15,
                    l@.len() == 30 * i + 2 * j,
                    forall|m: int| 0 <= m < l@.len() ==> (#[trigger] l@[m]).owner is None,
                    forall|k: Type, c2: Color| #[trigger]
                        l@.to_multiset().count(fresh(k, c2)) == if color_rank(c2) < i || (
                        color_rank(c2) == i && kind_rank(k) < j) {
                            2int
                        } else {
                            0
                        },
                decreases kinds@.len() - j,
            {
                let t = kinds[j];
                assert(kind_rank(t) == j);
                let ghost before = l@;
                l.push(Card::new(t, c));
                l.push(Card::new(t, c));
                proof {
                    assert(l@ == before.push(fresh(t, c)).push(fresh(t, c)));
                    let ghost mid = before.push(fresh(t, c));
                    before.to_multiset_ensures();
                    mid.to_multiset_ensures();
                    assert(mid.to_multiset() =~= before.to_multiset().insert(fresh(t, c)));
                    assert(l@.to_multiset() =~= mid.to_multiset().insert(fresh(t, c)));
                    assert forall|k: Type, c2: Color| #[trigger]
                        l@.to_multiset().count(fresh(k, c2)) == if color_rank(c2) < i || (
                        color_rank(c2) == i && kind_rank(k) < j + 1) {
                            2int
                        } else {
                            0
                        } by {
                        assert(before.to_multiset().count(fresh(k, c2)) == if color_rank(c2) < i || (
                        color_rank(c2) == i && kind_rank(k) < j) {
                            2int
                        } else {
                            0
                        });
                        if fresh(k, c2) == fresh(t, c) {
                        } else {
                            assert(color_rank(c2) != i || kind_rank(k) != j);
                        }
                    }
                }
                j += 1;
            }
            i += 1;
        }
        let ghost built = l@;
        shuffle_cards(&mut l);
        proof {
            built.to_multiset_ensures();
            l@.to_multiset_ensures();
            assert forall|k: Type, c: Color| #[trigger] l@.to_multiset().count(fresh(k, c)) == 2 by {
                assert(built.to_multiset().count(fresh(k, c)) == 2);
            }
            assert forall|m: int| 0 <= m < l@.len() implies (#[trigger] l@[m]).owner is None by {
                assert(l@.to_multiset().count(l@[m]) > 0);
                assert(built.contains(l@[m]));
            }
        }
        l
    }

    /// Takes the start card out of `deck`: the card nearest the draw end
    /// whose kind may open the discard pile. `None` when there is none, and
    /// then `deck` is unchanged.
    pub fn get_allowed_start_card(deck: &mut Vec<Card>) -> (r: Option<Card>)
        ensures
            r is None <==> !has_start_card(old(deck)@),
            r is None ==> final(deck)@ == old(deck)@,
            r matches Some(c) ==> exists|i: int|
                is_start_position(old(deck)@, i) && c == old(deck)@[i] && final(deck)@ == old(
                    deck,
                )@.remove(i),
    {
        let mut i: usize = deck.len();
        while i > 0
            invariant
                i <= deck@.len(),
                deck@ == old(deck)@,
                forall|j: int| i <= j < deck@.len() ==> is_start_excluded(#[trigger] deck@[j].kind),
            decreases i,
        {
            let k = deck[i - 1].kind;
            if !(k == Type::Block || k == Type::Switch || k == Type::DrawFour || k == Type::Reverse
                || k == Type::DrawTwo) {
                let c = deck.remove(i - 1);
                assert(is_start_position(old(deck)@, i - 1));
                return Some(c);
            }
            i -= 1;
        }
        None
    }

    /// Whether the player `owner` may place `card` on `last_card`.
    pub fn is_allowed(last_card: &Card, card: &Card, owner: u128) -> (r: bool)
        ensures
            r == is_legal(*last_card, *card, owner),
    {
        let own_top = match last_card.owner {
            Some(o) => o == owner,
            None => false,
        };
        let special = card.kind == Type::Switch || card.kind == Type::DrawFour;
        let open = special || card.color == last_card.color || card.kind == last_card.kind;
        if own_top {
            card.kind == last_card.kind
        } else if last_card.owner.is_none() {
            open
        } else if last_card.kind == Type::DrawTwo || last_card.kind == Type::DrawFour {
            card.kind == last_card.kind
        } else {
            open
        }
    }

    /// The cards of `deck` that the player `owner` may place on `last_card`,
    /// in the order in which they stand in `deck`.
    pub fn get_allowed_cards(last_card: Card, deck: Vec<Card>, owner: u128) -> (r: Vec<Card>)
        ensures
            r@ == deck@.filter(legal_on(last_card, owner)),
    {
        let ghost pred = legal_on(last_card, owner);
        let mut l: Vec<Card> = Vec::new();
        let mut i: usize = 0;
        while i < deck.len()
            invariant
                i <= deck@.len(),
                pred == legal_on(last_card, owner),
                l@ == deck@.subrange(0, i as int).filter(pred),
            decreases deck@.len() - i,
        {
            let card = deck[i];
            let take = Card::is_allowed(&last_card, &card, owner);
            proof {
                assert(take == pred(card));
                deck@.subrange(0, i as int).lemma_filter_push(card, pred);
                assert(deck@.subrange(0, i as int).push(card) =~= deck@.subrange(0, i + 1));
            }
            if take {
                l.push(card);
            }
            i += 1;
        }
        assert(deck@.subrange(0, deck@.len() as int) =~= deck@);
        l
    }
}

} // verus!
