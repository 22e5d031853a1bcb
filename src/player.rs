use vstd::prelude::*;
use crate::card::Card;

verus! {

/// One action taken by a player during the current turn.
#[derive(Debug, Clone, Copy, PartialEq, Eq, Structural)]
pub enum Actions {
    DrawCard,
    PlaceCard,
}

/// A seated player: identity, name, connection state, hand and the actions
/// taken in the current turn.
#[derive(Debug)]
pub struct Player {
    pub id: u128,
    pub username: String,
    pub is_connected: bool,
    pub is_host: bool,
    pub cards: Vec<Card>,
    pub waiting: bool,
    pub actions: Vec<Actions>,
}

/// The name a player carries until it registers one.
pub open spec fn placeholder_name() -> Seq<char> {
    "connecting..."@
}

/// The predicate "is the action `a`".
pub open spec fn is_action(a: Actions) -> spec_fn(Actions) -> bool {
    |x: Actions| x == a
}

/// How many times `a` occurs in `s`.
pub open spec fn count_of(s: Seq<Actions>, a: Actions) -> nat {
    s.filter(is_action(a)).len()
}

/// A turn may be ended once a card was placed, or three cards were drawn.
pub open spec fn may_end(s: Seq<Actions>) -> bool {
    count_of(s, Actions::PlaceCard) >= 1 || count_of(s, Actions::DrawCard) >= 3
}

impl Player {
    pub fn new(id: u128) -> (r: Player)
        ensures
            r.id == id,
            r.username@ == placeholder_name(),
            !r.is_connected,
            !r.is_host,
            r.cards@.len() == 0,
            !r.waiting,
            r.actions@.len() == 0,
    {
        Player {
            id,
            username: "connecting...".to_owned(),
            is_connected: false,
            is_host: false,
            cards: Vec::new(),
            waiting: false,
            actions: Vec::new(),
        }
    }

    /// Whether the player may end the turn: one card placed or three drawn.
    pub fn can_end(&self) -> (r: bool)
        ensures
            r == may_end(self.actions@),
    {
        let ghost s = self.actions@;
        let mut places: usize = 0;
        let mut draws: usize = 0;
        let mut i: usize = 0;
        while i < self.actions.len()
            invariant
                s == self.actions@,
                i <= s.len(),
                places == count_of(s.subrange(0, i as int), Actions::PlaceCard),
                draws == count_of(s.subrange(0, i as int), Actions::DrawCard),
                places + draws == i,
            decreases s.len() - i,
        {
            let a = self.actions[i];
            proof {
                let sub = s.subrange(0, i as int);
                assert(sub.push(a) =~= s.subrange(0, i + 1));
                sub.lemma_filter_push(a, is_action(Actions::PlaceCard));
                sub.lemma_filter_push(a, is_action(Actions::DrawCard));
            }
            if a == Actions::PlaceCard {
                places += 1;
            } else {
                draws += 1;
            }
            i += 1;
        }
        assert(s.subrange(0, s.len() as int) =~= s);
        places >= 1 || draws >= 3
    }

    /// Records that the player drew a card this turn.
    pub fn record_draw(&mut self)
        ensures
            final(self).actions@ == old(self).actions@.push(Actions::DrawCard),
            final(self).id == old(self).id,
            final(self).username == old(self).username,
            final(self).is_host == old(self).is_host,
            final(self).is_connected == old(self).is_connected,
            final(self).cards == old(self).cards,
            final(self).waiting == old(self).waiting,
    {
        self.actions.push(Actions::DrawCard);
    }

    /// Records that the player placed a card this turn.
    pub fn record_place(&mut self)
        ensures
            final(self).actions@ == old(self).actions@.push(Actions::PlaceCard),
            final(self).id == old(self).id,
            final(self).username == old(self).username,
            final(self).is_host == old(self).is_host,
            final(self).is_connected == old(self).is_connected,
            final(self).cards == old(self).cards,
            final(self).waiting == old(self).waiting,
    {
        self.actions.push(Actions::PlaceCard);
    }
}

/// The turn gate: a turn with no action may not end; two draws are not
/// enough; three draws are; and once a card has been placed the turn may end,
/// whatever was drawn before.
pub proof fn lemma_turn_gate(draws: Seq<Actions>)
    requires
        forall|i: int| 0 <= i < draws.len() ==> draws[i] == Actions::DrawCard,
    ensures
        !may_end(Seq::<Actions>::empty()),
        may_end(draws.push(Actions::PlaceCard)),
        may_end(draws) <==> draws.len() >= 3,
{
    let pd = is_action(Actions::DrawCard);
    let pp = is_action(Actions::PlaceCard);
    assert(Seq::<Actions>::empty().filter(pp) =~= Seq::<Actions>::empty());
    assert(Seq::<Actions>::empty().filter(pd) =~= Seq::<Actions>::empty());
    draws.lemma_filter_push(Actions::PlaceCard, pp);
    broadcast use vstd::seq_lib::group_filter_ensures;

    assert(draws.filter(pd) =~= draws) by {
        lemma_all_kept(draws, pd);
    }
    assert(draws.filter(pp).len() == 0) by {
        if draws.filter(pp).len() > 0 {
            draws.lemma_filter_contains_rev(pp, draws.filter(pp)[0]);
        }
    }
}

/// Filtering by a predicate that holds of every element changes nothing.
proof fn lemma_all_kept(s: Seq<Actions>, p: spec_fn(Actions) -> bool)
    requires
        forall|i: int| 0 <= i < s.len() ==> p(s[i]),
    ensures
        s.filter(p) == s,
    decreases s.len(),
{
    if s.len() > 0 {
        lemma_all_kept(s.drop_last(), p);
        s.drop_last().lemma_filter_push(s.last(), p);
        assert(s.drop_last().push(s.last()) =~= s);
    } else {
        assert(s.filter(p) =~= s) by {
            reveal(Seq::filter);
        }
    }
}

} // verus!
