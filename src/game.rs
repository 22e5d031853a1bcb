use vstd::prelude::*;
use crate::card::{Card, Type, is_full_deck, is_start_position, has_start_card};
use crate::packets::{GameStatistics, Outbound, PacketType};
use crate::card::is_legal;
use crate::player::{Actions, Player, placeholder_name, may_end};

verus! {

/// One room: its roster in join order, the deck (drawn from its end), the
/// discard pile (top card first), and whether a game is being played.
#[derive(Debug)]
pub struct Game {
    pub id: u128,
    pub active: bool,
    pub players: Vec<Player>,
    pub deck: Vec<Card>,
    pub discard: Vec<Card>,
    pub current_turn: Option<u128>,
    pub reversed: bool,
    pub statistics: GameStatistics,
}

/// The label of messages that the room itself sends.
pub open spec fn server_label() -> Seq<char> {
    "Server"@
}

pub open spec fn host_text() -> Seq<char> {
    "You are the host"@
}

pub open spec fn abort_text() -> Seq<char> {
    "Game ended due to one of the players leaving"@
}

pub open spec fn start_text() -> Seq<char> {
    "The host has started the game"@
}

pub open spec fn no_start_text() -> Seq<char> {
    "The game cannot start: the deck cannot serve every player"@
}

/// Error code sent to the host when a game cannot start.
pub const START_FAILED: u64 = 1;

/// Error code sent to a player whose action is not allowed.
pub const ACTION_REFUSED: u64 = 2;

/// Cards dealt to each player at the start of a game.
pub const HAND_SIZE: usize = 8;

/// `p` is a message from the server with the given content.
pub open spec fn is_server_message(p: PacketType, text: Seq<char>) -> bool {
    match p {
        PacketType::Message(from, body) => from@ == server_label() && body@ == text,
        _ => false,
    }
}

/// The identifiers of `ps`, in roster order.
pub open spec fn ids_of(ps: Seq<Player>) -> Seq<u128> {
    ps.map_values(|p: Player| p.id)
}

/// The predicate "differs from `id`".
pub open spec fn other_than(id: u128) -> spec_fn(u128) -> bool {
    |x: u128| x != id
}

/// No two players share an identifier.
pub open spec fn unique_ids(ps: Seq<Player>) -> bool {
    forall|i: int, j: int| 0 <= i < j < ps.len() ==> ps[i].id != ps[j].id
}

/// Some player of `ps` has identifier `id`.
pub open spec fn has_player(ps: Seq<Player>, id: u128) -> bool {
    exists|i: int| 0 <= i < ps.len() && (#[trigger] ps[i]).id == id
}

/// The position of the player `id` in `ps`, where there is one.
pub open spec fn position_of(ps: Seq<Player>, id: u128) -> int {
    choose|i: int| 0 <= i < ps.len() && (#[trigger] ps[i]).id == id
}

/// A player as it is right after joining.
pub open spec fn is_fresh_player(p: Player, id: u128) -> bool {
    &&& p.id == id
    &&& p.username@ == placeholder_name()
    &&& !p.is_connected
    &&& !p.is_host
    &&& p.cards@.len() == 0
    &&& !p.waiting
    &&& p.actions@.len() == 0
}

/// The two games agree on all but the roster.
pub open spec fn same_table(a: Game, b: Game) -> bool {
    &&& a.id == b.id
    &&& a.active == b.active
    &&& a.deck == b.deck
    &&& a.discard == b.discard
    &&& a.current_turn == b.current_turn
    &&& a.reversed == b.reversed
    &&& a.statistics == b.statistics
}

/// The rosters agree everywhere but at position `i`, and there only in the
/// hand and the turn record.
pub open spec fn changed_only_play_state(a: Seq<Player>, b: Seq<Player>, i: int) -> bool {
    &&& a.len() == b.len()
    &&& 0 <= i < a.len()
    &&& forall|j: int| 0 <= j < a.len() && j != i ==> #[trigger] a[j] == b[j]
    &&& a[i].id == b[i].id
    &&& a[i].username == b[i].username
    &&& a[i].is_connected == b[i].is_connected
    &&& a[i].is_host == b[i].is_host
    &&& a[i].waiting == b[i].waiting
}

/// The position after `i` in a roster of `n`, in the direction of play.
pub open spec fn next_position(i: int, n: int, reversed: bool) -> int {
    if reversed {
        if i == 0 {
            n - 1
        } else {
            i - 1
        }
    } else if i + 1 == n {
        0
    } else {
        i + 1
    }
}

pub open spec fn refused_text() -> Seq<char> {
    "This action is not allowed now"@
}

/// `r` is the refusal of an action of the player `id` in the room `g`.
pub open spec fn is_refusal(r: Seq<Outbound>, g: Game, id: u128) -> bool {
    &&& r.len() == 1
    &&& r[0].recipients@ == if has_player(g.players@, id) {
        seq![id]
    } else {
        Seq::<u128>::empty()
    }
    &&& r[0].packet matches PacketType::Error(code, body) && code == ACTION_REFUSED && body@
        == refused_text()
}

/// Player `a` places before player `b`: fewer cards, or as many and joined
/// earlier.
pub open spec fn ranks_before(ps: Seq<Player>, a: int, b: int) -> bool {
    ps[a].cards@.len() < ps[b].cards@.len() || (ps[a].cards@.len() == ps[b].cards@.len() && a < b)
}

/// `order` lists every position of `ps` once, by placement.
pub open spec fn is_ranking(ps: Seq<Player>, order: Seq<usize>) -> bool {
    &&& order.len() == ps.len()
    &&& forall|k: int| 0 <= k < order.len() ==> (#[trigger] order[k]) < ps.len()
    &&& forall|i: int| 0 <= i < ps.len() ==> #[trigger] order.contains(i as usize)
    &&& forall|a: int, b: int|
        0 <= a < b < order.len() ==> #[trigger] ranks_before(ps, order[a] as int, order[b] as int)
}

/// `o` is the end-of-game summary of a game played by `ps` from `started_at`
/// to `now`, sent to every player.
pub open spec fn is_win_update(o: Outbound, ps: Seq<Player>, started_at: u64, now: u64) -> bool {
    &&& o.recipients@ == ids_of(ps)
    &&& match o.packet {
        PacketType::WinUpdate(wid, wname, others, stats) => exists|order: Seq<usize>|
            {
                &&& is_ranking(ps, order)
                &&& wid == ps[order[0] as int].id
                &&& wname@ == ps[order[0] as int].username@
                &&& others@.len() == ps.len() - 1
                &&& forall|k: int|
                    0 <= k < others@.len() ==> (#[trigger] others@[k])@ == ps[order[k
                        + 1] as int].username@
                &&& stats == GameStatistics {
                    started_at,
                    ended_at: now,
                    player_count: ps.len() as usize,
                }
            },
        _ => false,
    }
}

/// The positions of `players` by placement: ascending hand size, and join
/// order among equal hands.
pub fn placement_order(players: &Vec<Player>) -> (r: Vec<usize>)
    ensures
        is_ranking(players@, r@),
{
    let ghost ps = players@;
    let mut order: Vec<usize> = Vec::new();
    let mut i: usize = 0;
    while i < players.len()
        invariant
            ps == players@,
            i <= ps.len(),
            order@.len() == i,
            forall|k: int| 0 <= k < order@.len() ==> (#[trigger] order@[k]) < i,
            forall|j: int| 0 <= j < i ==> #[trigger] order@.contains(j as usize),
            forall|a: int, b: int|
                0 <= a < b < order@.len() ==> #[trigger] ranks_before(
                    ps,
                    order@[a] as int,
                    order@[b] as int,
                ),
        decreases ps.len() - i,
    {
        let size = players[i].cards.len();
        let mut p: usize = 0;
        while p < order.len() && players[order[p]].cards.len() <= size
            invariant
                ps == players@,
                i < ps.len(),
                size == ps[i as int].cards@.len(),
                p <= order@.len(),
                forall|k: int| 0 <= k < order@.len() ==> (#[trigger] order@[k]) < i,
                forall|q: int| 0 <= q < p ==> (#[trigger] ps[order@[q] as int]).cards@.len() <= size,
            decreases order@.len() - p,
        {
            p += 1;
        }
        let ghost old_order = order@;
        order.insert(p, i);
        proof {
            assert(order@ == old_order.insert(p as int, i));
            assert forall|a: int, b: int| 0 <= a < b < order@.len() implies #[trigger] ranks_before(
                ps,
                order@[a] as int,
                order@[b] as int,
            ) by {
                if b < p {
                    assert(order@[a] == old_order[a] && order@[b] == old_order[b]);
                } else if b == p {
                    assert(order@[a] == old_order[a]);
                } else if a == p {
                    assert(order@[b] == old_order[b - 1]);
                    assert(p < old_order.len());
                    assert(ps[old_order[p as int] as int].cards@.len() > size);
                    if b - 1 > p {
                        assert(ranks_before(ps, old_order[p as int] as int, old_order[b - 1] as int));
                    }
                } else if a < p {
                    assert(order@[a] == old_order[a] && order@[b] == old_order[b - 1]);
                    assert(ranks_before(ps, old_order[a] as int, old_order[b - 1] as int));
                } else {
                    assert(order@[a] == old_order[a - 1] && order@[b] == old_order[b - 1]);
                    assert(ranks_before(ps, old_order[a - 1] as int, old_order[b - 1] as int));
                }
            }
            assert forall|j: int| 0 <= j < i + 1 implies #[trigger] order@.contains(j as usize) by {
                if j == i {
                    assert(order@[p as int] == i);
                } else {
                    assert(old_order.contains(j as usize));
                    let q = choose|q: int| 0 <= q < old_order.len() && old_order[q] == j as usize;
                    if q < p {
                        assert(order@[q] == j as usize);
                    } else {
                        assert(order@[q + 1] == j as usize);
                    }
                }
            }
            assert forall|k: int| 0 <= k < order@.len() implies (#[trigger] order@[k]) < i + 1 by {
                if k < p {
                    assert(order@[k] == old_order[k]);
                } else if k > p {
                    assert(order@[k] == old_order[k - 1]);
                }
            }
        }
        i += 1;
    }
    order
}

/// `deck` holds a start card and, besides it, eight cards for each of `n`
/// players.
pub open spec fn can_deal(deck: Seq<Card>, n: nat) -> bool {
    8 * n + 1 <= deck.len() && has_start_card(deck)
}

/// A full deck holds a card that may open the discard pile.
pub proof fn lemma_full_deck_has_start_card(d: Seq<Card>)
    requires
        is_full_deck(d),
    ensures
        has_start_card(d),
{
    let c = crate::card::fresh(Type::Zero, crate::card::Color::Red);
    assert(d.to_multiset().count(c) == 2);
    d.to_multiset_ensures();
    assert(d.contains(c));
    let i = choose|i: int| 0 <= i < d.len() && d[i] == c;
    assert(!crate::card::is_start_excluded(d[i].kind));
}

/// In a well-formed room at most one player is the host, and that player is
/// the first to have joined.
pub proof fn lemma_single_host(g: Game)
    requires
        g.wf(),
    ensures
        forall|i: int, j: int|
            0 <= i < g.players@.len() && 0 <= j < g.players@.len() && (#[trigger] g.players@[i]).is_host
                && (#[trigger] g.players@[j]).is_host ==> i == 0 && j == 0,
{
}

/// When exactly one player has an empty hand, that player places first.
pub proof fn lemma_sole_empty_hand_ranks_first(ps: Seq<Player>, order: Seq<usize>, w: int)
    requires
        is_ranking(ps, order),
        ps.len() <= usize::MAX,
        0 <= w < ps.len(),
        ps[w].cards@.len() == 0,
        forall|j: int| 0 <= j < ps.len() && j != w ==> (#[trigger] ps[j]).cards@.len() > 0,
    ensures
        order[0] == w,
{
    assert(order.contains(w as usize));
    let k = choose|k: int| 0 <= k < order.len() && order[k] == w as usize;
    if k > 0 {
        assert(ranks_before(ps, order[0] as int, order[k] as int));
    }
}

/// The summary sent at the end of a game in which exactly one player has
/// emptied their hand names that player as the winner, and counts every
/// player seated at the end.
pub proof fn lemma_sole_empty_hand_wins(o: Outbound, ps: Seq<Player>, started_at: u64, now: u64, w: int)
    requires
        is_win_update(o, ps, started_at, now),
        ps.len() <= usize::MAX,
        0 <= w < ps.len(),
        ps[w].cards@.len() == 0,
        forall|j: int| 0 <= j < ps.len() && j != w ==> (#[trigger] ps[j]).cards@.len() > 0,
    ensures
        o.packet matches PacketType::WinUpdate(wid, _, _, stats) && wid == ps[w].id
            && stats.player_count == ps.len(),
{
    if let PacketType::WinUpdate(wid, wname, others, stats) = o.packet {
        let order = choose|order: Seq<usize>|
            {
                &&& is_ranking(ps, order)
                &&& wid == ps[order[0] as int].id
                &&& wname@ == ps[order[0] as int].username@
                &&& others@.len() == ps.len() - 1
                &&& forall|k: int|
                    0 <= k < others@.len() ==> (#[trigger] others@[k])@ == ps[order[k
                        + 1] as int].username@
                &&& stats == GameStatistics {
                    started_at,
                    ended_at: now,
                    player_count: ps.len() as usize,
                }
            };
        lemma_sole_empty_hand_ranks_first(ps, order, w);
    }
}

/// Relies on uuid's `Uuid::new_v4`: a random identifier, read as its 128-bit
/// value.
#[verifier::external_body]
fn new_room_id() -> (r: u128) {
    uuid::Uuid::new_v4().as_u128()
}

impl Game {
    /// The roster has unique identifiers, only the first player to join can
    /// be the host, and a game in play has players.
    pub open spec fn wf(&self) -> bool {
        &&& unique_ids(self.players@)
        &&& forall|i: int| 0 <= i < self.players@.len() && (#[trigger] self.players@[i]).is_host ==> i == 0
        &&& self.active ==> self.players@.len() > 0
    }

    pub fn new() -> (r: Game)
        ensures
            r.wf(),
            !r.active,
            r.players@.len() == 0,
            r.deck@.len() == 0,
            r.discard@.len() == 0,
            r.current_turn is None,
    {
        Game {
            id: new_room_id(),
            active: false,
            players: Vec::new(),
            deck: Vec::new(),
            discard: Vec::new(),
            current_turn: None,
            reversed: false,
            statistics: GameStatistics::new(),
        }
    }

    /// Where the player `id` stands in the roster.
    pub fn find_index(&self, id: u128) -> (r: Option<usize>)
        ensures
            r is None <==> !has_player(self.players@, id),
            r matches Some(i) ==> i < self.players@.len() && self.players@[i as int].id == id,
    {
        let mut i: usize = 0;
        while i < self.players.len()
            invariant
                i <= self.players@.len(),
                forall|j: int| 0 <= j < i ==> (#[trigger] self.players@[j]).id != id,
            decreases self.players@.len() - i,
        {
            if self.players[i].id == id {
                return Some(i);
            }
            i += 1;
        }
        None
    }

    /// The player `id`, or `None` if no such player is seated.
    pub fn get_player(&self, id: u128) -> (r: Option<&Player>)
        ensures
            r is None <==> !has_player(self.players@, id),
            r matches Some(p) ==> p.id == id && self.players@.contains(*p),
    {
        match self.find_index(id) {
            Some(i) => Some(&self.players[i]),
            None => None,
        }
    }

    /// The roster snapshot for the player `id`: its own identity, then the
    /// identifier and name of every player in roster order. `None` if `id`
    /// is not seated.
    pub fn game_data(&self, id: u128) -> (r: Option<PacketType>)
        requires
            self.wf(),
        ensures
            r is None <==> !has_player(self.players@, id),
            r matches Some(p) ==> p matches PacketType::GameData(own, name, all) && {
                &&& own == id
                &&& name@ == self.players@[position_of(self.players@, id)].username@
                &&& all@.len() == self.players@.len()
                &&& forall|k: int|
                    0 <= k < all@.len() ==> (#[trigger] all@[k]).0 == self.players@[k].id
                        && all@[k].1@ == self.players@[k].username@
            },
    {
        let i = match self.find_index(id) {
            Some(i) => i,
            None => {
                return None;
            },
        };
        proof {
            let j = position_of(self.players@, id);
            assert(0 <= j < self.players@.len() && self.players@[j].id == id);
            assert(j == i);
        }
        let mut all: Vec<(u128, String)> = Vec::new();
        let mut k: usize = 0;
        while k < self.players.len()
            invariant
                k <= self.players@.len(),
                all@.len() == k,
                forall|m: int|
                    0 <= m < k ==> (#[trigger] all@[m]).0 == self.players@[m].id && all@[m].1@
                        == self.players@[m].username@,
            decreases self.players@.len() - k,
        {
            all.push((self.players[k].id, self.players[k].username.clone()));
            k += 1;
        }
        Some(PacketType::GameData(id, self.players[i].username.clone(), all))
    }

    /// Seats the player `id` with a placeholder name; nothing happens if it
    /// is seated already.
    pub fn join(&mut self, id: u128)
        requires
            old(self).wf(),
        ensures
            final(self).wf(),
            same_table(*final(self), *old(self)),
            has_player(old(self).players@, id) ==> final(self).players == old(self).players,
            !has_player(old(self).players@, id) ==> {
                &&& final(self).players@.len() == old(self).players@.len() + 1
                &&& final(self).players@.drop_last() == old(self).players@
                &&& is_fresh_player(final(self).players@.last(), id)
            },
    {
        if self.find_index(id).is_none() {
            self.players.push(Player::new(id));
            assert(self.players@.drop_last() =~= old(self).players@);
        }
    }

    /// `packet` addressed to the player `id`, or to nobody if it is not seated.
    pub fn emit(&self, id: u128, packet: PacketType) -> (r: Outbound)
        ensures
            r.packet == packet,
            r.recipients@ == if has_player(self.players@, id) {
                seq![id]
            } else {
                Seq::<u128>::empty()
            },
    {
        let mut recipients: Vec<u128> = Vec::new();
        if self.find_index(id).is_some() {
            recipients.push(id);
            assert(recipients@ =~= seq![id]);
        }
        Outbound { recipients, packet }
    }

    /// `packet` addressed to every player, in roster order.
    pub fn broadcast(&self, packet: PacketType) -> (r: Outbound)
        ensures
            r.packet == packet,
            r.recipients@ == ids_of(self.players@),
    {
        let mut recipients: Vec<u128> = Vec::new();
        let mut i: usize = 0;
        while i < self.players.len()
            invariant
                i <= self.players@.len(),
                recipients@ == ids_of(self.players@.subrange(0, i as int)),
            decreases self.players@.len() - i,
        {
            recipients.push(self.players[i].id);
            assert(ids_of(self.players@.subrange(0, i + 1)) =~= ids_of(
                self.players@.subrange(0, i as int),
            ).push(self.players@[i as int].id));
            i += 1;
        }
        assert(self.players@.subrange(0, i as int) =~= self.players@);
        Outbound { recipients, packet }
    }

    /// `packet` addressed to every player but `self_id`, in roster order.
    pub fn broadcast_ignore_self(&self, self_id: u128, packet: PacketType) -> (r: Outbound)
        ensures
            r.packet == packet,
            r.recipients@ == ids_of(self.players@).filter(other_than(self_id)),
    {
        let ghost pred = other_than(self_id);
        let mut recipients: Vec<u128> = Vec::new();
        let mut i: usize = 0;
        while i < self.players.len()
            invariant
                i <= self.players@.len(),
                pred == other_than(self_id),
                recipients@ == ids_of(self.players@.subrange(0, i as int)).filter(pred),
            decreases self.players@.len() - i,
        {
            let pid = self.players[i].id;
            proof {
                let before = ids_of(self.players@.subrange(0, i as int));
                assert(ids_of(self.players@.subrange(0, i + 1)) =~= before.push(pid));
                before.lemma_filter_push(pid, pred);
            }
            if pid != self_id {
                recipients.push(pid);
            }
            i += 1;
        }
        assert(self.players@.subrange(0, i as int) =~= self.players@);
        Outbound { recipients, packet }
    }

    /// Starts a game at time `now` with a freshly shuffled full deck.
    pub fn start(&mut self, now: u64) -> (r: Vec<Outbound>)
        requires
            old(self).wf(),
        ensures
            final(self).wf(),
            old(self).active || old(self).players@.len() == 0 ==> *final(self) == *old(self)
                && r@.len() == 0,
            !old(self).active && 0 < old(self).players@.len() && 8 * old(self).players@.len() + 1
                <= 120 ==> {
                &&& final(self).active
                &&& final(self).current_turn == Some(old(self).players@[0].id)
                &&& final(self).discard@.len() == 1
                &&& final(self).deck@.len() == 119 - 8 * old(self).players@.len()
                &&& final(self).id == old(self).id
                &&& final(self).players@.len() == old(self).players@.len()
                &&& forall|k: int|
                    0 <= k < old(self).players@.len() ==> {
                        let p = #[trigger] final(self).players@[k];
                        let q = old(self).players@[k];
                        &&& p.cards@.len() == 8
                        &&& p.actions@.len() == 0
                        &&& p.id == q.id
                        &&& p.username == q.username
                        &&& p.is_connected == q.is_connected
                        &&& p.is_host == q.is_host
                        &&& p.waiting == q.waiting
                    }
                &&& r@.len() == 1
                &&& r@[0].recipients@ == ids_of(old(self).players@)
                &&& is_server_message(r@[0].packet, start_text())
            },
            !old(self).active && 8 * old(self).players@.len() + 1 > 120 ==> *final(self) == *old(self)
                && r@.len() == 1,
    {
        let deck = Card::generate_deck();
        proof {
            lemma_full_deck_has_start_card(deck@);
        }
        self.start_with_deck(deck, now)
    }

    /// Starts a game at time `now` with `deck`. The start card is taken from
    /// the deck onto an empty discard pile, every player is dealt eight cards
    /// from the draw end in roster order, turn records are cleared and the
    /// first player holds the turn. If the deck cannot give every player a
    /// hand and a start card, the first player is sent an error and nothing
    /// changes. Nothing happens while a game is in play or nobody is seated.
    pub fn start_with_deck(&mut self, deck: Vec<Card>, now: u64) -> (r: Vec<Outbound>)
        requires
            old(self).wf(),
        ensures
            final(self).wf(),
            old(self).active || old(self).players@.len() == 0 ==> *final(self) == *old(self)
                && r@.len() == 0,
            !old(self).active && old(self).players@.len() > 0 && !can_deal(deck@, old(self).players@.len()) ==> {
                &&& *final(self) == *old(self)
                &&& r@.len() == 1
                &&& r@[0].recipients@ == seq![old(self).players@[0].id]
                &&& r@[0].packet matches PacketType::Error(code, body) && code == START_FAILED
                    && body@ == no_start_text()
            },
            !old(self).active && old(self).players@.len() > 0 && can_deal(deck@, old(self).players@.len()) ==> {
                let n = old(self).players@.len();
                &&& final(self).active
                &&& final(self).id == old(self).id
                &&& final(self).current_turn == Some(old(self).players@[0].id)
                &&& !final(self).reversed
                &&& final(self).statistics == GameStatistics {
                    started_at: now,
                    ended_at: now,
                    ..old(self).statistics
                }
                &&& final(self).players@.len() == n
                &&& exists|s: int| {
                    let rest = #[trigger] deck@.remove(s);
                    let len = rest.len();
                    &&& is_start_position(deck@, s)
                    &&& final(self).discard@ == seq![Card { owner: None, ..deck@[s] }]
                    &&& final(self).deck@ == rest.subrange(0, len - 8 * n)
                    &&& forall|k: int| 0 <= k < n ==> {
                        let p = #[trigger] final(self).players@[k];
                        let q = old(self).players@[k];
                        &&& p.cards@ == rest.subrange(len - 8 * (k + 1), len - 8 * k)
                        &&& p.actions@.len() == 0
                        &&& p.id == q.id
                        &&& p.username == q.username
                        &&& p.is_connected == q.is_connected
                        &&& p.is_host == q.is_host
                        &&& p.waiting == q.waiting
                    }
                }
                &&& r@.len() == 1
                &&& r@[0].recipients@ == ids_of(old(self).players@)
                &&& is_server_message(r@[0].packet, start_text())
            },
    {
        let mut out: Vec<Outbound> = Vec::new();
        if self.active || self.players.len() == 0 {
            return out;
        }
        let n = self.players.len();
        let ghost given = deck@;
        let mut deck = deck;
        let enough = (n as u128) * (HAND_SIZE as u128) + 1 <= deck.len() as u128;
        let start_card = if enough {
            Card::get_allowed_start_card(&mut deck)
        } else {
            None
        };
        let first = match start_card {
            Some(c) => c,
            None => {
                let packet = PacketType::Error(
                    START_FAILED,
                    "The game cannot start: the deck cannot serve every player".to_owned(),
                );
                out.push(self.emit(self.players[0].id, packet));
                assert(has_player(self.players@, self.players@[0].id));
                return out;
            },
        };
        let ghost s = choose|s: int|
            is_start_position(given, s) && first == given[s] && deck@ == given.remove(s);
        let ghost rest = deck@;
        let ghost len = rest.len();
        let mut k: usize = 0;
        while k < n
            invariant
                n == self.players@.len(),
                n == old(self).players@.len(),
                rest == given.remove(s),
                len == rest.len(),
                8 * n <= len,
                k <= n,
                deck@ == rest.subrange(0, len - 8 * k),
                self.wf(),
                !self.active,
                self.id == old(self).id,
                self.statistics == old(self).statistics,
                forall|j: int| 0 <= j < n ==> {
                    let p = #[trigger] self.players@[j];
                    let q = old(self).players@[j];
                    &&& j < k ==> p.cards@ == rest.subrange(len - 8 * (j + 1), len - 8 * j)
                        && p.actions@.len() == 0
                    &&& j >= k ==> p == q
                    &&& p.id == q.id
                    &&& p.username == q.username
                    &&& p.is_connected == q.is_connected
                    &&& p.is_host == q.is_host
                    &&& p.waiting == q.waiting
                },
            decreases n - k,
        {
            let at = deck.len() - HAND_SIZE;
            let hand = deck.split_off(at);
            self.players[k].cards = hand;
            self.players[k].actions = Vec::new();
            proof {
                assert(hand@ =~= rest.subrange(len - 8 * (k + 1), len - 8 * k));
                assert(deck@ =~= rest.subrange(0, len - 8 * (k + 1)));
            }
            k += 1;
        }
        let mut discard: Vec<Card> = Vec::new();
        discard.push(Card::new_with_owner(first.kind, first.color, None));
        self.discard = discard;
        self.deck = deck;
        self.reversed = false;
        self.active = true;
        self.current_turn = Some(self.players[0].id);
        self.statistics.game_started(now);
        let packet = PacketType::Message(
            "Server".to_owned(),
            "The host has started the game".to_owned(),
        );
        out.push(self.broadcast(packet));
        assert(ids_of(self.players@) =~= ids_of(old(self).players@));
        assert(self.discard@ =~= seq![Card { owner: None, ..given[s] }]);
        assert(rest == given.remove(s));
        assert(self.deck@ == rest.subrange(0, len - 8 * n));
        assert(is_start_position(given, s));
        assert(forall|k: int| 0 <= k < n ==> {
                        let p = #[trigger] self.players@[k];
                        let q = old(self).players@[k];
                        &&& p.cards@ == rest.subrange(len - 8 * (k + 1), len - 8 * k)
                        &&& p.actions@.len() == 0
                        &&& p.id == q.id
                        &&& p.username == q.username
                        &&& p.is_connected == q.is_connected
                        &&& p.is_host == q.is_host
                        &&& p.waiting == q.waiting
                    });
        out
    }

    fn refuse(&self, id: u128) -> (r: Vec<Outbound>)
        ensures
            is_refusal(r@, *self, id),
    {
        let packet = PacketType::Error(ACTION_REFUSED, "This action is not allowed now".to_owned());
        let mut out: Vec<Outbound> = Vec::new();
        out.push(self.emit(id, packet));
        out
    }

    /// The player `id` draws the card at the draw end of the deck into their
    /// hand. Refused, with nothing changed, unless a game is in play, it is
    /// that player's turn and the deck is not empty.
    pub fn draw_card(&mut self, id: u128) -> (r: Vec<Outbound>)
        requires
            old(self).wf(),
        ensures
            final(self).wf(),
            ({
                let ok = old(self).active && old(self).current_turn == Some(id) && has_player(
                    old(self).players@,
                    id,
                ) && old(self).deck@.len() > 0;
                &&& !ok ==> *final(self) == *old(self) && is_refusal(r@, *old(self), id)
                &&& ok ==> {
                    let i = position_of(old(self).players@, id);
                    &&& r@.len() == 0
                    &&& final(self).deck@ == old(self).deck@.drop_last()
                    &&& changed_only_play_state(final(self).players@, old(self).players@, i)
                    &&& final(self).players@[i].cards@ == old(self).players@[i].cards@.push(
                        old(self).deck@.last(),
                    )
                    &&& final(self).players@[i].actions@ == old(self).players@[i].actions@.push(
                        Actions::DrawCard,
                    )
                    &&& final(self).id == old(self).id
                    &&& final(self).active == old(self).active
                    &&& final(self).discard == old(self).discard
                    &&& final(self).current_turn == old(self).current_turn
                    &&& final(self).reversed == old(self).reversed
                    &&& final(self).statistics == old(self).statistics
                }
            }),
    {
        let found = self.find_index(id);
        let i = match found {
            Some(i) => i,
            None => {
                return self.refuse(id);
            },
        };
        let my_turn = match self.current_turn {
            Some(t) => t == id,
            None => false,
        };
        if !self.active || !my_turn || self.deck.len() == 0 {
            return self.refuse(id);
        }
        proof {
            let j = position_of(self.players@, id);
            assert(0 <= j < self.players@.len() && self.players@[j].id == id);
            assert(j == i);
        }
        let card = self.deck.pop().unwrap();
        self.players[i].cards.push(card);
        self.players[i].record_draw();
        Vec::new()
    }

    /// The player `id` places the card at `index` of their hand on the
    /// discard pile, as its new top card owned by that player. A `Reverse`
    /// turns the direction of play. When the hand is then empty the game ends
    /// at time `now`. Refused, with nothing changed, unless a game is in play,
    /// it is that player's turn, the card exists and may be placed on the
    /// top card.
    pub fn place_card(&mut self, id: u128, index: usize, now: u64) -> (r: Vec<Outbound>)
        requires
            old(self).wf(),
        ensures
            final(self).wf(),
            ({
                let i = position_of(old(self).players@, id);
                let ok = old(self).active && old(self).current_turn == Some(id) && has_player(
                    old(self).players@,
                    id,
                ) && index < old(self).players@[i].cards@.len() && old(self).discard@.len() > 0
                    && is_legal(old(self).discard@[0], old(self).players@[i].cards@[index as int], id);
                let c = old(self).players@[i].cards@[index as int];
                let hand = old(self).players@[i].cards@.remove(index as int);
                &&& !ok ==> *final(self) == *old(self) && is_refusal(r@, *old(self), id)
                &&& ok ==> {
                    &&& changed_only_play_state(final(self).players@, old(self).players@, i)
                    &&& final(self).players@[i].cards@ == hand
                    &&& final(self).players@[i].actions@ == old(self).players@[i].actions@.push(
                        Actions::PlaceCard,
                    )
                    &&& final(self).discard@ == old(self).discard@.insert(
                        0,
                        Card { owner: Some(id), ..c },
                    )
                    &&& final(self).reversed == (old(self).reversed != (c.kind == Type::Reverse))
                    &&& final(self).id == old(self).id
                    &&& final(self).deck == old(self).deck
                    &&& hand.len() > 0 ==> {
                        &&& r@.len() == 0
                        &&& final(self).active
                        &&& final(self).current_turn == old(self).current_turn
                        &&& final(self).statistics == old(self).statistics
                    }
                    &&& hand.len() == 0 ==> {
                        &&& !final(self).active
                        &&& r@.len() == 1
                        &&& is_win_update(
                            r@[0],
                            final(self).players@,
                            old(self).statistics.started_at,
                            now,
                        )
                    }
                }
            }),
    {
        let found = self.find_index(id);
        let i = match found {
            Some(i) => i,
            None => {
                return self.refuse(id);
            },
        };
        proof {
            let j = position_of(self.players@, id);
            assert(0 <= j < self.players@.len() && self.players@[j].id == id);
            assert(j == i);
        }
        let my_turn = match self.current_turn {
            Some(t) => t == id,
            None => false,
        };
        if !self.active || !my_turn || index >= self.players[i].cards.len() || self.discard.len()
            == 0 {
            return self.refuse(id);
        }
        let c = self.players[i].cards[index];
        if !Card::is_allowed(&self.discard[0], &c, id) {
            return self.refuse(id);
        }
        self.players[i].cards.remove(index);
        self.players[i].record_place();
        self.discard.insert(0, Card::new_with_owner(c.kind, c.color, Some(id)));
        if c.kind == Type::Reverse {
            self.reversed = !self.reversed;
        }
        if self.players[i].cards.len() == 0 {
            self.end(now)
        } else {
            Vec::new()
        }
    }

    /// The player `id` ends their turn: their turn record is cleared and the
    /// next player in the direction of play holds the turn. Refused, with
    /// nothing changed, unless a game is in play, it is that player's turn
    /// and they placed a card or drew three.
    pub fn end_turn(&mut self, id: u128) -> (r: Vec<Outbound>)
        requires
            old(self).wf(),
        ensures
            final(self).wf(),
            ({
                let i = position_of(old(self).players@, id);
                let n = old(self).players@.len();
                let ok = old(self).active && old(self).current_turn == Some(id) && has_player(
                    old(self).players@,
                    id,
                ) && may_end(old(self).players@[i].actions@);
                &&& !ok ==> *final(self) == *old(self) && is_refusal(r@, *old(self), id)
                &&& ok ==> {
                    &&& r@.len() == 0
                    &&& changed_only_play_state(final(self).players@, old(self).players@, i)
                    &&& final(self).players@[i].cards == old(self).players@[i].cards
                    &&& final(self).players@[i].actions@.len() == 0
                    &&& final(self).current_turn == Some(
                        old(self).players@[next_position(i, n as int, old(self).reversed)].id,
                    )
                    &&& final(self).id == old(self).id
                    &&& final(self).active == old(self).active
                    &&& final(self).deck == old(self).deck
                    &&& final(self).discard == old(self).discard
                    &&& final(self).reversed == old(self).reversed
                    &&& final(self).statistics == old(self).statistics
                }
            }),
    {
        let found = self.find_index(id);
        let i = match found {
            Some(i) => i,
            None => {
                return self.refuse(id);
            },
        };
        proof {
            let j = position_of(self.players@, id);
            assert(0 <= j < self.players@.len() && self.players@[j].id == id);
            assert(j == i);
        }
        let my_turn = match self.current_turn {
            Some(t) => t == id,
            None => false,
        };
        if !self.active || !my_turn || !self.players[i].can_end() {
            return self.refuse(id);
        }
        let n = self.players.len();
        let next = if self.reversed {
            if i == 0 {
                n - 1
            } else {
                i - 1
            }
        } else if i + 1 == n {
            0
        } else {
            i + 1
        };
        self.players[i].actions = Vec::new();
        self.current_turn = Some(self.players[next].id);
        Vec::new()
    }

    /// Ends the game in play at time `now`: every player is sent the
    /// placements and the statistics, and the room stops being active.
    /// Nothing happens when no game is in play.
    pub fn end(&mut self, now: u64) -> (r: Vec<Outbound>)
        requires
            old(self).wf(),
        ensures
            final(self).wf(),
            !old(self).active ==> *final(self) == *old(self) && r@.len() == 0,
            old(self).active ==> {
                &&& !final(self).active
                &&& final(self).id == old(self).id
                &&& final(self).players == old(self).players
                &&& final(self).deck == old(self).deck
                &&& final(self).discard == old(self).discard
                &&& final(self).current_turn is None
                &&& final(self).reversed == old(self).reversed
                &&& final(self).statistics == GameStatistics {
                    started_at: old(self).statistics.started_at,
                    ended_at: now,
                    player_count: old(self).players@.len() as usize,
                }
                &&& r@.len() == 1
                &&& is_win_update(
                    r@[0],
                    old(self).players@,
                    old(self).statistics.started_at,
                    now,
                )
            },
    {
        let mut out: Vec<Outbound> = Vec::new();
        if !self.active {
            return out;
        }
        let ghost ps = self.players@;
        let order = placement_order(&self.players);
        let w = order[0];
        let mut others: Vec<String> = Vec::new();
        let mut k: usize = 1;
        while k < order.len()
            invariant
                ps == self.players@,
                is_ranking(ps, order@),
                1 <= k <= order@.len(),
                others@.len() == k - 1,
                forall|m: int|
                    0 <= m < others@.len() ==> (#[trigger] others@[m])@ == ps[order@[m
                        + 1] as int].username@,
            decreases order@.len() - k,
        {
            others.push(self.players[order[k]].username.clone());
            k += 1;
        }
        self.statistics.game_ended(now, self.players.len());
        let packet = PacketType::WinUpdate(
            self.players[w].id,
            self.players[w].username.clone(),
            others,
            self.statistics,
        );
        out.push(self.broadcast(packet));
        self.active = false;
        self.current_turn = None;
        assert(is_win_update(out@[0], ps, old(self).statistics.started_at, now));
        out
    }

    /// Takes the player `id` out of the roster; nothing happens if it is not
    /// seated. If a game is in play it is ended at time `now`: the remaining
    /// players are told why, then sent the summary.
    pub fn leave(&mut self, id: u128, now: u64) -> (r: Vec<Outbound>)
        requires
            old(self).wf(),
        ensures
            final(self).wf(),
            !has_player(old(self).players@, id) ==> *final(self) == *old(self) && r@.len() == 0,
            has_player(old(self).players@, id) ==> {
                let rest = old(self).players@.remove(position_of(old(self).players@, id));
                &&& final(self).players@ == rest
                &&& !has_player(final(self).players@, id)
                &&& !final(self).active
                &&& final(self).id == old(self).id
                &&& final(self).deck == old(self).deck
                &&& final(self).discard == old(self).discard
                &&& !old(self).active ==> {
                    &&& r@.len() == 0
                    &&& final(self).current_turn == old(self).current_turn
                    &&& final(self).statistics == old(self).statistics
                }
                &&& old(self).active ==> {
                    &&& final(self).current_turn is None
                    &&& rest.len() == 0 ==> r@.len() == 0
                    &&& rest.len() > 0 ==> {
                        &&& r@.len() == 2
                        &&& r@[0].recipients@ == ids_of(rest)
                        &&& is_server_message(r@[0].packet, abort_text())
                        &&& is_win_update(r@[1], rest, old(self).statistics.started_at, now)
                    }
                }
            },
    {
        let mut out: Vec<Outbound> = Vec::new();
        let i = match self.find_index(id) {
            Some(i) => i,
            None => {
                return out;
            },
        };
        let ghost ps = self.players@;
        proof {
            let j = position_of(ps, id);
            assert(0 <= j < ps.len() && ps[j].id == id);
            assert(j == i);
        }
        self.players.remove(i);
        assert(!has_player(self.players@, id)) by {
            if has_player(self.players@, id) {
                let j = choose|j: int| 0 <= j < self.players@.len() && (#[trigger] self.players@[j]).id == id;
                if j < i {
                    assert(self.players@[j] == ps[j]);
                } else {
                    assert(self.players@[j] == ps[j + 1]);
                }
            }
        }
        assert(forall|j: int| 0 <= j < self.players@.len() && (#[trigger] self.players@[j]).is_host ==> j == 0) by {
            assert forall|j: int| 0 <= j < self.players@.len() && (#[trigger] self.players@[j]).is_host implies j == 0 by {
                if j < i {
                    assert(self.players@[j] == ps[j]);
                } else {
                    assert(self.players@[j] == ps[j + 1]);
                }
            }
        }
        if self.active {
            if self.players.len() == 0 {
                self.active = false;
                self.current_turn = None;
                return out;
            }
            let packet = PacketType::Message(
                "Server".to_owned(),
                "Game ended due to one of the players leaving".to_owned(),
            );
            out.push(self.broadcast(packet));
            let mut ended = self.end(now);
            out.append(&mut ended);
        }
        out
    }

    /// Names the player `id` and marks it connected. It becomes the host
    /// exactly when it is the only player seated; the host is told so.
    pub fn init_player(&mut self, id: u128, username: &str) -> (r: Vec<Outbound>)
        requires
            old(self).wf(),
        ensures
            final(self).wf(),
            same_table(*final(self), *old(self)),
            final(self).players@.len() == old(self).players@.len(),
            forall|i: int| 0 <= i < old(self).players@.len() ==> {
                let p = #[trigger] final(self).players@[i];
                let q = old(self).players@[i];
                if q.id == id {
                    &&& p.id == q.id
                    &&& p.username@ == username@
                    &&& p.is_connected
                    &&& p.is_host == (old(self).players@.len() == 1)
                    &&& p.cards == q.cards
                    &&& p.waiting == q.waiting
                    &&& p.actions == q.actions
                } else {
                    p == q
                }
            },
            r@.len() == if old(self).players@.len() == 1 { 1int } else { 0 },
            old(self).players@.len() == 1 ==> {
                &&& is_server_message(r@[0].packet, host_text())
                &&& r@[0].recipients@ == if has_player(old(self).players@, id) {
                    seq![id]
                } else {
                    Seq::<u128>::empty()
                }
            },
    {
        let host = self.players.len() == 1;
        if let Some(i) = self.find_index(id) {
            self.players[i].username = username.to_owned();
            self.players[i].is_connected = true;
            self.players[i].is_host = host;
        }
        let mut out: Vec<Outbound> = Vec::new();
        if host {
            let packet = PacketType::Message("Server".to_owned(), "You are the host".to_owned());
            out.push(self.emit(id, packet));
        }
        out
    }
}

impl Default for Game {
    fn default() -> (r: Game)
        ensures
            r.wf(),
            !r.active,
            r.players@.len() == 0,
    {
        Self::new()
    }
}

} // verus!
