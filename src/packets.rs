use vstd::prelude::*;

verus! {

/// Times, in seconds, at which a game started and ended, and how many
/// players were seated at its end.
#[derive(Debug, Clone, Copy, PartialEq, Eq, Structural)]
pub struct GameStatistics {
    pub started_at: u64,
    pub ended_at: u64,
    pub player_count: usize,
}

impl GameStatistics {
    pub fn new() -> (r: GameStatistics)
        ensures
            r == (GameStatistics { started_at: 0, ended_at: 0, player_count: 0 }),
    {
        GameStatistics { started_at: 0, ended_at: 0, player_count: 0 }
    }

    /// Marks the start of a game at time `now`.
    pub fn game_started(&mut self, now: u64)
        ensures
            *final(self) == (GameStatistics { started_at: now, ended_at: now, ..*old(self) }),
    {
        self.started_at = now;
        self.ended_at = now;
    }

    /// Marks the end of a game at time `now`, with `players` seated.
    pub fn game_ended(&mut self, now: u64, players: usize)
        ensures
            *final(self) == (GameStatistics { ended_at: now, player_count: players, ..*old(self) }),
    {
        self.ended_at = now;
        self.player_count = players;
    }

    /// How long the game lasted; zero if the clock went backwards.
    pub fn duration(&self) -> (r: u64)
        ensures
            r == if self.ended_at >= self.started_at {
                (self.ended_at - self.started_at) as u64
            } else {
                0
            },
    {
        self.ended_at.saturating_sub(self.started_at)
    }
}

impl Default for GameStatistics {
    fn default() -> (r: GameStatistics)
        ensures
            r == (GameStatistics { started_at: 0, ended_at: 0, player_count: 0 }),
    {
        Self::new()
    }
}

/// The messages of the wire protocol. Identifiers are the 128-bit values of
/// the players' UUIDs.
#[derive(Debug)]
pub enum PacketType {
    /// username
    Register(String),
    /// own id, own username, (id, username) of every player
    GameData(u128, String, Vec<(u128, String)>),
    /// id, username of a player who joined
    Connect(u128, String),
    /// id, username of a player who left
    Disconnect(u128, String),
    /// sender label, content
    Message(String, String),
    /// error code, body
    Error(u64, String),
    /// winner id, winner username, usernames of the others by placement, statistics
    WinUpdate(u128, String, Vec<String>, GameStatistics),
}

/// A packet and the players it is to be delivered to, in delivery order.
#[derive(Debug)]
pub struct Outbound {
    pub recipients: Vec<u128>,
    pub packet: PacketType,
}

} // verus!
