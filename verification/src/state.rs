//! The game state: the seating directory, the player count, and the vote
//! session with its per-player ballot state machine.
//!
//! Every command of the moderation surface is a function here whose whole
//! effect is pinned to a spec-level transition function, so that the laws of
//! the vote lifecycle (terminal ballots stay, the clock hand advances by
//! modular succession) are proved once over the transitions.
use crate::assoc::{assoc_insert, assoc_map, assoc_unique, lemma_assoc_insert};
use crate::seating::{first_seat_of, spec_next, CottageNumber, PlayerMap};
use vstd::prelude::*;

verus! {

/// The ballot standing of one player within the active vote session.
/// `Yes` and `No` are terminal: once cast, no further transition is accepted
/// — neither a hand interaction nor a later compelled ballot changes them.
#[derive(Clone, Copy, PartialEq, Eq, Structural, Debug)]
pub enum VoteState {
    Unset,
    HandRaised,
    HandLowered,
    Yes,
    No,
}

impl VoteState {
    /// A cast ballot; hand interactions bounce off it.
    pub open spec fn is_terminal(self) -> bool {
        self == VoteState::Yes || self == VoteState::No
    }
}

/// Whether a player is alive, dead with the posthumous ballot still in hand,
/// or dead with it spent. Read by the render engine only; the casting logic
/// does not gate on it.
#[derive(Clone, Copy, PartialEq, Eq, Structural, Debug)]
pub enum DeadState {
    Alive,
    DeadVoteAvailable,
    DeadVoteUsed,
}

/// A refusal of a command: the state is left untouched and the caller is
/// told why.
#[derive(Clone, Copy, PartialEq, Eq, Structural, Debug)]
pub enum Refusal {
    /// No vote session is live.
    NoActiveVote,
    /// The nominee occupies no seat.
    NomineeUnseated,
    /// The named seat does not exist, or the clock-hand seat has no
    /// occupant.
    NotSeated,
    /// The table has zero seats, so no next seat exists.
    NoPlayers,
}

/// A per-player status registry: an association list from player id to a
/// status, with pairwise-distinct player keys.
pub struct StatusMap<T> {
    pub entries: Vec<(u64, T)>,
}

impl<T> View for StatusMap<T> {
    type V = Seq<(u64, T)>;

    open spec fn view(&self) -> Seq<(u64, T)> {
        self.entries@
    }
}

impl<T: Copy> StatusMap<T> {
    /// Player keys are pairwise distinct.
    pub open spec fn wf(self) -> bool {
        assoc_unique(self.entries@)
    }

    /// An empty registry.
    pub fn new() -> (r: StatusMap<T>)
        ensures
            r.wf(),
            r@ == Seq::<(u64, T)>::empty(),
    {
        StatusMap { entries: Vec::new() }
    }

    /// The status recorded for `player`, if any.
    pub fn get(&self, player: u64) -> (r: Option<T>)
        requires
            self.wf(),
        ensures
            assoc_map(self@).contains_key(player) ==> r == Some(assoc_map(self@)[player]),
            !assoc_map(self@).contains_key(player) ==> r is None,
    {
        let n = self.entries.len();
        for i in 0..n
            invariant
                n == self.entries@.len(),
                self.wf(),
                forall|j: int| 0 <= j < i ==> (#[trigger] self.entries@[j]).0 != player,
        {
            let entry = self.entries[i];
            if entry.0 == player {
                proof {
                    crate::assoc::lemma_assoc_value_at(self.entries@, i as int);
                }
                return Some(entry.1);
            }
        }
        proof {
            crate::assoc::lemma_assoc_absent(self.entries@, player);
        }
        None
    }

    /// Record `value` for `player`, overwriting any prior status.
    pub fn insert(&mut self, player: u64, value: T)
        requires
            old(self).wf(),
        ensures
            final(self).wf(),
            final(self)@ == assoc_insert(old(self)@, player, value),
            assoc_map(final(self)@) == assoc_map(old(self)@).insert(player, value),
    {
        let n = self.entries.len();
        for i in 0..n
            invariant
                self == old(self),
                n == self.entries@.len(),
                self.wf(),
                forall|j: int| 0 <= j < i ==> (#[trigger] self.entries@[j]).0 != player,
        {
            if self.entries[i].0 == player {
                proof {
                    assert(crate::assoc::assoc_has_key(self.entries@, player));
                    let j = crate::assoc::assoc_index_of(self.entries@, player);
                    assert(self.entries@[j].0 == player);
                    assert(j == i);
                    lemma_assoc_insert(self.entries@, player, value);
                }
                self.entries[i] = (player, value);
                return ;
            }
        }
        proof {
            assert(!crate::assoc::assoc_has_key(self.entries@, player));
            lemma_assoc_insert(self.entries@, player, value);
        }
        self.entries.push((player, value));
    }
}

/// One live vote session: who nominated whom, the recorded speech, the
/// clock-hand seat whose occupant is next compelled to cast, the per-player
/// ballot and dead registries, and the chat message the session renders into.
pub struct Vote {
    pub nominator: u64,
    pub nominee: u64,
    pub accusation: String,
    pub defense: String,
    pub clock_hand: CottageNumber,
    pub vote_state: StatusMap<VoteState>,
    pub dead_state: StatusMap<DeadState>,
    pub description: String,
    pub message_id: u64,
    pub channel_id: u64,
}

/// The mathematical snapshot of a vote session.
#[verifier::ext_equal]
pub struct VoteSnap {
    pub nominator: u64,
    pub nominee: u64,
    pub accusation: Seq<char>,
    pub defense: Seq<char>,
    pub clock_hand: u32,
    pub vote_state: Seq<(u64, VoteState)>,
    pub dead_state: Seq<(u64, DeadState)>,
    pub description: Seq<char>,
    pub message_id: u64,
    pub channel_id: u64,
}

impl View for Vote {
    type V = VoteSnap;

    open spec fn view(&self) -> VoteSnap {
        VoteSnap {
            nominator: self.nominator,
            nominee: self.nominee,
            accusation: self.accusation@,
            defense: self.defense@,
            clock_hand: self.clock_hand.0,
            vote_state: self.vote_state@,
            dead_state: self.dead_state@,
            description: self.description@,
            message_id: self.message_id,
            channel_id: self.channel_id,
        }
    }
}

/// The whole game state: the single unit of persistence.
pub struct State {
    pub players: PlayerMap,
    pub number_of_players: u32,
    pub current_vote: Option<Vote>,
}

/// The mathematical snapshot of the whole game state.
#[verifier::ext_equal]
pub struct StateSnap {
    pub players: Seq<(u32, (u64, u64))>,
    pub number_of_players: u32,
    pub current_vote: Option<VoteSnap>,
}

impl View for State {
    type V = StateSnap;

    open spec fn view(&self) -> StateSnap {
        StateSnap {
            players: self.players.entries@,
            number_of_players: self.number_of_players,
            current_vote: match self.current_vote {
                Some(v) => Some(v@),
                None => None,
            },
        }
    }
}

impl StateSnap {
    /// Seat keys and status keys are pairwise distinct, every seat number is
    /// positive, and a live session's clock hand names a valid seat.
    pub open spec fn wf(self) -> bool {
        &&& assoc_unique(self.players)
        &&& forall|i: int| 0 <= i < self.players.len() ==> (#[trigger] self.players[i]).0 >= 1
        &&& match self.current_vote {
            Some(v) => assoc_unique(v.vote_state) && assoc_unique(v.dead_state) && v.clock_hand
                >= 1,
            None => true,
        }
    }
}

/// The ballot recorded for `player`, `Unset` where none is.
pub open spec fn ballot_of(vote_state: Seq<(u64, VoteState)>, player: u64) -> VoteState {
    if assoc_map(vote_state).contains_key(player) {
        assoc_map(vote_state)[player]
    } else {
        VoteState::Unset
    }
}

/// The ballot of `player` in the live session, `Unset` when no session is
/// live or none is recorded.
pub open spec fn ballot_in(s: StateSnap, player: u64) -> VoteState {
    match s.current_vote {
        Some(v) => ballot_of(v.vote_state, player),
        None => VoteState::Unset,
    }
}

/// The occupant of the clock-hand seat of the live session, if both exist.
pub open spec fn clock_occupant(s: StateSnap) -> Option<u64> {
    match s.current_vote {
        Some(v) => if assoc_map(s.players).contains_key(v.clock_hand) {
            Some(assoc_map(s.players)[v.clock_hand].0)
        } else {
            None
        },
        None => None,
    }
}

/// Effect of `set_number_of_players`.
pub open spec fn spec_set_number_of_players(s: StateSnap, n: u32) -> StateSnap {
    StateSnap { number_of_players: n, ..s }
}

/// Effect of `assign_player_to_cottage`.
pub open spec fn spec_assign(s: StateSnap, cottage: u32, player: u64, channel: u64) -> StateSnap {
    StateSnap { players: assoc_insert(s.players, cottage, (player, channel)), ..s }
}

/// Effect of `set_defense`.
pub open spec fn spec_set_defense(s: StateSnap, defense: Seq<char>) -> (StateSnap, Result<
    (),
    Refusal,
>) {
    match s.current_vote {
        None => (s, Err(Refusal::NoActiveVote)),
        Some(v) => (
            StateSnap { current_vote: Some(VoteSnap { defense, ..v }), ..s },
            Ok(()),
        ),
    }
}

/// Effect of `set_accusation`.
pub open spec fn spec_set_accusation(s: StateSnap, accusation: Seq<char>) -> (StateSnap, Result<
    (),
    Refusal,
>) {
    match s.current_vote {
        None => (s, Err(Refusal::NoActiveVote)),
        Some(v) => (
            StateSnap { current_vote: Some(VoteSnap { accusation, ..v }), ..s },
            Ok(()),
        ),
    }
}

/// Effect of `raise_hand`: freely toggles a non-terminal ballot between
/// `HandRaised` and `HandLowered`; a terminal ballot is left alone and the
/// caller is told `false`.
pub open spec fn spec_raise_hand(s: StateSnap, player: u64, hand_state: bool) -> (StateSnap, Result<
    bool,
    Refusal,
>) {
    match s.current_vote {
        None => (s, Err(Refusal::NoActiveVote)),
        Some(v) => {
            if ballot_of(v.vote_state, player).is_terminal() {
                (s, Ok(false))
            } else {
                let status = if hand_state {
                    VoteState::HandRaised
                } else {
                    VoteState::HandLowered
                };
                (
                    StateSnap {
                        current_vote: Some(
                            VoteSnap {
                                vote_state: assoc_insert(v.vote_state, player, status),
                                ..v
                            },
                        ),
                        ..s
                    },
                    Ok(true),
                )
            }
        },
    }
}

/// Effect of `vote` (a compelled public ballot): records the ballot of
/// whichever player occupies the clock-hand seat, then advances the clock
/// hand one seat clockwise. A cast ballot is terminal: when the occupant's
/// ballot is already Yes or No nothing is recorded — the caller is told
/// `Ok(false)`, "nothing to do" — but the clock hand still advances past the
/// seat.
pub open spec fn spec_vote(s: StateSnap, hand_state: bool) -> (StateSnap, Result<bool, Refusal>) {
    match s.current_vote {
        None => (s, Err(Refusal::NoActiveVote)),
        Some(v) => {
            if !assoc_map(s.players).contains_key(v.clock_hand) {
                (s, Err(Refusal::NotSeated))
            } else if s.number_of_players == 0 {
                (s, Err(Refusal::NoPlayers))
            } else {
                let occupant = assoc_map(s.players)[v.clock_hand].0;
                let ballot = if hand_state {
                    VoteState::Yes
                } else {
                    VoteState::No
                };
                let recorded = !ballot_of(v.vote_state, occupant).is_terminal();
                let vote_state = if recorded {
                    assoc_insert(v.vote_state, occupant, ballot)
                } else {
                    v.vote_state
                };
                (
                    StateSnap {
                        current_vote: Some(
                            VoteSnap {
                                vote_state,
                                clock_hand: spec_next(v.clock_hand, s.number_of_players),
                                ..v
                            },
                        ),
                        ..s
                    },
                    Ok(recorded),
                )
            }
        },
    }
}

/// Effect of `start_vote`: resolves the nominee's seat, points the clock hand
/// at the seat after it, and replaces any live session unconditionally with a
/// fresh one holding empty speech and empty ballot and dead registries.
pub open spec fn spec_start_vote(
    s: StateSnap,
    nominator: u64,
    nominee: u64,
    description: Seq<char>,
    message_id: u64,
    channel_id: u64,
) -> (StateSnap, Result<(), Refusal>) {
    match first_seat_of(s.players, nominee) {
        None => (s, Err(Refusal::NomineeUnseated)),
        Some(seat) => {
            if s.number_of_players == 0 {
                (s, Err(Refusal::NoPlayers))
            } else {
                (
                    StateSnap {
                        current_vote: Some(
                            VoteSnap {
                                nominator,
                                nominee,
                                accusation: Seq::empty(),
                                defense: Seq::empty(),
                                clock_hand: spec_next(seat, s.number_of_players),
                                vote_state: Seq::empty(),
                                dead_state: Seq::empty(),
                                description,
                                message_id,
                                channel_id,
                            },
                        ),
                        ..s
                    },
                    Ok(()),
                )
            }
        },
    }
}

impl State {
    /// Set the number of seats the table plays with. No bound check against
    /// already-assigned seats is performed.
    pub fn set_number_of_players(&mut self, number_of_players: u32)
        ensures
            final(self)@ == spec_set_number_of_players(old(self)@, number_of_players),
            old(self)@.wf() ==> final(self)@.wf(),
    {
        self.number_of_players = number_of_players;
    }

    /// Seat `player_id` (with cottage channel `channel_id`) at the given
    /// seat, overwriting any prior occupant of that seat and no other.
    pub fn assign_player_to_cottage(
        &mut self,
        cottage_number: u32,
        player_id: u64,
        channel_id: u64,
    ) -> (r: Result<(), Refusal>)
        requires
            old(self)@.wf(),
        ensures
            cottage_number >= 1 ==> final(self)@ == spec_assign(
                old(self)@,
                cottage_number,
                player_id,
                channel_id,
            ) && r == Ok::<(), Refusal>(()),
            cottage_number >= 1 ==> assoc_map(final(self)@.players) == assoc_map(
                old(self)@.players,
            ).insert(cottage_number, (player_id, channel_id)),
            cottage_number == 0 ==> *final(self) == *old(self) && r == Err::<(), Refusal>(
                Refusal::NotSeated,
            ),
            final(self)@.wf(),
    {
        match CottageNumber::new(cottage_number) {
            None => Err(Refusal::NotSeated),
            Some(cottage) => {
                self.players.assign(cottage, player_id, channel_id);
                Ok(())
            },
        }
    }

    /// Record the nominee's defense on the live session.
    pub fn set_defense(&mut self, defense: String) -> (r: Result<(), Refusal>)
        ensures
            final(self)@ == spec_set_defense(old(self)@, defense@).0,
            r == spec_set_defense(old(self)@, defense@).1,
            old(self)@.wf() ==> final(self)@.wf(),
    {
        match &mut self.current_vote {
            None => Err(Refusal::NoActiveVote),
            Some(v) => {
                v.defense = defense;
                Ok(())
            },
        }
    }

    /// Record the nominator's accusation on the live session.
    pub fn set_accusation(&mut self, accusation: String) -> (r: Result<(), Refusal>)
        ensures
            final(self)@ == spec_set_accusation(old(self)@, accusation@).0,
            r == spec_set_accusation(old(self)@, accusation@).1,
            old(self)@.wf() ==> final(self)@.wf(),
    {
        match &mut self.current_vote {
            None => Err(Refusal::NoActiveVote),
            Some(v) => {
                v.accusation = accusation;
                Ok(())
            },
        }
    }

    /// A player's hand interaction: raise or lower the hand, unless the
    /// ballot is already cast, in which case nothing moves and `Ok(false)`
    /// reports "the vote has already passed this player".
    pub fn raise_hand(&mut self, player_id: u64, hand_state: bool) -> (r: Result<bool, Refusal>)
        requires
            old(self)@.wf(),
        ensures
            final(self)@ == spec_raise_hand(old(self)@, player_id, hand_state).0,
            r == spec_raise_hand(old(self)@, player_id, hand_state).1,
            final(self)@.wf(),
    {
        match &mut self.current_vote {
            None => Err(Refusal::NoActiveVote),
            Some(v) => {
                let current = match v.vote_state.get(player_id) {
                    Some(status) => status,
                    None => VoteState::Unset,
                };
                match current {
                    VoteState::Yes | VoteState::No => Ok(false),
                    _ => {
                        let status = if hand_state {
                            VoteState::HandRaised
                        } else {
                            VoteState::HandLowered
                        };
                        v.vote_state.insert(player_id, status);
                        Ok(true)
                    },
                }
            },
        }
    }

    /// The compelled public ballot: record Yes/No for whichever player
    /// occupies the clock-hand seat — regardless of who invoked the command —
    /// then advance the clock hand one seat clockwise. An already-cast ballot
    /// is terminal: the attempt is a no-op by policy, reported as `Ok(false)`
    /// while the clock hand still moves on.
    pub fn vote(&mut self, hand_state: bool) -> (r: Result<bool, Refusal>)
        requires
            old(self)@.wf(),
        ensures
            final(self)@ == spec_vote(old(self)@, hand_state).0,
            r == spec_vote(old(self)@, hand_state).1,
            final(self)@.wf(),
    {
        let players = &self.players;
        let number_of_players = self.number_of_players;
        match &mut self.current_vote {
            None => Err(Refusal::NoActiveVote),
            Some(v) => {
                match players.lookup(v.clock_hand) {
                    None => Err(Refusal::NotSeated),
                    Some((occupant, _channel)) => {
                        if number_of_players == 0 {
                            Err(Refusal::NoPlayers)
                        } else {
                            let current = match v.vote_state.get(occupant) {
                                Some(status) => status,
                                None => VoteState::Unset,
                            };
                            let recorded = match current {
                                VoteState::Yes | VoteState::No => false,
                                _ => true,
                            };
                            if recorded {
                                let ballot = if hand_state {
                                    VoteState::Yes
                                } else {
                                    VoteState::No
                                };
                                v.vote_state.insert(occupant, ballot);
                            }
                            v.clock_hand = v.clock_hand.next(number_of_players);
                            Ok(recorded)
                        }
                    },
                }
            },
        }
    }

    /// Open a vote session: nominee must be seated; the clock hand starts at
    /// the seat after the nominee's, so the nominee is never the first
    /// compelled voter. Any live session is replaced unconditionally. The
    /// message and channel identifiers of the freshly posted session message
    /// are recorded for later re-rendering.
    pub fn start_vote(
        &mut self,
        nominator: u64,
        nominee: u64,
        description: String,
        message_id: u64,
        channel_id: u64,
    ) -> (r: Result<(), Refusal>)
        requires
            old(self)@.wf(),
        ensures
            final(self)@ == spec_start_vote(
                old(self)@,
                nominator,
                nominee,
                description@,
                message_id,
                channel_id,
            ).0,
            r == spec_start_vote(
                old(self)@,
                nominator,
                nominee,
                description@,
                message_id,
                channel_id,
            ).1,
            final(self)@.wf(),
    {
        match self.players.seat_of(nominee) {
            None => Err(Refusal::NomineeUnseated),
            Some(seat) => {
                if self.number_of_players == 0 {
                    Err(Refusal::NoPlayers)
                } else {
                    let clock_hand = seat.next(self.number_of_players);
                    self.current_vote = Some(
                        Vote {
                            nominator,
                            nominee,
                            accusation: String::new(),
                            defense: String::new(),
                            clock_hand,
                            vote_state: StatusMap::new(),
                            dead_state: StatusMap::new(),
                            description,
                            message_id,
                            channel_id,
                        },
                    );
                    Ok(())
                }
            },
        }
    }
}

impl Default for State {
    /// The fresh state a process starts from when no snapshot exists: zero
    /// seats, zero players, no live session.
    fn default() -> (r: State)
        ensures
            r@.players == Seq::<(u32, (u64, u64))>::empty(),
            r@.number_of_players == 0,
            r@.current_vote is None,
            r@.wf(),
    {
        State { players: PlayerMap::new(), number_of_players: 0, current_vote: None }
    }
}

/// Assigning a seat is an idempotent upsert on the directory's map: the seat
/// now holds exactly the new occupant and channel, any prior occupant of that
/// seat is overwritten, and no other seat changes.
pub proof fn lemma_assign_overwrites(s: StateSnap, cottage: u32, player: u64, channel: u64)
    requires
        s.wf(),
    ensures
        assoc_map(spec_assign(s, cottage, player, channel).players) == assoc_map(s.players).insert(
            cottage,
            (player, channel),
        ),
        assoc_map(spec_assign(s, cottage, player, channel).players)[cottage] == (player, channel),
        forall|other: u32|
            other != cottage ==> assoc_map(
                spec_assign(s, cottage, player, channel).players,
            ).contains_key(other) == #[trigger] assoc_map(s.players).contains_key(other),
        forall|other: u32|
            other != cottage && assoc_map(s.players).contains_key(other) ==> assoc_map(
                spec_assign(s, cottage, player, channel).players,
            )[other] == #[trigger] assoc_map(s.players)[other],
{
    lemma_assoc_insert(s.players, cottage, (player, channel));
}

/// Once a player's ballot is terminal (Yes or No), no hand interaction by
/// anyone — the player included — changes it.
pub proof fn lemma_raise_hand_preserves_terminal(
    s: StateSnap,
    actor: u64,
    hand_state: bool,
    player: u64,
)
    requires
        s.wf(),
        ballot_in(s, player).is_terminal(),
    ensures
        ballot_in(spec_raise_hand(s, actor, hand_state).0, player) == ballot_in(s, player),
{
    match s.current_vote {
        None => {},
        Some(v) => {
            if !ballot_of(v.vote_state, actor).is_terminal() {
                lemma_assoc_insert(
                    v.vote_state,
                    actor,
                    if hand_state {
                        VoteState::HandRaised
                    } else {
                        VoteState::HandLowered
                    },
                );
                assert(actor != player);
            }
        },
    }
}

/// Once a player's ballot is terminal (Yes or No), no compelled ballot
/// changes it either — not even when the clock hand has come back around to
/// that player's own seat: the attempt is a no-op on the registry.
pub proof fn lemma_vote_preserves_terminal(s: StateSnap, hand_state: bool, player: u64)
    requires
        s.wf(),
        ballot_in(s, player).is_terminal(),
    ensures
        ballot_in(spec_vote(s, hand_state).0, player) == ballot_in(s, player),
{
    match s.current_vote {
        None => {},
        Some(v) => {
            if assoc_map(s.players).contains_key(v.clock_hand) && s.number_of_players != 0 {
                let occupant = assoc_map(s.players)[v.clock_hand].0;
                if !ballot_of(v.vote_state, occupant).is_terminal() {
                    lemma_assoc_insert(
                        v.vote_state,
                        occupant,
                        if hand_state {
                            VoteState::Yes
                        } else {
                            VoteState::No
                        },
                    );
                    assert(occupant != player);
                }
            }
        },
    }
}

/// A compelled ballot targets the clock-hand occupant alone, regardless of
/// who invoked the command: on a table with at least one seat whose
/// clock-hand seat is occupied, the command succeeds, the occupant's ballot
/// becomes Yes/No as asked — unless it was already terminal, in which case it
/// stays and the caller is told nothing was recorded — no other player's
/// ballot moves, and the clock hand advances one seat clockwise either way.
pub proof fn lemma_vote_targets_clock_occupant(s: StateSnap, hand_state: bool, occupant: u64)
    requires
        s.wf(),
        s.number_of_players >= 1,
        clock_occupant(s) == Some(occupant),
    ensures
        ({
            let (s2, r) = spec_vote(s, hand_state);
            &&& r == Ok::<bool, Refusal>(!ballot_in(s, occupant).is_terminal())
            &&& !ballot_in(s, occupant).is_terminal() ==> ballot_in(s2, occupant) == (
            if hand_state {
                VoteState::Yes
            } else {
                VoteState::No
            })
            &&& ballot_in(s, occupant).is_terminal() ==> ballot_in(s2, occupant) == ballot_in(
                s,
                occupant,
            )
            &&& forall|other: u64|
                other != occupant ==> #[trigger] ballot_in(s2, other) == ballot_in(s, other)
            &&& s2.current_vote->Some_0.clock_hand == spec_next(
                s.current_vote->Some_0.clock_hand,
                s.number_of_players,
            )
            &&& s2.players == s.players
            &&& s2.number_of_players == s.number_of_players
        }),
{
    let v = s.current_vote->Some_0;
    if !ballot_of(v.vote_state, occupant).is_terminal() {
        lemma_assoc_insert(
            v.vote_state,
            occupant,
            if hand_state {
                VoteState::Yes
            } else {
                VoteState::No
            },
        );
    }
}

/// Starting a vote with the nominee first found at seat `k` of an `n`-seat
/// table succeeds, points the clock hand at seat `(k mod n) + 1`, and begins
/// with empty ballot and dead registries and empty speech.
pub proof fn lemma_start_vote_initialization(
    s: StateSnap,
    nominator: u64,
    nominee: u64,
    description: Seq<char>,
    message_id: u64,
    channel_id: u64,
    k: u32,
)
    requires
        s.wf(),
        s.number_of_players >= 1,
        first_seat_of(s.players, nominee) == Some(k),
    ensures
        ({
            let (s2, r) = spec_start_vote(s, nominator, nominee, description, message_id,
                channel_id);
            &&& r == Ok::<(), Refusal>(())
            &&& s2.players == s.players
            &&& s2.number_of_players == s.number_of_players
            &&& s2.current_vote matches Some(v)
            &&& s2.current_vote->Some_0.clock_hand == k % s.number_of_players + 1
            &&& s2.current_vote->Some_0.vote_state == Seq::<(u64, VoteState)>::empty()
            &&& s2.current_vote->Some_0.dead_state == Seq::<(u64, DeadState)>::empty()
            &&& s2.current_vote->Some_0.accusation == Seq::<char>::empty()
            &&& s2.current_vote->Some_0.defense == Seq::<char>::empty()
            &&& s2.current_vote->Some_0.nominator == nominator
            &&& s2.current_vote->Some_0.nominee == nominee
        }),
{
}

} // verus!
