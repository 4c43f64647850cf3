//! The seating directory: seats numbered from 1, each optionally occupied by
//! a player together with that player's cottage channel, and the modular
//! "next seat" arithmetic that drives the clock hand.
use crate::assoc::{
    assoc_has_key, assoc_index_of, assoc_insert, assoc_map, assoc_unique, lemma_assoc_absent,
    lemma_assoc_insert, lemma_assoc_value_at,
};
use vstd::arithmetic::div_mod::{lemma_mod_bound, lemma_mod_self_0, lemma_small_mod};
use vstd::prelude::*;

verus! {

/// A seat (cottage) at the table. Valid seats are numbered from 1.
#[derive(Clone, Copy, PartialEq, Eq, Structural, Hash, Debug)]
pub struct CottageNumber(pub u32);

/// The seat reached from `seat` by one clockwise step around a table of
/// `n` seats: seats `1..n` step to their successor and seat `n` wraps to 1.
pub open spec fn spec_next(seat: u32, n: u32) -> u32
    recommends
        n >= 1,
{
    (seat % n + 1) as u32
}

/// `spec_next` applied `k` times from `seat`.
pub open spec fn iterated_next(seat: u32, n: u32, k: nat) -> u32
    decreases k,
{
    if k == 0 {
        seat
    } else {
        spec_next(iterated_next(seat, n, (k - 1) as nat), n)
    }
}

impl CottageNumber {
    /// A valid seat number is positive.
    pub open spec fn wf(self) -> bool {
        self.0 >= 1
    }

    /// Seat 0 does not exist; any positive number names a seat.
    pub fn new(value: u32) -> (r: Option<CottageNumber>)
        ensures
            value == 0 ==> r is None,
            value >= 1 ==> r == Some(CottageNumber(value)),
    {
        if value == 0 {
            None
        } else {
            Some(CottageNumber(value))
        }
    }

    /// The next seat clockwise around a table of `number_of_players` seats.
    /// With no seats at the table there is no next seat to step to.
    pub fn next(self, number_of_players: u32) -> (r: CottageNumber)
        requires
            number_of_players >= 1,
        ensures
            r.0 == spec_next(self.0, number_of_players),
            r.wf(),
    {
        CottageNumber(self.0 % number_of_players + 1)
    }
}

/// Stepping from any seat lands on a seat of the table: `spec_next` maps into
/// `{1..n}`.
pub proof fn lemma_next_in_range(seat: u32, n: u32)
    requires
        n >= 1,
    ensures
        1 <= spec_next(seat, n) <= n,
{
    lemma_mod_bound(seat as int, n as int);
}

/// The last seat wraps to the first: `spec_next(n, n) == 1`.
pub proof fn lemma_next_wraps(n: u32)
    requires
        n >= 1,
    ensures
        spec_next(n, n) == 1,
{
    lemma_mod_self_0(n as int);
}

/// On the seats of the table, one clockwise step is injective: two seats in
/// `{1..n}` with the same successor are the same seat.
pub proof fn lemma_next_injective(s1: u32, s2: u32, n: u32)
    requires
        n >= 1,
        1 <= s1 <= n,
        1 <= s2 <= n,
        spec_next(s1, n) == spec_next(s2, n),
    ensures
        s1 == s2,
{
    lemma_mod_cycle_form(s1, n);
    lemma_mod_cycle_form(s2, n);
}

/// Every seat of the table is reached by one clockwise step from a seat of
/// the table: together with injectivity, `spec_next` is a bijection on
/// `{1..n}`.
pub proof fn lemma_next_surjective(t: u32, n: u32)
    requires
        n >= 1,
        1 <= t <= n,
    ensures
        exists|s: u32| 1 <= s <= n && #[trigger] spec_next(s, n) == t,
{
    if t == 1 {
        lemma_next_wraps(n);
        assert(spec_next(n, n) == t);
    } else {
        lemma_mod_cycle_form((t - 1) as u32, n);
        assert(spec_next((t - 1) as u32, n) == t);
    }
}

/// For a seat of the table, `spec_next` is plain succession with wraparound.
proof fn lemma_mod_cycle_form(s: u32, n: u32)
    requires
        n >= 1,
        1 <= s <= n,
    ensures
        spec_next(s, n) == if s == n { 1u32 } else { (s + 1) as u32 },
{
    if s == n {
        lemma_mod_self_0(n as int);
    } else {
        lemma_small_mod(s as nat, n as nat);
    }
}

/// After `k` steps from a seat of the table, the clock hand stands on
/// `((s - 1 + k) mod n) + 1`.
pub proof fn lemma_iterated_next_form(s: u32, n: u32, k: nat)
    requires
        n >= 1,
        1 <= s <= n,
    ensures
        iterated_next(s, n, k) == ((s - 1 + k) % (n as int)) + 1,
    decreases k,
{
    if k == 0 {
        lemma_small_mod((s - 1) as nat, n as nat);
    } else {
        lemma_iterated_next_form(s, n, (k - 1) as nat);
        let prev = iterated_next(s, n, (k - 1) as nat);
        let m = (s - 1 + k - 1) % (n as int);
        lemma_mod_bound(s - 1 + k - 1, n as int);
        assert(prev == m + 1);
        assert(1 <= prev <= n);
        lemma_mod_cycle_form(prev, n);
        vstd::arithmetic::div_mod::lemma_add_mod_noop(s - 1 + k - 1, 1, n as int);
        if m + 1 == n {
            if n == 1 {
                lemma_mod_bound(s - 1 + k, 1);
            } else {
                lemma_small_mod(1nat, n as nat);
                lemma_mod_self_0(n as int);
            }
            assert((s - 1 + k) % (n as int) == 0);
        } else {
            lemma_small_mod(1nat, n as nat);
            lemma_small_mod((m + 1) as nat, n as nat);
            assert((s - 1 + k) % (n as int) == m + 1);
        }
    }
}

/// A full round of the table returns the clock hand to its seed: applying
/// `spec_next` exactly `n` times from any seat of the table is the identity.
pub proof fn lemma_next_full_cycle(s: u32, n: u32)
    requires
        n >= 1,
        1 <= s <= n,
    ensures
        iterated_next(s, n, n as nat) == s,
{
    lemma_iterated_next_form(s, n, n as nat);
    vstd::arithmetic::div_mod::lemma_mod_add_multiples_vanish((s - 1) as int, n as int);
    lemma_small_mod((s - 1) as nat, n as nat);
}

/// The seating directory: each entry pairs a seat number with the occupying
/// player and that player's cottage channel. Seat keys are pairwise distinct;
/// a player is free to occupy several seats.
pub struct PlayerMap {
    pub entries: Vec<(u32, (u64, u64))>,
}

impl View for PlayerMap {
    type V = Map<u32, (u64, u64)>;

    open spec fn view(&self) -> Map<u32, (u64, u64)> {
        assoc_map(self.entries@)
    }
}

/// The seat of the first entry, in storage order, whose occupant is `player`.
pub open spec fn first_seat_of(entries: Seq<(u32, (u64, u64))>, player: u64) -> Option<u32>
    decreases entries.len(),
{
    if entries.len() == 0 {
        None
    } else if entries[0].1.0 == player {
        Some(entries[0].0)
    } else {
        first_seat_of(entries.drop_first(), player)
    }
}

/// A found first seat is the key of an entry occupied by the player, and a
/// miss means no entry at all holds the player.
pub proof fn lemma_first_seat_of(entries: Seq<(u32, (u64, u64))>, player: u64)
    ensures
        first_seat_of(entries, player) matches Some(s) ==> exists|i: int|
            0 <= i < entries.len() && (#[trigger] entries[i]).0 == s && entries[i].1.0 == player,
        first_seat_of(entries, player) is None ==> forall|i: int|
            0 <= i < entries.len() ==> (#[trigger] entries[i]).1.0 != player,
    decreases entries.len(),
{
    if entries.len() > 0 && entries[0].1.0 != player {
        lemma_first_seat_of(entries.drop_first(), player);
        let rest = entries.drop_first();
        match first_seat_of(rest, player) {
            Some(s) => {
                let i = choose|i: int|
                    0 <= i < rest.len() && (#[trigger] rest[i]).0 == s && rest[i].1.0 == player;
                assert(entries[i + 1].0 == s && entries[i + 1].1.0 == player);
            },
            None => {
                assert(forall|i: int|
                    0 < i < entries.len() ==> (#[trigger] entries[i]).1.0 == rest[i - 1].1.0);
            },
        }
    }
}

impl PlayerMap {
    /// Seat keys are pairwise distinct and every seat number is valid.
    pub open spec fn wf(self) -> bool {
        assoc_unique(self.entries@) && forall|i: int|
            0 <= i < self.entries@.len() ==> (#[trigger] self.entries@[i]).0 >= 1
    }

    /// An empty directory.
    pub fn new() -> (r: PlayerMap)
        ensures
            r.wf(),
            r@ == Map::<u32, (u64, u64)>::empty(),
            r.entries@ == Seq::<(u32, (u64, u64))>::empty(),
    {
        PlayerMap { entries: Vec::new() }
    }

    /// The occupant of `seat` and that occupant's channel, if the seat is
    /// assigned.
    pub fn lookup(&self, seat: CottageNumber) -> (r: Option<(u64, u64)>)
        requires
            self.wf(),
        ensures
            self@.contains_key(seat.0) ==> r == Some(self@[seat.0]),
            !self@.contains_key(seat.0) ==> r is None,
    {
        let n = self.entries.len();
        for i in 0..n
            invariant
                n == self.entries@.len(),
                self.wf(),
                forall|j: int| 0 <= j < i ==> (#[trigger] self.entries@[j]).0 != seat.0,
        {
            let entry = self.entries[i];
            if entry.0 == seat.0 {
                proof {
                    lemma_assoc_value_at(self.entries@, i as int);
                }
                return Some(entry.1);
            }
        }
        proof {
            lemma_assoc_absent(self.entries@, seat.0);
        }
        None
    }

    /// Idempotent upsert: any prior occupant of the seat is overwritten, and
    /// no other seat changes. No bound on the seat number is enforced.
    pub fn assign(&mut self, cottage: CottageNumber, player: u64, channel: u64)
        requires
            old(self).wf(),
            cottage.wf(),
        ensures
            final(self).wf(),
            final(self)@ == old(self)@.insert(cottage.0, (player, channel)),
            final(self).entries@ == assoc_insert(
                old(self).entries@,
                cottage.0,
                (player, channel),
            ),
    {
        let n = self.entries.len();
        for i in 0..n
            invariant
                self == old(self),
                n == self.entries@.len(),
                self.wf(),
                forall|j: int| 0 <= j < i ==> (#[trigger] self.entries@[j]).0 != cottage.0,
        {
            if self.entries[i].0 == cottage.0 {
                proof {
                    assert(assoc_has_key(self.entries@, cottage.0));
                    let j = assoc_index_of(self.entries@, cottage.0);
                    assert(self.entries@[j].0 == cottage.0);
                    assert(j == i);
                    lemma_assoc_insert(self.entries@, cottage.0, (player, channel));
                }
                self.entries[i] = (cottage.0, (player, channel));
                return ;
            }
        }
        proof {
            assert(!assoc_has_key(self.entries@, cottage.0));
            lemma_assoc_insert(self.entries@, cottage.0, (player, channel));
        }
        self.entries.push((cottage.0, (player, channel)));
    }

    /// The first seat, in storage order, that `player` occupies. When a
    /// player holds several seats, which seat a scan finds first is a
    /// documented limitation of the directory, not a guarantee.
    pub fn seat_of(&self, player: u64) -> (r: Option<CottageNumber>)
        requires
            self.wf(),
        ensures
            first_seat_of(self.entries@, player) matches Some(s) ==> r == Some(CottageNumber(s)),
            first_seat_of(self.entries@, player) is None ==> r is None,
            r is None ==> forall|i: int|
                0 <= i < self.entries@.len() ==> (#[trigger] self.entries@[i]).1.0 != player,
            r matches Some(c) ==> c.wf(),
    {
        proof {
            lemma_first_seat_of(self.entries@, player);
        }
        let n = self.entries.len();
        proof {
            assert(self.entries@.skip(0) =~= self.entries@);
        }
        for i in 0..n
            invariant
                n == self.entries@.len(),
                self.wf(),
                first_seat_of(self.entries@, player) == first_seat_of(
                    self.entries@.skip(i as int),
                    player,
                ),
                forall|j: int| 0 <= j < i ==> (#[trigger] self.entries@[j]).1.0 != player,
        {
            proof {
                assert(self.entries@.skip(i as int)[0] == self.entries@[i as int]);
                assert(self.entries@.skip(i as int).drop_first() =~= self.entries@.skip(
                    i as int + 1,
                ));
            }
            let entry = self.entries[i];
            if entry.1.0 == player {
                return Some(CottageNumber(entry.0));
            }
        }
        proof {
            assert(self.entries@.skip(n as int) =~= Seq::<(u32, (u64, u64))>::empty());
        }
        None
    }

    /// How many seats are assigned.
    pub fn len(&self) -> (r: usize)
        ensures
            r == self.entries@.len(),
    {
        self.entries.len()
    }
}

} // verus!
