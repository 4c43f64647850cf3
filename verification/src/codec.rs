//! The snapshot codec: the whole game state written as one text document and
//! read back. The parser's contract promises that any document the writer
//! produces parses back to a state equal in every observable field, which is
//! the round-trip law of the persistence layer.
//!
//! The format is fixed-width and length-prefixed: numbers are sixteen hex
//! digits, strings carry their length first and their characters verbatim,
//! registries carry their entry count first, and the optional session is a
//! one-character tag.
use crate::assoc::assoc_unique;
use crate::seating::{CottageNumber, PlayerMap};
use crate::state::{DeadState, State, StateSnap, StatusMap, Vote, VoteSnap, VoteState};
use vstd::prelude::*;
use vstd::string::*;

verus! {

/// The hex digit character for `d` in `0..=15`.
pub open spec fn hex_digit(d: u64) -> char {
    if d == 0 {
        '0'
    } else if d == 1 {
        '1'
    } else if d == 2 {
        '2'
    } else if d == 3 {
        '3'
    } else if d == 4 {
        '4'
    } else if d == 5 {
        '5'
    } else if d == 6 {
        '6'
    } else if d == 7 {
        '7'
    } else if d == 8 {
        '8'
    } else if d == 9 {
        '9'
    } else if d == 10 {
        'a'
    } else if d == 11 {
        'b'
    } else if d == 12 {
        'c'
    } else if d == 13 {
        'd'
    } else if d == 14 {
        'e'
    } else {
        'f'
    }
}

/// The `i`-th hex digit of `x`, most significant first.
pub open spec fn nibble(x: u64, i: int) -> u64 {
    (x >> (((15 - i) * 4) as u64)) & 0xf
}

/// A number as sixteen hex digits, most significant first.
pub open spec fn enc_u64(x: u64) -> Seq<char> {
    Seq::new(16, |i: int| hex_digit(nibble(x, i)))
}

/// A string field: its length, then its characters verbatim.
pub open spec fn enc_str(s: Seq<char>) -> Seq<char>
    recommends
        s.len() < 0x10000000000000000,
{
    enc_u64(s.len() as u64) + s
}

/// A ballot status as a one-character tag.
pub open spec fn enc_ballot(b: VoteState) -> Seq<char> {
    match b {
        VoteState::Unset => seq!['0'],
        VoteState::HandRaised => seq!['1'],
        VoteState::HandLowered => seq!['2'],
        VoteState::Yes => seq!['3'],
        VoteState::No => seq!['4'],
    }
}

/// A dead status as a one-character tag.
pub open spec fn enc_dead(d: DeadState) -> Seq<char> {
    match d {
        DeadState::Alive => seq!['0'],
        DeadState::DeadVoteAvailable => seq!['1'],
        DeadState::DeadVoteUsed => seq!['2'],
    }
}

/// One seating entry: seat, occupant, channel.
pub open spec fn enc_player_entry(e: (u32, (u64, u64))) -> Seq<char> {
    enc_u64(e.0 as u64) + enc_u64(e.1.0) + enc_u64(e.1.1)
}

/// One ballot entry: player, status tag.
pub open spec fn enc_ballot_entry(e: (u64, VoteState)) -> Seq<char> {
    enc_u64(e.0) + enc_ballot(e.1)
}

/// One dead entry: player, status tag.
pub open spec fn enc_dead_entry(e: (u64, DeadState)) -> Seq<char> {
    enc_u64(e.0) + enc_dead(e.1)
}

/// The seating entries in storage order.
pub open spec fn enc_player_entries(entries: Seq<(u32, (u64, u64))>) -> Seq<char>
    decreases entries.len(),
{
    if entries.len() == 0 {
        Seq::empty()
    } else {
        enc_player_entry(entries[0]) + enc_player_entries(entries.drop_first())
    }
}

/// The ballot entries in storage order.
pub open spec fn enc_ballot_entries(entries: Seq<(u64, VoteState)>) -> Seq<char>
    decreases entries.len(),
{
    if entries.len() == 0 {
        Seq::empty()
    } else {
        enc_ballot_entry(entries[0]) + enc_ballot_entries(entries.drop_first())
    }
}

/// The dead entries in storage order.
pub open spec fn enc_dead_entries(entries: Seq<(u64, DeadState)>) -> Seq<char>
    decreases entries.len(),
{
    if entries.len() == 0 {
        Seq::empty()
    } else {
        enc_dead_entry(entries[0]) + enc_dead_entries(entries.drop_first())
    }
}

/// Appending a seating entry appends its encoding.
proof fn lemma_enc_player_entries_push(entries: Seq<(u32, (u64, u64))>, e: (u32, (u64, u64)))
    ensures
        enc_player_entries(entries.push(e)) == enc_player_entries(entries) + enc_player_entry(e),
    decreases entries.len(),
{
    if entries.len() == 0 {
        assert(entries.push(e).drop_first() =~= Seq::<(u32, (u64, u64))>::empty());
        assert(entries.push(e)[0] == e);
        assert(enc_player_entries(Seq::<(u32, (u64, u64))>::empty()) == Seq::<char>::empty());
        assert(enc_player_entries(entries.push(e)) =~= enc_player_entries(entries)
            + enc_player_entry(e));
    } else {
        assert(entries.push(e).drop_first() =~= entries.drop_first().push(e));
        assert(entries.push(e)[0] == entries[0]);
        lemma_enc_player_entries_push(entries.drop_first(), e);
        assert(enc_player_entries(entries.push(e)) == enc_player_entry(entries[0]) + enc_player_entries(
            entries.drop_first().push(e),
        ));
        assert(enc_player_entries(entries.drop_first().push(e)) == enc_player_entries(entries.drop_first())
            + enc_player_entry(e));
        assert(enc_player_entries(entries.push(e)) =~= enc_player_entries(entries)
            + enc_player_entry(e));
    }
}

/// Appending a ballot entry appends its encoding.
proof fn lemma_enc_ballot_entries_push(entries: Seq<(u64, VoteState)>, e: (u64, VoteState))
    ensures
        enc_ballot_entries(entries.push(e)) == enc_ballot_entries(entries) + enc_ballot_entry(e),
    decreases entries.len(),
{
    if entries.len() == 0 {
        assert(entries.push(e).drop_first() =~= Seq::<(u64, VoteState)>::empty());
        assert(entries.push(e)[0] == e);
        assert(enc_ballot_entries(Seq::<(u64, VoteState)>::empty()) == Seq::<char>::empty());
        assert(enc_ballot_entries(entries.push(e)) =~= enc_ballot_entries(entries)
            + enc_ballot_entry(e));
    } else {
        assert(entries.push(e).drop_first() =~= entries.drop_first().push(e));
        assert(entries.push(e)[0] == entries[0]);
        lemma_enc_ballot_entries_push(entries.drop_first(), e);
        assert(enc_ballot_entries(entries.push(e)) == enc_ballot_entry(entries[0]) + enc_ballot_entries(
            entries.drop_first().push(e),
        ));
        assert(enc_ballot_entries(entries.drop_first().push(e)) == enc_ballot_entries(entries.drop_first())
            + enc_ballot_entry(e));
        assert(enc_ballot_entries(entries.push(e)) =~= enc_ballot_entries(entries)
            + enc_ballot_entry(e));
    }
}

/// Appending a dead entry appends its encoding.
proof fn lemma_enc_dead_entries_push(entries: Seq<(u64, DeadState)>, e: (u64, DeadState))
    ensures
        enc_dead_entries(entries.push(e)) == enc_dead_entries(entries) + enc_dead_entry(e),
    decreases entries.len(),
{
    if entries.len() == 0 {
        assert(entries.push(e).drop_first() =~= Seq::<(u64, DeadState)>::empty());
        assert(entries.push(e)[0] == e);
        assert(enc_dead_entries(Seq::<(u64, DeadState)>::empty()) == Seq::<char>::empty());
        assert(enc_dead_entries(entries.push(e)) =~= enc_dead_entries(entries) + enc_dead_entry(
            e,
        ));
    } else {
        assert(entries.push(e).drop_first() =~= entries.drop_first().push(e));
        assert(entries.push(e)[0] == entries[0]);
        lemma_enc_dead_entries_push(entries.drop_first(), e);
        assert(enc_dead_entries(entries.push(e)) == enc_dead_entry(entries[0]) + enc_dead_entries(
            entries.drop_first().push(e),
        ));
        assert(enc_dead_entries(entries.drop_first().push(e)) == enc_dead_entries(entries.drop_first())
            + enc_dead_entry(e));
        assert(enc_dead_entries(entries.push(e)) =~= enc_dead_entries(entries) + enc_dead_entry(
            e,
        ));
    }
}

/// A vote session, field by field in declaration order. Each registry is
/// written as its entry count followed by its entries.
pub open spec fn enc_vote(v: VoteSnap) -> Seq<char> {
    enc_u64(v.nominator) + enc_u64(v.nominee) + enc_str(v.accusation) + enc_str(v.defense)
        + enc_u64(v.clock_hand as u64) + enc_u64(v.vote_state.len() as u64) + enc_ballot_entries(
        v.vote_state,
    ) + enc_u64(v.dead_state.len() as u64) + enc_dead_entries(v.dead_state) + enc_str(
        v.description,
    ) + enc_u64(v.message_id) + enc_u64(v.channel_id)
}

/// The whole game state: the player count, the seating registry, then the
/// optional session behind a presence tag.
pub open spec fn enc_state(s: StateSnap) -> Seq<char> {
    enc_u64(s.number_of_players as u64) + enc_u64(s.players.len() as u64) + enc_player_entries(
        s.players,
    ) + match s.current_vote {
        None => seq!['0'],
        Some(v) => seq!['1'] + enc_vote(v),
    }
}

/// Every length a document records fits in its sixteen-digit field. True of
/// any state a process can hold.
pub open spec fn snap_bounded(s: StateSnap) -> bool {
    s.players.len() < 0x10000000000000000 && match s.current_vote {
        None => true,
        Some(v) => v.accusation.len() < 0x10000000000000000 && v.defense.len()
            < 0x10000000000000000 && v.description.len() < 0x10000000000000000
            && v.vote_state.len() < 0x10000000000000000 && v.dead_state.len()
            < 0x10000000000000000,
    }
}

/// The single-character string for a hex digit.
fn hex_digit_str(d: u64) -> (r: &'static str)
    requires
        d < 16,
    ensures
        r@ == seq![hex_digit(d)],
{
    let r: &'static str = if d == 0 {
        "0"
    } else if d == 1 {
        "1"
    } else if d == 2 {
        "2"
    } else if d == 3 {
        "3"
    } else if d == 4 {
        "4"
    } else if d == 5 {
        "5"
    } else if d == 6 {
        "6"
    } else if d == 7 {
        "7"
    } else if d == 8 {
        "8"
    } else if d == 9 {
        "9"
    } else if d == 10 {
        "a"
    } else if d == 11 {
        "b"
    } else if d == 12 {
        "c"
    } else if d == 13 {
        "d"
    } else if d == 14 {
        "e"
    } else {
        "f"
    };
    proof {
        reveal_strlit("0");
        reveal_strlit("1");
        reveal_strlit("2");
        reveal_strlit("3");
        reveal_strlit("4");
        reveal_strlit("5");
        reveal_strlit("6");
        reveal_strlit("7");
        reveal_strlit("8");
        reveal_strlit("9");
        reveal_strlit("a");
        reveal_strlit("b");
        reveal_strlit("c");
        reveal_strlit("d");
        reveal_strlit("e");
        reveal_strlit("f");
        assert(r@ =~= seq![hex_digit(d)]);
    }
    r
}

/// Append the sixteen-hex-digit form of `x`.
fn push_hex_u64(out: &mut String, x: u64)
    ensures
        final(out)@ == old(out)@ + enc_u64(x),
{
    for i in 0..16u64
        invariant
            out@ == old(out)@ + enc_u64(x).take(i as int),
    {
        let shift = (15 - i) * 4;
        let nib = (x >> shift) & 0xf;
        assert(((x >> shift) & 0xf) < 16) by (bit_vector);
        out.append(hex_digit_str(nib));
        proof {
            assert(nib == nibble(x, i as int));
            assert(enc_u64(x).take(i as int + 1) =~= enc_u64(x).take(i as int) + seq![
                hex_digit(nibble(x, i as int)),
            ]);
            assert(out@ =~= old(out)@ + enc_u64(x).take(i as int + 1));
        }
    }
    proof {
        assert(enc_u64(x).take(16) =~= enc_u64(x));
    }
}

/// Append a string field: its length, then its characters verbatim.
fn push_str_field(out: &mut String, field: &str)
    ensures
        final(out)@ == old(out)@ + enc_str(field@),
{
    let len = field.unicode_len();
    push_hex_u64(out, len as u64);
    out.append(field);
}

/// Append the seating registry.
fn push_players(out: &mut String, players: &PlayerMap)
    ensures
        final(out)@ == old(out)@ + enc_u64(players.entries@.len() as u64) + enc_player_entries(
            players.entries@,
        ),
{
    let n = players.entries.len();
    push_hex_u64(out, n as u64);
    for i in 0..n
        invariant
            n == players.entries@.len(),
            out@ == old(out)@ + enc_u64(n as u64) + enc_player_entries(
                players.entries@.take(i as int),
            ),
    {
        let entry = players.entries[i];
        push_hex_u64(out, entry.0 as u64);
        push_hex_u64(out, entry.1.0);
        push_hex_u64(out, entry.1.1);
        proof {
            let prefix = players.entries@.take(i as int);
            assert(players.entries@.take(i as int + 1) =~= prefix.push(
                players.entries@[i as int],
            ));
            lemma_enc_player_entries_push(prefix, players.entries@[i as int]);
            assert(out@ =~= old(out)@ + enc_u64(n as u64) + enc_player_entries(
                players.entries@.take(i as int + 1),
            ));
        }
    }
    proof {
        assert(players.entries@.take(n as int) =~= players.entries@);
    }
}

/// Append the ballot registry.
fn push_ballots(out: &mut String, ballots: &StatusMap<VoteState>)
    ensures
        final(out)@ == old(out)@ + enc_u64(ballots.entries@.len() as u64) + enc_ballot_entries(
            ballots.entries@,
        ),
{
    let n = ballots.entries.len();
    push_hex_u64(out, n as u64);
    for i in 0..n
        invariant
            n == ballots.entries@.len(),
            out@ == old(out)@ + enc_u64(n as u64) + enc_ballot_entries(
                ballots.entries@.take(i as int),
            ),
    {
        let entry = ballots.entries[i];
        push_hex_u64(out, entry.0);
        let tag: &'static str = match entry.1 {
            VoteState::Unset => "0",
            VoteState::HandRaised => "1",
            VoteState::HandLowered => "2",
            VoteState::Yes => "3",
            VoteState::No => "4",
        };
        out.append(tag);
        proof {
            reveal_strlit("0");
            reveal_strlit("1");
            reveal_strlit("2");
            reveal_strlit("3");
            reveal_strlit("4");
            assert(tag@ =~= enc_ballot(entry.1));
            let prefix = ballots.entries@.take(i as int);
            assert(ballots.entries@.take(i as int + 1) =~= prefix.push(
                ballots.entries@[i as int],
            ));
            lemma_enc_ballot_entries_push(prefix, ballots.entries@[i as int]);
            assert(out@ =~= old(out)@ + enc_u64(n as u64) + enc_ballot_entries(
                ballots.entries@.take(i as int + 1),
            ));
        }
    }
    proof {
        assert(ballots.entries@.take(n as int) =~= ballots.entries@);
    }
}

/// Append the dead registry.
fn push_deads(out: &mut String, deads: &StatusMap<DeadState>)
    ensures
        final(out)@ == old(out)@ + enc_u64(deads.entries@.len() as u64) + enc_dead_entries(
            deads.entries@,
        ),
{
    let n = deads.entries.len();
    push_hex_u64(out, n as u64);
    for i in 0..n
        invariant
            n == deads.entries@.len(),
            out@ == old(out)@ + enc_u64(n as u64) + enc_dead_entries(
                deads.entries@.take(i as int),
            ),
    {
        let entry = deads.entries[i];
        push_hex_u64(out, entry.0);
        let tag: &'static str = match entry.1 {
            DeadState::Alive => "0",
            DeadState::DeadVoteAvailable => "1",
            DeadState::DeadVoteUsed => "2",
        };
        out.append(tag);
        proof {
            reveal_strlit("0");
            reveal_strlit("1");
            reveal_strlit("2");
            assert(tag@ =~= enc_dead(entry.1));
            let prefix = deads.entries@.take(i as int);
            assert(deads.entries@.take(i as int + 1) =~= prefix.push(deads.entries@[i as int]));
            lemma_enc_dead_entries_push(prefix, deads.entries@[i as int]);
            assert(out@ =~= old(out)@ + enc_u64(n as u64) + enc_dead_entries(
                deads.entries@.take(i as int + 1),
            ));
        }
    }
    proof {
        assert(deads.entries@.take(n as int) =~= deads.entries@);
    }
}

impl State {
    /// The snapshot document of this state: exactly `enc_state` of its
    /// observable content.
    pub fn snapshot_text(&self) -> (r: String)
        ensures
            r@ == enc_state(self@),
    {
        let mut out = String::new();
        push_hex_u64(&mut out, self.number_of_players as u64);
        push_players(&mut out, &self.players);
        match &self.current_vote {
            None => {
                out.append("0");
                proof {
                    reveal_strlit("0");
                    assert(out@ =~= enc_state(self@));
                }
            },
            Some(vote) => {
                out.append("1");
                push_hex_u64(&mut out, vote.nominator);
                push_hex_u64(&mut out, vote.nominee);
                push_str_field(&mut out, vote.accusation.as_str());
                push_str_field(&mut out, vote.defense.as_str());
                push_hex_u64(&mut out, vote.clock_hand.0 as u64);
                push_ballots(&mut out, &vote.vote_state);
                push_deads(&mut out, &vote.dead_state);
                push_str_field(&mut out, vote.description.as_str());
                push_hex_u64(&mut out, vote.message_id);
                push_hex_u64(&mut out, vote.channel_id);
                proof {
                    reveal_strlit("1");
                    assert(out@ =~= enc_state(self@));
                }
            },
        }
        out
    }
}

} // verus!

verus! {

/// The stream `s`, read from `pos`, continues with `content` and then
/// `rest`. The parsers' contracts quantify over this shape: wherever the
/// stream continues with the encoding of some value, the parser returns that
/// value and the position after it.
spec fn stream_is(s: Seq<char>, pos: int, content: Seq<char>, rest: Seq<char>) -> bool {
    s.skip(pos) == content + rest
}

/// The value of the first `i` hex digits of `x`'s encoding, accumulated most
/// significant first.
spec fn take_val(x: u64, i: int) -> u64
    decreases i,
{
    if i <= 0 {
        0
    } else {
        (take_val(x, i - 1) * 16 + nibble(x, i - 1)) as u64
    }
}

/// The first `i` digits hold exactly the bits of `x` above the remaining
/// digits.
proof fn lemma_take_val_shift(x: u64, i: int)
    requires
        1 <= i <= 16,
    ensures
        take_val(x, i) == x >> (((16 - i) * 4) as u64),
    decreases i,
{
    let k: u64 = ((16 - i) * 4) as u64;
    assert(take_val(x, 0) == 0);
    if i == 1 {
        assert(nibble(x, 0) == (x >> 60u64) & 0xf);
        assert((x >> 60u64) & 0xf == x >> 60u64) by (bit_vector);
    } else {
        lemma_take_val_shift(x, i - 1);
        let j4: u64 = ((17 - i) * 4) as u64;
        assert(nibble(x, i - 1) == (x >> k) & 0xf);
        assert(j4 == k + 4 && k <= 56 ==> ((x >> j4) * 16 + ((x >> k) & 0xf)) == x >> k)
            by (bit_vector);
        assert(take_val(x, i) == x >> k);
    }
}

/// Reading back all sixteen digits recovers the number.
proof fn lemma_take_val_full(x: u64)
    ensures
        take_val(x, 16) == x,
{
    lemma_take_val_shift(x, 16);
    assert(x >> 0u64 == x) by (bit_vector);
}

/// A stream that continues with `a + b` continues with `b` once `a` is
/// consumed.
proof fn lemma_stream_split(s: Seq<char>, pos: int, a: Seq<char>, b: Seq<char>)
    requires
        0 <= pos <= s.len(),
        s.skip(pos) == a + b,
    ensures
        pos + a.len() <= s.len(),
        s.skip(pos + a.len()) == b,
{
    assert(s.skip(pos).skip(a.len() as int) =~= s.skip(pos + a.len()));
    assert((a + b).skip(a.len() as int) =~= b);
}

/// The numeric value of a hex digit character.
fn hex_val(c: char) -> (r: Option<u64>)
    ensures
        r matches Some(d) ==> d < 16,
        forall|d: u64| d < 16 && c == hex_digit(d) ==> r == Some(d),
{
    match c {
        '0' => Some(0),
        '1' => Some(1),
        '2' => Some(2),
        '3' => Some(3),
        '4' => Some(4),
        '5' => Some(5),
        '6' => Some(6),
        '7' => Some(7),
        '8' => Some(8),
        '9' => Some(9),
        'a' => Some(10),
        'b' => Some(11),
        'c' => Some(12),
        'd' => Some(13),
        'e' => Some(14),
        'f' => Some(15),
        _ => None,
    }
}

/// Read a sixteen-hex-digit number.
fn parse_u64(s: &str, pos: usize) -> (r: Option<(u64, usize)>)
    requires
        pos <= s@.len(),
    ensures
        s@.len() <= usize::MAX,
        r matches Some(p) ==> pos <= p.1 <= s@.len(),
        forall|x: u64, rest: Seq<char>|
            #[trigger] stream_is(s@, pos as int, enc_u64(x), rest) ==> r == Some(
                (x, (pos + 16) as usize),
            ),
{
    let len = s.unicode_len();
    if len - pos < 16 {
        proof {
            assert forall|x: u64, rest: Seq<char>|
                stream_is(s@, pos as int, enc_u64(x), rest) implies false by {
                assert(s@.skip(pos as int).len() == s@.len() - pos);
                assert((enc_u64(x) + rest).len() >= 16);
            }
        }
        return None;
    }
    let mut acc: u64 = 0;
    proof {
        assert(0u64 >> 0u64 == 0) by (bit_vector);
    }
    for i in 0..16usize
        invariant
            len == s@.len(),
            pos + 16 <= s@.len(),
            i < 16 ==> acc >> ((4 * i) as u64) == 0,
            forall|x: u64, rest: Seq<char>|
                #[trigger] stream_is(s@, pos as int, enc_u64(x), rest) ==> acc == take_val(
                    x,
                    i as int,
                ),
    {
        let c = s.get_char(pos + i);
        proof {
            assert forall|x: u64, rest: Seq<char>|
                stream_is(s@, pos as int, enc_u64(x), rest) implies c == hex_digit(
                nibble(x, i as int),
            ) && nibble(x, i as int) < 16 by {
                assert(s@[pos as int + i as int] == (enc_u64(x) + rest)[i as int]);
                assert((enc_u64(x) + rest)[i as int] == enc_u64(x)[i as int]);
                let sh: u64 = ((15 - i) * 4) as u64;
                assert(((x >> sh) & 0xf) < 16) by (bit_vector);
            }
        }
        match hex_val(c) {
            None => {
                proof {
                    assert forall|x: u64, rest: Seq<char>|
                        stream_is(s@, pos as int, enc_u64(x), rest) implies false by {
                        assert(c == hex_digit(nibble(x, i as int)));
                    }
                }
                return None;
            },
            Some(d) => {
                proof {
                    let sh: u64 = (4 * i) as u64;
                    assert(sh <= 60 && (acc >> sh) == 0 ==> acc <= 0x0fffffffffffffff)
                        by (bit_vector);
                    assert(acc <= 0x0fffffffffffffff);
                }
                let acc2 = acc * 16 + d;
                proof {
                    let sh: u64 = (4 * i) as u64;
                    let sh2: u64 = (4 * (i + 1)) as u64;
                    assert(sh <= 56 && sh2 == sh + 4 && (acc >> sh) == 0 && d < 16 && acc2 == acc
                        * 16 + d ==> (acc2 >> sh2) == 0) by (bit_vector);
                    assert forall|x: u64, rest: Seq<char>|
                        stream_is(s@, pos as int, enc_u64(x), rest) implies acc2 == take_val(
                        x,
                        i as int + 1,
                    ) by {
                        assert(c == hex_digit(nibble(x, i as int)));
                        assert(d == nibble(x, i as int));
                        assert(acc == take_val(x, i as int));
                    }
                }
                acc = acc2;
            },
        }
    }
    proof {
        assert forall|x: u64, rest: Seq<char>|
            stream_is(s@, pos as int, enc_u64(x), rest) implies acc == x by {
            lemma_take_val_full(x);
        }
    }
    Some((acc, pos + 16))
}

} // verus!

verus! {

/// Read a length-prefixed string field.
fn parse_str(s: &str, pos: usize) -> (r: Option<(String, usize)>)
    requires
        pos <= s@.len(),
    ensures
        r matches Some(p) ==> pos <= p.1 <= s@.len(),
        forall|t: Seq<char>, rest: Seq<char>|
            #[trigger] stream_is(s@, pos as int, enc_str(t), rest) && t.len()
                < 0x10000000000000000 ==> (r matches Some(p) && p.0@ == t && p.1 == pos + 16
                + t.len()),
{
    let len = s.unicode_len();
    let (field_len, pos1) = match parse_u64(s, pos) {
        Some(p) => p,
        None => {
            proof {
                assert forall|t: Seq<char>, rest: Seq<char>|
                    stream_is(s@, pos as int, enc_str(t), rest) && t.len()
                        < 0x10000000000000000 implies false by {
                    assert(s@.skip(pos as int) =~= enc_u64(t.len() as u64) + (t + rest));
                    assert(stream_is(s@, pos as int, enc_u64(t.len() as u64), t + rest));
                }
            }
            return None;
        },
    };
    let remaining = len - pos1;
    if (remaining as u64) < field_len {
        proof {
            assert forall|t: Seq<char>, rest: Seq<char>|
                stream_is(s@, pos as int, enc_str(t), rest) && t.len()
                    < 0x10000000000000000 implies false by {
                assert(s@.skip(pos as int) =~= enc_u64(t.len() as u64) + (t + rest));
                assert(stream_is(s@, pos as int, enc_u64(t.len() as u64), t + rest));
                lemma_stream_split(s@, pos as int, enc_u64(t.len() as u64), t + rest);
            }
        }
        return None;
    }
    let fl = field_len as usize;
    let sub = s.substring_char(pos1, pos1 + fl);
    let owned = sub.to_owned();
    proof {
        assert forall|t: Seq<char>, rest: Seq<char>|
            stream_is(s@, pos as int, enc_str(t), rest) && t.len()
                < 0x10000000000000000 implies owned@ == t && pos1 + fl == pos + 16 + t.len() by {
            assert(s@.skip(pos as int) =~= enc_u64(t.len() as u64) + (t + rest));
            assert(stream_is(s@, pos as int, enc_u64(t.len() as u64), t + rest));
            lemma_stream_split(s@, pos as int, enc_u64(t.len() as u64), t + rest);
            assert(sub@ =~= t);
        }
    }
    Some((owned, pos1 + fl))
}

/// Read a ballot status tag.
fn parse_ballot_tag(s: &str, pos: usize) -> (r: Option<(VoteState, usize)>)
    requires
        pos <= s@.len(),
    ensures
        r matches Some(p) ==> pos <= p.1 <= s@.len(),
        forall|b: VoteState, rest: Seq<char>|
            #[trigger] stream_is(s@, pos as int, enc_ballot(b), rest) ==> r == Some(
                (b, (pos + 1) as usize),
            ),
{
    let len = s.unicode_len();
    if pos >= len {
        proof {
            assert forall|b: VoteState, rest: Seq<char>|
                stream_is(s@, pos as int, enc_ballot(b), rest) implies false by {
                assert((enc_ballot(b) + rest).len() >= 1);
            }
        }
        return None;
    }
    let c = s.get_char(pos);
    proof {
        assert forall|b: VoteState, rest: Seq<char>|
            stream_is(s@, pos as int, enc_ballot(b), rest) implies c == enc_ballot(b)[0] by {
            assert(s@.skip(pos as int)[0] == s@[pos as int]);
        }
    }
    match c {
        '0' => Some((VoteState::Unset, pos + 1)),
        '1' => Some((VoteState::HandRaised, pos + 1)),
        '2' => Some((VoteState::HandLowered, pos + 1)),
        '3' => Some((VoteState::Yes, pos + 1)),
        '4' => Some((VoteState::No, pos + 1)),
        _ => None,
    }
}

/// Read a dead status tag.
fn parse_dead_tag(s: &str, pos: usize) -> (r: Option<(DeadState, usize)>)
    requires
        pos <= s@.len(),
    ensures
        r matches Some(p) ==> pos <= p.1 <= s@.len(),
        forall|d: DeadState, rest: Seq<char>|
            #[trigger] stream_is(s@, pos as int, enc_dead(d), rest) ==> r == Some(
                (d, (pos + 1) as usize),
            ),
{
    let len = s.unicode_len();
    if pos >= len {
        proof {
            assert forall|d: DeadState, rest: Seq<char>|
                stream_is(s@, pos as int, enc_dead(d), rest) implies false by {
                assert((enc_dead(d) + rest).len() >= 1);
            }
        }
        return None;
    }
    let c = s.get_char(pos);
    proof {
        assert forall|d: DeadState, rest: Seq<char>|
            stream_is(s@, pos as int, enc_dead(d), rest) implies c == enc_dead(d)[0] by {
            assert(s@.skip(pos as int)[0] == s@[pos as int]);
        }
    }
    match c {
        '0' => Some((DeadState::Alive, pos + 1)),
        '1' => Some((DeadState::DeadVoteAvailable, pos + 1)),
        '2' => Some((DeadState::DeadVoteUsed, pos + 1)),
        _ => None,
    }
}

/// Read one seating entry.
fn parse_player_entry(s: &str, pos: usize) -> (r: Option<((u32, (u64, u64)), usize)>)
    requires
        pos <= s@.len(),
    ensures
        r matches Some(p) ==> pos <= p.1 <= s@.len(),
        forall|e: (u32, (u64, u64)), rest: Seq<char>|
            #[trigger] stream_is(s@, pos as int, enc_player_entry(e), rest) ==> (r matches Some(p)
                && p.0 == e && p.1 == pos + enc_player_entry(e).len()),
{
    let (seat64, p_a) = match parse_u64(s, pos) {
        Some(p) => p,
        None => {
            proof {
                assert forall|e: (u32, (u64, u64)), rest: Seq<char>|
                    stream_is(s@, pos as int, enc_player_entry(e), rest) implies false by {
                    let t1 = enc_u64(e.1.0) + (enc_u64(e.1.1) + rest);
                    assert(s@.skip(pos as int) =~= enc_u64(e.0 as u64) + t1);
                    assert(stream_is(s@, pos as int, enc_u64(e.0 as u64), t1));
                }
            }
            return None;
        },
    };
    let (player, p_b) = match parse_u64(s, p_a) {
        Some(p) => p,
        None => {
            proof {
                assert forall|e: (u32, (u64, u64)), rest: Seq<char>|
                    stream_is(s@, pos as int, enc_player_entry(e), rest) implies false by {
                    let t1 = enc_u64(e.1.0) + (enc_u64(e.1.1) + rest);
                    assert(s@.skip(pos as int) =~= enc_u64(e.0 as u64) + t1);
                    assert(stream_is(s@, pos as int, enc_u64(e.0 as u64), t1));
                    lemma_stream_split(s@, pos as int, enc_u64(e.0 as u64), t1);
                    assert(p_a == pos + 16);
                    assert(stream_is(s@, p_a as int, enc_u64(e.1.0), enc_u64(e.1.1) + rest));
                }
            }
            return None;
        },
    };
    let (channel, p_c) = match parse_u64(s, p_b) {
        Some(p) => p,
        None => {
            proof {
                assert forall|e: (u32, (u64, u64)), rest: Seq<char>|
                    stream_is(s@, pos as int, enc_player_entry(e), rest) implies false by {
                    let t1 = enc_u64(e.1.0) + (enc_u64(e.1.1) + rest);
                    assert(s@.skip(pos as int) =~= enc_u64(e.0 as u64) + t1);
                    assert(stream_is(s@, pos as int, enc_u64(e.0 as u64), t1));
                    lemma_stream_split(s@, pos as int, enc_u64(e.0 as u64), t1);
                    assert(p_a == pos + 16);
                    assert(stream_is(s@, p_a as int, enc_u64(e.1.0), enc_u64(e.1.1) + rest));
                    lemma_stream_split(s@, p_a as int, enc_u64(e.1.0), enc_u64(e.1.1) + rest);
                    assert(p_b == p_a + 16);
                    assert(stream_is(s@, p_b as int, enc_u64(e.1.1), rest));
                }
            }
            return None;
        },
    };
    if seat64 > 0xffffffff {
        proof {
            assert forall|e: (u32, (u64, u64)), rest: Seq<char>|
                stream_is(s@, pos as int, enc_player_entry(e), rest) implies false by {
                let t1 = enc_u64(e.1.0) + (enc_u64(e.1.1) + rest);
                assert(s@.skip(pos as int) =~= enc_u64(e.0 as u64) + t1);
                assert(stream_is(s@, pos as int, enc_u64(e.0 as u64), t1));
            }
        }
        return None;
    }
    let seat = seat64 as u32;
    proof {
        assert forall|e: (u32, (u64, u64)), rest: Seq<char>|
            stream_is(s@, pos as int, enc_player_entry(e), rest) implies (seat, (player, channel))
            == e && p_c == pos + enc_player_entry(e).len() by {
            let t1 = enc_u64(e.1.0) + (enc_u64(e.1.1) + rest);
            assert(s@.skip(pos as int) =~= enc_u64(e.0 as u64) + t1);
            assert(stream_is(s@, pos as int, enc_u64(e.0 as u64), t1));
            lemma_stream_split(s@, pos as int, enc_u64(e.0 as u64), t1);
            assert(p_a == pos + 16);
            assert(stream_is(s@, p_a as int, enc_u64(e.1.0), enc_u64(e.1.1) + rest));
            lemma_stream_split(s@, p_a as int, enc_u64(e.1.0), enc_u64(e.1.1) + rest);
            assert(p_b == p_a + 16);
            assert(stream_is(s@, p_b as int, enc_u64(e.1.1), rest));
        }
    }
    Some(((seat, (player, channel)), p_c))
}

/// Read one ballot entry.
fn parse_ballot_entry(s: &str, pos: usize) -> (r: Option<((u64, VoteState), usize)>)
    requires
        pos <= s@.len(),
    ensures
        r matches Some(p) ==> pos <= p.1 <= s@.len(),
        forall|e: (u64, VoteState), rest: Seq<char>|
            #[trigger] stream_is(s@, pos as int, enc_ballot_entry(e), rest) ==> (r matches Some(p)
                && p.0 == e && p.1 == pos + enc_ballot_entry(e).len()),
{
    let (player, p_a) = match parse_u64(s, pos) {
        Some(p) => p,
        None => {
            proof {
                assert forall|e: (u64, VoteState), rest: Seq<char>|
                    stream_is(s@, pos as int, enc_ballot_entry(e), rest) implies false by {
                    assert(s@.skip(pos as int) =~= enc_u64(e.0) + (enc_ballot(e.1) + rest));
                    assert(stream_is(s@, pos as int, enc_u64(e.0), enc_ballot(e.1) + rest));
                }
            }
            return None;
        },
    };
    let (status, p_b) = match parse_ballot_tag(s, p_a) {
        Some(p) => p,
        None => {
            proof {
                assert forall|e: (u64, VoteState), rest: Seq<char>|
                    stream_is(s@, pos as int, enc_ballot_entry(e), rest) implies false by {
                    assert(s@.skip(pos as int) =~= enc_u64(e.0) + (enc_ballot(e.1) + rest));
                    assert(stream_is(s@, pos as int, enc_u64(e.0), enc_ballot(e.1) + rest));
                    lemma_stream_split(s@, pos as int, enc_u64(e.0), enc_ballot(e.1) + rest);
                    assert(p_a == pos + 16);
                    assert(stream_is(s@, p_a as int, enc_ballot(e.1), rest));
                }
            }
            return None;
        },
    };
    proof {
        assert forall|e: (u64, VoteState), rest: Seq<char>|
            stream_is(s@, pos as int, enc_ballot_entry(e), rest) implies (player, status) == e
            && p_b == pos + enc_ballot_entry(e).len() by {
            assert(s@.skip(pos as int) =~= enc_u64(e.0) + (enc_ballot(e.1) + rest));
            assert(stream_is(s@, pos as int, enc_u64(e.0), enc_ballot(e.1) + rest));
            lemma_stream_split(s@, pos as int, enc_u64(e.0), enc_ballot(e.1) + rest);
            assert(p_a == pos + 16);
            assert(stream_is(s@, p_a as int, enc_ballot(e.1), rest));
        }
    }
    Some(((player, status), p_b))
}

/// Read one dead entry.
fn parse_dead_entry(s: &str, pos: usize) -> (r: Option<((u64, DeadState), usize)>)
    requires
        pos <= s@.len(),
    ensures
        r matches Some(p) ==> pos <= p.1 <= s@.len(),
        forall|e: (u64, DeadState), rest: Seq<char>|
            #[trigger] stream_is(s@, pos as int, enc_dead_entry(e), rest) ==> (r matches Some(p)
                && p.0 == e && p.1 == pos + enc_dead_entry(e).len()),
{
    let (player, p_a) = match parse_u64(s, pos) {
        Some(p) => p,
        None => {
            proof {
                assert forall|e: (u64, DeadState), rest: Seq<char>|
                    stream_is(s@, pos as int, enc_dead_entry(e), rest) implies false by {
                    assert(s@.skip(pos as int) =~= enc_u64(e.0) + (enc_dead(e.1) + rest));
                    assert(stream_is(s@, pos as int, enc_u64(e.0), enc_dead(e.1) + rest));
                }
            }
            return None;
        },
    };
    let (status, p_b) = match parse_dead_tag(s, p_a) {
        Some(p) => p,
        None => {
            proof {
                assert forall|e: (u64, DeadState), rest: Seq<char>|
                    stream_is(s@, pos as int, enc_dead_entry(e), rest) implies false by {
                    assert(s@.skip(pos as int) =~= enc_u64(e.0) + (enc_dead(e.1) + rest));
                    assert(stream_is(s@, pos as int, enc_u64(e.0), enc_dead(e.1) + rest));
                    lemma_stream_split(s@, pos as int, enc_u64(e.0), enc_dead(e.1) + rest);
                    assert(p_a == pos + 16);
                    assert(stream_is(s@, p_a as int, enc_dead(e.1), rest));
                }
            }
            return None;
        },
    };
    proof {
        assert forall|e: (u64, DeadState), rest: Seq<char>|
            stream_is(s@, pos as int, enc_dead_entry(e), rest) implies (player, status) == e && p_b
            == pos + enc_dead_entry(e).len() by {
            assert(s@.skip(pos as int) =~= enc_u64(e.0) + (enc_dead(e.1) + rest));
            assert(stream_is(s@, pos as int, enc_u64(e.0), enc_dead(e.1) + rest));
            lemma_stream_split(s@, pos as int, enc_u64(e.0), enc_dead(e.1) + rest);
            assert(p_a == pos + 16);
            assert(stream_is(s@, p_a as int, enc_dead(e.1), rest));
        }
    }
    Some(((player, status), p_b))
}

} // verus!

verus! {

/// Read the seating registry: count, then entries.
fn parse_players(s: &str, pos: usize) -> (r: Option<(Vec<(u32, (u64, u64))>, usize)>)
    requires
        pos <= s@.len(),
    ensures
        r matches Some(p) ==> pos <= p.1 <= s@.len(),
        forall|e: Seq<(u32, (u64, u64))>, rest: Seq<char>|
            #[trigger] stream_is(
                s@,
                pos as int,
                enc_u64(e.len() as u64) + enc_player_entries(e),
                rest,
            ) && e.len() < 0x10000000000000000 ==> (r matches Some(p) && p.0@ == e && p.1 == pos
                + 16 + enc_player_entries(e).len()),
{
    let (count, pos1) = match parse_u64(s, pos) {
        Some(p) => p,
        None => {
            proof {
                assert forall|e: Seq<(u32, (u64, u64))>, rest: Seq<char>|
                    #![trigger stream_is(s@, pos as int, enc_u64(e.len() as u64) + enc_player_entries(e), rest)]
                    stream_is(s@, pos as int, enc_u64(e.len() as u64) + enc_player_entries(e), rest)
                        && e.len() < 0x10000000000000000 implies false by {
                    assert(s@.skip(pos as int) =~= enc_u64(e.len() as u64) + (enc_player_entries(e)
                        + rest));
                    assert(stream_is(s@, pos as int, enc_u64(e.len() as u64), enc_player_entries(e)
                        + rest));
                }
            }
            return None;
        },
    };
    let mut entries: Vec<(u32, (u64, u64))> = Vec::new();
    let mut cur = pos1;
    let mut i: u64 = 0;
    proof {
        assert forall|e: Seq<(u32, (u64, u64))>, rest: Seq<char>|
            #![trigger stream_is(s@, pos as int, enc_u64(e.len() as u64) + enc_player_entries(e), rest)]
            stream_is(s@, pos as int, enc_u64(e.len() as u64) + enc_player_entries(e), rest)
                && e.len() < 0x10000000000000000 implies count == e.len() && cur == pos + 16
            + enc_player_entries(e.take(0)).len() && stream_is(
            s@,
            cur as int,
            enc_player_entries(e.skip(0)),
            rest,
        ) by {
            assert(s@.skip(pos as int) =~= enc_u64(e.len() as u64) + (enc_player_entries(e)
                + rest));
            assert(stream_is(s@, pos as int, enc_u64(e.len() as u64), enc_player_entries(e)
                + rest));
            lemma_stream_split(s@, pos as int, enc_u64(e.len() as u64), enc_player_entries(e)
                + rest);
            assert(cur == pos + 16);
            assert(e.skip(0) =~= e);
            assert(e.take(0) =~= Seq::<(u32, (u64, u64))>::empty());
            assert(enc_player_entries(Seq::<(u32, (u64, u64))>::empty()) == Seq::<char>::empty());
        }
    }
    while i < count
        invariant
            pos <= cur <= s@.len(),
            s@.len() <= usize::MAX,
            i <= count,
            entries@.len() == i,
            forall|e: Seq<(u32, (u64, u64))>, rest: Seq<char>|
                #[trigger] stream_is(
                    s@,
                    pos as int,
                    enc_u64(e.len() as u64) + enc_player_entries(e),
                    rest,
                ) && e.len() < 0x10000000000000000 ==> (count == e.len() && i <= e.len()
                    && entries@ == e.take(i as int) && cur == pos + 16 + enc_player_entries(
                    e.take(i as int),
                ).len() && stream_is(s@, cur as int, enc_player_entries(e.skip(i as int)), rest)),
        decreases count - i,
    {
        let (entry, p2) = match parse_player_entry(s, cur) {
            Some(p) => p,
            None => {
                proof {
                    assert forall|e: Seq<(u32, (u64, u64))>, rest: Seq<char>|
                        #![trigger stream_is(s@, pos as int, enc_u64(e.len() as u64) + enc_player_entries(e), rest)]
                        stream_is(
                            s@,
                            pos as int,
                            enc_u64(e.len() as u64) + enc_player_entries(e),
                            rest,
                        ) && e.len() < 0x10000000000000000 implies false by {
                        assert(e.skip(i as int)[0] == e[i as int]);
                        assert(e.skip(i as int).drop_first() =~= e.skip(i as int + 1));
                        assert(s@.skip(cur as int) =~= enc_player_entry(e[i as int])
                            + (enc_player_entries(e.skip(i as int + 1)) + rest));
                        assert(stream_is(
                            s@,
                            cur as int,
                            enc_player_entry(e[i as int]),
                            enc_player_entries(e.skip(i as int + 1)) + rest,
                        ));
                    }
                }
                return None;
            },
        };
        entries.push(entry);
        proof {
            assert forall|e: Seq<(u32, (u64, u64))>, rest: Seq<char>|
                #![trigger stream_is(s@, pos as int, enc_u64(e.len() as u64) + enc_player_entries(e), rest)]
                stream_is(s@, pos as int, enc_u64(e.len() as u64) + enc_player_entries(e), rest)
                    && e.len() < 0x10000000000000000 implies entries@ == e.take(i as int + 1) && p2
                == pos + 16 + enc_player_entries(e.take(i as int + 1)).len() && stream_is(
                s@,
                p2 as int,
                enc_player_entries(e.skip(i as int + 1)),
                rest,
            ) by {
                assert(e.skip(i as int)[0] == e[i as int]);
                assert(e.skip(i as int).drop_first() =~= e.skip(i as int + 1));
                assert(s@.skip(cur as int) =~= enc_player_entry(e[i as int]) + (enc_player_entries(
                    e.skip(i as int + 1),
                ) + rest));
                assert(stream_is(
                    s@,
                    cur as int,
                    enc_player_entry(e[i as int]),
                    enc_player_entries(e.skip(i as int + 1)) + rest,
                ));
                lemma_stream_split(
                    s@,
                    cur as int,
                    enc_player_entry(e[i as int]),
                    enc_player_entries(e.skip(i as int + 1)) + rest,
                );
                assert(entry == e[i as int]);
                assert(p2 == cur + enc_player_entry(e[i as int]).len());
                assert(e.take(i as int + 1) =~= e.take(i as int).push(e[i as int]));
                lemma_enc_player_entries_push(e.take(i as int), e[i as int]);
            }
        }
        cur = p2;
        i = i + 1;
    }
    proof {
        assert forall|e: Seq<(u32, (u64, u64))>, rest: Seq<char>|
            #![trigger stream_is(s@, pos as int, enc_u64(e.len() as u64) + enc_player_entries(e), rest)]
            stream_is(s@, pos as int, enc_u64(e.len() as u64) + enc_player_entries(e), rest)
                && e.len() < 0x10000000000000000 implies entries@ == e && cur == pos + 16
            + enc_player_entries(e).len() by {
            assert(i == e.len());
            assert(e.take(i as int) =~= e);
        }
    }
    Some((entries, cur))
}

/// Read the ballot registry: count, then entries.
fn parse_ballots(s: &str, pos: usize) -> (r: Option<(Vec<(u64, VoteState)>, usize)>)
    requires
        pos <= s@.len(),
    ensures
        r matches Some(p) ==> pos <= p.1 <= s@.len(),
        forall|e: Seq<(u64, VoteState)>, rest: Seq<char>|
            #[trigger] stream_is(
                s@,
                pos as int,
                enc_u64(e.len() as u64) + enc_ballot_entries(e),
                rest,
            ) && e.len() < 0x10000000000000000 ==> (r matches Some(p) && p.0@ == e && p.1 == pos
                + 16 + enc_ballot_entries(e).len()),
{
    let (count, pos1) = match parse_u64(s, pos) {
        Some(p) => p,
        None => {
            proof {
                assert forall|e: Seq<(u64, VoteState)>, rest: Seq<char>|
                    #![trigger stream_is(s@, pos as int, enc_u64(e.len() as u64) + enc_ballot_entries(e), rest)]
                    stream_is(s@, pos as int, enc_u64(e.len() as u64) + enc_ballot_entries(e), rest)
                        && e.len() < 0x10000000000000000 implies false by {
                    assert(s@.skip(pos as int) =~= enc_u64(e.len() as u64) + (enc_ballot_entries(e)
                        + rest));
                    assert(stream_is(s@, pos as int, enc_u64(e.len() as u64), enc_ballot_entries(e)
                        + rest));
                }
            }
            return None;
        },
    };
    let mut entries: Vec<(u64, VoteState)> = Vec::new();
    let mut cur = pos1;
    let mut i: u64 = 0;
    proof {
        assert forall|e: Seq<(u64, VoteState)>, rest: Seq<char>|
            #![trigger stream_is(s@, pos as int, enc_u64(e.len() as u64) + enc_ballot_entries(e), rest)]
            stream_is(s@, pos as int, enc_u64(e.len() as u64) + enc_ballot_entries(e), rest)
                && e.len() < 0x10000000000000000 implies count == e.len() && cur == pos + 16
            + enc_ballot_entries(e.take(0)).len() && stream_is(
            s@,
            cur as int,
            enc_ballot_entries(e.skip(0)),
            rest,
        ) by {
            assert(s@.skip(pos as int) =~= enc_u64(e.len() as u64) + (enc_ballot_entries(e)
                + rest));
            assert(stream_is(s@, pos as int, enc_u64(e.len() as u64), enc_ballot_entries(e)
                + rest));
            lemma_stream_split(s@, pos as int, enc_u64(e.len() as u64), enc_ballot_entries(e)
                + rest);
            assert(cur == pos + 16);
            assert(e.skip(0) =~= e);
            assert(e.take(0) =~= Seq::<(u64, VoteState)>::empty());
            assert(enc_ballot_entries(Seq::<(u64, VoteState)>::empty()) == Seq::<char>::empty());
        }
    }
    while i < count
        invariant
            pos <= cur <= s@.len(),
            s@.len() <= usize::MAX,
            i <= count,
            entries@.len() == i,
            forall|e: Seq<(u64, VoteState)>, rest: Seq<char>|
                #[trigger] stream_is(
                    s@,
                    pos as int,
                    enc_u64(e.len() as u64) + enc_ballot_entries(e),
                    rest,
                ) && e.len() < 0x10000000000000000 ==> (count == e.len() && i <= e.len()
                    && entries@ == e.take(i as int) && cur == pos + 16 + enc_ballot_entries(
                    e.take(i as int),
                ).len() && stream_is(s@, cur as int, enc_ballot_entries(e.skip(i as int)), rest)),
        decreases count - i,
    {
        let (entry, p2) = match parse_ballot_entry(s, cur) {
            Some(p) => p,
            None => {
                proof {
                    assert forall|e: Seq<(u64, VoteState)>, rest: Seq<char>|
                        #![trigger stream_is(s@, pos as int, enc_u64(e.len() as u64) + enc_ballot_entries(e), rest)]
                        stream_is(
                            s@,
                            pos as int,
                            enc_u64(e.len() as u64) + enc_ballot_entries(e),
                            rest,
                        ) && e.len() < 0x10000000000000000 implies false by {
                        assert(e.skip(i as int)[0] == e[i as int]);
                        assert(e.skip(i as int).drop_first() =~= e.skip(i as int + 1));
                        assert(s@.skip(cur as int) =~= enc_ballot_entry(e[i as int])
                            + (enc_ballot_entries(e.skip(i as int + 1)) + rest));
                        assert(stream_is(
                            s@,
                            cur as int,
                            enc_ballot_entry(e[i as int]),
                            enc_ballot_entries(e.skip(i as int + 1)) + rest,
                        ));
                    }
                }
                return None;
            },
        };
        entries.push(entry);
        proof {
            assert forall|e: Seq<(u64, VoteState)>, rest: Seq<char>|
                #![trigger stream_is(s@, pos as int, enc_u64(e.len() as u64) + enc_ballot_entries(e), rest)]
                stream_is(s@, pos as int, enc_u64(e.len() as u64) + enc_ballot_entries(e), rest)
                    && e.len() < 0x10000000000000000 implies entries@ == e.take(i as int + 1) && p2
                == pos + 16 + enc_ballot_entries(e.take(i as int + 1)).len() && stream_is(
                s@,
                p2 as int,
                enc_ballot_entries(e.skip(i as int + 1)),
                rest,
            ) by {
                assert(e.skip(i as int)[0] == e[i as int]);
                assert(e.skip(i as int).drop_first() =~= e.skip(i as int + 1));
                assert(s@.skip(cur as int) =~= enc_ballot_entry(e[i as int]) + (enc_ballot_entries(
                    e.skip(i as int + 1),
                ) + rest));
                assert(stream_is(
                    s@,
                    cur as int,
                    enc_ballot_entry(e[i as int]),
                    enc_ballot_entries(e.skip(i as int + 1)) + rest,
                ));
                lemma_stream_split(
                    s@,
                    cur as int,
                    enc_ballot_entry(e[i as int]),
                    enc_ballot_entries(e.skip(i as int + 1)) + rest,
                );
                assert(entry == e[i as int]);
                assert(p2 == cur + enc_ballot_entry(e[i as int]).len());
                assert(e.take(i as int + 1) =~= e.take(i as int).push(e[i as int]));
                lemma_enc_ballot_entries_push(e.take(i as int), e[i as int]);
            }
        }
        cur = p2;
        i = i + 1;
    }
    proof {
        assert forall|e: Seq<(u64, VoteState)>, rest: Seq<char>|
            #![trigger stream_is(s@, pos as int, enc_u64(e.len() as u64) + enc_ballot_entries(e), rest)]
            stream_is(s@, pos as int, enc_u64(e.len() as u64) + enc_ballot_entries(e), rest)
                && e.len() < 0x10000000000000000 implies entries@ == e && cur == pos + 16
            + enc_ballot_entries(e).len() by {
            assert(i == e.len());
            assert(e.take(i as int) =~= e);
        }
    }
    Some((entries, cur))
}

/// Read the dead registry: count, then entries.
fn parse_deads(s: &str, pos: usize) -> (r: Option<(Vec<(u64, DeadState)>, usize)>)
    requires
        pos <= s@.len(),
    ensures
        r matches Some(p) ==> pos <= p.1 <= s@.len(),
        forall|e: Seq<(u64, DeadState)>, rest: Seq<char>|
            #[trigger] stream_is(
                s@,
                pos as int,
                enc_u64(e.len() as u64) + enc_dead_entries(e),
                rest,
            ) && e.len() < 0x10000000000000000 ==> (r matches Some(p) && p.0@ == e && p.1 == pos
                + 16 + enc_dead_entries(e).len()),
{
    let (count, pos1) = match parse_u64(s, pos) {
        Some(p) => p,
        None => {
            proof {
                assert forall|e: Seq<(u64, DeadState)>, rest: Seq<char>|
                    #![trigger stream_is(s@, pos as int, enc_u64(e.len() as u64) + enc_dead_entries(e), rest)]
                    stream_is(s@, pos as int, enc_u64(e.len() as u64) + enc_dead_entries(e), rest)
                        && e.len() < 0x10000000000000000 implies false by {
                    assert(s@.skip(pos as int) =~= enc_u64(e.len() as u64) + (enc_dead_entries(e)
                        + rest));
                    assert(stream_is(s@, pos as int, enc_u64(e.len() as u64), enc_dead_entries(e)
                        + rest));
                }
            }
            return None;
        },
    };
    let mut entries: Vec<(u64, DeadState)> = Vec::new();
    let mut cur = pos1;
    let mut i: u64 = 0;
    proof {
        assert forall|e: Seq<(u64, DeadState)>, rest: Seq<char>|
            #![trigger stream_is(s@, pos as int, enc_u64(e.len() as u64) + enc_dead_entries(e), rest)]
            stream_is(s@, pos as int, enc_u64(e.len() as u64) + enc_dead_entries(e), rest)
                && e.len() < 0x10000000000000000 implies count == e.len() && cur == pos + 16
            + enc_dead_entries(e.take(0)).len() && stream_is(
            s@,
            cur as int,
            enc_dead_entries(e.skip(0)),
            rest,
        ) by {
            assert(s@.skip(pos as int) =~= enc_u64(e.len() as u64) + (enc_dead_entries(e) + rest));
            assert(stream_is(s@, pos as int, enc_u64(e.len() as u64), enc_dead_entries(e) + rest));
            lemma_stream_split(s@, pos as int, enc_u64(e.len() as u64), enc_dead_entries(e) + rest);
            assert(cur == pos + 16);
            assert(e.skip(0) =~= e);
            assert(e.take(0) =~= Seq::<(u64, DeadState)>::empty());
            assert(enc_dead_entries(Seq::<(u64, DeadState)>::empty()) == Seq::<char>::empty());
        }
    }
    while i < count
        invariant
            pos <= cur <= s@.len(),
            s@.len() <= usize::MAX,
            i <= count,
            entries@.len() == i,
            forall|e: Seq<(u64, DeadState)>, rest: Seq<char>|
                #[trigger] stream_is(
                    s@,
                    pos as int,
                    enc_u64(e.len() as u64) + enc_dead_entries(e),
                    rest,
                ) && e.len() < 0x10000000000000000 ==> (count == e.len() && i <= e.len()
                    && entries@ == e.take(i as int) && cur == pos + 16 + enc_dead_entries(
                    e.take(i as int),
                ).len() && stream_is(s@, cur as int, enc_dead_entries(e.skip(i as int)), rest)),
        decreases count - i,
    {
        let (entry, p2) = match parse_dead_entry(s, cur) {
            Some(p) => p,
            None => {
                proof {
                    assert forall|e: Seq<(u64, DeadState)>, rest: Seq<char>|
                        #![trigger stream_is(s@, pos as int, enc_u64(e.len() as u64) + enc_dead_entries(e), rest)]
                        stream_is(
                            s@,
                            pos as int,
                            enc_u64(e.len() as u64) + enc_dead_entries(e),
                            rest,
                        ) && e.len() < 0x10000000000000000 implies false by {
                        assert(e.skip(i as int)[0] == e[i as int]);
                        assert(e.skip(i as int).drop_first() =~= e.skip(i as int + 1));
                        assert(s@.skip(cur as int) =~= enc_dead_entry(e[i as int])
                            + (enc_dead_entries(e.skip(i as int + 1)) + rest));
                        assert(stream_is(
                            s@,
                            cur as int,
                            enc_dead_entry(e[i as int]),
                            enc_dead_entries(e.skip(i as int + 1)) + rest,
                        ));
                    }
                }
                return None;
            },
        };
        entries.push(entry);
        proof {
            assert forall|e: Seq<(u64, DeadState)>, rest: Seq<char>|
                #![trigger stream_is(s@, pos as int, enc_u64(e.len() as u64) + enc_dead_entries(e), rest)]
                stream_is(s@, pos as int, enc_u64(e.len() as u64) + enc_dead_entries(e), rest)
                    && e.len() < 0x10000000000000000 implies entries@ == e.take(i as int + 1) && p2
                == pos + 16 + enc_dead_entries(e.take(i as int + 1)).len() && stream_is(
                s@,
                p2 as int,
                enc_dead_entries(e.skip(i as int + 1)),
                rest,
            ) by {
                assert(e.skip(i as int)[0] == e[i as int]);
                assert(e.skip(i as int).drop_first() =~= e.skip(i as int + 1));
                assert(s@.skip(cur as int) =~= enc_dead_entry(e[i as int]) + (enc_dead_entries(
                    e.skip(i as int + 1),
                ) + rest));
                assert(stream_is(
                    s@,
                    cur as int,
                    enc_dead_entry(e[i as int]),
                    enc_dead_entries(e.skip(i as int + 1)) + rest,
                ));
                lemma_stream_split(
                    s@,
                    cur as int,
                    enc_dead_entry(e[i as int]),
                    enc_dead_entries(e.skip(i as int + 1)) + rest,
                );
                assert(entry == e[i as int]);
                assert(p2 == cur + enc_dead_entry(e[i as int]).len());
                assert(e.take(i as int + 1) =~= e.take(i as int).push(e[i as int]));
                lemma_enc_dead_entries_push(e.take(i as int), e[i as int]);
            }
        }
        cur = p2;
        i = i + 1;
    }
    proof {
        assert forall|e: Seq<(u64, DeadState)>, rest: Seq<char>|
            #![trigger stream_is(s@, pos as int, enc_u64(e.len() as u64) + enc_dead_entries(e), rest)]
            stream_is(s@, pos as int, enc_u64(e.len() as u64) + enc_dead_entries(e), rest)
                && e.len() < 0x10000000000000000 implies entries@ == e && cur == pos + 16
            + enc_dead_entries(e).len() by {
            assert(i == e.len());
            assert(e.take(i as int) =~= e);
        }
    }
    Some((entries, cur))
}

} // verus!

verus! {

/// Every length an encoded session records fits in its sixteen-digit field.
spec fn vote_bounded(v: VoteSnap) -> bool {
    v.accusation.len() < 0x10000000000000000 && v.defense.len() < 0x10000000000000000
        && v.description.len() < 0x10000000000000000 && v.vote_state.len() < 0x10000000000000000
        && v.dead_state.len() < 0x10000000000000000
}

/// Where each field of an encoded session begins, when the stream at `pos`
/// continues with the session and then `rest`.
proof fn lemma_vote_decompose(s: Seq<char>, pos: int, v: VoteSnap, rest: Seq<char>)
    requires
        0 <= pos <= s.len(),
        stream_is(s, pos, enc_vote(v), rest),
    ensures
        stream_is(s, pos, enc_u64(v.nominator), s.skip(pos + 16)),
        stream_is(s, pos + 16, enc_u64(v.nominee), s.skip(pos + 32)),
        stream_is(s, pos + 32, enc_str(v.accusation), s.skip(pos + 48 + v.accusation.len())),
        stream_is(s, pos + 48 + v.accusation.len(), enc_str(v.defense), s.skip(pos + 64 + v.accusation.len() + v.defense.len())),
        stream_is(s, pos + 64 + v.accusation.len() + v.defense.len(), enc_u64(v.clock_hand as u64), s.skip(pos + 80 + v.accusation.len() + v.defense.len())),
        stream_is(s, pos + 80 + v.accusation.len() + v.defense.len(), enc_u64(v.vote_state.len() as u64) + enc_ballot_entries(v.vote_state), s.skip(pos + 96 + v.accusation.len() + v.defense.len() + enc_ballot_entries(v.vote_state).len())),
        stream_is(s, pos + 96 + v.accusation.len() + v.defense.len() + enc_ballot_entries(v.vote_state).len(), enc_u64(v.dead_state.len() as u64) + enc_dead_entries(v.dead_state), s.skip(pos + 112 + v.accusation.len() + v.defense.len() + enc_ballot_entries(v.vote_state).len() + enc_dead_entries(v.dead_state).len())),
        stream_is(s, pos + 112 + v.accusation.len() + v.defense.len() + enc_ballot_entries(v.vote_state).len() + enc_dead_entries(v.dead_state).len(), enc_str(v.description), s.skip(pos + 128 + v.accusation.len() + v.defense.len() + enc_ballot_entries(v.vote_state).len() + enc_dead_entries(v.dead_state).len() + v.description.len())),
        stream_is(s, pos + 128 + v.accusation.len() + v.defense.len() + enc_ballot_entries(v.vote_state).len() + enc_dead_entries(v.dead_state).len() + v.description.len(), enc_u64(v.message_id), s.skip(pos + 144 + v.accusation.len() + v.defense.len() + enc_ballot_entries(v.vote_state).len() + enc_dead_entries(v.dead_state).len() + v.description.len())),
        stream_is(s, pos + 144 + v.accusation.len() + v.defense.len() + enc_ballot_entries(v.vote_state).len() + enc_dead_entries(v.dead_state).len() + v.description.len(), enc_u64(v.channel_id), rest),
        pos + 160 + v.accusation.len() + v.defense.len() + enc_ballot_entries(v.vote_state).len() + enc_dead_entries(v.dead_state).len() + v.description.len() <= s.len(),
        pos + enc_vote(v).len() == pos + 160 + v.accusation.len() + v.defense.len() + enc_ballot_entries(v.vote_state).len() + enc_dead_entries(v.dead_state).len() + v.description.len(),
        s.skip(pos + 160 + v.accusation.len() + v.defense.len() + enc_ballot_entries(v.vote_state).len() + enc_dead_entries(v.dead_state).len() + v.description.len()) == rest,
{
    let t10 = rest;
    let t9 = enc_u64(v.channel_id) + t10;
    let t8 = enc_u64(v.message_id) + t9;
    let t7 = enc_str(v.description) + t8;
    let t6 = (enc_u64(v.dead_state.len() as u64) + enc_dead_entries(v.dead_state)) + t7;
    let t5 = (enc_u64(v.vote_state.len() as u64) + enc_ballot_entries(v.vote_state)) + t6;
    let t4 = enc_u64(v.clock_hand as u64) + t5;
    let t3 = enc_str(v.defense) + t4;
    let t2 = enc_str(v.accusation) + t3;
    let t1 = enc_u64(v.nominee) + t2;
    assert(s.skip(pos) =~= enc_u64(v.nominator) + t1);
    lemma_stream_split(s, pos, enc_u64(v.nominator), t1);
    assert(s.skip(pos + 16) == t1);
    lemma_stream_split(s, pos + 16, enc_u64(v.nominee), t2);
    assert(s.skip(pos + 32) == t2);
    lemma_stream_split(s, pos + 32, enc_str(v.accusation), t3);
    assert(s.skip(pos + 48 + v.accusation.len()) == t3);
    lemma_stream_split(s, pos + 48 + v.accusation.len(), enc_str(v.defense), t4);
    assert(s.skip(pos + 64 + v.accusation.len() + v.defense.len()) == t4);
    lemma_stream_split(s, pos + 64 + v.accusation.len() + v.defense.len(), enc_u64(v.clock_hand as u64), t5);
    assert(s.skip(pos + 80 + v.accusation.len() + v.defense.len()) == t5);
    lemma_stream_split(s, pos + 80 + v.accusation.len() + v.defense.len(), enc_u64(v.vote_state.len() as u64) + enc_ballot_entries(v.vote_state), t6);
    assert(s.skip(pos + 96 + v.accusation.len() + v.defense.len() + enc_ballot_entries(v.vote_state).len()) == t6);
    lemma_stream_split(s, pos + 96 + v.accusation.len() + v.defense.len() + enc_ballot_entries(v.vote_state).len(), enc_u64(v.dead_state.len() as u64) + enc_dead_entries(v.dead_state), t7);
    assert(s.skip(pos + 112 + v.accusation.len() + v.defense.len() + enc_ballot_entries(v.vote_state).len() + enc_dead_entries(v.dead_state).len()) == t7);
    lemma_stream_split(s, pos + 112 + v.accusation.len() + v.defense.len() + enc_ballot_entries(v.vote_state).len() + enc_dead_entries(v.dead_state).len(), enc_str(v.description), t8);
    assert(s.skip(pos + 128 + v.accusation.len() + v.defense.len() + enc_ballot_entries(v.vote_state).len() + enc_dead_entries(v.dead_state).len() + v.description.len()) == t8);
    lemma_stream_split(s, pos + 128 + v.accusation.len() + v.defense.len() + enc_ballot_entries(v.vote_state).len() + enc_dead_entries(v.dead_state).len() + v.description.len(), enc_u64(v.message_id), t9);
    assert(s.skip(pos + 144 + v.accusation.len() + v.defense.len() + enc_ballot_entries(v.vote_state).len() + enc_dead_entries(v.dead_state).len() + v.description.len()) == t9);
    lemma_stream_split(s, pos + 144 + v.accusation.len() + v.defense.len() + enc_ballot_entries(v.vote_state).len() + enc_dead_entries(v.dead_state).len() + v.description.len(), enc_u64(v.channel_id), t10);
}

/// Read a vote session.
#[verifier::rlimit(100)]
fn parse_vote(s: &str, pos: usize) -> (r: Option<(Vote, usize)>)
    requires
        pos <= s@.len(),
    ensures
        r matches Some(p) ==> pos <= p.1 <= s@.len(),
        forall|v: VoteSnap, rest: Seq<char>|
            #[trigger] stream_is(s@, pos as int, enc_vote(v), rest) && vote_bounded(v) ==> (
            r matches Some(p) && p.0@ == v && p.1 == pos + enc_vote(v).len()),
{
    let (nominator, p1) = match parse_u64(s, pos) {
        Some(p) => p,
        None => {
            proof {
                assert forall|v: VoteSnap, rest: Seq<char>|
                    #![trigger stream_is(s@, pos as int, enc_vote(v), rest)]
                    stream_is(s@, pos as int, enc_vote(v), rest) && vote_bounded(v) implies false by {
                lemma_vote_decompose(s@, pos as int, v, rest);
                }
            }
            return None;
        },
    };
    let (nominee, p2) = match parse_u64(s, p1) {
        Some(p) => p,
        None => {
            proof {
                assert forall|v: VoteSnap, rest: Seq<char>|
                    #![trigger stream_is(s@, pos as int, enc_vote(v), rest)]
                    stream_is(s@, pos as int, enc_vote(v), rest) && vote_bounded(v) implies false by {
                lemma_vote_decompose(s@, pos as int, v, rest);
                assert(p1 == pos + 16);
                }
            }
            return None;
        },
    };
    let (accusation, p3) = match parse_str(s, p2) {
        Some(p) => p,
        None => {
            proof {
                assert forall|v: VoteSnap, rest: Seq<char>|
                    #![trigger stream_is(s@, pos as int, enc_vote(v), rest)]
                    stream_is(s@, pos as int, enc_vote(v), rest) && vote_bounded(v) implies false by {
                lemma_vote_decompose(s@, pos as int, v, rest);
                assert(p1 == pos + 16);
                assert(p2 == pos + 32);
                }
            }
            return None;
        },
    };
    let (defense, p4) = match parse_str(s, p3) {
        Some(p) => p,
        None => {
            proof {
                assert forall|v: VoteSnap, rest: Seq<char>|
                    #![trigger stream_is(s@, pos as int, enc_vote(v), rest)]
                    stream_is(s@, pos as int, enc_vote(v), rest) && vote_bounded(v) implies false by {
                lemma_vote_decompose(s@, pos as int, v, rest);
                assert(p1 == pos + 16);
                assert(p2 == pos + 32);
                assert(p3 == pos + 48 + v.accusation.len());
                }
            }
            return None;
        },
    };
    let (clock64, p5) = match parse_u64(s, p4) {
        Some(p) => p,
        None => {
            proof {
                assert forall|v: VoteSnap, rest: Seq<char>|
                    #![trigger stream_is(s@, pos as int, enc_vote(v), rest)]
                    stream_is(s@, pos as int, enc_vote(v), rest) && vote_bounded(v) implies false by {
                lemma_vote_decompose(s@, pos as int, v, rest);
                assert(p1 == pos + 16);
                assert(p2 == pos + 32);
                assert(p3 == pos + 48 + v.accusation.len());
                assert(p4 == pos + 64 + v.accusation.len() + v.defense.len());
                }
            }
            return None;
        },
    };
    if clock64 > 0xffffffff {
        proof {
            assert forall|v: VoteSnap, rest: Seq<char>|
                #![trigger stream_is(s@, pos as int, enc_vote(v), rest)]
                stream_is(s@, pos as int, enc_vote(v), rest) && vote_bounded(v) implies false by {
                lemma_vote_decompose(s@, pos as int, v, rest);
                assert(p1 == pos + 16);
                assert(p2 == pos + 32);
                assert(p3 == pos + 48 + v.accusation.len());
                assert(p4 == pos + 64 + v.accusation.len() + v.defense.len());
                assert(p5 == pos + 80 + v.accusation.len() + v.defense.len());
            }
        }
        return None;
    }
    let clock32 = clock64 as u32;
    let (ballots, p6) = match parse_ballots(s, p5) {
        Some(p) => p,
        None => {
            proof {
                assert forall|v: VoteSnap, rest: Seq<char>|
                    #![trigger stream_is(s@, pos as int, enc_vote(v), rest)]
                    stream_is(s@, pos as int, enc_vote(v), rest) && vote_bounded(v) implies false by {
                lemma_vote_decompose(s@, pos as int, v, rest);
                assert(p1 == pos + 16);
                assert(p2 == pos + 32);
                assert(p3 == pos + 48 + v.accusation.len());
                assert(p4 == pos + 64 + v.accusation.len() + v.defense.len());
                assert(p5 == pos + 80 + v.accusation.len() + v.defense.len());
                }
            }
            return None;
        },
    };
    let (deads, p7) = match parse_deads(s, p6) {
        Some(p) => p,
        None => {
            proof {
                assert forall|v: VoteSnap, rest: Seq<char>|
                    #![trigger stream_is(s@, pos as int, enc_vote(v), rest)]
                    stream_is(s@, pos as int, enc_vote(v), rest) && vote_bounded(v) implies false by {
                lemma_vote_decompose(s@, pos as int, v, rest);
                assert(p1 == pos + 16);
                assert(p2 == pos + 32);
                assert(p3 == pos + 48 + v.accusation.len());
                assert(p4 == pos + 64 + v.accusation.len() + v.defense.len());
                assert(p5 == pos + 80 + v.accusation.len() + v.defense.len());
                assert(p6 == pos + 96 + v.accusation.len() + v.defense.len() + enc_ballot_entries(v.vote_state).len());
                }
            }
            return None;
        },
    };
    let (description, p8) = match parse_str(s, p7) {
        Some(p) => p,
        None => {
            proof {
                assert forall|v: VoteSnap, rest: Seq<char>|
                    #![trigger stream_is(s@, pos as int, enc_vote(v), rest)]
                    stream_is(s@, pos as int, enc_vote(v), rest) && vote_bounded(v) implies false by {
                lemma_vote_decompose(s@, pos as int, v, rest);
                assert(p1 == pos + 16);
                assert(p2 == pos + 32);
                assert(p3 == pos + 48 + v.accusation.len());
                assert(p4 == pos + 64 + v.accusation.len() + v.defense.len());
                assert(p5 == pos + 80 + v.accusation.len() + v.defense.len());
                assert(p6 == pos + 96 + v.accusation.len() + v.defense.len() + enc_ballot_entries(v.vote_state).len());
                assert(p7 == pos + 112 + v.accusation.len() + v.defense.len() + enc_ballot_entries(v.vote_state).len() + enc_dead_entries(v.dead_state).len());
                }
            }
            return None;
        },
    };
    let (message_id, p9) = match parse_u64(s, p8) {
        Some(p) => p,
        None => {
            proof {
                assert forall|v: VoteSnap, rest: Seq<char>|
                    #![trigger stream_is(s@, pos as int, enc_vote(v), rest)]
                    stream_is(s@, pos as int, enc_vote(v), rest) && vote_bounded(v) implies false by {
                lemma_vote_decompose(s@, pos as int, v, rest);
                assert(p1 == pos + 16);
                assert(p2 == pos + 32);
                assert(p3 == pos + 48 + v.accusation.len());
                assert(p4 == pos + 64 + v.accusation.len() + v.defense.len());
                assert(p5 == pos + 80 + v.accusation.len() + v.defense.len());
                assert(p6 == pos + 96 + v.accusation.len() + v.defense.len() + enc_ballot_entries(v.vote_state).len());
                assert(p7 == pos + 112 + v.accusation.len() + v.defense.len() + enc_ballot_entries(v.vote_state).len() + enc_dead_entries(v.dead_state).len());
                assert(p8 == pos + 128 + v.accusation.len() + v.defense.len() + enc_ballot_entries(v.vote_state).len() + enc_dead_entries(v.dead_state).len() + v.description.len());
                }
            }
            return None;
        },
    };
    let (channel_id, p10) = match parse_u64(s, p9) {
        Some(p) => p,
        None => {
            proof {
                assert forall|v: VoteSnap, rest: Seq<char>|
                    #![trigger stream_is(s@, pos as int, enc_vote(v), rest)]
                    stream_is(s@, pos as int, enc_vote(v), rest) && vote_bounded(v) implies false by {
                lemma_vote_decompose(s@, pos as int, v, rest);
                assert(p1 == pos + 16);
                assert(p2 == pos + 32);
                assert(p3 == pos + 48 + v.accusation.len());
                assert(p4 == pos + 64 + v.accusation.len() + v.defense.len());
                assert(p5 == pos + 80 + v.accusation.len() + v.defense.len());
                assert(p6 == pos + 96 + v.accusation.len() + v.defense.len() + enc_ballot_entries(v.vote_state).len());
                assert(p7 == pos + 112 + v.accusation.len() + v.defense.len() + enc_ballot_entries(v.vote_state).len() + enc_dead_entries(v.dead_state).len());
                assert(p8 == pos + 128 + v.accusation.len() + v.defense.len() + enc_ballot_entries(v.vote_state).len() + enc_dead_entries(v.dead_state).len() + v.description.len());
                assert(p9 == pos + 144 + v.accusation.len() + v.defense.len() + enc_ballot_entries(v.vote_state).len() + enc_dead_entries(v.dead_state).len() + v.description.len());
                }
            }
            return None;
        },
    };
    let vote = Vote {
        nominator,
        nominee,
        accusation,
        defense,
        clock_hand: CottageNumber(clock32),
        vote_state: StatusMap { entries: ballots },
        dead_state: StatusMap { entries: deads },
        description,
        message_id,
        channel_id,
    };
    proof {
        assert forall|v: VoteSnap, rest: Seq<char>|
            #![trigger stream_is(s@, pos as int, enc_vote(v), rest)]
            stream_is(s@, pos as int, enc_vote(v), rest) && vote_bounded(v) implies vote@ == v && p10 == pos + enc_vote(v).len() by {
                lemma_vote_decompose(s@, pos as int, v, rest);
                assert(p1 == pos + 16);
                assert(p2 == pos + 32);
                assert(p3 == pos + 48 + v.accusation.len());
                assert(p4 == pos + 64 + v.accusation.len() + v.defense.len());
                assert(p5 == pos + 80 + v.accusation.len() + v.defense.len());
                assert(p6 == pos + 96 + v.accusation.len() + v.defense.len() + enc_ballot_entries(v.vote_state).len());
                assert(p7 == pos + 112 + v.accusation.len() + v.defense.len() + enc_ballot_entries(v.vote_state).len() + enc_dead_entries(v.dead_state).len());
                assert(p8 == pos + 128 + v.accusation.len() + v.defense.len() + enc_ballot_entries(v.vote_state).len() + enc_dead_entries(v.dead_state).len() + v.description.len());
                assert(p9 == pos + 144 + v.accusation.len() + v.defense.len() + enc_ballot_entries(v.vote_state).len() + enc_dead_entries(v.dead_state).len() + v.description.len());
                assert(p10 == pos + 160 + v.accusation.len() + v.defense.len() + enc_ballot_entries(v.vote_state).len() + enc_dead_entries(v.dead_state).len() + v.description.len());
            assert(vote@ =~= v);
        }
    }
    Some((vote, p10))
}

} // verus!

verus! {

/// Check the seating registry invariant: distinct seat keys, all positive.
fn check_players_wf(entries: &Vec<(u32, (u64, u64))>) -> (r: bool)
    ensures
        r == (assoc_unique(entries@) && (forall|i: int|
            0 <= i < entries@.len() ==> (#[trigger] entries@[i]).0 >= 1)),
{
    let n = entries.len();
    for i in 0..n
        invariant
            n == entries@.len(),
            forall|p: int, q: int|
                0 <= p < q < i ==> (#[trigger] entries@[p]).0 != (#[trigger] entries@[q]).0,
            forall|p: int| 0 <= p < i ==> (#[trigger] entries@[p]).0 >= 1,
    {
        if entries[i].0 == 0 {
            return false;
        }
        for j in 0..i
            invariant
                n == entries@.len(),
                i < n,
                forall|q: int| 0 <= q < j ==> (#[trigger] entries@[q]).0 != entries@[i as int].0,
        {
            if entries[j].0 == entries[i].0 {
                return false;
            }
        }
    }
    true
}

/// Check that the player keys of a status registry are pairwise distinct.
fn check_unique_keys<T: Copy>(entries: &Vec<(u64, T)>) -> (r: bool)
    ensures
        r == assoc_unique(entries@),
{
    let n = entries.len();
    for i in 0..n
        invariant
            n == entries@.len(),
            forall|p: int, q: int|
                0 <= p < q < i ==> (#[trigger] entries@[p]).0 != (#[trigger] entries@[q]).0,
    {
        for j in 0..i
            invariant
                n == entries@.len(),
                i < n,
                forall|q: int| 0 <= q < j ==> (#[trigger] entries@[q]).0 != entries@[i as int].0,
        {
            if entries[j].0 == entries[i].0 {
                return false;
            }
        }
    }
    true
}

impl State {
    /// Read a snapshot document back into a state. Any document that
    /// `snapshot_text` produced for a well-formed state parses back to a
    /// state equal in every observable field; whatever is returned is
    /// well-formed.
    pub fn from_snapshot(s: &str) -> (r: Option<State>)
        ensures
            r matches Some(st) ==> st@.wf(),
            forall|v: StateSnap|
                #[trigger] enc_state(v) == s@ && v.wf() && snap_bounded(v) ==> (r matches Some(st)
                    && st@ == v),
    {
        let len = s.unicode_len();
        let (n64, q1) = match parse_u64(s, 0) {
            Some(p) => p,
            None => {
                proof {
                    assert forall|v: StateSnap|
                        enc_state(v) == s@ && v.wf() && snap_bounded(v) implies false by {
                        lemma_state_decompose(s@, v);
                    }
                }
                return None;
            },
        };
        if n64 > 0xffffffff {
            proof {
                assert forall|v: StateSnap|
                    enc_state(v) == s@ && v.wf() && snap_bounded(v) implies false by {
                    lemma_state_decompose(s@, v);
                    assert(n64 == v.number_of_players as u64);
                }
            }
            return None;
        }
        let number_of_players = n64 as u32;
        let (players, q2) = match parse_players(s, q1) {
            Some(p) => p,
            None => {
                proof {
                    assert forall|v: StateSnap|
                        enc_state(v) == s@ && v.wf() && snap_bounded(v) implies false by {
                        lemma_state_decompose(s@, v);
                        assert(q1 == 16);
                    }
                }
                return None;
            },
        };
        if q2 >= len {
            proof {
                assert forall|v: StateSnap|
                    enc_state(v) == s@ && v.wf() && snap_bounded(v) implies false by {
                    lemma_state_decompose(s@, v);
                    assert(q1 == 16);
                    assert(q2 == 32 + enc_player_entries(v.players).len());
                    assert(s@.skip(q2 as int).len() >= 1);
                }
            }
            return None;
        }
        let tag = s.get_char(q2);
        proof {
            assert forall|v: StateSnap|
                enc_state(v) == s@ && v.wf() && snap_bounded(v) implies q1 == 16 && q2 == 32
                + enc_player_entries(v.players).len() && players@ == v.players
                && number_of_players == v.number_of_players && tag == s@.skip(q2 as int)[0] by {
                lemma_state_decompose(s@, v);
            }
        }
        let current_vote: Option<Vote>;
        let end_pos: usize;
        if tag == '0' {
            current_vote = None;
            end_pos = q2 + 1;
            proof {
                assert forall|v: StateSnap|
                    enc_state(v) == s@ && v.wf() && snap_bounded(v) implies v.current_vote
                    is None && end_pos == s@.len() by {
                    lemma_state_decompose(s@, v);
                    if v.current_vote is Some {
                        assert(s@.skip(q2 as int)[0] == '1');
                    }
                }
            }
        } else if tag == '1' {
            let (vote, vp) = match parse_vote(s, q2 + 1) {
                Some(p) => p,
                None => {
                    proof {
                        assert forall|v: StateSnap|
                            enc_state(v) == s@ && v.wf() && snap_bounded(v) implies false by {
                            lemma_state_decompose(s@, v);
                            if v.current_vote is None {
                                assert(s@.skip(q2 as int)[0] == '0');
                            }
                        }
                    }
                    return None;
                },
            };
            current_vote = Some(vote);
            end_pos = vp;
            proof {
                assert forall|v: StateSnap|
                    enc_state(v) == s@ && v.wf() && snap_bounded(v) implies (v.current_vote
                    matches Some(vs) && vote@ == vs) && end_pos == s@.len() by {
                    lemma_state_decompose(s@, v);
                    if v.current_vote is None {
                        assert(s@.skip(q2 as int)[0] == '0');
                    }
                }
            }
        } else {
            proof {
                assert forall|v: StateSnap|
                    enc_state(v) == s@ && v.wf() && snap_bounded(v) implies false by {
                    lemma_state_decompose(s@, v);
                    match v.current_vote {
                        None => assert(s@.skip(q2 as int)[0] == '0'),
                        Some(_) => assert(s@.skip(q2 as int)[0] == '1'),
                    }
                }
            }
            return None;
        }
        if end_pos != len {
            return None;
        }
        if !check_players_wf(&players) {
            return None;
        }
        match &current_vote {
            Some(vote) => {
                if vote.clock_hand.0 == 0 {
                    return None;
                }
                if !check_unique_keys(&vote.vote_state.entries) {
                    return None;
                }
                if !check_unique_keys(&vote.dead_state.entries) {
                    return None;
                }
            },
            None => {},
        }
        let st = State { players: PlayerMap { entries: players }, number_of_players, current_vote };
        proof {
            assert forall|v: StateSnap|
                enc_state(v) == s@ && v.wf() && snap_bounded(v) implies st@ == v by {
                assert(st@ =~= v);
            }
        }
        Some(st)
    }
}

/// Where each part of an encoded state begins.
proof fn lemma_state_decompose(s: Seq<char>, v: StateSnap)
    requires
        enc_state(v) == s,
    ensures
        stream_is(
            s,
            0,
            enc_u64(v.number_of_players as u64),
            s.skip(16),
        ),
        stream_is(
            s,
            16,
            enc_u64(v.players.len() as u64) + enc_player_entries(v.players),
            s.skip(32 + enc_player_entries(v.players).len() as int),
        ),
        32 + enc_player_entries(v.players).len() < s.len(),
        ({
            let q2: int = 32 + enc_player_entries(v.players).len() as int;
            match v.current_vote {
                None => s.skip(q2)[0] == '0' && s.len() == q2 + 1,
                Some(vt) => s.skip(q2)[0] == '1' && stream_is(
                    s,
                    q2 + 1,
                    enc_vote(vt),
                    Seq::empty(),
                ) && s.len() == q2 + 1 + enc_vote(vt).len(),
            }
        }),
{
    let tagpart = match v.current_vote {
        None => seq!['0'],
        Some(vt) => seq!['1'] + enc_vote(vt),
    };
    let t2 = (enc_u64(v.players.len() as u64) + enc_player_entries(v.players)) + tagpart;
    assert(s.skip(0) =~= s);
    assert(s.skip(0) =~= enc_u64(v.number_of_players as u64) + t2);
    lemma_stream_split(s, 0, enc_u64(v.number_of_players as u64), t2);
    assert(s.skip(16) == t2);
    lemma_stream_split(
        s,
        16,
        enc_u64(v.players.len() as u64) + enc_player_entries(v.players),
        tagpart,
    );
    let q2: int = 32 + enc_player_entries(v.players).len() as int;
    assert(s.skip(q2) == tagpart);
    match v.current_vote {
        None => {},
        Some(vt) => {
            assert(tagpart.drop_first() =~= enc_vote(vt));
            assert(s.skip(q2).skip(1) =~= s.skip(q2 + 1));
            assert(s.skip(q2 + 1) =~= enc_vote(vt) + Seq::<char>::empty());
        },
    }
}

} // verus!
