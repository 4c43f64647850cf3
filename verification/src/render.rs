//! The render engine: a pure function from a state snapshot to the canonical
//! display text. Every update re-renders the whole message from the snapshot,
//! so the text is fully determined by the state, which the contracts here pin
//! character by character.
use crate::assoc::assoc_map;
use crate::seating::{first_seat_of, PlayerMap};
use crate::state::{DeadState, Vote, VoteSnap, VoteState};
use vstd::arithmetic::div_mod::{lemma_add_mod_noop_right, lemma_mod_bound, lemma_small_mod};
use vstd::prelude::*;
use vstd::string::*;

verus! {

/// The decimal digit character for `d` in `0..=9`.
pub open spec fn dec_digit(d: int) -> char {
    if d == 0 {
        '0'
    } else if d == 1 {
        '1'
    } else if d == 2 {
        '2'
    } else if d == 3 {
        '3'
    } else if d == 4 {
        '4'
    } else if d == 5 {
        '5'
    } else if d == 6 {
        '6'
    } else if d == 7 {
        '7'
    } else if d == 8 {
        '8'
    } else {
        '9'
    }
}

/// The usual decimal rendering of a non-negative integer, without leading
/// zeros (except for zero itself).
pub open spec fn dec_str(x: int) -> Seq<char>
    recommends
        x >= 0,
    decreases x,
{
    if x < 10 {
        seq![dec_digit(x)]
    } else {
        dec_str(x / 10).push(dec_digit(x % 10))
    }
}

/// The single-character string for a decimal digit.
fn digit_str(d: u64) -> (r: &'static str)
    requires
        d < 10,
    ensures
        r@ == seq![dec_digit(d as int)],
{
    let r: &'static str = if d == 0 {
        "0"
    } else if d == 1 {
        "1"
    } else if d == 2 {
        "2"
    } else if d == 3 {
        "3"
    } else if d == 4 {
        "4"
    } else if d == 5 {
        "5"
    } else if d == 6 {
        "6"
    } else if d == 7 {
        "7"
    } else if d == 8 {
        "8"
    } else {
        "9"
    };
    proof {
        reveal_strlit("0");
        reveal_strlit("1");
        reveal_strlit("2");
        reveal_strlit("3");
        reveal_strlit("4");
        reveal_strlit("5");
        reveal_strlit("6");
        reveal_strlit("7");
        reveal_strlit("8");
        reveal_strlit("9");
        assert(r@ =~= seq![dec_digit(d as int)]);
    }
    r
}

/// Render a number in decimal.
pub fn u64_to_dec(x: u64) -> (s: String)
    ensures
        s@ == dec_str(x as int),
    decreases x,
{
    if x < 10 {
        String::from_str(digit_str(x))
    } else {
        let mut s = u64_to_dec(x / 10);
        s.append(digit_str(x % 10));
        proof {
            assert(s@ =~= dec_str(x as int));
        }
        s
    }
}

/// The chat mention of a player: `<@{id}>`.
pub open spec fn mention_text(id: u64) -> Seq<char> {
    "<@"@ + dec_str(id as int) + ">"@
}

/// The chat reference of a channel: `<#{id}>`.
pub open spec fn channel_text(id: u64) -> Seq<char> {
    "<#"@ + dec_str(id as int) + ">"@
}

/// A player id rendered as a chat mention.
pub struct FormatMention(pub u64);

impl FormatMention {
    /// The mention text `<@{id}>`.
    pub fn text(&self) -> (r: String)
        ensures
            r@ == mention_text(self.0),
    {
        let mut s = String::from_str("<@");
        let digits = u64_to_dec(self.0);
        s.append(digits.as_str());
        s.append(">");
        s
    }
}

/// One line of the seat roster: `"{i}: "` followed by the occupant's mention
/// and channel, or by `"unassigned"`.
pub open spec fn cottage_line(players: Seq<(u32, (u64, u64))>, i: int) -> Seq<char> {
    let head = dec_str(i) + ": "@;
    if assoc_map(players).contains_key(i as u32) {
        let occupant = assoc_map(players)[i as u32];
        head + mention_text(occupant.0) + " "@ + channel_text(occupant.1) + "\n"@
    } else {
        head + "unassigned\n"@
    }
}

/// The roster lines for seats `1..=i`.
pub open spec fn cottage_lines_upto(players: Seq<(u32, (u64, u64))>, i: int) -> Seq<char>
    decreases i,
{
    if i <= 0 {
        Seq::empty()
    } else {
        cottage_lines_upto(players, i - 1) + cottage_line(players, i)
    }
}

/// The full seat roster for a table of `n` seats.
pub open spec fn cottages_text(players: Seq<(u32, (u64, u64))>, n: u32) -> Seq<char> {
    cottage_lines_upto(players, n as int)
}

/// The seat roster renderer, shown after a seat assignment changes.
pub struct PrintCottages<'a>(pub &'a crate::state::State);

impl<'a> PrintCottages<'a> {
    /// The ordered roster, one line per seat `1..=number_of_players`.
    pub fn text(&self) -> (r: String)
        requires
            self.0@.wf(),
        ensures
            r@ == cottages_text(self.0@.players, self.0@.number_of_players),
    {
        let n = self.0.number_of_players;
        let mut out = String::new();
        for i in 0..n
            invariant
                n == self.0@.number_of_players,
                self.0@.wf(),
                out@ == cottage_lines_upto(self.0@.players, i as int),
        {
            let seat = i + 1;
            let digits = u64_to_dec(seat as u64);
            out.append(digits.as_str());
            out.append(": ");
            match self.0.players.lookup(crate::seating::CottageNumber(seat)) {
                Some((player, channel)) => {
                    let mention = FormatMention(player).text();
                    out.append(mention.as_str());
                    out.append(" ");
                    out.append("<#");
                    let digits = u64_to_dec(channel);
                    out.append(digits.as_str());
                    out.append(">");
                    out.append("\n");
                },
                None => {
                    out.append("unassigned\n");
                },
            }
            proof {
                assert(out@ =~= cottage_lines_upto(self.0@.players, i + 1));
            }
        }
        out
    }
}

/// The suffix shown after a dead player's mention.
pub open spec fn dead_suffix(d: DeadState) -> Seq<char> {
    match d {
        DeadState::Alive => ""@,
        DeadState::DeadVoteAvailable => " (Dead)"@,
        DeadState::DeadVoteUsed => " (Dead Vote Used)"@,
    }
}

fn dead_suffix_str(d: DeadState) -> (r: &'static str)
    ensures
        r@ == dead_suffix(d),
{
    match d {
        DeadState::Alive => "",
        DeadState::DeadVoteAvailable => " (Dead)",
        DeadState::DeadVoteUsed => " (Dead Vote Used)",
    }
}

/// The glyph shown for a player's recorded ballot: a blank where nothing is
/// recorded, the raised or lowered hand, the cast Yes or No.
pub open spec fn ballot_glyph(b: Option<VoteState>) -> Seq<char> {
    match b {
        None => " "@,
        Some(VoteState::HandRaised) => "\u{1f64b}"@,
        Some(VoteState::HandLowered) => "\u{1f645}\u{200d}\u{2642}\u{fe0f}"@,
        Some(VoteState::Yes) => "\u{2705}"@,
        Some(VoteState::No) => "\u{274c}"@,
        Some(VoteState::Unset) => "?"@,
    }
}

fn ballot_glyph_str(b: Option<VoteState>) -> (r: &'static str)
    ensures
        r@ == ballot_glyph(b),
{
    match b {
        None => " ",
        Some(VoteState::HandRaised) => "\u{1f64b}",
        Some(VoteState::HandLowered) => "\u{1f645}\u{200d}\u{2642}\u{fe0f}",
        Some(VoteState::Yes) => "\u{2705}",
        Some(VoteState::No) => "\u{274c}",
        Some(VoteState::Unset) => "?",
    }
}

/// The clock-hand marker shown on the seat the clock hand points at.
pub open spec fn clock_marker(here: bool) -> Seq<char> {
    if here {
        "\u{2b05}\u{fe0f}"@
    } else {
        ""@
    }
}

/// The seat enumerated `j` seats clockwise of `start` on a table of `n`
/// seats.
pub open spec fn seat_at(start: u32, j: int, n: u32) -> u32
    recommends
        n >= 1,
        start >= 1,
{
    (((start - 1 + j) % (n as int)) + 1) as u32
}

/// Some enumeration step reaches every seat of the table.
proof fn lemma_seat_at_covers(start: u32, n: u32, c: u32)
    requires
        n >= 1,
        start >= 1,
        1 <= c <= n,
    ensures
        exists|j: int| 0 <= j < n && #[trigger] seat_at(start, j, n) == c,
{
    let j = (c as int - start as int) % (n as int);
    lemma_mod_bound(c as int - start as int, n as int);
    assert(seat_at(start, j, n) == c) by {
        lemma_add_mod_noop_right(start as int - 1, c as int - start as int, n as int);
        lemma_small_mod((c - 1) as nat, n as nat);
    };
}

/// The line rendered for the seat `j` steps clockwise of the starting seat:
/// an empty cottage placeholder, or the numbered occupant with dead suffix,
/// ballot glyph and clock-hand marker.
pub open spec fn vote_seat_line(
    players: Seq<(u32, (u64, u64))>,
    n: u32,
    v: VoteSnap,
    start: u32,
    j: int,
) -> Seq<char> {
    let seat = seat_at(start, j, n);
    if !assoc_map(players).contains_key(seat) {
        "[Empty Cottage]\n"@
    } else {
        let player = assoc_map(players)[seat].0;
        let dead = if assoc_map(v.dead_state).contains_key(player) {
            assoc_map(v.dead_state)[player]
        } else {
            DeadState::Alive
        };
        let ballot = if assoc_map(v.vote_state).contains_key(player) {
            Some(assoc_map(v.vote_state)[player])
        } else {
            None
        };
        dec_str(j + 1) + ": "@ + mention_text(player) + dead_suffix(dead) + " "@ + ballot_glyph(
            ballot,
        ) + " "@ + clock_marker(seat == v.clock_hand) + "\n"@
    }
}

/// The seat lines for the first `j` enumeration steps.
pub open spec fn vote_lines_upto(
    players: Seq<(u32, (u64, u64))>,
    n: u32,
    v: VoteSnap,
    start: u32,
    j: int,
) -> Seq<char>
    decreases j,
{
    if j <= 0 {
        Seq::empty()
    } else {
        vote_lines_upto(players, n, v, start, j - 1) + vote_seat_line(players, n, v, start, j - 1)
    }
}

/// The trailing note naming the clock-hand occupant, when the clock-hand
/// seat lies on the table and is occupied.
pub open spec fn clockhand_note(players: Seq<(u32, (u64, u64))>, n: u32, v: VoteSnap) -> Seq<
    char,
> {
    if 1 <= v.clock_hand <= n && assoc_map(players).contains_key(v.clock_hand) {
        "Clockhand on "@ + mention_text(assoc_map(players)[v.clock_hand].0) + "\n"@
    } else {
        ""@
    }
}

/// The standing block of the session message: for an unseated nominee,
/// exactly the placeholder and nothing else; otherwise one full clockwise
/// cycle of seats starting at the nominee's, then the clock-hand note.
pub open spec fn votes_section(players: Seq<(u32, (u64, u64))>, n: u32, v: VoteSnap) -> Seq<
    char,
> {
    match first_seat_of(players, v.nominee) {
        None => "[Starting Player Not On Table]"@,
        Some(start) => vote_lines_upto(players, n, v, start, n as int) + clockhand_note(
            players,
            n,
            v,
        ),
    }
}

/// An unseated nominee renders as exactly the placeholder: no seat is
/// enumerated and no clock-hand note follows.
pub proof fn lemma_unseated_nominee_placeholder(
    players: Seq<(u32, (u64, u64))>,
    n: u32,
    v: VoteSnap,
)
    requires
        first_seat_of(players, v.nominee) is None,
    ensures
        votes_section(players, n, v) == "[Starting Player Not On Table]"@,
{
}

/// The full session message: header with the nominator and nominee mentions
/// and the quoted accusation and defense, the standing block, then the
/// free-text description.
pub open spec fn vote_message(players: Seq<(u32, (u64, u64))>, n: u32, v: VoteSnap) -> Seq<
    char,
> {
    "\n"@ + mention_text(v.nominator) + " nominates "@ + mention_text(v.nominee)
        + "\n\n**Accusation:**\n> "@ + v.accusation + "\n**Defense:**\n> "@ + v.defense + "\n\n"@
        + votes_section(players, n, v) + "\n"@ + v.description + "\n\n    "@
}

/// Render the line for the seat `j` steps clockwise of `start`, and report
/// the occupant when that seat is the one the clock hand points at.
fn render_seat_line(players: &PlayerMap, vote: &Vote, n: u32, start: u32, j: u32) -> (r: (
    String,
    Option<u64>,
))
    requires
        players.wf(),
        vote.vote_state.wf(),
        vote.dead_state.wf(),
        start >= 1,
        j < n,
    ensures
        r.0@ == vote_seat_line(players.entries@, n, vote@, start, j as int),
        r.1 == if seat_at(start, j as int, n) == vote.clock_hand.0 && assoc_map(
            players.entries@,
        ).contains_key(vote.clock_hand.0) {
            Some(assoc_map(players.entries@)[vote.clock_hand.0].0)
        } else {
            None::<u64>
        },
{
    let seat64 = ((start as u64) - 1 + (j as u64)) % (n as u64) + 1;
    let seat = seat64 as u32;
    proof {
        lemma_mod_bound(start as int - 1 + j as int, n as int);
        assert(seat == seat_at(start, j as int, n));
    }
    let clock = vote.clock_hand.0;
    match players.lookup(crate::seating::CottageNumber(seat)) {
        None => (String::from_str("[Empty Cottage]\n"), None),
        Some((player, _channel)) => {
            let mut out = u64_to_dec((j + 1) as u64);
            out.append(": ");
            let mention = FormatMention(player).text();
            out.append(mention.as_str());
            let dead = match vote.dead_state.get(player) {
                Some(d) => d,
                None => DeadState::Alive,
            };
            out.append(dead_suffix_str(dead));
            out.append(" ");
            out.append(ballot_glyph_str(vote.vote_state.get(player)));
            out.append(" ");
            if seat == clock {
                out.append("\u{2b05}\u{fe0f}");
            } else {
                out.append("");
            }
            out.append("\n");
            proof {
                assert(out@ =~= vote_seat_line(players.entries@, n, vote@, start, j as int));
            }
            let hit = if seat == clock {
                Some(player)
            } else {
                None
            };
            (out, hit)
        },
    }
}

/// Render the standing block of the session message.
pub fn format_votes_section(players: &PlayerMap, vote: &Vote, number_of_players: u32) -> (r:
    String)
    requires
        players.wf(),
        vote.vote_state.wf(),
        vote.dead_state.wf(),
    ensures
        r@ == votes_section(players.entries@, number_of_players, vote@),
{
    let n = number_of_players;
    let start = match players.seat_of(vote.nominee) {
        None => {
            return String::from_str("[Starting Player Not On Table]");
        },
        Some(c) => c.0,
    };
    let mut out = String::new();
    let mut clockhand_player: Option<u64> = None;
    let clock = vote.clock_hand.0;
    for j in 0..n
        invariant
            start >= 1,
            clock == vote.clock_hand.0,
            players.wf(),
            vote.vote_state.wf(),
            vote.dead_state.wf(),
            out@ == vote_lines_upto(players.entries@, n, vote@, start, j as int),
            clockhand_player == if (exists|j2: int|
                0 <= j2 < j && #[trigger] seat_at(start, j2, n) == clock) && assoc_map(
                players.entries@,
            ).contains_key(clock) {
                Some(assoc_map(players.entries@)[clock].0)
            } else {
                None::<u64>
            },
    {
        let (line, hit) = render_seat_line(players, vote, n, start, j);
        out.append(line.as_str());
        match hit {
            Some(player) => {
                clockhand_player = Some(player);
            },
            None => {},
        }
        proof {
            assert(out@ =~= vote_lines_upto(players.entries@, n, vote@, start, j + 1));
        }
    }
    proof {
        if 1 <= clock <= n && assoc_map(players.entries@).contains_key(clock) {
            lemma_seat_at_covers(start, n, clock);
        }
        if exists|j2: int| 0 <= j2 < n && #[trigger] seat_at(start, j2, n) == clock {
            let j2 = choose|j2: int| 0 <= j2 < n && #[trigger] seat_at(start, j2, n) == clock;
            lemma_mod_bound(start as int - 1 + j2, n as int);
            assert(1 <= clock <= n);
        }
    }
    match clockhand_player {
        Some(player) => {
            out.append("Clockhand on ");
            let mention = FormatMention(player).text();
            out.append(mention.as_str());
            out.append("\n");
        },
        None => {},
    }
    proof {
        reveal_strlit("");
        assert(out@ =~= votes_section(players.entries@, number_of_players, vote@));
    }
    out
}

/// Render the full session message shown to all participants.
pub fn format_vote(players: &PlayerMap, vote: &Vote, number_of_players: u32) -> (r: String)
    requires
        players.wf(),
        vote.vote_state.wf(),
        vote.dead_state.wf(),
    ensures
        r@ == vote_message(players.entries@, number_of_players, vote@),
{
    let mut out = String::from_str("\n");
    let mention = FormatMention(vote.nominator).text();
    out.append(mention.as_str());
    out.append(" nominates ");
    let mention = FormatMention(vote.nominee).text();
    out.append(mention.as_str());
    out.append("\n\n**Accusation:**\n> ");
    out.append(vote.accusation.as_str());
    out.append("\n**Defense:**\n> ");
    out.append(vote.defense.as_str());
    out.append("\n\n");
    let section = format_votes_section(players, vote, number_of_players);
    out.append(section.as_str());
    out.append("\n");
    out.append(vote.description.as_str());
    out.append("\n\n    ");
    out
}

} // verus!
