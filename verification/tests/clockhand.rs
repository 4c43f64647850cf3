use clockhand::render::{format_vote, format_votes_section, FormatMention, PrintCottages};
use clockhand::seating::{CottageNumber, PlayerMap};
use clockhand::state::{DeadState, Refusal, State, VoteState};

fn seated_state(n: u32, players: &[(u32, u64, u64)]) -> State {
    let mut st = State::default();
    st.set_number_of_players(n);
    for &(seat, player, channel) in players {
        st.assign_player_to_cottage(seat, player, channel).unwrap();
    }
    st
}

#[test]
fn assign_then_lookup_returns_assignment() {
    let st = seated_state(3, &[(1, 10, 100), (2, 20, 200)]);
    assert_eq!(
        st.players.lookup(CottageNumber::new(1).unwrap()),
        Some((10, 100))
    );
    assert_eq!(
        st.players.lookup(CottageNumber::new(2).unwrap()),
        Some((20, 200))
    );
    assert_eq!(st.players.lookup(CottageNumber::new(3).unwrap()), None);
}

#[test]
fn reassignment_overwrites_never_merges() {
    let mut st = seated_state(3, &[(1, 10, 100)]);
    st.assign_player_to_cottage(1, 77, 700).unwrap();
    assert_eq!(
        st.players.lookup(CottageNumber::new(1).unwrap()),
        Some((77, 700))
    );
    assert_eq!(st.players.len(), 1);
}

#[test]
fn cottage_zero_does_not_exist() {
    assert!(CottageNumber::new(0).is_none());
    let mut st = State::default();
    assert_eq!(
        st.assign_player_to_cottage(0, 1, 1),
        Err(Refusal::NotSeated)
    );
}

#[test]
fn next_wraps_last_seat_to_first() {
    let last = CottageNumber::new(5).unwrap();
    assert_eq!(last.next(5).0, 1);
}

#[test]
fn next_is_a_bijection_on_the_table() {
    let n = 7u32;
    let mut seen = vec![false; (n + 1) as usize];
    for s in 1..=n {
        let t = CottageNumber::new(s).unwrap().next(n).0;
        assert!(1 <= t && t <= n);
        assert!(!seen[t as usize], "two seats step to {}", t);
        seen[t as usize] = true;
    }
}

#[test]
fn next_applied_n_times_returns_to_seed() {
    let n = 6u32;
    for s in 1..=n {
        let mut c = CottageNumber::new(s).unwrap();
        for _ in 0..n {
            c = c.next(n);
        }
        assert_eq!(c.0, s);
    }
}

#[test]
fn start_vote_points_clock_hand_after_nominee() {
    let mut st = seated_state(
        5,
        &[(1, 1, 11), (2, 2, 12), (3, 3, 13), (4, 4, 14), (5, 5, 15)],
    );
    st.start_vote(1, 3, "d".to_string(), 900, 901).unwrap();
    let vote = st.current_vote.as_ref().unwrap();
    assert_eq!(vote.clock_hand, CottageNumber::new(4).unwrap());
    assert_eq!(vote.nominator, 1);
    assert_eq!(vote.nominee, 3);
    assert_eq!(vote.accusation, String::new());
    assert_eq!(vote.defense, String::new());
    assert!(vote.vote_state.entries.is_empty());
    assert!(vote.dead_state.entries.is_empty());
    assert_eq!(vote.message_id, 900);
    assert_eq!(vote.channel_id, 901);
}

#[test]
fn compelled_ballots_advance_around_the_table() {
    let mut st = seated_state(
        5,
        &[(1, 1, 11), (2, 2, 12), (3, 3, 13), (4, 4, 14), (5, 5, 15)],
    );
    st.start_vote(1, 3, "d".to_string(), 900, 901).unwrap();
    assert_eq!(st.current_vote.as_ref().unwrap().clock_hand.0, 4);

    assert_eq!(st.vote(true), Ok(true));
    {
        let vote = st.current_vote.as_ref().unwrap();
        assert_eq!(vote.vote_state.get(4), Some(VoteState::Yes));
        assert_eq!(vote.clock_hand.0, 5);
    }

    assert_eq!(st.vote(false), Ok(true));
    {
        let vote = st.current_vote.as_ref().unwrap();
        assert_eq!(vote.vote_state.get(5), Some(VoteState::No));
        assert_eq!(vote.clock_hand.0, 1);
    }
}

#[test]
fn terminal_ballot_survives_a_returning_clock_hand() {
    // two seats: after a full round the clock hand returns to a player whose
    // ballot is already cast; the compelled ballot is then a no-op by policy,
    // reported as "nothing to do", and the clock hand still moves on
    let mut st = seated_state(2, &[(1, 1, 11), (2, 2, 12)]);
    st.start_vote(1, 1, "d".to_string(), 1, 2).unwrap();
    assert_eq!(st.current_vote.as_ref().unwrap().clock_hand.0, 2);

    assert_eq!(st.vote(true), Ok(true));
    assert_eq!(st.vote(false), Ok(true));
    // the hand is back on seat 2, whose occupant already voted Yes
    assert_eq!(st.current_vote.as_ref().unwrap().clock_hand.0, 2);
    assert_eq!(
        st.current_vote.as_ref().unwrap().vote_state.get(2),
        Some(VoteState::Yes)
    );

    assert_eq!(st.vote(false), Ok(false));
    let vote = st.current_vote.as_ref().unwrap();
    assert_eq!(vote.vote_state.get(2), Some(VoteState::Yes));
    assert_eq!(vote.vote_state.get(1), Some(VoteState::No));
    assert_eq!(vote.clock_hand.0, 1);
}

#[test]
fn terminal_ballot_survives_hand_interactions() {
    let mut st = seated_state(
        5,
        &[(1, 1, 11), (2, 2, 12), (3, 3, 13), (4, 4, 14), (5, 5, 15)],
    );
    st.start_vote(1, 3, "d".to_string(), 900, 901).unwrap();
    st.vote(true).unwrap();
    assert_eq!(
        st.current_vote.as_ref().unwrap().vote_state.get(4),
        Some(VoteState::Yes)
    );

    assert_eq!(st.raise_hand(4, false), Ok(false));
    assert_eq!(st.raise_hand(4, true), Ok(false));
    assert_eq!(
        st.current_vote.as_ref().unwrap().vote_state.get(4),
        Some(VoteState::Yes)
    );
}

#[test]
fn hands_toggle_freely_while_not_terminal() {
    let mut st = seated_state(2, &[(1, 10, 100), (2, 20, 200)]);
    st.start_vote(10, 20, "d".to_string(), 1, 2).unwrap();
    assert_eq!(st.raise_hand(10, true), Ok(true));
    assert_eq!(
        st.current_vote.as_ref().unwrap().vote_state.get(10),
        Some(VoteState::HandRaised)
    );
    assert_eq!(st.raise_hand(10, false), Ok(true));
    assert_eq!(
        st.current_vote.as_ref().unwrap().vote_state.get(10),
        Some(VoteState::HandLowered)
    );
}

#[test]
fn commands_refuse_without_an_active_vote() {
    let mut st = seated_state(2, &[(1, 10, 100)]);
    assert_eq!(st.raise_hand(10, true), Err(Refusal::NoActiveVote));
    assert_eq!(st.vote(true), Err(Refusal::NoActiveVote));
    assert_eq!(
        st.set_defense("d".to_string()),
        Err(Refusal::NoActiveVote)
    );
    assert_eq!(
        st.set_accusation("a".to_string()),
        Err(Refusal::NoActiveVote)
    );
}

#[test]
fn start_vote_refuses_unseated_nominee() {
    let mut st = seated_state(2, &[(1, 10, 100)]);
    assert_eq!(
        st.start_vote(10, 999, "d".to_string(), 1, 2),
        Err(Refusal::NomineeUnseated)
    );
    assert!(st.current_vote.is_none());
}

#[test]
fn start_vote_refuses_a_table_of_zero_seats() {
    let mut st = seated_state(0, &[(1, 10, 100)]);
    assert_eq!(
        st.start_vote(10, 10, "d".to_string(), 1, 2),
        Err(Refusal::NoPlayers)
    );
}

#[test]
fn ballot_on_an_empty_clock_hand_seat_is_refused() {
    // only seat 2 of 3 is occupied: the clock hand lands on empty seat 3
    let mut st = seated_state(3, &[(2, 20, 200)]);
    st.start_vote(20, 20, "d".to_string(), 1, 2).unwrap();
    assert_eq!(st.current_vote.as_ref().unwrap().clock_hand.0, 3);
    assert_eq!(st.vote(true), Err(Refusal::NotSeated));
    // nothing moved
    assert_eq!(st.current_vote.as_ref().unwrap().clock_hand.0, 3);
    assert!(st.current_vote.as_ref().unwrap().vote_state.entries.is_empty());
}

#[test]
fn starting_a_new_vote_discards_the_old_session() {
    let mut st = seated_state(2, &[(1, 10, 100), (2, 20, 200)]);
    st.start_vote(10, 20, "first".to_string(), 1, 2).unwrap();
    st.set_accusation("said things".to_string()).unwrap();
    st.start_vote(20, 10, "second".to_string(), 3, 4).unwrap();
    let vote = st.current_vote.as_ref().unwrap();
    assert_eq!(vote.description, "second".to_string());
    assert_eq!(vote.accusation, String::new());
    assert_eq!(vote.nominee, 10);
}

#[test]
fn mention_renders_decimal_id() {
    assert_eq!(FormatMention(0).text(), "<@0>".to_string());
    assert_eq!(
        FormatMention(1234567890123).text(),
        "<@1234567890123>".to_string()
    );
}

#[test]
fn cottage_roster_lists_every_seat_in_order() {
    let st = seated_state(2, &[(1, 10, 100)]);
    assert_eq!(
        PrintCottages(&st).text(),
        "1: <@10> <#100>\n2: unassigned\n".to_string()
    );
}

#[test]
fn unseated_nominee_renders_exactly_the_placeholder() {
    let mut st = seated_state(2, &[(1, 10, 100), (2, 20, 200)]);
    st.start_vote(5, 10, "d".to_string(), 1, 2).unwrap();
    // the nominee loses the seat after the session started
    st.assign_player_to_cottage(1, 99, 900).unwrap();
    let vote = st.current_vote.as_ref().unwrap();
    assert_eq!(
        format_votes_section(&st.players, vote, st.number_of_players),
        "[Starting Player Not On Table]".to_string()
    );
}

#[test]
fn session_message_renders_canonically() {
    let mut st = seated_state(2, &[(1, 10, 100), (2, 20, 200)]);
    st.start_vote(10, 20, "desc".to_string(), 7, 8).unwrap();
    assert_eq!(st.current_vote.as_ref().unwrap().clock_hand.0, 1);
    st.set_accusation("acc".to_string()).unwrap();
    st.set_defense("def".to_string()).unwrap();
    st.raise_hand(10, true).unwrap();
    let vote = st.current_vote.as_ref().unwrap();
    let expected = format!(
        "\n<@10> nominates <@20>\n\n**Accusation:**\n> acc\n**Defense:**\n> def\n\n\
         1: <@20>   \n\
         2: <@10> \u{1f64b} \u{2b05}\u{fe0f}\n\
         Clockhand on <@10>\n\
         \ndesc\n\n    "
    );
    assert_eq!(
        format_vote(&st.players, vote, st.number_of_players),
        expected
    );
}

#[test]
fn dead_players_carry_their_suffix_in_the_render() {
    let mut st = seated_state(2, &[(1, 10, 100), (2, 20, 200)]);
    st.start_vote(10, 10, "d".to_string(), 7, 8).unwrap();
    // nominee at seat 1 of 2: clock hand on seat 2
    assert_eq!(st.current_vote.as_ref().unwrap().clock_hand.0, 2);
    {
        let vote = st.current_vote.as_mut().unwrap();
        vote.dead_state.insert(20, DeadState::DeadVoteAvailable);
        vote.dead_state.insert(10, DeadState::DeadVoteUsed);
    }
    st.vote(false).unwrap();
    // the compelled ballot recorded No for the occupant of seat 2 and the
    // clock hand wrapped back to seat 1
    let vote = st.current_vote.as_ref().unwrap();
    assert_eq!(vote.clock_hand.0, 1);
    let expected = "1: <@10> (Dead Vote Used)   \u{2b05}\u{fe0f}\n\
                    2: <@20> (Dead) \u{274c} \n\
                    Clockhand on <@10>\n";
    assert_eq!(
        format_votes_section(&st.players, vote, st.number_of_players),
        expected.to_string()
    );
}

#[test]
fn snapshot_round_trips_every_observable_field() {
    let mut st = seated_state(3, &[(1, 10, 100), (2, 20, 200), (3, 30, 300)]);
    st.start_vote(10, 20, "tie at 2".to_string(), 41, 42).unwrap();
    st.set_accusation("he did it\nno really".to_string()).unwrap();
    st.set_defense("d\u{e9}fense \u{1f3b2}".to_string()).unwrap();
    st.raise_hand(10, true).unwrap();
    st.vote(true).unwrap();
    {
        let vote = st.current_vote.as_mut().unwrap();
        vote.dead_state.insert(30, DeadState::DeadVoteAvailable);
    }

    let text = st.snapshot_text();
    let back = State::from_snapshot(text.as_str()).expect("snapshot must parse back");

    assert_eq!(back.number_of_players, st.number_of_players);
    assert_eq!(back.players.entries, st.players.entries);
    let v1 = st.current_vote.as_ref().unwrap();
    let v2 = back.current_vote.as_ref().unwrap();
    assert_eq!(v2.nominator, v1.nominator);
    assert_eq!(v2.nominee, v1.nominee);
    assert_eq!(v2.accusation, v1.accusation);
    assert_eq!(v2.defense, v1.defense);
    assert_eq!(v2.clock_hand, v1.clock_hand);
    assert_eq!(v2.vote_state.entries, v1.vote_state.entries);
    assert_eq!(v2.dead_state.entries, v1.dead_state.entries);
    assert_eq!(v2.description, v1.description);
    assert_eq!(v2.message_id, v1.message_id);
    assert_eq!(v2.channel_id, v1.channel_id);
}

#[test]
fn snapshot_round_trips_the_empty_state() {
    let st = State::default();
    let text = st.snapshot_text();
    let back = State::from_snapshot(text.as_str()).unwrap();
    assert_eq!(back.number_of_players, 0);
    assert!(back.players.entries.is_empty());
    assert!(back.current_vote.is_none());
}

#[test]
fn snapshot_rejects_garbage_and_truncation() {
    assert!(State::from_snapshot("not a snapshot").is_none());
    assert!(State::from_snapshot("").is_none());
    let st = seated_state(2, &[(1, 10, 100)]);
    let text = st.snapshot_text();
    let truncated: String = text.chars().take(text.chars().count() - 1).collect();
    assert!(State::from_snapshot(truncated.as_str()).is_none());
    let padded = format!("{}0", text);
    assert!(State::from_snapshot(padded.as_str()).is_none());
}

#[test]
fn seat_of_returns_the_first_seat_in_storage_order() {
    // one player holding several seats is a documented limitation: the scan
    // reports the first entry in storage order
    let st = seated_state(3, &[(1, 10, 100), (2, 20, 200), (3, 10, 300)]);
    assert_eq!(st.players.seat_of(10), Some(CottageNumber::new(1).unwrap()));
    assert_eq!(st.players.seat_of(20), Some(CottageNumber::new(2).unwrap()));
    assert_eq!(st.players.seat_of(99), None);
}

#[test]
fn snapshot_parser_rejects_ill_formed_states() {
    // a directory with two entries for the same seat never arises through
    // the commands; a document claiming one is refused on load
    let st = State {
        players: PlayerMap {
            entries: vec![(1, (10, 100)), (1, (20, 200))],
        },
        number_of_players: 2,
        current_vote: None,
    };
    let text = st.snapshot_text();
    assert!(State::from_snapshot(text.as_str()).is_none());

    // so is one naming seat zero
    let st = State {
        players: PlayerMap {
            entries: vec![(0, (10, 100))],
        },
        number_of_players: 1,
        current_vote: None,
    };
    let text = st.snapshot_text();
    assert!(State::from_snapshot(text.as_str()).is_none());
}
