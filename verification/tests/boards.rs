//! The boards of a node, and what comes in from the network.

use peaboard::board::{deliver, join, list_boards, published, receive, render, Line, State};
use peaboard::cipher::Cipher;
use peaboard::feed::{incoming, Delivery, Reaction};
use peaboard::proto::{board_key, seal, Post, ID_SIZE};

fn post(board: &str, nick: &str, ts: u64, text: &str) -> Post {
    Post {
        board: board.to_string(),
        nick: nick.to_string(),
        ts,
        text: text.to_string(),
    }
}

fn lines(texts: &[&str]) -> Vec<String> {
    texts.iter().map(|t| t.to_string()).collect()
}

fn frame(id: u8, p: &Post) -> Vec<u8> {
    let mut frame = vec![id; ID_SIZE];
    frame.extend_from_slice(&seal(&board_key(), p).unwrap());
    frame
}

#[test]
fn line_as_users_see_it() {
    let line = Line {
        id: "b8de5d".to_string(),
        ts: 15 * 3_600 + 45 * 60,
        nick: "bob".to_string(),
        text: "has anyone benchmarked locktick?".to_string(),
    };
    assert_eq!(render(&line), "[15:45 #b8de5d] bob: has anyone benchmarked locktick?");
    assert_eq!(render(&line.copy()), render(&line));
}

#[test]
fn fresh_boards_are_listed_in_order() {
    let state = State::new();
    assert!(state.current_board().is_none());
    assert_eq!(
        list_boards(&state),
        lines(&["Boards:", "    memes  (0)", "    privacy  (0)", "    rust  (0)"])
    );
}

#[test]
fn listing_counts_and_marks() {
    let mut state = State::new();
    join(&mut state, "privacy");
    deliver(&mut state, post("zoo", "al", 0, "hi"), "aaaaaaaa".to_string());
    deliver(&mut state, post("privacy", "al", 0, "hi"), "bbbbbbbb".to_string());
    deliver(&mut state, post("privacy", "al", 0, "ho"), "cccccccc".to_string());
    deliver(&mut state, post("Zoo", "al", 0, "hi"), "dddddddd".to_string());
    assert_eq!(
        list_boards(&state),
        lines(&[
            "Boards:",
            "    Zoo  (1)",
            "    memes  (0)",
            "    privacy  (2) *",
            "    rust  (0)",
            "    zoo  (1)",
        ])
    );
}

#[test]
fn listing_orders_many_boards() {
    let mut state = State::new();
    let mut names = vec!["memes".to_string(), "privacy".to_string(), "rust".to_string()];
    for n in [7u32, 3, 9, 1, 8, 2, 0, 6, 4, 5] {
        let name = format!("board{}é", n);
        join(&mut state, &name);
        names.push(name);
    }
    names.sort();
    let listed = list_boards(&state);
    assert_eq!(listed.len(), names.len() + 1);
    for (entry, name) in listed[1..].iter().zip(&names) {
        assert!(entry.starts_with(&format!("    {}  (0)", name)), "{:?}", entry);
    }
}

#[test]
fn joining_replays_the_history() {
    let mut state = State::new();
    assert_eq!(join(&mut state, "rust"), lines(&["— now on #rust (0 message(s)) —"]));
    assert_eq!(state.current_board().unwrap(), "rust");
    deliver(&mut state, post("rust", "bob", 56_700, "one"), "b8de5d00".to_string());
    deliver(&mut state, post("rust", "carol", 56_760, "two"), "df4fb800".to_string());
    deliver(&mut state, post("memes", "dan", 0, "other"), "aaaaaa00".to_string());
    let screen = lines(&[
        "— now on #rust (2 message(s)) —",
        "[15:45 #b8de5d] bob: one",
        "[15:46 #df4fb8] carol: two",
    ]);
    assert_eq!(join(&mut state, "rust"), screen);
    assert_eq!(
        join(&mut state, "memes"),
        lines(&["— now on #memes (1 message(s)) —", "[00:00 #aaaaaa] dan: other"])
    );
    assert_eq!(join(&mut state, "rust"), screen);
}

#[test]
fn joining_makes_a_board_known() {
    let mut state = State::new();
    join(&mut state, "new one");
    assert_eq!(
        list_boards(&state),
        lines(&[
            "Boards:",
            "    memes  (0)",
            "    new one  (0) *",
            "    privacy  (0)",
            "    rust  (0)",
        ])
    );
}

#[test]
fn only_the_board_on_screen_shows() {
    let mut state = State::new();
    assert!(deliver(&mut state, post("rust", "al", 0, "a"), "11111111".to_string()).is_none());
    join(&mut state, "rust");
    let shown = deliver(&mut state, post("rust", "al", 60, "b"), "22222222".to_string()).unwrap();
    assert_eq!(shown.id, "222222");
    assert_eq!(shown.ts, 60);
    assert_eq!(shown.nick, "al");
    assert_eq!(shown.text, "b");
    assert!(deliver(&mut state, post("memes", "al", 0, "c"), "33333333".to_string()).is_none());
    assert_eq!(join(&mut state, "rust").len(), 3);
}

#[test]
fn message_id_is_filed_once() {
    let mut state = State::new();
    join(&mut state, "rust");
    assert!(deliver(&mut state, post("rust", "al", 0, "a"), "11111111".to_string()).is_some());
    assert!(deliver(&mut state, post("rust", "al", 0, "a"), "11111111".to_string()).is_none());
    assert!(deliver(&mut state, post("memes", "x", 9, "z"), "11111111".to_string()).is_none());
    assert_eq!(join(&mut state, "rust").len(), 2);
    assert_eq!(join(&mut state, "memes").len(), 1);
    // The same front is not the same id.
    assert!(deliver(&mut state, post("memes", "al", 0, "a"), "11111122".to_string()).is_some());
    assert_eq!(join(&mut state, "memes").len(), 2);
}

#[test]
fn filed_for_good() {
    let mut state = State::new();
    join(&mut state, "rust");
    deliver(&mut state, post("rust", "al", 0, "a"), "11111111".to_string());
    let filed = join(&mut state, "rust");
    join(&mut state, "memes");
    deliver(&mut state, post("memes", "bo", 0, "b"), "22222222".to_string());
    deliver(&mut state, post("rust", "bo", 0, "c"), "33333333".to_string());
    let replayed = join(&mut state, "rust");
    assert_eq!(replayed.len(), 3);
    assert!(replayed[1..].starts_with(&filed[1..]));
    assert!(deliver(&mut state, post("rust", "al", 0, "a"), "11111111".to_string()).is_none());
    assert_eq!(join(&mut state, "rust"), replayed);
}

#[test]
fn short_id_is_the_front_of_the_id() {
    let mut state = State::new();
    join(&mut state, "rust");
    let id = [0xb8u8, 0xde, 0x5d, 0x99];
    assert_eq!(published(&mut state, post("rust", "al", 0, "a"), &id).unwrap().id, "b8de5d");
    let short = deliver(&mut state, post("rust", "al", 0, "a"), "éèê".to_string()).unwrap();
    assert_eq!(short.id, "éèê");
}

#[test]
fn own_post_that_comes_back_is_filed_once() {
    let mut state = State::new();
    let cipher = board_key();
    join(&mut state, "rust");
    let p = post("rust", "al", 60, "mine");
    let echo = frame(0xab, &p);
    let shown = published(&mut state, p, &echo[..ID_SIZE]).unwrap();
    assert_eq!(render(&shown), "[00:01 #ababab] al: mine");
    assert!(receive(&mut state, &cipher, &echo).is_none());
    assert_eq!(join(&mut state, "rust").len(), 2);
}

#[test]
fn frame_files_the_same_line_everywhere() {
    let cipher = board_key();
    let p = post("rust", "al", 60, "to all");
    let sent = frame(0x0c, &p);
    let mut author = State::new();
    join(&mut author, "rust");
    let here = published(&mut author, p, &sent[..ID_SIZE]).unwrap();
    let mut peer = State::new();
    join(&mut peer, "rust");
    let there = receive(&mut peer, &cipher, &sent).unwrap();
    assert_eq!(render(&here), render(&there));
    assert_eq!(join(&mut author, "rust"), join(&mut peer, "rust"));
}

#[test]
fn frames_that_do_not_open_change_nothing() {
    let mut state = State::new();
    join(&mut state, "rust");
    let before = list_boards(&state);
    assert!(receive(&mut state, &board_key(), &[0u8; 512]).is_none());
    assert!(receive(&mut state, &board_key(), &[]).is_none());
    let p = post("rust", "al", 60, "hidden");
    assert!(receive(&mut state, &Cipher::new([1; 32]), &frame(5, &p)).is_none());
    assert_eq!(list_boards(&state), before);
    // The id was not used up.
    assert!(receive(&mut state, &board_key(), &frame(5, &p)).is_some());
}

#[test]
fn frame_discovers_a_board() {
    let mut state = State::new();
    assert!(receive(&mut state, &board_key(), &frame(5, &post("cats", "al", 0, "mew"))).is_none());
    assert_eq!(list_boards(&state)[1], "    cats  (1)");
}

#[test]
fn feed_is_its_frames_up_to_the_end() {
    let cipher = board_key();
    let a = frame(1, &post("rust", "al", 60, "a"));
    let b = frame(2, &post("memes", "al", 60, "b"));
    let c = frame(3, &post("rust", "al", 60, "c"));
    let late = frame(4, &post("rust", "al", 60, "late"));

    let mut fed = State::new();
    join(&mut fed, "rust");
    let mut shown: Vec<String> = vec![];
    for delivery in [
        Delivery::Frame(a.clone()),
        Delivery::Lagged,
        Delivery::Frame(b.clone()),
        Delivery::Frame(vec![0; 512]),
        Delivery::Frame(c.clone()),
        Delivery::Closed,
        Delivery::Frame(late),
    ] {
        match incoming(&mut fed, &cipher, delivery) {
            Reaction::Wait => {}
            Reaction::Show(line) => shown.push(render(&line)),
            Reaction::Stop => break,
        }
    }
    assert_eq!(shown, lines(&["[00:01 #010101] al: a", "[00:01 #030303] al: c"]));

    let mut direct = State::new();
    join(&mut direct, "rust");
    for f in [&a, &b, &c] {
        receive(&mut direct, &cipher, f);
    }
    assert_eq!(list_boards(&fed), list_boards(&direct));
    assert_eq!(join(&mut fed, "rust"), join(&mut direct, "rust"));
}

#[test]
fn feed_shows_waits_and_stops() {
    let cipher = board_key();
    let mut state = State::new();
    let p = post("rust", "al", 60, "hi");
    assert!(matches!(incoming(&mut state, &cipher, Delivery::Lagged), Reaction::Wait));
    assert!(matches!(
        incoming(&mut state, &cipher, Delivery::Frame(frame(1, &p))),
        Reaction::Wait
    ));
    join(&mut state, "rust");
    match incoming(&mut state, &cipher, Delivery::Frame(frame(2, &p))) {
        Reaction::Show(line) => assert_eq!(render(&line), "[00:01 #020202] al: hi"),
        _ => panic!("nothing shown"),
    }
    assert!(matches!(
        incoming(&mut state, &cipher, Delivery::Frame(frame(2, &p))),
        Reaction::Wait
    ));
    assert!(matches!(
        incoming(&mut state, &cipher, Delivery::Frame(vec![0; 512])),
        Reaction::Wait
    ));
    assert!(matches!(incoming(&mut state, &cipher, Delivery::Closed), Reaction::Stop));
    assert_eq!(join(&mut state, "rust").len(), 3);
}
