//! The command language and the command line.

use peaboard::args::{overlays, parse_args, parse_port, usage, Args, Cli, Word};
use peaboard::board::{join, list_boards, published, receive, render, State};
use peaboard::net::SocketAddress;
use peaboard::proto::{board_key, open, ID_SIZE, PAYLOAD};
use peaboard::repl::{
    after_publish, banner, help, interpret, peers_line, post, post_at, report_line, respond,
    respond_at, Command, Reply,
};

fn said(reply: Reply) -> Vec<String> {
    match reply {
        Reply::Say(lines) => lines,
        _ => panic!("nothing was said"),
    }
}

fn words(texts: &[&str]) -> Vec<Word> {
    texts
        .iter()
        .map(|t| Word {
            text: t.to_string(),
            addr: match *t {
                "127.0.0.1:9000" => Some(SocketAddress::V4 { ip: 0x7f00_0001, port: 9000 }),
                "127.0.0.1:9002" => Some(SocketAddress::V4 { ip: 0x7f00_0001, port: 9002 }),
                _ => None,
            },
        })
        .collect()
}

fn run(texts: &[&str]) -> Args {
    match parse_args(&words(texts)) {
        Cli::Run(args) => args,
        Cli::Usage => panic!("usage"),
    }
}

#[test]
fn typed_lines_and_their_meaning() {
    assert!(matches!(interpret(""), Command::Nothing));
    assert!(matches!(interpret(" \t "), Command::Nothing));
    assert!(matches!(interpret("/boards"), Command::Boards));
    assert!(matches!(interpret("  /boards now "), Command::Boards));
    assert!(matches!(interpret("/peers"), Command::Peers));
    assert!(matches!(interpret("/help"), Command::Help));
    assert!(matches!(interpret("/quit"), Command::Quit));
    assert!(matches!(interpret("/exit"), Command::Quit));
    assert!(matches!(interpret("/join"), Command::JoinWhere));
    assert!(matches!(interpret("/join   "), Command::JoinWhere));
    match interpret("/join  rust and more ") {
        Command::Join(board) => assert_eq!(board, "rust and more"),
        _ => panic!("no join"),
    }
    match interpret("  hello / there  ") {
        Command::Post(text) => assert_eq!(text, "hello / there"),
        _ => panic!("no post"),
    }
    for (line, word) in [("/", ""), ("/ join x", ""), ("/Join x", "Join"), ("//", "/"), ("/joinx", "joinx")] {
        match interpret(line) {
            Command::Unknown(w) => assert_eq!(w, word, "{:?}", line),
            _ => panic!("{:?} is a command", line),
        }
    }
}

#[test]
fn blank_line_is_not_answered() {
    let mut state = State::new();
    assert!(matches!(respond(&mut state, &board_key(), "al", "   "), Reply::Quiet));
}

#[test]
fn post_needs_a_board() {
    let mut state = State::new();
    assert_eq!(
        said(respond(&mut state, &board_key(), "al", "hello")),
        vec!["join a board first: /join <board>".to_string()]
    );
    assert_eq!(
        said(post(&state, &board_key(), "al", "hello")),
        vec!["join a board first: /join <board>".to_string()]
    );
}

#[test]
fn post_must_fit() {
    let mut state = State::new();
    join(&mut state, "rust");
    // Twelve bytes of framing, four for the board, two for the nickname.
    let longest = "x".repeat(450 - 18);
    assert!(matches!(
        respond(&mut state, &board_key(), "al", &longest),
        Reply::Publish { .. }
    ));
    assert_eq!(
        said(respond(&mut state, &board_key(), "al", &format!("{}x", longest))),
        vec!["message too long (max 450 bytes)".to_string()]
    );
    assert_eq!(
        said(post_at(&state, &board_key(), &"n".repeat(256), 0, "hi")),
        vec!["message too long (max 450 bytes)".to_string()]
    );
}

#[test]
fn post_is_sealed_for_the_board_on_screen() {
    let mut state = State::new();
    join(&mut state, "rust");
    let (sent, payload) = match respond_at(&mut state, &board_key(), "al", 60, "  hi all ") {
        Reply::Publish { post, payload } => (post, payload),
        _ => panic!("not published"),
    };
    assert_eq!(sent.board, "rust");
    assert_eq!(sent.nick, "al");
    assert_eq!(sent.ts, 60);
    assert_eq!(sent.text, "hi all");
    assert_eq!(payload.len(), PAYLOAD);
    let mut frame = vec![7u8; ID_SIZE];
    frame.extend_from_slice(&payload);
    let opened = open(&board_key(), &frame).unwrap();
    assert_eq!(opened.board, "rust");
    assert_eq!(opened.nick, "al");
    assert_eq!(opened.ts, 60);
    assert_eq!(opened.text, "hi all");

    // Sealing files nothing; the message id does.
    assert_eq!(join(&mut state, "rust").len(), 1);
    let shown = published(&mut state, sent, &[7u8; ID_SIZE]).unwrap();
    assert_eq!(render(&shown), "[00:01 #070707] al: hi all");
    assert!(receive(&mut state, &board_key(), &frame).is_none());
    assert_eq!(join(&mut state, "rust").len(), 2);
    let mut peer = State::new();
    join(&mut peer, "rust");
    assert_eq!(
        render(&receive(&mut peer, &board_key(), &frame).unwrap()),
        "[00:01 #070707] al: hi all"
    );
}

#[test]
fn post_carries_the_time_it_was_typed() {
    let mut state = State::new();
    join(&mut state, "rust");
    let before = std::time::SystemTime::now()
        .duration_since(std::time::UNIX_EPOCH)
        .unwrap()
        .as_secs();
    match post(&state, &board_key(), "al", "now") {
        Reply::Publish { post, .. } => assert!(before <= post.ts && post.ts <= before + 60),
        _ => panic!("not published"),
    }
    match respond(&mut state, &board_key(), "al", "now") {
        Reply::Publish { post, .. } => assert!(before <= post.ts && post.ts <= before + 60),
        _ => panic!("not published"),
    }
}

#[test]
fn commands_are_answered() {
    let mut state = State::new();
    let cipher = board_key();
    assert_eq!(
        said(respond(&mut state, &cipher, "al", "/join rust")),
        vec!["— now on #rust (0 message(s)) —".to_string()]
    );
    assert_eq!(state.current_board().unwrap(), "rust");
    assert_eq!(
        said(respond(&mut state, &cipher, "al", "/join")),
        vec!["usage: /join <board>".to_string()]
    );
    assert_eq!(state.current_board().unwrap(), "rust");
    assert_eq!(said(respond(&mut state, &cipher, "al", "/boards")), list_boards(&state));
    assert!(matches!(respond(&mut state, &cipher, "al", "/peers"), Reply::CountPeers));
    assert_eq!(said(respond(&mut state, &cipher, "al", "/help")), help());
    assert!(matches!(respond(&mut state, &cipher, "al", "/quit"), Reply::Quit));
    assert!(matches!(respond(&mut state, &cipher, "al", "/exit now"), Reply::Quit));
    assert_eq!(
        said(respond(&mut state, &cipher, "al", "/nope now")),
        vec!["unknown command: /nope (try /help)".to_string()]
    );
}

#[test]
fn published_post_is_filed_under_its_id() {
    let mut state = State::new();
    join(&mut state, "rust");
    let sent = |state: &mut State| match respond_at(state, &board_key(), "al", 60, "hi") {
        Reply::Publish { post, .. } => post,
        _ => panic!("not published"),
    };
    let p = sent(&mut state);
    assert_eq!(
        after_publish(&mut state, p, Ok(&[0xb8, 0xde, 0x5d, 0x01])),
        vec!["[00:01 #b8de5d] al: hi".to_string()]
    );
    // The same id again, and a board that is no longer on screen.
    let p = sent(&mut state);
    assert!(after_publish(&mut state, p, Ok(&[0xb8, 0xde, 0x5d, 0x01])).is_empty());
    let p = sent(&mut state);
    join(&mut state, "memes");
    assert!(after_publish(&mut state, p, Ok(&[0xb8, 0xde, 0x5d, 0x02])).is_empty());
    assert_eq!(join(&mut state, "rust").len(), 3);
}

#[test]
fn refused_publish_files_nothing() {
    let mut state = State::new();
    join(&mut state, "rust");
    let p = match respond_at(&mut state, &board_key(), "al", 60, "hi") {
        Reply::Publish { post, .. } => post,
        _ => panic!("not published"),
    };
    let before = list_boards(&state);
    assert_eq!(
        after_publish(&mut state, p, Err("outbox full")),
        vec!["could not publish: outbox full".to_string()]
    );
    assert_eq!(list_boards(&state), before);
    assert_eq!(join(&mut state, "rust").len(), 1);
}

/// What is said to lines typed one after another, up to the end of the input
/// or a reply to leave.
fn session(lines: &[&str]) -> (Vec<String>, Vec<String>) {
    let mut state = State::new();
    let mut screen: Vec<String> = vec![];
    let mut next_id = 0u8;
    for raw in lines {
        match respond_at(&mut state, &board_key(), "al", 60, raw) {
            Reply::Quiet => {}
            Reply::Say(said) => screen.extend(said),
            Reply::Publish { post, .. } => {
                next_id += 1;
                screen.extend(after_publish(&mut state, post, Ok(&[next_id; ID_SIZE])));
            }
            Reply::CountPeers => screen.push(peers_line(0)),
            Reply::Quit => break,
        }
    }
    (screen, list_boards(&state))
}

#[test]
fn quitting_is_the_end_of_the_input() {
    let before = ["/join rust", "hello", "/peers", "", "/nope"];
    let ended = session(&before);
    assert_eq!(ended.0.len(), 4);
    for quit in ["/quit", "/exit", "  /quit now, please "] {
        let mut lines = before.to_vec();
        lines.push(quit);
        assert_eq!(session(&lines), ended);
        lines.extend_from_slice(&["/join memes", "more", "/help"]);
        assert_eq!(session(&lines), ended);
    }
    let mut unknown = before.to_vec();
    unknown.extend_from_slice(&["/quitter", "more"]);
    assert_ne!(session(&unknown), ended);
}

#[test]
fn help_lists_the_commands() {
    assert_eq!(
        help(),
        vec![
            "commands:",
            "  /join <board>   enter a board (replays its history)",
            "  /boards         list known boards and message counts",
            "  /peers          how many peers are on the network",
            "  /help           this message",
            "  /quit           leave",
            "  <text>          post <text> to the current board",
        ]
    );
}

#[test]
fn peers_in_words() {
    assert_eq!(peers_line(0), "peers on the network: 0");
    assert_eq!(peers_line(12), "peers on the network: 12");
    assert_eq!(report_line(2), "[net] peers on the network: 2");
}

#[test]
fn banner_greets() {
    assert_eq!(
        banner(9000, "127.0.0.1:9001", "alice"),
        vec![
            "┌─ peaboard ───────────────────────────────────────────────┐",
            "│ a private bulletin board on the pea* stack — DEMO ONLY   │",
            "└──────────────────────────────────────────────────────────┘",
            "discovery : 127.0.0.1:9000   board : 127.0.0.1:9001",
            "nick      : alice",
            "privacy   : constant cover traffic — an observer cannot tell",
            "            a busy board from an idle one, nor which board you",
            "            are reading (the board name is encrypted too).",
            "",
            "Boards:",
            "    rust",
            "    privacy",
            "    memes",
            "",
            "Type /join <board> to enter, then just type to post. /help for more.",
            "",
        ]
    );
}

#[test]
fn ports_are_read_like_numbers() {
    for s in [
        "0", "80", "9000", "65535", "65536", "99999999999999999999", "+80", "+", "", "-1", "-0", " 80",
        "80 ", "8o", "0000000080", "+-3", "++3", "٣", "1_000",
    ] {
        assert_eq!(parse_port(s), s.parse::<u16>().ok(), "{:?}", s);
    }
}

#[test]
fn empty_command_line() {
    let args = run(&[]);
    assert_eq!(args.port, 9000);
    assert!(args.bootstrap.is_empty());
    assert_eq!(args.nick, "anon");
}

#[test]
fn options_of_the_command_line() {
    let args = run(&["--port", "9002", "--bootstrap", "127.0.0.1:9000", "--nick", "bob"]);
    assert_eq!(args.port, 9002);
    assert_eq!(args.bootstrap, vec![SocketAddress::V4 { ip: 0x7f00_0001, port: 9000 }]);
    assert_eq!(args.nick, "bob");
    let short = run(&["-p", "9004", "-n", "carol", "-b", "127.0.0.1:9002", "-b", "127.0.0.1:9000"]);
    assert_eq!(short.port, 9004);
    assert_eq!(
        short.bootstrap,
        vec![
            SocketAddress::V4 { ip: 0x7f00_0001, port: 9002 },
            SocketAddress::V4 { ip: 0x7f00_0001, port: 9000 },
        ]
    );
    assert_eq!(short.nick, "carol");
}

#[test]
fn later_options_count() {
    let args = run(&["-p", "1", "-n", "a", "-p", "2", "-n", "b"]);
    assert_eq!(args.port, 2);
    assert_eq!(args.nick, "b");
    // The last usable port, not the last word.
    assert_eq!(run(&["-p", "1", "-p", "many"]).port, 1);
    let mixed = run(&["-b", "127.0.0.1:9002", "-b", "nowhere", "-b", "127.0.0.1:9000", "-b"]);
    assert_eq!(
        mixed.bootstrap,
        vec![
            SocketAddress::V4 { ip: 0x7f00_0001, port: 9002 },
            SocketAddress::V4 { ip: 0x7f00_0001, port: 9000 },
        ]
    );
}

#[test]
fn unusable_words_are_passed_over() {
    let args = run(&["-p", "many", "-b", "nowhere", "what", "--nick"]);
    assert_eq!(args.port, 9000);
    assert!(args.bootstrap.is_empty());
    assert_eq!(args.nick, "anon");
    // An option takes the word behind it, whatever that is.
    let taken = run(&["--nick", "--help", "-p", "-n", "x"]);
    assert_eq!(taken.nick, "--help");
    assert_eq!(taken.port, 9000);
    assert_eq!(run(&["stray", "-p", "7"]).port, 7);
    assert_eq!(run(&["-p"]).port, 9000);
    assert!(run(&["-b"]).bootstrap.is_empty());
}

#[test]
fn usage_on_demand() {
    assert!(matches!(parse_args(&words(&["--help"])), Cli::Usage));
    assert!(matches!(parse_args(&words(&["-p", "1", "-h", "-n", "x"])), Cli::Usage));
    assert_eq!(
        usage(),
        vec![
            "usage: peaboard [--port P] [--bootstrap IP:PORT]... [--nick NAME]",
            "  --port P          peaveil listens on P, peasub on P+1 (default 9000)",
            "  --bootstrap A     a peer's peaveil address to enter through (repeatable)",
            "  --nick NAME       your display name (default: anon)",
        ]
    );
}

#[test]
fn overlays_of_a_node() {
    let names = overlays(9000);
    assert_eq!(names.discovery_name, "peaboard-disc-9000");
    assert_eq!(names.discovery_addr, "127.0.0.1:9000");
    assert_eq!(names.board_name, "peaboard-board-9000");
    assert_eq!(names.board_addr, "127.0.0.1:9001");
    assert_eq!(overlays(65_534).board_addr, "127.0.0.1:65535");
}
