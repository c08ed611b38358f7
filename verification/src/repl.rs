//! The command language: what a typed line means and how it is answered.

use vstd::prelude::*;
use vstd::utf8::encode_utf8;

use crate::board::{
    board_list, delivered, history, join, join_screen, joined, law_echo_is_filed_once,
    law_frame_files_post, law_join_keeps, law_shown_on_its_board_only, line_of, list_boards,
    published, received, received_line, render, rendered, seed_boards, shown, writes, State,
    StateView,
};
use crate::cipher::{drawn, Cipher, NONCE_SIZE};
use crate::clock::{clock_shows, now_secs};
use crate::numeral::{decimal, hex, law_decimal_reads_back, push_decimal};
use crate::proto::{
    fits, law_fits_by_length, opened, seal, sealed, Post, PostView, ID_SIZE, MAX_POST,
    MESSAGE_SIZE, PAYLOAD,
};
use crate::text::{
    all_white, first_word_split, law_first_word_of_line, law_trimmed, law_trimmed_of_padded,
    no_white, push_line, same_text, split_first_word, texts, tight, trim, trimmed, white,
};

verus! {

/// What a typed line asks for.
pub enum Command {
    /// Nothing: the line is blank.
    Nothing,
    /// To post the text to the board on screen.
    Post(String),
    /// To switch to a board.
    Join(String),
    /// To switch to a board, without saying which.
    JoinWhere,
    /// To list the boards.
    Boards,
    /// To count the peers.
    Peers,
    /// To list the commands.
    Help,
    /// To leave.
    Quit,
    /// Something that is no command.
    Unknown(String),
}

/// A command as a mathematical value.
pub enum CommandView {
    Nothing,
    Post(Seq<char>),
    Join(Seq<char>),
    JoinWhere,
    Boards,
    Peers,
    Help,
    Quit,
    Unknown(Seq<char>),
}

impl View for Command {
    type V = CommandView;

    open spec fn view(&self) -> CommandView {
        match self {
            Command::Nothing => CommandView::Nothing,
            Command::Post(text) => CommandView::Post(text@),
            Command::Join(board) => CommandView::Join(board@),
            Command::JoinWhere => CommandView::JoinWhere,
            Command::Boards => CommandView::Boards,
            Command::Peers => CommandView::Peers,
            Command::Help => CommandView::Help,
            Command::Quit => CommandView::Quit,
            Command::Unknown(word) => CommandView::Unknown(word@),
        }
    }
}

/// What a command word with what follows it asks for.
pub open spec fn command(word: Seq<char>, rest: Seq<char>) -> CommandView {
    if word == "join"@ {
        if rest.len() > 0 {
            CommandView::Join(rest)
        } else {
            CommandView::JoinWhere
        }
    } else if word == "boards"@ {
        CommandView::Boards
    } else if word == "peers"@ {
        CommandView::Peers
    } else if word == "help"@ {
        CommandView::Help
    } else if word == "quit"@ || word == "exit"@ {
        CommandView::Quit
    } else {
        CommandView::Unknown(word)
    }
}

/// What a typed line asks for: a slash begins a command, anything else is a
/// post.
pub open spec fn meaning(raw: Seq<char>) -> CommandView {
    let line = trimmed(raw);
    if line.len() == 0 {
        CommandView::Nothing
    } else if line.first() != '/' {
        CommandView::Post(line)
    } else {
        let (word, rest) = first_word_split(line.skip(1));
        command(word, rest)
    }
}

/// Reads a typed line.
pub fn interpret(raw: &str) -> (r: Command)
    ensures
        r@ == meaning(raw@),
{
    let line = trim(raw);
    if line.is_empty() {
        return Command::Nothing;
    }
    if line.get_char(0) != '/' {
        return Command::Post(line.to_owned());
    }
    let (word, rest) = split_first_word(line.substring_char(1, line.unicode_len()));
    if same_text(word, "join") {
        if rest.is_empty() {
            Command::JoinWhere
        } else {
            Command::Join(rest.to_owned())
        }
    } else if same_text(word, "boards") {
        Command::Boards
    } else if same_text(word, "peers") {
        Command::Peers
    } else if same_text(word, "help") {
        Command::Help
    } else if same_text(word, "quit") || same_text(word, "exit") {
        Command::Quit
    } else {
        Command::Unknown(word.to_owned())
    }
}

/// The list of commands.
pub open spec fn help_text() -> Seq<Seq<char>> {
    seq![
        "commands:"@,
        "  /join <board>   enter a board (replays its history)"@,
        "  /boards         list known boards and message counts"@,
        "  /peers          how many peers are on the network"@,
        "  /help           this message"@,
        "  /quit           leave"@,
        "  <text>          post <text> to the current board"@,
    ]
}

/// Lists the commands.
pub fn help() -> (r: Vec<String>)
    ensures
        texts(r@) == help_text(),
{
    let mut out: Vec<String> = Vec::new();
    push_line(&mut out, "commands:");
    push_line(&mut out, "  /join <board>   enter a board (replays its history)");
    push_line(&mut out, "  /boards         list known boards and message counts");
    push_line(&mut out, "  /peers          how many peers are on the network");
    push_line(&mut out, "  /help           this message");
    push_line(&mut out, "  /quit           leave");
    push_line(&mut out, "  <text>          post <text> to the current board");
    assert(texts(out@) =~= help_text());
    out
}

/// How a typed line is answered.
pub enum Reply {
    /// Not at all.
    Quiet,
    /// With these lines.
    Say(Vec<String>),
    /// By handing the payload, which seals the post, to the gossip layer.
    Publish { post: Post, payload: Vec<u8> },
    /// With the number of peers.
    CountPeers,
    /// By leaving.
    Quit,
}

/// Whether a reply says just these lines.
pub open spec fn says(reply: Reply, lines: Seq<Seq<char>>) -> bool {
    reply matches Reply::Say(said) && texts(said@) == lines
}

/// What is said to a post that does not fit.
pub open spec fn too_long_text() -> Seq<char> {
    "message too long (max "@ + decimal(MAX_POST as nat) + " bytes)"@
}

/// Whether a reply answers a post: it is turned down where no board is on
/// screen or it does not fit, and else sealed for that board under a drawn
/// nonce.
pub open spec fn answers_post(
    reply: Reply,
    s: StateView,
    key: Seq<u8>,
    nick: Seq<char>,
    now: u64,
    text: Seq<char>,
) -> bool {
    match s.current {
        None => says(reply, seq!["join a board first: /join <board>"@]),
        Some(board) => {
            let p = PostView { board, nick, ts: now, text };
            if fits(p) {
                &&& reply matches Reply::Publish { post, payload }
                &&& post@ == p
                &&& payload@.len() == PAYLOAD
                &&& drawn(payload@.subrange(0, NONCE_SIZE as int))
                &&& payload@ == sealed(key, payload@.subrange(0, NONCE_SIZE as int), p)
                &&& forall|id: Seq<u8>|
                    id.len() == ID_SIZE ==> opened(key, #[trigger] (id + payload@)) == Some(p)
            } else {
                says(reply, seq![too_long_text()])
            }
        },
    }
}

fn say(line: &str) -> (reply: Reply)
    ensures
        says(reply, seq![line@]),
{
    let mut lines: Vec<String> = Vec::new();
    push_line(&mut lines, line);
    assert(texts(lines@) =~= seq![line@]);
    Reply::Say(lines)
}

/// Seals a post, written at a given time, for the board on screen.
pub fn post_at(state: &State, cipher: &Cipher, nick: &str, now: u64, text: &str) -> (reply: Reply)
    ensures
        answers_post(reply, state@, cipher@, nick@, now, text@),
{
    let board = match state.current_board() {
        Some(board) => board,
        None => return say("join a board first: /join <board>"),
    };
    let post = Post { board, nick: nick.to_owned(), ts: now, text: text.to_owned() };
    match seal(cipher, &post) {
        Some(payload) => Reply::Publish { post, payload },
        None => {
            let mut line = String::from_str("message too long (max ");
            push_decimal(&mut line, MAX_POST as u64);
            line.append(" bytes)");
            say(line.as_str())
        },
    }
}

/// Seals a post for the board on screen, stamped with what the clock shows.
pub fn post(state: &State, cipher: &Cipher, nick: &str, text: &str) -> (reply: Reply)
    ensures
        exists|now: u64|
            clock_shows(now) && #[trigger] answers_post(
                reply,
                state@,
                cipher@,
                nick@,
                now,
                text@,
            ),
{
    let now: u64 = now_secs();
    post_at(state, cipher, nick, now, text)
}

/// The boards after a typed line: only joining a board changes them.
pub open spec fn after_line(s: StateView, raw: Seq<char>) -> StateView {
    match meaning(raw) {
        CommandView::Join(board) => joined(s, board),
        _ => s,
    }
}

/// What is said to something that is no command.
pub open spec fn unknown_text(word: Seq<char>) -> Seq<char> {
    "unknown command: /"@ + word + " (try /help)"@
}

/// Whether a reply answers a typed line.
pub open spec fn answers(
    reply: Reply,
    s: StateView,
    key: Seq<u8>,
    nick: Seq<char>,
    now: u64,
    raw: Seq<char>,
) -> bool {
    match meaning(raw) {
        CommandView::Nothing => reply is Quiet,
        CommandView::Post(text) => answers_post(reply, s, key, nick, now, text),
        CommandView::Join(board) => says(reply, join_screen(s, board)),
        CommandView::JoinWhere => says(reply, seq!["usage: /join <board>"@]),
        CommandView::Boards => says(reply, board_list(s)),
        CommandView::Peers => reply is CountPeers,
        CommandView::Help => says(reply, help_text()),
        CommandView::Quit => reply is Quit,
        CommandView::Unknown(word) => says(reply, seq![unknown_text(word)]),
    }
}

/// Answers a line typed at the time that the clock shows.
pub fn respond(state: &mut State, cipher: &Cipher, nick: &str, raw: &str) -> (reply: Reply)
    requires
        old(state).wf(),
    ensures
        final(state).wf(),
        final(state)@ == after_line(old(state)@, raw@),
        exists|now: u64|
            clock_shows(now) && #[trigger] answers(
                reply,
                old(state)@,
                cipher@,
                nick@,
                now,
                raw@,
            ),
{
    let now: u64 = now_secs();
    respond_at(state, cipher, nick, now, raw)
}

/// Answers a line typed at a given time.
pub fn respond_at(state: &mut State, cipher: &Cipher, nick: &str, now: u64, raw: &str) -> (reply:
    Reply)
    requires
        old(state).wf(),
    ensures
        final(state).wf(),
        final(state)@ == after_line(old(state)@, raw@),
        answers(reply, old(state)@, cipher@, nick@, now, raw@),
{
    match interpret(raw) {
        Command::Nothing => Reply::Quiet,
        Command::Post(text) => post_at(state, cipher, nick, now, text.as_str()),
        Command::Join(board) => Reply::Say(join(state, board.as_str())),
        Command::JoinWhere => say("usage: /join <board>"),
        Command::Boards => Reply::Say(list_boards(state)),
        Command::Peers => Reply::CountPeers,
        Command::Help => Reply::Say(help()),
        Command::Quit => Reply::Quit,
        Command::Unknown(word) => {
            let mut line = String::from_str("unknown command: /");
            line.append(word.as_str());
            line.append(" (try /help)");
            say(line.as_str())
        },
    }
}

/// The number of peers, in words.
pub open spec fn peers_text(count: nat) -> Seq<char> {
    "peers on the network: "@ + decimal(count)
}

/// Says how many peers there are.
pub fn peers_line(count: usize) -> (r: String)
    ensures
        r@ == peers_text(count as nat),
{
    let mut out = String::from_str("peers on the network: ");
    push_decimal(&mut out, count as u64);
    out
}

/// Says, unasked, how many peers there are.
pub fn report_line(count: usize) -> (r: String)
    ensures
        r@ == "[net] "@ + peers_text(count as nat),
{
    let mut out = String::from_str("[net] ");
    out.append(peers_line(count).as_str());
    out
}

/// What came of handing a payload to the gossip layer, as a mathematical
/// value: the message id, or what was wrong.
pub open spec fn outcome_view(outcome: Result<&[u8], &str>) -> Result<Seq<u8>, Seq<char>> {
    match outcome {
        Ok(id) => Ok(id@),
        Err(e) => Err(e@),
    }
}

/// The boards after a post was handed to the gossip layer: filed under its
/// message id, if it was taken.
pub open spec fn published_state(
    s: StateView,
    p: PostView,
    outcome: Result<Seq<u8>, Seq<char>>,
) -> StateView {
    match outcome {
        Ok(id) => delivered(s, p, hex(id)),
        Err(_) => s,
    }
}

/// What is said when a post was handed to the gossip layer: its line, if it
/// was taken and is to be shown, or what was wrong.
pub open spec fn published_screen(
    s: StateView,
    p: PostView,
    outcome: Result<Seq<u8>, Seq<char>>,
) -> Seq<Seq<char>> {
    match outcome {
        Ok(id) => match shown(s, p, hex(id)) {
            Some(line) => seq![rendered(line)],
            None => Seq::empty(),
        },
        Err(e) => seq!["could not publish: "@ + e],
    }
}

/// Files a post that the gossip layer took under the message id it gave, or
/// says why it did not take it.
pub fn after_publish(state: &mut State, p: Post, outcome: Result<&[u8], &str>) -> (r: Vec<String>)
    requires
        old(state).wf(),
        outcome matches Ok(id) ==> id@.len() >= 3,
    ensures
        final(state).wf(),
        final(state)@ == published_state(old(state)@, p@, outcome_view(outcome)),
        texts(r@) == published_screen(old(state)@, p@, outcome_view(outcome)),
{
    let ghost before = state@;
    let ghost post = p@;
    let mut out: Vec<String> = Vec::new();
    match outcome {
        Ok(id) => match published(state, p, id) {
            Some(line) => {
                push_line(&mut out, render(&line).as_str());
            },
            None => {},
        },
        Err(e) => {
            let mut line = String::from_str("could not publish: ");
            line.append(e);
            push_line(&mut out, line.as_str());
        },
    }
    assert(texts(out@) =~= published_screen(before, post, outcome_view(outcome)));
    out
}

/// Whether a typed line asks to leave.
pub open spec fn quits(raw: Seq<char>) -> bool {
    meaning(raw) is Quit
}

/// The lines that are heard: all before the first that asks to leave.
pub open spec fn heard(lines: Seq<Seq<char>>) -> Seq<Seq<char>>
    decreases lines.len(),
{
    if lines.len() == 0 || quits(lines.first()) {
        Seq::empty()
    } else {
        seq![lines.first()] + heard(lines.drop_first())
    }
}

/// To leave is to end the input: what is heard is what was typed before, and
/// whatever follows is not.
pub proof fn law_quit_ends_input(ls: Seq<Seq<char>>, q: Seq<char>, more: Seq<Seq<char>>)
    requires
        quits(q),
        forall|i: int| 0 <= i < ls.len() ==> !quits(#[trigger] ls[i]),
    ensures
        heard(ls + seq![q] + more) == heard(ls),
        heard(ls) == ls,
    decreases ls.len(),
{
    let all = ls + seq![q] + more;
    if ls.len() == 0 {
        assert(all.first() == q);
        assert(heard(ls) =~= ls);
    } else {
        let rest = ls.drop_first();
        assert(all.first() == ls[0]);
        assert(!quits(ls[0]));
        assert(all.drop_first() =~= rest + seq![q] + more);
        assert forall|i: int| 0 <= i < rest.len() implies !quits(#[trigger] rest[i]) by {
            assert(rest[i] == ls[i + 1]);
        }
        law_quit_ends_input(rest, q, more);
        assert(heard(ls) =~= ls);
    }
}

/// A typed line with what the world adds to it: when it is typed, what comes
/// of publishing it if it is a post, and how many peers there are.
pub struct Turn {
    pub raw: Seq<char>,
    pub now: u64,
    pub outcome: Result<Seq<u8>, Seq<char>>,
    pub peers: nat,
}

/// The lines of a series of turns.
pub open spec fn typed(turns: Seq<Turn>) -> Seq<Seq<char>> {
    turns.map_values(|turn: Turn| turn.raw)
}

/// The post that is handed to the gossip layer in a turn, if one is.
pub open spec fn turn_post(s: StateView, nick: Seq<char>, turn: Turn) -> Option<PostView> {
    match (meaning(turn.raw), s.current) {
        (CommandView::Post(text), Some(board)) => {
            let p = PostView { board, nick, ts: turn.now, text };
            if fits(p) {
                Some(p)
            } else {
                None
            }
        },
        _ => None,
    }
}

/// The boards after a turn.
pub open spec fn turn_state(s: StateView, nick: Seq<char>, turn: Turn) -> StateView {
    match turn_post(s, nick, turn) {
        Some(p) => published_state(s, p, turn.outcome),
        None => after_line(s, turn.raw),
    }
}

/// What is said in a turn.
pub open spec fn turn_screen(s: StateView, nick: Seq<char>, turn: Turn) -> Seq<Seq<char>> {
    match meaning(turn.raw) {
        CommandView::Nothing => Seq::empty(),
        CommandView::Post(_) => match turn_post(s, nick, turn) {
            Some(p) => published_screen(s, p, turn.outcome),
            None => if s.current is None {
                seq!["join a board first: /join <board>"@]
            } else {
                seq![too_long_text()]
            },
        },
        CommandView::Join(board) => join_screen(s, board),
        CommandView::JoinWhere => seq!["usage: /join <board>"@],
        CommandView::Boards => board_list(s),
        CommandView::Peers => seq![peers_text(turn.peers)],
        CommandView::Help => help_text(),
        CommandView::Quit => Seq::empty(),
        CommandView::Unknown(word) => seq![unknown_text(word)],
    }
}

/// What a turn comes to is what its reply asks for: the lines it says, the
/// payload it publishes, the peers it counts; and the one reply that ends the
/// input is the one to a line that asks to leave.
pub proof fn law_turn_follows_reply(
    reply: Reply,
    s: StateView,
    key: Seq<u8>,
    nick: Seq<char>,
    turn: Turn,
)
    requires
        answers(reply, s, key, nick, turn.now, turn.raw),
    ensures
        reply is Quit <==> quits(turn.raw),
        reply matches Reply::Say(lines) ==> texts(lines@) == turn_screen(s, nick, turn),
        reply is Quiet || reply is Quit ==> turn_screen(s, nick, turn).len() == 0,
        reply is CountPeers ==> turn_screen(s, nick, turn) == seq![peers_text(turn.peers)],
        reply matches Reply::Publish { post, payload } ==> {
            &&& turn_post(s, nick, turn) == Some(post@)
            &&& turn_state(s, nick, turn) == published_state(s, post@, turn.outcome)
            &&& turn_screen(s, nick, turn) == published_screen(s, post@, turn.outcome)
        },
        !(reply is Publish) ==> turn_post(s, nick, turn) is None && turn_state(s, nick, turn)
            == after_line(s, turn.raw),
{
}

/// What a user's session comes to.
#[verifier::ext_equal]
pub struct Session {
    /// The boards when it ends.
    pub state: StateView,
    /// What was said, line by line.
    pub screen: Seq<Seq<char>>,
    /// What was handed to the gossip layer.
    pub posts: Seq<PostView>,
}

/// The session of a user who takes these turns, one after another, until one
/// asks to leave or there are no more. What peers send meanwhile is left out.
pub open spec fn session(s: StateView, nick: Seq<char>, turns: Seq<Turn>) -> Session
    decreases turns.len(),
{
    if turns.len() == 0 || quits(turns.first().raw) {
        Session { state: s, screen: Seq::empty(), posts: Seq::empty() }
    } else {
        let turn = turns.first();
        let rest = session(turn_state(s, nick, turn), nick, turns.drop_first());
        Session {
            state: rest.state,
            screen: turn_screen(s, nick, turn) + rest.screen,
            posts: match turn_post(s, nick, turn) {
                Some(p) => seq![p] + rest.posts,
                None => rest.posts,
            },
        }
    }
}

/// Only the turns whose lines are heard count for a session.
pub proof fn law_session_hears(s: StateView, nick: Seq<char>, turns: Seq<Turn>)
    ensures
        heard(typed(turns)).len() <= turns.len(),
        session(s, nick, turns) == session(
            s,
            nick,
            turns.take(heard(typed(turns)).len() as int),
        ),
    decreases turns.len(),
{
    let lines = typed(turns);
    if turns.len() > 0 && !quits(turns.first().raw) {
        let rest = turns.drop_first();
        assert(lines.drop_first() =~= typed(rest));
        let n = heard(typed(rest)).len() as int;
        law_session_hears(turn_state(s, nick, turns.first()), nick, rest);
        assert(turns.take(n + 1).drop_first() =~= rest.take(n));
    } else {
        assert(heard(lines).len() == 0);
    }
}

/// A line that asks to leave does what the end of the input does: the boards,
/// what was said and what was published are the same, and no later line has
/// any effect.
pub proof fn law_quit_ends_session(
    s: StateView,
    nick: Seq<char>,
    ls: Seq<Turn>,
    q: Turn,
    more: Seq<Turn>,
)
    requires
        quits(q.raw),
    ensures
        session(s, nick, ls + seq![q] + more) == session(s, nick, ls),
    decreases ls.len(),
{
    let all = ls + seq![q] + more;
    if ls.len() == 0 {
        assert(all.first() == q);
    } else {
        assert(all.first() == ls[0]);
        assert(all.drop_first() =~= ls.drop_first() + seq![q] + more);
        law_quit_ends_session(turn_state(s, nick, ls[0]), nick, ls.drop_first(), q, more);
    }
}

/// White space at the two ends of a typed line means nothing.
pub proof fn law_meaning_of_trimmed(raw: Seq<char>)
    ensures
        meaning(trimmed(raw)) == meaning(raw),
{
    law_trimmed(raw);
}

/// A line is posted if it is not blank and does not begin with a slash, and
/// only then; what is posted is what was typed, without the white space at
/// its ends.
pub proof fn law_posts_what_was_typed(raw: Seq<char>)
    ensures
        meaning(raw) is Post <==> trimmed(raw).len() > 0 && trimmed(raw).first() != '/',
        meaning(raw) matches CommandView::Post(text) ==> text == trimmed(raw),
{
}

/// Whatever is typed, no line of any history and no filed id is lost, and no
/// line is added.
pub proof fn law_line_keeps(s: StateView, raw: Seq<char>, board: Seq<char>)
    ensures
        history(after_line(s, raw), board) == history(s, board),
        after_line(s, raw).seen == s.seen,
        s.logs.contains_key(board) ==> after_line(s, raw).logs.contains_key(board),
{
    if let CommandView::Join(joined_board) = meaning(raw) {
        law_join_keeps(s, joined_board, board);
    }
}

/// The life of a post. A payload that answers a typed line shows its post on
/// the author's own screen when it is filed under its new message id; behind
/// that id it files the same line at every node that has the key; and when
/// it comes back to the author it changes nothing.
pub proof fn law_life_of_a_post(
    reply: Reply,
    s: StateView,
    peer: StateView,
    key: Seq<u8>,
    nick: Seq<char>,
    now: u64,
    raw: Seq<char>,
    id: Seq<u8>,
)
    requires
        answers(reply, s, key, nick, now, raw),
        reply is Publish,
        id.len() == ID_SIZE,
        !s.seen.contains(hex(id)),
    ensures
        ({
            let p = PostView { board: s.current->0, nick, ts: now, text: trimmed(raw) };
            let frame = id + reply->payload@;
            let filed = delivered(s, p, hex(id));
            &&& reply->post@ == p
            &&& frame.len() == MESSAGE_SIZE
            &&& shown(s, p, hex(id)) == Some(line_of(p, hex(id)))
            &&& history(filed, p.board) == history(s, p.board).push(line_of(p, hex(id)))
            &&& received(peer, key, frame) == delivered(peer, p, hex(id))
            &&& received_line(peer, key, frame) == shown(peer, p, hex(id))
            &&& received(filed, key, frame) == filed
            &&& received_line(filed, key, frame) is None
        }),
{
    let p = reply->post@;
    let frame = id + reply->payload@;
    assert(opened(key, frame) == Some(p));
    law_frame_files_post(peer, p, key, id, reply->payload@);
    assert(frame.subrange(0, ID_SIZE as int) =~= id);
    law_echo_is_filed_once(s, p, key, frame);
}

/// What a node says when it starts.
pub open spec fn banner_text(port: u16, board_addr: Seq<char>, nick: Seq<char>) -> Seq<Seq<char>> {
    seq![
        "┌─ peaboard ───────────────────────────────────────────────┐"@,
        "│ a private bulletin board on the pea* stack — DEMO ONLY   │"@,
        "└──────────────────────────────────────────────────────────┘"@,
        "discovery : 127.0.0.1:"@ + decimal(port as nat) + "   board : "@ + board_addr,
        "nick      : "@ + nick,
        "privacy   : constant cover traffic — an observer cannot tell"@,
        "            a busy board from an idle one, nor which board you"@,
        "            are reading (the board name is encrypted too)."@,
        ""@,
        "Boards:"@,
        "    "@ + seed_boards()[0],
        "    "@ + seed_boards()[1],
        "    "@ + seed_boards()[2],
        ""@,
        "Type /join <board> to enter, then just type to post. /help for more."@,
        ""@,
    ]
}

/// Greets the user of a node whose discovery overlay is on `port` and whose
/// board listens at `board_addr`.
pub fn banner(port: u16, board_addr: &str, nick: &str) -> (r: Vec<String>)
    ensures
        texts(r@) == banner_text(port, board_addr@, nick@),
{
    let mut overlays = String::from_str("discovery : 127.0.0.1:");
    push_decimal(&mut overlays, port as u64);
    overlays.append("   board : ");
    overlays.append(board_addr);
    let mut user = String::from_str("nick      : ");
    user.append(nick);
    let mut rust = String::from_str("    ");
    rust.append("rust");
    let mut privacy = String::from_str("    ");
    privacy.append("privacy");
    let mut memes = String::from_str("    ");
    memes.append("memes");
    let mut out: Vec<String> = Vec::new();
    push_line(&mut out, "┌─ peaboard ───────────────────────────────────────────────┐");
    push_line(&mut out, "│ a private bulletin board on the pea* stack — DEMO ONLY   │");
    push_line(&mut out, "└──────────────────────────────────────────────────────────┘");
    push_line(&mut out, overlays.as_str());
    push_line(&mut out, user.as_str());
    push_line(&mut out, "privacy   : constant cover traffic — an observer cannot tell");
    push_line(&mut out, "            a busy board from an idle one, nor which board you");
    push_line(&mut out, "            are reading (the board name is encrypted too).");
    push_line(&mut out, "");
    push_line(&mut out, "Boards:");
    push_line(&mut out, rust.as_str());
    push_line(&mut out, privacy.as_str());
    push_line(&mut out, memes.as_str());
    push_line(&mut out, "");
    push_line(
        &mut out,
        "Type /join <board> to enter, then just type to post. /help for more.",
    );
    push_line(&mut out, "");
    assert(texts(out@) =~= banner_text(port, board_addr@, nick@));
    out
}

/// A blank line asks for nothing.
pub proof fn law_typed_blank(raw: Seq<char>)
    requires
        all_white(raw),
    ensures
        meaning(raw) is Nothing,
{
    law_trimmed_of_padded(raw, Seq::empty(), Seq::empty());
    assert(raw + Seq::<char>::empty() + Seq::<char>::empty() =~= raw);
}

/// A text that does not begin with a slash is posted whole, down to its last
/// character, whatever white space was typed around it.
pub proof fn law_typed_text(a: Seq<char>, text: Seq<char>, b: Seq<char>)
    requires
        all_white(a),
        all_white(b),
        tight(text),
        text.len() > 0,
        text.first() != '/',
    ensures
        meaning(a + text + b) == CommandView::Post(text),
{
    law_trimmed_of_padded(a, text, b);
}

/// A slash, `join`, white space and a name join the board of that name,
/// whatever the name is made of.
pub proof fn law_typed_join(a: Seq<char>, gap: Seq<char>, board: Seq<char>, b: Seq<char>)
    requires
        all_white(a),
        all_white(gap),
        gap.len() > 0,
        tight(board),
        board.len() > 0,
        all_white(b),
    ensures
        meaning(a + ("/join"@ + gap + board) + b) == CommandView::Join(board),
{
    reveal_strlit("/join");
    reveal_strlit("join");
    let line = "/join"@ + gap + board;
    let more = gap.skip(1);
    assert(line.first() == '/');
    assert(line.last() == board.last());
    law_trimmed_of_padded(a, line, b);
    assert(white(gap[0]));
    assert(line.skip(1) =~= "join"@ + seq![gap[0]] + (more + board));
    law_first_word_of_line("join"@, gap[0], more + board);
    assert forall|i: int| 0 <= i < more.len() implies white(#[trigger] more[i]) by {
        assert(more[i] == gap[i + 1]);
    }
    law_trimmed_of_padded(more, board, Seq::empty());
    assert(more + board + Seq::<char>::empty() =~= more + board);
}

/// What a slash and a word ask for, whatever white space stands around them
/// and, but for `join`, whatever follows the word.
pub proof fn law_typed_command(a: Seq<char>, word: Seq<char>, tail: Seq<char>, b: Seq<char>)
    requires
        all_white(a),
        no_white(word),
        tail.len() > 0 ==> white(tail.first()) && !white(tail.last()),
        all_white(b),
    ensures
        ({
            let asked = meaning(a + (seq!['/'] + word + tail) + b);
            &&& word == "boards"@ ==> asked is Boards
            &&& word == "peers"@ ==> asked is Peers
            &&& word == "help"@ ==> asked is Help
            &&& word == "quit"@ || word == "exit"@ ==> asked is Quit
            &&& word == "join"@ && tail.len() == 0 ==> asked is JoinWhere
            &&& word != "boards"@ && word != "peers"@ && word != "help"@ && word != "quit"@ && word
                != "exit"@ && word != "join"@ ==> asked == CommandView::Unknown(word)
        }),
{
    reveal_strlit("boards");
    reveal_strlit("peers");
    reveal_strlit("help");
    reveal_strlit("quit");
    reveal_strlit("exit");
    reveal_strlit("join");
    assert("help"@[0] == 'h' && "quit"@[0] == 'q' && "exit"@[0] == 'e' && "join"@[0] == 'j');
    let line = seq!['/'] + word + tail;
    assert(line.first() == '/');
    if tail.len() > 0 {
        assert(line.last() == tail.last());
        assert(line.skip(1) =~= word + seq![tail.first()] + tail.skip(1));
        law_first_word_of_line(word, tail.first(), tail.skip(1));
    } else {
        if word.len() > 0 {
            assert(line.last() == word[word.len() - 1]);
        }
        assert(line.skip(1) =~= word);
        law_first_word_of_line(word, ' ', Seq::empty());
    }
    law_trimmed_of_padded(a, line, b);
}

/// A reply that says lines says all of them and no others.
pub proof fn law_says(reply: Reply, lines: Seq<Seq<char>>, i: int)
    requires
        says(reply, lines),
        0 <= i < lines.len(),
    ensures
        reply matches Reply::Say(said) && said@.len() == lines.len() && said@[i]@ == lines[i],
{
    if let Reply::Say(said) = reply {
        assert(texts(said@)[i] == said@[i]@);
    }
}

/// How a post is answered: without a board on screen, and where it is too long,
/// it is turned down in so many words; everywhere else it is sealed for the
/// board on screen, with the nickname, the time and the text as given.
pub proof fn law_post_is_sealed(
    reply: Reply,
    s: StateView,
    key: Seq<u8>,
    nick: Seq<char>,
    now: u64,
    text: Seq<char>,
    id: Seq<u8>,
)
    requires
        answers_post(reply, s, key, nick, now, text),
        id.len() == 32,
    ensures
        s.current is None ==> says(reply, seq!["join a board first: /join <board>"@]),
        s.current matches Some(board) ==> {
            let room = encode_utf8(board).len() <= 255 && encode_utf8(nick).len() <= 255 && 12
                + encode_utf8(board).len() + encode_utf8(nick).len() + encode_utf8(text).len()
                <= 450;
            &&& reply is Publish <==> room
            &&& reply matches Reply::Publish { post, payload } ==> {
                &&& post.board@ == board
                &&& post.nick@ == nick
                &&& post.ts == now
                &&& post.text@ == text
                &&& payload@.len() == 480
                &&& drawn(payload@.subrange(0, 12))
                &&& opened(key, id + payload@) == Some(
                    PostView { board, nick, ts: now, text },
                )
            }
            &&& !room ==> exists|digits: Seq<char>| #[trigger]
                writes(digits, 450) && says(
                    reply,
                    seq!["message too long (max "@ + digits + " bytes)"@],
                )
        },
{
    if let Some(board) = s.current {
        let p = PostView { board, nick, ts: now, text };
        law_fits_by_length(p);
        law_decimal_reads_back(450);
        assert(writes(decimal(450), 450));
    }
}

/// How every other line is answered.
pub proof fn law_reply_by_meaning(
    reply: Reply,
    s: StateView,
    key: Seq<u8>,
    nick: Seq<char>,
    now: u64,
    raw: Seq<char>,
)
    requires
        answers(reply, s, key, nick, now, raw),
    ensures
        meaning(raw) is Nothing ==> reply is Quiet,
        meaning(raw) matches CommandView::Post(text) ==> answers_post(
            reply,
            s,
            key,
            nick,
            now,
            text,
        ),
        meaning(raw) matches CommandView::Join(board) ==> says(reply, join_screen(s, board)),
        meaning(raw) is JoinWhere ==> says(reply, seq!["usage: /join <board>"@]),
        meaning(raw) is Boards ==> says(reply, board_list(s)),
        meaning(raw) is Peers ==> reply is CountPeers,
        meaning(raw) is Help ==> says(reply, help_text()),
        meaning(raw) is Quit <==> reply is Quit,
        meaning(raw) matches CommandView::Unknown(word) ==> says(
            reply,
            seq!["unknown command: /"@ + word + " (try /help)"@],
        ),
{
}

/// Joining a board is the one thing typed that changes the boards.
pub proof fn law_only_joining_changes(s: StateView, raw: Seq<char>)
    ensures
        meaning(raw) matches CommandView::Join(board) ==> after_line(s, raw) == joined(s, board),
        !(meaning(raw) is Join) ==> after_line(s, raw) == s,
{
}

/// What comes of publishing: a post that was taken is filed under its id and
/// shown if its board is on screen and the id is new; one that was not taken
/// changes nothing, and the reason is said.
pub proof fn law_publishing(s: StateView, p: PostView, id: Seq<u8>, reason: Seq<char>)
    ensures
        published_state(s, p, Ok(id)) == delivered(s, p, hex(id)),
        published_state(s, p, Err(reason)) == s,
        published_screen(s, p, Err(reason)) == seq!["could not publish: "@ + reason],
        !s.seen.contains(hex(id)) && s.current == Some(p.board) ==> published_screen(s, p, Ok(id))
            == seq![rendered(line_of(p, hex(id)))],
        s.seen.contains(hex(id)) || s.current != Some(p.board) ==> published_screen(
            s,
            p,
            Ok(id),
        ).len() == 0,
{
    law_shown_on_its_board_only(s, p, hex(id));
}

/// The number of peers reads back.
pub proof fn law_peers_read_back(count: nat)
    ensures
        exists|digits: Seq<char>| #[trigger]
            writes(digits, count) && peers_text(count) == "peers on the network: "@ + digits,
{
    law_decimal_reads_back(count);
    assert(writes(decimal(count), count));
}

/// The greeting names the port, the board's address and the nickname whole,
/// and is else the same for every node.
pub proof fn law_banner(
    port: u16,
    board_addr: Seq<char>,
    nick: Seq<char>,
    other_port: u16,
    other_addr: Seq<char>,
    other_nick: Seq<char>,
    i: int,
)
    requires
        0 <= i < 16,
    ensures
        banner_text(port, board_addr, nick).len() == 16,
        exists|digits: Seq<char>| #[trigger]
            writes(digits, port as nat) && banner_text(port, board_addr, nick)[3]
                == "discovery : 127.0.0.1:"@ + digits + "   board : "@ + board_addr,
        banner_text(port, board_addr, nick)[4] == "nick      : "@ + nick,
        i != 3 && i != 4 ==> banner_text(port, board_addr, nick)[i] == banner_text(
            other_port,
            other_addr,
            other_nick,
        )[i],
{
    law_decimal_reads_back(port as nat);
    assert(writes(decimal(port as nat), port as nat));
}

/// A command keeps everything as a mathematical value.
pub proof fn law_command_kept(command: Command)
    ensures
        command is Nothing <==> command@ is Nothing,
        command matches Command::Post(text) ==> command@ == CommandView::Post(text@),
        command matches Command::Join(board) ==> command@ == CommandView::Join(board@),
        command is JoinWhere <==> command@ is JoinWhere,
        command is Boards <==> command@ is Boards,
        command is Peers <==> command@ is Peers,
        command is Help <==> command@ is Help,
        command is Quit <==> command@ is Quit,
        command matches Command::Unknown(word) ==> command@ == CommandView::Unknown(word@),
{
}

/// What came of publishing is kept as it is: the whole id, or the whole reason.
pub proof fn law_outcome_kept(outcome: Result<&[u8], &str>)
    ensures
        outcome matches Ok(id) ==> outcome_view(outcome) == Ok::<Seq<u8>, Seq<char>>(id@),
        outcome matches Err(e) ==> outcome_view(outcome) == Err::<Seq<u8>, Seq<char>>(e@),
{
}

/// What is said of the number of peers, asked and unasked, reads back.
pub proof fn law_peer_lines(count: usize, asked: String, unasked: String)
    requires
        call_ensures(peers_line, (count,), asked),
        call_ensures(report_line, (count,), unasked),
    ensures
        exists|digits: Seq<char>| #[trigger]
            writes(digits, count as nat) && asked@ == "peers on the network: "@ + digits,
        unasked@ == "[net] "@ + asked@,
{
    law_peers_read_back(count as nat);
}

/// What `interpret` makes of a line that is no command is the line, whole.
pub proof fn law_interpret_text(raw: &str, a: Seq<char>, text: Seq<char>, b: Seq<char>, r: Command)
    requires
        call_ensures(interpret, (raw,), r),
        raw@ == a + text + b,
        all_white(a),
        all_white(b),
        tight(text),
        text.len() > 0,
        text.first() != '/',
    ensures
        r matches Command::Post(posted) && posted@ == text,
{
    law_typed_text(a, text, b);
}

} // verus!
