//! What a node knows of its boards: which there are, what was posted on
//! each, which one is on screen, and which messages were filed already.

use vstd::hash_set::StringHashSet;
use vstd::prelude::*;
use vstd::utf8::{decode_utf8, encode_utf8, is_char_boundary};

use crate::cipher::Cipher;
use crate::clock::{clock_text, hhmm, law_clock_text};
use crate::numeral::{
    all_digits, decimal, hex, hexid, law_decimal_reads_back, lemma_hex_ascii, lemma_hex_len,
    numeral_value, push_decimal,
};
use crate::proto::{open, opened, Post, PostView, ID_SIZE};
use crate::text::{before, is_before, law_before_order, push_line, texts};

verus! {

/// How many bytes of a written message id users see.
pub const SHORT_ID: usize = 6;

/// One post as it stands in a board's history.
pub struct Line {
    /// The front of the message id.
    pub id: String,
    /// The sender's wall clock, in seconds since the epoch.
    pub ts: u64,
    pub nick: String,
    pub text: String,
}

/// A line as a mathematical value.
#[verifier::ext_equal]
pub struct LineView {
    pub id: Seq<char>,
    pub ts: u64,
    pub nick: Seq<char>,
    pub text: Seq<char>,
}

impl View for Line {
    type V = LineView;

    open spec fn view(&self) -> LineView {
        LineView { id: self.id@, ts: self.ts, nick: self.nick@, text: self.text@ }
    }
}

impl Line {
    /// A line that says the same.
    pub fn copy(&self) -> (r: Line)
        ensures
            r@ == self@,
    {
        Line {
            id: self.id.clone(),
            ts: self.ts,
            nick: self.nick.clone(),
            text: self.text.clone(),
        }
    }
}

/// Lines as mathematical values.
pub open spec fn line_views(lines: Seq<Line>) -> Seq<LineView> {
    lines.map_values(|line: Line| line@)
}

/// The line in `line`, if any, as a mathematical value.
pub open spec fn line_view(line: Option<Line>) -> Option<LineView> {
    match line {
        Some(l) => Some(l@),
        None => None,
    }
}

/// A line as users see it: `[HH:MM #id] nick: text`.
pub open spec fn rendered(line: LineView) -> Seq<char> {
    "["@ + clock_text(line.ts as nat) + " #"@ + line.id + "] "@ + line.nick + ": "@ + line.text
}

/// Renders a line as `[HH:MM #id] nick: text`.
pub fn render(line: &Line) -> (r: String)
    ensures
        r@ == rendered(line@),
{
    let mut out = String::from_str("[");
    out.append(hhmm(line.ts).as_str());
    out.append(" #");
    out.append(line.id.as_str());
    out.append("] ");
    out.append(line.nick.as_str());
    out.append(": ");
    out.append(line.text.as_str());
    out
}

struct Board {
    name: String,
    log: Vec<Line>,
}

/// The boards of a node.
pub struct State {
    current: Option<String>,
    boards: Vec<Board>,
    seen: StringHashSet,
}

/// The boards of a node as a mathematical value.
#[verifier::ext_equal]
pub struct StateView {
    /// The board on screen, if any.
    pub current: Option<Seq<char>>,
    /// Every known board with its history, oldest line first.
    pub logs: Map<Seq<char>, Seq<LineView>>,
    /// The full ids of the messages that were filed.
    pub seen: Set<Seq<char>>,
}

/// What was posted on a board; nothing, if the board is not known.
pub open spec fn history(s: StateView, board: Seq<char>) -> Seq<LineView> {
    if s.logs.contains_key(board) {
        s.logs[board]
    } else {
        Seq::empty()
    }
}

/// Whether an id has a front to show.
pub open spec fn shortenable(id: Seq<char>) -> bool {
    is_char_boundary(encode_utf8(id), SHORT_ID as int)
}

/// The front of an id.
pub open spec fn short_id(id: Seq<char>) -> Seq<char> {
    decode_utf8(encode_utf8(id).subrange(0, SHORT_ID as int))
}

/// The line that a post with this id becomes.
pub open spec fn line_of(p: PostView, id: Seq<char>) -> LineView {
    LineView { id: short_id(id), ts: p.ts, nick: p.nick, text: p.text }
}

/// The boards after a post with this id came in: its line stands at the end
/// of its board's history, unless the id was filed before.
pub open spec fn delivered(s: StateView, p: PostView, id: Seq<char>) -> StateView {
    if s.seen.contains(id) {
        s
    } else {
        StateView {
            current: s.current,
            logs: s.logs.insert(p.board, history(s, p.board).push(line_of(p, id))),
            seen: s.seen.insert(id),
        }
    }
}

/// What a post with this id puts on screen: its line, if it is new and its
/// board is on screen.
pub open spec fn shown(s: StateView, p: PostView, id: Seq<char>) -> Option<LineView> {
    if !s.seen.contains(id) && s.current == Some(p.board) {
        Some(line_of(p, id))
    } else {
        None
    }
}

/// The boards after switching to one of them.
pub open spec fn joined(s: StateView, board: Seq<char>) -> StateView {
    StateView {
        current: Some(board),
        logs: s.logs.insert(board, history(s, board)),
        seen: s.seen,
    }
}

impl View for State {
    type V = StateView;

    closed spec fn view(&self) -> StateView {
        StateView {
            current: match self.current {
                Some(board) => Some(board@),
                None => None,
            },
            logs: logs_of(self.boards@),
            seen: self.seen@,
        }
    }
}

spec fn index_of(boards: Seq<Board>, name: Seq<char>) -> int {
    choose|i: int| 0 <= i < boards.len() && (#[trigger] boards[i]).name@ == name
}

spec fn known(boards: Seq<Board>, name: Seq<char>) -> bool {
    exists|i: int| 0 <= i < boards.len() && (#[trigger] boards[i]).name@ == name
}

spec fn logs_of(boards: Seq<Board>) -> Map<Seq<char>, Seq<LineView>> {
    Map::new(
        |name: Seq<char>| known(boards, name),
        |name: Seq<char>| line_views(boards[index_of(boards, name)].log@),
    )
}

spec fn ascending(boards: Seq<Board>) -> bool {
    forall|i: int, j: int|
        #![trigger boards[i], boards[j]]
        0 <= i < j < boards.len() ==> before(boards[i].name@, boards[j].name@)
}

proof fn lemma_index_of(boards: Seq<Board>, i: int)
    requires
        ascending(boards),
        0 <= i < boards.len(),
    ensures
        index_of(boards, boards[i].name@) == i,
{
    let name = boards[i].name@;
    let k = index_of(boards, name);
    assert(0 <= k < boards.len() && boards[k].name@ == name);
    law_before_order(name, name, name);
}

/// Where a board that is not known has to go.
spec fn gap(boards: Seq<Board>, at: int, name: Seq<char>) -> bool {
    &&& 0 <= at <= boards.len()
    &&& forall|j: int| 0 <= j < at ==> before((#[trigger] boards[j]).name@, name)
    &&& forall|j: int| at <= j < boards.len() ==> before(name, (#[trigger] boards[j]).name@)
}

proof fn lemma_gap_not_known(boards: Seq<Board>, at: int, name: Seq<char>)
    requires
        gap(boards, at, name),
    ensures
        !known(boards, name),
{
    if known(boards, name) {
        let i = index_of(boards, name);
        assert(0 <= i < boards.len() && boards[i].name@ == name);
        law_before_order(name, name, name);
        if i < at {
            assert(before(boards[i].name@, name));
        } else {
            assert(before(name, boards[i].name@));
        }
    }
}

/// A new board in its gap leaves the others as they are.
proof fn lemma_insert_board(boards: Seq<Board>, at: int, board: Board)
    requires
        ascending(boards),
        gap(boards, at, board.name@),
    ensures
        ascending(boards.insert(at, board)),
        logs_of(boards.insert(at, board)) == logs_of(boards).insert(
            board.name@,
            line_views(board.log@),
        ),
{
    let after = boards.insert(at, board);
    assert forall|i: int, j: int|
        #![trigger after[i], after[j]]
        0 <= i < j < after.len() implies before(after[i].name@, after[j].name@) by {
        let a = if i < at { i } else { i - 1 };
        let b = if j < at { j } else { j - 1 };
        if i == at {
            assert(before(board.name@, boards[b].name@));
        } else if j == at {
            assert(before(boards[a].name@, board.name@));
        } else {
            assert(before(boards[a].name@, boards[b].name@));
        }
    }
    let left = logs_of(after);
    let right = logs_of(boards).insert(board.name@, line_views(board.log@));
    assert forall|name: Seq<char>|
        #![trigger left.dom().contains(name)]
        left.dom().contains(name) == right.dom().contains(name) && (left.dom().contains(name)
            ==> left[name] == right[name]) by {
        if known(after, name) {
            let i = index_of(after, name);
            assert(0 <= i < after.len() && after[i].name@ == name);
            if i != at {
                let a = if i < at { i } else { i - 1 };
                assert(boards[a] == after[i]);
                lemma_index_of(boards, a);
                lemma_gap_not_known(boards, at, board.name@);
                assert(name != board.name@);
            }
        }
        if known(boards, name) {
            let a = index_of(boards, name);
            assert(0 <= a < boards.len() && boards[a].name@ == name);
            let i = if a < at { a } else { a + 1 };
            assert(after[i] == boards[a]);
        }
        if name == board.name@ {
            assert(after[at].name@ == name);
            lemma_index_of(after, at);
        }
    }
    assert(left =~= right);
}

/// A board with another history leaves the others as they are.
proof fn lemma_update_board(boards: Seq<Board>, at: int, board: Board)
    requires
        ascending(boards),
        0 <= at < boards.len(),
        board.name@ == boards[at].name@,
    ensures
        ascending(boards.update(at, board)),
        logs_of(boards.update(at, board)) == logs_of(boards).insert(
            board.name@,
            line_views(board.log@),
        ),
{
    let after = boards.update(at, board);
    assert forall|i: int, j: int|
        #![trigger after[i], after[j]]
        0 <= i < j < after.len() implies before(after[i].name@, after[j].name@) by {
        assert(before(boards[i].name@, boards[j].name@));
    }
    let left = logs_of(after);
    let right = logs_of(boards).insert(board.name@, line_views(board.log@));
    assert forall|name: Seq<char>|
        #![trigger left.dom().contains(name)]
        left.dom().contains(name) == right.dom().contains(name) && (left.dom().contains(name)
            ==> left[name] == right[name]) by {
        if known(after, name) {
            let i = index_of(after, name);
            assert(0 <= i < after.len() && after[i].name@ == name);
            assert(boards[i].name@ == name);
            lemma_index_of(boards, i);
            lemma_index_of(after, i);
            lemma_index_of(boards, at);
        }
        if known(boards, name) {
            let a = index_of(boards, name);
            assert(0 <= a < boards.len() && boards[a].name@ == name);
            assert(after[a].name@ == name);
        }
        if name == board.name@ {
            assert(after[at].name@ == name);
            lemma_index_of(after, at);
        }
    }
    assert(left =~= right);
}

impl State {
    /// Whether the boards stand in order, each of them once.
    pub closed spec fn wf(&self) -> bool {
        ascending(self.boards@)
    }

    /// Where a board stands, or has to go.
    fn find(&self, name: &str) -> (r: Result<usize, usize>)
        requires
            self.wf(),
        ensures
            r matches Ok(i) ==> i < self.boards@.len() && self.boards@[i as int].name@ == name@,
            r matches Err(i) ==> gap(self.boards@, i as int, name@),
    {
        let mut lo: usize = 0;
        let mut hi: usize = self.boards.len();
        while lo < hi
            invariant
                self.wf(),
                lo <= hi <= self.boards@.len(),
                forall|j: int| 0 <= j < lo ==> before((#[trigger] self.boards@[j]).name@, name@),
                forall|j: int|
                    hi <= j < self.boards@.len() ==> before(
                        name@,
                        (#[trigger] self.boards@[j]).name@,
                    ),
            decreases hi - lo,
        {
            let mid: usize = lo + (hi - lo) / 2;
            let ghost here = self.boards@[mid as int].name@;
            if is_before(self.boards[mid].name.as_str(), name) {
                assert forall|j: int| 0 <= j < mid + 1 implies before(
                    (#[trigger] self.boards@[j]).name@,
                    name@,
                ) by {
                    if j < mid {
                        law_before_order(self.boards@[j].name@, here, name@);
                    }
                }
                lo = mid + 1;
            } else if is_before(name, self.boards[mid].name.as_str()) {
                assert forall|j: int| mid <= j < self.boards@.len() implies before(
                    name@,
                    (#[trigger] self.boards@[j]).name@,
                ) by {
                    if mid < j {
                        law_before_order(name@, here, self.boards@[j].name@);
                    }
                }
                hi = mid;
            } else {
                proof {
                    law_before_order(here, name@, name@);
                }
                return Ok(mid);
            }
        }
        Err(lo)
    }

    /// Makes a board known, and says where it stands.
    fn ensure(&mut self, name: &str) -> (at: usize)
        requires
            old(self).wf(),
        ensures
            final(self).wf(),
            at < final(self).boards@.len(),
            final(self).boards@[at as int].name@ == name@,
            line_views(final(self).boards@[at as int].log@) == history(old(self)@, name@),
            final(self)@.current == old(self)@.current,
            final(self)@.logs == old(self)@.logs.insert(name@, history(old(self)@, name@)),
            final(self)@.seen == old(self)@.seen,
    {
        match self.find(name) {
            Ok(at) => {
                proof {
                    lemma_index_of(self.boards@, at as int);
                    assert(known(self.boards@, name@));
                    assert(self@.logs.insert(name@, history(self@, name@)) =~= self@.logs);
                }
                at
            },
            Err(at) => {
                let board = Board { name: name.to_owned(), log: Vec::new() };
                proof {
                    lemma_gap_not_known(self.boards@, at as int, name@);
                    lemma_insert_board(self.boards@, at as int, board);
                    assert(line_views(board.log@) =~= Seq::<LineView>::empty());
                }
                self.boards.insert(at, board);
                at
            },
        }
    }
}

/// The front of an id, as users see it.
fn shorten(id: &str) -> (r: String)
    requires
        shortenable(id@),
    ensures
        r@ == short_id(id@),
{
    let (front, rest) = id.split_at(SHORT_ID);
    proof {
        vstd::utf8::encode_utf8_decode_utf8(front@);
    }
    front.to_owned()
}

/// Files a post under its board and hands back its line if that board is on
/// screen. A message id is filed once: a second post under it changes
/// nothing.
pub fn deliver(state: &mut State, p: Post, id: String) -> (r: Option<Line>)
    requires
        old(state).wf(),
        !old(state)@.seen.contains(id@) ==> shortenable(id@),
    ensures
        final(state).wf(),
        final(state)@ == delivered(old(state)@, p@, id@),
        line_view(r) == shown(old(state)@, p@, id@),
        r is Some <==> !old(state)@.seen.contains(id@) && old(state)@.current == Some(p.board@),
        r matches Some(line) ==> {
            &&& line.ts == p.ts
            &&& line.nick@ == p.nick@
            &&& line.text@ == p.text@
            &&& encode_utf8(line.id@) == encode_utf8(id@).subrange(0, 6)
        },
{
    proof {
        if shortenable(id@) {
            law_line_of_post(p@, id@);
        }
    }
    let ghost before = state@;
    if !state.seen.insert(id.clone()) {
        assert(state@ =~= before);
        return None;
    }
    let line = Line { id: shorten(id.as_str()), ts: p.ts, nick: p.nick, text: p.text };
    let showing = match &state.current {
        Some(current) => *current == p.board,
        None => false,
    };
    let at = state.ensure(p.board.as_str());
    let ghost boards = state.boards@;
    let copy = line.copy();
    state.boards[at].log.push(line);
    proof {
        lemma_update_board(boards, at as int, state.boards@[at as int]);
        assert(state.boards@ =~= boards.update(at as int, state.boards@[at as int]));
        assert(line_views(state.boards@[at as int].log@) =~= history(before, p@.board).push(
            line_of(p@, id@),
        ));
        assert(state@ =~= delivered(before, p@, id@));
    }
    if showing {
        Some(copy)
    } else {
        None
    }
}

/// The boards that a node knows from the start.
pub open spec fn seed_boards() -> Seq<Seq<char>> {
    seq!["rust"@, "privacy"@, "memes"@]
}

/// The boards of a node that has just started.
pub open spec fn fresh() -> StateView {
    StateView {
        current: None,
        logs: Map::new(
            |board: Seq<char>| seed_boards().contains(board),
            |board: Seq<char>| Seq::empty(),
        ),
        seen: Set::empty(),
    }
}

impl State {
    /// The boards of a node that has just started.
    pub fn new() -> (state: State)
        ensures
            state.wf(),
            state@ == fresh(),
    {
        let mut state = State { current: None, boards: Vec::new(), seen: StringHashSet::new() };
        assert(state@.logs =~= Map::empty());
        state.ensure("rust");
        state.ensure("privacy");
        state.ensure("memes");
        proof {
            let seeds = seed_boards();
            assert(seeds[0] == "rust"@ && seeds[1] == "privacy"@ && seeds[2] == "memes"@);
            assert(state@ =~= fresh());
        }
        state
    }
}

impl State {
    /// The board on screen.
    pub fn current_board(&self) -> (r: Option<String>)
        ensures
            self@.current == (match r {
                Some(board) => Some(board@),
                None => None,
            }),
    {
        match &self.current {
            Some(board) => Some(board.clone()),
            None => None,
        }
    }
}

/// Whether names stand in order, each of them once.
pub open spec fn in_order(names: Seq<Seq<char>>) -> bool {
    forall|i: int, j: int|
        #![trigger names[i], names[j]]
        0 <= i < j < names.len() ==> before(names[i], names[j])
}

/// The names of the known boards, in order.
pub open spec fn board_names(s: StateView) -> Seq<Seq<char>> {
    choose|names: Seq<Seq<char>>| in_order(names) && #[trigger] names.to_set() == s.logs.dom()
}

/// There is one way to put names in order.
pub proof fn law_in_order_unique(a: Seq<Seq<char>>, b: Seq<Seq<char>>)
    requires
        in_order(a),
        in_order(b),
        a.to_set() == b.to_set(),
    ensures
        a == b,
    decreases a.len(),
{
    assert forall|x: Seq<char>| a.contains(x) == b.contains(x) by {
        assert(a.to_set().contains(x) == a.contains(x));
        assert(b.to_set().contains(x) == b.contains(x));
    }
    if a.len() == 0 {
        if b.len() > 0 {
            assert(b.contains(b[0]));
        }
        assert(a =~= b);
    } else {
        assert(a.contains(a[0]));
        assert(b.len() > 0);
        let x = a.last();
        let y = b.last();
        assert(a.contains(x) && b.contains(y));
        let i = choose|i: int| 0 <= i < a.len() && a[i] == y;
        let j = choose|j: int| 0 <= j < b.len() && b[j] == x;
        law_before_order(x, y, x);
        law_before_order(y, x, y);
        if x != y {
            assert(before(a[i], a[a.len() - 1]));
            assert(before(b[j], b[b.len() - 1]));
        }
        let c = a.drop_last();
        let d = b.drop_last();
        assert forall|z: Seq<char>| c.to_set().contains(z) == d.to_set().contains(z) by {
            lemma_drop_last_contains(a, z);
            lemma_drop_last_contains(b, z);
        }
        assert(c.to_set() =~= d.to_set());
        law_in_order_unique(c, d);
        assert(a =~= c.push(x));
        assert(b =~= d.push(y));
    }
}

proof fn lemma_drop_last_contains(names: Seq<Seq<char>>, z: Seq<char>)
    requires
        in_order(names),
        names.len() > 0,
    ensures
        names.drop_last().contains(z) <==> names.contains(z) && z != names.last(),
{
    let front = names.drop_last();
    if front.contains(z) {
        let i = choose|i: int| 0 <= i < front.len() && front[i] == z;
        assert(names[i] == z);
        assert(before(names[i], names[names.len() - 1]));
        law_before_order(z, z, z);
    }
    if names.contains(z) && z != names.last() {
        let i = choose|i: int| 0 <= i < names.len() && names[i] == z;
        assert(front[i] == z);
    }
}

/// A board as it is listed: its name, how many lines it holds, and a star if
/// it is on screen.
pub open spec fn board_entry(s: StateView, board: Seq<char>) -> Seq<char> {
    let entry = "    "@ + board + "  ("@ + decimal(history(s, board).len()) + ")"@;
    if s.current == Some(board) {
        entry + " *"@
    } else {
        entry
    }
}

/// The list of boards.
pub open spec fn board_list(s: StateView) -> Seq<Seq<char>> {
    seq!["Boards:"@] + board_names(s).map_values(|board: Seq<char>| board_entry(s, board))
}

/// Lists the known boards with their message counts, in order; marks the one
/// on screen.
pub fn list_boards(state: &State) -> (r: Vec<String>)
    requires
        state.wf(),
    ensures
        texts(r@) == board_list(state@),
        in_order(board_names(state@)),
        board_names(state@).to_set() == state@.logs.dom(),
        exists|names: Seq<Seq<char>>|
            {
                &&& #[trigger] names.to_set() == state@.logs.dom()
                &&& forall|i: int, j: int|
                    #![trigger names[i], names[j]]
                    0 <= i < j < names.len() ==> before(names[i], names[j])
                &&& r@.len() == names.len() + 1
                &&& r@[0]@ == "Boards:"@
                &&& forall|i: int|
                    0 <= i < names.len() ==> r@[i + 1]@ == board_entry(state@, #[trigger] names[i])
            },
{
    let ghost names = state.boards@.map_values(|b: Board| b.name@);
    let ghost s = state@;
    proof {
        assert forall|i: int, j: int|
            #![trigger names[i], names[j]]
            0 <= i < j < names.len() implies before(names[i], names[j]) by {
            assert(before(state.boards@[i].name@, state.boards@[j].name@));
        }
        assert forall|n: Seq<char>| names.to_set().contains(n) == s.logs.dom().contains(n) by {
            if names.contains(n) {
                let i = choose|i: int| 0 <= i < names.len() && names[i] == n;
                assert(state.boards@[i].name@ == n);
            }
            if known(state.boards@, n) {
                let i = index_of(state.boards@, n);
                assert(0 <= i < state.boards@.len() && state.boards@[i].name@ == n);
                assert(names[i] == n);
            }
        }
        assert(names.to_set() =~= s.logs.dom());
        law_in_order_unique(names, board_names(s));
    }
    let mut out: Vec<String> = Vec::new();
    push_line(&mut out, "Boards:");
    let mut i: usize = 0;
    assert(names.take(0).map_values(|board: Seq<char>| board_entry(s, board)) =~= Seq::empty());
    assert(texts(out@) =~= seq!["Boards:"@]);
    while i < state.boards.len()
        invariant
            state.wf(),
            s == state@,
            names == state.boards@.map_values(|b: Board| b.name@),
            i <= state.boards@.len(),
            texts(out@) == seq!["Boards:"@] + names.take(i as int).map_values(
                |board: Seq<char>| board_entry(s, board),
            ),
        decreases state.boards@.len() - i,
    {
        let board = &state.boards[i];
        proof {
            lemma_index_of(state.boards@, i as int);
            assert(known(state.boards@, board.name@));
        }
        let mut entry = String::from_str("    ");
        entry.append(board.name.as_str());
        entry.append("  (");
        push_decimal(&mut entry, board.log.len() as u64);
        entry.append(")");
        let marked = match &state.current {
            Some(current) => *current == board.name,
            None => false,
        };
        if marked {
            entry.append(" *");
        }
        let ghost lines = texts(out@);
        push_line(&mut out, entry.as_str());
        proof {
            assert(names.take(i + 1) =~= names.take(i as int).push(board.name@));
            assert(texts(out@) =~= seq!["Boards:"@] + names.take(i + 1).map_values(
                |board: Seq<char>| board_entry(s, board),
            ));
        }
        i = i + 1;
    }
    assert(names.take(i as int) =~= names);
    proof {
        let lines = texts(out@);
        assert(lines.len() == out@.len());
        assert(out@[0]@ == lines[0]);
        assert forall|k: int| 0 <= k < names.len() implies out@[k + 1]@ == board_entry(
            s,
            #[trigger] names[k],
        ) by {
            assert(out@[k + 1]@ == lines[k + 1]);
        }
    }
    out
}

/// What is said on switching to a board: how much was posted there, and all
/// of it.
pub open spec fn join_screen(s: StateView, board: Seq<char>) -> Seq<Seq<char>> {
    seq![
        "— now on #"@ + board + " ("@ + decimal(history(s, board).len()) + " message(s)) —"@,
    ] + history(s, board).map_values(|line: LineView| rendered(line))
}

/// Switches to a board and replays its history.
pub fn join(state: &mut State, board: &str) -> (r: Vec<String>)
    requires
        old(state).wf(),
    ensures
        final(state).wf(),
        final(state)@ == joined(old(state)@, board@),
        texts(r@) == join_screen(old(state)@, board@),
        final(state)@.current == Some(board@),
        final(state)@.seen == old(state)@.seen,
        r@.len() == held(old(state)@, board@) + 1,
        forall|i: int|
            0 <= i < held(old(state)@, board@) ==> (#[trigger] r@[i + 1])@ == rendered(
                old(state)@.logs[board@][i],
            ),
{
    let ghost before = state@;
    let at = state.ensure(board);
    state.current = Some(board.to_owned());
    assert(state@ =~= joined(before, board@));
    let log = &state.boards[at].log;
    let ghost backlog = line_views(log@);
    let mut header = String::from_str("— now on #");
    header.append(board);
    header.append(" (");
    push_decimal(&mut header, log.len() as u64);
    header.append(" message(s)) —");
    let ghost top = header@;
    let mut out: Vec<String> = Vec::new();
    push_line(&mut out, header.as_str());
    let mut i: usize = 0;
    assert(texts(out@) =~= seq![top] + backlog.take(0).map_values(
        |line: LineView| rendered(line),
    ));
    while i < log.len()
        invariant
            i <= log@.len(),
            backlog == line_views(log@),
            texts(out@) == seq![top] + backlog.take(i as int).map_values(
                |line: LineView| rendered(line),
            ),
        decreases log@.len() - i,
    {
        let line = render(&log[i]);
        push_line(&mut out, line.as_str());
        proof {
            assert(backlog.take(i + 1) =~= backlog.take(i as int).push(log@[i as int]@));
            assert(texts(out@) =~= seq![top] + backlog.take(i + 1).map_values(
                |line: LineView| rendered(line),
            ));
        }
        i = i + 1;
    }
    assert(backlog.take(i as int) =~= backlog);
    proof {
        let lines = texts(out@);
        assert(lines.len() == out@.len());
        assert forall|k: int| 0 <= k < held(before, board@) implies (#[trigger] out@[k + 1])@
            == rendered(before.logs[board@][k]) by {
            assert(out@[k + 1]@ == lines[k + 1]);
        }
    }
    out
}

/// A message id that is written in base sixteen has a front to show, and
/// that front is its first six digits.
pub proof fn law_short_hex(id: Seq<u8>)
    requires
        id.len() >= 3,
    ensures
        shortenable(hex(id)),
        short_id(hex(id)) == hex(id).take(SHORT_ID as int),
{
    let chars = hex(id);
    let bytes = encode_utf8(chars);
    lemma_hex_len(id);
    lemma_hex_ascii(id);
    vstd::utf8::is_ascii_chars_encode_utf8(chars);
    vstd::utf8::encode_utf8_valid_utf8(chars);
    let front = chars.take(SHORT_ID as int);
    vstd::utf8::is_ascii_chars_encode_utf8(front);
    vstd::utf8::encode_utf8_decode_utf8(front);
    assert(encode_utf8(front) =~= bytes.subrange(0, SHORT_ID as int));
    if bytes.len() == SHORT_ID {
        vstd::utf8::is_char_boundary_start_end_of_seq(bytes);
    } else {
        vstd::utf8::is_char_boundary_iff_not_is_continuation_byte(bytes, SHORT_ID as int);
        assert(bytes[SHORT_ID as int] == chars[SHORT_ID as int] as u8);
        assert(bytes[SHORT_ID as int] < 0x80);
    }
}

/// Files a post of one's own under the id that the gossip layer gave it.
pub fn published(state: &mut State, p: Post, id: &[u8]) -> (r: Option<Line>)
    requires
        old(state).wf(),
        id@.len() >= 3,
    ensures
        final(state).wf(),
        final(state)@ == delivered(old(state)@, p@, hex(id@)),
        line_view(r) == shown(old(state)@, p@, hex(id@)),
{
    proof {
        law_short_hex(id@);
    }
    deliver(state, p, hexid(id))
}

/// Opens a frame that came in and files the post in it. A frame that does
/// not open changes nothing.
pub fn receive(state: &mut State, cipher: &Cipher, frame: &[u8]) -> (r: Option<Line>)
    requires
        old(state).wf(),
    ensures
        final(state).wf(),
        final(state)@ == received(old(state)@, cipher@, frame@),
        line_view(r) == received_line(old(state)@, cipher@, frame@),
{
    match open(cipher, frame) {
        Some(p) => published(state, p, vstd::slice::slice_subrange(frame, 0, ID_SIZE)),
        None => None,
    }
}

/// The id of a frame.
pub open spec fn frame_id(frame: Seq<u8>) -> Seq<char> {
    hex(frame.subrange(0, ID_SIZE as int))
}

/// The boards after a frame came in.
pub open spec fn received(s: StateView, key: Seq<u8>, frame: Seq<u8>) -> StateView {
    match opened(key, frame) {
        Some(p) => delivered(s, p, frame_id(frame)),
        None => s,
    }
}

/// What a frame puts on screen.
pub open spec fn received_line(s: StateView, key: Seq<u8>, frame: Seq<u8>) -> Option<LineView> {
    match opened(key, frame) {
        Some(p) => shown(s, p, frame_id(frame)),
        None => None,
    }
}

/// A message id is filed once: whatever comes in under it again changes
/// nothing and shows nothing.
pub proof fn law_deliver_once(s: StateView, p: PostView, q: PostView, id: Seq<char>)
    ensures
        delivered(delivered(s, p, id), q, id) == delivered(s, p, id),
        shown(delivered(s, p, id), q, id) is None,
{
}

/// A new post adds its line to the end of its own board's history and leaves
/// the other histories, and what is on screen, as they are.
pub proof fn law_deliver_appends(s: StateView, p: PostView, id: Seq<char>, other: Seq<char>)
    requires
        !s.seen.contains(id),
        other != p.board,
    ensures
        history(delivered(s, p, id), p.board) == history(s, p.board).push(line_of(p, id)),
        history(delivered(s, p, id), other) == history(s, other),
        delivered(s, p, id).logs.contains_key(other) == s.logs.contains_key(other),
        delivered(s, p, id).current == s.current,
{
}

/// No post takes away a board, a line or a filed id.
pub proof fn law_deliver_keeps(s: StateView, p: PostView, id: Seq<char>, board: Seq<char>)
    ensures
        s.logs.contains_key(board) ==> delivered(s, p, id).logs.contains_key(board),
        history(s, board).is_prefix_of(history(delivered(s, p, id), board)),
        s.seen.subset_of(delivered(s, p, id).seen),
{
}

/// Switching boards touches no history and no filed id, and adds no board
/// but the one switched to.
pub proof fn law_join_keeps(s: StateView, board: Seq<char>, other: Seq<char>)
    ensures
        joined(s, board).current == Some(board),
        history(joined(s, board), other) == history(s, other),
        joined(s, board).logs.contains_key(other) <==> s.logs.contains_key(other) || other == board,
        joined(s, board).seen == s.seen,
        join_screen(joined(s, board), board) == join_screen(s, board),
{
}

/// Once filed, a post is the last thing that its board replays.
pub proof fn law_join_replays(s: StateView, p: PostView, id: Seq<char>)
    requires
        !s.seen.contains(id),
    ensures
        join_screen(delivered(s, p, id), p.board).len() == join_screen(s, p.board).len() + 1,
        join_screen(delivered(s, p, id), p.board).last() == rendered(line_of(p, id)),
        join_screen(delivered(s, p, id), p.board).drop_last().skip(1) == join_screen(
            s,
            p.board,
        ).skip(1),
{
    let after = delivered(s, p, id);
    assert(history(after, p.board) == history(s, p.board).push(line_of(p, id)));
    assert(join_screen(after, p.board).drop_last().skip(1) =~= join_screen(s, p.board).skip(1));
}

/// A post of one's own that a peer relays back is not filed again.
pub proof fn law_echo_is_filed_once(s: StateView, p: PostView, key: Seq<u8>, frame: Seq<u8>)
    requires
        opened(key, frame) == Some(p),
    ensures
        received(delivered(s, p, frame_id(frame)), key, frame) == delivered(s, p, frame_id(frame)),
        received_line(delivered(s, p, frame_id(frame)), key, frame) is None,
{
}

/// The frame of a sealed post files at every node that has the key what it
/// filed at the node that published it.
pub proof fn law_frame_files_post(
    s: StateView,
    p: PostView,
    key: Seq<u8>,
    id: Seq<u8>,
    payload: Seq<u8>,
)
    requires
        id.len() == ID_SIZE,
        opened(key, id + payload) == Some(p),
    ensures
        received(s, key, id + payload) == delivered(s, p, hex(id)),
        received_line(s, key, id + payload) == shown(s, p, hex(id)),
{
    assert((id + payload).subrange(0, ID_SIZE as int) =~= id);
}

/// What can happen to the boards of a node.
pub enum Change {
    /// A post comes in under an id, from the user or from a peer.
    Delivery(PostView, Seq<char>),
    /// The user switches to a board.
    Switch(Seq<char>),
}

/// The boards after a change.
pub open spec fn changed(s: StateView, change: Change) -> StateView {
    match change {
        Change::Delivery(p, id) => delivered(s, p, id),
        Change::Switch(board) => joined(s, board),
    }
}

/// The boards after a series of changes.
pub open spec fn after(s: StateView, changes: Seq<Change>) -> StateView
    decreases changes.len(),
{
    if changes.len() == 0 {
        s
    } else {
        after(changed(s, changes.first()), changes.drop_first())
    }
}

/// What is filed is filed for good: whatever happens later, no board, no line
/// and no filed id is lost, histories only grow at their end, and a post
/// under a filed id is never filed or shown again.
pub proof fn law_filed_for_good(s: StateView, changes: Seq<Change>)
    ensures
        forall|board: Seq<char>| #[trigger]
            s.logs.contains_key(board) ==> after(s, changes).logs.contains_key(board),
        forall|board: Seq<char>|
            history(s, board).is_prefix_of(#[trigger] history(after(s, changes), board)),
        s.seen.subset_of(after(s, changes).seen),
        forall|p: PostView, id: Seq<char>|
            s.seen.contains(id) ==> #[trigger] delivered(after(s, changes), p, id) == after(
                s,
                changes,
            ),
        forall|p: PostView, id: Seq<char>|
            s.seen.contains(id) ==> #[trigger] shown(after(s, changes), p, id) is None,
    decreases changes.len(),
{
    if changes.len() > 0 {
        let next = changed(s, changes.first());
        law_filed_for_good(next, changes.drop_first());
        assert forall|board: Seq<char>| history(s, board).is_prefix_of(
            #[trigger] history(after(s, changes), board),
        ) by {
            assert(history(s, board).is_prefix_of(history(next, board)));
            assert(history(next, board).is_prefix_of(history(after(s, changes), board)));
        }
        assert forall|board: Seq<char>| #[trigger]
            s.logs.contains_key(board) implies after(s, changes).logs.contains_key(board) by {
            assert(next.logs.contains_key(board));
        }
    }
}

/// If the board on screen is a known one, or there is none, it stays so.
pub proof fn law_current_is_known(s: StateView, changes: Seq<Change>)
    requires
        s.current matches Some(board) ==> s.logs.contains_key(board),
    ensures
        after(s, changes).current matches Some(board) ==> after(s, changes).logs.contains_key(board),
    decreases changes.len(),
{
    if changes.len() > 0 {
        let next = changed(s, changes.first());
        law_current_is_known(next, changes.drop_first());
    }
}

/// How many lines histories hold together.
pub open spec fn line_total(logs: Map<Seq<char>, Seq<LineView>>) -> nat
    decreases logs.dom().len(),
    when logs.dom().finite()
{
    if logs.dom().len() == 0 {
        0
    } else {
        let board = logs.dom().choose();
        logs[board].len() + line_total(logs.remove(board))
    }
}

/// Whichever board is counted first, the total is the same.
proof fn lemma_line_total_remove(logs: Map<Seq<char>, Seq<LineView>>, board: Seq<char>)
    requires
        logs.dom().finite(),
        logs.contains_key(board),
    ensures
        line_total(logs) == logs[board].len() + line_total(logs.remove(board)),
    decreases logs.dom().len(),
{
    let first = logs.dom().choose();
    assert(logs.dom().contains(board));
    if logs.dom().len() == 0 {
        assert(logs.dom() =~= Set::empty());
    }
    if first != board {
        lemma_line_total_remove(logs.remove(first), board);
        lemma_line_total_remove(logs.remove(board), first);
        assert(logs.remove(first).remove(board) =~= logs.remove(board).remove(first));
    }
}

/// A board with another history adds the difference.
proof fn lemma_line_total_insert(
    logs: Map<Seq<char>, Seq<LineView>>,
    board: Seq<char>,
    log: Seq<LineView>,
)
    requires
        logs.dom().finite(),
    ensures
        logs.contains_key(board) ==> line_total(logs.insert(board, log)) + logs[board].len()
            == line_total(logs) + log.len(),
        !logs.contains_key(board) ==> line_total(logs.insert(board, log)) == line_total(logs)
            + log.len(),
{
    let next = logs.insert(board, log);
    lemma_line_total_remove(next, board);
    assert(next.remove(board) =~= logs.remove(board));
    if logs.contains_key(board) {
        lemma_line_total_remove(logs, board);
    } else {
        assert(logs.remove(board) =~= logs);
    }
}

proof fn lemma_line_total_empty(logs: Map<Seq<char>, Seq<LineView>>)
    requires
        logs.dom().finite(),
        forall|board: Seq<char>| #[trigger] logs.contains_key(board) ==> logs[board].len() == 0,
    ensures
        line_total(logs) == 0,
    decreases logs.dom().len(),
{
    if logs.dom().len() > 0 {
        let board = logs.dom().choose();
        assert(logs.contains_key(board));
        lemma_line_total_empty(logs.remove(board));
    }
}

/// Whether there is one line in the histories for each filed id.
pub open spec fn balanced(s: StateView) -> bool {
    &&& s.logs.dom().finite()
    &&& s.seen.finite()
    &&& line_total(s.logs) == s.seen.len()
}

/// A node that has just started knows three boards, has none on screen, and
/// has no line and no filed id.
pub proof fn law_fresh(board: Seq<char>)
    ensures
        fresh().logs.contains_key(board) <==> board == "rust"@ || board == "privacy"@ || board
            == "memes"@,
        history(fresh(), board).len() == 0,
        fresh().seen == Set::<Seq<char>>::empty(),
        fresh().current is None,
        line_total(fresh().logs) == 0,
        balanced(fresh()),
{
    let seeds = seed_boards();
    assert(seeds[0] == "rust"@ && seeds[1] == "privacy"@ && seeds[2] == "memes"@);
    vstd::seq_lib::seq_to_set_is_finite(seed_boards());
    assert(fresh().logs.dom() =~= seed_boards().to_set());
    lemma_line_total_empty(fresh().logs);
}

/// Where there is one line in the histories for each filed id, there always
/// will be.
pub proof fn law_one_line_per_id(s: StateView, changes: Seq<Change>)
    requires
        balanced(s),
    ensures
        balanced(after(s, changes)),
    decreases changes.len(),
{
    if changes.len() > 0 {
        let next = changed(s, changes.first());
        match changes.first() {
            Change::Delivery(p, id) => {
                lemma_line_total_insert(
                    s.logs,
                    p.board,
                    history(s, p.board).push(line_of(p, id)),
                );
            },
            Change::Switch(board) => {
                lemma_line_total_insert(s.logs, board, history(s, board));
            },
        }
        law_one_line_per_id(next, changes.drop_first());
    }
}

/// The line of a post holds its time, nickname and text as they are, and the
/// first six bytes of its id.
pub proof fn law_line_of_post(p: PostView, id: Seq<char>)
    requires
        is_char_boundary(encode_utf8(id), 6),
    ensures
        shortenable(id),
        line_of(p, id).ts == p.ts,
        line_of(p, id).nick == p.nick,
        line_of(p, id).text == p.text,
        encode_utf8(line_of(p, id).id) == encode_utf8(id).subrange(0, 6),
{
    let bytes = encode_utf8(id);
    vstd::utf8::encode_utf8_valid_utf8(id);
    vstd::utf8::valid_utf8_split(bytes, 6);
    vstd::utf8::decode_utf8_encode_utf8(bytes.subrange(0, 6));
}

/// A line is shown where its id is new and its board is the one on screen, and
/// only there: no other board's posts are, however its name begins or ends.
/// What is shown is what was filed.
pub proof fn law_shown_on_its_board_only(s: StateView, p: PostView, id: Seq<char>)
    ensures
        shown(s, p, id) is Some <==> !s.seen.contains(id) && s.current == Some(p.board),
        s.current is None ==> shown(s, p, id) is None,
        s.current matches Some(board) ==> board != p.board ==> shown(s, p, id) is None,
        shown(s, p, id) matches Some(line) ==> delivered(s, p, id).logs[p.board].last() == line,
{
}

/// What filing does to each board: a new post stands behind what its own board
/// held, the others hold what they held, and its id is the one id added. An id
/// that was filed before changes nothing.
pub proof fn law_filing(s: StateView, p: PostView, id: Seq<char>, board: Seq<char>)
    ensures
        s.seen.contains(id) ==> delivered(s, p, id) == s,
        !s.seen.contains(id) ==> {
            let t = delivered(s, p, id);
            &&& t.current == s.current
            &&& t.seen == s.seen.insert(id)
            &&& t.logs.contains_key(board) <==> s.logs.contains_key(board) || board == p.board
            &&& s.logs.contains_key(board) && board != p.board ==> t.logs[board] == s.logs[board]
            &&& s.logs.contains_key(p.board) ==> t.logs[p.board] == s.logs[p.board].push(
                line_of(p, id),
            )
            &&& !s.logs.contains_key(p.board) ==> t.logs[p.board] == seq![line_of(p, id)]
        },
{
    assert(Seq::<LineView>::empty().push(line_of(p, id)) =~= seq![line_of(p, id)]);
}

/// What switching does to each board: the board switched to is known and on
/// screen, and every board holds what it held.
pub proof fn law_switching(s: StateView, to: Seq<char>, board: Seq<char>)
    ensures
        joined(s, to).current == Some(to),
        joined(s, to).seen == s.seen,
        joined(s, to).logs.contains_key(board) <==> s.logs.contains_key(board) || board == to,
        s.logs.contains_key(board) ==> joined(s, to).logs[board] == s.logs[board],
        !s.logs.contains_key(to) ==> joined(s, to).logs[to].len() == 0,
{
}

/// A frame that does not open changes and shows nothing; one that opens files
/// its post under its first thirty-two bytes.
pub proof fn law_receiving(s: StateView, key: Seq<u8>, frame: Seq<u8>)
    ensures
        opened(key, frame) is None ==> received(s, key, frame) == s && received_line(
            s,
            key,
            frame,
        ) is None,
        opened(key, frame) matches Some(p) ==> {
            &&& frame.len() >= 32
            &&& received(s, key, frame) == delivered(s, p, hex(frame.take(32)))
            &&& received_line(s, key, frame) == shown(s, p, hex(frame.take(32)))
        },
{
    if opened(key, frame) is Some {
        assert(frame.take(32) =~= frame.subrange(0, 32));
    }
}

/// A rendered line shows the time, the id, the nickname and the text whole,
/// each in its place.
pub proof fn law_rendered_whole(line: LineView)
    ensures
        ({
            let r = rendered(line);
            let id_at: int = 8;
            let nick_at = id_at + line.id.len() + 2;
            let text_at = nick_at + line.nick.len() + 2;
            &&& r.len() == text_at + line.text.len()
            &&& r[0] == '['
            &&& r.subrange(1, 6) == clock_text(line.ts as nat)
            &&& r[6] == ' ' && r[7] == '#'
            &&& r.subrange(id_at, nick_at - 2) == line.id
            &&& r[nick_at - 2] == ']' && r[nick_at - 1] == ' '
            &&& r.subrange(nick_at, text_at - 2) == line.nick
            &&& r[text_at - 2] == ':' && r[text_at - 1] == ' '
            &&& r.skip(text_at) == line.text
        }),
{
    reveal_strlit("[");
    reveal_strlit(" #");
    reveal_strlit("] ");
    reveal_strlit(": ");
    law_clock_text(line.ts as nat);
    let r = rendered(line);
    let nick_at = 8 + line.id.len() as int + 2;
    let text_at = nick_at + line.nick.len() as int + 2;
    assert(r.subrange(1, 6) =~= clock_text(line.ts as nat));
    assert(r.subrange(8, nick_at - 2) =~= line.id);
    assert(r.subrange(nick_at, text_at - 2) =~= line.nick);
    assert(r.skip(text_at) =~= line.text);
}

/// Whether digits write a number in base ten, without leading zeros.
pub open spec fn writes(digits: Seq<char>, n: nat) -> bool {
    &&& digits.len() > 0
    &&& all_digits(digits)
    &&& numeral_value(digits) == n
    &&& digits.first() == '0' ==> digits.len() == 1
}

/// How many lines a board holds; none, if it is not known.
pub open spec fn held(s: StateView, board: Seq<char>) -> nat {
    if s.logs.contains_key(board) {
        s.logs[board].len()
    } else {
        0
    }
}

/// Whether a listed line names a board, gives a count, and is marked or not.
pub open spec fn lists_board(
    entry: Seq<char>,
    board: Seq<char>,
    count: nat,
    marked: bool,
) -> bool {
    exists|digits: Seq<char>| #[trigger]
        writes(digits, count) && entry == "    "@ + board + "  ("@ + digits + ")"@ + (if marked {
            " *"@
        } else {
            Seq::empty()
        })
}

/// The number listed with a board reads back as how many lines the board
/// holds, and the star stands with the board on screen alone.
pub proof fn law_entry_reads_back(s: StateView, board: Seq<char>)
    ensures
        lists_board(
            board_entry(s, board),
            board,
            held(s, board),
            s.current == Some(board),
        ),
{
    let digits = decimal(held(s, board));
    law_decimal_reads_back(held(s, board));
    assert(writes(digits, held(s, board)));
    let entry = "    "@ + board + "  ("@ + digits + ")"@;
    assert(entry + Seq::<char>::empty() =~= entry);
}

proof fn lemma_digits_end(d: Seq<char>, e: Seq<char>, x: Seq<char>, y: Seq<char>)
    requires
        all_digits(d),
        all_digits(e),
        d + seq![')'] + x == e + seq![')'] + y,
    ensures
        d == e,
{
    let l = d + seq![')'] + x;
    let r = e + seq![')'] + y;
    if d.len() < e.len() {
        assert(l[d.len() as int] == ')');
        assert(r[d.len() as int] == e[d.len() as int]);
    } else if e.len() < d.len() {
        assert(r[e.len() as int] == ')');
        assert(l[e.len() as int] == d[e.len() as int]);
    }
    assert forall|i: int| 0 <= i < d.len() implies d[i] == e[i] by {
        assert(l[i] == d[i]);
        assert(r[i] == e[i]);
    }
    assert(d =~= e);
}

/// A listed line gives one count: whatever else is listed, boards that hold
/// different numbers of lines are listed with different counts.
pub proof fn law_entry_gives_one_count(
    entry: Seq<char>,
    board: Seq<char>,
    m: nat,
    n: nat,
    marked: bool,
    starred: bool,
)
    requires
        lists_board(entry, board, m, marked),
        lists_board(entry, board, n, starred),
    ensures
        m == n,
{
    reveal_strlit(")");
    let x: Seq<char> = if marked { " *"@ } else { Seq::empty() };
    let y: Seq<char> = if starred { " *"@ } else { Seq::empty() };
    let head = "    "@ + board + "  ("@;
    let d = choose|d: Seq<char>| #[trigger]
        writes(d, m) && entry == "    "@ + board + "  ("@ + d + ")"@ + x;
    let e = choose|e: Seq<char>| #[trigger]
        writes(e, n) && entry == "    "@ + board + "  ("@ + e + ")"@ + y;
    assert(")"@ =~= seq![')']);
    assert(entry.skip(head.len() as int) =~= d + seq![')'] + x);
    assert(entry.skip(head.len() as int) =~= e + seq![')'] + y);
    lemma_digits_end(d, e, x, y);
}

/// Two states that hold different numbers of lines on a board list it
/// differently.
pub proof fn law_counts_tell_apart(s: StateView, t: StateView, board: Seq<char>)
    requires
        held(s, board) != held(t, board),
    ensures
        board_entry(s, board) != board_entry(t, board),
{
    law_entry_reads_back(s, board);
    law_entry_reads_back(t, board);
    if board_entry(s, board) == board_entry(t, board) {
        law_entry_gives_one_count(
            board_entry(s, board),
            board,
            held(s, board),
            held(t, board),
            s.current == Some(board),
            t.current == Some(board),
        );
    }
}

/// Filing a new post raises the listed count of its board by one, and no other
/// board's listed line changes.
pub proof fn law_filing_raises_count(s: StateView, p: PostView, id: Seq<char>, other: Seq<char>)
    requires
        !s.seen.contains(id),
        other != p.board,
    ensures
        lists_board(
            board_entry(delivered(s, p, id), p.board),
            p.board,
            held(s, p.board) + 1,
            s.current == Some(p.board),
        ),
        board_entry(delivered(s, p, id), other) == board_entry(s, other),
{
    law_entry_reads_back(delivered(s, p, id), p.board);
}

/// The list of boards is a headline and one line for each known board, in
/// order.
pub proof fn law_list_is_all_boards(s: StateView, names: Seq<Seq<char>>, i: int)
    requires
        in_order(names),
        names.to_set() == s.logs.dom(),
        0 <= i < names.len(),
    ensures
        board_list(s).len() == names.len() + 1,
        board_list(s)[0] == "Boards:"@,
        lists_board(
            board_list(s)[i + 1],
            names[i],
            s.logs[names[i]].len(),
            s.current == Some(names[i]),
        ),
{
    law_in_order_unique(names, board_names(s));
    law_entry_reads_back(s, names[i]);
    assert(names.to_set().contains(names[i]));
}

/// Joining says how many lines the board holds, and then every one of them, in
/// the order in which they were filed.
pub proof fn law_join_shows_all(s: StateView, board: Seq<char>)
    ensures
        join_screen(s, board).len() == held(s, board) + 1,
        exists|digits: Seq<char>| #[trigger]
            writes(digits, held(s, board)) && join_screen(s, board)[0] == "— now on #"@ + board
                + " ("@ + digits + " message(s)) —"@,
        forall|i: int|
            0 <= i < held(s, board) ==> #[trigger] join_screen(s, board)[i + 1] == rendered(
                s.logs[board][i],
            ),
{
    law_decimal_reads_back(held(s, board));
    assert(writes(decimal(held(s, board)), held(s, board)));
}

/// Lines keep everything as mathematical values.
pub proof fn law_lines_kept(lines: Seq<Line>, i: int)
    requires
        0 <= i < lines.len(),
    ensures
        line_views(lines).len() == lines.len(),
        line_views(lines)[i].id == lines[i].id@,
        line_views(lines)[i].ts == lines[i].ts,
        line_views(lines)[i].nick == lines[i].nick@,
        line_views(lines)[i].text == lines[i].text@,
        line_view(Some(lines[i])) == Some(lines[i]@),
        line_view(None) is None,
{
}

/// What `list_boards` gives back is a headline and, for each known board and in
/// order, a line with its name, the number of its lines, and a star if it is on
/// screen.
pub proof fn law_list_boards(state: &State, r: Vec<String>) -> (names: Seq<Seq<char>>)
    requires
        call_ensures(list_boards, (state,), r),
    ensures
        names.to_set() == state@.logs.dom(),
        in_order(names),
        r@.len() == names.len() + 1,
        r@[0]@ == "Boards:"@,
        forall|i: int|
            #![trigger names[i]]
            0 <= i < names.len() ==> lists_board(
                r@[i + 1]@,
                names[i],
                state@.logs[names[i]].len(),
                state@.current == Some(names[i]),
            ),
{
    let names = choose|names: Seq<Seq<char>>|
        {
            &&& #[trigger] names.to_set() == state@.logs.dom()
            &&& forall|i: int, j: int|
                #![trigger names[i], names[j]]
                0 <= i < j < names.len() ==> before(names[i], names[j])
            &&& r@.len() == names.len() + 1
            &&& r@[0]@ == "Boards:"@
            &&& forall|i: int|
                0 <= i < names.len() ==> r@[i + 1]@ == board_entry(state@, #[trigger] names[i])
        };
    assert forall|i: int|
        #![trigger names[i]]
        0 <= i < names.len() implies lists_board(
        r@[i + 1]@,
        names[i],
        state@.logs[names[i]].len(),
        state@.current == Some(names[i]),
    ) by {
        assert(names.to_set().contains(names[i]));
        law_entry_reads_back(state@, names[i]);
    }
    names
}

/// What `render` gives back ends with the text, whole, and shows all the rest
/// of the line in front of it.
pub proof fn law_render(line: &Line, r: String)
    requires
        call_ensures(render, (line,), r),
    ensures
        r@.len() == 12 + line.id@.len() + line.nick@.len() + line.text@.len(),
        r@.subrange(8, 8 + line.id@.len() as int) == line.id@,
        r@.subrange(
            10 + line.id@.len() as int,
            10 + line.id@.len() + line.nick@.len() as int,
        ) == line.nick@,
        r@.skip(12 + line.id@.len() + line.nick@.len() as int) == line.text@,
{
    law_rendered_whole(line@);
}

} // verus!
