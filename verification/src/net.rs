//! The connection policy: which peers to dial, on which overlay, and when to
//! say how many there are.

use vstd::prelude::*;

verus! {

/// How many peers to keep connected on each overlay.
pub const PEER_CAP: usize = 8;

/// The address of a listener: an IP address, a port and, for IPv6, the flow
/// label and the scope.
#[derive(Clone, Copy, Debug, PartialEq, Eq, Structural)]
pub enum SocketAddress {
    V4 { ip: u32, port: u16 },
    V6 { ip6: u128, port: u16, flowinfo: u32, scope_id: u32 },
}

/// The port behind another; the last port is followed by the first.
pub open spec fn next_port(port: u16) -> u16 {
    if port == u16::MAX {
        0
    } else {
        (port + 1) as u16
    }
}

/// Where a peer with this discovery address has its board: on the next port
/// of the same IP address.
pub open spec fn board_of(addr: SocketAddress) -> SocketAddress {
    match addr {
        SocketAddress::V4 { ip, port } => SocketAddress::V4 { ip, port: next_port(port) },
        SocketAddress::V6 { ip6, port, flowinfo, scope_id } => SocketAddress::V6 {
            ip6,
            port: next_port(port),
            flowinfo: 0,
            scope_id: 0,
        },
    }
}

/// Where a peer with this discovery address has its board.
pub fn peer_board(addr: SocketAddress) -> (r: SocketAddress)
    ensures
        r == board_of(addr),
{
    match addr {
        SocketAddress::V4 { ip, port } => SocketAddress::V4 { ip, port: port.wrapping_add(1) },
        SocketAddress::V6 { ip6, port, flowinfo, scope_id } => SocketAddress::V6 {
            ip6,
            port: port.wrapping_add(1),
            flowinfo: 0,
            scope_id: 0,
        },
    }
}

/// Whether an address is in a list.
fn lists(peers: &Vec<SocketAddress>, addr: SocketAddress) -> (r: bool)
    ensures
        r == peers@.contains(addr),
{
    let mut i: usize = 0;
    while i < peers.len()
        invariant
            i <= peers@.len(),
            forall|j: int| 0 <= j < i ==> peers@[j] != addr,
        decreases peers@.len() - i,
    {
        if peers[i] == addr {
            return true;
        }
        i = i + 1;
    }
    false
}

/// Where a round of dialling stands. A round goes through the known peers
/// twice: once for the discovery overlay, once for the board overlay.
#[derive(Clone, Copy, PartialEq, Eq, Structural)]
pub enum Stage {
    /// Between two rounds.
    Asleep,
    /// Deciding whether to dial a peer's discovery node.
    CheckDiscovery(usize),
    /// Dialling a peer's discovery node.
    DialDiscovery(usize),
    /// Deciding whether to dial a peer's board.
    CheckBoard(usize),
    /// Dialling a peer's board.
    DialBoard(usize),
    /// Counting the known peers.
    Count,
    /// Saying how many known peers there are.
    Report,
}

/// What is to be done, and answered with an event.
#[derive(Clone, Copy, PartialEq, Eq, Structural)]
pub enum Action {
    /// Sleep until the next round, then read the known peers: `Woke`.
    Sleep,
    /// Read the connected peers of the discovery overlay: `Connected`.
    ReadDiscovery,
    /// Dial on the discovery overlay: `Done`, however it went.
    DialDiscovery(SocketAddress),
    /// Read the connected peers of the board overlay: `Connected`.
    ReadBoard,
    /// Dial on the board overlay: `Done`, however it went.
    DialBoard(SocketAddress),
    /// Count the known peers: `Counted`.
    Count,
    /// Say how many known peers there are: `Done`.
    Report(usize),
}

/// What came of an action.
pub enum Event {
    /// A new round begins, with these known peers.
    Woke(Vec<SocketAddress>),
    /// The overlay has so many connections, and to these peers.
    Connected { count: usize, peers: Vec<SocketAddress> },
    /// There are so many known peers.
    Counted(usize),
    /// The action is done.
    Done,
}

/// An event as a mathematical value.
pub enum EventView {
    Woke(Seq<SocketAddress>),
    Connected { count: usize, peers: Seq<SocketAddress> },
    Counted(usize),
    Done,
}

impl View for Event {
    type V = EventView;

    open spec fn view(&self) -> EventView {
        match self {
            Event::Woke(known) => EventView::Woke(known@),
            Event::Connected { count, peers } => EventView::Connected {
                count: *count,
                peers: peers@,
            },
            Event::Counted(count) => EventView::Counted(*count),
            Event::Done => EventView::Done,
        }
    }
}

/// A node's connection manager.
pub struct Reconciler {
    own_board: SocketAddress,
    known: Vec<SocketAddress>,
    last_peers: usize,
    stage: Stage,
}

/// A connection manager as a mathematical value.
#[verifier::ext_equal]
pub struct ReconcilerView {
    /// Where this node's own board listens.
    pub own_board: SocketAddress,
    /// The known peers of the current round.
    pub known: Seq<SocketAddress>,
    /// How many known peers were last reported.
    pub last_peers: usize,
    pub stage: Stage,
}

impl View for Reconciler {
    type V = ReconcilerView;

    closed spec fn view(&self) -> ReconcilerView {
        ReconcilerView {
            own_board: self.own_board,
            known: self.known@,
            last_peers: self.last_peers,
            stage: self.stage,
        }
    }
}

/// Where the board pass stands before a peer.
pub open spec fn board_stage(known: Seq<SocketAddress>, at: int) -> Stage {
    if at < known.len() {
        Stage::CheckBoard(at as usize)
    } else {
        Stage::Count
    }
}

/// Where the discovery pass stands before a peer.
pub open spec fn discovery_stage(known: Seq<SocketAddress>, at: int) -> Stage {
    if at < known.len() {
        Stage::CheckDiscovery(at as usize)
    } else {
        board_stage(known, 0)
    }
}

/// Whether the stage names a known peer, and a board that is dialled is not
/// this node's own.
pub open spec fn sound(r: ReconcilerView) -> bool {
    &&& r.known.len() <= usize::MAX
    &&& match r.stage {
        Stage::CheckDiscovery(at) => at < r.known.len(),
        Stage::DialDiscovery(at) => at < r.known.len(),
        Stage::CheckBoard(at) => at < r.known.len(),
        Stage::DialBoard(at) => at < r.known.len() && board_of(r.known[at as int]) != r.own_board,
        _ => true,
    }
}

/// What a connection manager wants done.
pub open spec fn wanted(r: ReconcilerView) -> Action {
    match r.stage {
        Stage::Asleep => Action::Sleep,
        Stage::CheckDiscovery(at) => Action::ReadDiscovery,
        Stage::DialDiscovery(at) => Action::DialDiscovery(r.known[at as int]),
        Stage::CheckBoard(at) => Action::ReadBoard,
        Stage::DialBoard(at) => Action::DialBoard(board_of(r.known[at as int])),
        Stage::Count => Action::Count,
        Stage::Report => Action::Report(r.last_peers),
    }
}

/// A connection manager that goes on to a stage.
pub open spec fn at_stage(r: ReconcilerView, stage: Stage) -> ReconcilerView {
    ReconcilerView { own_board: r.own_board, known: r.known, last_peers: r.last_peers, stage }
}

/// How a connection manager goes on after an event. An event that does not
/// answer what it wants done changes nothing.
pub open spec fn stepped(r: ReconcilerView, event: EventView) -> ReconcilerView {
    match (r.stage, event) {
        (Stage::Asleep, EventView::Woke(known)) => ReconcilerView {
            own_board: r.own_board,
            known,
            last_peers: r.last_peers,
            stage: discovery_stage(known, 0),
        },
        (Stage::CheckDiscovery(at), EventView::Connected { count, peers }) => {
            if count >= PEER_CAP {
                at_stage(r, board_stage(r.known, 0))
            } else if peers.contains(r.known[at as int]) {
                at_stage(r, discovery_stage(r.known, at + 1))
            } else {
                at_stage(r, Stage::DialDiscovery(at))
            }
        },
        (Stage::DialDiscovery(at), EventView::Done) => at_stage(
            r,
            discovery_stage(r.known, at + 1),
        ),
        (Stage::CheckBoard(at), EventView::Connected { count, peers }) => {
            let board = board_of(r.known[at as int]);
            if count >= PEER_CAP {
                at_stage(r, Stage::Count)
            } else if board == r.own_board || peers.contains(board) {
                at_stage(r, board_stage(r.known, at + 1))
            } else {
                at_stage(r, Stage::DialBoard(at))
            }
        },
        (Stage::DialBoard(at), EventView::Done) => at_stage(r, board_stage(r.known, at + 1)),
        (Stage::Count, EventView::Counted(count)) => {
            if count == r.last_peers {
                at_stage(r, Stage::Asleep)
            } else {
                ReconcilerView {
                    own_board: r.own_board,
                    known: r.known,
                    last_peers: count,
                    stage: Stage::Report,
                }
            }
        },
        (Stage::Report, EventView::Done) => at_stage(r, Stage::Asleep),
        _ => r,
    }
}

impl Reconciler {
    /// Whether the round stands where it can go on.
    pub open spec fn wf(&self) -> bool {
        sound(self@)
    }

    /// A connection manager that has not reported any peers yet, for a node
    /// whose board listens at `own_board`.
    pub fn new(own_board: SocketAddress) -> (r: Reconciler)
        ensures
            r.wf(),
            r@.own_board == own_board,
            r@.known == Seq::<SocketAddress>::empty(),
            r@.last_peers == 0,
            r@.stage == Stage::Asleep,
    {
        Reconciler { own_board, known: Vec::new(), last_peers: 0, stage: Stage::Asleep }
    }

    /// What to do next.
    pub fn action(&self) -> (r: Action)
        requires
            self.wf(),
        ensures
            r == wanted(self@),
    {
        match self.stage {
            Stage::Asleep => Action::Sleep,
            Stage::CheckDiscovery(_) => Action::ReadDiscovery,
            Stage::DialDiscovery(at) => Action::DialDiscovery(self.known[at]),
            Stage::CheckBoard(_) => Action::ReadBoard,
            Stage::DialBoard(at) => Action::DialBoard(peer_board(self.known[at])),
            Stage::Count => Action::Count,
            Stage::Report => Action::Report(self.last_peers),
        }
    }

    fn board_at(&self, at: usize) -> (r: Stage)
        ensures
            r == board_stage(self@.known, at as int),
    {
        if at < self.known.len() {
            Stage::CheckBoard(at)
        } else {
            Stage::Count
        }
    }

    fn discovery_at(&self, at: usize) -> (r: Stage)
        ensures
            r == discovery_stage(self@.known, at as int),
    {
        if at < self.known.len() {
            Stage::CheckDiscovery(at)
        } else {
            self.board_at(0)
        }
    }

    /// Goes on after an event.
    pub fn step(&mut self, event: Event)
        requires
            old(self).wf(),
        ensures
            final(self).wf(),
            final(self)@ == stepped(old(self)@, event@),
            old(self)@.stage == Stage::Asleep ==> (event matches Event::Woke(known) ==> {
                &&& final(self)@.known == known@
                &&& known@.len() > 0 ==> final(self)@.stage == Stage::CheckDiscovery(0)
                &&& known@.len() == 0 ==> final(self)@.stage == Stage::Count
            }),
            !(old(self)@.stage == Stage::Asleep) ==> final(self)@.known == old(self)@.known,
            final(self)@.own_board == old(self)@.own_board,
    {
        match (self.stage, event) {
            (Stage::Asleep, Event::Woke(known)) => {
                assert(known.len() == known@.len());
                self.known = known;
                self.stage = self.discovery_at(0);
            },
            (Stage::CheckDiscovery(at), Event::Connected { count, peers }) => {
                self.stage = if count >= PEER_CAP {
                    self.board_at(0)
                } else if lists(&peers, self.known[at]) {
                    self.discovery_at(at + 1)
                } else {
                    Stage::DialDiscovery(at)
                };
            },
            (Stage::DialDiscovery(at), Event::Done) => {
                self.stage = self.discovery_at(at + 1);
            },
            (Stage::CheckBoard(at), Event::Connected { count, peers }) => {
                let board = peer_board(self.known[at]);
                self.stage = if count >= PEER_CAP {
                    Stage::Count
                } else if board == self.own_board || lists(&peers, board) {
                    self.board_at(at + 1)
                } else {
                    Stage::DialBoard(at)
                };
            },
            (Stage::DialBoard(at), Event::Done) => {
                self.stage = self.board_at(at + 1);
            },
            (Stage::Count, Event::Counted(count)) => {
                if count == self.last_peers {
                    self.stage = Stage::Asleep;
                } else {
                    self.last_peers = count;
                    self.stage = Stage::Report;
                }
            },
            (Stage::Report, Event::Done) => {
                self.stage = Stage::Asleep;
            },
            _ => {},
        }
    }
}

/// Whether an event answers what a connection manager wants done.
pub open spec fn answers(r: ReconcilerView, event: EventView) -> bool {
    match wanted(r) {
        Action::Sleep => event is Woke,
        Action::ReadDiscovery => event is Connected,
        Action::DialDiscovery(_) => event is Done,
        Action::ReadBoard => event is Connected,
        Action::DialBoard(_) => event is Done,
        Action::Count => event is Counted,
        Action::Report(_) => event is Done,
    }
}

/// How many answers a round can still take, at most.
pub open spec fn steps_left(r: ReconcilerView) -> int {
    let peers = r.known.len();
    match r.stage {
        Stage::Asleep => 0,
        Stage::CheckDiscovery(at) => 2 * (peers - at) + 2 * peers + 2,
        Stage::DialDiscovery(at) => 2 * (peers - at) + 2 * peers + 1,
        Stage::CheckBoard(at) => 2 * (peers - at) + 2,
        Stage::DialBoard(at) => 2 * (peers - at) + 1,
        Stage::Count => 2,
        Stage::Report => 1,
    }
}

/// Whatever comes in, the manager stays sound, keeps its own address, and
/// changes the known peers only when it wakes.
pub proof fn law_step_keeps(r: ReconcilerView, event: EventView)
    requires
        sound(r),
        event matches EventView::Woke(known) ==> known.len() <= usize::MAX,
    ensures
        sound(stepped(r, event)),
        stepped(r, event).own_board == r.own_board,
        r.stage != Stage::Asleep ==> stepped(r, event).known == r.known,
        !answers(r, event) ==> stepped(r, event) == r,
{
}

/// Every answer brings a round nearer to its end, so each round ends.
pub proof fn law_round_ends(r: ReconcilerView, event: EventView)
    requires
        sound(r),
        r.stage != Stage::Asleep,
        answers(r, event),
    ensures
        0 <= steps_left(stepped(r, event)) < steps_left(r),
        steps_left(stepped(r, event)) == 0 <==> stepped(r, event).stage == Stage::Asleep,
{
}

/// A discovery node is dialled only where it is a known peer that is not
/// connected, with the overlay below its cap, and where these hold it is
/// dialled.
pub proof fn law_discovery_dial(r: ReconcilerView, at: usize, count: usize, peers: Seq<SocketAddress>)
    requires
        sound(r),
        r.stage == Stage::CheckDiscovery(at),
    ensures
        wanted(stepped(r, EventView::Connected { count, peers })) == Action::DialDiscovery(
            r.known[at as int],
        ) <==> count < PEER_CAP && !peers.contains(r.known[at as int]),
{
}

/// A board is dialled only where it belongs to a known peer, is not this
/// node's own and not connected, with the overlay below its cap, and where
/// these hold it is dialled.
pub proof fn law_board_dial(r: ReconcilerView, at: usize, count: usize, peers: Seq<SocketAddress>)
    requires
        sound(r),
        r.stage == Stage::CheckBoard(at),
    ensures
        wanted(stepped(r, EventView::Connected { count, peers })) == Action::DialBoard(
            board_of(r.known[at as int]),
        ) <==> count < PEER_CAP && board_of(r.known[at as int]) != r.own_board && !peers.contains(
            board_of(r.known[at as int]),
        ),
{
}

/// Whatever the state and whatever comes in, a dial begins only where the
/// same overlay was just found below its cap, and without the peer.
pub proof fn law_dials_below_cap(r: ReconcilerView, event: EventView)
    requires
        sound(r),
    ensures
        stepped(r, event).stage matches Stage::DialDiscovery(at) ==> stepped(r, event).stage
            != r.stage ==> {
            &&& r.stage == Stage::CheckDiscovery(at)
            &&& event matches EventView::Connected { count, peers }
            &&& count < PEER_CAP
            &&& !peers.contains(r.known[at as int])
        },
        stepped(r, event).stage matches Stage::DialBoard(at) ==> stepped(r, event).stage
            != r.stage ==> {
            &&& r.stage == Stage::CheckBoard(at)
            &&& event matches EventView::Connected { count, peers }
            &&& count < PEER_CAP
            &&& !peers.contains(board_of(r.known[at as int]))
        },
{
}

/// Nothing is ever dialled but a known peer, and never this node's own
/// board.
pub proof fn law_dials_known_peers(r: ReconcilerView)
    requires
        sound(r),
    ensures
        wanted(r) matches Action::DialDiscovery(addr) ==> r.known.contains(addr),
        wanted(r) matches Action::DialBoard(addr) ==> addr != r.own_board && exists|peer|
            r.known.contains(peer) && addr == #[trigger] board_of(peer),
{
    match r.stage {
        Stage::DialDiscovery(at) => {
            assert(r.known.contains(r.known[at as int]));
        },
        Stage::DialBoard(at) => {
            assert(r.known.contains(r.known[at as int]));
        },
        _ => {},
    }
}

/// Below the caps no peer is passed over: a round looks at every known peer
/// in turn, first on the discovery overlay, then on the board overlay.
pub proof fn law_peers_in_turn(r: ReconcilerView, event: EventView)
    requires
        sound(r),
        answers(r, event),
        event matches EventView::Connected { count, .. } ==> count < PEER_CAP,
    ensures
        r.stage matches Stage::CheckDiscovery(at) ==> stepped(r, event).stage
            == Stage::DialDiscovery(at) || stepped(r, event).stage == discovery_stage(
            r.known,
            at + 1,
        ),
        r.stage matches Stage::DialDiscovery(at) ==> stepped(r, event).stage == discovery_stage(
            r.known,
            at + 1,
        ),
        r.stage matches Stage::CheckBoard(at) ==> stepped(r, event).stage == Stage::DialBoard(at)
            || stepped(r, event).stage == board_stage(r.known, at + 1),
        r.stage matches Stage::DialBoard(at) ==> stepped(r, event).stage == board_stage(
            r.known,
            at + 1,
        ),
{
}

/// The number of peers is reported when it is another than was last
/// reported, and only then; what is reported is what was counted.
pub proof fn law_report_changes(r: ReconcilerView, count: usize)
    requires
        r.stage == Stage::Count,
    ensures
        wanted(stepped(r, EventView::Counted(count))) == (if count != r.last_peers {
            Action::Report(count)
        } else {
            Action::Sleep
        }),
        stepped(r, EventView::Counted(count)).last_peers == count,
{
}

/// A connection manager after a series of events.
pub open spec fn run(r: ReconcilerView, events: Seq<EventView>) -> ReconcilerView
    decreases events.len(),
{
    if events.len() == 0 {
        r
    } else {
        run(stepped(r, events.first()), events.drop_first())
    }
}

/// Whether each event answers what was wanted, and none finds an overlay at
/// its cap.
pub open spec fn uncapped(r: ReconcilerView, events: Seq<EventView>) -> bool
    decreases events.len(),
{
    events.len() > 0 ==> {
        &&& answers(r, events.first())
        &&& events.first() matches EventView::Connected { count, .. } ==> count < PEER_CAP
        &&& uncapped(stepped(r, events.first()), events.drop_first())
    }
}

/// Whether an action is performed on the way.
pub open spec fn performs(r: ReconcilerView, events: Seq<EventView>, action: Action) -> bool
    decreases events.len(),
{
    events.len() > 0 && (wanted(r) == action || performs(
        stepped(r, events.first()),
        events.drop_first(),
        action,
    ))
}

/// Whether an event lists a peer as connected.
pub open spec fn finds(event: EventView, addr: SocketAddress) -> bool {
    match event {
        EventView::Connected { peers, .. } => peers.contains(addr),
        _ => false,
    }
}

/// Whether a peer is found connected when its turn comes, on the way.
pub open spec fn meets(
    r: ReconcilerView,
    events: Seq<EventView>,
    turn: Stage,
    addr: SocketAddress,
) -> bool
    decreases events.len(),
{
    events.len() > 0 && ((r.stage == turn && finds(events.first(), addr)) || meets(
        stepped(r, events.first()),
        events.drop_first(),
        turn,
        addr,
    ))
}

/// Whether the turn of a peer on the discovery overlay is still to come.
pub open spec fn before_discovery(r: ReconcilerView, turn: usize) -> bool {
    match r.stage {
        Stage::CheckDiscovery(at) => at <= turn,
        Stage::DialDiscovery(at) => at < turn,
        _ => false,
    }
}

/// Whether the turn of a peer on the board overlay is still to come.
pub open spec fn before_board(r: ReconcilerView, turn: usize) -> bool {
    match r.stage {
        Stage::CheckDiscovery(_) => true,
        Stage::DialDiscovery(_) => true,
        Stage::CheckBoard(at) => at <= turn,
        Stage::DialBoard(at) => at < turn,
        _ => false,
    }
}

/// In a round that meets no cap, every known peer whose turn is still to
/// come is dialled on the discovery overlay, unless it is found connected.
pub proof fn law_round_dials_discovery(r: ReconcilerView, events: Seq<EventView>, turn: usize)
    requires
        sound(r),
        turn < r.known.len(),
        before_discovery(r, turn),
        uncapped(r, events),
        run(r, events).stage == Stage::Asleep,
    ensures
        performs(r, events, Action::DialDiscovery(r.known[turn as int])) || meets(
            r,
            events,
            Stage::CheckDiscovery(turn),
            r.known[turn as int],
        ),
    decreases events.len(),
{
    let next = stepped(r, events.first());
    let rest = events.drop_first();
    let addr = r.known[turn as int];
    law_step_keeps(r, events.first());
    if before_discovery(next, turn) {
        law_round_dials_discovery(next, rest, turn);
    } else if next.stage == Stage::DialDiscovery(turn) {
        assert(rest.len() > 0);
        assert(performs(next, rest, Action::DialDiscovery(addr)));
    }
}

/// In a round that meets no cap, the board of every known peer whose turn is
/// still to come is dialled, unless it is this node's own or is found
/// connected.
pub proof fn law_round_dials_boards(r: ReconcilerView, events: Seq<EventView>, turn: usize)
    requires
        sound(r),
        turn < r.known.len(),
        before_board(r, turn),
        uncapped(r, events),
        run(r, events).stage == Stage::Asleep,
    ensures
        board_of(r.known[turn as int]) == r.own_board || performs(
            r,
            events,
            Action::DialBoard(board_of(r.known[turn as int])),
        ) || meets(r, events, Stage::CheckBoard(turn), board_of(r.known[turn as int])),
    decreases events.len(),
{
    let next = stepped(r, events.first());
    let rest = events.drop_first();
    let board = board_of(r.known[turn as int]);
    law_step_keeps(r, events.first());
    if before_board(next, turn) {
        law_round_dials_boards(next, rest, turn);
    } else if next.stage == Stage::DialBoard(turn) {
        assert(rest.len() > 0);
        assert(performs(next, rest, Action::DialBoard(board)));
    }
}

/// A peer's board has the peer's IP address and the port behind the peer's,
/// with the first behind the last.
pub proof fn law_board_address(addr: SocketAddress)
    ensures
        match (addr, board_of(addr)) {
            (SocketAddress::V4 { ip, port }, SocketAddress::V4 { ip: board_ip, port: board_port }) => {
                board_ip == ip && board_port == (port + 1) % 65_536
            },
            (
                SocketAddress::V6 { ip6, port, .. },
                SocketAddress::V6 { ip6: board_ip, port: board_port, flowinfo, scope_id },
            ) => {
                board_ip == ip6 && board_port == (port + 1) % 65_536 && flowinfo == 0 && scope_id
                    == 0
            },
            _ => false,
        },
{
}

/// A round begins at the first peer, with all the peers that are known then;
/// without any it goes on to counting them.
pub proof fn law_round_begins(r: ReconcilerView, known: Seq<SocketAddress>)
    requires
        r.stage == Stage::Asleep,
    ensures
        stepped(r, EventView::Woke(known)).known == known,
        stepped(r, EventView::Woke(known)).own_board == r.own_board,
        stepped(r, EventView::Woke(known)).last_peers == r.last_peers,
        known.len() > 0 ==> stepped(r, EventView::Woke(known)).stage == Stage::CheckDiscovery(0),
        known.len() == 0 ==> stepped(r, EventView::Woke(known)).stage == Stage::Count,
{
}

/// In a whole round that meets no cap, each peer that was known when it began
/// is dialled or found connected on the discovery overlay, and its board is
/// dialled, found connected, or this node's own.
pub proof fn law_round_reaches_all(
    r: ReconcilerView,
    known: Seq<SocketAddress>,
    events: Seq<EventView>,
    turn: usize,
)
    requires
        r.stage == Stage::Asleep,
        known.len() <= usize::MAX,
        turn < known.len(),
        uncapped(stepped(r, EventView::Woke(known)), events),
        run(stepped(r, EventView::Woke(known)), events).stage == Stage::Asleep,
    ensures
        ({
            let begun = stepped(r, EventView::Woke(known));
            let peer = known[turn as int];
            &&& performs(begun, events, Action::DialDiscovery(peer)) || meets(
                begun,
                events,
                Stage::CheckDiscovery(turn),
                peer,
            )
            &&& board_of(peer) == r.own_board || performs(
                begun,
                events,
                Action::DialBoard(board_of(peer)),
            ) || meets(begun, events, Stage::CheckBoard(turn), board_of(peer))
        }),
{
    let begun = stepped(r, EventView::Woke(known));
    law_round_begins(r, known);
    law_round_dials_discovery(begun, events, turn);
    law_round_dials_boards(begun, events, turn);
}

/// How the discovery pass goes on: past a peer that is connected or was
/// dialled to the next one, and behind the last one, or at eight connections,
/// to the first peer's board.
pub proof fn law_discovery_pass(r: ReconcilerView, at: usize, count: usize, peers: Seq<SocketAddress>)
    requires
        sound(r),
        at < r.known.len(),
    ensures
        ({
            let past = if at + 1 < r.known.len() {
                Stage::CheckDiscovery((at + 1) as usize)
            } else {
                Stage::CheckBoard(0)
            };
            let found = stepped(r, EventView::Connected { count, peers }).stage;
            &&& r.stage == Stage::CheckDiscovery(at) && count >= 8 ==> found == Stage::CheckBoard(0)
            &&& r.stage == Stage::CheckDiscovery(at) && count < 8 && peers.contains(
                r.known[at as int],
            ) ==> found == past
            &&& r.stage == Stage::CheckDiscovery(at) && count < 8 && !peers.contains(
                r.known[at as int],
            ) ==> found == Stage::DialDiscovery(at)
            &&& r.stage == Stage::DialDiscovery(at) ==> stepped(r, EventView::Done).stage == past
        }),
{
}

/// How the board pass goes on: past a board that is this node's own, is
/// connected or was dialled to the next one, and behind the last one, or at
/// eight connections, to counting the peers.
pub proof fn law_board_pass(r: ReconcilerView, at: usize, count: usize, peers: Seq<SocketAddress>)
    requires
        sound(r),
        at < r.known.len(),
    ensures
        ({
            let board = board_of(r.known[at as int]);
            let past = if at + 1 < r.known.len() {
                Stage::CheckBoard((at + 1) as usize)
            } else {
                Stage::Count
            };
            let found = stepped(r, EventView::Connected { count, peers }).stage;
            &&& r.stage == Stage::CheckBoard(at) && count >= 8 ==> found == Stage::Count
            &&& r.stage == Stage::CheckBoard(at) && count < 8 && (board == r.own_board
                || peers.contains(board)) ==> found == past
            &&& r.stage == Stage::CheckBoard(at) && count < 8 && board != r.own_board
                && !peers.contains(board) ==> found == Stage::DialBoard(at)
            &&& r.stage == Stage::DialBoard(at) ==> stepped(r, EventView::Done).stage == past
        }),
{
}

/// A round ends with the count, which is said first if it is news. Nothing but
/// a count changes what was last reported.
pub proof fn law_round_closes(r: ReconcilerView, event: EventView)
    ensures
        r.stage == Stage::Report && event is Done ==> stepped(r, event).stage == Stage::Asleep,
        r.stage == Stage::Count && event == EventView::Counted(r.last_peers) ==> stepped(
            r,
            event,
        ).stage == Stage::Asleep,
        r.stage != Stage::Count || !(event is Counted) ==> stepped(r, event).last_peers
            == r.last_peers,
{
}

/// What is wanted at each stage: a dial goes to the peer whose turn it is, or
/// to its board, and what is reported is what was counted.
pub proof fn law_wanted_at_stage(r: ReconcilerView, at: usize)
    ensures
        r.stage == Stage::Asleep <==> wanted(r) == Action::Sleep,
        r.stage is CheckDiscovery <==> wanted(r) == Action::ReadDiscovery,
        r.stage is CheckBoard <==> wanted(r) == Action::ReadBoard,
        r.stage == Stage::Count <==> wanted(r) == Action::Count,
        r.stage == Stage::DialDiscovery(at) ==> wanted(r) == Action::DialDiscovery(
            r.known[at as int],
        ),
        r.stage == Stage::DialBoard(at) ==> wanted(r) == Action::DialBoard(
            board_of(r.known[at as int]),
        ),
        r.stage == Stage::Report ==> wanted(r) == Action::Report(r.last_peers),
{
}

/// An event keeps everything as a mathematical value: all the peers, in order,
/// and the counts.
pub proof fn law_event_kept(event: Event)
    ensures
        event matches Event::Woke(known) ==> event@ == EventView::Woke(known@),
        event matches Event::Connected { count, peers } ==> event@ == (EventView::Connected {
            count,
            peers: peers@,
        }),
        event matches Event::Counted(count) ==> event@ == EventView::Counted(count),
        event is Done ==> event@ is Done,
{
}

} // verus!
