//! The connection policy.

use peaboard::net::{peer_board, Action, Event, Reconciler, SocketAddress, PEER_CAP};

fn at(port: u16) -> SocketAddress {
    SocketAddress::V4 { ip: 0x7f00_0001, port }
}

fn connected(peers: &[SocketAddress]) -> Event {
    Event::Connected { count: peers.len(), peers: peers.to_vec() }
}

/// A network that answers a connection manager, and remembers what it was
/// asked to do.
struct Network {
    known: Vec<SocketAddress>,
    discovery: Vec<SocketAddress>,
    board: Vec<SocketAddress>,
    refuse: bool,
    dialled: Vec<SocketAddress>,
    reported: Vec<usize>,
}

fn network(known: &[SocketAddress]) -> Network {
    Network {
        known: known.to_vec(),
        discovery: vec![],
        board: vec![],
        refuse: false,
        dialled: vec![],
        reported: vec![],
    }
}

/// Runs one round.
fn round(r: &mut Reconciler, net: &mut Network) {
    assert!(r.action() == Action::Sleep);
    let known = net.known.clone();
    r.step(Event::Woke(known));
    loop {
        let event = match r.action() {
            Action::Sleep => return,
            Action::ReadDiscovery => connected(&net.discovery),
            Action::DialDiscovery(addr) => {
                net.dialled.push(addr);
                if !net.refuse {
                    net.discovery.push(addr);
                }
                Event::Done
            }
            Action::ReadBoard => connected(&net.board),
            Action::DialBoard(addr) => {
                net.dialled.push(addr);
                if !net.refuse {
                    net.board.push(addr);
                }
                Event::Done
            }
            Action::Count => Event::Counted(net.known.len()),
            Action::Report(n) => {
                net.reported.push(n);
                Event::Done
            }
        };
        r.step(event);
    }
}

#[test]
fn board_is_on_the_next_port() {
    assert_eq!(peer_board(at(9000)), at(9001));
    assert_eq!(peer_board(at(65_535)), at(0));
    assert_eq!(
        peer_board(SocketAddress::V6 { ip6: 1, port: 7, flowinfo: 3, scope_id: 4 }),
        SocketAddress::V6 { ip6: 1, port: 8, flowinfo: 0, scope_id: 0 }
    );
    assert_eq!(
        peer_board(SocketAddress::V6 { ip6: 1, port: 65_535, flowinfo: 0, scope_id: 0 }),
        SocketAddress::V6 { ip6: 1, port: 0, flowinfo: 0, scope_id: 0 }
    );
}

#[test]
fn round_dials_every_peer_on_both_overlays() {
    let mut r = Reconciler::new(at(9001));
    let mut net = network(&[at(9002), at(9004)]);
    round(&mut r, &mut net);
    assert_eq!(net.dialled, vec![at(9002), at(9004), at(9003), at(9005)]);
    assert_eq!(net.reported, vec![2]);
    // Everyone is connected now.
    round(&mut r, &mut net);
    assert_eq!(net.dialled.len(), 4);
    assert_eq!(net.reported, vec![2]);
}

#[test]
fn failed_dials_are_tried_again() {
    let mut r = Reconciler::new(at(9001));
    let mut net = network(&[at(9002)]);
    net.refuse = true;
    round(&mut r, &mut net);
    round(&mut r, &mut net);
    assert_eq!(net.dialled, vec![at(9002), at(9003), at(9002), at(9003)]);
    net.refuse = false;
    round(&mut r, &mut net);
    round(&mut r, &mut net);
    assert_eq!(net.dialled.len(), 6);
}

#[test]
fn own_board_is_never_dialled() {
    let mut r = Reconciler::new(at(9001));
    let mut net = network(&[at(9000), at(9002)]);
    round(&mut r, &mut net);
    assert_eq!(net.dialled, vec![at(9000), at(9002), at(9003)]);
}

#[test]
fn caps_hold_on_each_overlay() {
    let known: Vec<SocketAddress> = (0..20u16).map(|i| at(10_000 + 2 * i)).collect();
    let mut r = Reconciler::new(at(9001));
    let mut net = network(&known);
    round(&mut r, &mut net);
    assert_eq!(net.discovery, known[..PEER_CAP].to_vec());
    assert_eq!(net.board.len(), PEER_CAP);
    assert_eq!(net.dialled.len(), 2 * PEER_CAP);
    assert_eq!(net.reported, vec![20]);

    // A full discovery overlay does not keep the board overlay from being
    // dialled.
    let mut again = Reconciler::new(at(9001));
    let mut full = network(&known[..2]);
    full.discovery = (0..PEER_CAP as u16).map(|i| at(20_000 + i)).collect();
    round(&mut again, &mut full);
    assert_eq!(full.dialled, vec![at(10_001), at(10_003)]);
}

#[test]
fn lonely_round_dials_nobody() {
    let mut r = Reconciler::new(at(9001));
    let mut net = network(&[]);
    round(&mut r, &mut net);
    assert!(net.dialled.is_empty());
    assert!(net.reported.is_empty());
}

#[test]
fn peer_count_is_reported_when_it_changes() {
    let mut r = Reconciler::new(at(9001));
    let mut net = network(&[at(9002)]);
    round(&mut r, &mut net);
    round(&mut r, &mut net);
    net.known.push(at(9004));
    round(&mut r, &mut net);
    net.known.clear();
    round(&mut r, &mut net);
    round(&mut r, &mut net);
    assert_eq!(net.reported, vec![1, 2, 0]);
}

#[test]
fn peers_are_counted_after_dialling() {
    let mut r = Reconciler::new(at(9001));
    r.step(Event::Woke(vec![at(9002)]));
    assert!(r.action() == Action::ReadDiscovery);
    r.step(connected(&[]));
    assert!(r.action() == Action::DialDiscovery(at(9002)));
    r.step(Event::Done);
    assert!(r.action() == Action::ReadBoard);
    r.step(connected(&[at(9003)]));
    assert!(r.action() == Action::Count);
    r.step(Event::Counted(3));
    assert!(r.action() == Action::Report(3));
    r.step(Event::Done);
    assert!(r.action() == Action::Sleep);
}

#[test]
fn events_that_answer_nothing_change_nothing() {
    let mut r = Reconciler::new(at(9001));
    r.step(Event::Done);
    r.step(Event::Counted(4));
    r.step(connected(&[]));
    assert!(r.action() == Action::Sleep);
    r.step(Event::Woke(vec![at(9002)]));
    r.step(Event::Woke(vec![]));
    r.step(Event::Done);
    r.step(Event::Counted(4));
    assert!(r.action() == Action::ReadDiscovery);
    r.step(connected(&[]));
    r.step(connected(&[at(9002)]));
    assert!(r.action() == Action::DialDiscovery(at(9002)));
}

#[test]
fn count_and_list_are_judged_apart() {
    let mut r = Reconciler::new(at(9001));
    r.step(Event::Woke(vec![at(9002)]));
    r.step(Event::Connected { count: PEER_CAP, peers: vec![] });
    assert!(r.action() == Action::ReadBoard);
    r.step(Event::Connected { count: PEER_CAP - 1, peers: vec![] });
    assert!(r.action() == Action::DialBoard(at(9003)));
}
