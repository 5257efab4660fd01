use sphinx::{connections_in, Decision, Ipv4Address, State, Verdict};

const LINE: &'static str = "tcp   ESTAB      0      0      192.168.178.36:57222      192.30.253.125:443     users:((\"firefox\",pid=2704,fd=98))";

fn header(src: [u8; 4], dst: [u8; 4]) -> Vec<u8> {
    let mut p = vec![0x45u8, 0, 0, 20, 0, 0, 0, 0, 64, 6, 0, 0];
    p.extend_from_slice(&src);
    p.extend_from_slice(&dst);
    p
}

#[test]
fn inserted_pair_is_found() {
    let mut s = State::new();
    let to = Ipv4Address::new(1, 2, 3, 4);
    s.add_connection("firefox", to, Verdict::Accept);
    assert_eq!(Some(Verdict::Accept), s.get_verdict("firefox", &to));
    s.add_connection("curl", to, Verdict::Drop);
    assert_eq!(Some(Verdict::Drop), s.get_verdict("curl", &to));
}

#[test]
fn pair_never_inserted_is_not_found() {
    let mut s = State::new();
    let to = Ipv4Address::new(1, 2, 3, 4);
    assert_eq!(None, s.get_verdict("firefox", &to));
    s.add_connection("firefox", to, Verdict::Accept);
    assert_eq!(None, s.get_verdict("firefox", &Ipv4Address::new(1, 2, 3, 5)));
    assert_eq!(None, s.get_verdict("firefo", &to));
}

#[test]
fn first_decision_wins() {
    let mut s = State::new();
    let to = Ipv4Address::new(1, 2, 3, 4);
    s.add_connection("firefox", to, Verdict::Drop);
    s.add_connection("firefox", to, Verdict::Accept);
    assert_eq!(Some(Verdict::Drop), s.get_verdict("firefox", &to));
}

#[test]
fn counter_counts_packets() {
    let mut s = State::new();
    assert_eq!(0, s.count());
    s.increment();
    s.on_packet(&[1, 2, 3], &Vec::new());
    assert_eq!(2, s.count());
}

#[test]
fn affirmative_answer_accepts_and_is_cached() {
    let mut s = State::new();
    let ps = connections_in(LINE);
    let payload = header([192, 168, 178, 36], [192, 30, 253, 125]);
    let src = Ipv4Address::new(192, 168, 178, 36);
    let dst = Ipv4Address::new(192, 30, 253, 125);
    let first = s.on_packet(&payload, &ps);
    assert_eq!(Some((src, dst, Decision::Ask(0))), first);
    assert_eq!("firefox", ps[0].process);
    assert_eq!("2704", ps[0].pid);
    let v = s.record_answer(&ps[0].process, dst, "y");
    assert_eq!(Verdict::Accept, v);
    let second = s.on_packet(&payload, &ps);
    assert_eq!(Some((src, dst, Decision::Cached(Verdict::Accept))), second);
}

#[test]
fn negative_answer_drops_and_is_cached() {
    let mut s = State::new();
    let ps = connections_in(LINE);
    let dst = Ipv4Address::new(192, 30, 253, 125);
    assert_eq!(Verdict::Drop, s.record_answer(&ps[0].process, dst, "n"));
    assert_eq!(Some(Verdict::Drop), s.get_verdict("firefox", &dst));
    let mut t = State::new();
    assert_eq!(Verdict::Drop, t.record_answer("firefox", dst, "yes"));
    assert_eq!(Verdict::Drop, t.record_answer("curl", dst, ""));
}

#[test]
fn unmatched_packet_asks_nothing_and_caches_nothing() {
    let mut s = State::new();
    let ps = connections_in(LINE);
    let payload = header([192, 30, 253, 125], [192, 168, 178, 36]);
    let r = s.on_packet(&payload, &ps);
    assert_eq!(
        Some((Ipv4Address::new(192, 30, 253, 125), Ipv4Address::new(192, 168, 178, 36), Decision::NoConnection)),
        r
    );
    assert_eq!(None, s.get_verdict("firefox", &Ipv4Address::new(192, 168, 178, 36)));
    assert_eq!(None, s.get_verdict("firefox", &Ipv4Address::new(192, 30, 253, 125)));
}

#[test]
fn short_payload_has_no_header() {
    let mut s = State::new();
    let ps = connections_in(LINE);
    let mut payload = header([192, 168, 178, 36], [192, 30, 253, 125]);
    payload.pop();
    assert_eq!(None, s.on_packet(&payload, &ps));
}

#[test]
fn payload_of_other_version_is_ignored() {
    let mut s = State::new();
    let ps = connections_in(LINE);
    let mut payload = header([192, 168, 178, 36], [192, 30, 253, 125]);
    payload[0] = 0x60;
    assert_eq!(None, s.on_packet(&payload, &ps));
    assert_eq!(None, s.on_packet(&[], &ps));
    assert_eq!(2, s.count());
}

#[test]
fn header_addresses_come_from_their_bytes() {
    let mut s = State::new();
    let mut payload = header([10, 1, 2, 3], [172, 16, 5, 6]);
    payload.extend_from_slice(&[9, 9, 9, 9]);
    let r = s.on_packet(&payload, &Vec::new());
    assert_eq!(
        Some((Ipv4Address::new(10, 1, 2, 3), Ipv4Address::new(172, 16, 5, 6), Decision::NoConnection)),
        r
    );
}

#[test]
fn decide_finds_first_matching_connection() {
    let table = format!("{}\n{}", LINE, LINE.replace("firefox", "curl"));
    let ps = connections_in(&table);
    let src = Ipv4Address::new(192, 168, 178, 36);
    let dst = Ipv4Address::new(192, 30, 253, 125);
    assert_eq!(Some(0), sphinx::find_connection(&ps, &src, &dst));
    let mut s = State::new();
    s.add_connection("curl", dst, Verdict::Drop);
    assert_eq!(Decision::Ask(0), s.decide(&ps, &src, &dst));
    s.add_connection("firefox", dst, Verdict::Accept);
    assert_eq!(Decision::Cached(Verdict::Accept), s.decide(&ps, &src, &dst));
}
