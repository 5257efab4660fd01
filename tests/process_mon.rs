use sphinx::{connections_in, parse_ip_addresses, parse_ipv4, parse_pid, parse_process, Ipv4Address, Process};

const INPUT: &'static str = "tcp   ESTAB      0      0                                                              192.168.178.36:57222                                                                      192.30.253.125:443                 users:((\"firefox\",pid=2704,fd=98))";

#[test]
fn it_extracts_pid() {
    let expected_pid = "2704";
    let actual_pid = parse_pid(INPUT);
    assert_eq!(Some(expected_pid.to_string()), actual_pid);
}

#[test]
fn it_parses_ip_addresses() {
    let (actual_from, actual_to) = parse_ip_addresses(INPUT).unwrap();
    assert_eq!("192.168.178.36", actual_from);
    assert_eq!("192.30.253.125", actual_to);
}

#[test]
fn it_returns_a_populated_struct() {
    let process = Process::new(INPUT).unwrap();
    assert_eq!(parse_ipv4("192.168.178.36").unwrap(), process.from);
    assert_eq!(parse_ipv4("192.30.253.125").unwrap(), process.to);
    assert_eq!("2704", process.pid);
}

#[test]
fn it_bails_out_if_ip_address_is_ipv6() {
    let input_ipv6 = "tcp   LISTEN     0      128                                                                                                                             :::34071                                                                                                                                       :::*                   users:((\"code\",pid=3907,fd=41))";
    let result = parse_ip_addresses(input_ipv6);
    assert_eq!(None, result);
}

#[test]
fn it_extracts_process_name() {
    assert_eq!(Some("firefox".to_string()), parse_process(INPUT));
}

#[test]
fn sample_line_gives_full_record() {
    let p = Process::new(INPUT).unwrap();
    assert_eq!("2704", p.pid);
    assert_eq!("firefox", p.process);
    assert_eq!(Ipv4Address::new(192, 168, 178, 36), p.from);
    assert_eq!(Ipv4Address::new(192, 30, 253, 125), p.to);
    assert!(p.matches(&Ipv4Address::new(192, 168, 178, 36), &Ipv4Address::new(192, 30, 253, 125)));
    assert!(!p.matches(&Ipv4Address::new(192, 30, 253, 125), &Ipv4Address::new(192, 168, 178, 36)));
}

#[test]
fn ipv6_line_gives_no_record() {
    let line = "tcp   LISTEN 0 128 :::34071 :::* users:((\"code\",pid=3907,fd=41))";
    assert!(Process::new(line).is_none());
}

#[test]
fn bracketed_ipv6_line_gives_no_record() {
    let line = "tcp ESTAB 0 0 [::ffff:10.0.0.1]:22 [::ffff:10.0.0.2]:51000 users:((\"sshd\",pid=812,fd=4))";
    assert_eq!(None, parse_ip_addresses(line));
    assert!(Process::new(line).is_none());
}

#[test]
fn line_without_pid_gives_no_record() {
    let line = "tcp ESTAB 0 0 10.0.0.1:5000 10.0.0.2:80 users:((\"curl\",fd=3))";
    assert_eq!(None, parse_pid(line));
    assert!(Process::new(line).is_none());
}

#[test]
fn line_without_name_gives_no_record() {
    let line = "tcp ESTAB 0 0 10.0.0.1:5000 10.0.0.2:80 pid=12";
    assert_eq!(None, parse_process(line));
    assert!(Process::new(line).is_none());
}

#[test]
fn line_with_one_address_gives_no_record() {
    let line = "tcp LISTEN 0 128 0.0.0.0:22 0.0.0.0:* users:((\"sshd\",pid=812,fd=3))";
    assert_eq!(None, parse_ip_addresses(line));
    assert!(Process::new(line).is_none());
}

#[test]
fn out_of_range_octet_drops_the_line() {
    let line = "tcp ESTAB 0 0 10.0.0.256:5000 10.0.0.2:80 users:((\"curl\",pid=9,fd=3))";
    assert_eq!(Some(("10.0.0.256".to_string(), "10.0.0.2".to_string())), parse_ip_addresses(line));
    assert!(Process::new(line).is_none());
}

#[test]
fn empty_name_is_skipped_for_a_later_one() {
    let line = "users:((\"\" users:((\"sshd\",pid=1";
    assert_eq!(Some("sshd".to_string()), parse_process(line));
    assert_eq!(Some("1".to_string()), parse_pid("pid=x pid=1"));
}

#[test]
fn name_with_other_characters_is_refused() {
    assert_eq!(None, parse_process("users:((\"a b\""));
    assert_eq!(None, parse_process("users:((\"python3.11\",pid=5,fd=3))"));
    assert_eq!(Some("gnome-shell+x_1".to_string()), parse_process("users:((\"gnome-shell+x_1\",pid=5"));
    let line = "tcp ESTAB 0 0 10.0.0.1:5000 10.0.0.2:80 users:((\"Web Content\",pid=12,fd=3))";
    assert!(Process::new(line).is_none());
}

#[test]
fn name_with_unicode_letters_is_kept() {
    assert_eq!(Some("é".to_string()), parse_process("users:((\"é\""));
    assert_eq!(Some("наблюдатель".to_string()), parse_process("users:((\"наблюдатель\",pid=5,fd=3))"));
    let line = "tcp ESTAB 0 0 10.0.0.1:5000 10.0.0.2:80 users:((\"café\",pid=12,fd=3))";
    assert_eq!("café", Process::new(line).unwrap().process);
}

#[test]
fn address_occurrences_need_no_whitespace() {
    assert_eq!(
        Some(("0.0.0.0".to_string(), "0.0.0.0".to_string())),
        parse_ip_addresses("0.0.0.0:0 x0.0.0.0:0")
    );
    assert_eq!(
        Some(("1.2.3.4".to_string(), "6.7.8.9".to_string())),
        parse_ip_addresses("a1.2.3.4:5 6.7.8.9:1 10.0.0.1:2")
    );
    assert_eq!(
        Some(("234.5.6.7".to_string(), "1.1.1.1".to_string())),
        parse_ip_addresses("1234.5.6.7:80 1.1.1.1:2")
    );
    assert_eq!(
        Some(("1.2.3.4".to_string(), "6.7.8.9".to_string())),
        parse_ip_addresses("1.2.3.4:5x6.7.8.9:1")
    );
}

#[test]
fn strict_ipv4_parse() {
    assert_eq!(Some(Ipv4Address::new(1, 2, 3, 4)), parse_ipv4("1.2.3.4"));
    assert_eq!(Some(Ipv4Address::new(255, 0, 10, 99)), parse_ipv4("255.0.10.99"));
    assert_eq!(None, parse_ipv4("256.1.1.1"));
    assert_eq!(None, parse_ipv4("01.2.3.4"));
    assert_eq!(None, parse_ipv4("1.2.3"));
    assert_eq!(None, parse_ipv4("1.2.3.4.5"));
    assert_eq!(None, parse_ipv4("1234.2.3.4"));
    assert_eq!(None, parse_ipv4("::1"));
    assert_eq!(None, parse_ipv4(""));
}

#[test]
fn table_keeps_only_complete_lines_in_order() {
    let table = format!(
        "Netid State Recv-Q Send-Q Local Address:Port Peer Address:Port\n{}\ntcp ESTAB 0 0 10.0.0.1:5000 10.0.0.2:80 users:((\"curl\",pid=77,fd=3))\ntcp LISTEN 0 128 :::34071 :::* users:((\"code\",pid=3907,fd=41))\n",
        INPUT
    );
    let ps = connections_in(&table);
    assert_eq!(2, ps.len());
    assert_eq!("firefox", ps[0].process);
    assert_eq!("curl", ps[1].process);
    assert_eq!("77", ps[1].pid);
    assert_eq!(Ipv4Address::new(10, 0, 0, 2), ps[1].to);
}

#[test]
fn empty_table_has_no_connections() {
    assert_eq!(0, connections_in("").len());
    assert_eq!(1, connections_in(INPUT).len());
}
