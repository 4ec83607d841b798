use rustscan::address::{IpAddress, SocketAddress};
use rustscan::input::{PortRange, ScanOrder};
use rustscan::port_strategy::PortStrategy;
use rustscan::scanner::socket_iterator::SocketIterator;
use rustscan::scanner::{
    exclude_ports, too_many_open_files, Attempt, Dispatch, ProbeOutcome, ProbeStep, Reason,
    Scanner, ERRORS_PER_ADDRESS,
};
use rustscan::udp_packets::PayloadRegistry;
use std::time::Duration;

fn ip(last: u8) -> IpAddress {
    IpAddress::V4(u32::from_be_bytes([192, 168, 0, last]))
}

fn socket(last: u8, port: u16) -> SocketAddress {
    SocketAddress { ip: ip(last), port }
}

fn scanner(ips: &[IpAddress], batch: u16, tries: u8, ranges: Vec<PortRange>, udp: bool) -> Scanner {
    let strategy = PortStrategy::pick(&Some(ranges), None, ScanOrder::Serial);
    Scanner::new(
        ips,
        batch,
        Duration::from_millis(100),
        tries,
        true,
        strategy,
        true,
        vec![9000],
        udp,
    )
}

#[test]
fn sockets_go_port_by_port() {
    let mut it = SocketIterator::new(&[ip(1), ip(2), ip(3)], vec![80, 443]);
    assert!(!it.is_done());
    let mut all = Vec::new();
    while let Some(s) = it.next() {
        all.push(s);
    }
    assert_eq!(
        all,
        vec![
            socket(1, 80),
            socket(2, 80),
            socket(3, 80),
            socket(1, 443),
            socket(2, 443),
            socket(3, 443)
        ]
    );
    assert!(it.is_done());
    assert_eq!(it.next(), None);
}

#[test]
fn no_addresses_or_no_ports_give_no_sockets() {
    let mut it = SocketIterator::new(&[], vec![80, 443]);
    assert!(it.is_done());
    assert_eq!(it.next(), None);
    let mut it = SocketIterator::new(&[ip(1)], vec![]);
    assert!(it.is_done());
    assert_eq!(it.next(), None);
}

#[test]
fn excluded_ports_are_never_probed() {
    let ports: Vec<u16> = (1..=10).collect();
    assert_eq!(exclude_ports(&ports, &vec![5, 7]), vec![1, 2, 3, 4, 6, 8, 9, 10]);
    assert_eq!(exclude_ports(&ports, &vec![]), ports);
    assert_eq!(exclude_ports(&vec![3, 5, 3], &vec![3]), vec![5]);

    let strategy = PortStrategy::pick(
        &Some(vec![PortRange { start: 1, end: 10 }]),
        None,
        ScanOrder::Random,
    );
    let scanner = Scanner::new(
        &[ip(1)],
        4,
        Duration::from_millis(100),
        1,
        true,
        strategy,
        true,
        vec![5, 7],
        false,
    );
    let mut ports = scanner.ports_to_scan();
    ports.sort_unstable();
    assert_eq!(ports, vec![1, 2, 3, 4, 6, 8, 9, 10]);
}

#[test]
fn tries_of_zero_count_as_one() {
    let s = scanner(&[ip(1)], 10, 0, vec![PortRange { start: 1, end: 2 }], false);
    assert_eq!(s.connector().tries(), 1);
    let mut probe = s.connector().scan_socket(socket(1, 1));
    assert_eq!(
        probe.resolve(Attempt::Failed("connection refused".to_owned())),
        ProbeStep::Done(ProbeOutcome::Closed(Reason::Refused {
            message: "connection refused".to_owned(),
            ip: ip(1)
        }))
    );
    let s = scanner(&[ip(1)], 10, 3, vec![PortRange { start: 1, end: 2 }], true);
    assert_eq!(s.connector().tries(), 3);
    assert!(s.connector().udp());
    assert_eq!(s.batch_size(), 10);
    assert_eq!(s.connector().timeout(), Duration::from_millis(100));
    assert!(s.connector().greppable());
    assert!(s.connector().accessible());
}

#[test]
fn tcp_probe_is_tried_again_until_the_tries_are_spent() {
    let s = scanner(&[ip(1)], 10, 3, vec![PortRange { start: 80, end: 80 }], false);
    let mut probe = s.connector().scan_socket(socket(1, 80));
    assert_eq!(probe.socket(), socket(1, 80));
    assert_eq!(probe.resolve(Attempt::Failed("refused".to_owned())), ProbeStep::Retry);
    assert_eq!(probe.resolve(Attempt::TimedOut), ProbeStep::Retry);
    assert_eq!(
        probe.resolve(Attempt::Failed("deadline has elapsed".to_owned())),
        ProbeStep::Done(ProbeOutcome::Closed(Reason::Refused {
            message: "deadline has elapsed".to_owned(),
            ip: ip(1)
        }))
    );
    let mut probe = s.connector().scan_socket(socket(1, 80));
    assert_eq!(probe.resolve(Attempt::Failed("refused".to_owned())), ProbeStep::Retry);
    assert_eq!(
        probe.resolve(Attempt::Answered),
        ProbeStep::Done(ProbeOutcome::Open(socket(1, 80)))
    );
}

#[test]
fn running_out_of_files_gives_the_scan_up() {
    let s = scanner(&[ip(1)], 10, 3, vec![PortRange { start: 80, end: 80 }], false);
    let mut probe = s.connector().scan_socket(socket(1, 80));
    assert_eq!(
        probe.resolve(Attempt::Failed("Too many open files (os error 24)".to_owned())),
        ProbeStep::Abort
    );
    assert!(too_many_open_files("TOO MANY OPEN FILES"));
    assert!(too_many_open_files("error: too many open files"));
    assert!(too_many_open_files("Too Many Open Files"));
    assert!(!too_many_open_files("too many open file"));
    assert!(!too_many_open_files("too many  open files"));
    assert!(!too_many_open_files(""));
    assert!(!too_many_open_files("connection refused"));
}

#[test]
fn udp_probe_without_an_answer_is_closed() {
    let s = scanner(&[ip(1)], 10, 3, vec![PortRange { start: 53, end: 53 }], true);
    let mut probe = s.connector().scan_socket(socket(1, 53));
    assert_eq!(probe.resolve(Attempt::TimedOut), ProbeStep::Retry);
    assert_eq!(probe.resolve(Attempt::TimedOut), ProbeStep::Retry);
    assert_eq!(
        probe.resolve(Attempt::TimedOut),
        ProbeStep::Done(ProbeOutcome::Closed(Reason::Silent))
    );
    // and nothing is found
    let mut scan = s.run();
    assert_eq!(scan.next(), Dispatch::Probe(socket(1, 53)));
    scan.complete(ProbeOutcome::Closed(Reason::Silent));
    assert_eq!(scan.next(), Dispatch::Finished);
    assert!(scan.open_sockets().is_empty());
}

#[test]
fn udp_failure_ends_the_probe_at_once() {
    let s = scanner(&[ip(1)], 10, 3, vec![PortRange { start: 53, end: 53 }], true);
    let mut probe = s.connector().scan_socket(socket(1, 53));
    assert_eq!(
        probe.resolve(Attempt::Failed("too many open files".to_owned())),
        ProbeStep::Done(ProbeOutcome::Closed(Reason::Failed {
            message: "too many open files".to_owned()
        }))
    );
    let mut probe = s.connector().scan_socket(socket(1, 53));
    assert_eq!(probe.resolve(Attempt::TimedOut), ProbeStep::Retry);
    assert_eq!(
        probe.resolve(Attempt::Answered),
        ProbeStep::Done(ProbeOutcome::Open(socket(1, 53)))
    );
}

#[test]
fn udp_probe_binds_to_the_family_of_its_target() {
    let s = scanner(&[ip(1)], 10, 1, vec![PortRange { start: 53, end: 53 }], true);
    assert_eq!(
        s.connector().udp_bind(socket(1, 53)),
        SocketAddress { ip: IpAddress::V4(0), port: 0 }
    );
    assert_eq!(
        s.connector().udp_bind(SocketAddress { ip: IpAddress::V6(1), port: 53 }),
        SocketAddress { ip: IpAddress::V6(0), port: 0 }
    );
}

#[test]
fn udp_probe_sends_the_payload_of_its_port() {
    let registry = PayloadRegistry::new(vec![
        (vec![53, 5353], vec![1, 2, 3]),
        (vec![123], vec![9]),
        (vec![53], vec![7, 7]),
    ]);
    assert_eq!(registry.cust_payload(53), vec![1, 2, 3]);
    assert_eq!(registry.cust_payload(5353), vec![1, 2, 3]);
    assert_eq!(registry.cust_payload(123), vec![9]);
    assert_eq!(registry.cust_payload(80), Vec::<u8>::new());
    assert_eq!(PayloadRegistry::new(vec![]).cust_payload(53), Vec::<u8>::new());
    let s = scanner(&[ip(1)], 10, 1, vec![PortRange { start: 123, end: 123 }], true);
    assert_eq!(s.connector().scan_socket(socket(1, 123)).payload(&registry), vec![9]);
    assert_eq!(s.connector().scan_socket(socket(1, 124)).payload(&registry), Vec::<u8>::new());
}

#[test]
fn no_more_probes_are_under_way_than_the_batch_allows() {
    let ips = [ip(1), ip(2), ip(3), ip(4)];
    let s = scanner(&ips, 3, 1, vec![PortRange { start: 1, end: 5 }], false);
    let mut scan = s.run();
    let mut in_flight: Vec<SocketAddress> = Vec::new();
    let mut probed: Vec<SocketAddress> = Vec::new();
    let mut open: Vec<SocketAddress> = Vec::new();
    loop {
        match scan.next() {
            Dispatch::Probe(socket) => {
                in_flight.push(socket);
                probed.push(socket);
                assert!(in_flight.len() <= 3);
            }
            Dispatch::Wait => {
                assert_eq!(in_flight.len(), 3.min(20 - probed.len() + in_flight.len()));
                // the probe that started last ends first
                let socket = in_flight.pop().unwrap();
                if socket.port % 2 == 1 {
                    open.push(socket);
                    scan.complete(ProbeOutcome::Open(socket));
                } else {
                    scan.complete(ProbeOutcome::Closed(Reason::Silent));
                }
            }
            Dispatch::Finished => break,
        }
    }
    assert!(in_flight.is_empty());
    assert_eq!(probed.len(), 20);
    // port by port, each address on each port once
    let mut expected = Vec::new();
    for port in 1..=5 {
        for last in 1..=4 {
            expected.push(socket(last, port));
        }
    }
    assert_eq!(probed, expected);
    let found = scan.open_sockets();
    assert_eq!(found, open);
    assert_eq!(found.len(), 12);
    assert!(found.len() <= ips.len() * 5);
}

#[test]
fn a_closed_host_gives_the_same_empty_result_every_time() {
    for _ in 0..2 {
        let s = scanner(&[ip(1)], 2, 1, vec![PortRange { start: 1, end: 10 }], false);
        let mut scan = s.run();
        let mut probed = Vec::new();
        loop {
            match scan.next() {
                Dispatch::Probe(socket) => probed.push(socket.port),
                Dispatch::Wait => scan.complete(ProbeOutcome::Closed(Reason::Refused {
                    message: "Connection refused (os error 111)".to_owned(),
                    ip: ip(1),
                })),
                Dispatch::Finished => break,
            }
        }
        assert_eq!(probed, (1..=10).collect::<Vec<u16>>());
        assert_eq!(scan.error_count(), 1);
        assert!(scan.has_error("Connection refused (os error 111) 192.168.0.1"));
        assert!(!scan.has_error("Connection refused (os error 111)"));
        assert_eq!(scan.open_sockets(), vec![]);
    }
}

#[test]
fn distinct_errors_are_kept_up_to_a_limit() {
    assert_eq!(ERRORS_PER_ADDRESS, 1000);
    let s = scanner(&[ip(1)], 1, 1, vec![PortRange { start: 1, end: 2400 }], false);
    let mut scan = s.run();
    let mut count = 0u32;
    loop {
        match scan.next() {
            Dispatch::Probe(_) => {}
            Dispatch::Wait => {
                // each error comes twice in a row; 1200 of them differ
                let message = format!("error {}", count / 2);
                count += 1;
                scan.complete(ProbeOutcome::Closed(Reason::Refused { message, ip: ip(1) }));
                assert_eq!(scan.error_count() as u32, ((count + 1) / 2).min(1000));
            }
            Dispatch::Finished => break,
        }
    }
    assert_eq!(count, 2400);
    assert_eq!(scan.error_count(), 1000);
    assert!(scan.has_error("error 0 192.168.0.1"));
    assert!(scan.has_error("error 999 192.168.0.1"));
    assert!(!scan.has_error("error 1000 192.168.0.1"));
    assert!(!scan.has_error("error 1199 192.168.0.1"));
}

#[test]
fn reasons_are_kept_in_words() {
    let refused = Reason::Refused { message: "Connection refused (os error 111)".to_owned(), ip: ip(7) };
    assert_eq!(refused.text(), "Connection refused (os error 111) 192.168.0.7");
    let refused = Reason::Refused { message: "timed out".to_owned(), ip: IpAddress::V6(1) };
    assert_eq!(refused.text(), "timed out ::1");
    assert_eq!(Reason::Failed { message: "Network is unreachable".to_owned() }.text(), "Network is unreachable");
    assert_eq!(Reason::Silent.text(), "timed out");

    let s = scanner(&[ip(1), ip(2)], 2, 1, vec![PortRange { start: 1, end: 2 }], true);
    let mut scan = s.run();
    assert_eq!(scan.error_count(), 0);
    while let Dispatch::Probe(_) = scan.next() {}
    scan.complete(ProbeOutcome::Closed(Reason::Silent));
    scan.complete(ProbeOutcome::Closed(Reason::Failed { message: "timed out".to_owned() }));
    assert_eq!(scan.error_count(), 1);
    assert!(scan.has_error("timed out"));
    while let Dispatch::Probe(_) = scan.next() {}
    scan.complete(ProbeOutcome::Closed(Reason::Failed { message: "unreachable".to_owned() }));
    scan.complete(ProbeOutcome::Open(socket(2, 2)));
    assert_eq!(scan.error_count(), 2);
    assert!(scan.has_error("unreachable"));
    assert_eq!(scan.next(), Dispatch::Finished);
}

#[test]
fn without_addresses_nothing_is_probed_and_no_error_is_kept() {
    let s = scanner(&[], 5, 1, vec![PortRange { start: 1, end: 100 }], false);
    let mut scan = s.run();
    assert_eq!(scan.next(), Dispatch::Finished);
    assert_eq!(scan.error_count(), 0);
    assert_eq!(scan.open_sockets(), vec![]);
}

#[test]
fn a_cancelled_scan_lets_no_probe_in_and_keeps_what_it_found() {
    let s = scanner(&[ip(1), ip(2)], 2, 1, vec![PortRange { start: 1, end: 3 }], false);
    let mut scan = s.run();
    assert_eq!(scan.next(), Dispatch::Probe(socket(1, 1)));
    assert_eq!(scan.next(), Dispatch::Probe(socket(2, 1)));
    assert_eq!(scan.next(), Dispatch::Wait);
    scan.complete(ProbeOutcome::Open(socket(2, 1)));
    scan.cancel();
    assert_eq!(scan.next(), Dispatch::Wait);
    scan.complete(ProbeOutcome::Open(socket(1, 1)));
    assert_eq!(scan.next(), Dispatch::Finished);
    assert_eq!(scan.open_sockets(), vec![socket(2, 1), socket(1, 1)]);
}

#[test]
fn scan_of_several_ranges_probes_each_port_once() {
    let ranges = vec![
        PortRange { start: 1, end: 10 },
        PortRange { start: 5, end: 15 },
        PortRange { start: 100, end: 102 },
    ];
    let s = scanner(&[ip(1)], 100, 1, ranges, false);
    let mut scan = s.run();
    let mut ports = Vec::new();
    while let Dispatch::Probe(socket) = scan.next() {
        ports.push(socket.port);
    }
    let mut expected: Vec<u16> = (1..=15).collect();
    expected.extend(100..=102);
    assert_eq!(ports, expected);
}
