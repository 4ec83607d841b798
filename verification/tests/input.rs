use rustscan::input::{
    parse_port_range, parse_ports_and_ranges, parse_single_port, Config, Opts, ScanOrder,
    ScriptsRequired,
};

fn default_config() -> Config {
    Config {
        addresses: Some(vec!["127.0.0.1".to_owned()]),
        ports: None,
        greppable: Some(true),
        batch_size: Some(25_000),
        timeout: Some(1_000),
        tries: Some(1),
        ulimit: None,
        command: Some(vec!["-A".to_owned()]),
        accessible: Some(true),
        resolver: None,
        scan_order: Some(ScanOrder::Random),
        scripts: None,
        exclude_ports: None,
        exclude_addresses: None,
        udp: Some(false),
    }
}

#[test]
fn opts_no_merge_when_config_is_ignored() {
    let mut opts = Opts::default();
    let config = default_config();

    opts.merge(&config);

    assert_eq!(opts.addresses, vec![] as Vec<String>);
    assert!(opts.greppable);
    assert!(!opts.accessible);
    assert_eq!(opts.timeout, 0);
    assert_eq!(opts.command, vec![] as Vec<String>);
    assert_eq!(opts.scan_order, ScanOrder::Serial);
}

#[test]
fn opts_merge_required_arguments() {
    let mut opts = Opts::default();
    let config = default_config();

    opts.merge_required(&config);

    assert_eq!(opts.addresses, config.addresses.unwrap());
    assert_eq!(opts.greppable, config.greppable.unwrap());
    assert_eq!(opts.timeout, config.timeout.unwrap());
    assert_eq!(opts.command, config.command.unwrap());
    assert_eq!(opts.accessible, config.accessible.unwrap());
    assert_eq!(opts.scan_order, config.scan_order.unwrap());
    assert_eq!(opts.scripts, ScriptsRequired::Default);
}

#[test]
fn opts_merge_optional_arguments() {
    let mut opts = Opts::default();
    let mut config = default_config();
    config.ports = Some((1..=1000).collect::<Vec<u16>>());
    config.ulimit = Some(1_000);
    config.resolver = Some("1.1.1.1".to_owned());

    opts.merge_optional(&config);

    assert_eq!(opts.ports, Some((1..=1000).collect::<Vec<u16>>()));
    assert_eq!(opts.ulimit, config.ulimit);
    assert_eq!(opts.resolver, config.resolver);
}

#[test]
fn test_parse_ports_and_ranges_single_port() {
    let result = parse_ports_and_ranges("80");
    assert_eq!(result, Ok(vec![80]));
}

#[test]
fn test_parse_ports_and_ranges_multiple_ports() {
    let result = parse_ports_and_ranges("80,443,8080");
    assert_eq!(result, Ok(vec![80, 443, 8080]));
}

#[test]
fn test_parse_ports_and_ranges_single_range() {
    let result = parse_ports_and_ranges("1-5");
    assert_eq!(result, Ok(vec![1, 2, 3, 4, 5]));
}

#[test]
fn test_parse_ports_and_ranges_mixed_ports_and_ranges() {
    let result = parse_ports_and_ranges("80,443,1-3,8080");
    assert_eq!(result, Ok(vec![1, 2, 3, 80, 443, 8080]));
}

#[test]
fn test_parse_ports_and_ranges_with_spaces() {
    let result = parse_ports_and_ranges("80, 443, 1-3, 8080");
    assert_eq!(result, Ok(vec![1, 2, 3, 80, 443, 8080]));
}

#[test]
fn test_parse_ports_and_ranges_duplicates() {
    let result = parse_ports_and_ranges("80,443,80,443");
    assert_eq!(result, Ok(vec![80, 443]));
}

#[test]
fn test_parse_ports_and_ranges_empty_input() {
    let result = parse_ports_and_ranges("");
    assert!(result.is_err());
    assert!(result
        .unwrap_err()
        .contains("No valid ports or ranges provided"));
}

#[test]
fn test_parse_ports_and_ranges_invalid_port() {
    let result = parse_ports_and_ranges("80,abc,443");
    assert!(result.is_err());
    assert!(result.unwrap_err().contains("Invalid port number 'abc'"));
}

#[test]
fn test_parse_ports_and_ranges_invalid_range() {
    let result = parse_ports_and_ranges("80,1-abc,443");
    assert!(result.is_err());
    assert!(result
        .unwrap_err()
        .contains("Invalid end port 'abc' in range '1-abc'"));
}

#[test]
fn test_parse_ports_and_ranges_invalid_range_format() {
    let result = parse_ports_and_ranges("80,1-2-3,443");
    assert!(result.is_err());
    assert!(result
        .unwrap_err()
        .contains("Invalid range format '1-2-3'. Expected 'start-end'"));
}

#[test]
fn test_parse_ports_and_ranges_reverse_range() {
    let result = parse_ports_and_ranges("80,5-1,443");
    assert!(result.is_err());
    assert!(result
        .unwrap_err()
        .contains("Start port 5 is greater than end port 1 in range '5-1'"));
}

#[test]
fn test_parse_ports_and_ranges_out_of_bounds_port() {
    let result = parse_ports_and_ranges("80,70000,443");
    assert!(result.is_err());
    let error_msg = result.unwrap_err();
    println!("Actual error message: {}", error_msg);
    assert!(error_msg.contains("Invalid port number '70000'"));
}

#[test]
fn test_parse_ports_and_ranges_out_of_bounds_range() {
    let result = parse_ports_and_ranges("80,1-70000,443");
    assert!(result.is_err());
    let error_msg = result.unwrap_err();
    println!("Actual error message: {}", error_msg);
    assert!(error_msg.contains("Invalid end port '70000' in range '1-70000'"));
}

#[test]
fn test_parse_ports_and_ranges_zero_port() {
    let result = parse_ports_and_ranges("80,0,443");
    assert!(result.is_err());
    assert!(result
        .unwrap_err()
        .contains("Port 0 must be between 1 and 65535"));
}

#[test]
fn test_parse_ports_and_ranges_complex_mixed() {
    let result = parse_ports_and_ranges("1,80,443,1-5,8080,9090,10-12");
    assert_eq!(
        result,
        Ok(vec![1, 2, 3, 4, 5, 10, 11, 12, 80, 443, 8080, 9090])
    );
}

#[test]
fn port_list_messages_are_exact() {
    assert_eq!(
        parse_ports_and_ranges(" , ,"),
        Err("No valid ports or ranges provided".to_owned())
    );
    assert_eq!(
        parse_ports_and_ranges("80,abc"),
        Err("Invalid port number 'abc'".to_owned())
    );
    assert_eq!(
        parse_ports_and_ranges("0"),
        Err("Port 0 must be between 1 and 65535".to_owned())
    );
    assert_eq!(
        parse_ports_and_ranges("1-2-3"),
        Err("Invalid range format '1-2-3'. Expected 'start-end'. Example: 1-1000.".to_owned())
    );
    assert_eq!(
        parse_ports_and_ranges("x-3"),
        Err("Invalid start port 'x' in range 'x-3'".to_owned())
    );
    assert_eq!(
        parse_ports_and_ranges("3-"),
        Err("Invalid end port '' in range '3-'".to_owned())
    );
    assert_eq!(
        parse_ports_and_ranges("300-20"),
        Err("Start port 300 is greater than end port 20 in range '300-20'".to_owned())
    );
    assert_eq!(
        parse_ports_and_ranges("0-20"),
        Err("Ports in range '0-20' must be between 1 and 65535".to_owned())
    );
}

#[test]
fn port_list_reports_the_first_bad_part() {
    assert_eq!(
        parse_ports_and_ranges("1,zz,0,9-1"),
        Err("Invalid port number 'zz'".to_owned())
    );
    assert_eq!(
        parse_ports_and_ranges("9-1,zz"),
        Err("Start port 9 is greater than end port 1 in range '9-1'".to_owned())
    );
}

#[test]
fn port_list_numbers_follow_the_decimal_grammar() {
    assert_eq!(parse_single_port("+80"), Ok(80));
    assert_eq!(parse_single_port("00080"), Ok(80));
    assert_eq!(parse_single_port("65535"), Ok(65535));
    assert_eq!(
        parse_single_port("65536"),
        Err("Invalid port number '65536'".to_owned())
    );
    assert_eq!(parse_single_port("+"), Err("Invalid port number '+'".to_owned()));
    assert_eq!(parse_single_port(""), Err("Invalid port number ''".to_owned()));
    assert_eq!(
        parse_single_port("8 0"),
        Err("Invalid port number '8 0'".to_owned())
    );
    assert_eq!(
        parse_single_port("٣"),
        Err("Invalid port number '٣'".to_owned())
    );
    assert_eq!(parse_single_port("+0"), Err("Port 0 must be between 1 and 65535".to_owned()));
}

#[test]
fn port_range_is_read_without_trimming_its_pieces() {
    assert_eq!(parse_port_range("7-9"), Ok(vec![7, 8, 9]));
    assert_eq!(parse_port_range("7-7"), Ok(vec![7]));
    assert_eq!(
        parse_port_range("7 - 9"),
        Err("Invalid start port '7 ' in range '7 - 9'".to_owned())
    );
    assert_eq!(
        parse_port_range("80"),
        Err("Invalid range format '80'. Expected 'start-end'. Example: 1-1000.".to_owned())
    );
    assert_eq!(
        parse_port_range("00000-5"),
        Err("Ports in range '00000-5' must be between 1 and 65535".to_owned())
    );
}

#[test]
fn port_list_agrees_with_the_standard_parser() {
    let inputs = [
        "1", " 22 ,\t23", "\u{a0}7\u{3000}", "65535-65535", "1-3,2-5,4", "10-12,11", "5,,6", ",",
        "1-65535", "+7", "07", "7-+9", "-", "--", "1-", "-1", "a", "1,a", "99999", "1-99999",
        "0", "0-0", "2-1", "\u{1680}", "1\u{85}", "1-2,", "3- 4",
    ];
    for input in inputs {
        let mut expected: Result<Vec<u16>, ()> = Ok(Vec::new());
        for part in input.split(',') {
            let part = part.trim();
            if part.is_empty() {
                continue;
            }
            let found: Result<Vec<u16>, ()> = if part.contains('-') {
                let pieces: Vec<&str> = part.split('-').collect();
                if pieces.len() != 2 {
                    Err(())
                } else {
                    match (pieces[0].parse::<u16>(), pieces[1].parse::<u16>()) {
                        (Ok(start), Ok(end)) if start <= end && start >= 1 => {
                            Ok((start..=end).collect())
                        }
                        _ => Err(()),
                    }
                }
            } else {
                match part.parse::<u16>() {
                    Ok(port) if port >= 1 => Ok(vec![port]),
                    _ => Err(()),
                }
            };
            match (found, &mut expected) {
                (Ok(ports), Ok(all)) => all.extend(ports),
                _ => {
                    expected = Err(());
                    break;
                }
            }
        }
        let expected = match expected {
            Ok(mut all) if !all.is_empty() => {
                all.sort_unstable();
                all.dedup();
                Ok(all)
            }
            _ => Err(()),
        };
        assert_eq!(
            parse_ports_and_ranges(input).map_err(|_| ()),
            expected,
            "input {:?}",
            input
        );
    }
}

#[test]
fn opts_read_fills_in_every_port() {
    let opts = Opts::read(Opts::default());
    assert_eq!(opts.ports, Some((1..=65535).collect::<Vec<u16>>()));
    let mut given = Opts::default();
    given.ports = Some(vec![443]);
    given.timeout = 9;
    let opts = Opts::read(given);
    assert_eq!(opts.ports, Some(vec![443]));
    assert_eq!(opts.timeout, 9);
}

#[test]
fn opts_merge_takes_the_file_unless_told_not_to() {
    let mut opts = Opts::default();
    opts.no_config = false;
    let mut config = default_config();
    config.exclude_ports = Some(vec![8080, 9090]);
    config.exclude_addresses = Some(vec!["10.0.0.1".to_owned()]);
    opts.merge(&config);
    assert_eq!(opts.addresses, vec!["127.0.0.1".to_owned()]);
    assert_eq!(opts.batch_size, 25_000);
    assert_eq!(opts.tries, 1);
    assert_eq!(opts.scan_order, ScanOrder::Random);
    assert_eq!(opts.exclude_ports, Some(vec![8080, 9090]));
    assert_eq!(opts.exclude_addresses, Some(vec!["10.0.0.1".to_owned()]));
    assert_eq!(opts.ports, None);
    assert!(!opts.no_config);
}

#[test]
fn opts_merge_prefers_the_top_ports() {
    let mut opts = Opts::default();
    opts.top = true;
    let mut config = default_config();
    config.ports = Some(vec![1, 2, 3]);
    opts.merge_optional(&config);
    let ports = opts.ports.unwrap();
    assert_eq!(ports.len(), 1000);
    assert_eq!(ports[0], 1);
    assert_eq!(ports[1], 3);
    assert_eq!(ports[999], 65389);
    assert!(ports.windows(2).all(|pair| pair[0] < pair[1]));
}
