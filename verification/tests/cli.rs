use clap::{Arg, ArgAction, Command};
use std::num::ParseIntError;
use rustscan::input::{parse_ports_and_ranges, Ports};

fn number<T: std::str::FromStr<Err = ParseIntError>>(text: &str) -> Result<T, ParseIntError> {
    text.parse()
}

// The command line of the scanner, with the port list read by the library.
fn command() -> Command {
    Command::new("rustscan")
        .max_term_width(120)
        .arg(
            Arg::new("addresses")
                .short('a')
                .long("addresses")
                .value_delimiter(',')
                .action(ArgAction::Append),
        )
        .arg(
            Arg::new("ports")
                .short('p')
                .long("ports")
                .alias("range")
                .value_parser(parse_ports_and_ranges)
                .conflicts_with("top"),
        )
        .arg(Arg::new("no_config").short('n').long("no-config").action(ArgAction::SetTrue))
        .arg(Arg::new("no_banner").long("no-banner").action(ArgAction::SetTrue))
        .arg(Arg::new("greppable").short('g').long("greppable").action(ArgAction::SetTrue))
        .arg(Arg::new("accessible").long("accessible").action(ArgAction::SetTrue))
        .arg(Arg::new("resolver").long("resolver"))
        .arg(
            Arg::new("batch_size")
                .short('b')
                .long("batch-size")
                .default_value("4500")
                .value_parser(number::<u16>),
        )
        .arg(
            Arg::new("timeout")
                .short('t')
                .long("timeout")
                .default_value("1500")
                .value_parser(number::<u32>),
        )
        .arg(
            Arg::new("tries")
                .long("tries")
                .default_value("1")
                .value_parser(number::<u8>),
        )
        .arg(Arg::new("ulimit").short('u').long("ulimit").value_parser(number::<u64>))
        .arg(Arg::new("top").long("top").action(ArgAction::SetTrue))
        .arg(Arg::new("command").last(true).action(ArgAction::Append))
        .arg(
            Arg::new("exclude_ports")
                .short('e')
                .long("exclude-ports")
                .value_delimiter(',')
                .value_parser(number::<u16>)
                .action(ArgAction::Append),
        )
        .arg(
            Arg::new("exclude_addresses")
                .short('x')
                .long("exclude-addresses")
                .value_delimiter(',')
                .action(ArgAction::Append),
        )
        .arg(Arg::new("udp").long("udp").action(ArgAction::SetTrue))
}

#[test]
fn verify_cli() {
    command().debug_assert();
}

#[test]
fn ports_of_the_command_line_are_read_by_the_library() {
    let matches = command()
        .try_get_matches_from(["rustscan", "-a", "127.0.0.1", "-p", "80,1-3", "--", "-A", "-sC"])
        .unwrap();
    assert_eq!(matches.get_one::<Ports>("ports"), Some(&vec![1, 2, 3, 80]));
    let trailing: Vec<&String> = matches.get_many::<String>("command").unwrap().collect();
    assert_eq!(trailing, ["-A", "-sC"]);
    assert_eq!(matches.get_one::<u16>("batch_size"), Some(&4500));
    assert_eq!(matches.get_one::<u32>("timeout"), Some(&1500));
    assert_eq!(matches.get_one::<u8>("tries"), Some(&1));

    let refused = command()
        .try_get_matches_from(["rustscan", "-p", "80,0"])
        .unwrap_err()
        .to_string();
    assert!(refused.contains("Port 0 must be between 1 and 65535"));
    assert!(command().try_get_matches_from(["rustscan", "-p", "80", "--top"]).is_err());
}
