//! The core of a fast port scanner: the rules by which targets, ports and
//! probes are chosen, ordered and accounted for.
//!
//! Every function of this crate is verified with Verus. The network, the
//! file system and the terminal stay outside: the crate decides, the
//! program around it performs.
//!
//! - [`input`]: the options of a scan and the grammar of a port list.
//! - [`address`]: the targets, and what is tried to resolve them.
//! - [`port_strategy`]: the order in which ports are visited.
//! - [`scanner`]: the sockets of a scan, the attempts of a probe and the
//!   dispatcher that keeps a bounded number of probes under way.
//! - [`udp_packets`]: the payloads of UDP probes.
//! - [`tui`]: the lines that are shown on the terminal.
//! - [`text`]: characters, numbers and the pieces of a line.
//! - [`top_ports`]: the ports that are most often open.
//!
//! What is asked of other crates stands behind functions whose contracts
//! are taken on trust; each says so where it is declared.
pub mod address;
pub mod input;
pub mod port_strategy;
pub mod scanner;
pub mod text;
pub mod top_ports;
pub mod tui;
pub mod udp_packets;
