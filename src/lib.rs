//! An interactive application-layer firewall: correlates intercepted IPv4
//! packets with the processes that own their connections, and keeps the
//! verdicts a person gave for each (process, destination) pair.
pub mod text;
pub mod address;
pub mod process_mon;
pub mod state;
pub mod packet;
pub mod decision;

pub use address::{parse_ipv4, Ipv4Address};
pub use decision::{find_connection, Decision};
pub use process_mon::{connections_in, parse_ip_addresses, parse_pid, parse_process, Process};
pub use state::{State, Verdict};
