//! Host discovery and TCP half-open port scanning at the link layer:
//! frame construction, reply classification and the bookkeeping of a scan.

pub mod addr;
pub mod checksum;
pub mod cli;
pub mod config;
pub mod display;
pub mod entropy;
pub mod error;
pub mod frame;
pub mod icmp_detector;
pub mod interface;
pub mod pending;
pub mod scanner;
pub mod text;
pub mod toml_parser;
pub mod transmit;
