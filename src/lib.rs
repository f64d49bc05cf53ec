//! Core of an IPv6 neighbour-discovery proxy: prefix matching, Ethernet/IPv6
//! frame parsing and the per-frame decisions of the capture loop.
pub mod capture;
pub mod config;
pub mod frame;
pub mod prefix;
