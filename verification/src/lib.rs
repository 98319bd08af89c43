//! Verified core of a wireless-network picker: scan-result parsing and
//! ordering, a TTL cache with an atomically replaceable snapshot encoding,
//! the stale-while-revalidate refresh policy, a bounded-retry connection
//! state machine, and the menu navigation rules. Process launching, file
//! access and rendering live outside this crate and hand plain values in.

pub mod text;
pub mod types;
pub mod nmcli;
pub mod cache;
pub mod config;
pub mod notify;
pub mod connect;
pub mod refresh;
pub mod menu;
pub mod daemon;
pub mod qr;
