//! Interactive core of a system-administration dashboard: a catalog of
//! managed service units that can be searched, grouped, sorted and acted
//! upon, paired with a bounded log-tailing buffer.

pub mod app;
pub mod boot;
pub mod dns;
pub mod host;
pub mod journal;
pub mod logs;
pub mod network;
pub mod rank;
pub mod tree;
pub mod units;
pub mod widgets;
pub mod systemd;
pub mod text;
