//! Parsing, filtering and decision logic for a syslog analyser of UniFi
//! gateways: the parsers that turn a syslog line into a log row, the search
//! and filter language of the log view, and the rules that decide which
//! address of a row is looked up.
pub mod text;
pub mod net;
pub mod types;
pub mod firewall;
pub mod cef;
pub mod syslog;
pub mod parsers;
pub mod search;
pub mod sql;
pub mod filters;
pub mod live;
pub mod stream;
pub mod writer;
pub mod settings;
pub mod collector;
pub mod lookup;
pub mod clock;
pub mod enrich;
pub mod pihole;
pub mod services;
pub mod api;
pub mod order;
pub mod flows;
pub mod reports;
pub mod unifi;
pub mod cache;
pub mod geo;
pub mod json;
