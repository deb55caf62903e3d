//! RouteScope: the verified core of an MTR-style traceroute tool.
//!
//! Sockets, terminals, HTTP and files live in the program around this
//! library; everything that decides, computes or formats lives here.

pub mod text;
pub mod traceroute;
pub mod export;
pub mod geoip;
pub mod chart;
pub mod ip;
pub mod ranges;
pub mod live;
pub mod map;
pub mod packet;
pub mod probe;
pub mod stats;
pub mod summary;
pub mod util;
pub mod web;
