//! Control-plane logic for an LPM packet-filtering dataplane: the framing of
//! its control protocol, the estimate of the table capacity a prefix set
//! needs, the parser of the capacity it reports, and the reconciliation of a
//! new prefix set with the one applied before.

pub mod config;
pub mod dyncfg;
pub mod params;
pub mod prefix;
pub mod reconcile;
pub mod report;
