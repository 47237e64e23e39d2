//! Access-resolution core of an SSH access administration tool: group
//! closure, grant resolution, `authorized_keys` line formatting, grouping by
//! target account, DNS refresh decisions and key fingerprints.

pub mod aggregate;
pub mod authline;
pub mod closure;
pub mod dns;
pub mod input;
pub mod key;
pub mod listing;
pub mod membership;
pub mod model;
pub mod resolve;
pub mod schema;
pub mod until;
