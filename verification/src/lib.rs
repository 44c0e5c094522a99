//! Endpoint discovery for a proxy.
//!
//! A `watch::Discovery` is a handle to start watching a name; a `watch::Watch` turns the updates
//! that it is sent into changes to a set of services. A `work::DiscoveryWork` serves the watches:
//! it queries the destination service for each name, takes up the updates that stream in, and
//! tells the watches of each endpoint that comes or goes. What holds of all this together is in
//! `laws`; what the operations are for, one by one, is in `promises`, `rounds` and `handles`.

pub mod addr;
pub mod authority;
pub mod cache;
pub mod channel;
pub mod handles;
pub mod labels;
pub mod laws;
pub mod pb;
pub mod promises;
pub mod query;
pub mod rounds;
pub mod set;
pub mod watch;
pub mod work;
