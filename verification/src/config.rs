//! Process configuration: where the datagrams arrive and where the decoded
//! records go. Reading the values from the environment is the host
//! program's concern; the decoder's callers only pass this plain value
//! around.

use vstd::prelude::*;

verus! {

/// Connection settings for the persistence sink and the network listener.
#[derive(Clone, Debug)]
pub struct Config {
    pub db_host: String,
    pub db_port: u16,
    pub db_user: String,
    pub db_password: String,
    pub db_name: String,
    pub listen_binding: String,
}

} // verus!
