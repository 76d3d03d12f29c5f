//! Settings of the chat service.

use vstd::prelude::*;

verus! {

/// Where the service listens, which provider key it uses and where the data lives.
#[derive(Debug, Clone)]
pub struct Config {
    pub anthropic_api_key: String,
    pub bind_address: String,
    pub database_url: String,
}

} // verus!
