//! The validated configuration the core receives: an API key, a domain, a
//! poll interval and the endpoint pool. Reading and decoding the
//! configuration file is the bootstrap's business.
use vstd::prelude::*;

verus! {

/// The configuration of one running instance.
pub struct Config {
    pub namesilo_api_key: String,
    pub domain: String,
    pub poll_duration_s: u64,
    pub ip_fetchers: Vec<String>,
}

impl Config {
    /// A configuration with placeholder values, fit for a sample file.
    pub fn example_config() -> (r: Self)
        ensures
            r.namesilo_api_key@ == "12345"@,
            r.domain@ == "example.com"@,
            r.poll_duration_s == 900,
            r.ip_fetchers@.len() == 1,
            r.ip_fetchers@[0]@ == "example.com"@,
    {
        let mut ip_fetchers: Vec<String> = Vec::new();
        ip_fetchers.push(String::from_str("example.com"));
        Config {
            namesilo_api_key: String::from_str("12345"),
            domain: String::from_str("example.com"),
            poll_duration_s: 900,
            ip_fetchers,
        }
    }
}

} // verus!
