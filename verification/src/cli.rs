use vstd::prelude::*;

verus! {

/// Command-line settings.
#[derive(Debug, Clone)]
pub struct Cli {
    /// Path to the configuration file
    pub config: String,
    /// Server host address
    pub host: Option<String>,
    /// Server port
    pub port: Option<u16>,
    /// Log level (trace, debug, info, warn, error)
    pub log_level: String,
    /// Print the configuration and exit
    pub print_config: bool,
}

impl Cli {
    /// The log filter directive for the configured level.
    pub fn get_log_filter(&self) -> (r: String)
        ensures
            r@ == "httpdispacher="@ + self.log_level@,
    {
        let mut s = String::from_str("httpdispacher=");
        s.append(self.log_level.as_str());
        s
    }
}

} // verus!
