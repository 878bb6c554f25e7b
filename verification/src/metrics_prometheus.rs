//! Settings of the metrics exporter.
use vstd::prelude::*;
use vstd::string::StringExecFns;

verus! {

/// Settings of the metrics exporter.
#[derive(Debug, Clone)]
pub struct PrometheusConfig {
    /// Metrics namespace
    pub namespace: String,
    /// Subsystem name
    pub subsystem: String,
    /// Version label
    pub version: String,
    /// Address the metrics endpoint listens on
    pub bind_address: String,
    /// Whether metrics are collected automatically
    pub auto_collect: bool,
}

impl Default for PrometheusConfig {
    fn default() -> (c: Self)
        ensures
            c.namespace@ == "tokitai"@,
            c.subsystem@ == "storage"@,
            c.version@ == "0.1.0"@,
            c.bind_address@ == "0.0.0.0:9090"@,
            c.auto_collect,
    {
        PrometheusConfig {
            namespace: String::from_str("tokitai"),
            subsystem: String::from_str("storage"),
            version: String::from_str("0.1.0"),
            bind_address: String::from_str("0.0.0.0:9090"),
            auto_collect: true,
        }
    }
}

} // verus!
