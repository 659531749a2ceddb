//! Settings of a node.

use vstd::prelude::*;

use crate::clock::Duration;

verus! {

/// Why a configuration was refused.
#[derive(Debug, PartialEq, Eq)]
pub enum ConfigError {
    Certificate(String),
    Io(String),
}

impl ConfigError {
    /// The text of this error.
    pub open spec fn message_text(self) -> Seq<char> {
        match self {
            ConfigError::Certificate(s) => "Invalid certificate or key: "@ + s@,
            ConfigError::Io(s) => "I/O error: "@ + s@,
        }
    }

    /// The text of this error.
    pub fn message(&self) -> (text: String)
        ensures
            text@ == self.message_text(),
    {
        match self {
            ConfigError::Certificate(s) => String::from_str("Invalid certificate or key: ").concat(
                s.as_str(),
            ),
            ConfigError::Io(s) => String::from_str("I/O error: ").concat(s.as_str()),
        }
    }
}

/// Settings of a node. Addresses and paths are text.
#[derive(Debug)]
pub struct NodeConfig {
    /// Address to bind for the transport.
    pub bind_addr: String,
    /// Nodes to connect to first.
    pub seeds: Vec<String>,
    /// The TLS certificate file.
    pub cert_path: Option<String>,
    /// The TLS private key file.
    pub key_path: Option<String>,
    /// Timeout for a direct ping.
    pub ping_timeout: Duration,
    /// Timeout for an indirect ping.
    pub indirect_ping_timeout: Duration,
    /// Time after which a suspected node is declared dead.
    pub suspect_to_dead_timeout: Duration,
    /// Interval of gossip ticks.
    pub gossip_interval: Duration,
    /// Timeout for sends and broadcasts.
    pub broadcast_timeout: Duration,
    /// Most sends and broadcasts in flight.
    pub send_queue_capacity: usize,
    /// Fanout of gossip; by default `max(3, ceil(sqrt(N)))`.
    pub fanout: Option<usize>,
    /// Convergence rounds of gossip.
    pub convergence_rounds: usize,
    /// The file that keeps the node's identifier.
    pub node_id_path: String,
}

impl Default for NodeConfig {
    fn default() -> (c: Self)
        ensures
            c.bind_addr@ == "127.0.0.1:0"@,
            c.seeds@.len() == 0,
            c.cert_path is None,
            c.key_path is None,
            c.ping_timeout.nanos == 1_000_000_000,
            c.indirect_ping_timeout.nanos == 3_000_000_000,
            c.suspect_to_dead_timeout.nanos == 6_000_000_000,
            c.gossip_interval.nanos == 200_000_000,
            c.broadcast_timeout.nanos == 200_000_000,
            c.send_queue_capacity == 1024,
            c.fanout is None,
            c.convergence_rounds == 3,
            c.node_id_path@ == ".chirps_node_id"@,
    {
        NodeConfig {
            bind_addr: String::from_str("127.0.0.1:0"),
            seeds: Vec::new(),
            cert_path: None,
            key_path: None,
            ping_timeout: Duration::from_secs(1),
            indirect_ping_timeout: Duration::from_secs(3),
            suspect_to_dead_timeout: Duration::from_secs(6),
            gossip_interval: Duration::from_millis(200),
            broadcast_timeout: Duration::from_millis(200),
            send_queue_capacity: 1024,
            fanout: None,
            convergence_rounds: 3,
            node_id_path: String::from_str(".chirps_node_id"),
        }
    }
}

/// What is wrong with a certificate and key setting, if anything is: `cert_exists` and
/// `key_exists` say whether the files that are named are there.
pub open spec fn certificate_fault(
    cert: Option<Seq<char>>,
    key: Option<Seq<char>>,
    cert_exists: bool,
    key_exists: bool,
) -> Option<Seq<char>> {
    match (cert, key) {
        (Some(c), Some(k)) => if !cert_exists {
            Some("Certificate file not found: "@ + c)
        } else if !key_exists {
            Some("Key file not found: "@ + k)
        } else {
            None
        },
        (Some(_), None) => Some("Key file must be provided if certificate is provided"@),
        (None, Some(_)) => Some("Certificate file must be provided if key is provided"@),
        (None, None) => None,
    }
}

/// Optional text, seen as an optional sequence of characters.
pub open spec fn text_view(text: Option<String>) -> Option<Seq<char>> {
    match text {
        Some(s) => Some(s@),
        None => None,
    }
}

impl NodeConfig {
    /// Checks the configuration. `cert_exists` and `key_exists` say whether the
    /// certificate and key files are there; they count only where both are named.
    /// Without either file a certificate is generated.
    pub fn validate(&self, cert_exists: bool, key_exists: bool) -> (r: Result<(), ConfigError>)
        ensures
            ({
                let fault = certificate_fault(
                    text_view(self.cert_path),
                    text_view(self.key_path),
                    cert_exists,
                    key_exists,
                );
                match r {
                    Ok(()) => fault is None,
                    Err(ConfigError::Certificate(text)) => fault == Some(text@),
                    Err(_) => false,
                }
            }),
    {
        match (&self.cert_path, &self.key_path) {
            (Some(cert), Some(key)) => {
                if !cert_exists {
                    return Err(
                        ConfigError::Certificate(
                            String::from_str("Certificate file not found: ").concat(cert.as_str()),
                        ),
                    );
                }
                if !key_exists {
                    return Err(
                        ConfigError::Certificate(
                            String::from_str("Key file not found: ").concat(key.as_str()),
                        ),
                    );
                }
                Ok(())
            },
            (Some(_), None) => Err(
                ConfigError::Certificate(
                    String::from_str("Key file must be provided if certificate is provided"),
                ),
            ),
            (None, Some(_)) => Err(
                ConfigError::Certificate(
                    String::from_str("Certificate file must be provided if key is provided"),
                ),
            ),
            (None, None) => Ok(()),
        }
    }
}

/// A certificate and a key are given together or not at all, and both must be there.
pub proof fn certificate_and_key_belong_together(
    config: NodeConfig,
    cert_exists: bool,
    key_exists: bool,
    r: Result<(), ConfigError>,
)
    requires
        call_ensures(NodeConfig::validate, (&config, cert_exists, key_exists), r),
    ensures
        r is Ok <==> (config.cert_path is None && config.key_path is None) || (config.cert_path is Some
            && config.key_path is Some && cert_exists && key_exists),
        r matches Err(e) ==> e is Certificate,
{
}

} // verus!
