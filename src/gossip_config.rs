//! The gossip configuration that the node reads at startup, the chain
//! selector, seed peers and how the peers of several sources are merged.
use vstd::prelude::*;
use crate::addr::Ipv4;
use crate::text::{lower_of, lowercase, same_text};

verus! {

#[verifier::external_type_specification]
#[verifier::external_body]
pub struct ExJsonValue(serde_json::Value);

#[verifier::external_type_specification]
#[verifier::external_body]
#[verifier::reject_recursive_types(K)]
#[verifier::reject_recursive_types(V)]
pub struct ExJsonMap<K, V>(serde_json::Map<K, V>);

/// The names of the fields that a passthrough map holds.
pub uninterp spec fn passthrough_keys(m: serde_json::Map<String, serde_json::Value>) -> Set<Seq<char>>;

/// The network that a node runs on.
#[derive(Clone, Copy, Debug, PartialEq, Eq, Hash, Structural)]
pub enum HyperliquidChain {
    Mainnet,
    Testnet,
}

/// A chain name that is neither mainnet nor testnet; holds the name as it
/// was compared, in lowercase.
#[derive(Clone, Debug)]
pub struct ChainParseError {
    pub chain: String,
}

/// The chain that a lowercase name selects.
pub open spec fn chain_named(t: Seq<char>) -> Option<HyperliquidChain> {
    if t == "mainnet"@ {
        Some(HyperliquidChain::Mainnet)
    } else if t == "testnet"@ {
        Some(HyperliquidChain::Testnet)
    } else {
        None
    }
}

pub open spec fn chain_text(c: HyperliquidChain) -> Seq<char> {
    match c {
        HyperliquidChain::Mainnet => "Mainnet"@,
        HyperliquidChain::Testnet => "Testnet"@,
    }
}

/// Selects the chain named by `t`, a name already in lowercase.
pub fn parse_lowercase_chain(t: &str) -> (r: Result<HyperliquidChain, ChainParseError>)
    ensures
        match chain_named(t@) {
            Some(c) => r == Ok::<HyperliquidChain, ChainParseError>(c),
            None => r matches Err(e) && e.chain@ == t@,
        },
{
    if same_text(t, "mainnet") {
        Ok(HyperliquidChain::Mainnet)
    } else if same_text(t, "testnet") {
        Ok(HyperliquidChain::Testnet)
    } else {
        Err(ChainParseError { chain: String::from_str(t) })
    }
}

impl HyperliquidChain {
    /// Parses a chain name without regard to case.
    pub fn from_str(s: &str) -> (r: Result<HyperliquidChain, ChainParseError>)
        ensures
            match chain_named(lower_of(s@)) {
                Some(c) => r == Ok::<HyperliquidChain, ChainParseError>(c),
                None => r matches Err(e) && e.chain@ == lower_of(s@),
            },
    {
        let lower = lowercase(s);
        parse_lowercase_chain(lower.as_str())
    }

    /// The canonical name of the chain.
    pub fn to_string(&self) -> (r: String)
        ensures
            r@ == chain_text(*self),
    {
        match self {
            HyperliquidChain::Mainnet => String::from_str("Mainnet"),
            HyperliquidChain::Testnet => String::from_str("Testnet"),
        }
    }
}

/// A root peer entry of the gossip configuration.
#[derive(Clone, Copy, Debug, PartialEq, Eq, Hash, Structural)]
pub struct NodeIp {
    pub ip: Ipv4,
}

/// A candidate peer and the source that named it.
#[derive(Clone, Debug)]
pub struct HyperliquidSeedPeer {
    pub operator_name: String,
    pub ip: Ipv4,
}

impl HyperliquidSeedPeer {
    /// A copy of the peer, equal to it.
    pub fn duplicate(&self) -> (r: HyperliquidSeedPeer)
        ensures
            r == *self,
    {
        HyperliquidSeedPeer { operator_name: self.operator_name.clone(), ip: self.ip }
    }
}

impl From<HyperliquidSeedPeer> for NodeIp {
    fn from(value: HyperliquidSeedPeer) -> (r: NodeIp) {
        NodeIp { ip: value.ip }
    }
}

impl vstd::std_specs::convert::FromSpecImpl<HyperliquidSeedPeer> for NodeIp {
    open spec fn obeys_from_spec() -> bool {
        true
    }

    open spec fn from_spec(v: HyperliquidSeedPeer) -> NodeIp {
        NodeIp { ip: v.ip }
    }
}

/// The gossip configuration file of the node.
#[derive(Debug)]
pub struct OverrideGossipConfig {
    pub root_node_ips: Vec<NodeIp>,
    pub try_new_peers: bool,
    pub chain: HyperliquidChain,
    pub n_gossip_peers: Option<u16>,
    /// Fields of the file that this library does not interpret, kept as
    /// they were read.
    pub unknown: serde_json::Map<String, serde_json::Value>,
}

/// Relies on `serde_json::Map::<String, Value>::new`: a new map is empty.
#[verifier::external_body]
fn empty_passthrough() -> (r: serde_json::Map<String, serde_json::Value>)
    ensures
        passthrough_keys(r) == Set::<Seq<char>>::empty(),
{
    serde_json::Map::new()
}

impl OverrideGossipConfig {
    /// A configuration for `chain` with no root peers and no passthrough
    /// fields, which lets the node try new peers and keeps its own gossip
    /// fan-out.
    pub fn new(chain: HyperliquidChain) -> (r: OverrideGossipConfig)
        ensures
            r.root_node_ips@.len() == 0,
            r.try_new_peers,
            r.chain == chain,
            r.n_gossip_peers is None,
            passthrough_keys(r.unknown) == Set::<Seq<char>>::empty(),
    {
        OverrideGossipConfig {
            root_node_ips: Vec::new(),
            try_new_peers: true,
            chain,
            n_gossip_peers: None,
            unknown: empty_passthrough(),
        }
    }
}

/// The chain setting of the supervisor's own configuration file.
#[derive(Clone, Copy, Debug)]
pub struct VisorConfig {
    pub chain: HyperliquidChain,
}

} // verus!
