use hl_bootstrap::addr::Ipv4;
use hl_bootstrap::gossip_config::{
    parse_lowercase_chain, HyperliquidChain, HyperliquidSeedPeer, NodeIp, OverrideGossipConfig,
};

#[test]
fn chain_parses_without_regard_to_case() {
    assert_eq!(HyperliquidChain::from_str("Mainnet").unwrap(), HyperliquidChain::Mainnet);
    assert_eq!(HyperliquidChain::from_str("TESTNET").unwrap(), HyperliquidChain::Testnet);
    assert_eq!(HyperliquidChain::from_str("testnet").unwrap(), HyperliquidChain::Testnet);
}

#[test]
fn unknown_chain_is_an_error_naming_it() {
    let err = HyperliquidChain::from_str("DevNet").unwrap_err();
    assert_eq!(err.chain, "devnet");
    let err = parse_lowercase_chain("Mainnet").unwrap_err();
    assert_eq!(err.chain, "Mainnet");
    assert_eq!(parse_lowercase_chain("mainnet").unwrap(), HyperliquidChain::Mainnet);
}

#[test]
fn chain_canonical_names() {
    assert_eq!(HyperliquidChain::Mainnet.to_string(), "Mainnet");
    assert_eq!(HyperliquidChain::Testnet.to_string(), "Testnet");
}

#[test]
fn new_config_is_empty() {
    let c = OverrideGossipConfig::new(HyperliquidChain::Testnet);
    assert!(c.root_node_ips.is_empty());
    assert!(c.try_new_peers);
    assert_eq!(c.chain, HyperliquidChain::Testnet);
    assert_eq!(c.n_gossip_peers, None);
    assert!(c.unknown.is_empty());
}

#[test]
fn node_ip_from_seed_peer() {
    let p = HyperliquidSeedPeer { operator_name: "x".to_string(), ip: Ipv4(9, 8, 7, 6) };
    let n: NodeIp = p.into();
    assert_eq!(n, NodeIp { ip: Ipv4(9, 8, 7, 6) });
}
