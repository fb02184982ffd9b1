use hl_bootstrap::addr::Ipv4;
use hl_bootstrap::config_store::{n_gossip_peers, refreshed_config, should_refresh};
use hl_bootstrap::gossip_config::{HyperliquidChain, HyperliquidSeedPeer, OverrideGossipConfig};

const MINUTE_NS: u64 = 60_000_000_000;

fn peers(count: usize) -> Vec<HyperliquidSeedPeer> {
    (0..count)
        .map(|i| HyperliquidSeedPeer { operator_name: "t".to_string(), ip: Ipv4(10, 0, (i / 256) as u8, (i % 256) as u8) })
        .collect()
}

#[test]
fn gossip_fan_out_examples() {
    assert_eq!(n_gossip_peers(5), None);
    assert_eq!(n_gossip_peers(8), None);
    assert_eq!(n_gossip_peers(9), Some(9));
    assert_eq!(n_gossip_peers(20), Some(20));
    assert_eq!(n_gossip_peers(100), Some(100));
    assert_eq!(n_gossip_peers(150), Some(100));
    assert_eq!(n_gossip_peers(0), None);
}

#[test]
fn fresh_file_is_not_refreshed() {
    assert!(!should_refresh(Some(5 * MINUTE_NS), 15 * MINUTE_NS));
    assert!(!should_refresh(Some(15 * MINUTE_NS), 15 * MINUTE_NS));
    assert!(should_refresh(Some(15 * MINUTE_NS + 1), 15 * MINUTE_NS));
    assert!(should_refresh(None, 15 * MINUTE_NS));
}

#[test]
fn refreshed_config_holds_selected_peers() {
    let selected = peers(20);
    let c = refreshed_config(HyperliquidChain::Mainnet, &selected);
    assert_eq!(c.root_node_ips.len(), 20);
    assert_eq!(c.root_node_ips[3].ip, Ipv4(10, 0, 0, 3));
    assert_eq!(c.n_gossip_peers, Some(20));
    assert_eq!(c.chain, HyperliquidChain::Mainnet);
    assert!(c.try_new_peers);

    let few = refreshed_config(HyperliquidChain::Testnet, &peers(5));
    assert_eq!(few.n_gossip_peers, None);
    let many = refreshed_config(HyperliquidChain::Testnet, &peers(150));
    assert_eq!(many.n_gossip_peers, Some(100));
}

#[test]
fn add_root_peers_recomputes_fan_out() {
    let mut c = OverrideGossipConfig::new(HyperliquidChain::Mainnet);
    c.add_root_peers(&peers(6));
    assert_eq!(c.n_gossip_peers, None);
    c.add_root_peers(&peers(6));
    assert_eq!(c.root_node_ips.len(), 12);
    assert_eq!(c.n_gossip_peers, Some(12));
}

#[test]
fn refreshed_config_holds_each_address_once() {
    let mut selected = peers(9);
    selected.push(HyperliquidSeedPeer { operator_name: "manual".to_string(), ip: Ipv4(10, 0, 0, 2) });
    let c = refreshed_config(HyperliquidChain::Mainnet, &selected);
    assert_eq!(c.root_node_ips.len(), 9);
    assert_eq!(c.n_gossip_peers, Some(9));
}
