use hl_bootstrap::addr::Ipv4;
use hl_bootstrap::gossip_config::{HyperliquidChain, HyperliquidSeedPeer, NodeIp, OverrideGossipConfig};
use hl_bootstrap::seeds::{
    add_extra_peers, merge_seed_peers, seeds_from_api, seeds_from_gossip_config, SeedError,
};

fn peer(name: &str, ip: Ipv4) -> HyperliquidSeedPeer {
    HyperliquidSeedPeer { operator_name: name.to_string(), ip }
}

#[test]
fn merge_keeps_each_address_once() {
    let api = vec![peer("api", Ipv4(1, 1, 1, 1)), peer("api", Ipv4(2, 2, 2, 2))];
    let table = vec![peer("op-a", Ipv4(2, 2, 2, 2)), peer("op-b", Ipv4(3, 3, 3, 3)), peer("op-c", Ipv4(1, 1, 1, 1))];
    let merged = merge_seed_peers(&vec![api, table]).unwrap();
    let ips: Vec<Ipv4> = merged.iter().map(|p| p.ip).collect();
    assert_eq!(ips, vec![Ipv4(1, 1, 1, 1), Ipv4(2, 2, 2, 2), Ipv4(3, 3, 3, 3)]);
    assert_eq!(merged[1].operator_name, "api");
    assert_eq!(merged[2].operator_name, "op-b");
}

#[test]
fn merge_survives_one_failed_source() {
    let table = vec![peer("op", Ipv4(4, 4, 4, 4))];
    let merged = merge_seed_peers(&vec![vec![], table]).unwrap();
    assert_eq!(merged.len(), 1);
    assert_eq!(merged[0].ip, Ipv4(4, 4, 4, 4));
}

#[test]
fn merge_fails_when_no_source_gave_peers() {
    assert_eq!(merge_seed_peers(&vec![vec![], vec![]]).unwrap_err(), SeedError::NoUsablePeers);
    assert_eq!(merge_seed_peers(&vec![]).unwrap_err(), SeedError::NoUsablePeers);
}

#[test]
fn api_list_is_filtered_and_labelled() {
    let ips = vec![Ipv4(1, 2, 3, 4), Ipv4(5, 6, 7, 8), Ipv4(9, 9, 9, 9)];
    let ignored = vec![Ipv4(5, 6, 7, 8)];
    let seeds = seeds_from_api(&ips, &ignored).unwrap();
    assert_eq!(seeds.len(), 2);
    assert_eq!(seeds[0].ip, Ipv4(1, 2, 3, 4));
    assert_eq!(seeds[1].ip, Ipv4(9, 9, 9, 9));
    assert!(seeds.iter().all(|p| p.operator_name == "Hyperliquid API-provided IP"));
}

#[test]
fn empty_api_list_is_an_error() {
    assert_eq!(seeds_from_api(&vec![], &vec![]).unwrap_err(), SeedError::EmptyPeerList);
}

#[test]
fn api_list_all_ignored_is_empty_not_error() {
    let ips = vec![Ipv4(1, 2, 3, 4)];
    assert!(seeds_from_api(&ips, &ips).unwrap().is_empty());
}

#[test]
fn hosted_config_peers_are_filtered_and_labelled() {
    let mut config = OverrideGossipConfig::new(HyperliquidChain::Testnet);
    config.root_node_ips.push(NodeIp { ip: Ipv4(10, 0, 0, 1) });
    config.root_node_ips.push(NodeIp { ip: Ipv4(10, 0, 0, 2) });
    let seeds = seeds_from_gossip_config(&config, &vec![Ipv4(10, 0, 0, 1)]);
    assert_eq!(seeds.len(), 1);
    assert_eq!(seeds[0].ip, Ipv4(10, 0, 0, 2));
    assert_eq!(seeds[0].operator_name, "Imperator.co");
}

#[test]
fn extra_peers_are_appended_as_manual() {
    let mut peers = vec![peer("api", Ipv4(1, 1, 1, 1))];
    add_extra_peers(&mut peers, &vec![Ipv4(1, 1, 1, 1), Ipv4(2, 2, 2, 2)]);
    assert_eq!(peers.len(), 3);
    assert_eq!(peers[0].operator_name, "api");
    assert_eq!(peers[1].operator_name, "manual");
    assert_eq!(peers[1].ip, Ipv4(1, 1, 1, 1));
    assert_eq!(peers[2].ip, Ipv4(2, 2, 2, 2));
}

#[test]
fn hosted_config_without_usable_peers_gives_empty_list() {
    let mut config = OverrideGossipConfig::new(HyperliquidChain::Testnet);
    assert!(seeds_from_gossip_config(&config, &vec![]).is_empty());
    config.root_node_ips.push(NodeIp { ip: Ipv4(10, 0, 0, 1) });
    let seeds = seeds_from_gossip_config(&config, &vec![Ipv4(10, 0, 0, 1)]);
    assert!(seeds.is_empty());
    // The aggregator then fails, as for any source set that gave no peer.
    assert_eq!(merge_seed_peers(&vec![seeds]).unwrap_err(), SeedError::NoUsablePeers);
}

#[test]
fn unique_peers_keeps_first_of_each_address() {
    let peers = vec![peer("a", Ipv4(1, 1, 1, 1)), peer("manual", Ipv4(1, 1, 1, 1)), peer("b", Ipv4(2, 2, 2, 2))];
    let u = hl_bootstrap::seeds::unique_peers(&peers);
    assert_eq!(u.len(), 2);
    assert_eq!(u[0].operator_name, "a");
    assert_eq!(u[1].ip, Ipv4(2, 2, 2, 2));
}
