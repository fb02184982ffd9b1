use hl_bootstrap::addr::Ipv4;
use hl_bootstrap::gossip_config::HyperliquidSeedPeer;
use hl_bootstrap::speedtest::{fastest_indices, speedtest_select};

fn candidates(n: usize) -> Vec<HyperliquidSeedPeer> {
    (0..n).map(|i| HyperliquidSeedPeer { operator_name: format!("op{i}"), ip: Ipv4(10, 0, 0, i as u8) }).collect()
}

#[test]
fn picks_fastest_in_order_with_stable_ties() {
    let lat = vec![Some(30), None, Some(10), Some(30), Some(20), None, Some(10)];
    assert_eq!(fastest_indices(&lat, 10), vec![2, 6, 4, 0, 3]);
    assert_eq!(fastest_indices(&lat, 3), vec![2, 6, 4]);
    assert_eq!(fastest_indices(&lat, 0), Vec::<usize>::new());
}

#[test]
fn never_more_than_n_and_no_slower_than_the_rest() {
    let lat = vec![Some(5), Some(1), Some(9), Some(3), Some(7)];
    let idx = fastest_indices(&lat, 2);
    assert_eq!(idx.len(), 2);
    let worst_picked = idx.iter().map(|&i| lat[i].unwrap()).max().unwrap();
    for (j, l) in lat.iter().enumerate() {
        if !idx.contains(&j) {
            assert!(worst_picked <= l.unwrap());
        }
    }
}

#[test]
fn all_probes_failed_gives_empty() {
    let c = candidates(4);
    let lat = vec![None, None, None, None];
    assert!(speedtest_select(&c, &lat, 5).is_empty());
    assert!(speedtest_select(&vec![], &vec![], 5).is_empty());
}

#[test]
fn selected_peers_follow_ranking() {
    let c = candidates(4);
    let lat = vec![Some(40), Some(10), None, Some(20)];
    let picked = speedtest_select(&c, &lat, 2);
    let ips: Vec<Ipv4> = picked.iter().map(|p| p.ip).collect();
    assert_eq!(ips, vec![Ipv4(10, 0, 0, 1), Ipv4(10, 0, 0, 3)]);
    assert_eq!(picked[0].operator_name, "op1");
}
