//! When the gossip configuration is refreshed, and what a refreshed
//! configuration holds.
use vstd::prelude::*;
use crate::gossip_config::{
    passthrough_keys, HyperliquidChain, HyperliquidSeedPeer, NodeIp, OverrideGossipConfig,
};
use crate::seeds::{ips_of, no_duplicates, node_ips_of, unique_by_ip, unique_peers};

verus! {

/// Above this many root peers the configuration sets the gossip fan-out.
pub const GOSSIP_PEERS_THRESHOLD: usize = 8;

/// The largest gossip fan-out that the node accepts.
pub const MAX_GOSSIP_PEERS: usize = 100;

/// The gossip fan-out for `count` root peers: none up to the threshold,
/// else the count capped at the maximum.
pub open spec fn gossip_peers_for(count: nat) -> Option<u16> {
    if count <= 8 {
        None
    } else if count <= 100 {
        Some(count as u16)
    } else {
        Some(100u16)
    }
}

/// Whether the configuration is rewritten: `age` is how long ago the
/// existing file was modified (in nanoseconds), absent when there is no such
/// regular file.
pub open spec fn refresh_due(age: Option<u64>, max_age: u64) -> bool {
    match age {
        None => true,
        Some(a) => a > max_age,
    }
}

pub fn should_refresh(age: Option<u64>, max_age: u64) -> (r: bool)
    ensures
        r == refresh_due(age, max_age),
{
    match age {
        None => true,
        Some(a) => a > max_age,
    }
}

pub fn n_gossip_peers(count: usize) -> (r: Option<u16>)
    ensures
        r == gossip_peers_for(count as nat),
{
    if count > GOSSIP_PEERS_THRESHOLD {
        if count > MAX_GOSSIP_PEERS {
            Some(MAX_GOSSIP_PEERS as u16)
        } else {
            Some(count as u16)
        }
    } else {
        None
    }
}

impl OverrideGossipConfig {
    /// Appends the selected peers as root peers, in order, and sets the gossip
    /// fan-out that the new number of root peers calls for.
    pub fn add_root_peers(&mut self, selected: &Vec<HyperliquidSeedPeer>)
        ensures
            node_ips_of(final(self).root_node_ips@) == node_ips_of(old(self).root_node_ips@) + ips_of(selected@),
            final(self).n_gossip_peers == gossip_peers_for(final(self).root_node_ips@.len()),
            final(self).chain == old(self).chain,
            final(self).try_new_peers == old(self).try_new_peers,
            final(self).unknown == old(self).unknown,
    {
        let ghost start = node_ips_of(self.root_node_ips@);
        let mut i: usize = 0;
        while i < selected.len()
            invariant
                i <= selected@.len(),
                node_ips_of(self.root_node_ips@) == start + ips_of(selected@.take(i as int)),
                self.chain == old(self).chain,
                self.try_new_peers == old(self).try_new_peers,
                self.unknown == old(self).unknown,
            decreases selected@.len() - i,
        {
            let ghost before = self.root_node_ips@;
            self.root_node_ips.push(NodeIp { ip: selected[i].ip });
            i = i + 1;
            assert(node_ips_of(self.root_node_ips@) =~= node_ips_of(before).push(selected@[i - 1].ip));
            assert(ips_of(selected@.take(i as int)) =~= ips_of(selected@.take(i - 1)).push(selected@[i - 1].ip));
        }
        assert(selected@.take(i as int) =~= selected@);
        self.n_gossip_peers = n_gossip_peers(self.root_node_ips.len());
    }
}

/// A refreshed configuration for `chain` whose root peers are the selected
/// peers, in order, each address once.
pub fn refreshed_config(chain: HyperliquidChain, selected: &Vec<HyperliquidSeedPeer>) -> (r: OverrideGossipConfig)
    ensures
        node_ips_of(r.root_node_ips@) == ips_of(unique_by_ip(selected@)),
        no_duplicates(node_ips_of(r.root_node_ips@)),
        r.n_gossip_peers == gossip_peers_for(unique_by_ip(selected@).len()),
        r.chain == chain,
        r.try_new_peers,
        passthrough_keys(r.unknown) == Set::<Seq<char>>::empty(),
{
    let unique = unique_peers(selected);
    let mut config = OverrideGossipConfig::new(chain);
    assert(node_ips_of(config.root_node_ips@) =~= seq![]);
    config.add_root_peers(&unique);
    assert(node_ips_of(config.root_node_ips@) =~= ips_of(unique@));
    assert(ips_of(unique@).len() == unique@.len());
    config
}

/// The fan-out law: no fan-out for at most eight root peers, otherwise the
/// number of peers capped at one hundred, and always within `[1, 100]`.
pub proof fn lemma_gossip_peers_bounds(count: nat)
    ensures
        count <= 8 ==> gossip_peers_for(count) is None,
        count > 8 ==> gossip_peers_for(count) == Some((if count < 100 { count } else { 100 }) as u16),
        gossip_peers_for(count) matches Some(k) ==> 1 <= k <= 100,
{
}

} // verus!
