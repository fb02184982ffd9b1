//! Seed peers from the several discovery sources: filtering of ignored
//! addresses, labelling, and merging with duplicates removed by address.
use vstd::prelude::*;
use crate::addr::Ipv4;
use crate::gossip_config::{HyperliquidSeedPeer, NodeIp, OverrideGossipConfig};

verus! {

/// Why a discovery source gave no usable peers.
#[derive(Clone, Copy, Debug, PartialEq, Eq, Structural)]
pub enum SeedError {
    /// The source answered with an empty list.
    EmptyPeerList,
    /// No source gave a usable peer.
    NoUsablePeers,
}

pub open spec fn ips_of(peers: Seq<HyperliquidSeedPeer>) -> Seq<Ipv4> {
    peers.map_values(|p: HyperliquidSeedPeer| p.ip)
}

pub open spec fn node_ips_of(nodes: Seq<NodeIp>) -> Seq<Ipv4> {
    nodes.map_values(|n: NodeIp| n.ip)
}

/// The addresses of `ips` that `ignored` does not hold, in order.
pub open spec fn kept(ips: Seq<Ipv4>, ignored: Seq<Ipv4>) -> Seq<Ipv4>
    decreases ips.len(),
{
    if ips.len() == 0 {
        seq![]
    } else if ignored.contains(ips.last()) {
        kept(ips.drop_last(), ignored)
    } else {
        kept(ips.drop_last(), ignored).push(ips.last())
    }
}

/// Every peer of `peers` carries the label `label`.
pub open spec fn all_labelled(peers: Seq<HyperliquidSeedPeer>, label: Seq<char>) -> bool {
    forall|k: int| 0 <= k < peers.len() ==> (#[trigger] peers[k]).operator_name@ == label
}

/// `s` with each peer whose address an earlier peer has left out.
pub open spec fn unique_by_ip(s: Seq<HyperliquidSeedPeer>) -> Seq<HyperliquidSeedPeer>
    decreases s.len(),
{
    if s.len() == 0 {
        seq![]
    } else {
        let d = unique_by_ip(s.drop_last());
        if ips_of(d).contains(s.last().ip) {
            d
        } else {
            d.push(s.last())
        }
    }
}

pub open spec fn no_duplicates(ips: Seq<Ipv4>) -> bool {
    forall|i: int, j: int| 0 <= i < j < ips.len() ==> ips[i] != ips[j]
}

/// Whether `v` holds `ip`.
pub fn contains_ip(v: &Vec<Ipv4>, ip: Ipv4) -> (r: bool)
    ensures
        r == v@.contains(ip),
{
    let mut i: usize = 0;
    while i < v.len()
        invariant
            i <= v@.len(),
            forall|k: int| 0 <= k < i ==> v@[k] != ip,
        decreases v@.len() - i,
    {
        if v[i] == ip {
            return true;
        }
        i = i + 1;
    }
    false
}

/// The peers of `ips` that `ignored` does not hold, each labelled `label`.
fn labelled_peers(ips: &Vec<Ipv4>, ignored: &Vec<Ipv4>, label: &str) -> (r: Vec<HyperliquidSeedPeer>)
    ensures
        ips_of(r@) == kept(ips@, ignored@),
        all_labelled(r@, label@),
{
    let mut out: Vec<HyperliquidSeedPeer> = Vec::new();
    let mut i: usize = 0;
    while i < ips.len()
        invariant
            i <= ips@.len(),
            ips_of(out@) == kept(ips@.take(i as int), ignored@),
            all_labelled(out@, label@),
        decreases ips@.len() - i,
    {
        let ip = ips[i];
        assert(ips@.take(i + 1).drop_last() =~= ips@.take(i as int));
        if !contains_ip(ignored, ip) {
            out.push(HyperliquidSeedPeer { operator_name: String::from_str(label), ip });
            assert(ips_of(out@) =~= kept(ips@.take(i + 1), ignored@));
        }
        i = i + 1;
    }
    assert(ips@.take(ips@.len() as int) =~= ips@);
    out
}

/// The peers of the list of addresses that the exchange's API gives, with
/// ignored addresses left out; an empty list is an error.
pub fn seeds_from_api(ips: &Vec<Ipv4>, ignored: &Vec<Ipv4>) -> (r: Result<
    Vec<HyperliquidSeedPeer>,
    SeedError,
>)
    ensures
        ips@.len() == 0 ==> r == Err::<Vec<HyperliquidSeedPeer>, SeedError>(SeedError::EmptyPeerList),
        ips@.len() > 0 ==> (r matches Ok(p) && ips_of(p@) == kept(ips@, ignored@) && all_labelled(
            p@,
            "Hyperliquid API-provided IP"@,
        )),
{
    if ips.len() == 0 {
        return Err(SeedError::EmptyPeerList);
    }
    Ok(labelled_peers(ips, ignored, "Hyperliquid API-provided IP"))
}

/// The root peers of a hosted gossip configuration, with ignored addresses
/// left out; the list may come out empty.
pub fn seeds_from_gossip_config(config: &OverrideGossipConfig, ignored: &Vec<Ipv4>) -> (r: Vec<
    HyperliquidSeedPeer,
>)
    ensures
        ips_of(r@) == kept(node_ips_of(config.root_node_ips@), ignored@),
        all_labelled(r@, "Imperator.co"@),
{
    let mut ips: Vec<Ipv4> = Vec::new();
    let mut i: usize = 0;
    while i < config.root_node_ips.len()
        invariant
            i <= config.root_node_ips@.len(),
            ips@ == node_ips_of(config.root_node_ips@.take(i as int)),
        decreases config.root_node_ips@.len() - i,
    {
        ips.push(config.root_node_ips[i].ip);
        i = i + 1;
        assert(ips@ =~= node_ips_of(config.root_node_ips@.take(i as int)));
    }
    assert(config.root_node_ips@.take(i as int) =~= config.root_node_ips@);
    labelled_peers(&ips, ignored, "Imperator.co")
}

/// A merge of the peers of several sources holds each address exactly once,
/// holds exactly the addresses that the sources gave, and holds only peers
/// that a source gave.
pub proof fn lemma_merged_addresses_unique(s: Seq<HyperliquidSeedPeer>)
    ensures
        no_duplicates(ips_of(unique_by_ip(s))),
        forall|ip: Ipv4| ips_of(unique_by_ip(s)).contains(ip) <==> ips_of(s).contains(ip),
        forall|k: int| 0 <= k < unique_by_ip(s).len() ==> s.contains(#[trigger] unique_by_ip(s)[k]),
    decreases s.len(),
{
    if s.len() > 0 {
        let p = s.drop_last();
        lemma_merged_addresses_unique(p);
        let d = unique_by_ip(p);
        assert forall|ip: Ipv4| ips_of(s).contains(ip) <==> (ips_of(p).contains(ip) || ip == s.last().ip) by {
            if ips_of(s).contains(ip) {
                let k = choose|k: int| 0 <= k < ips_of(s).len() && ips_of(s)[k] == ip;
                if k < p.len() {
                    assert(ips_of(p)[k] == ip);
                }
            }
            if ips_of(p).contains(ip) {
                let k = choose|k: int| 0 <= k < ips_of(p).len() && ips_of(p)[k] == ip;
                assert(ips_of(s)[k] == ip);
            }
            if ip == s.last().ip {
                assert(ips_of(s)[s.len() - 1] == ip);
            }
        }
        if !ips_of(d).contains(s.last().ip) {
            let e = d.push(s.last());
            assert(ips_of(e) =~= ips_of(d).push(s.last().ip));
            assert forall|ip: Ipv4| ips_of(e).contains(ip) <==> (ips_of(d).contains(ip) || ip == s.last().ip) by {
                if ips_of(e).contains(ip) {
                    let k = choose|k: int| 0 <= k < ips_of(e).len() && ips_of(e)[k] == ip;
                    if k < d.len() {
                        assert(ips_of(d)[k] == ip);
                    }
                }
                if ips_of(d).contains(ip) {
                    let k = choose|k: int| 0 <= k < ips_of(d).len() && ips_of(d)[k] == ip;
                    assert(ips_of(e)[k] == ip);
                }
                if ip == s.last().ip {
                    assert(ips_of(e)[d.len() as int] == ip);
                }
            }
            assert forall|i: int, j: int| 0 <= i < j < ips_of(e).len() implies ips_of(e)[i] != ips_of(e)[j] by {
                if j == d.len() {
                    assert(ips_of(d)[i] == ips_of(e)[i]);
                } else {
                    assert(ips_of(d)[i] == ips_of(e)[i]);
                    assert(ips_of(d)[j] == ips_of(e)[j]);
                }
            }
            assert forall|k: int| 0 <= k < e.len() implies s.contains(#[trigger] e[k]) by {
                if k < d.len() {
                    assert(p.contains(d[k]));
                    let t = choose|t: int| 0 <= t < p.len() && p[t] == d[k];
                    assert(s[t] == d[k]);
                } else {
                    assert(s[s.len() - 1] == e[k]);
                }
            }
        } else {
            assert forall|k: int| 0 <= k < d.len() implies s.contains(#[trigger] d[k]) by {
                assert(p.contains(d[k]));
                let t = choose|t: int| 0 <= t < p.len() && p[t] == d[k];
                assert(s[t] == d[k]);
            }
        }
    }
}

/// Appends to `out` each peer of `more` whose address `out` does not hold yet.
fn append_unique(out: &mut Vec<HyperliquidSeedPeer>, more: &Vec<HyperliquidSeedPeer>, Ghost(before): Ghost<Seq<HyperliquidSeedPeer>>)
    requires
        old(out)@ == unique_by_ip(before),
    ensures
        final(out)@ == unique_by_ip(before + more@),
{
    let mut i: usize = 0;
    while i < more.len()
        invariant
            i <= more@.len(),
            out@ == unique_by_ip(before + more@.take(i as int)),
        decreases more@.len() - i,
    {
        let ghost prev = before + more@.take(i as int);
        let ghost next = before + more@.take(i + 1);
        assert(next.drop_last() =~= prev);
        assert(next.last() == more@[i as int]);
        let mut seen = false;
        let mut j: usize = 0;
        while j < out.len()
            invariant
                j <= out@.len(),
                i < more@.len(),
                seen == exists|k: int| 0 <= k < j && out@[k].ip == more@[i as int].ip,
            decreases out@.len() - j,
        {
            if out[j].ip == more[i].ip {
                seen = true;
            }
            j = j + 1;
        }
        proof {
            if seen {
                let k = choose|k: int| 0 <= k < j && out@[k].ip == more@[i as int].ip;
                assert(ips_of(out@)[k] == more@[i as int].ip);
            } else {
                assert forall|k: int| 0 <= k < ips_of(out@).len() implies ips_of(out@)[k] != more@[i as int].ip by {
                    assert(out@[k].ip == ips_of(out@)[k]);
                }
            }
        }
        if !seen {
            out.push(more[i].duplicate());
        }
        i = i + 1;
    }
    assert(more@.take(more@.len() as int) =~= more@);
}

/// The peers with each peer whose address an earlier peer has left out.
pub fn unique_peers(peers: &Vec<HyperliquidSeedPeer>) -> (r: Vec<HyperliquidSeedPeer>)
    ensures
        r@ == unique_by_ip(peers@),
        no_duplicates(ips_of(r@)),
        r@.len() == 0 <==> peers@.len() == 0,
{
    let mut out: Vec<HyperliquidSeedPeer> = Vec::new();
    assert(unique_by_ip(Seq::<HyperliquidSeedPeer>::empty()) == Seq::<HyperliquidSeedPeer>::empty());
    append_unique(&mut out, peers, Ghost(Seq::empty()));
    assert(Seq::<HyperliquidSeedPeer>::empty() + peers@ =~= peers@);
    proof {
        lemma_merged_addresses_unique(peers@);
        if peers@.len() > 0 {
            assert(ips_of(peers@)[0] == peers@[0].ip);
            assert(ips_of(peers@).contains(peers@[0].ip));
            assert(ips_of(out@).contains(peers@[0].ip));
        }
    }
    out
}

/// Merges the peers of the sources that answered, keeping the first peer of
/// each address; fails when no source gave a peer.
pub fn merge_seed_peers(sources: &Vec<Vec<HyperliquidSeedPeer>>) -> (r: Result<Vec<HyperliquidSeedPeer>, SeedError>)
    ensures
        ({
            let all = sources@.map_values(|v: Vec<HyperliquidSeedPeer>| v@).flatten();
            if unique_by_ip(all).len() == 0 {
                r == Err::<Vec<HyperliquidSeedPeer>, SeedError>(SeedError::NoUsablePeers)
            } else {
                r matches Ok(p) && p@ == unique_by_ip(all)
            }
        }),
{
    let mut out: Vec<HyperliquidSeedPeer> = Vec::new();
    let mut i: usize = 0;
    let ghost views = sources@.map_values(|v: Vec<HyperliquidSeedPeer>| v@);
    while i < sources.len()
        invariant
            i <= sources@.len(),
            views == sources@.map_values(|v: Vec<HyperliquidSeedPeer>| v@),
            out@ == unique_by_ip(views.take(i as int).flatten()),
        decreases sources@.len() - i,
    {
        let ghost before = views.take(i as int).flatten();
        append_unique(&mut out, &sources[i], Ghost(before));
        proof {
            assert(views.take(i + 1).drop_last() =~= views.take(i as int));
            assert(views.take(i + 1).last() == sources@[i as int]@);
            views.take(i as int).lemma_flatten_push(sources@[i as int]@);
            assert(views.take(i + 1) =~= views.take(i as int).push(sources@[i as int]@));
        }
        i = i + 1;
    }
    assert(views.take(i as int) =~= views);
    if out.len() == 0 {
        return Err(SeedError::NoUsablePeers);
    }
    Ok(out)
}

/// Appends the operator's extra peers, labelled `manual`, after the
/// discovered ones.
pub fn add_extra_peers(peers: &mut Vec<HyperliquidSeedPeer>, extra: &Vec<Ipv4>)
    ensures
        final(peers)@.len() == old(peers)@.len() + extra@.len(),
        final(peers)@.take(old(peers)@.len() as int) == old(peers)@,
        ips_of(final(peers)@.skip(old(peers)@.len() as int)) == extra@,
        all_labelled(final(peers)@.skip(old(peers)@.len() as int), "manual"@),
{
    let ghost start = peers@;
    let mut i: usize = 0;
    while i < extra.len()
        invariant
            i <= extra@.len(),
            peers@.len() == start.len() + i,
            peers@.take(start.len() as int) == start,
            ips_of(peers@.skip(start.len() as int)) == extra@.take(i as int),
            all_labelled(peers@.skip(start.len() as int), "manual"@),
        decreases extra@.len() - i,
    {
        let ghost before_push = peers@;
        peers.push(HyperliquidSeedPeer { operator_name: String::from_str("manual"), ip: extra[i] });
        i = i + 1;
        proof {
            let n0 = start.len() as int;
            assert(peers@.take(n0) =~= start);
            assert(peers@.skip(n0) =~= before_push.skip(n0).push(peers@.last()));
            assert(ips_of(peers@.skip(n0)) =~= extra@.take(i as int));
        }
    }
    assert(extra@.take(extra@.len() as int) =~= extra@);
}

} // verus!
