//! The decisions of the bootstrap run: what to do with the command line's
//! free arguments, which configuration a refresh writes, and where kernel
//! settings and the node's status endpoint are found.
use vstd::prelude::*;
use crate::config_store::{gossip_peers_for, refreshed_config};
use crate::gossip_config::{passthrough_keys, HyperliquidChain, HyperliquidSeedPeer, OverrideGossipConfig};
use crate::seeds::{ips_of, lemma_merged_addresses_unique, no_duplicates, node_ips_of, unique_by_ip};
use crate::text::same_text;

verus! {

/// What the process does once the gossip configuration is in place.
#[derive(Clone, Copy, Debug, PartialEq, Eq, Structural)]
pub enum LaunchMode {
    /// Run some other program in place of this process.
    ExecOther,
    /// Stop: no node command was given.
    SetupOnly,
    /// Run the node supervisor in place of this process.
    ExecNode,
    /// Start the node supervisor as a child and stay resident beside it.
    Supervise,
}

pub open spec fn is_node_command(arg: Seq<char>) -> bool {
    arg == "run-non-validator"@ || arg == "run-validator"@
}

/// Whether a first free argument asks to run the node.
pub fn runs_node(arg: &str) -> (r: bool)
    ensures
        r == is_node_command(arg@),
{
    same_text(arg, "run-non-validator") || same_text(arg, "run-validator")
}

/// Chooses what to do from the first free argument (if any), and whether
/// pruning or metrics were asked for.
pub fn launch_mode(first_arg: Option<&str>, prune: bool, metrics: bool) -> (r: LaunchMode)
    ensures
        r == match first_arg {
            None => LaunchMode::SetupOnly,
            Some(a) => if !is_node_command(a@) {
                LaunchMode::ExecOther
            } else if prune || metrics {
                LaunchMode::Supervise
            } else {
                LaunchMode::ExecNode
            },
        },
{
    match first_arg {
        None => LaunchMode::SetupOnly,
        Some(a) => if !runs_node(a) {
            LaunchMode::ExecOther
        } else if prune || metrics {
            LaunchMode::Supervise
        } else {
            LaunchMode::ExecNode
        },
    }
}

/// Why a bootstrap run could not write a configuration.
#[derive(Clone, Copy, Debug, PartialEq, Eq, Structural)]
pub enum BootstrapError {
    /// No candidate answered within the latency limit, or there was none.
    NoPeersWithinLatency,
}

/// The configuration that a refresh writes, from the peers that the prober
/// selected: those peers, each address once. A refresh with no selected
/// peer fails.
pub fn config_from_tested_peers(chain: HyperliquidChain, tested: &Vec<HyperliquidSeedPeer>) -> (r: Result<
    OverrideGossipConfig,
    BootstrapError,
>)
    ensures
        tested@.len() == 0 ==> r == Err::<OverrideGossipConfig, BootstrapError>(
            BootstrapError::NoPeersWithinLatency,
        ),
        tested@.len() > 0 ==> (r matches Ok(c) && node_ips_of(c.root_node_ips@) == ips_of(
            unique_by_ip(tested@),
        ) && no_duplicates(node_ips_of(c.root_node_ips@)) && c.root_node_ips@.len() >= 1
            && c.n_gossip_peers == gossip_peers_for(unique_by_ip(tested@).len()) && c.chain == chain
            && c.try_new_peers && passthrough_keys(c.unknown) == Set::<Seq<char>>::empty()),
{
    if tested.len() == 0 {
        return Err(BootstrapError::NoPeersWithinLatency);
    }
    let c = refreshed_config(chain, tested);
    proof {
        lemma_merged_addresses_unique(tested@);
        assert(ips_of(tested@)[0] == tested@[0].ip);
        assert(ips_of(tested@).contains(tested@[0].ip));
        assert(ips_of(unique_by_ip(tested@)).len() >= 1);
        assert(node_ips_of(c.root_node_ips@).len() == c.root_node_ips@.len());
    }
    Ok(c)
}

/// `key` with each `from` replaced by `to`.
pub open spec fn replaced(key: Seq<char>, from: char, to: char) -> Seq<char> {
    key.map_values(|c: char| if c == from { to } else { c })
}

fn replace_char(key: &str, from: char, to: char) -> (r: String)
    ensures
        r@ == replaced(key@, from, to),
{
    let n = key.unicode_len();
    let mut out = String::new();
    let mut k: usize = 0;
    while k < n
        invariant
            n == key@.len(),
            k <= n,
            out@ == replaced(key@.take(k as int), from, to),
        decreases n - k,
    {
        let c = key.get_char(k);
        let piece = if c == from {
            to
        } else {
            c
        };
        push_char(&mut out, piece);
        k = k + 1;
        assert(out@ =~= replaced(key@.take(k as int), from, to));
    }
    assert(key@.take(n as int) =~= key@);
    out
}

/// Relies on `String::push`: appends one character.
#[verifier::external_body]
fn push_char(s: &mut String, c: char)
    ensures
        final(s)@ == old(s)@.push(c),
{
    s.push(c)
}

/// The file under `/proc/sys` that holds the kernel setting `key`, written
/// with dots (`net.ipv6.conf.all.disable_ipv6`).
pub fn sysctl_path(key: &str) -> (r: String)
    ensures
        r@ == "/proc/sys/"@ + replaced(key@, '.', '/'),
{
    let mut path = String::from_str("/proc/sys/");
    let rel = replace_char(key, '.', '/');
    path.append(rel.as_str());
    path
}

/// The setting's name with dots, however it was written.
pub fn sysctl_key_name(key: &str) -> (r: String)
    ensures
        r@ == replaced(key@, '/', '.'),
{
    replace_char(key, '/', '.')
}

/// The node's status endpoint under its base URL.
pub fn info_url(node_url: &str) -> (r: String)
    ensures
        r@ == node_url@ + "/info"@,
{
    let mut url = String::from_str(node_url);
    url.append("/info");
    url
}

} // verus!
