//! Ranking of probed peers by measured latency.
use vstd::prelude::*;
use crate::gossip_config::HyperliquidSeedPeer;

verus! {

/// The port that peers gossip on, which the probes connect to.
pub const GOSSIP_PORT: u16 = 4001;

/// How many probes may be in flight at once.
pub const PROBE_CONCURRENCY: usize = 64;

/// Candidate `i` answered its probe.
pub open spec fn answered(lat: Seq<Option<u64>>, i: int) -> bool {
    0 <= i < lat.len() && lat[i] is Some
}

/// Candidate `i` ranks before candidate `j`: lower latency, or the same
/// latency and discovered earlier.
pub open spec fn ranks_before(lat: Seq<Option<u64>>, i: int, j: int) -> bool {
    let a = lat[i]->Some_0;
    let b = lat[j]->Some_0;
    a < b || (a == b && i < j)
}

/// `idx` lists the candidates that answered, fastest first, cut off after
/// `n`: each answered candidate left out ranks after all those listed, and
/// is left out only when `n` are listed.
pub open spec fn is_fastest_selection(lat: Seq<Option<u64>>, n: nat, idx: Seq<usize>) -> bool {
    &&& idx.len() <= n
    &&& forall|k: int| 0 <= k < idx.len() ==> answered(lat, #[trigger] idx[k] as int)
    &&& forall|k: int, l: int| 0 <= k < l < idx.len() ==> ranks_before(lat, idx[k] as int, idx[l] as int)
    &&& forall|j: int| answered(lat, j) && !idx.contains(j as usize) ==> {
        &&& idx.len() == n
        &&& forall|k: int| 0 <= k < idx.len() ==> ranks_before(lat, #[trigger] idx[k] as int, j)
    }
}

/// The indices of the `n` candidates that answered fastest, fastest first;
/// `latencies[i]` is what the probe of candidate `i` measured, absent when it
/// failed or timed out.
pub fn fastest_indices(latencies: &Vec<Option<u64>>, n: usize) -> (r: Vec<usize>)
    ensures
        is_fastest_selection(latencies@, n as nat, r@),
{
    let ghost lat = latencies@;
    let mut out: Vec<usize> = Vec::new();
    let mut last: Option<(u64, usize)> = None;
    while out.len() < n
        invariant
            lat == latencies@,
            out@.len() <= n,
            forall|k: int| 0 <= k < out@.len() ==> answered(lat, #[trigger] out@[k] as int),
            forall|k: int, l: int| 0 <= k < l < out@.len() ==> ranks_before(lat, out@[k] as int, out@[l] as int),
            last is None <==> out@.len() == 0,
            last matches Some((l, b)) ==> b == out@.last() && lat[b as int] == Some(l),
            // Every answered candidate that ranks no later than the last one
            // listed is listed.
            last matches Some((l, b)) ==> forall|j: int| answered(lat, j) && !(#[trigger] out@.contains(j as usize))
                ==> ranks_before(lat, b as int, j),
        ensures
            forall|t: int| answered(lat, t) && !(#[trigger] out@.contains(t as usize)) ==> out@.len() == n,
        decreases n - out@.len(),
    {
        let mut best: Option<(u64, usize)> = None;
        let mut j: usize = 0;
        while j < latencies.len()
            invariant
                lat == latencies@,
                j <= lat.len(),
                out@.len() < n,
                last is None <==> out@.len() == 0,
                last matches Some((l, b)) ==> b == out@.last() && lat[b as int] == Some(l) && b < lat.len(),
                best matches Some((v, c)) ==> c < j && lat[c as int] == Some(v)
                    && (last matches Some((l, b)) ==> ranks_before(lat, b as int, c as int)),
                // `best` is the earliest-ranked candidate below `j` after `last`.
                forall|t: int| 0 <= t < j && answered(lat, t) && (last matches Some((l, b)) ==> ranks_before(lat, b as int, t))
                    ==> (best matches Some((v, c)) && (c == t || ranks_before(lat, c as int, t))),
            decreases lat.len() - j,
        {
            match latencies[j] {
                None => {},
                Some(v) => {
                    let after_last = match last {
                        None => true,
                        Some((l, b)) => l < v || (l == v && b < j),
                    };
                    let before_best = match best {
                        None => true,
                        Some((bv, c)) => v < bv,
                    };
                    if after_last && before_best {
                        best = Some((v, j));
                    }
                },
            }
            j = j + 1;
        }
        match best {
            None => {
                break;
            },
            Some((v, c)) => {
                let ghost prev = out@;
                proof {
                    if let Some((l, b)) = last {
                        assert(!prev.contains(c)) by {
                            if prev.contains(c) {
                                let k = choose|k: int| 0 <= k < prev.len() && prev[k] == c;
                                if k < prev.len() - 1 {
                                    assert(ranks_before(lat, prev[k] as int, prev[prev.len() - 1] as int));
                                }
                            }
                        }
                    }
                }
                out.push(c);
                last = Some((v, c));
                proof {
                    assert forall|k: int, l: int| 0 <= k < l < out@.len() implies ranks_before(lat, out@[k] as int, out@[l] as int) by {
                        if l == out@.len() - 1 && k < l - 1 {
                            assert(ranks_before(lat, prev[k] as int, prev[prev.len() - 1] as int));
                        }
                    }
                    assert forall|t: int| answered(lat, t) && !(#[trigger] out@.contains(t as usize)) implies ranks_before(lat, c as int, t) by {
                        assert(!prev.contains(t as usize)) by {
                            if prev.contains(t as usize) {
                                let k = choose|k: int| 0 <= k < prev.len() && prev[k] == t as usize;
                                assert(out@[k] == t as usize);
                            }
                        }
                        assert(t != c as int) by {
                            assert(out@[prev.len() as int] == c);
                        }
                    }
                }
            },
        }
    }
    proof {
        assert forall|t: int| answered(lat, t) && !out@.contains(t as usize) implies {
            &&& out@.len() == n
            &&& forall|k: int| 0 <= k < out@.len() ==> ranks_before(lat, #[trigger] out@[k] as int, t)
        } by {
            assert forall|k: int| 0 <= k < out@.len() implies ranks_before(lat, #[trigger] out@[k] as int, t) by {
                if k < out@.len() - 1 {
                    assert(ranks_before(lat, out@[k] as int, out@[out@.len() - 1] as int));
                }
            }
        }
    }
    out
}


/// The `n` candidates that answered their probes fastest, fastest first,
/// ties kept in discovery order; empty when none answered.
pub fn speedtest_select(
    candidates: &Vec<HyperliquidSeedPeer>,
    latencies: &Vec<Option<u64>>,
    n: usize,
) -> (r: Vec<HyperliquidSeedPeer>)
    requires
        candidates@.len() == latencies@.len(),
    ensures
        exists|idx: Seq<usize>|
            {
                &&& is_fastest_selection(latencies@, n as nat, idx)
                &&& r@.len() == idx.len()
                &&& forall|k: int| 0 <= k < idx.len() ==> r@[k] == candidates@[#[trigger] idx[k] as int]
            },
{
    let idx = fastest_indices(latencies, n);
    let mut out: Vec<HyperliquidSeedPeer> = Vec::new();
    let mut k: usize = 0;
    while k < idx.len()
        invariant
            is_fastest_selection(latencies@, n as nat, idx@),
            candidates@.len() == latencies@.len(),
            k <= idx@.len(),
            out@.len() == k,
            forall|t: int| 0 <= t < k ==> out@[t] == candidates@[#[trigger] idx@[t] as int],
        decreases idx@.len() - k,
    {
        assert(answered(latencies@, idx@[k as int] as int));
        out.push(candidates[idx[k]].duplicate());
        k = k + 1;
    }
    out
}

/// The prober returns at most `n` peers, and each returned peer answered no
/// slower than any answered peer that was not returned.
pub proof fn lemma_selection_is_fastest(lat: Seq<Option<u64>>, n: nat, idx: Seq<usize>)
    requires
        is_fastest_selection(lat, n, idx),
    ensures
        idx.len() <= n,
        forall|k: int, j: int|
            #![trigger idx[k], lat[j]]
            0 <= k < idx.len() && answered(lat, j) && !idx.contains(j as usize) ==> lat[idx[k] as int]->Some_0
                <= lat[j]->Some_0,
{
}

/// When every probe failed or timed out, the prober returns nothing.
pub proof fn lemma_no_answer_no_selection(lat: Seq<Option<u64>>, n: nat, idx: Seq<usize>)
    requires
        is_fastest_selection(lat, n, idx),
        forall|i: int| 0 <= i < lat.len() ==> lat[i] is None,
    ensures
        idx.len() == 0,
{
    if idx.len() > 0 {
        assert(answered(lat, idx[0] as int));
    }
}

/// Only one list meets the selection's description: the ranking by latency
/// with ties in discovery order is total, so the selection is determined by
/// the latencies and `n`.
pub proof fn lemma_selection_unique(lat: Seq<Option<u64>>, n: nat, a: Seq<usize>, b: Seq<usize>)
    requires
        is_fastest_selection(lat, n, a),
        is_fastest_selection(lat, n, b),
    ensures
        a == b,
{
    assert forall|k: int| 0 <= k < a.len() && 0 <= k < b.len() implies a[k] == b[k] by {
        lemma_selection_prefix_agrees(lat, n, a, b, k);
    }
    lemma_longer_selection(lat, n, a, b);
    assert forall|k: int| 0 <= k < b.len() && k < a.len() implies b[k] == a[k] by {
        lemma_selection_prefix_agrees(lat, n, a, b, k);
    }
    lemma_longer_selection(lat, n, b, a);
    assert(a =~= b);
}

proof fn lemma_longer_selection(lat: Seq<Option<u64>>, n: nat, a: Seq<usize>, b: Seq<usize>)
    requires
        is_fastest_selection(lat, n, a),
        is_fastest_selection(lat, n, b),
        forall|k: int| 0 <= k < a.len() && k < b.len() ==> a[k] == b[k],
    ensures
        a.len() >= b.len(),
{
    if a.len() >= b.len() {
        return;
    }
    let m = a.len() as int;
    let x = b[m];
    assert(answered(lat, x as int));
    if a.contains(x) {
        let t = choose|t: int| 0 <= t < a.len() && a[t] == x;
        assert(b[t] == x);
        assert(ranks_before(lat, b[t] as int, b[m] as int));
    } else {
        assert(a.len() == n);
    }
}

proof fn lemma_selection_prefix_agrees(lat: Seq<Option<u64>>, n: nat, a: Seq<usize>, b: Seq<usize>, k: int)
    requires
        is_fastest_selection(lat, n, a),
        is_fastest_selection(lat, n, b),
        0 <= k < a.len(),
        0 <= k < b.len(),
    ensures
        a[k] == b[k],
    decreases k,
{
    if k > 0 {
        lemma_selection_prefix_agrees(lat, n, a, b, k - 1);
    }
    assert forall|t: int| 0 <= t < k implies a[t] == b[t] by {
        if t < k {
            lemma_selection_prefix_agrees(lat, n, a, b, t);
        }
    }
    if a[k] != b[k] {
        let x = a[k];
        let y = b[k];
        assert(answered(lat, x as int));
        assert(answered(lat, y as int));
        if ranks_before(lat, x as int, y as int) {
            lemma_out_of_place(lat, n, a, b, k);
        } else {
            assert(ranks_before(lat, y as int, x as int));
            lemma_out_of_place(lat, n, b, a, k);
        }
    }
}

/// Where two selections agree before `k`, the first does not hold an
/// earlier-ranked candidate at `k` than the second.
proof fn lemma_out_of_place(lat: Seq<Option<u64>>, n: nat, a: Seq<usize>, b: Seq<usize>, k: int)
    requires
        is_fastest_selection(lat, n, a),
        is_fastest_selection(lat, n, b),
        0 <= k < a.len(),
        0 <= k < b.len(),
        forall|t: int| 0 <= t < k ==> a[t] == b[t],
    ensures
        !ranks_before(lat, a[k] as int, b[k] as int),
{
    if !ranks_before(lat, a[k] as int, b[k] as int) {
        return;
    }
    let x = a[k];
    assert(answered(lat, x as int));
    if b.contains(x) {
        let l = choose|l: int| 0 <= l < b.len() && b[l] == x;
        if l < k {
            assert(a[l] == x);
            assert(ranks_before(lat, a[l] as int, a[k] as int));
        } else if l > k {
            assert(ranks_before(lat, b[k] as int, b[l] as int));
        }
    } else {
        assert(ranks_before(lat, b[k] as int, x as int));
    }
}

} // verus!
