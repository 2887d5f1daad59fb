//! The refresh/derive pipeline: given the outcome of one fetch cycle it
//! sorts the node collection (available nodes first, by descending power
//! score), recomputes the aggregate statistics, applies the error-retention
//! policy (a failed node fetch keeps the previous snapshot and surfaces a
//! message; job-fetch failures are absorbed), and keeps the selection index
//! clamped to the collection.

use vstd::prelude::*;

verus! {

use vstd::seq_lib::group_to_multiset_ensures;
use vstd::multiset::Multiset;
use vstd::string::StringExecFns;
use crate::models::{
    Node, Job, JobState, NodeState, ClusterStats, spec_available_cores, spec_available_mem_gb,
    spec_total_mem_gb, spec_used_mem_gb, spec_is_available,
};
use crate::scheduler::{FetchError, spec_error_text};
use crate::text::spec_contains_entry;

/// The composite preference score of an available node: cores dominate,
/// memory breaks ties (a deliberate design constant).
pub open spec fn spec_power(n: Node) -> int {
    spec_available_cores(n) * 1000 + spec_available_mem_gb(n)
}

/// The sort key, ascending: available nodes (ordered by descending power)
/// come before unavailable ones, and among the unavailable `Running`
/// precedes `Busy` precedes everything else.
pub open spec fn spec_sort_rank(n: Node) -> int {
    if spec_is_available(n) {
        0x400_0000_0000 - spec_power(n)
    } else {
        0x800_0000_0000 + (if n.state == NodeState::Running {
            0int
        } else if n.state == NodeState::Busy {
            1int
        } else {
            2int
        })
    }
}

/// Stable insertion of `x` into `s`: after every element whose rank does
/// not exceed its own.
pub open spec fn spec_insert_node(s: Seq<Node>, x: Node) -> Seq<Node>
    decreases s.len(),
{
    if s.len() == 0 {
        seq![x]
    } else if spec_sort_rank(s.last()) <= spec_sort_rank(x) {
        s.push(x)
    } else {
        spec_insert_node(s.drop_last(), x).push(s.last())
    }
}

/// The stable sort of a node collection by `spec_sort_rank`: insertion
/// sort, element by element, so equal-rank nodes keep their input order.
pub open spec fn spec_sort_nodes(s: Seq<Node>) -> Seq<Node>
    decreases s.len(),
{
    if s.len() == 0 {
        Seq::empty()
    } else {
        spec_insert_node(spec_sort_nodes(s.drop_last()), s.last())
    }
}

pub open spec fn spec_sorted_nodes(s: Seq<Node>) -> bool {
    forall|i: int, j: int|
        0 <= i < j < s.len() ==> spec_sort_rank(s[i]) <= spec_sort_rank(s[j])
}

/// Rank order refines the stated view order: whoever precedes an available
/// node is itself available, and among available nodes lower rank means at
/// least as much power.
pub proof fn lemma_rank_orders(a: Node, b: Node)
    requires
        spec_sort_rank(a) <= spec_sort_rank(b),
    ensures
        spec_is_available(b) ==> spec_is_available(a),
        spec_is_available(a) && spec_is_available(b) ==> spec_power(a) >= spec_power(b),
{
    assert(spec_available_cores(a) <= u32::MAX);
    assert(spec_available_mem_gb(a) <= u32::MAX);
    assert(spec_available_cores(b) <= u32::MAX);
    assert(spec_available_mem_gb(b) <= u32::MAX);
}

proof fn lemma_insert_node_sorted(s: Seq<Node>, x: Node)
    requires
        spec_sorted_nodes(s),
    ensures
        spec_sorted_nodes(spec_insert_node(s, x)),
        spec_insert_node(s, x).len() == s.len() + 1,
        spec_insert_node(s, x).to_multiset() == s.to_multiset().insert(x),
    decreases s.len(),
{
    broadcast use group_to_multiset_ensures;

    let out = spec_insert_node(s, x);
    if s.len() == 0 {
        assert(out =~= Seq::empty().push(x));
        assert(Seq::<Node>::empty().to_multiset() =~= Multiset::empty());
        assert(out.to_multiset() =~= s.to_multiset().insert(x));
    } else if spec_sort_rank(s.last()) <= spec_sort_rank(x) {
        assert forall|i: int, j: int| 0 <= i < j < out.len() implies spec_sort_rank(out[i])
            <= spec_sort_rank(out[j]) by {
            if j == out.len() - 1 {
                assert(spec_sort_rank(s[i]) <= spec_sort_rank(s.last()));
            }
        }
    } else {
        let dl = s.drop_last();
        assert(spec_sorted_nodes(dl));
        lemma_insert_node_sorted(dl, x);
        let inner = spec_insert_node(dl, x);
        assert(out == inner.push(s.last()));
        assert forall|m: int| 0 <= m < inner.len() implies spec_sort_rank(inner[m])
            <= spec_sort_rank(s.last()) by {
            assert(inner.to_multiset().contains(inner[m]));
            assert(dl.to_multiset().insert(x).contains(inner[m]));
            if dl.to_multiset().contains(inner[m]) {
                assert(dl.contains(inner[m]));
                let w = choose|w: int| 0 <= w < dl.len() && dl[w] == inner[m];
                assert(spec_sort_rank(s[w]) <= spec_sort_rank(s.last()));
            }
        }
        assert forall|i: int, j: int| 0 <= i < j < out.len() implies spec_sort_rank(out[i])
            <= spec_sort_rank(out[j]) by {
            if j == out.len() - 1 {
                assert(spec_sort_rank(inner[i]) <= spec_sort_rank(s.last()));
            }
        }
        assert(s =~= dl.push(s.last()));
        assert(out.to_multiset() =~= s.to_multiset().insert(x));
    }
}

/// The sort yields a sequence ordered by rank, of the same length and with
/// the same members (a permutation).
pub proof fn lemma_sort_nodes_sorted(s: Seq<Node>)
    ensures
        spec_sorted_nodes(spec_sort_nodes(s)),
        spec_sort_nodes(s).len() == s.len(),
        spec_sort_nodes(s).to_multiset() == s.to_multiset(),
    decreases s.len(),
{
    broadcast use group_to_multiset_ensures;

    if s.len() == 0 {
    } else {
        let dl = s.drop_last();
        lemma_sort_nodes_sorted(dl);
        lemma_insert_node_sorted(spec_sort_nodes(dl), s.last());
        assert(s =~= dl.push(s.last()));
        assert(spec_sort_nodes(s).to_multiset() =~= s.to_multiset());
    }
}

/// The sorted order satisfies the stated view properties: every available
/// node precedes every unavailable one, and among available nodes the
/// power score is non-increasing along the sequence.
pub proof fn lemma_sort_nodes_view_order(s: Seq<Node>)
    ensures
        forall|i: int, j: int|
            0 <= i < j < spec_sort_nodes(s).len() && spec_is_available(spec_sort_nodes(s)[j])
                ==> spec_is_available(spec_sort_nodes(s)[i]),
        forall|i: int, j: int|
            0 <= i < j < spec_sort_nodes(s).len() && spec_is_available(spec_sort_nodes(s)[i])
                && spec_is_available(spec_sort_nodes(s)[j]) ==> spec_power(spec_sort_nodes(s)[i])
                >= spec_power(spec_sort_nodes(s)[j]),
{
    let out = spec_sort_nodes(s);
    lemma_sort_nodes_sorted(s);
    assert forall|i: int, j: int|
        0 <= i < j < out.len() && spec_is_available(out[j]) implies spec_is_available(
        out[i],
    ) by {
        lemma_rank_orders(out[i], out[j]);
    }
    assert forall|i: int, j: int|
        0 <= i < j < out.len() && spec_is_available(out[i]) && spec_is_available(
        out[j],
    ) implies spec_power(out[i]) >= spec_power(out[j]) by {
        lemma_rank_orders(out[i], out[j]);
    }
}

proof fn lemma_insert_node_filter(s: Seq<Node>, x: Node, k: int)
    ensures
        spec_insert_node(s, x).filter(|n: Node| spec_sort_rank(n) == k) == s.push(x).filter(
            |n: Node| spec_sort_rank(n) == k,
        ),
    decreases s.len(),
{
    broadcast use vstd::seq_lib::group_filter_ensures;

    let p = |n: Node| spec_sort_rank(n) == k;
    let out = spec_insert_node(s, x);
    reveal_with_fuel(Seq::<Node>::filter, 2);
    if s.len() == 0 {
        assert(out =~= s.push(x));
    } else if spec_sort_rank(s.last()) <= spec_sort_rank(x) {
        assert(out =~= s.push(x));
    } else {
        let dl = s.drop_last();
        lemma_insert_node_filter(dl, x, k);
        let inner = spec_insert_node(dl, x);
        assert(out == inner.push(s.last()));
        assert(out =~= inner + seq![s.last()]);
        assert(inner.filter(p) == dl.push(x).filter(p));
        assert(dl.push(x) =~= dl + seq![x]);
        Seq::filter_distributes_over_add(inner, seq![s.last()], p);
        Seq::filter_distributes_over_add(dl, seq![x], p);
        assert(s.push(x) =~= (dl + seq![s.last()]) + seq![x]);
        Seq::filter_distributes_over_add(dl + seq![s.last()], seq![x], p);
        Seq::filter_distributes_over_add(dl, seq![s.last()], p);
        if p(s.last()) && p(x) {
            assert(spec_sort_rank(s.last()) == spec_sort_rank(x));
            assert(false);
        }
        if p(x) {
            assert(seq![s.last()].filter(p) =~= Seq::<Node>::empty());
            assert(out.filter(p) =~= s.push(x).filter(p));
        } else {
            assert(seq![x].filter(p) =~= Seq::<Node>::empty());
            assert(out.filter(p) =~= s.push(x).filter(p));
        }
    }
}

/// Stability: for every rank value, the subsequence of nodes of that rank
/// is exactly as it stood in the input.
pub proof fn lemma_sort_nodes_stable(s: Seq<Node>, k: int)
    ensures
        spec_sort_nodes(s).filter(|n: Node| spec_sort_rank(n) == k) == s.filter(
            |n: Node| spec_sort_rank(n) == k,
        ),
    decreases s.len(),
{
    broadcast use vstd::seq_lib::group_filter_ensures;

    let p = |n: Node| spec_sort_rank(n) == k;
    if s.len() == 0 {
    } else {
        let dl = s.drop_last();
        lemma_sort_nodes_stable(dl, k);
        lemma_insert_node_filter(spec_sort_nodes(dl), s.last(), k);
        assert(spec_sort_nodes(dl).push(s.last()) =~= spec_sort_nodes(dl) + seq![s.last()]);
        Seq::filter_distributes_over_add(spec_sort_nodes(dl), seq![s.last()], p);
        assert(s =~= dl + seq![s.last()]);
        Seq::filter_distributes_over_add(dl, seq![s.last()], p);
    }
}

fn node_rank(n: &Node) -> (r: u64)
    ensures
        r as int == spec_sort_rank(*n),
{
    if n.is_available() {
        let power: u64 = (n.available_cores() as u64) * 1000 + (n.available_mem_gb() as u64);
        0x400_0000_0000u64 - power
    } else {
        match n.state {
            NodeState::Running => 0x800_0000_0000u64,
            NodeState::Busy => 0x800_0000_0001u64,
            _ => 0x800_0000_0002u64,
        }
    }
}

proof fn lemma_insert_node_at(s: Seq<Node>, x: Node, j: int)
    requires
        0 <= j <= s.len(),
        forall|m: int| j <= m < s.len() ==> spec_sort_rank(s[m]) > spec_sort_rank(x),
        j > 0 ==> spec_sort_rank(s[j - 1]) <= spec_sort_rank(x),
    ensures
        spec_insert_node(s, x) == s.take(j) + seq![x] + s.skip(j),
    decreases s.len(),
{
    if j == s.len() {
        if s.len() == 0 {
            assert(spec_insert_node(s, x) =~= s.take(j) + seq![x] + s.skip(j));
        } else {
            assert(spec_insert_node(s, x) == s.push(x));
            assert(s.push(x) =~= s.take(j) + seq![x] + s.skip(j));
        }
    } else {
        assert(spec_sort_rank(s.last()) > spec_sort_rank(x));
        let dl = s.drop_last();
        lemma_insert_node_at(dl, x, j);
        assert(spec_insert_node(s, x) == spec_insert_node(dl, x).push(s.last()));
        assert(dl.take(j) =~= s.take(j));
        assert((dl.take(j) + seq![x] + dl.skip(j)).push(s.last()) =~= s.take(j) + seq![x]
            + s.skip(j));
    }
}

fn insert_sorted(out: &mut Vec<Node>, x: Node)
    ensures
        final(out)@ == spec_insert_node(old(out)@, x),
{
    let kx = node_rank(&x);
    let mut j: usize = out.len();
    loop
        invariant_except_break
            j <= out@.len(),
            out@ == old(out)@,
            kx as int == spec_sort_rank(x),
            forall|m: int| j <= m < out@.len() ==> spec_sort_rank(out@[m]) > spec_sort_rank(x),
        ensures
            j <= out@.len(),
            out@ == old(out)@,
            forall|m: int| j <= m < out@.len() ==> spec_sort_rank(out@[m]) > spec_sort_rank(x),
            j > 0 ==> spec_sort_rank(out@[j - 1]) <= spec_sort_rank(x),
        decreases j,
    {
        if j == 0 {
            break;
        }
        let k = node_rank(&out[j - 1]);
        if k <= kx {
            break;
        }
        j -= 1;
    }
    proof {
        lemma_insert_node_at(out@, x, j as int);
    }
    out.insert(j, x);
    proof {
        assert(final(out)@ =~= old(out)@.take(j as int) + seq![x] + old(out)@.skip(j as int));
    }
}

/// The node collection in display order: available nodes first, by
/// descending power score, then `Running`, then `Busy`, then the rest,
/// ties keeping their input order.
pub fn sort_nodes(nodes: Vec<Node>) -> (r: Vec<Node>)
    ensures
        r@ == spec_sort_nodes(nodes@),
{
    let ghost orig = nodes@;
    let mut rest = nodes;
    let mut out: Vec<Node> = Vec::new();
    proof {
        assert(orig.take(0) =~= Seq::<Node>::empty());
        assert(orig.skip(0) =~= orig);
    }
    while rest.len() > 0
        invariant
            rest@.len() <= orig.len(),
            rest@ == orig.skip(orig.len() - rest@.len()),
            out@ == spec_sort_nodes(orig.take(orig.len() - rest@.len())),
        decreases rest.len(),
    {
        let ghost k = orig.len() - rest@.len();
        let x = rest.remove(0);
        proof {
            assert(x == orig[k]);
            assert(rest@ =~= orig.skip(k + 1));
            assert(orig.take(k + 1).drop_last() =~= orig.take(k));
            assert(orig.take(k + 1).last() == orig[k]);
        }
        insert_sorted(&mut out, x);
    }
    proof {
        assert(orig.take(orig.len() as int) =~= orig);
    }
    out
}

pub open spec fn spec_clamp_u32(v: int) -> int {
    if v > u32::MAX {
        u32::MAX as int
    } else {
        v
    }
}

pub open spec fn spec_count_available(s: Seq<Node>) -> int
    decreases s.len(),
{
    if s.len() == 0 {
        0
    } else {
        spec_count_available(s.drop_last()) + if spec_is_available(s.last()) {
            1int
        } else {
            0int
        }
    }
}

pub open spec fn spec_sum_total_cores(s: Seq<Node>) -> int
    decreases s.len(),
{
    if s.len() == 0 {
        0
    } else {
        spec_sum_total_cores(s.drop_last()) + s.last().total_cores
    }
}

pub open spec fn spec_sum_used_cores(s: Seq<Node>) -> int
    decreases s.len(),
{
    if s.len() == 0 {
        0
    } else {
        spec_sum_used_cores(s.drop_last()) + s.last().used_cores
    }
}

pub open spec fn spec_sum_total_mem_gb(s: Seq<Node>) -> int
    decreases s.len(),
{
    if s.len() == 0 {
        0
    } else {
        spec_sum_total_mem_gb(s.drop_last()) + spec_total_mem_gb(s.last())
    }
}

pub open spec fn spec_sum_used_mem_gb(s: Seq<Node>) -> int
    decreases s.len(),
{
    if s.len() == 0 {
        0
    } else {
        spec_sum_used_mem_gb(s.drop_last()) + spec_used_mem_gb(s.last())
    }
}

/// What it means for a statistics value to describe a node collection:
/// every total is the exact sum over the collection (saturating only past
/// `u32::MAX`), and the available figures are `total - used`, clamped at
/// zero, computed from the collection's own totals — never from a stale
/// pairing.
pub open spec fn spec_stats_match(s: ClusterStats, nodes: Seq<Node>) -> bool {
    &&& s.total_nodes == spec_clamp_u32(nodes.len() as int)
    &&& s.avail_nodes == spec_clamp_u32(spec_count_available(nodes))
    &&& s.total_cores == spec_clamp_u32(spec_sum_total_cores(nodes))
    &&& s.used_cores == spec_clamp_u32(spec_sum_used_cores(nodes))
    &&& s.total_memory_gb == spec_clamp_u32(spec_sum_total_mem_gb(nodes))
    &&& s.used_memory_gb == spec_clamp_u32(spec_sum_used_mem_gb(nodes))
    &&& s.avail_cores == (if s.total_cores >= s.used_cores {
        s.total_cores - s.used_cores
    } else {
        0
    })
    &&& s.avail_memory_gb == (if s.total_memory_gb >= s.used_memory_gb {
        s.total_memory_gb - s.used_memory_gb
    } else {
        0
    })
}

fn sat_add_u32(a: u32, b: u32) -> (r: u32)
    ensures
        r as int == spec_clamp_u32(a as int + b as int),
{
    let t: u64 = a as u64 + b as u64;
    if t > 0xFFFF_FFFF {
        u32::MAX
    } else {
        t as u32
    }
}

/// The aggregate statistics of a node collection.
pub fn calculate_stats(nodes: &Vec<Node>) -> (s: ClusterStats)
    ensures
        spec_stats_match(s, nodes@),
{
    let mut total_nodes: u32 = 0;
    let mut avail_nodes: u32 = 0;
    let mut total_cores: u32 = 0;
    let mut used_cores: u32 = 0;
    let mut total_memory_gb: u32 = 0;
    let mut used_memory_gb: u32 = 0;
    let mut i: usize = 0;
    while i < nodes.len()
        invariant
            i <= nodes@.len(),
            total_nodes as int == spec_clamp_u32(i as int),
            avail_nodes as int == spec_clamp_u32(spec_count_available(nodes@.take(i as int))),
            total_cores as int == spec_clamp_u32(spec_sum_total_cores(nodes@.take(i as int))),
            used_cores as int == spec_clamp_u32(spec_sum_used_cores(nodes@.take(i as int))),
            total_memory_gb as int == spec_clamp_u32(
                spec_sum_total_mem_gb(nodes@.take(i as int)),
            ),
            used_memory_gb as int == spec_clamp_u32(spec_sum_used_mem_gb(nodes@.take(i as int))),
        decreases nodes.len() - i,
    {
        let n = &nodes[i];
        proof {
            assert(nodes@.take(i + 1 as int).drop_last() =~= nodes@.take(i as int));
            assert(nodes@.take(i + 1 as int).last() == nodes@[i as int]);
            lemma_count_available_nonneg(nodes@.take(i as int));
            lemma_sums_nonneg(nodes@.take(i as int));
        }
        total_nodes = sat_add_u32(total_nodes, 1);
        if n.is_available() {
            avail_nodes = sat_add_u32(avail_nodes, 1);
        }
        total_cores = sat_add_u32(total_cores, n.total_cores);
        used_cores = sat_add_u32(used_cores, n.used_cores);
        total_memory_gb = sat_add_u32(total_memory_gb, n.total_mem_gb());
        used_memory_gb = sat_add_u32(used_memory_gb, n.used_mem_gb());
        i += 1;
    }
    proof {
        assert(nodes@.take(nodes@.len() as int) =~= nodes@);
    }
    let avail_cores = if total_cores >= used_cores {
        total_cores - used_cores
    } else {
        0
    };
    let avail_memory_gb = if total_memory_gb >= used_memory_gb {
        total_memory_gb - used_memory_gb
    } else {
        0
    };
    ClusterStats {
        total_nodes,
        avail_nodes,
        total_cores,
        used_cores,
        avail_cores,
        total_memory_gb,
        used_memory_gb,
        avail_memory_gb,
    }
}

proof fn lemma_count_available_nonneg(s: Seq<Node>)
    ensures
        0 <= spec_count_available(s) <= s.len(),
    decreases s.len(),
{
    if s.len() > 0 {
        lemma_count_available_nonneg(s.drop_last());
    }
}

proof fn lemma_sums_nonneg(s: Seq<Node>)
    ensures
        spec_sum_total_cores(s) >= 0,
        spec_sum_used_cores(s) >= 0,
        spec_sum_total_mem_gb(s) >= 0,
        spec_sum_used_mem_gb(s) >= 0,
    decreases s.len(),
{
    if s.len() > 0 {
        lemma_sums_nonneg(s.drop_last());
    }
}

/// The pipeline's owned snapshot: the current partition and user, the last
/// good node/job data with its statistics, the current error message, and
/// the selection index for the table.
pub struct Dashboard {
    pub current_partition: String,
    pub current_user: String,
    pub nodes: Vec<Node>,
    pub jobs: Vec<Job>,
    pub user_jobs: Vec<Job>,
    pub stats: ClusterStats,
    pub error_message: Option<String>,
    pub selected: Option<usize>,
}

/// The selection a node-collection change leaves behind: cleared when the
/// collection is empty, clamped to the last row when it shrank.
pub open spec fn spec_clamped_selection(sel: Option<usize>, len: int) -> Option<usize> {
    match sel {
        None => None,
        Some(i) => if len == 0 {
            None
        } else if i < len {
            Some(i)
        } else {
            Some((len - 1) as usize)
        },
    }
}

impl Dashboard {
    /// A fresh dashboard with no data yet.
    pub fn new(partition: String, user: String) -> (d: Dashboard)
        ensures
            d.current_partition == partition,
            d.current_user == user,
            d.nodes@.len() == 0,
            d.jobs@.len() == 0,
            d.user_jobs@.len() == 0,
            spec_stats_match(d.stats, d.nodes@),
            d.error_message is None,
            d.selected is None,
    {
        let nodes: Vec<Node> = Vec::new();
        let stats = calculate_stats(&nodes);
        Dashboard {
            current_partition: partition,
            current_user: user,
            nodes,
            jobs: Vec::new(),
            user_jobs: Vec::new(),
            stats,
            error_message: None,
            selected: None,
        }
    }

    /// One node-fetch outcome applied to the snapshot. On success the new
    /// collection replaces the old atomically, sorted, with statistics
    /// recomputed from it and the error cleared; on failure the previous
    /// nodes and statistics stay untouched and the error becomes visible.
    pub fn apply_node_fetch(&mut self, result: Result<Vec<Node>, FetchError>)
        ensures
            final(self).current_partition == old(self).current_partition,
            final(self).current_user == old(self).current_user,
            final(self).jobs == old(self).jobs,
            final(self).user_jobs == old(self).user_jobs,
            match result {
                Ok(ns) => {
                    &&& final(self).nodes@ == spec_sort_nodes(ns@)
                    &&& spec_stats_match(final(self).stats, final(self).nodes@)
                    &&& final(self).error_message is None
                    &&& final(self).selected == spec_clamped_selection(
                        old(self).selected,
                        ns@.len() as int,
                    )
                },
                Err(e) => {
                    &&& final(self).nodes == old(self).nodes
                    &&& final(self).stats == old(self).stats
                    &&& final(self).selected == old(self).selected
                    &&& match final(self).error_message {
                        Some(m) => m@ == "Failed to get nodes: "@ + spec_error_text(e),
                        None => false,
                    }
                },
            },
    {
        match result {
            Ok(ns) => {
                proof {
                    lemma_sort_nodes_sorted(ns@);
                }
                let sorted = sort_nodes(ns);
                let stats = calculate_stats(&sorted);
                let len = sorted.len();
                self.stats = stats;
                self.nodes = sorted;
                self.error_message = None;
                self.selected = match self.selected {
                    None => None,
                    Some(i) => {
                        if len == 0 {
                            None
                        } else if i < len {
                            Some(i)
                        } else {
                            Some(len - 1)
                        }
                    },
                };
            },
            Err(e) => {
                let mut m = String::from_str("Failed to get nodes: ");
                let detail = e.message();
                m.append(detail.as_str());
                self.error_message = Some(m);
            },
        }
    }

    /// One job-fetch outcome applied: a success replaces the job list, a
    /// failure is absorbed and changes nothing.
    pub fn apply_jobs_fetch(&mut self, result: Result<Vec<Job>, FetchError>)
        ensures
            final(self).current_partition == old(self).current_partition,
            final(self).current_user == old(self).current_user,
            final(self).nodes == old(self).nodes,
            final(self).user_jobs == old(self).user_jobs,
            final(self).stats == old(self).stats,
            final(self).error_message == old(self).error_message,
            final(self).selected == old(self).selected,
            match result {
                Ok(js) => final(self).jobs == js,
                Err(_) => final(self).jobs == old(self).jobs,
            },
    {
        match result {
            Ok(js) => {
                self.jobs = js;
            },
            Err(_) => {},
        }
    }

    /// One user-job-fetch outcome applied, with the same absorption policy.
    pub fn apply_user_jobs_fetch(&mut self, result: Result<Vec<Job>, FetchError>)
        ensures
            final(self).current_partition == old(self).current_partition,
            final(self).current_user == old(self).current_user,
            final(self).nodes == old(self).nodes,
            final(self).jobs == old(self).jobs,
            final(self).stats == old(self).stats,
            final(self).error_message == old(self).error_message,
            final(self).selected == old(self).selected,
            match result {
                Ok(js) => final(self).user_jobs == js,
                Err(_) => final(self).user_jobs == old(self).user_jobs,
            },
    {
        match result {
            Ok(js) => {
                self.user_jobs = js;
            },
            Err(_) => {},
        }
    }

    /// Selection moved one row down, wrapping at the end; an empty table
    /// has no selection.
    pub fn next_node(&mut self)
        ensures
            final(self).current_partition == old(self).current_partition,
            final(self).current_user == old(self).current_user,
            final(self).nodes == old(self).nodes,
            final(self).jobs == old(self).jobs,
            final(self).user_jobs == old(self).user_jobs,
            final(self).stats == old(self).stats,
            final(self).error_message == old(self).error_message,
            final(self).selected == (if old(self).nodes@.len() == 0 {
                None::<usize>
            } else {
                match old(self).selected {
                    Some(i) => if i + 1 >= old(self).nodes@.len() {
                        Some(0usize)
                    } else {
                        Some((i + 1) as usize)
                    },
                    None => Some(0usize),
                }
            }),
    {
        if self.nodes.len() == 0 {
            self.selected = None;
            return ;
        }
        self.selected = match self.selected {
            Some(i) => {
                if i >= self.nodes.len() - 1 {
                    Some(0)
                } else {
                    Some(i + 1)
                }
            },
            None => Some(0),
        };
    }

    /// Selection moved one row up, wrapping at the start; an empty table
    /// has no selection.
    pub fn previous_node(&mut self)
        ensures
            final(self).current_partition == old(self).current_partition,
            final(self).current_user == old(self).current_user,
            final(self).nodes == old(self).nodes,
            final(self).jobs == old(self).jobs,
            final(self).user_jobs == old(self).user_jobs,
            final(self).stats == old(self).stats,
            final(self).error_message == old(self).error_message,
            final(self).selected == (if old(self).nodes@.len() == 0 {
                None::<usize>
            } else {
                match old(self).selected {
                    Some(i) => if i == 0 {
                        Some((old(self).nodes@.len() - 1) as usize)
                    } else {
                        Some((i - 1) as usize)
                    },
                    None => Some(0usize),
                }
            }),
    {
        if self.nodes.len() == 0 {
            self.selected = None;
            return ;
        }
        self.selected = match self.selected {
            Some(i) => {
                if i == 0 {
                    Some(self.nodes.len() - 1)
                } else {
                    Some(i - 1)
                }
            },
            None => Some(0),
        };
    }

    /// Selection set to a given row, if it exists.
    pub fn select_row(&mut self, index: usize)
        ensures
            final(self).current_partition == old(self).current_partition,
            final(self).current_user == old(self).current_user,
            final(self).nodes == old(self).nodes,
            final(self).jobs == old(self).jobs,
            final(self).user_jobs == old(self).user_jobs,
            final(self).stats == old(self).stats,
            final(self).error_message == old(self).error_message,
            final(self).selected == (if index < old(self).nodes@.len() {
                Some(index)
            } else {
                old(self).selected
            }),
    {
        if index < self.nodes.len() {
            self.selected = Some(index);
        }
    }

    /// Whether the current user has a running job on the given node.
    pub fn user_has_jobs_on_node(&self, node_id: &str) -> (r: bool)
        ensures
            r == spec_user_has_jobs_on(self.user_jobs@, node_id@),
    {
        let idv = crate::text::chars_of(node_id);
        let mut k: usize = 0;
        while k < self.user_jobs.len()
            invariant
                k <= self.user_jobs@.len(),
                idv@ == node_id@,
                forall|m: int|
                    0 <= m < k ==> !(self.user_jobs@[m].state == JobState::Running
                        && spec_contains_entry(
                        self.user_jobs@[m].node_list.deep_view(),
                        node_id@,
                    )),
            decreases self.user_jobs.len() - k,
        {
            let job = &self.user_jobs[k];
            let running = match job.state {
                JobState::Running => true,
                _ => false,
            };
            if running && crate::text::contains_entry_str(&job.node_list, &idv) {
                return true;
            }
            k += 1;
        }
        false
    }
}

/// Whether any running job in the list occupies the node.
pub open spec fn spec_user_has_jobs_on(jobs: Seq<Job>, node_id: Seq<char>) -> bool {
    exists|k: int|
        0 <= k < jobs.len() && jobs[k].state == JobState::Running && spec_contains_entry(
            jobs[k].node_list.deep_view(),
            node_id,
        )
}

/// Determinism of the derive step: two snapshots produced from the same
/// fetched collection hold the same sorted nodes and the same statistics.
pub proof fn lemma_refresh_deterministic(d1: Dashboard, d2: Dashboard, ns: Seq<Node>)
    requires
        d1.nodes@ == spec_sort_nodes(ns),
        d2.nodes@ == spec_sort_nodes(ns),
        spec_stats_match(d1.stats, d1.nodes@),
        spec_stats_match(d2.stats, d2.nodes@),
    ensures
        d1.nodes@ == d2.nodes@,
        d1.stats == d2.stats,
{
}

} // verus!
