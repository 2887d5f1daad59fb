//! Canonical entity model shared by all scheduler backends and the view
//! layer: nodes, jobs, and the aggregate cluster statistics, together with
//! the derived-quantity formulas (available cores, available memory, node
//! availability).

use vstd::prelude::*;

verus! {

/// Availability class of a compute host, as reported by the scheduler.
/// Unrecognized backend states map to `Offline` as a conservative default.
#[derive(Clone, Copy, Debug, PartialEq, Eq, Structural)]
pub enum NodeState {
    Idle,
    Running,
    Down,
    Offline,
    Busy,
    Drained,
}

/// Lifecycle class of a submitted job.
#[derive(Clone, Copy, Debug, PartialEq, Eq, Structural)]
pub enum JobState {
    Running,
    Pending,
    Completed,
    Cancelled,
    Failed,
}

/// A compute host. Rebuilt from scratch on every fetch cycle; never mutated
/// in place.
#[derive(Clone, Debug)]
pub struct Node {
    pub id: String,
    pub state: NodeState,
    pub total_cores: u32,
    pub used_cores: u32,
    pub total_mem_mb: u32,
    pub used_mem_mb: u32,
    pub partitions: Vec<String>,
    pub jobs: Vec<String>,
}

/// A unit of scheduled work. Durations are in seconds; `submit_time` is a
/// Unix timestamp in seconds (best effort: the backends here cannot report
/// it and substitute the time of the fetch).
#[derive(Clone, Debug)]
pub struct Job {
    pub id: String,
    pub user: String,
    pub name: String,
    pub state: JobState,
    pub node_list: Vec<String>,
    pub partition: String,
    pub req_nodes: u32,
    pub req_cpus: u32,
    pub req_mem_mb: u32,
    pub time_limit: i64,
    pub elapsed: i64,
    pub cpu_time: i64,
    pub submit_time: i64,
}

/// Aggregate derived from one node collection; always recomputed whole.
#[derive(Clone, Debug)]
pub struct ClusterStats {
    pub total_nodes: u32,
    pub avail_nodes: u32,
    pub total_cores: u32,
    pub used_cores: u32,
    pub avail_cores: u32,
    pub total_memory_gb: u32,
    pub used_memory_gb: u32,
    pub avail_memory_gb: u32,
}

/// Mathematical view of a `Node`: strings as character sequences, counters
/// as unbounded integers.
pub struct NodeView {
    pub id: Seq<char>,
    pub state: NodeState,
    pub total_cores: int,
    pub used_cores: int,
    pub total_mem_mb: int,
    pub used_mem_mb: int,
    pub partitions: Seq<Seq<char>>,
    pub jobs: Seq<Seq<char>>,
}

impl View for Node {
    type V = NodeView;

    open spec fn view(&self) -> NodeView {
        NodeView {
            id: self.id@,
            state: self.state,
            total_cores: self.total_cores as int,
            used_cores: self.used_cores as int,
            total_mem_mb: self.total_mem_mb as int,
            used_mem_mb: self.used_mem_mb as int,
            partitions: self.partitions.deep_view(),
            jobs: self.jobs.deep_view(),
        }
    }
}

impl DeepView for Node {
    type V = NodeView;

    open spec fn deep_view(&self) -> NodeView {
        self.view()
    }
}

/// Mathematical view of a `Job`.
pub struct JobView {
    pub id: Seq<char>,
    pub user: Seq<char>,
    pub name: Seq<char>,
    pub state: JobState,
    pub node_list: Seq<Seq<char>>,
    pub partition: Seq<char>,
    pub req_nodes: int,
    pub req_cpus: int,
    pub req_mem_mb: int,
    pub time_limit: int,
    pub elapsed: int,
    pub cpu_time: int,
    pub submit_time: int,
}

impl View for Job {
    type V = JobView;

    open spec fn view(&self) -> JobView {
        JobView {
            id: self.id@,
            user: self.user@,
            name: self.name@,
            state: self.state,
            node_list: self.node_list.deep_view(),
            partition: self.partition@,
            req_nodes: self.req_nodes as int,
            req_cpus: self.req_cpus as int,
            req_mem_mb: self.req_mem_mb as int,
            time_limit: self.time_limit as int,
            elapsed: self.elapsed as int,
            cpu_time: self.cpu_time as int,
            submit_time: self.submit_time as int,
        }
    }
}

impl DeepView for Job {
    type V = JobView;

    open spec fn deep_view(&self) -> JobView {
        self.view()
    }
}

/// Cores not in use: `max(total - used, 0)`.
pub open spec fn spec_available_cores(n: Node) -> int {
    if n.total_cores >= n.used_cores {
        n.total_cores - n.used_cores
    } else {
        0
    }
}

/// Free memory in whole (decimal) gigabytes: `max(total - used, 0) / 1000`.
pub open spec fn spec_available_mem_gb(n: Node) -> int {
    (if n.total_mem_mb >= n.used_mem_mb {
        n.total_mem_mb - n.used_mem_mb
    } else {
        0
    }) / 1000
}

pub open spec fn spec_total_mem_gb(n: Node) -> int {
    n.total_mem_mb as int / 1000
}

pub open spec fn spec_used_mem_gb(n: Node) -> int {
    n.used_mem_mb as int / 1000
}

/// A node can take new work iff it is `Idle` or `Running` and has both a
/// spare core and a spare (whole) gigabyte of memory.
pub open spec fn spec_is_available(n: Node) -> bool {
    (n.state == NodeState::Idle || n.state == NodeState::Running)
        && spec_available_cores(n) > 0
        && spec_available_mem_gb(n) > 0
}

impl Node {
    pub fn available_cores(&self) -> (r: u32)
        ensures
            r == spec_available_cores(*self),
    {
        if self.total_cores >= self.used_cores {
            self.total_cores - self.used_cores
        } else {
            0
        }
    }

    pub fn available_mem_gb(&self) -> (r: u32)
        ensures
            r == spec_available_mem_gb(*self),
    {
        (if self.total_mem_mb >= self.used_mem_mb {
            self.total_mem_mb - self.used_mem_mb
        } else {
            0
        }) / 1000
    }

    pub fn total_mem_gb(&self) -> (r: u32)
        ensures
            r == spec_total_mem_gb(*self),
    {
        self.total_mem_mb / 1000
    }

    pub fn used_mem_gb(&self) -> (r: u32)
        ensures
            r == spec_used_mem_gb(*self),
    {
        self.used_mem_mb / 1000
    }

    pub fn is_available(&self) -> (r: bool)
        ensures
            r == spec_is_available(*self),
    {
        (match self.state {
            NodeState::Idle | NodeState::Running => true,
            _ => false,
        }) && self.available_cores() > 0 && self.available_mem_gb() > 0
    }
}

} // verus!
