//! Synthetic backend: generates plausible random nodes and jobs per
//! partition for demonstration and testing. The generation bands are named
//! constants so that tests can assert the structural shape of the output;
//! the values themselves come from a random source and are only bounded.

use rand::Rng;
use vstd::prelude::*;

verus! {

use crate::models::{Node, Job, JobState, NodeState};
use crate::scheduler::FetchError;
use crate::text::{chars_of, string_from_chars, append_chars};
use vstd::string::StringExecFns;

pub struct MockScheduler {}

pub const BATCH_NODE_COUNT: usize = 25;

pub const HIGHMEM_NODE_COUNT: usize = 8;

pub const GPU_NODE_COUNT: usize = 6;

pub const BATCH_CORE_BASE: u32 = 32;

pub const BATCH_CORE_SPAN: u32 = 32;

pub const HIGHMEM_CORE_BASE: u32 = 48;

pub const HIGHMEM_CORE_SPAN: u32 = 16;

pub const GPU_CORE_BASE: u32 = 40;

pub const GPU_CORE_SPAN: u32 = 20;

pub const BATCH_MEM_GB_BASE: u32 = 128;

pub const BATCH_MEM_GB_SPAN: u32 = 256;

pub const HIGHMEM_MEM_GB_BASE: u32 = 512;

pub const HIGHMEM_MEM_GB_SPAN: u32 = 1024;

pub const GPU_MEM_GB_BASE: u32 = 256;

pub const GPU_MEM_GB_SPAN: u32 = 256;

/// Relies on rand's `thread_rng` and `Rng::gen_range` over `0..bound`:
/// a value below the bound. The draw is random, so nothing more is
/// assumed; an empty range would panic, hence the precondition.
#[verifier::external_body]
fn rand_below(bound: u32) -> (r: u32)
    requires
        bound > 0,
    ensures
        r < bound,
{
    rand::thread_rng().gen_range(0..bound)
}

/// Decimal digit characters of a non-negative number, most significant
/// first.
pub open spec fn spec_digit_char(d: int) -> char {
    if d == 0 {
        '0'
    } else if d == 1 {
        '1'
    } else if d == 2 {
        '2'
    } else if d == 3 {
        '3'
    } else if d == 4 {
        '4'
    } else if d == 5 {
        '5'
    } else if d == 6 {
        '6'
    } else if d == 7 {
        '7'
    } else if d == 8 {
        '8'
    } else {
        '9'
    }
}

pub open spec fn spec_u32_digits(n: int) -> Seq<char>
    decreases n,
{
    if n < 10 {
        seq![spec_digit_char(n)]
    } else {
        spec_u32_digits(n / 10).push(spec_digit_char(n % 10))
    }
}

/// The number zero-padded to at least three digits, `{:03}` style.
pub open spec fn spec_pad3(n: int) -> Seq<char> {
    let d = spec_u32_digits(n);
    if d.len() >= 3 {
        d
    } else if d.len() == 2 {
        seq!['0'] + d
    } else {
        seq!['0', '0'] + d
    }
}

fn digit_char(d: u32) -> (c: char)
    requires
        d < 10,
    ensures
        c == spec_digit_char(d as int),
{
    if d == 0 {
        '0'
    } else if d == 1 {
        '1'
    } else if d == 2 {
        '2'
    } else if d == 3 {
        '3'
    } else if d == 4 {
        '4'
    } else if d == 5 {
        '5'
    } else if d == 6 {
        '6'
    } else if d == 7 {
        '7'
    } else if d == 8 {
        '8'
    } else {
        '9'
    }
}

fn u32_digits(n: u32) -> (r: Vec<char>)
    ensures
        r@ == spec_u32_digits(n as int),
    decreases n,
{
    if n < 10 {
        let mut v: Vec<char> = Vec::new();
        v.push(digit_char(n));
        proof {
            assert(v@ =~= seq![spec_digit_char(n as int)]);
        }
        v
    } else {
        let mut v = u32_digits(n / 10);
        v.push(digit_char(n % 10));
        v
    }
}

fn pad3_chars(n: u32) -> (r: Vec<char>)
    ensures
        r@ == spec_pad3(n as int),
{
    let d = u32_digits(n);
    if d.len() >= 3 {
        d
    } else if d.len() == 2 {
        let mut v: Vec<char> = Vec::new();
        v.push('0');
        append_chars(&mut v, &d);
        proof {
            assert(v@ =~= seq!['0'] + d@);
        }
        v
    } else {
        let mut v: Vec<char> = Vec::new();
        v.push('0');
        v.push('0');
        append_chars(&mut v, &d);
        proof {
            assert(v@ =~= seq!['0', '0'] + d@);
        }
        v
    }
}

/// The node-name prefix a partition generates under, if the partition is
/// known to the synthetic backend.
pub open spec fn spec_mock_prefix(partition: Seq<char>) -> Option<Seq<char>> {
    if partition == "batch"@ {
        Some("batch"@)
    } else if partition == "highmem_q"@ {
        Some("highmem"@)
    } else if partition == "gpu_q"@ {
        Some("gpu"@)
    } else {
        None
    }
}

pub open spec fn spec_mock_count(partition: Seq<char>) -> int {
    if partition == "batch"@ {
        BATCH_NODE_COUNT as int
    } else if partition == "highmem_q"@ {
        HIGHMEM_NODE_COUNT as int
    } else {
        GPU_NODE_COUNT as int
    }
}

/// The identifier of the `i`-th generated node: prefix plus the 1-based
/// index, zero-padded to three digits.
pub open spec fn spec_mock_id(partition: Seq<char>, i: int) -> Seq<char> {
    match spec_mock_prefix(partition) {
        Some(pre) => pre + spec_pad3(i + 1),
        None => Seq::empty(),
    }
}

/// The capacity band a generated node falls in, by partition.
pub open spec fn spec_mock_bands_ok(n: Node, partition: Seq<char>) -> bool {
    if partition == "batch"@ {
        &&& BATCH_CORE_BASE <= n.total_cores < BATCH_CORE_BASE + BATCH_CORE_SPAN
        &&& BATCH_MEM_GB_BASE * 1000 <= n.total_mem_mb < (BATCH_MEM_GB_BASE + BATCH_MEM_GB_SPAN)
            * 1000
    } else if partition == "highmem_q"@ {
        &&& HIGHMEM_CORE_BASE <= n.total_cores < HIGHMEM_CORE_BASE + HIGHMEM_CORE_SPAN
        &&& HIGHMEM_MEM_GB_BASE * 1000 <= n.total_mem_mb < (HIGHMEM_MEM_GB_BASE
            + HIGHMEM_MEM_GB_SPAN) * 1000
    } else {
        &&& GPU_CORE_BASE <= n.total_cores < GPU_CORE_BASE + GPU_CORE_SPAN
        &&& GPU_MEM_GB_BASE * 1000 <= n.total_mem_mb < (GPU_MEM_GB_BASE + GPU_MEM_GB_SPAN) * 1000
    }
}

/// The structural shape every generated node satisfies: the id and
/// partition tag, the capacity band, usage consistent with the drawn
/// state, and job ids only on running nodes with cores in use.
pub open spec fn spec_mock_node_ok(n: Node, partition: Seq<char>, i: int) -> bool {
    &&& n@.id == spec_mock_id(partition, i)
    &&& n@.partitions == seq![partition]
    &&& spec_mock_bands_ok(n, partition)
    &&& n.used_cores <= n.total_cores
    &&& n.used_mem_mb <= n.total_mem_mb
    &&& (n.state == NodeState::Idle || n.state == NodeState::Running || n.state
        == NodeState::Down || n.state == NodeState::Busy)
    &&& (n.state == NodeState::Idle ==> n.used_cores == 0)
    &&& (n.state == NodeState::Down ==> n.used_cores == 0 && n.used_mem_mb == 0)
    &&& (n.state == NodeState::Busy ==> n.used_cores == n.total_cores)
    &&& n@.jobs.len() <= 3
    &&& ((n.state == NodeState::Running && n.used_cores > 0) <==> n@.jobs.len() >= 1)
}

pub open spec fn spec_is_mock_user(u: Seq<char>) -> bool {
    ||| u == "alice"@
    ||| u == "bob"@
    ||| u == "carol"@
    ||| u == "dave"@
    ||| u == "eve"@
    ||| u == "frank"@
    ||| u == "grace"@
    ||| u == "henry"@
}

/// The structural shape every generated partition job satisfies.
pub open spec fn spec_mock_job_ok(j: Job, partition: Seq<char>, i: int, now: int) -> bool {
    &&& j.state == JobState::Running
    &&& j@.partition == partition
    &&& spec_is_mock_user(j@.user)
    &&& j@.name == "job_"@ + spec_u32_digits(i + 1)
    &&& 1 <= j.req_nodes < 5
    &&& 8 <= j.req_cpus < 40
    &&& 16000 <= j.req_mem_mb < 144000
    &&& 0 <= j.elapsed < 86400
    &&& j.time_limit == 86400
    &&& 0 <= j.cpu_time < 86400
    &&& j.submit_time == now
    &&& j@.node_list.len() == 1
    &&& exists|r: int| 1 <= r < 21 && j@.node_list[0] == partition + spec_pad3(r)
}

/// The structural shape every generated user job satisfies.
pub open spec fn spec_mock_user_job_ok(j: Job, user: Seq<char>, i: int, now: int) -> bool {
    &&& j.state == JobState::Running
    &&& j@.partition == "batch"@
    &&& j@.user == user
    &&& j@.name == "my_job_"@ + spec_u32_digits(i + 1)
    &&& j.req_nodes == 1
    &&& 4 <= j.req_cpus < 20
    &&& 8000 <= j.req_mem_mb < 72000
    &&& 0 <= j.elapsed < 43200
    &&& j.time_limit == 43200
    &&& 0 <= j.cpu_time < 43200
    &&& j.submit_time == now
    &&& j@.node_list.len() == 1
    &&& exists|r: int| 1 <= r < 11 && j@.node_list[0] == "batch"@ + spec_pad3(r)
}

impl MockScheduler {
    pub fn new() -> Self {
        MockScheduler {  }
    }

    /// A plausible random node inventory for a known partition; an unknown
    /// partition is an invalid-partition error.
    pub fn get_nodes(&self, partition: &str) -> (r: Result<Vec<Node>, FetchError>)
        ensures
            match r {
                Ok(ns) => spec_mock_prefix(partition@) is Some && ns@.len() == spec_mock_count(
                    partition@,
                ) && forall|i: int|
                    0 <= i < ns@.len() ==> spec_mock_node_ok(ns@[i], partition@, i),
                Err(e) => spec_mock_prefix(partition@) is None && match e {
                    FetchError::NoNodesInPartition { partition: p } => p@ == partition@,
                    FetchError::CommandFailed { .. } => false,
                },
            },
    {
        let pv = chars_of(partition);
        let is_batch = crate::text::chars_eq(&pv, &chars_of("batch"));
        let is_highmem = crate::text::chars_eq(&pv, &chars_of("highmem_q"));
        let is_gpu = crate::text::chars_eq(&pv, &chars_of("gpu_q"));
        if !is_batch && !is_highmem && !is_gpu {
            return Err(FetchError::NoNodesInPartition { partition: partition.to_owned() });
        }
        let node_count: usize = if is_batch {
            BATCH_NODE_COUNT
        } else if is_highmem {
            HIGHMEM_NODE_COUNT
        } else {
            GPU_NODE_COUNT
        };
        let prefix = if is_batch {
            chars_of("batch")
        } else if is_highmem {
            chars_of("highmem")
        } else {
            chars_of("gpu")
        };
        let mut nodes: Vec<Node> = Vec::new();
        let mut i: usize = 0;
        while i < node_count
            invariant
                i <= node_count,
                nodes@.len() == i,
                node_count == spec_mock_count(partition@),
                spec_mock_prefix(partition@) is Some,
                prefix@ == spec_mock_prefix(partition@).unwrap(),
                pv@ == partition@,
                is_batch == (partition@ == "batch"@),
                is_highmem == (partition@ == "highmem_q"@),
                forall|m: int| 0 <= m < i ==> spec_mock_node_ok(nodes@[m], partition@, m),
            decreases node_count - i,
        {
            let total_cores: u32 = if is_batch {
                BATCH_CORE_BASE + rand_below(BATCH_CORE_SPAN)
            } else if is_highmem {
                HIGHMEM_CORE_BASE + rand_below(HIGHMEM_CORE_SPAN)
            } else {
                GPU_CORE_BASE + rand_below(GPU_CORE_SPAN)
            };
            let total_mem_mb: u32 = if is_batch {
                (BATCH_MEM_GB_BASE + rand_below(BATCH_MEM_GB_SPAN)) * 1000
            } else if is_highmem {
                (HIGHMEM_MEM_GB_BASE + rand_below(HIGHMEM_MEM_GB_SPAN)) * 1000
            } else {
                (GPU_MEM_GB_BASE + rand_below(GPU_MEM_GB_SPAN)) * 1000
            };
            let pick = rand_below(5);
            let state = if pick == 0 {
                NodeState::Idle
            } else if pick == 1 || pick == 2 {
                NodeState::Running
            } else if pick == 3 {
                NodeState::Down
            } else {
                NodeState::Busy
            };
            let (used_cores, used_mem_mb): (u32, u32) = match state {
                NodeState::Idle => (0, rand_below(total_mem_mb / 10)),
                NodeState::Running => (rand_below(total_cores), rand_below(total_mem_mb)),
                NodeState::Busy => (total_cores, total_mem_mb - rand_below(total_mem_mb / 4)),
                _ => (0, 0),
            };
            let mut jobs: Vec<String> = Vec::new();
            let running_with_cores = match state {
                NodeState::Running => used_cores > 0,
                _ => false,
            };
            if running_with_cores {
                let job_count = 1 + rand_below(3);
                let mut k: u32 = 0;
                while k < job_count
                    invariant
                        k <= job_count,
                        job_count <= 3,
                        jobs@.len() == k,
                    decreases job_count - k,
                {
                    let jid = u32_digits(100000 + rand_below(999999));
                    jobs.push(string_from_chars(&jid));
                    k += 1;
                }
            }
            let mut idv = crate::text::sub_chars(&prefix, 0, prefix.len());
            proof {
                assert(idv@ =~= prefix@);
            }
            let pad = pad3_chars((i as u32) + 1);
            append_chars(&mut idv, &pad);
            let mut parts: Vec<String> = Vec::new();
            parts.push(string_from_chars(&pv));
            let n = Node {
                id: string_from_chars(&idv),
                state,
                total_cores,
                used_cores,
                total_mem_mb,
                used_mem_mb,
                partitions: parts,
                jobs,
            };
            proof {
                assert(n.partitions.deep_view() =~= seq![pv@]);
                assert(n@.jobs.len() == n.jobs@.len());
                assert(spec_mock_node_ok(n, partition@, i as int));
            }
            nodes.push(n);
            i += 1;
        }
        Ok(nodes)
    }

    /// A plausible random job list for a partition; between 10 and 29 jobs,
    /// all running, owned by the synthetic user population.
    pub fn get_jobs(&self, partition: &str, now_secs: i64) -> (r: Result<Vec<Job>, FetchError>)
        ensures
            match r {
                Ok(js) => 10 <= js@.len() < 30 && forall|i: int|
                    0 <= i < js@.len() ==> spec_mock_job_ok(
                        js@[i],
                        partition@,
                        i,
                        now_secs as int,
                    ),
                Err(_) => false,
            },
    {
        let pv = chars_of(partition);
        let job_count = 10 + rand_below(20);
        let mut jobs: Vec<Job> = Vec::new();
        let mut i: u32 = 0;
        while i < job_count
            invariant
                i <= job_count,
                10 <= job_count < 30,
                jobs@.len() == i,
                pv@ == partition@,
                forall|m: int|
                    0 <= m < i ==> spec_mock_job_ok(jobs@[m], partition@, m, now_secs as int),
            decreases job_count - i,
        {
            let user_pick = rand_below(8);
            let user = if user_pick == 0 {
                String::from_str("alice")
            } else if user_pick == 1 {
                String::from_str("bob")
            } else if user_pick == 2 {
                String::from_str("carol")
            } else if user_pick == 3 {
                String::from_str("dave")
            } else if user_pick == 4 {
                String::from_str("eve")
            } else if user_pick == 5 {
                String::from_str("frank")
            } else if user_pick == 6 {
                String::from_str("grace")
            } else {
                String::from_str("henry")
            };
            let mut namev = chars_of("job_");
            let digits = u32_digits(i + 1);
            append_chars(&mut namev, &digits);
            let jid = u32_digits(100000 + rand_below(999999));
            let node_pick = 1 + rand_below(20);
            let mut nodev = crate::text::sub_chars(&pv, 0, pv.len());
            proof {
                assert(nodev@ =~= pv@);
            }
            let npad = pad3_chars(node_pick);
            append_chars(&mut nodev, &npad);
            let mut node_list: Vec<String> = Vec::new();
            node_list.push(string_from_chars(&nodev));
            let j = Job {
                id: string_from_chars(&jid),
                user,
                name: string_from_chars(&namev),
                state: JobState::Running,
                node_list,
                partition: string_from_chars(&pv),
                req_nodes: 1 + rand_below(4),
                req_cpus: 8 + rand_below(32),
                req_mem_mb: (16 + rand_below(128)) * 1000,
                time_limit: 86400,
                elapsed: rand_below(86400) as i64,
                cpu_time: rand_below(86400) as i64,
                submit_time: now_secs,
            };
            proof {
                assert(j@.node_list =~= seq![nodev@]);
                assert(1 <= node_pick < 21);
                assert(j@.node_list[0] == partition@ + spec_pad3(node_pick as int));
                assert(spec_mock_job_ok(j, partition@, i as int, now_secs as int));
            }
            jobs.push(j);
            i += 1;
        }
        Ok(jobs)
    }

    /// A handful of random jobs attributed to the given user.
    pub fn get_user_jobs(&self, user: &str, now_secs: i64) -> (r: Result<Vec<Job>, FetchError>)
        ensures
            match r {
                Ok(js) => js@.len() < 4 && forall|i: int|
                    0 <= i < js@.len() ==> spec_mock_user_job_ok(
                        js@[i],
                        user@,
                        i,
                        now_secs as int,
                    ),
                Err(_) => false,
            },
    {
        let uv = chars_of(user);
        let job_count = rand_below(4);
        let mut jobs: Vec<Job> = Vec::new();
        let mut i: u32 = 0;
        while i < job_count
            invariant
                i <= job_count,
                job_count < 4,
                jobs@.len() == i,
                uv@ == user@,
                forall|m: int|
                    0 <= m < i ==> spec_mock_user_job_ok(jobs@[m], user@, m, now_secs as int),
            decreases job_count - i,
        {
            let mut namev = chars_of("my_job_");
            let digits = u32_digits(i + 1);
            append_chars(&mut namev, &digits);
            let jid = u32_digits(200000 + rand_below(999999));
            let node_pick = 1 + rand_below(10);
            let mut nodev = chars_of("batch");
            let npad = pad3_chars(node_pick);
            append_chars(&mut nodev, &npad);
            let mut node_list: Vec<String> = Vec::new();
            node_list.push(string_from_chars(&nodev));
            let j = Job {
                id: string_from_chars(&jid),
                user: string_from_chars(&uv),
                name: string_from_chars(&namev),
                state: JobState::Running,
                node_list,
                partition: String::from_str("batch"),
                req_nodes: 1,
                req_cpus: 4 + rand_below(16),
                req_mem_mb: (8 + rand_below(64)) * 1000,
                time_limit: 43200,
                elapsed: rand_below(43200) as i64,
                cpu_time: rand_below(43200) as i64,
                submit_time: now_secs,
            };
            proof {
                assert(j@.node_list =~= seq![nodev@]);
                assert(1 <= node_pick < 11);
                assert(j@.node_list[0] == "batch"@ + spec_pad3(node_pick as int));
                assert(spec_mock_user_job_ok(j, user@, i as int, now_secs as int));
            }
            jobs.push(j);
            i += 1;
        }
        Ok(jobs)
    }
}

} // verus!
