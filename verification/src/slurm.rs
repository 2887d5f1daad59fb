//! Slurm-style backend parser. Node inventory arrives as multi-line
//! `key=value` blocks (one block per node, each opened by a `NodeName=`
//! line); job inventory arrives as pipe-delimited records with a header
//! row. Everything here parses defensively: malformed tokens are skipped
//! or defaulted, never fatal.

use vstd::prelude::*;

verus! {

use crate::models::{Node, NodeView, NodeState, Job, JobView, JobState};
use crate::scheduler::FetchError;
use crate::text::{
    chars_of, chars_eq, string_from_chars, strings_of, sub_chars, split_char, split_ws,
    lines_of, find_char, starts_with, contains_seq, contains_entry, append_chars, to_upper,
    parse_u32, decimal_u32, u32_or, i64_or_zero, spec_upper, spec_find_char,
    spec_split_char, spec_split_ws, spec_lines, spec_starts_with, spec_contains_seq,
    spec_contains_entry, spec_replace, spec_parse_u32, spec_decimal_u32, spec_u32_or,
    spec_i64_or_zero, spec_clamp_i64, lemma_chars_deep_view, lemma_vec_deep_view_push,
    replace,
};
use vstd::string::StringExecFns;

pub struct SlurmScheduler {}

/// The node state a Slurm state string maps to, ASCII case-insensitively;
/// anything unrecognized is `Offline`.
pub open spec fn spec_slurm_node_state(s: Seq<char>) -> NodeState {
    let u = spec_upper(s);
    if u == "IDLE"@ {
        NodeState::Idle
    } else if u == "MIXED"@ || u == "ALLOC"@ {
        NodeState::Running
    } else if u == "DOWN"@ || u == "DOWN*"@ {
        NodeState::Down
    } else if u == "DRAINED"@ {
        NodeState::Drained
    } else {
        NodeState::Offline
    }
}

/// The job state the first character of a Slurm state string selects.
pub open spec fn spec_slurm_job_state(s: Seq<char>) -> JobState {
    if s.len() == 0 {
        JobState::Failed
    } else if s[0] == 'R' {
        JobState::Running
    } else if s[0] == 'P' {
        JobState::Pending
    } else if s[0] == 'C' {
        JobState::Completed
    } else {
        JobState::Failed
    }
}

/// The hours field with any leading day prefix (`D-`) removed: the day
/// component is ignored by design.
pub open spec fn spec_strip_day(h: Seq<char>) -> Seq<char> {
    match spec_find_char(h, '-') {
        Some(p) => h.skip(p + 1),
        None => h,
    }
}

/// Seconds encoded by a colon-separated duration: the last three fields are
/// read as hours, minutes and seconds, a leading day component on the hours
/// field is ignored by design, unparseable fields count as zero, and fewer
/// than three fields mean zero seconds.
pub open spec fn spec_slurm_duration(s: Seq<char>) -> int {
    let parts = spec_split_char(s, ':');
    if parts.len() >= 3 {
        spec_clamp_i64(
            spec_i64_or_zero(spec_strip_day(parts[parts.len() - 3])) * 3600 + spec_i64_or_zero(
                parts[parts.len() - 2],
            ) * 60 + spec_i64_or_zero(parts[parts.len() - 1]),
        )
    } else {
        0
    }
}

/// Accumulator for one node block: the fields gathered so far and whether
/// the requested partition has been seen.
pub struct SlurmNodeAcc {
    pub node: NodeView,
    pub has_partition: bool,
}

pub open spec fn spec_initial_node() -> NodeView {
    NodeView {
        id: Seq::empty(),
        state: NodeState::Offline,
        total_cores: 0,
        used_cores: 0,
        total_mem_mb: 0,
        used_mem_mb: 0,
        partitions: Seq::empty(),
        jobs: Seq::empty(),
    }
}

/// One whitespace token of a node block applied to the accumulator: the
/// token is split at its first `=`; recognized keys set the matching field
/// and anything else is ignored.
pub open spec fn spec_slurm_node_token(
    acc: SlurmNodeAcc,
    tok: Seq<char>,
    partition: Seq<char>,
) -> SlurmNodeAcc {
    match spec_find_char(tok, '=') {
        None => acc,
        Some(p) => {
            let key = tok.take(p);
            let value = tok.skip(p + 1);
            if key == "NodeName"@ {
                SlurmNodeAcc { node: NodeView { id: value, ..acc.node }, ..acc }
            } else if key == "State"@ {
                SlurmNodeAcc {
                    node: NodeView { state: spec_slurm_node_state(value), ..acc.node },
                    ..acc
                }
            } else if key == "CPUAlloc"@ {
                match spec_parse_u32(value) {
                    Some(v) => SlurmNodeAcc {
                        node: NodeView { used_cores: v as int, ..acc.node },
                        ..acc
                    },
                    None => acc,
                }
            } else if key == "CPUTot"@ {
                match spec_parse_u32(value) {
                    Some(v) => SlurmNodeAcc {
                        node: NodeView { total_cores: v as int, ..acc.node },
                        ..acc
                    },
                    None => acc,
                }
            } else if key == "AllocMem"@ {
                match spec_parse_u32(value) {
                    Some(v) => SlurmNodeAcc {
                        node: NodeView { used_mem_mb: v as int, ..acc.node },
                        ..acc
                    },
                    None => acc,
                }
            } else if key == "RealMemory"@ {
                match spec_parse_u32(value) {
                    Some(v) => SlurmNodeAcc {
                        node: NodeView { total_mem_mb: v as int, ..acc.node },
                        ..acc
                    },
                    None => acc,
                }
            } else if key == "Partitions"@ {
                let parts = spec_split_char(value, ',');
                SlurmNodeAcc {
                    node: NodeView { partitions: parts, ..acc.node },
                    has_partition: acc.has_partition || spec_contains_entry(parts, partition),
                }
            } else {
                acc
            }
        },
    }
}

pub open spec fn spec_slurm_fold_tokens(toks: Seq<Seq<char>>, partition: Seq<char>) -> SlurmNodeAcc
    decreases toks.len(),
{
    if toks.len() == 0 {
        SlurmNodeAcc { node: spec_initial_node(), has_partition: false }
    } else {
        spec_slurm_node_token(
            spec_slurm_fold_tokens(toks.drop_last(), partition),
            toks.last(),
            partition,
        )
    }
}

/// The node one accumulated block yields: kept only if it declares the
/// requested partition and a non-empty identifier.
pub open spec fn spec_slurm_node_info(block: Seq<char>, partition: Seq<char>) -> Option<NodeView> {
    let acc = spec_slurm_fold_tokens(spec_split_ws(block), partition);
    if acc.has_partition && acc.node.id.len() > 0 {
        Some(acc.node)
    } else {
        None
    }
}

/// The job one pipe-delimited record yields: dropped if short, an `.extern`
/// pseudo-job, outside the requested partition, or not running.
pub open spec fn spec_slurm_job_line(line: Seq<char>, partition: Seq<char>, now: int) -> Option<
    JobView,
> {
    let fields = spec_split_char(line, '|');
    if fields.len() < 12 {
        None
    } else if spec_contains_seq(fields[2], ".extern"@) || !spec_contains_seq(
        fields[0],
        partition,
    ) {
        None
    } else if !(fields[5].len() > 0 && fields[5][0] == 'R') {
        None
    } else {
        let mem0 = spec_replace(
            spec_replace(
                spec_replace(
                    spec_replace(fields[8], "Mc"@, Seq::empty()),
                    "Mn"@,
                    Seq::empty(),
                ),
                "n"@,
                Seq::empty(),
            ),
            "c"@,
            Seq::empty(),
        );
        let mem1 = if spec_find_char(mem0, 'G') is Some {
            spec_replace(mem0, "G"@, "000"@)
        } else {
            mem0
        };
        Some(
            JobView {
                id: fields[2],
                user: fields[3],
                name: fields[4],
                state: spec_slurm_job_state(fields[5]),
                node_list: spec_split_char(fields[1], ','),
                partition: fields[0],
                req_nodes: spec_u32_or(fields[6], 1),
                req_cpus: spec_u32_or(fields[7], 0),
                req_mem_mb: spec_decimal_u32(mem1),
                time_limit: spec_slurm_duration(fields[9]),
                elapsed: spec_slurm_duration(fields[10]),
                cpu_time: spec_slurm_duration(fields[11]),
                submit_time: now,
            },
        )
    }
}

/// Accumulator for the block-per-node scan of the node listing.
pub struct SlurmBlocksAcc {
    pub nodes: Seq<NodeView>,
    pub cur: Seq<char>,
}

pub open spec fn spec_slurm_flush(acc: SlurmBlocksAcc, partition: Seq<char>) -> Seq<NodeView> {
    if acc.cur.len() > 0 {
        match spec_slurm_node_info(acc.cur, partition) {
            Some(n) => acc.nodes.push(n),
            None => acc.nodes,
        }
    } else {
        acc.nodes
    }
}

/// One line of the node listing: a `NodeName=` line flushes the block in
/// progress and opens a new one; any other line is appended to the block
/// (with a space standing in for the line break).
pub open spec fn spec_slurm_node_line(
    acc: SlurmBlocksAcc,
    line: Seq<char>,
    partition: Seq<char>,
) -> SlurmBlocksAcc {
    if spec_starts_with(line, "NodeName="@) {
        SlurmBlocksAcc { nodes: spec_slurm_flush(acc, partition), cur: line }
    } else {
        SlurmBlocksAcc { nodes: acc.nodes, cur: acc.cur + seq![' '] + line }
    }
}

pub open spec fn spec_slurm_fold_lines(
    lines: Seq<Seq<char>>,
    partition: Seq<char>,
) -> SlurmBlocksAcc
    decreases lines.len(),
{
    if lines.len() == 0 {
        SlurmBlocksAcc { nodes: Seq::empty(), cur: Seq::empty() }
    } else {
        spec_slurm_node_line(
            spec_slurm_fold_lines(lines.drop_last(), partition),
            lines.last(),
            partition,
        )
    }
}

/// Every node the whole listing yields for the partition, in input order.
pub open spec fn spec_slurm_nodes(output: Seq<char>, partition: Seq<char>) -> Seq<NodeView> {
    spec_slurm_flush(spec_slurm_fold_lines(spec_lines(output), partition), partition)
}

/// Jobs parsed from the pipe-delimited listing, header line skipped.
pub open spec fn spec_slurm_jobs(lines: Seq<Seq<char>>, partition: Seq<char>, now: int) -> Seq<
    JobView,
>
    decreases lines.len(),
{
    if lines.len() <= 1 {
        Seq::empty()
    } else {
        let prev = spec_slurm_jobs(lines.drop_last(), partition, now);
        match spec_slurm_job_line(lines.last(), partition, now) {
            Some(j) => prev.push(j),
            None => prev,
        }
    }
}

/// Jobs parsed from a per-user listing: the same record format, filtered to
/// running non-`.extern` records, with no partition restriction.
pub open spec fn spec_slurm_user_jobs(lines: Seq<Seq<char>>, now: int) -> Seq<JobView>
    decreases lines.len(),
{
    if lines.len() <= 1 {
        Seq::empty()
    } else {
        let prev = spec_slurm_user_jobs(lines.drop_last(), now);
        let l = lines.last();
        let fields = spec_split_char(l, '|');
        if fields.len() >= 12 && !spec_contains_seq(fields[2], ".extern"@) && fields[5].len() > 0
            && fields[5][0] == 'R' {
            match spec_slurm_job_line(l, Seq::empty(), now) {
                Some(j) => prev.push(j),
                None => prev,
            }
        } else {
            prev
        }
    }
}

fn node_state_chars(v: &Vec<char>) -> (r: NodeState)
    ensures
        r == spec_slurm_node_state(v@),
{
    let up = to_upper(v);
    if chars_eq(&up, &chars_of("IDLE")) {
        NodeState::Idle
    } else if chars_eq(&up, &chars_of("MIXED")) || chars_eq(&up, &chars_of("ALLOC")) {
        NodeState::Running
    } else if chars_eq(&up, &chars_of("DOWN")) || chars_eq(&up, &chars_of("DOWN*")) {
        NodeState::Down
    } else if chars_eq(&up, &chars_of("DRAINED")) {
        NodeState::Drained
    } else {
        NodeState::Offline
    }
}

fn job_state_chars(v: &Vec<char>) -> (r: JobState)
    ensures
        r == spec_slurm_job_state(v@),
{
    if v.len() == 0 {
        return JobState::Failed;
    }
    let c = v[0];
    if c == 'R' {
        JobState::Running
    } else if c == 'P' {
        JobState::Pending
    } else if c == 'C' {
        JobState::Completed
    } else {
        JobState::Failed
    }
}

fn duration_chars(v: &Vec<char>) -> (r: i64)
    ensures
        r as int == spec_slurm_duration(v@),
{
    broadcast use lemma_chars_deep_view;

    let parts = split_char(v, ':');
    let n = parts.len();
    if n >= 3 {
        let htok = &parts[n - 3];
        let hstripped = match find_char(htok, '-') {
            Some(p) => {
                let r = sub_chars(htok, p + 1, htok.len());
                proof {
                    assert(r@ =~= htok@.skip(p + 1));
                }
                r
            },
            None => sub_chars(htok, 0, htok.len()),
        };
        proof {
            assert(hstripped@ == spec_strip_day(parts@[n - 3]@));
        }
        let h = i64_or_zero(&hstripped);
        let m = i64_or_zero(&parts[n - 2]);
        let s = i64_or_zero(&parts[n - 1]);
        let total: i128 = (h as i128) * 3600 + (m as i128) * 60 + (s as i128);
        if total > i64::MAX as i128 {
            i64::MAX
        } else if total < i64::MIN as i128 {
            i64::MIN
        } else {
            total as i64
        }
    } else {
        0
    }
}

fn node_info_chars(bv: &Vec<char>, pv: &Vec<char>) -> (r: Option<Node>)
    ensures
        match r {
            Some(n) => spec_slurm_node_info(bv@, pv@) == Some(n@),
            None => spec_slurm_node_info(bv@, pv@) is None,
        },
{
    broadcast use lemma_chars_deep_view;

    let toks = split_ws(bv);
    let ghost tv = toks.deep_view();
    let mut id: Vec<char> = Vec::new();
    let mut state = NodeState::Offline;
    let mut total_cores: u32 = 0;
    let mut used_cores: u32 = 0;
    let mut total_mem_mb: u32 = 0;
    let mut used_mem_mb: u32 = 0;
    let mut partitions: Vec<Vec<char>> = Vec::new();
    let mut has_partition = false;
    let mut i: usize = 0;
    proof {
        assert(tv.take(0) =~= Seq::<Seq<char>>::empty());
        assert(partitions.deep_view() =~= Seq::<Seq<char>>::empty());
    }
    while i < toks.len()
        invariant
            i <= toks@.len(),
            tv == toks.deep_view(),
            tv == spec_split_ws(bv@),
            spec_slurm_fold_tokens(tv.take(i as int), pv@) == (SlurmNodeAcc {
                node: NodeView {
                    id: id@,
                    state: state,
                    total_cores: total_cores as int,
                    used_cores: used_cores as int,
                    total_mem_mb: total_mem_mb as int,
                    used_mem_mb: used_mem_mb as int,
                    partitions: partitions.deep_view(),
                    jobs: Seq::empty(),
                },
                has_partition: has_partition,
            }),
        decreases toks.len() - i,
    {
        let tok = &toks[i];
        proof {
            assert(tv.take(i + 1 as int).drop_last() =~= tv.take(i as int));
            assert(tv.take(i + 1 as int).last() == tv[i as int]);
            assert(tok@ == tv[i as int]);
        }
        match find_char(tok, '=') {
            None => {},
            Some(p) => {
                let key = sub_chars(tok, 0, p);
                let value = sub_chars(tok, p + 1, tok.len());
                proof {
                    assert(key@ =~= tok@.take(p as int));
                    assert(value@ =~= tok@.skip(p + 1));
                }
                if chars_eq(&key, &chars_of("NodeName")) {
                    id = value;
                } else if chars_eq(&key, &chars_of("State")) {
                    state = node_state_chars(&value);
                } else if chars_eq(&key, &chars_of("CPUAlloc")) {
                    match parse_u32(&value) {
                        Some(v) => {
                            used_cores = v;
                        },
                        None => {},
                    }
                } else if chars_eq(&key, &chars_of("CPUTot")) {
                    match parse_u32(&value) {
                        Some(v) => {
                            total_cores = v;
                        },
                        None => {},
                    }
                } else if chars_eq(&key, &chars_of("AllocMem")) {
                    match parse_u32(&value) {
                        Some(v) => {
                            used_mem_mb = v;
                        },
                        None => {},
                    }
                } else if chars_eq(&key, &chars_of("RealMemory")) {
                    match parse_u32(&value) {
                        Some(v) => {
                            total_mem_mb = v;
                        },
                        None => {},
                    }
                } else if chars_eq(&key, &chars_of("Partitions")) {
                    partitions = split_char(&value, ',');
                    if contains_entry(&partitions, pv) {
                        has_partition = true;
                    }
                }
            },
        }
        i += 1;
    }
    proof {
        assert(tv.take(tv.len() as int) =~= tv);
    }
    if has_partition && id.len() > 0 {
        let n = Node {
            id: string_from_chars(&id),
            state,
            total_cores,
            used_cores,
            total_mem_mb,
            used_mem_mb,
            partitions: strings_of(partitions),
            jobs: Vec::new(),
        };
        proof {
            assert(n.jobs.deep_view() =~= Seq::<Seq<char>>::empty());
        }
        Some(n)
    } else {
        None
    }
}

fn job_line_chars(lv: &Vec<char>, pv: &Vec<char>, now_secs: i64) -> (r: Option<Job>)
    ensures
        match r {
            Some(j) => spec_slurm_job_line(lv@, pv@, now_secs as int) == Some(j@),
            None => spec_slurm_job_line(lv@, pv@, now_secs as int) is None,
        },
{
    broadcast use lemma_chars_deep_view;

    let fields = split_char(lv, '|');
    let ghost fv = fields.deep_view();
    if fields.len() < 12 {
        return None;
    }
    if contains_seq(&fields[2], &chars_of(".extern")) || !contains_seq(&fields[0], pv) {
        return None;
    }
    let f5 = &fields[5];
    if !(f5.len() > 0 && f5[0] == 'R') {
        return None;
    }
    let empty: Vec<char> = Vec::new();
    proof {
        reveal_strlit("Mc");
        reveal_strlit("Mn");
        reveal_strlit("n");
        reveal_strlit("c");
        reveal_strlit("G");
        reveal_strlit("000");
    }
    let mem_a = replace(&fields[8], &chars_of("Mc"), &empty);
    let mem_b = replace(&mem_a, &chars_of("Mn"), &empty);
    let mem_c = replace(&mem_b, &chars_of("n"), &empty);
    let mem0 = replace(&mem_c, &chars_of("c"), &empty);
    let mem1 = match find_char(&mem0, 'G') {
        Some(_) => replace(&mem0, &chars_of("G"), &chars_of("000")),
        None => mem0,
    };
    let req_mem_mb = decimal_u32(&mem1);
    let node_list = split_char(&fields[1], ',');
    let j = Job {
        id: string_from_chars(&fields[2]),
        user: string_from_chars(&fields[3]),
        name: string_from_chars(&fields[4]),
        state: job_state_chars(&fields[5]),
        node_list: strings_of(node_list),
        partition: string_from_chars(&fields[0]),
        req_nodes: u32_or(&fields[6], 1),
        req_cpus: u32_or(&fields[7], 0),
        req_mem_mb,
        time_limit: duration_chars(&fields[9]),
        elapsed: duration_chars(&fields[10]),
        cpu_time: duration_chars(&fields[11]),
        submit_time: now_secs,
    };
    proof {
        assert(Seq::<char>::empty() =~= empty@);
    }
    Some(j)
}

impl SlurmScheduler {
    pub fn new() -> Self {
        SlurmScheduler {  }
    }

    /// The canonical node state a raw Slurm state string maps to.
    pub fn parse_node_state(state_str: &str) -> (r: NodeState)
        ensures
            r == spec_slurm_node_state(state_str@),
    {
        let v = chars_of(state_str);
        node_state_chars(&v)
    }

    /// The canonical job state a raw Slurm state string maps to.
    pub fn parse_job_state(state_str: &str) -> (r: JobState)
        ensures
            r == spec_slurm_job_state(state_str@),
    {
        let v = chars_of(state_str);
        job_state_chars(&v)
    }

    /// Seconds encoded by a `[[D-]HH:]MM:SS`-like duration string.
    pub fn parse_duration(time_str: &str) -> (r: i64)
        ensures
            r as int == spec_slurm_duration(time_str@),
    {
        let v = chars_of(time_str);
        duration_chars(&v)
    }

    /// One accumulated `key=value` block turned into a node, if it belongs
    /// to the partition.
    pub fn parse_node_info(node_info: &str, partition: &str) -> (r: Option<Node>)
        ensures
            match r {
                Some(n) => spec_slurm_node_info(node_info@, partition@) == Some(n@),
                None => spec_slurm_node_info(node_info@, partition@) is None,
            },
    {
        let bv = chars_of(node_info);
        let pv = chars_of(partition);
        node_info_chars(&bv, &pv)
    }

    /// One pipe-delimited record turned into a job, if it passes the
    /// partition, state and `.extern` filters.
    pub fn parse_job_line(line: &str, partition: &str, now_secs: i64) -> (r: Option<Job>)
        ensures
            match r {
                Some(j) => spec_slurm_job_line(line@, partition@, now_secs as int) == Some(j@),
                None => spec_slurm_job_line(line@, partition@, now_secs as int) is None,
            },
    {
        let lv = chars_of(line);
        let pv = chars_of(partition);
        job_line_chars(&lv, &pv, now_secs)
    }

    /// The node fetch decided from a finished `scontrol show nodes` run:
    /// a failed command surfaces as `CommandFailed`, a successful one with
    /// no node in the partition as `NoNodesInPartition`.
    pub fn nodes_from_output(exit_ok: bool, stdout: &str, stderr: &str, partition: &str) -> (r:
        Result<Vec<Node>, FetchError>)
        ensures
            match r {
                Ok(ns) => exit_ok && ns.deep_view() == spec_slurm_nodes(stdout@, partition@)
                    && ns@.len() > 0,
                Err(e) => match e {
                    FetchError::CommandFailed { command, detail } => !exit_ok && command@
                        == "scontrol"@ && detail@ == stderr@,
                    FetchError::NoNodesInPartition { partition: p } => exit_ok
                        && spec_slurm_nodes(stdout@, partition@).len() == 0 && p@ == partition@,
                },
            },
    {
        broadcast use lemma_chars_deep_view;

        if !exit_ok {
            return Err(
                FetchError::CommandFailed {
                    command: String::from_str("scontrol"),
                    detail: stderr.to_owned(),
                },
            );
        }
        let sv = chars_of(stdout);
        let pv = chars_of(partition);
        let lines = lines_of(&sv);
        let ghost lsv = lines.deep_view();
        let marker = chars_of("NodeName=");
        let mut nodes: Vec<Node> = Vec::new();
        let mut cur: Vec<char> = Vec::new();
        let mut i: usize = 0;
        proof {
            assert(lsv.take(0) =~= Seq::<Seq<char>>::empty());
            assert(nodes.deep_view() =~= Seq::<NodeView>::empty());
        }
        while i < lines.len()
            invariant
                i <= lines@.len(),
                lsv == lines.deep_view(),
                lsv == spec_lines(stdout@),
                pv@ == partition@,
                marker@ == "NodeName="@,
                spec_slurm_fold_lines(lsv.take(i as int), partition@) == (SlurmBlocksAcc {
                    nodes: nodes.deep_view(),
                    cur: cur@,
                }),
            decreases lines.len() - i,
        {
            let line = &lines[i];
            proof {
                assert(lsv.take(i + 1 as int).drop_last() =~= lsv.take(i as int));
                assert(lsv.take(i + 1 as int).last() == lsv[i as int]);
                assert(line@ == lsv[i as int]);
            }
            if starts_with(line, &marker) {
                if cur.len() > 0 {
                    match node_info_chars(&cur, &pv) {
                        Some(n) => {
                            let ghost pre = nodes;
                            nodes.push(n);
                            proof {
                                lemma_vec_deep_view_push(pre, nodes, n);
                            }
                        },
                        None => {},
                    }
                }
                cur = sub_chars(line, 0, line.len());
                proof {
                    assert(cur@ =~= lsv[i as int]);
                }
            } else {
                cur.push(' ');
                append_chars(&mut cur, line);
                proof {
                    assert(cur@ =~= spec_slurm_fold_lines(lsv.take(i as int), partition@).cur
                        + seq![' '] + lsv[i as int]);
                }
            }
            i += 1;
        }
        proof {
            assert(lsv.take(lsv.len() as int) =~= lsv);
        }
        if cur.len() > 0 {
            match node_info_chars(&cur, &pv) {
                Some(n) => {
                    let ghost pre = nodes;
                    nodes.push(n);
                    proof {
                        lemma_vec_deep_view_push(pre, nodes, n);
                    }
                },
                None => {},
            }
        }
        if nodes.len() == 0 {
            return Err(FetchError::NoNodesInPartition { partition: partition.to_owned() });
        }
        Ok(nodes)
    }

    /// The job fetch decided from a finished `sacct` run; an empty job
    /// list is a valid result, so only a failed command is an error.
    pub fn jobs_from_output(
        exit_ok: bool,
        stdout: &str,
        stderr: &str,
        partition: &str,
        now_secs: i64,
    ) -> (r: Result<Vec<Job>, FetchError>)
        ensures
            match r {
                Ok(js) => exit_ok && js.deep_view() == spec_slurm_jobs(
                    spec_lines(stdout@),
                    partition@,
                    now_secs as int,
                ),
                Err(e) => match e {
                    FetchError::CommandFailed { command, detail } => !exit_ok && command@
                        == "sacct"@ && detail@ == stderr@,
                    FetchError::NoNodesInPartition { .. } => false,
                },
            },
    {
        broadcast use lemma_chars_deep_view;

        if !exit_ok {
            return Err(
                FetchError::CommandFailed {
                    command: String::from_str("sacct"),
                    detail: stderr.to_owned(),
                },
            );
        }
        let sv = chars_of(stdout);
        let pv = chars_of(partition);
        let lines = lines_of(&sv);
        let ghost lsv = lines.deep_view();
        let mut jobs: Vec<Job> = Vec::new();
        proof {
            assert(jobs.deep_view() =~= Seq::<JobView>::empty());
        }
        if lines.len() >= 1 {
            let mut i: usize = 1;
            proof {
                assert(lsv.take(1).len() == 1);
            }
            while i < lines.len()
                invariant
                    1 <= i <= lines@.len(),
                    lsv == lines.deep_view(),
                    lsv == spec_lines(stdout@),
                    pv@ == partition@,
                    jobs.deep_view() == spec_slurm_jobs(
                        lsv.take(i as int),
                        partition@,
                        now_secs as int,
                    ),
                decreases lines.len() - i,
            {
                let line = &lines[i];
                proof {
                    assert(lsv.take(i + 1 as int).drop_last() =~= lsv.take(i as int));
                    assert(lsv.take(i + 1 as int).last() == lsv[i as int]);
                    assert(line@ == lsv[i as int]);
                }
                match job_line_chars(line, &pv, now_secs) {
                    Some(j) => {
                        let ghost pre = jobs;
                        jobs.push(j);
                        proof {
                            lemma_vec_deep_view_push(pre, jobs, j);
                        }
                    },
                    None => {},
                }
                i += 1;
            }
            proof {
                assert(lsv.take(lsv.len() as int) =~= lsv);
            }
        }
        Ok(jobs)
    }

    /// The per-user job fetch decided from a finished `sacct -u` run.
    pub fn user_jobs_from_output(exit_ok: bool, stdout: &str, stderr: &str, now_secs: i64) -> (r:
        Result<Vec<Job>, FetchError>)
        ensures
            match r {
                Ok(js) => exit_ok && js.deep_view() == spec_slurm_user_jobs(
                    spec_lines(stdout@),
                    now_secs as int,
                ),
                Err(e) => match e {
                    FetchError::CommandFailed { command, detail } => !exit_ok && command@
                        == "sacct"@ && detail@ == stderr@,
                    FetchError::NoNodesInPartition { .. } => false,
                },
            },
    {
        broadcast use lemma_chars_deep_view;

        if !exit_ok {
            return Err(
                FetchError::CommandFailed {
                    command: String::from_str("sacct"),
                    detail: stderr.to_owned(),
                },
            );
        }
        let sv = chars_of(stdout);
        let lines = lines_of(&sv);
        let ghost lsv = lines.deep_view();
        let ext = chars_of(".extern");
        let empty: Vec<char> = Vec::new();
        let mut jobs: Vec<Job> = Vec::new();
        proof {
            assert(jobs.deep_view() =~= Seq::<JobView>::empty());
            assert(empty@ =~= Seq::<char>::empty());
        }
        if lines.len() >= 1 {
            let mut i: usize = 1;
            proof {
                assert(lsv.take(1).len() == 1);
            }
            while i < lines.len()
                invariant
                    1 <= i <= lines@.len(),
                    lsv == lines.deep_view(),
                    lsv == spec_lines(stdout@),
                    ext@ == ".extern"@,
                    empty@ == Seq::<char>::empty(),
                    jobs.deep_view() == spec_slurm_user_jobs(
                        lsv.take(i as int),
                        now_secs as int,
                    ),
                decreases lines.len() - i,
            {
                let line = &lines[i];
                proof {
                    assert(lsv.take(i + 1 as int).drop_last() =~= lsv.take(i as int));
                    assert(lsv.take(i + 1 as int).last() == lsv[i as int]);
                    assert(line@ == lsv[i as int]);
                }
                let fields = split_char(line, '|');
                proof {
                    assert(fields.deep_view() == spec_split_char(lsv[i as int], '|'));
                }
                if fields.len() >= 12 {
                    proof {
                        assert(fields@[2]@ == fields.deep_view()[2]);
                        assert(fields@[5]@ == fields.deep_view()[5]);
                    }
                    let f2_hit = contains_seq(&fields[2], &ext);
                    let f5 = &fields[5];
                    let running = f5.len() > 0 && f5[0] == 'R';
                    if !f2_hit && running {
                        match job_line_chars(line, &empty, now_secs) {
                            Some(j) => {
                                let ghost pre = jobs;
                                jobs.push(j);
                                proof {
                                    lemma_vec_deep_view_push(pre, jobs, j);
                                }
                            },
                            None => {},
                        }
                    }
                }
                i += 1;
            }
            proof {
                assert(lsv.take(lsv.len() as int) =~= lsv);
            }
        }
        Ok(jobs)
    }
}

} // verus!
