//! Torque-style backend parser. Node inventory is one aligned table line
//! per node (runs of spaces collapsed before tokenizing, partitions tagged
//! in bracket notation, CPU and memory as `available:total` pairs); job
//! inventory is a stream of indented attribute lines grouped under
//! `Job Id:` headers, matched by substring rather than strict keys.

use vstd::prelude::*;

verus! {

use crate::models::{Node, NodeView, NodeState, Job, JobView, JobState};
use crate::scheduler::FetchError;
use crate::text::{
    chars_of, chars_eq, string_from_chars, sub_chars, split_char, split_ws,
    lines_of, find_char, contains_seq, append_chars, to_upper, to_lower, parse_u32,
    repeat_char, u32_or, i64_or_zero, trim, spec_upper, spec_lower, spec_find_char,
    spec_split_char, spec_split_ws, spec_lines, spec_contains_seq, spec_replace,
    spec_parse_u32, spec_u32_or, spec_i64_or_zero, spec_clamp_i64, spec_trim,
    lemma_chars_deep_view, lemma_vec_deep_view_push, replace,
};
use vstd::string::StringExecFns;

pub struct TorqueScheduler {}

/// The node state a Torque state string maps to, ASCII case-insensitively;
/// anything unrecognized is `Offline`.
pub open spec fn spec_torque_node_state(s: Seq<char>) -> NodeState {
    let u = spec_upper(s);
    if u == "IDLE"@ {
        NodeState::Idle
    } else if u == "BUSY"@ {
        NodeState::Busy
    } else if u == "DOWN"@ || u == "DOWN*"@ {
        NodeState::Down
    } else if u == "OFFLINE"@ {
        NodeState::Offline
    } else if u == "DRAINED"@ {
        NodeState::Drained
    } else {
        NodeState::Offline
    }
}

/// The job state a Torque state letter selects.
pub open spec fn spec_torque_job_state(s: Seq<char>) -> JobState {
    if s == "R"@ {
        JobState::Running
    } else if s == "Q"@ || s == "H"@ {
        JobState::Pending
    } else if s == "C"@ {
        JobState::Completed
    } else {
        JobState::Failed
    }
}

/// Seconds encoded by a colon-separated `HH:MM:SS` duration: the first
/// three fields are hours, minutes and seconds, unparseable fields count
/// as zero, fewer than three fields mean zero seconds.
pub open spec fn spec_torque_duration(s: Seq<char>) -> int {
    let parts = spec_split_char(s, ':');
    if parts.len() >= 3 {
        spec_clamp_i64(
            spec_i64_or_zero(parts[0]) * 3600 + spec_i64_or_zero(parts[1]) * 60
                + spec_i64_or_zero(parts[2]),
        )
    } else {
        0
    }
}

pub open spec fn spec_spaces(x: int) -> Seq<char> {
    Seq::new(x as nat, |i: int| ' ')
}

/// Alignment cleanup: runs of `x` spaces collapsed to one, applied for
/// `x` from 30 down to 2 (longest runs first).
pub open spec fn spec_collapse_spaces(s: Seq<char>, x: int) -> Seq<char>
    decreases x,
{
    if x < 2 {
        s
    } else {
        spec_collapse_spaces(spec_replace(s, spec_spaces(x), seq![' ']), x - 1)
    }
}

/// The node one table line yields: the line must carry the partition's
/// bracket tag (and not an adjacent second tag), at least four fields
/// after space collapsing, and parseable `available:total` CPU and
/// memory pairs; `used` is `total - available`, clamped at zero.
pub open spec fn spec_torque_node_info(node_info: Seq<char>, partition: Seq<char>) -> Option<
    NodeView,
> {
    let cleaned = spec_collapse_spaces(node_info, 30);
    let fields = spec_split_ws(cleaned);
    if fields.len() < 4 {
        None
    } else if !spec_contains_seq(node_info, seq!['['] + partition + seq![']'])
        || spec_contains_seq(node_info, seq!['['] + partition + seq![']', '[']) {
        None
    } else {
        let cpu = spec_split_char(fields[2], ':');
        let mem = spec_split_char(fields[3], ':');
        if cpu.len() < 2 || mem.len() < 2 {
            None
        } else {
            match (
                spec_parse_u32(cpu[1]),
                spec_parse_u32(cpu[0]),
                spec_parse_u32(mem[1]),
                spec_parse_u32(mem[0]),
            ) {
                (Some(tc), Some(ac), Some(tm), Some(am)) => Some(
                    NodeView {
                        id: fields[0],
                        state: spec_torque_node_state(fields[1]),
                        total_cores: tc as int,
                        used_cores: if tc >= ac {
                            tc - ac
                        } else {
                            0
                        },
                        total_mem_mb: tm as int,
                        used_mem_mb: if tm >= am {
                            tm - am
                        } else {
                            0
                        },
                        partitions: seq![partition],
                        jobs: Seq::empty(),
                    },
                ),
                _ => None,
            }
        }
    }
}

/// The raw attribute strings gathered from one job block.
pub struct TorqueJobAcc {
    pub job_id: Seq<char>,
    pub name: Seq<char>,
    pub owner: Seq<char>,
    pub cpu_time: Seq<char>,
    pub wall_time: Seq<char>,
    pub req_time: Seq<char>,
    pub state: Seq<char>,
    pub req_mem: Seq<char>,
    pub req_cpu: Seq<char>,
    pub node_id: Seq<char>,
}

pub open spec fn spec_torque_job_init() -> TorqueJobAcc {
    TorqueJobAcc {
        job_id: Seq::empty(),
        name: Seq::empty(),
        owner: Seq::empty(),
        cpu_time: "00:00:00"@,
        wall_time: "00:00:00"@,
        req_time: "00:00:00"@,
        state: Seq::empty(),
        req_mem: "1gb"@,
        req_cpu: "1"@,
        node_id: "?"@,
    }
}

/// What follows position `p` plus two characters, or nothing if the line
/// is too short.
pub open spec fn spec_after2(l: Seq<char>, p: int) -> Seq<char> {
    if p + 2 <= l.len() {
        l.skip(p + 2)
    } else {
        Seq::empty()
    }
}

/// One attribute line applied to the accumulator. Attributes are matched
/// by substring, in the order the original tools print them; the value is
/// what follows the first `:` or `=` (plus a space).
pub open spec fn spec_torque_job_line(acc: TorqueJobAcc, l: Seq<char>) -> TorqueJobAcc {
    if spec_contains_seq(l, "Job Id:"@) {
        match spec_find_char(l, ':') {
            Some(p) => TorqueJobAcc { job_id: spec_trim(spec_after2(l, p)), ..acc },
            None => acc,
        }
    } else if spec_contains_seq(l, "Job_Name ="@) {
        match spec_find_char(l, '=') {
            Some(p) => TorqueJobAcc { name: spec_trim(spec_after2(l, p)), ..acc },
            None => acc,
        }
    } else if spec_contains_seq(l, "Job_Owner ="@) {
        match spec_find_char(l, '=') {
            Some(p) => {
                let part = spec_after2(l, p);
                match spec_find_char(part, '@') {
                    Some(a) => TorqueJobAcc { owner: part.take(a), ..acc },
                    None => acc,
                }
            },
            None => acc,
        }
    } else if spec_contains_seq(l, "resources_used.cput ="@) {
        match spec_find_char(l, '=') {
            Some(p) => TorqueJobAcc { cpu_time: spec_trim(spec_after2(l, p)), ..acc },
            None => acc,
        }
    } else if spec_contains_seq(l, "resources_used.walltime ="@) {
        match spec_find_char(l, '=') {
            Some(p) => TorqueJobAcc { wall_time: spec_trim(spec_after2(l, p)), ..acc },
            None => acc,
        }
    } else if spec_contains_seq(l, "Resource_List.walltime ="@) {
        match spec_find_char(l, '=') {
            Some(p) => TorqueJobAcc { req_time: spec_trim(spec_after2(l, p)), ..acc },
            None => acc,
        }
    } else if spec_contains_seq(l, "job_state ="@) {
        match spec_find_char(l, '=') {
            Some(p) => TorqueJobAcc { state: spec_trim(spec_after2(l, p)), ..acc },
            None => acc,
        }
    } else if spec_contains_seq(l, "Resource_List.mem ="@) {
        match spec_find_char(l, '=') {
            Some(p) => TorqueJobAcc { req_mem: spec_trim(spec_after2(l, p)), ..acc },
            None => acc,
        }
    } else if spec_contains_seq(l, "Resource_List.nodes ="@) {
        match spec_find_char(l, '=') {
            Some(p) => {
                let part = spec_after2(l, p);
                if spec_find_char(part, ':') is Some {
                    match spec_find_char(part, '=') {
                        Some(e) => {
                            let cpu_part = part.skip(e + 1);
                            match spec_find_char(cpu_part, ':') {
                                Some(c2) => TorqueJobAcc { req_cpu: cpu_part.take(c2), ..acc },
                                None => TorqueJobAcc { req_cpu: spec_trim(cpu_part), ..acc },
                            }
                        },
                        None => acc,
                    }
                } else {
                    acc
                }
            },
            None => acc,
        }
    } else if spec_contains_seq(l, "exec_host ="@) {
        match spec_find_char(l, '=') {
            Some(p) => {
                let part = spec_after2(l, p);
                match spec_find_char(part, '/') {
                    Some(s) => TorqueJobAcc { node_id: part.take(s), ..acc },
                    None => acc,
                }
            },
            None => acc,
        }
    } else {
        acc
    }
}

pub open spec fn spec_torque_job_fold(lines: Seq<Seq<char>>) -> TorqueJobAcc
    decreases lines.len(),
{
    if lines.len() == 0 {
        spec_torque_job_init()
    } else {
        spec_torque_job_line(spec_torque_job_fold(lines.drop_last()), lines.last())
    }
}

/// Requested memory in megabytes: a case-insensitive `gb` value is scaled
/// by 1000 (saturating), a `mb` (or suffixless) value is taken as
/// megabytes; unparseable values fall back to 1 GB or 1000 MB.
pub open spec fn spec_torque_mem_mb(req_mem: Seq<char>) -> int {
    let low = spec_lower(req_mem);
    let stripped = spec_replace(spec_replace(low, "gb"@, Seq::empty()), "mb"@, Seq::empty());
    if spec_contains_seq(low, "gb"@) {
        let v = spec_u32_or(stripped, 1) * 1000;
        if v > u32::MAX {
            u32::MAX as int
        } else {
            v
        }
    } else {
        spec_u32_or(stripped, 1000)
    }
}

/// The job one accumulated block yields; only running (`R`) jobs are kept.
pub open spec fn spec_torque_job_info(text: Seq<char>, now: int) -> Option<JobView> {
    let acc = spec_torque_job_fold(spec_lines(text));
    if acc.state == "R"@ {
        Some(
            JobView {
                id: acc.job_id,
                user: acc.owner,
                name: acc.name,
                state: spec_torque_job_state(acc.state),
                node_list: seq![acc.node_id],
                partition: "default"@,
                req_nodes: 1,
                req_cpus: spec_u32_or(acc.req_cpu, 1),
                req_mem_mb: spec_torque_mem_mb(acc.req_mem),
                time_limit: spec_torque_duration(acc.req_time),
                elapsed: spec_torque_duration(acc.wall_time),
                cpu_time: spec_torque_duration(acc.cpu_time),
                submit_time: now,
            },
        )
    } else {
        None
    }
}

/// Every node the whole `mdiag` listing yields for the partition, in
/// input order: one line per node.
pub open spec fn spec_torque_nodes_lines(lines: Seq<Seq<char>>, partition: Seq<char>) -> Seq<
    NodeView,
>
    decreases lines.len(),
{
    if lines.len() == 0 {
        Seq::empty()
    } else {
        let prev = spec_torque_nodes_lines(lines.drop_last(), partition);
        match spec_torque_node_info(lines.last(), partition) {
            Some(n) => prev.push(n),
            None => prev,
        }
    }
}

/// Accumulator for the block-per-job scan of the `qstat -f` listing.
pub struct TorqueBlocksAcc {
    pub jobs: Seq<JobView>,
    pub cur: Seq<char>,
}

pub open spec fn spec_torque_flush(acc: TorqueBlocksAcc, now: int) -> Seq<JobView> {
    if acc.cur.len() > 0 {
        match spec_torque_job_info(acc.cur, now) {
            Some(j) => acc.jobs.push(j),
            None => acc.jobs,
        }
    } else {
        acc.jobs
    }
}

/// One line of the job listing: a line holding `Job Id:` flushes the block
/// in progress and opens a new one; any other line is appended to the
/// block with its line break restored.
pub open spec fn spec_torque_jobs_line(acc: TorqueBlocksAcc, line: Seq<char>, now: int) -> TorqueBlocksAcc {
    if spec_contains_seq(line, "Job Id:"@) {
        TorqueBlocksAcc { jobs: spec_torque_flush(acc, now), cur: line }
    } else {
        TorqueBlocksAcc { jobs: acc.jobs, cur: acc.cur + seq!['\n'] + line }
    }
}

pub open spec fn spec_torque_jobs_fold(lines: Seq<Seq<char>>, now: int) -> TorqueBlocksAcc
    decreases lines.len(),
{
    if lines.len() == 0 {
        TorqueBlocksAcc { jobs: Seq::empty(), cur: Seq::empty() }
    } else {
        spec_torque_jobs_line(spec_torque_jobs_fold(lines.drop_last(), now), lines.last(), now)
    }
}

/// Every job the whole `qstat -f` listing yields.
pub open spec fn spec_torque_jobs(output: Seq<char>, now: int) -> Seq<JobView> {
    spec_torque_flush(spec_torque_jobs_fold(spec_lines(output), now), now)
}

/// Jobs parsed from the whitespace-tabular per-user listing: two header
/// lines skipped, rows kept when the fixed-position state column is `R`.
pub open spec fn spec_torque_user_job_row(l: Seq<char>, now: int) -> Option<JobView> {
    let fields = spec_split_ws(l);
    if fields.len() >= 6 && fields[4] == "R"@ {
        Some(
            JobView {
                id: fields[0],
                user: fields[1],
                name: fields[2],
                state: JobState::Running,
                node_list: seq![
                    if fields.len() > 7 {
                        fields[7]
                    } else {
                        "?"@
                    },
                ],
                partition: "default"@,
                req_nodes: 1,
                req_cpus: 1,
                req_mem_mb: 1000,
                time_limit: spec_torque_duration(
                    if fields.len() > 8 {
                        fields[8]
                    } else {
                        "00:00:00"@
                    },
                ),
                elapsed: spec_torque_duration(
                    if fields.len() > 10 {
                        fields[10]
                    } else {
                        "00:00:00"@
                    },
                ),
                cpu_time: 0,
                submit_time: now,
            },
        )
    } else {
        None
    }
}

pub open spec fn spec_torque_user_jobs(lines: Seq<Seq<char>>, now: int) -> Seq<JobView>
    decreases lines.len(),
{
    if lines.len() <= 2 {
        Seq::empty()
    } else {
        let prev = spec_torque_user_jobs(lines.drop_last(), now);
        match spec_torque_user_job_row(lines.last(), now) {
            Some(j) => prev.push(j),
            None => prev,
        }
    }
}

fn node_state_chars(v: &Vec<char>) -> (r: NodeState)
    ensures
        r == spec_torque_node_state(v@),
{
    let up = to_upper(v);
    if chars_eq(&up, &chars_of("IDLE")) {
        NodeState::Idle
    } else if chars_eq(&up, &chars_of("BUSY")) {
        NodeState::Busy
    } else if chars_eq(&up, &chars_of("DOWN")) || chars_eq(&up, &chars_of("DOWN*")) {
        NodeState::Down
    } else if chars_eq(&up, &chars_of("OFFLINE")) {
        NodeState::Offline
    } else if chars_eq(&up, &chars_of("DRAINED")) {
        NodeState::Drained
    } else {
        NodeState::Offline
    }
}

fn job_state_chars(v: &Vec<char>) -> (r: JobState)
    ensures
        r == spec_torque_job_state(v@),
{
    if chars_eq(v, &chars_of("R")) {
        JobState::Running
    } else if chars_eq(v, &chars_of("Q")) || chars_eq(v, &chars_of("H")) {
        JobState::Pending
    } else if chars_eq(v, &chars_of("C")) {
        JobState::Completed
    } else {
        JobState::Failed
    }
}

fn duration_chars(v: &Vec<char>) -> (r: i64)
    ensures
        r as int == spec_torque_duration(v@),
{
    broadcast use lemma_chars_deep_view;

    let parts = split_char(v, ':');
    if parts.len() >= 3 {
        let h = i64_or_zero(&parts[0]);
        let m = i64_or_zero(&parts[1]);
        let s = i64_or_zero(&parts[2]);
        let total: i128 = (h as i128) * 3600 + (m as i128) * 60 + (s as i128);
        if total > i64::MAX as i128 {
            i64::MAX
        } else if total < i64::MIN as i128 {
            i64::MIN
        } else {
            total as i64
        }
    } else {
        0
    }
}

fn collapse_spaces(v: &Vec<char>) -> (r: Vec<char>)
    ensures
        r@ == spec_collapse_spaces(v@, 30),
{
    let one = repeat_char(' ', 1);
    proof {
        assert(one@ =~= seq![' ']);
    }
    let mut cleaned = sub_chars(v, 0, v.len());
    proof {
        assert(cleaned@ =~= v@);
    }
    let mut x: usize = 30;
    while x >= 2
        invariant
            1 <= x <= 30,
            one@ == seq![' '],
            spec_collapse_spaces(v@, 30) == spec_collapse_spaces(cleaned@, x as int),
        decreases x,
    {
        let pat = repeat_char(' ', x);
        cleaned = replace(&cleaned, &pat, &one);
        x -= 1;
    }
    cleaned
}

fn node_info_chars(nv: &Vec<char>, pv: &Vec<char>) -> (r: Option<Node>)
    ensures
        match r {
            Some(n) => spec_torque_node_info(nv@, pv@) == Some(n@),
            None => spec_torque_node_info(nv@, pv@) is None,
        },
{
    broadcast use lemma_chars_deep_view;

    let cleaned = collapse_spaces(nv);
    let fields = split_ws(&cleaned);
    if fields.len() < 4 {
        return None;
    }
    let mut tag: Vec<char> = Vec::new();
    tag.push('[');
    append_chars(&mut tag, pv);
    tag.push(']');
    proof {
        assert(tag@ =~= seq!['['] + pv@ + seq![']']);
    }
    let mut tag2: Vec<char> = Vec::new();
    tag2.push('[');
    append_chars(&mut tag2, pv);
    tag2.push(']');
    tag2.push('[');
    proof {
        assert(tag2@ =~= seq!['['] + pv@ + seq![']', '[']);
    }
    if !contains_seq(nv, &tag) || contains_seq(nv, &tag2) {
        return None;
    }
    proof {
        assert(fields@[2]@ == fields.deep_view()[2]);
        assert(fields@[3]@ == fields.deep_view()[3]);
    }
    let cpu = split_char(&fields[2], ':');
    let mem = split_char(&fields[3], ':');
    if cpu.len() < 2 || mem.len() < 2 {
        return None;
    }
    proof {
        assert(cpu@[0]@ == cpu.deep_view()[0]);
        assert(cpu@[1]@ == cpu.deep_view()[1]);
        assert(mem@[0]@ == mem.deep_view()[0]);
        assert(mem@[1]@ == mem.deep_view()[1]);
    }
    let total_cores = match parse_u32(&cpu[1]) {
        Some(v) => v,
        None => {
            return None;
        },
    };
    let avail_cores = match parse_u32(&cpu[0]) {
        Some(v) => v,
        None => {
            return None;
        },
    };
    let total_mem_mb = match parse_u32(&mem[1]) {
        Some(v) => v,
        None => {
            return None;
        },
    };
    let avail_mem_mb = match parse_u32(&mem[0]) {
        Some(v) => v,
        None => {
            return None;
        },
    };
    let used_cores = if total_cores >= avail_cores {
        total_cores - avail_cores
    } else {
        0
    };
    let used_mem_mb = if total_mem_mb >= avail_mem_mb {
        total_mem_mb - avail_mem_mb
    } else {
        0
    };
    let mut partitions: Vec<String> = Vec::new();
    partitions.push(string_from_chars(pv));
    let n = Node {
        id: string_from_chars(&fields[0]),
        state: node_state_chars(&fields[1]),
        total_cores,
        used_cores,
        total_mem_mb,
        used_mem_mb,
        partitions,
        jobs: Vec::new(),
    };
    proof {
        assert(fields@[0]@ == fields.deep_view()[0]);
        assert(fields@[1]@ == fields.deep_view()[1]);
        assert(n.partitions.deep_view() =~= seq![pv@]);
        assert(n.jobs.deep_view() =~= Seq::<Seq<char>>::empty());
    }
    Some(n)
}

fn job_info_chars(tv: &Vec<char>, now_secs: i64) -> (r: Option<Job>)
    ensures
        match r {
            Some(j) => spec_torque_job_info(tv@, now_secs as int) == Some(j@),
            None => spec_torque_job_info(tv@, now_secs as int) is None,
        },
{
    broadcast use lemma_chars_deep_view;

    let lines = lines_of(tv);
    let ghost lsv = lines.deep_view();
    let mut job_id: Vec<char> = Vec::new();
    let mut name: Vec<char> = Vec::new();
    let mut owner: Vec<char> = Vec::new();
    let mut cpu_time = chars_of("00:00:00");
    let mut wall_time = chars_of("00:00:00");
    let mut req_time = chars_of("00:00:00");
    let mut state: Vec<char> = Vec::new();
    let mut req_mem = chars_of("1gb");
    let mut req_cpu = chars_of("1");
    let mut node_id = chars_of("?");
    let mut i: usize = 0;
    proof {
        assert(lsv.take(0) =~= Seq::<Seq<char>>::empty());
    }
    while i < lines.len()
        invariant
            i <= lines@.len(),
            lsv == lines.deep_view(),
            lsv == spec_lines(tv@),
            spec_torque_job_fold(lsv.take(i as int)) == (TorqueJobAcc {
                job_id: job_id@,
                name: name@,
                owner: owner@,
                cpu_time: cpu_time@,
                wall_time: wall_time@,
                req_time: req_time@,
                state: state@,
                req_mem: req_mem@,
                req_cpu: req_cpu@,
                node_id: node_id@,
            }),
        decreases lines.len() - i,
    {
        let l = &lines[i];
        proof {
            assert(lsv.take(i + 1 as int).drop_last() =~= lsv.take(i as int));
            assert(lsv.take(i + 1 as int).last() == lsv[i as int]);
            assert(l@ == lsv[i as int]);
        }
        if contains_seq(l, &chars_of("Job Id:")) {
            match find_char(l, ':') {
                Some(p) => {
                    job_id = trim(&after2(l, p));
                },
                None => {},
            }
        } else if contains_seq(l, &chars_of("Job_Name =")) {
            match find_char(l, '=') {
                Some(p) => {
                    name = trim(&after2(l, p));
                },
                None => {},
            }
        } else if contains_seq(l, &chars_of("Job_Owner =")) {
            match find_char(l, '=') {
                Some(p) => {
                    let part = after2(l, p);
                    match find_char(&part, '@') {
                        Some(a) => {
                            owner = sub_chars(&part, 0, a);
                            proof {
                                assert(owner@ =~= part@.take(a as int));
                            }
                        },
                        None => {},
                    }
                },
                None => {},
            }
        } else if contains_seq(l, &chars_of("resources_used.cput =")) {
            match find_char(l, '=') {
                Some(p) => {
                    cpu_time = trim(&after2(l, p));
                },
                None => {},
            }
        } else if contains_seq(l, &chars_of("resources_used.walltime =")) {
            match find_char(l, '=') {
                Some(p) => {
                    wall_time = trim(&after2(l, p));
                },
                None => {},
            }
        } else if contains_seq(l, &chars_of("Resource_List.walltime =")) {
            match find_char(l, '=') {
                Some(p) => {
                    req_time = trim(&after2(l, p));
                },
                None => {},
            }
        } else if contains_seq(l, &chars_of("job_state =")) {
            match find_char(l, '=') {
                Some(p) => {
                    state = trim(&after2(l, p));
                },
                None => {},
            }
        } else if contains_seq(l, &chars_of("Resource_List.mem =")) {
            match find_char(l, '=') {
                Some(p) => {
                    req_mem = trim(&after2(l, p));
                },
                None => {},
            }
        } else if contains_seq(l, &chars_of("Resource_List.nodes =")) {
            match find_char(l, '=') {
                Some(p) => {
                    let part = after2(l, p);
                    let has_colon = match find_char(&part, ':') {
                        Some(_) => true,
                        None => false,
                    };
                    if has_colon {
                        match find_char(&part, '=') {
                            Some(e) => {
                                let cpu_part = sub_chars(&part, e + 1, part.len());
                                proof {
                                    assert(cpu_part@ =~= part@.skip(e + 1));
                                }
                                match find_char(&cpu_part, ':') {
                                    Some(c2) => {
                                        req_cpu = sub_chars(&cpu_part, 0, c2);
                                        proof {
                                            assert(req_cpu@ =~= cpu_part@.take(c2 as int));
                                        }
                                    },
                                    None => {
                                        req_cpu = trim(&cpu_part);
                                    },
                                }
                            },
                            None => {},
                        }
                    }
                },
                None => {},
            }
        } else if contains_seq(l, &chars_of("exec_host =")) {
            match find_char(l, '=') {
                Some(p) => {
                    let part = after2(l, p);
                    match find_char(&part, '/') {
                        Some(s) => {
                            node_id = sub_chars(&part, 0, s);
                            proof {
                                assert(node_id@ =~= part@.take(s as int));
                            }
                        },
                        None => {},
                    }
                },
                None => {},
            }
        }
        i += 1;
    }
    proof {
        assert(lsv.take(lsv.len() as int) =~= lsv);
    }
    if !chars_eq(&state, &chars_of("R")) {
        return None;
    }
    let low = to_lower(&req_mem);
    let empty: Vec<char> = Vec::new();
    proof {
        reveal_strlit("gb");
        reveal_strlit("mb");
        assert(empty@ =~= Seq::<char>::empty());
    }
    let strip_a = replace(&low, &chars_of("gb"), &empty);
    let stripped = replace(&strip_a, &chars_of("mb"), &empty);
    let req_mem_mb: u32 = if contains_seq(&low, &chars_of("gb")) {
        let v = u32_or(&stripped, 1);
        let scaled: u64 = (v as u64) * 1000;
        if scaled > 0xFFFF_FFFF {
            u32::MAX
        } else {
            scaled as u32
        }
    } else {
        u32_or(&stripped, 1000)
    };
    let mut node_list: Vec<String> = Vec::new();
    node_list.push(string_from_chars(&node_id));
    let j = Job {
        id: string_from_chars(&job_id),
        user: string_from_chars(&owner),
        name: string_from_chars(&name),
        state: job_state_chars(&state),
        node_list,
        partition: String::from_str("default"),
        req_nodes: 1,
        req_cpus: u32_or(&req_cpu, 1),
        req_mem_mb,
        time_limit: duration_chars(&req_time),
        elapsed: duration_chars(&wall_time),
        cpu_time: duration_chars(&cpu_time),
        submit_time: now_secs,
    };
    proof {
        assert(j.node_list.deep_view() =~= seq![node_id@]);
    }
    Some(j)
}

/// The characters after position `p` plus two, or nothing if too short.
fn after2(l: &Vec<char>, p: usize) -> (r: Vec<char>)
    requires
        p < l@.len(),
    ensures
        r@ == spec_after2(l@, p as int),
{
    let n = l.len();
    if n >= 2 && p <= n - 2 {
        let r = sub_chars(l, p + 2, n);
        proof {
            assert(r@ =~= l@.skip(p + 2));
        }
        r
    } else {
        Vec::new()
    }
}

impl TorqueScheduler {
    pub fn new() -> Self {
        TorqueScheduler {  }
    }

    /// The canonical node state a raw Torque state string maps to.
    pub fn parse_node_state(state_str: &str) -> (r: NodeState)
        ensures
            r == spec_torque_node_state(state_str@),
    {
        let v = chars_of(state_str);
        node_state_chars(&v)
    }

    /// The canonical job state a raw Torque state letter maps to.
    pub fn parse_job_state(state_str: &str) -> (r: JobState)
        ensures
            r == spec_torque_job_state(state_str@),
    {
        let v = chars_of(state_str);
        job_state_chars(&v)
    }

    /// Seconds encoded by an `HH:MM:SS` duration string.
    pub fn parse_duration(time_str: &str) -> (r: i64)
        ensures
            r as int == spec_torque_duration(time_str@),
    {
        let v = chars_of(time_str);
        duration_chars(&v)
    }

    /// One table line turned into a node, if it belongs to the partition.
    pub fn parse_node_info(node_info: &str, partition: &str) -> (r: Option<Node>)
        ensures
            match r {
                Some(n) => spec_torque_node_info(node_info@, partition@) == Some(n@),
                None => spec_torque_node_info(node_info@, partition@) is None,
            },
    {
        let nv = chars_of(node_info);
        let pv = chars_of(partition);
        node_info_chars(&nv, &pv)
    }

    /// One accumulated attribute block turned into a job, if it is running.
    pub fn parse_job_info(job_text: &str, now_secs: i64) -> (r: Option<Job>)
        ensures
            match r {
                Some(j) => spec_torque_job_info(job_text@, now_secs as int) == Some(j@),
                None => spec_torque_job_info(job_text@, now_secs as int) is None,
            },
    {
        let tv = chars_of(job_text);
        job_info_chars(&tv, now_secs)
    }

    /// The node fetch decided from a finished `mdiag -n -v` run.
    pub fn nodes_from_output(exit_ok: bool, stdout: &str, stderr: &str, partition: &str) -> (r:
        Result<Vec<Node>, FetchError>)
        ensures
            match r {
                Ok(ns) => exit_ok && ns.deep_view() == spec_torque_nodes_lines(
                    spec_lines(stdout@),
                    partition@,
                ) && ns@.len() > 0,
                Err(e) => match e {
                    FetchError::CommandFailed { command, detail } => !exit_ok && command@
                        == "mdiag"@ && detail@ == stderr@,
                    FetchError::NoNodesInPartition { partition: p } => exit_ok
                        && spec_torque_nodes_lines(spec_lines(stdout@), partition@).len() == 0
                        && p@ == partition@,
                },
            },
    {
        broadcast use lemma_chars_deep_view;

        if !exit_ok {
            return Err(
                FetchError::CommandFailed {
                    command: String::from_str("mdiag"),
                    detail: stderr.to_owned(),
                },
            );
        }
        let sv = chars_of(stdout);
        let pv = chars_of(partition);
        let lines = lines_of(&sv);
        let ghost lsv = lines.deep_view();
        let mut nodes: Vec<Node> = Vec::new();
        let mut i: usize = 0;
        proof {
            assert(lsv.take(0) =~= Seq::<Seq<char>>::empty());
            assert(nodes.deep_view() =~= Seq::<NodeView>::empty());
        }
        while i < lines.len()
            invariant
                i <= lines@.len(),
                lsv == lines.deep_view(),
                lsv == spec_lines(stdout@),
                pv@ == partition@,
                nodes.deep_view() == spec_torque_nodes_lines(lsv.take(i as int), partition@),
            decreases lines.len() - i,
        {
            let line = &lines[i];
            proof {
                assert(lsv.take(i + 1 as int).drop_last() =~= lsv.take(i as int));
                assert(lsv.take(i + 1 as int).last() == lsv[i as int]);
                assert(line@ == lsv[i as int]);
            }
            match node_info_chars(line, &pv) {
                Some(n) => {
                    let ghost pre = nodes;
                    nodes.push(n);
                    proof {
                        lemma_vec_deep_view_push(pre, nodes, n);
                    }
                },
                None => {},
            }
            i += 1;
        }
        proof {
            assert(lsv.take(lsv.len() as int) =~= lsv);
        }
        if nodes.len() == 0 {
            return Err(FetchError::NoNodesInPartition { partition: partition.to_owned() });
        }
        Ok(nodes)
    }

    /// The job fetch decided from a finished `qstat -f` run.
    pub fn jobs_from_output(exit_ok: bool, stdout: &str, stderr: &str, now_secs: i64) -> (r:
        Result<Vec<Job>, FetchError>)
        ensures
            match r {
                Ok(js) => exit_ok && js.deep_view() == spec_torque_jobs(
                    stdout@,
                    now_secs as int,
                ),
                Err(e) => match e {
                    FetchError::CommandFailed { command, detail } => !exit_ok && command@
                        == "qstat"@ && detail@ == stderr@,
                    FetchError::NoNodesInPartition { .. } => false,
                },
            },
    {
        broadcast use lemma_chars_deep_view;

        if !exit_ok {
            return Err(
                FetchError::CommandFailed {
                    command: String::from_str("qstat"),
                    detail: stderr.to_owned(),
                },
            );
        }
        let sv = chars_of(stdout);
        let lines = lines_of(&sv);
        let ghost lsv = lines.deep_view();
        let marker = chars_of("Job Id:");
        let mut jobs: Vec<Job> = Vec::new();
        let mut cur: Vec<char> = Vec::new();
        let mut i: usize = 0;
        proof {
            assert(lsv.take(0) =~= Seq::<Seq<char>>::empty());
            assert(jobs.deep_view() =~= Seq::<JobView>::empty());
        }
        while i < lines.len()
            invariant
                i <= lines@.len(),
                lsv == lines.deep_view(),
                lsv == spec_lines(stdout@),
                marker@ == "Job Id:"@,
                spec_torque_jobs_fold(lsv.take(i as int), now_secs as int) == (TorqueBlocksAcc {
                    jobs: jobs.deep_view(),
                    cur: cur@,
                }),
            decreases lines.len() - i,
        {
            let line = &lines[i];
            proof {
                assert(lsv.take(i + 1 as int).drop_last() =~= lsv.take(i as int));
                assert(lsv.take(i + 1 as int).last() == lsv[i as int]);
                assert(line@ == lsv[i as int]);
            }
            if contains_seq(line, &marker) {
                if cur.len() > 0 {
                    match job_info_chars(&cur, now_secs) {
                        Some(j) => {
                            let ghost pre = jobs;
                            jobs.push(j);
                            proof {
                                lemma_vec_deep_view_push(pre, jobs, j);
                            }
                        },
                        None => {},
                    }
                }
                cur = sub_chars(line, 0, line.len());
                proof {
                    assert(cur@ =~= lsv[i as int]);
                }
            } else {
                cur.push('\n');
                append_chars(&mut cur, line);
                proof {
                    assert(cur@ =~= spec_torque_jobs_fold(
                        lsv.take(i as int),
                        now_secs as int,
                    ).cur + seq!['\n'] + lsv[i as int]);
                }
            }
            i += 1;
        }
        proof {
            assert(lsv.take(lsv.len() as int) =~= lsv);
        }
        if cur.len() > 0 {
            match job_info_chars(&cur, now_secs) {
                Some(j) => {
                    let ghost pre = jobs;
                    jobs.push(j);
                    proof {
                        lemma_vec_deep_view_push(pre, jobs, j);
                    }
                },
                None => {},
            }
        }
        Ok(jobs)
    }

    /// The per-user job fetch decided from a finished `qstat -u` run.
    #[verifier::rlimit(60)]
    pub fn user_jobs_from_output(exit_ok: bool, stdout: &str, stderr: &str, now_secs: i64) -> (r:
        Result<Vec<Job>, FetchError>)
        ensures
            match r {
                Ok(js) => exit_ok && js.deep_view() == spec_torque_user_jobs(
                    spec_lines(stdout@),
                    now_secs as int,
                ),
                Err(e) => match e {
                    FetchError::CommandFailed { command, detail } => !exit_ok && command@
                        == "qstat"@ && detail@ == stderr@,
                    FetchError::NoNodesInPartition { .. } => false,
                },
            },
    {
        broadcast use lemma_chars_deep_view;

        if !exit_ok {
            return Err(
                FetchError::CommandFailed {
                    command: String::from_str("qstat"),
                    detail: stderr.to_owned(),
                },
            );
        }
        let sv = chars_of(stdout);
        let lines = lines_of(&sv);
        let ghost lsv = lines.deep_view();
        let mut jobs: Vec<Job> = Vec::new();
        proof {
            assert(jobs.deep_view() =~= Seq::<JobView>::empty());
        }
        if lines.len() >= 2 {
            let mut i: usize = 2;
            proof {
                assert(lsv.take(2).len() == 2);
            }
            while i < lines.len()
                invariant
                    2 <= i <= lines@.len(),
                    lsv == lines.deep_view(),
                    lsv == spec_lines(stdout@),
                    jobs.deep_view() == spec_torque_user_jobs(
                        lsv.take(i as int),
                        now_secs as int,
                    ),
                decreases lines.len() - i,
            {
                let line = &lines[i];
                proof {
                    assert(lsv.take(i + 1 as int).drop_last() =~= lsv.take(i as int));
                    assert(lsv.take(i + 1 as int).last() == lsv[i as int]);
                    assert(line@ == lsv[i as int]);
                }
                match Self::user_job_row(line, now_secs) {
                    Some(j) => {
                        let ghost pre = jobs;
                        jobs.push(j);
                        proof {
                            lemma_vec_deep_view_push(pre, jobs, j);
                        }
                    },
                    None => {},
                }
                i += 1;
            }
            proof {
                assert(lsv.take(lsv.len() as int) =~= lsv);
            }
        }
        Ok(jobs)
    }

    fn user_job_row(lv: &Vec<char>, now_secs: i64) -> (r: Option<Job>)
        ensures
            match r {
                Some(j) => spec_torque_user_job_row(lv@, now_secs as int) == Some(j@),
                None => spec_torque_user_job_row(lv@, now_secs as int) is None,
            },
    {
        broadcast use lemma_chars_deep_view;

        let fields = split_ws(lv);
        if !(fields.len() >= 6 && chars_eq(&fields[4], &chars_of("R"))) {
            proof {
                if fields@.len() >= 6 {
                    assert(fields@[4]@ == fields.deep_view()[4]);
                }
            }
            return None;
        }
        proof {
            assert(fields@[0]@ == fields.deep_view()[0]);
            assert(fields@[1]@ == fields.deep_view()[1]);
            assert(fields@[2]@ == fields.deep_view()[2]);
            assert(fields@[4]@ == fields.deep_view()[4]);
        }
        let node = if fields.len() > 7 {
            proof {
                assert(fields@[7]@ == fields.deep_view()[7]);
            }
            string_from_chars(&fields[7])
        } else {
            String::from_str("?")
        };
        let time_limit = if fields.len() > 8 {
            proof {
                assert(fields@[8]@ == fields.deep_view()[8]);
            }
            duration_chars(&fields[8])
        } else {
            let d = chars_of("00:00:00");
            duration_chars(&d)
        };
        let elapsed = if fields.len() > 10 {
            proof {
                assert(fields@[10]@ == fields.deep_view()[10]);
            }
            duration_chars(&fields[10])
        } else {
            let d = chars_of("00:00:00");
            duration_chars(&d)
        };
        let mut node_list: Vec<String> = Vec::new();
        node_list.push(node);
        let j = Job {
            id: string_from_chars(&fields[0]),
            user: string_from_chars(&fields[1]),
            name: string_from_chars(&fields[2]),
            state: JobState::Running,
            node_list,
            partition: String::from_str("default"),
            req_nodes: 1,
            req_cpus: 1,
            req_mem_mb: 1000,
            time_limit,
            elapsed,
            cpu_time: 0,
            submit_time: now_secs,
        };
        proof {
            assert(j.node_list.deep_view() =~= seq![j.node_list@[0]@]);
        }
        Some(j)
    }
}

} // verus!
