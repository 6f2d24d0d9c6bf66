//! The status reports of the queue runner: ready steps, scheduled steps and
//! the resource usage of the process, read from the kernel's cgroup files.

use vstd::prelude::*;

use crate::dispatch::DispatchCandidate;
use crate::queue::ScheduledItem;
use crate::text::{
    chars_of, concat, has_prefix, has_prefix_at, parse_u128, parse_u64, parse_unsigned, split,
    split_chars, trim, trim_bounds, ws_tokens, ws_tokens_of,
};

verus! {

/// An empty report.
#[derive(Debug, Clone, Copy)]
pub struct Empty {}

/// A step that is ready for dispatch, as reported.
#[derive(Debug, Clone, PartialEq, Eq)]
pub struct Step {
    pub drv_path: String,
    pub ready_time: i32,
    pub highest_global_priority: i32,
    pub highest_local_priority: i32,
    pub lowest_build_id: i32,
    pub rdeps_count: i64,
}

impl Step {
    /// The report of a ready step.
    pub fn from(item: DispatchCandidate) -> (s: Self)
        ensures
            s.drv_path == item.drv_path,
            s.ready_time == item.ready_time,
            s.highest_global_priority == item.highest_global_priority,
            s.highest_local_priority == item.highest_local_priority,
            s.lowest_build_id == item.lowest_build_id,
            s.rdeps_count == item.rdeps_count,
    {
        Step {
            drv_path: item.drv_path,
            ready_time: item.ready_time,
            highest_global_priority: item.highest_global_priority,
            highest_local_priority: item.highest_local_priority,
            lowest_build_id: item.lowest_build_id,
            rdeps_count: item.rdeps_count,
        }
    }
}

/// A step that is building on a machine, as reported.
#[derive(Debug, Clone, PartialEq, Eq)]
pub struct StepInfo {
    pub drv_path: String,
    pub machine_hostname: String,
}

impl StepInfo {
    /// The report of a scheduled step: its derivation and the machine's host.
    pub fn from(item: ScheduledItem) -> (s: Self)
        ensures
            s.drv_path == item.drv_path,
            s.machine_hostname == item.machine_hostname,
    {
        StepInfo { drv_path: item.drv_path, machine_hostname: item.machine_hostname }
    }
}

// ---------------------------------------------------------------------------
// cgroup statistics
// ---------------------------------------------------------------------------

/// A counter file's value: its text with surrounding whitespace removed,
/// parsed as a `u64`.
pub open spec fn counter_value(contents: Seq<char>) -> Option<nat> {
    parse_unsigned(trim(contents), u64::MAX as nat)
}

/// Parses the text of a counter file such as `memory.current`.
pub fn parse_counter(contents: &str) -> (r: Option<u64>)
    ensures
        match r {
            Some(v) => counter_value(contents@) == Some(v as nat),
            None => counter_value(contents@) is None,
        },
{
    let chars = chars_of(contents);
    let (a, b) = trim_bounds(chars.as_slice());
    parse_u64(&chars.as_slice()[a..b])
}

/// Memory use of the cgroup, in bytes.
#[derive(Debug, Clone, Copy, PartialEq, Eq)]
pub struct MemoryStats {
    pub current_bytes: u64,
    pub peak_bytes: u64,
    pub swap_current_bytes: u64,
    pub zswap_current_bytes: u64,
}

/// Which counter of the memory statistics could not be parsed.
#[derive(Debug, Clone, Copy, PartialEq, Eq, Structural)]
pub enum MemoryStatsError {
    Current,
    Peak,
    Swap,
    Zswap,
}

impl MemoryStatsError {
    /// The description of the failure.
    pub fn message(self) -> (m: &'static str)
        ensures
            self == MemoryStatsError::Current ==> m@ == "memory current parsing failed"@,
            self == MemoryStatsError::Peak ==> m@ == "memory peak parsing failed"@,
            self == MemoryStatsError::Swap ==> m@ == "swap parsing failed"@,
            self == MemoryStatsError::Zswap ==> m@ == "zswap parsing failed"@,
    {
        match self {
            MemoryStatsError::Current => "memory current parsing failed",
            MemoryStatsError::Peak => "memory peak parsing failed",
            MemoryStatsError::Swap => "swap parsing failed",
            MemoryStatsError::Zswap => "zswap parsing failed",
        }
    }
}

impl MemoryStats {
    /// The memory statistics from the texts of `memory.current`,
    /// `memory.peak`, `memory.swap.current` and `memory.zswap.current`; the
    /// first counter that does not parse is the error.
    pub fn parse(current: &str, peak: &str, swap_current: &str, zswap_current: &str) -> (r: Result<
        Self,
        MemoryStatsError,
    >)
        ensures
            match r {
                Ok(m) => counter_value(current@) == Some(m.current_bytes as nat) && counter_value(
                    peak@,
                ) == Some(m.peak_bytes as nat) && counter_value(swap_current@) == Some(
                    m.swap_current_bytes as nat,
                ) && counter_value(zswap_current@) == Some(m.zswap_current_bytes as nat),
                Err(e) => match e {
                    MemoryStatsError::Current => counter_value(current@) is None,
                    MemoryStatsError::Peak => counter_value(current@) is Some && counter_value(
                        peak@,
                    ) is None,
                    MemoryStatsError::Swap => counter_value(current@) is Some && counter_value(
                        peak@,
                    ) is Some && counter_value(swap_current@) is None,
                    MemoryStatsError::Zswap => counter_value(current@) is Some && counter_value(
                        peak@,
                    ) is Some && counter_value(swap_current@) is Some && counter_value(
                        zswap_current@,
                    ) is None,
                },
            },
    {
        let current_bytes = match parse_counter(current) {
            Some(v) => v,
            None => return Err(MemoryStatsError::Current),
        };
        let peak_bytes = match parse_counter(peak) {
            Some(v) => v,
            None => return Err(MemoryStatsError::Peak),
        };
        let swap_current_bytes = match parse_counter(swap_current) {
            Some(v) => v,
            None => return Err(MemoryStatsError::Swap),
        };
        let zswap_current_bytes = match parse_counter(zswap_current) {
            Some(v) => v,
            None => return Err(MemoryStatsError::Zswap),
        };
        Ok(MemoryStats { current_bytes, peak_bytes, swap_current_bytes, zswap_current_bytes })
    }
}

/// The value that a `key=value` token of `io.stat` contributes: the text
/// between the first and the second `=`, trimmed and parsed as a `u64`, or 0
/// when it does not parse.
pub open spec fn io_token_value(token: Seq<char>) -> nat {
    let pieces = split(token, '=');
    if pieces.len() >= 2 {
        match parse_unsigned(trim(pieces[1]), u64::MAX as nat) {
            Some(v) => v,
            None => 0,
        }
    } else {
        0
    }
}

/// The sum of the values of the tokens that start with `key`.
pub open spec fn io_total(tokens: Seq<Seq<char>>, key: Seq<char>) -> nat
    decreases tokens.len(),
{
    if tokens.len() == 0 {
        0
    } else {
        io_total(tokens.drop_last(), key) + if has_prefix(tokens.last(), key) {
            io_token_value(tokens.last())
        } else {
            0
        }
    }
}

proof fn lemma_io_total_prefix(tokens: Seq<Seq<char>>, key: Seq<char>, k: int)
    requires
        0 <= k <= tokens.len(),
    ensures
        io_total(tokens.take(k), key) <= io_total(tokens, key),
    decreases tokens.len() - k,
{
    if k < tokens.len() {
        lemma_io_total_prefix(tokens, key, k + 1);
        assert(tokens.take(k + 1).drop_last() =~= tokens.take(k));
    } else {
        assert(tokens.take(k) =~= tokens);
    }
}

/// The value of a `key=value` token.
fn io_token_value_of(token: &[char]) -> (v: u64)
    ensures
        v as nat == io_token_value(token@),
{
    let pieces = split_chars(token, '=');
    if pieces.len() < 2 {
        return 0;
    }
    let piece = &pieces[1];
    let (a, b) = trim_bounds(piece.as_slice());
    match parse_u64(&piece.as_slice()[a..b]) {
        Some(v) => v,
        None => 0,
    }
}

/// Bytes read and written by the cgroup.
#[derive(Debug, Clone, Copy, PartialEq, Eq)]
pub struct IoStats {
    pub total_read_bytes: u64,
    pub total_write_bytes: u64,
}

impl IoStats {
    /// The totals of the `rbytes=` and `wbytes=` entries of the text of
    /// `io.stat`, over all devices; `None` when a total does not fit in a
    /// `u64`. The whitespace-separated tokens of the whole text are those of
    /// its lines, since line breaks are whitespace.
    pub fn try_parse(contents: &str) -> (r: Option<Self>)
        ensures
            match r {
                Some(s) => s.total_read_bytes == io_total(ws_tokens(contents@), "rbytes="@)
                    && s.total_write_bytes == io_total(ws_tokens(contents@), "wbytes="@),
                None => io_total(ws_tokens(contents@), "rbytes="@) > u64::MAX || io_total(
                    ws_tokens(contents@),
                    "wbytes="@,
                ) > u64::MAX,
            },
    {
        let chars = chars_of(contents);
        let tokens = ws_tokens_of(chars.as_slice());
        let ghost stokens = ws_tokens(contents@);
        let rkey = chars_of("rbytes=");
        let wkey = chars_of("wbytes=");
        let mut total_read_bytes: u64 = 0;
        let mut total_write_bytes: u64 = 0;
        let mut i: usize = 0;
        proof {
            assert(stokens.take(0) =~= Seq::<Seq<char>>::empty());
        }
        while i < tokens.len()
            invariant
                stokens == ws_tokens(contents@),
                rkey@ == "rbytes="@,
                wkey@ == "wbytes="@,
                tokens@.len() == stokens.len(),
                forall|k: int| 0 <= k < tokens@.len() ==> #[trigger] tokens@[k]@ == stokens[k],
                i <= tokens@.len(),
                total_read_bytes == io_total(stokens.take(i as int), "rbytes="@),
                total_write_bytes == io_total(stokens.take(i as int), "wbytes="@),
            decreases tokens.len() - i,
        {
            let token = &tokens[i];
            proof {
                reveal_strlit("rbytes=");
                reveal_strlit("wbytes=");
                assert(stokens.take(i + 1).drop_last() =~= stokens.take(i as int));
                assert(stokens.take(i + 1).last() == token@);
                assert(token@.skip(0) =~= token@);
                lemma_io_total_prefix(stokens, "rbytes="@, i + 1);
                lemma_io_total_prefix(stokens, "wbytes="@, i + 1);
                // a token cannot start with both keys
                if has_prefix(token@, "rbytes="@) {
                    assert(token@[0] == 'r');
                    assert(!has_prefix(token@, "wbytes="@));
                }
            }
            if has_prefix_at(token.as_slice(), 0, rkey.as_slice()) {
                let v = io_token_value_of(token.as_slice());
                match total_read_bytes.checked_add(v) {
                    Some(t) => {
                        total_read_bytes = t;
                    },
                    None => {
                        return None;
                    },
                }
            } else if has_prefix_at(token.as_slice(), 0, wkey.as_slice()) {
                let v = io_token_value_of(token.as_slice());
                match total_write_bytes.checked_add(v) {
                    Some(t) => {
                        total_write_bytes = t;
                    },
                    None => {
                        return None;
                    },
                }
            }
            i = i + 1;
        }
        proof {
            assert(stokens.take(tokens@.len() as int) =~= stokens);
        }
        Some(IoStats { total_read_bytes, total_write_bytes })
    }

    /// The totals of the `rbytes=` and `wbytes=` entries of the text of
    /// `io.stat`, over all devices, where they fit in a `u64`.
    pub fn parse(contents: &str) -> (r: Self)
        requires
            io_total(ws_tokens(contents@), "rbytes="@) <= u64::MAX,
            io_total(ws_tokens(contents@), "wbytes="@) <= u64::MAX,
        ensures
            r.total_read_bytes == io_total(ws_tokens(contents@), "rbytes="@),
            r.total_write_bytes == io_total(ws_tokens(contents@), "wbytes="@),
    {
        match IoStats::try_parse(contents) {
            Some(s) => s,
            None => IoStats { total_read_bytes: 0, total_write_bytes: 0 },
        }
    }
}

/// The value on a `cpu.stat` line: its second whitespace-separated token,
/// trimmed and parsed as a `u128`, or 0.
pub open spec fn cpu_line_value(line: Seq<char>) -> nat {
    let tokens = ws_tokens(line);
    if tokens.len() >= 2 {
        match parse_unsigned(trim(tokens[1]), u128::MAX as nat) {
            Some(v) => v,
            None => 0,
        }
    } else {
        0
    }
}

/// The value of the last line that starts with `key`, or 0 when none does.
pub open spec fn cpu_field(lines: Seq<Seq<char>>, key: Seq<char>) -> nat
    decreases lines.len(),
{
    if lines.len() == 0 {
        0
    } else if has_prefix(lines.last(), key) {
        cpu_line_value(lines.last())
    } else {
        cpu_field(lines.drop_last(), key)
    }
}

/// The value on a `cpu.stat` line.
fn cpu_line_value_of(line: &[char]) -> (v: u128)
    ensures
        v as nat == cpu_line_value(line@),
{
    let tokens = ws_tokens_of(line);
    if tokens.len() < 2 {
        return 0;
    }
    let token = &tokens[1];
    let (a, b) = trim_bounds(token.as_slice());
    match parse_u128(&token.as_slice()[a..b]) {
        Some(v) => v,
        None => 0,
    }
}

/// CPU time used by the cgroup, in microseconds.
#[derive(Debug, Clone, Copy, PartialEq, Eq)]
pub struct CpuStats {
    pub usage_usec: u128,
    pub user_usec: u128,
    pub system_usec: u128,
}

impl CpuStats {
    /// The `usage_usec`, `user_usec` and `system_usec` lines of the text of
    /// `cpu.stat`; a later line wins, a missing one counts 0.
    pub fn parse(contents: &str) -> (r: Self)
        ensures
            r.usage_usec == cpu_field(split(contents@, '\n'), "usage_usec"@),
            r.user_usec == cpu_field(split(contents@, '\n'), "user_usec"@),
            r.system_usec == cpu_field(split(contents@, '\n'), "system_usec"@),
    {
        let chars = chars_of(contents);
        let lines = split_chars(chars.as_slice(), '\n');
        let ghost slines = split(contents@, '\n');
        let usage_key = chars_of("usage_usec");
        let user_key = chars_of("user_usec");
        let system_key = chars_of("system_usec");
        let mut usage_usec: u128 = 0;
        let mut user_usec: u128 = 0;
        let mut system_usec: u128 = 0;
        let mut i: usize = 0;
        proof {
            assert(slines.take(0) =~= Seq::<Seq<char>>::empty());
        }
        while i < lines.len()
            invariant
                slines == split(contents@, '\n'),
                usage_key@ == "usage_usec"@,
                user_key@ == "user_usec"@,
                system_key@ == "system_usec"@,
                lines@.len() == slines.len(),
                forall|k: int| 0 <= k < lines@.len() ==> #[trigger] lines@[k]@ == slines[k],
                i <= lines@.len(),
                usage_usec == cpu_field(slines.take(i as int), "usage_usec"@),
                user_usec == cpu_field(slines.take(i as int), "user_usec"@),
                system_usec == cpu_field(slines.take(i as int), "system_usec"@),
            decreases lines.len() - i,
        {
            let line = &lines[i];
            proof {
                reveal_strlit("usage_usec");
                reveal_strlit("user_usec");
                reveal_strlit("system_usec");
                assert(slines.take(i + 1).drop_last() =~= slines.take(i as int));
                assert(slines.take(i + 1).last() == line@);
                assert(line@.skip(0) =~= line@);
                if has_prefix(line@, "usage_usec"@) {
                    assert(line@[0] == 'u' && line@[2] == 'a');
                    assert(!has_prefix(line@, "user_usec"@));
                    assert(!has_prefix(line@, "system_usec"@));
                }
                if has_prefix(line@, "user_usec"@) {
                    assert(line@[0] == 'u');
                    assert(!has_prefix(line@, "system_usec"@));
                }
            }
            if has_prefix_at(line.as_slice(), 0, usage_key.as_slice()) {
                usage_usec = cpu_line_value_of(line.as_slice());
            } else if has_prefix_at(line.as_slice(), 0, user_key.as_slice()) {
                user_usec = cpu_line_value_of(line.as_slice());
            } else if has_prefix_at(line.as_slice(), 0, system_key.as_slice()) {
                system_usec = cpu_line_value_of(line.as_slice());
            }
            i = i + 1;
        }
        proof {
            assert(slines.take(lines@.len() as int) =~= slines);
        }
        CpuStats { usage_usec, user_usec, system_usec }
    }
}

/// The resource use of the cgroup that the process runs in.
#[derive(Debug, Clone, Copy, PartialEq, Eq)]
pub struct CgroupStats {
    pub memory: MemoryStats,
    pub io: IoStats,
    pub cpu: CpuStats,
}

/// The directory of the cgroup with the given path name.
pub fn cgroup_dir(pathname: &str) -> (r: String)
    ensures
        r@ == "/sys/fs/cgroup/"@ + pathname@,
{
    concat("/sys/fs/cgroup/", pathname)
}

/// The memory use of the process and, when it could be read, of its cgroup.
#[derive(Debug, Clone, Copy, PartialEq, Eq)]
pub struct Process {
    pub pid: i32,
    pub vsize_bytes: u64,
    pub rss_bytes: u64,
    pub shared_bytes: u64,
    pub cgroup: Option<CgroupStats>,
}

impl Process {
    /// The process's statistics from its `statm` page counts and the page
    /// size.
    pub fn from_statm(
        pid: i32,
        size_pages: u64,
        resident_pages: u64,
        shared_pages: u64,
        page_size: u64,
        cgroup: Option<CgroupStats>,
    ) -> (p: Self)
        requires
            size_pages * page_size <= u64::MAX,
            resident_pages * page_size <= u64::MAX,
            shared_pages * page_size <= u64::MAX,
        ensures
            p.pid == pid,
            p.vsize_bytes == size_pages * page_size,
            p.rss_bytes == resident_pages * page_size,
            p.shared_bytes == shared_pages * page_size,
            p.cgroup == cgroup,
    {
        Process {
            pid,
            vsize_bytes: size_pages * page_size,
            rss_bytes: resident_pages * page_size,
            shared_bytes: shared_pages * page_size,
            cgroup,
        }
    }
}

} // verus!
