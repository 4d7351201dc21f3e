//! The process filesystem: `/proc/uptime`, `/proc/mounts` and
//! `/proc/<pid>/{status,stat,cwd}`, generated from a snapshot of the task
//! table and the mount registry.
use vstd::prelude::*;
use vstd::string::StringSliceAdditionalSpecFns;
use crate::bytes::{decimal, push_bytes, push_decimal, push_str, slice_to_vec};
use crate::devfs::trim_slashes_vec;
use crate::vfs::{DirEntry, Metadata};

verus! {

pub const INO_ROOT: u32 = 1;
pub const INO_UPTIME: u32 = 2;
pub const INO_MOUNTS: u32 = 3;
pub const PID_BASE: u32 = 0x0001_0000;
pub const PID_STRIDE: u32 = 8;

/// What /proc shows of one task.
pub struct ProcTask {
    pub pid: i32,
    pub ppid: i32,
    pub pgid: i32,
    pub sid: i32,
    pub tty_id: i16,
    pub exit_code: i32,
    pub zombie: bool,
    pub stopped: bool,
    pub running: bool,
    /// Raw process name, NUL padded.
    pub name: Vec<u8>,
    pub cwd: Vec<u8>,
    /// The task sits in its process leader's slot.
    pub leader: bool,
}

/// `std::str::from_utf8` accepts `b`. The standard library documents that it
/// accepts exactly the well-formed UTF-8 byte strings, which `valid_utf8`
/// of vstd describes.
#[verifier::external_body]
pub(crate) fn is_valid_utf8(b: &[u8]) -> (r: bool)
    ensures
        r == vstd::utf8::valid_utf8(b@),
{
    core::str::from_utf8(b).is_ok()
}

/// Signed decimal text.
pub open spec fn sdecimal(n: int) -> Seq<u8> {
    if n >= 0 { decimal(n as nat) } else { seq![0x2Du8] + decimal((-n) as nat) }
}

fn push_sdecimal(out: &mut Vec<u8>, n: i64)
    ensures
        final(out)@ == old(out)@ + sdecimal(n as int),
{
    crate::bytes::push_signed_decimal(out, n);
    assert(final(out)@ =~= old(out)@ + sdecimal(n as int));
}

/// Slot of the leader task of process `pid`.
pub open spec fn leader_of(tasks: Seq<Option<ProcTask>>, pid: i32, s: int) -> bool {
    &&& 0 <= s < tasks.len()
    &&& tasks[s] matches Some(t) && t.pid == pid && t.leader
    &&& forall|j: int| 0 <= j < s ==> !(#[trigger] tasks[j] matches Some(u) && u.pid == pid && u.leader)
}

pub open spec fn has_leader(tasks: Seq<Option<ProcTask>>, pid: i32) -> bool {
    exists|s: int| 0 <= s < tasks.len() && (#[trigger] tasks[s] matches Some(t) && t.pid == pid && t.leader)
}

pub open spec fn spec_pid_inode(pid: i32, kind: u32) -> Option<u32> {
    if pid < 0 || PID_BASE + pid * PID_STRIDE + kind > u32::MAX {
        None
    } else {
        Some((PID_BASE + pid * PID_STRIDE + kind) as u32)
    }
}

pub open spec fn spec_decode_pid_inode(inode: u32) -> Option<(i32, u32)> {
    if inode < PID_BASE {
        None
    } else {
        Some((((inode - PID_BASE) as int / PID_STRIDE as int) as i32, ((inode - PID_BASE) as int % PID_STRIDE as int) as u32))
    }
}

/// The bytes of a task name before its first NUL.
pub open spec fn name_prefix(name: Seq<u8>) -> Seq<u8>
    decreases name.len(),
{
    if name.len() == 0 {
        name
    } else if name[0] == 0 {
        Seq::empty()
    } else {
        seq![name[0]] + name_prefix(name.drop_first())
    }
}

pub open spec fn spec_task_name(name: Seq<u8>) -> Seq<u8> {
    let p = name_prefix(name);
    if vstd::utf8::valid_utf8(p) { p } else { seq![0x3Fu8] }
}

pub open spec fn spec_state_char(t: ProcTask) -> u8 {
    if t.zombie { 0x5A } else if t.stopped { 0x54 } else if t.running { 0x52 } else { 0x53 }
}

/// The state letter tells the four task states apart: `Z` exactly for a
/// zombie, `T` exactly for a stopped task that is not a zombie, `R` exactly
/// for a running one neither zombie nor stopped, `S` for the rest; and
/// `/proc/<pid>/status` shows that letter on its `State:` line, and
/// `/proc/<pid>/stat` right after the parenthesised name.
pub proof fn law_state_letter_names_the_state(t: ProcTask)
    ensures
        (spec_state_char(t) == 0x5Au8) == t.zombie,
        (spec_state_char(t) == 0x54u8) == (!t.zombie && t.stopped),
        (spec_state_char(t) == 0x52u8) == (!t.zombie && !t.stopped && t.running),
        (spec_state_char(t) == 0x53u8) == (!t.zombie && !t.stopped && !t.running),
        ({
            let head = "Name:\t".spec_bytes() + spec_task_name(t.name@) + "\nState:\t".spec_bytes();
            spec_status(t).len() > head.len() && spec_status(t).subrange(0, head.len() as int) == head
                && spec_status(t)[head.len() as int] == spec_state_char(t)
        }),
        ({
            let head = sdecimal(t.pid as int) + " (".spec_bytes() + spec_task_name(t.name@) + ") ".spec_bytes();
            spec_stat(t).len() > head.len() && spec_stat(t).subrange(0, head.len() as int) == head
                && spec_stat(t)[head.len() as int] == spec_state_char(t)
        }),
{
    let shead = sdecimal(t.pid as int) + " (".spec_bytes() + spec_task_name(t.name@) + ") ".spec_bytes();
    let srest = " ".spec_bytes() + sdecimal(t.ppid as int) + " ".spec_bytes() + sdecimal(t.pgid as int)
        + " ".spec_bytes() + sdecimal(t.sid as int) + " ".spec_bytes() + sdecimal(t.tty_id as int)
        + " ".spec_bytes() + sdecimal(t.exit_code as int) + "\n".spec_bytes();
    assert(spec_stat(t) =~= shead + seq![spec_state_char(t)] + srest);
    assert((shead + seq![spec_state_char(t)] + srest).subrange(0, shead.len() as int) =~= shead);
    let head = "Name:\t".spec_bytes() + spec_task_name(t.name@) + "\nState:\t".spec_bytes();
    let rest = "\nPid:\t".spec_bytes() + sdecimal(t.pid as int) + "\nPPid:\t".spec_bytes() + sdecimal(t.ppid as int)
        + "\nPGid:\t".spec_bytes() + sdecimal(t.pgid as int) + "\nSid:\t".spec_bytes() + sdecimal(t.sid as int)
        + "\nTty:\t".spec_bytes() + sdecimal(t.tty_id as int) + "\nCwd:\t".spec_bytes() + t.cwd@
        + "\nExitCode:\t".spec_bytes() + sdecimal(t.exit_code as int) + "\n".spec_bytes();
    assert(spec_status(t) =~= head + seq![spec_state_char(t)] + rest);
    assert((head + seq![spec_state_char(t)] + rest).subrange(0, head.len() as int) =~= head);
}

pub open spec fn spec_status(t: ProcTask) -> Seq<u8> {
    "Name:\t".spec_bytes() + spec_task_name(t.name@) + "\nState:\t".spec_bytes() + seq![spec_state_char(t)]
        + "\nPid:\t".spec_bytes() + sdecimal(t.pid as int) + "\nPPid:\t".spec_bytes() + sdecimal(t.ppid as int)
        + "\nPGid:\t".spec_bytes() + sdecimal(t.pgid as int) + "\nSid:\t".spec_bytes() + sdecimal(t.sid as int)
        + "\nTty:\t".spec_bytes() + sdecimal(t.tty_id as int) + "\nCwd:\t".spec_bytes() + t.cwd@
        + "\nExitCode:\t".spec_bytes() + sdecimal(t.exit_code as int) + "\n".spec_bytes()
}

pub open spec fn spec_stat(t: ProcTask) -> Seq<u8> {
    sdecimal(t.pid as int) + " (".spec_bytes() + spec_task_name(t.name@) + ") ".spec_bytes() + seq![spec_state_char(t)]
        + " ".spec_bytes() + sdecimal(t.ppid as int) + " ".spec_bytes() + sdecimal(t.pgid as int)
        + " ".spec_bytes() + sdecimal(t.sid as int) + " ".spec_bytes() + sdecimal(t.tty_id as int)
        + " ".spec_bytes() + sdecimal(t.exit_code as int) + "\n".spec_bytes()
}

/// One /proc/mounts line per registered mount point.
pub open spec fn spec_mounts(reg: Seq<Seq<u8>>) -> Seq<u8>
    decreases reg.len(),
{
    if reg.len() == 0 {
        Seq::empty()
    } else {
        let mp = reg.last();
        spec_mounts(reg.drop_last()) + (if mp == seq![0x2Fu8] {
            "rootfs / vfs rw 0 0\n".spec_bytes()
        } else {
            "vfs ".spec_bytes() + mp + " vfs rw 0 0\n".spec_bytes()
        })
    }
}

/// `n` zero-padded to three digits.
pub open spec fn three_digits(n: nat) -> Seq<u8> {
    (if n < 10 { seq![0x30u8, 0x30u8] } else if n < 100 { seq![0x30u8] } else { Seq::empty() }) + decimal(n)
}

pub open spec fn spec_uptime(ms: u64) -> Seq<u8> {
    let s = decimal((ms / 1000) as nat) + ".".spec_bytes() + three_digits((ms % 1000) as nat);
    s + " ".spec_bytes() + s + "\n".spec_bytes()
}

/// The bytes a /proc file holds.
pub open spec fn spec_data(inode: u32, tasks: Seq<Option<ProcTask>>, reg: Seq<Seq<u8>>, uptime_ms: u64) -> Option<Seq<u8>> {
    if inode == INO_UPTIME {
        Some(spec_uptime(uptime_ms))
    } else if inode == INO_MOUNTS {
        Some(spec_mounts(reg))
    } else {
        match spec_decode_pid_inode(inode) {
            None => None,
            Some((pid, kind)) => {
                if !has_leader(tasks, pid) {
                    None
                } else {
                    let t = tasks[choose|s: int| leader_of(tasks, pid, s)]->0;
                    if kind == 1 {
                        Some(spec_status(t))
                    } else if kind == 2 {
                        Some(t.cwd@ + "\n".spec_bytes())
                    } else if kind == 3 {
                        Some(spec_stat(t))
                    } else {
                        None
                    }
                }
            },
        }
    }
}

pub open spec fn is_digit(b: u8) -> bool {
    0x30 <= b <= 0x39
}

pub open spec fn all_digits(s: Seq<u8>) -> bool {
    forall|i: int| 0 <= i < s.len() ==> is_digit(#[trigger] s[i])
}

pub open spec fn digits_value(s: Seq<u8>) -> int
    decreases s.len(),
{
    if s.len() == 0 { 0 } else { digits_value(s.drop_last()) * 10 + (s.last() - 0x30) }
}

/// `str::parse::<i32>`: an optional sign, then at least one decimal digit,
/// within the range of `i32`.
pub open spec fn spec_parse_i32(s: Seq<u8>) -> Option<i32> {
    if s.len() == 0 {
        None
    } else if s[0] == 0x2D {
        let d = s.drop_first();
        if d.len() > 0 && all_digits(d) && digits_value(d) <= 0x8000_0000 { Some((-digits_value(d)) as i32) } else { None }
    } else {
        let d = if s[0] == 0x2B { s.drop_first() } else { s };
        if d.len() > 0 && all_digits(d) && digits_value(d) <= 0x7FFF_FFFF { Some(digits_value(d) as i32) } else { None }
    }
}

/// Index of the first `/` in `s`.
pub open spec fn first_slash(s: Seq<u8>, k: int) -> bool {
    0 <= k < s.len() && s[k] == 0x2F && forall|j: int| 0 <= j < k ==> s[j] != 0x2F
}

pub open spec fn has_slash(s: Seq<u8>) -> bool {
    exists|k: int| 0 <= k < s.len() && s[k] == 0x2F
}

/// Kind number of a per-process file name.
pub open spec fn file_kind(name: Seq<u8>) -> Option<u32> {
    if name == "status".spec_bytes() {
        Some(1)
    } else if name == "cwd".spec_bytes() {
        Some(2)
    } else if name == "stat".spec_bytes() {
        Some(3)
    } else {
        None
    }
}

/// Inode of a /proc path: the root, `uptime`, `mounts`, a live process
/// directory `<pid>` or one of its files.
pub open spec fn spec_parse_path(path: Seq<u8>, tasks: Seq<Option<ProcTask>>) -> Option<u32> {
    let clean = crate::devfs::trim_slashes(path);
    if clean.len() == 0 || clean == ".".spec_bytes() {
        Some(INO_ROOT)
    } else if clean == "uptime".spec_bytes() {
        Some(INO_UPTIME)
    } else if clean == "mounts".spec_bytes() {
        Some(INO_MOUNTS)
    } else {
        let k = if has_slash(clean) { choose|k: int| first_slash(clean, k) } else { clean.len() as int };
        let first = clean.subrange(0, k);
        match spec_parse_i32(first) {
            None => None,
            Some(pid) => {
                if !has_leader(tasks, pid) {
                    None
                } else if !has_slash(clean) {
                    spec_pid_inode(pid, 0)
                } else {
                    let rest = clean.subrange(k + 1, clean.len() as int);
                    match file_kind(rest) {
                        Some(kind) => spec_pid_inode(pid, kind),
                        None => None,
                    }
                }
            },
        }
    }
}

pub struct ProcFs;

proof fn lemma_digits_prefix(s: Seq<u8>, i: int)
    requires
        all_digits(s),
        0 <= i <= s.len(),
    ensures
        0 <= digits_value(s.subrange(0, i)) <= digits_value(s),
    decreases s.len(),
{
    if s.len() > 0 {
        if i == s.len() {
            assert(s.subrange(0, i) =~= s);
            lemma_digits_nonneg(s);
        } else {
            assert(s.drop_last().subrange(0, i) =~= s.subrange(0, i));
            lemma_digits_prefix(s.drop_last(), i);
            lemma_digits_nonneg(s.drop_last());
        }
    }
}

proof fn lemma_digits_nonneg(s: Seq<u8>)
    requires
        all_digits(s),
    ensures
        digits_value(s) >= 0,
    decreases s.len(),
{
    if s.len() > 0 {
        lemma_digits_nonneg(s.drop_last());
    }
}

/// Value of the all-digit string `s` when it is at most `limit`.
fn parse_digits(s: &[u8], limit: u32) -> (r: Option<u32>)
    ensures
        r matches Some(v) ==> all_digits(s@) && v == digits_value(s@) && v <= limit,
        r is None ==> !all_digits(s@) || digits_value(s@) > limit,
{
    let mut acc: u64 = 0;
    let mut i: usize = 0;
    while i < s.len()
        invariant
            0 <= i <= s@.len(),
            all_digits(s@.subrange(0, i as int)),
            acc == digits_value(s@.subrange(0, i as int)),
            acc <= limit,
        decreases s@.len() - i,
    {
        let b = s[i];
        proof {
            assert(s@.subrange(0, i + 1).drop_last() =~= s@.subrange(0, i as int));
        }
        if b < 0x30 || b > 0x39 {
            return None;
        }
        acc = acc * 10 + (b - 0x30) as u64;
        if acc > limit as u64 {
            proof {
                if all_digits(s@) {
                    lemma_digits_prefix(s@, i + 1);
                }
            }
            return None;
        }
        i = i + 1;
    }
    proof {
        assert(s@.subrange(0, s@.len() as int) =~= s@);
    }
    Some(acc as u32)
}

/// `str::parse::<i32>` on a byte string.
pub fn parse_i32(s: &[u8]) -> (r: Option<i32>)
    ensures
        r == spec_parse_i32(s@),
{
    if s.len() == 0 {
        return None;
    }
    if s[0] == 0x2D {
        let d = slice_to_vec(s, 1, s.len());
        proof {
            assert(d@ =~= s@.drop_first());
        }
        if d.len() == 0 {
            return None;
        }
        match parse_digits(d.as_slice(), 0x8000_0000) {
            Some(v) => {
                let r: i64 = -(v as i64);
                Some(r as i32)
            },
            None => None,
        }
    } else {
        let start: usize = if s[0] == 0x2B { 1 } else { 0 };
        let d = slice_to_vec(s, start, s.len());
        proof {
            if s[0] == 0x2B {
                assert(d@ =~= s@.drop_first());
            } else {
                assert(d@ =~= s@);
            }
        }
        if d.len() == 0 {
            return None;
        }
        match parse_digits(d.as_slice(), 0x7FFF_FFFF) {
            Some(v) => Some(v as i32),
            None => None,
        }
    }
}

impl ProcFs {
    pub fn new() -> (r: Self) {
        ProcFs
    }

    /// Leader slot of process `pid`.
    pub fn task_by_pid(tasks: &[Option<ProcTask>], pid: i32) -> (r: Option<usize>)
        ensures
            r matches Some(s) ==> leader_of(tasks@, pid, s as int),
            r is None ==> !has_leader(tasks@, pid),
    {
        let mut s: usize = 0;
        while s < tasks.len()
            invariant
                0 <= s <= tasks@.len(),
                forall|j: int| 0 <= j < s ==> !(#[trigger] tasks@[j] matches Some(u) && u.pid == pid && u.leader),
            decreases tasks@.len() - s,
        {
            match &tasks[s] {
                Some(t) => {
                    if t.pid == pid && t.leader {
                        return Some(s);
                    }
                },
                None => {},
            }
            s = s + 1;
        }
        None
    }

    /// Inode of file `kind` of process `pid`.
    pub fn pid_inode(pid: i32, kind: u32) -> (r: Option<u32>)
        ensures
            r == spec_pid_inode(pid, kind),
    {
        if pid < 0 {
            return None;
        }
        let m = match (pid as u32).checked_mul(PID_STRIDE) {
            Some(m) => m,
            None => return None,
        };
        let a = match PID_BASE.checked_add(m) {
            Some(a) => a,
            None => return None,
        };
        a.checked_add(kind)
    }

    pub fn decode_pid_inode(inode: u32) -> (r: Option<(i32, u32)>)
        ensures
            r == spec_decode_pid_inode(inode),
    {
        if inode < PID_BASE {
            return None;
        }
        let rel = inode - PID_BASE;
        Some(((rel / PID_STRIDE) as i32, rel % PID_STRIDE))
    }

    pub fn state_char(task: &ProcTask) -> (r: u8)
        ensures
            r == spec_state_char(*task),
    {
        if task.zombie {
            0x5A
        } else if task.stopped {
            0x54
        } else if task.running {
            0x52
        } else {
            0x53
        }
    }

    /// Task name up to its first NUL, or `?` when that is not UTF-8.
    pub fn task_name(task: &ProcTask) -> (r: Vec<u8>)
        ensures
            r@ == spec_task_name(task.name@),
    {
        let mut end: usize = 0;
        while end < task.name.len() && task.name[end] != 0
            invariant
                0 <= end <= task.name@.len(),
                forall|j: int| 0 <= j < end ==> task.name@[j] != 0,
            decreases task.name@.len() - end,
        {
            end = end + 1;
        }
        proof {
            lemma_name_prefix(task.name@, end as int);
        }
        let p = slice_to_vec(task.name.as_slice(), 0, end);
        if is_valid_utf8(p.as_slice()) {
            p
        } else {
            vec![0x3F]
        }
    }

    fn status(task: &ProcTask) -> (r: Vec<u8>)
        ensures
            r@ == spec_status(*task),
    {
        let mut out: Vec<u8> = Vec::new();
        push_str(&mut out, "Name:\t");
        let name = Self::task_name(task);
        push_bytes(&mut out, name.as_slice());
        push_str(&mut out, "\nState:\t");
        out.push(Self::state_char(task));
        push_str(&mut out, "\nPid:\t");
        push_sdecimal(&mut out, task.pid as i64);
        push_str(&mut out, "\nPPid:\t");
        push_sdecimal(&mut out, task.ppid as i64);
        push_str(&mut out, "\nPGid:\t");
        push_sdecimal(&mut out, task.pgid as i64);
        push_str(&mut out, "\nSid:\t");
        push_sdecimal(&mut out, task.sid as i64);
        push_str(&mut out, "\nTty:\t");
        push_sdecimal(&mut out, task.tty_id as i64);
        push_str(&mut out, "\nCwd:\t");
        push_bytes(&mut out, task.cwd.as_slice());
        push_str(&mut out, "\nExitCode:\t");
        push_sdecimal(&mut out, task.exit_code as i64);
        push_str(&mut out, "\n");
        assert(out@ =~= spec_status(*task));
        out
    }

    fn stat(task: &ProcTask) -> (r: Vec<u8>)
        ensures
            r@ == spec_stat(*task),
    {
        let mut out: Vec<u8> = Vec::new();
        push_sdecimal(&mut out, task.pid as i64);
        push_str(&mut out, " (");
        let name = Self::task_name(task);
        push_bytes(&mut out, name.as_slice());
        push_str(&mut out, ") ");
        out.push(Self::state_char(task));
        push_str(&mut out, " ");
        push_sdecimal(&mut out, task.ppid as i64);
        push_str(&mut out, " ");
        push_sdecimal(&mut out, task.pgid as i64);
        push_str(&mut out, " ");
        push_sdecimal(&mut out, task.sid as i64);
        push_str(&mut out, " ");
        push_sdecimal(&mut out, task.tty_id as i64);
        push_str(&mut out, " ");
        push_sdecimal(&mut out, task.exit_code as i64);
        push_str(&mut out, "\n");
        assert(out@ =~= spec_stat(*task));
        out
    }

    /// The /proc/mounts text of a mount registry.
    pub fn mounts(registry: &[Vec<u8>]) -> (r: Vec<u8>)
        ensures
            r@ == spec_mounts(registry@.map_values(|v: Vec<u8>| v@)),
    {
        let ghost reg = registry@.map_values(|v: Vec<u8>| v@);
        let mut out: Vec<u8> = Vec::new();
        let mut i: usize = 0;
        while i < registry.len()
            invariant
                0 <= i <= registry@.len(),
                reg == registry@.map_values(|v: Vec<u8>| v@),
                out@ == spec_mounts(reg.subrange(0, i as int)),
            decreases registry@.len() - i,
        {
            let mp = registry[i].as_slice();
            let ghost before = out@;
            proof {
                assert(reg.subrange(0, i + 1).drop_last() =~= reg.subrange(0, i as int));
                assert(reg.subrange(0, i + 1).last() == mp@);
            }
            if mp.len() == 1 && mp[0] == 0x2F {
                assert(mp@ =~= seq![0x2Fu8]);
                push_str(&mut out, "rootfs / vfs rw 0 0\n");
            } else {
                assert(mp@ != seq![0x2Fu8]);
                push_str(&mut out, "vfs ");
                push_bytes(&mut out, mp);
                push_str(&mut out, " vfs rw 0 0\n");
                assert(out@ =~= before + ("vfs ".spec_bytes() + mp@ + " vfs rw 0 0\n".spec_bytes()));
            }
            i = i + 1;
        }
        proof {
            assert(reg.subrange(0, reg.len() as int) =~= reg);
        }
        out
    }

    fn push_three_digits(out: &mut Vec<u8>, n: u64)
        ensures
            final(out)@ == old(out)@ + three_digits(n as nat),
    {
        if n < 10 {
            out.push(0x30);
            out.push(0x30);
        } else if n < 100 {
            out.push(0x30);
        }
        push_decimal(out, n);
        assert(final(out)@ =~= old(out)@ + three_digits(n as nat));
    }

    /// /proc/uptime: the uptime in seconds with milliseconds, twice.
    pub fn uptime(uptime_ms: u64) -> (r: Vec<u8>)
        ensures
            r@ == spec_uptime(uptime_ms),
    {
        let mut out: Vec<u8> = Vec::new();
        push_decimal(&mut out, uptime_ms / 1000);
        push_str(&mut out, ".");
        Self::push_three_digits(&mut out, uptime_ms % 1000);
        push_str(&mut out, " ");
        push_decimal(&mut out, uptime_ms / 1000);
        push_str(&mut out, ".");
        Self::push_three_digits(&mut out, uptime_ms % 1000);
        push_str(&mut out, "\n");
        assert(out@ =~= spec_uptime(uptime_ms));
        out
    }

    /// Contents of a /proc file.
    pub fn data_for_inode(inode: u32, tasks: &[Option<ProcTask>], registry: &[Vec<u8>], uptime_ms: u64) -> (r: Option<Vec<u8>>)
        ensures
            (r is Some) == (spec_data(inode, tasks@, registry@.map_values(|v: Vec<u8>| v@), uptime_ms) is Some),
            r matches Some(d) ==> d@ == spec_data(inode, tasks@, registry@.map_values(|v: Vec<u8>| v@), uptime_ms)->0,
    {
        if inode == INO_UPTIME {
            return Some(Self::uptime(uptime_ms));
        }
        if inode == INO_MOUNTS {
            return Some(Self::mounts(registry));
        }
        let (pid, kind) = match Self::decode_pid_inode(inode) {
            Some(p) => p,
            None => return None,
        };
        let slot = match Self::task_by_pid(tasks, pid) {
            Some(s) => s,
            None => return None,
        };
        proof {
            lemma_leader_unique(tasks@, pid, slot as int);
        }
        let task = match &tasks[slot] {
            Some(t) => t,
            None => return None,
        };
        if kind == 1 {
            Some(Self::status(task))
        } else if kind == 2 {
            let mut out = slice_to_vec(task.cwd.as_slice(), 0, task.cwd.len());
            proof {
                assert(task.cwd@.subrange(0, task.cwd@.len() as int) =~= task.cwd@);
            }
            push_str(&mut out, "\n");
            Some(out)
        } else if kind == 3 {
            Some(Self::stat(task))
        } else {
            None
        }
    }

    /// Inode of a /proc path.
    pub fn parse_path(path: &[u8], tasks: &[Option<ProcTask>]) -> (r: Option<u32>)
        ensures
            r == spec_parse_path(path@, tasks@),
    {
        let clean = trim_slashes_vec(path);
        let c = clean.as_slice();
        if c.len() == 0 || bytes_is(c, ".") {
            return Some(INO_ROOT);
        }
        if bytes_is(c, "uptime") {
            return Some(INO_UPTIME);
        }
        if bytes_is(c, "mounts") {
            return Some(INO_MOUNTS);
        }
        let mut k: usize = 0;
        while k < c.len() && c[k] != 0x2F
            invariant
                0 <= k <= c@.len(),
                forall|j: int| 0 <= j < k ==> c@[j] != 0x2F,
            decreases c@.len() - k,
        {
            k = k + 1;
        }
        let ghost kk: int = if has_slash(c@) { choose|k: int| first_slash(c@, k) } else { c@.len() as int };
        proof {
            if k < c.len() {
                assert(first_slash(c@, k as int));
                assert(has_slash(c@));
                let k2 = choose|k: int| first_slash(c@, k);
                assert(k2 == k) by {
                    if k2 < k {
                        assert(c@[k2] != 0x2F);
                    } else if k2 > k {
                        assert(c@[k as int] != 0x2F);
                    }
                }
            } else {
                assert(!has_slash(c@));
            }
            assert(kk == k);
        }
        let first = slice_to_vec(c, 0, k);
        let pid = match parse_i32(first.as_slice()) {
            Some(p) => p,
            None => return None,
        };
        if Self::task_by_pid(tasks, pid).is_none() {
            return None;
        }
        if k == c.len() {
            return Self::pid_inode(pid, 0);
        }
        let rest = slice_to_vec(c, k + 1, c.len());
        let r = rest.as_slice();
        if bytes_is(r, "status") {
            Self::pid_inode(pid, 1)
        } else if bytes_is(r, "cwd") {
            Self::pid_inode(pid, 2)
        } else if bytes_is(r, "stat") {
            Self::pid_inode(pid, 3)
        } else {
            None
        }
    }

    pub fn resolve_path(path: &[u8], tasks: &[Option<ProcTask>]) -> (r: Option<u32>)
        ensures
            r == spec_parse_path(path@, tasks@),
    {
        Self::parse_path(path, tasks)
    }

    /// Entries of a /proc directory: the root lists `uptime`, `mounts` and a
    /// directory per live process; a process directory lists its files.
    pub fn list_directory_entries(path: &[u8], tasks: &[Option<ProcTask>]) -> (r: Option<Vec<DirEntry>>)
        ensures
            spec_parse_path(path@, tasks@) is None ==> r is None,
            spec_parse_path(path@, tasks@) == Some(INO_ROOT) ==> (r matches Some(es) && root_listing(es@, tasks@)),
            ({
                let p = spec_parse_path(path@, tasks@);
                p is Some && p->0 != INO_ROOT ==> match spec_decode_pid_inode(p->0) {
                    Some((pid, kind)) => if kind == 0 && has_leader(tasks@, pid) {
                        r matches Some(es) && pid_listing(es@, pid)
                    } else {
                        r is None
                    },
                    None => r is None,
                }
            }),
    {
        let inode = match Self::parse_path(path, tasks) {
            Some(i) => i,
            None => return None,
        };
        if inode == INO_ROOT {
            let mut out: Vec<DirEntry> = Vec::new();
            out.push(DirEntry { inode: INO_UPTIME, name: str_vec("uptime"), file_type: 1, size: 0 });
            out.push(DirEntry { inode: INO_MOUNTS, name: str_vec("mounts"), file_type: 1, size: 0 });
            let ghost fixed = out@;
            let mut s: usize = 0;
            while s < tasks.len()
                invariant
                    0 <= s <= tasks@.len(),
                    out@.len() >= 2,
                    out@.subrange(0, 2) == fixed,
                    fixed[0].inode == INO_UPTIME && fixed[0].name@ == "uptime".spec_bytes() && fixed[0].file_type == 1 && fixed[0].size == 0,
                    fixed[1].inode == INO_MOUNTS && fixed[1].name@ == "mounts".spec_bytes() && fixed[1].file_type == 1 && fixed[1].size == 0,
                    pid_dirs(out@.subrange(2, out@.len() as int), tasks@.subrange(0, s as int)),
                decreases tasks@.len() - s,
            {
                let ghost before = out@;
                proof {
                    assert(tasks@.subrange(0, s + 1).drop_last() =~= tasks@.subrange(0, s as int));
                    assert(tasks@.subrange(0, s + 1).last() == tasks@[s as int]);
                }
                match &tasks[s] {
                    Some(t) => {
                        if t.leader && t.pid >= 0 {
                            match Self::pid_inode(t.pid, 0) {
                                Some(ino) => {
                                    let mut nm: Vec<u8> = Vec::new();
                                    push_decimal(&mut nm, t.pid as u64);
                                    out.push(DirEntry { inode: ino, name: nm, file_type: 2, size: 0 });
                                    proof {
                                        let tail = out@.subrange(2, out@.len() as int);
                                        assert(tail =~= before.subrange(2, before.len() as int).push(out@.last()));
                                        assert(tail.drop_last() =~= before.subrange(2, before.len() as int));
                                        assert(tail.last() == out@.last());
                                        assert(t.pid as u64 as nat == t.pid as nat);
                                    }
                                },
                                None => {},
                            }
                        }
                    },
                    None => {},
                }
                proof {
                    assert(out@.subrange(0, 2) =~= before.subrange(0, 2));
                }
                s = s + 1;
            }
            proof {
                assert(tasks@.subrange(0, tasks@.len() as int) =~= tasks@);
            }
            return Some(out);
        }
        match Self::decode_pid_inode(inode) {
            Some((pid, kind)) => {
                if kind == 0 && Self::task_by_pid(tasks, pid).is_some() {
                    let i1 = match Self::pid_inode(pid, 1) {
                        Some(i) => i,
                        None => return None,
                    };
                    let i2 = match Self::pid_inode(pid, 2) {
                        Some(i) => i,
                        None => return None,
                    };
                    let i3 = match Self::pid_inode(pid, 3) {
                        Some(i) => i,
                        None => return None,
                    };
                    let mut out: Vec<DirEntry> = Vec::new();
                    out.push(DirEntry { inode: i1, name: str_vec("status"), file_type: 1, size: 0 });
                    out.push(DirEntry { inode: i2, name: str_vec("cwd"), file_type: 1, size: 0 });
                    out.push(DirEntry { inode: i3, name: str_vec("stat"), file_type: 1, size: 0 });
                    return Some(out);
                }
                None
            },
            None => None,
        }
    }

    /// Metadata of a /proc inode: directories are `dr-xr-xr-x`, files
    /// `-r--r--r--` with the size of their current contents.
    pub fn metadata_inode(inode: u32, tasks: &[Option<ProcTask>], registry: &[Vec<u8>], uptime_ms: u64) -> (r: Option<Metadata>)
        ensures
            ({
                let is_dir = inode == INO_ROOT || (spec_decode_pid_inode(inode) matches Some((pid, kind)) && kind == 0
                    && has_leader(tasks@, pid));
                let data = spec_data(inode, tasks@, registry@.map_values(|v: Vec<u8>| v@), uptime_ms);
                if is_dir {
                    r == Some(Metadata { inode, mode: 0o040555, nlink: 2, uid: 0, gid: 0, rdev: 0, size: 0, blksize: 4096, blocks: 0, atime: 0, mtime: 0, ctime: 0 })
                } else if data is None {
                    r is None
                } else {
                    r == Some(Metadata { inode, mode: 0o100444, nlink: 1, uid: 0, gid: 0, rdev: 0, size: data->0.len() as u64,
                        blksize: 4096, blocks: ((data->0.len() + 511) / 512) as u64, atime: 0, mtime: 0, ctime: 0 })
                }
            }),
    {
        let is_dir = inode == INO_ROOT || match Self::decode_pid_inode(inode) {
            Some((pid, kind)) => kind == 0 && Self::task_by_pid(tasks, pid).is_some(),
            None => false,
        };
        if is_dir {
            return Some(Metadata { inode, mode: 0o040555, nlink: 2, uid: 0, gid: 0, rdev: 0, size: 0, blksize: 4096, blocks: 0, atime: 0, mtime: 0, ctime: 0 });
        }
        let data = match Self::data_for_inode(inode, tasks, registry, uptime_ms) {
            Some(d) => d,
            None => return None,
        };
        let size = data.len() as u64;
        let blocks = size / 512 + if size % 512 != 0 { 1 } else { 0 };
        assert(blocks == (size + 511) / 512);
        Some(Metadata { inode, mode: 0o100444, nlink: 1, uid: 0, gid: 0, rdev: 0, size, blksize: 4096, blocks, atime: 0, mtime: 0, ctime: 0 })
    }

    pub fn metadata(path: &[u8], tasks: &[Option<ProcTask>], registry: &[Vec<u8>], uptime_ms: u64) -> (r: Option<Metadata>)
        ensures
            spec_parse_path(path@, tasks@) is None ==> r is None,
            spec_parse_path(path@, tasks@) matches Some(ino) ==> r == Self::spec_metadata_inode(ino, tasks@, registry@.map_values(|v: Vec<u8>| v@), uptime_ms),
    {
        match Self::parse_path(path, tasks) {
            Some(ino) => Self::metadata_inode(ino, tasks, registry, uptime_ms),
            None => None,
        }
    }

    pub open spec fn spec_metadata_inode(inode: u32, tasks: Seq<Option<ProcTask>>, reg: Seq<Seq<u8>>, uptime_ms: u64) -> Option<Metadata> {
        let is_dir = inode == INO_ROOT || (spec_decode_pid_inode(inode) matches Some((pid, kind)) && kind == 0 && has_leader(tasks, pid));
        let data = spec_data(inode, tasks, reg, uptime_ms);
        if is_dir {
            Some(Metadata { inode, mode: 0o040555, nlink: 2, uid: 0, gid: 0, rdev: 0, size: 0, blksize: 4096, blocks: 0, atime: 0, mtime: 0, ctime: 0 })
        } else if data is None {
            None
        } else {
            Some(Metadata { inode, mode: 0o100444, nlink: 1, uid: 0, gid: 0, rdev: 0, size: data->0.len() as u64,
                blksize: 4096, blocks: ((data->0.len() + 511) / 512) as u64, atime: 0, mtime: 0, ctime: 0 })
        }
    }

    /// Copy file contents from `offset` into `buf`; returns the byte count.
    pub fn read_at(inode: u32, offset: u64, buf: &mut [u8], tasks: &[Option<ProcTask>], registry: &[Vec<u8>], uptime_ms: u64) -> (r: usize)
        requires
            offset <= usize::MAX,
        ensures
            final(buf)@.len() == old(buf)@.len(),
            ({
                match spec_data(inode, tasks@, registry@.map_values(|v: Vec<u8>| v@), uptime_ms) {
                    None => r == 0 && final(buf)@ == old(buf)@,
                    Some(d) => if offset >= d.len() {
                        r == 0 && final(buf)@ == old(buf)@
                    } else {
                        &&& r == (if old(buf)@.len() < d.len() - offset { old(buf)@.len() as int } else { d.len() - offset })
                        &&& final(buf)@.subrange(0, r as int) == d.subrange(offset as int, offset + r)
                        &&& final(buf)@.subrange(r as int, old(buf)@.len() as int) == old(buf)@.subrange(r as int, old(buf)@.len() as int)
                    },
                }
            }),
    {
        let data = match Self::data_for_inode(inode, tasks, registry, uptime_ms) {
            Some(d) => d,
            None => return 0,
        };
        let off = offset as usize;
        let dl = data.len();
        if off >= dl {
            return 0;
        }
        let n = if buf.len() < data.len() - off { buf.len() } else { data.len() - off };
        let mut i: usize = 0;
        while i < n
            invariant
                0 <= i <= n,
                n <= buf@.len(),
                off + n <= dl,
                dl == data@.len(),
                buf@.len() == old(buf)@.len(),
                buf@.subrange(0, i as int) == data@.subrange(off as int, off + i),
                buf@.subrange(n as int, buf@.len() as int) == old(buf)@.subrange(n as int, old(buf)@.len() as int),
            decreases n - i,
        {
            buf[i] = data[off + i];
            assert(buf@.subrange(0, i + 1) =~= data@.subrange(off as int, off + i + 1));
            assert(buf@.subrange(n as int, buf@.len() as int) =~= old(buf)@.subrange(n as int, old(buf)@.len() as int));
            i = i + 1;
        }
        n
    }
}

/// The root listing: `uptime`, `mounts`, then one directory per process
/// leader in slot order.
pub open spec fn root_listing(es: Seq<DirEntry>, tasks: Seq<Option<ProcTask>>) -> bool {
    &&& es.len() >= 2
    &&& es[0].inode == INO_UPTIME && es[0].name@ == "uptime".spec_bytes() && es[0].file_type == 1 && es[0].size == 0
    &&& es[1].inode == INO_MOUNTS && es[1].name@ == "mounts".spec_bytes() && es[1].file_type == 1 && es[1].size == 0
    &&& pid_dirs(es.subrange(2, es.len() as int), tasks)
}

/// Directory entries of the process leaders among `tasks`, in order.
pub open spec fn pid_dirs(es: Seq<DirEntry>, tasks: Seq<Option<ProcTask>>) -> bool
    decreases tasks.len(),
{
    if tasks.len() == 0 {
        es.len() == 0
    } else {
        match tasks.last() {
            Some(t) => if t.leader && t.pid >= 0 && spec_pid_inode(t.pid, 0) is Some {
                &&& es.len() > 0
                &&& pid_dirs(es.drop_last(), tasks.drop_last())
                &&& es.last().inode == spec_pid_inode(t.pid, 0)->0
                &&& es.last().name@ == decimal(t.pid as nat)
                &&& es.last().file_type == 2
                &&& es.last().size == 0
            } else {
                pid_dirs(es, tasks.drop_last())
            },
            None => pid_dirs(es, tasks.drop_last()),
        }
    }
}

/// A process directory: `status`, `cwd`, `stat`.
pub open spec fn pid_listing(es: Seq<DirEntry>, pid: i32) -> bool {
    &&& es.len() == 3
    &&& es[0].inode == spec_pid_inode(pid, 1)->0 && es[0].name@ == "status".spec_bytes() && es[0].file_type == 1 && es[0].size == 0
    &&& es[1].inode == spec_pid_inode(pid, 2)->0 && es[1].name@ == "cwd".spec_bytes() && es[1].file_type == 1 && es[1].size == 0
    &&& es[2].inode == spec_pid_inode(pid, 3)->0 && es[2].name@ == "stat".spec_bytes() && es[2].file_type == 1 && es[2].size == 0
}

proof fn lemma_leader_unique(tasks: Seq<Option<ProcTask>>, pid: i32, s: int)
    requires
        leader_of(tasks, pid, s),
    ensures
        has_leader(tasks, pid),
        (choose|s2: int| leader_of(tasks, pid, s2)) == s,
{
    assert(tasks[s] matches Some(t) && t.pid == pid && t.leader);
    let s2 = choose|s2: int| leader_of(tasks, pid, s2);
    assert(leader_of(tasks, pid, s2));
    if s2 < s {
        assert(!(tasks[s2] matches Some(u) && u.pid == pid && u.leader));
    } else if s2 > s {
        assert(!(tasks[s] matches Some(u) && u.pid == pid && u.leader));
    }
}

proof fn lemma_name_prefix(name: Seq<u8>, end: int)
    requires
        0 <= end <= name.len(),
        forall|j: int| 0 <= j < end ==> name[j] != 0,
        end == name.len() || name[end] == 0,
    ensures
        name_prefix(name) == name.subrange(0, end),
    decreases name.len(),
{
    if name.len() > 0 {
        if name[0] == 0 {
            assert(end == 0);
            assert(name.subrange(0, 0) =~= Seq::<u8>::empty());
        } else {
            let t = name.drop_first();
            assert forall|j: int| 0 <= j < end - 1 implies t[j] != 0 by {
                assert(t[j] == name[j + 1]);
            }
            if end < name.len() {
                assert(t[end - 1] == name[end]);
            }
            lemma_name_prefix(t, end - 1);
            assert(seq![name[0]] + t.subrange(0, end - 1) =~= name.subrange(0, end));
        }
    } else {
        assert(name.subrange(0, end) =~= name);
    }
}

/// The ASCII bytes of `s`.
fn str_vec(s: &str) -> (r: Vec<u8>)
    ensures
        r@ == s.spec_bytes(),
{
    let mut v: Vec<u8> = Vec::new();
    push_str(&mut v, s);
    assert(v@ =~= s.spec_bytes());
    v
}

/// `b` spells `s`.
fn bytes_is(b: &[u8], s: &str) -> (r: bool)
    ensures
        r == (b@ == s.spec_bytes()),
{
    crate::util::bytes_eq(b, s.as_bytes())
}

/// A process inode decodes back to the process id and file kind it was
/// made of.
pub proof fn law_pid_inode_roundtrip(pid: i32, kind: u32)
    requires
        kind < PID_STRIDE,
        spec_pid_inode(pid, kind) is Some,
    ensures
        spec_decode_pid_inode(spec_pid_inode(pid, kind)->0) == Some((pid, kind)),
{
    let rel = pid * PID_STRIDE + kind;
    assert(rel / 8 == pid && rel % 8 == kind) by (nonlinear_arith)
        requires
            rel == pid * 8 + kind,
            0 <= kind < 8,
            pid >= 0,
    ;
}

} // verus!
