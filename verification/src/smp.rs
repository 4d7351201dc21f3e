//! Per-CPU bookkeeping for the SMP kernel: which CPUs are online, what each
//! one runs, its tick accounting, and the diagnostic trace words that a
//! stalled CPU leaves behind.
//!
//! The table is plain data; the interrupt handlers that fill it and the
//! Local APIC programming stay outside this crate.
use vstd::prelude::*;
use crate::util::lemma_filter_prefix_step;

verus! {

pub const MAX_CPUS: usize = 8;
pub const AP_TIMER_VECTOR: u8 = 0xf0;
pub const WORK_IPI_VECTOR: u8 = 0xf1;
pub const TLB_IPI_VECTOR: u8 = 0xf2;

#[derive(Debug, Clone, Copy, PartialEq, Eq, Structural)]
pub struct CpuTimes {
    pub user: u32,
    pub system: u32,
    pub idle: u32,
}

impl Default for CpuTimes {
    fn default() -> (r: Self)
        ensures
            r == (CpuTimes { user: 0, system: 0, idle: 0 }),
    {
        CpuTimes { user: 0, system: 0, idle: 0 }
    }
}

/// Long kernel operations that leave a progress marker behind.
#[derive(Debug, Clone, Copy, PartialEq, Eq, Structural)]
pub enum KernelWork {
    NoWork,
    SpawnArgs,
    SpawnPath,
    SpawnRead,
    SpawnSlot,
    TaskPageDir,
    TaskStack,
    TaskMetadata,
    SpawnMappings,
    SpawnUserStack,
    SpawnHeap,
    SpawnElf,
    SpawnUserArgs,
    SpawnFds,
    SpawnPublish,
    SpawnFinish,
    ReapThreads,
    ReapUserStack,
    ReapUserPages,
    ReapPageDir,
    ReapKernelStack,
}

/// Position of a work stage in declaration order.
pub open spec fn spec_work_code(w: KernelWork) -> u32 {
    match w {
        KernelWork::NoWork => 0,
        KernelWork::SpawnArgs => 1,
        KernelWork::SpawnPath => 2,
        KernelWork::SpawnRead => 3,
        KernelWork::SpawnSlot => 4,
        KernelWork::TaskPageDir => 5,
        KernelWork::TaskStack => 6,
        KernelWork::TaskMetadata => 7,
        KernelWork::SpawnMappings => 8,
        KernelWork::SpawnUserStack => 9,
        KernelWork::SpawnHeap => 10,
        KernelWork::SpawnElf => 11,
        KernelWork::SpawnUserArgs => 12,
        KernelWork::SpawnFds => 13,
        KernelWork::SpawnPublish => 14,
        KernelWork::SpawnFinish => 15,
        KernelWork::ReapThreads => 16,
        KernelWork::ReapUserStack => 17,
        KernelWork::ReapUserPages => 18,
        KernelWork::ReapPageDir => 19,
        KernelWork::ReapKernelStack => 20,
    }
}

impl KernelWork {
    pub fn code(self) -> (r: u32)
        ensures
            r == spec_work_code(self),
    {
        match self {
            KernelWork::NoWork => 0,
            KernelWork::SpawnArgs => 1,
            KernelWork::SpawnPath => 2,
            KernelWork::SpawnRead => 3,
            KernelWork::SpawnSlot => 4,
            KernelWork::TaskPageDir => 5,
            KernelWork::TaskStack => 6,
            KernelWork::TaskMetadata => 7,
            KernelWork::SpawnMappings => 8,
            KernelWork::SpawnUserStack => 9,
            KernelWork::SpawnHeap => 10,
            KernelWork::SpawnElf => 11,
            KernelWork::SpawnUserArgs => 12,
            KernelWork::SpawnFds => 13,
            KernelWork::SpawnPublish => 14,
            KernelWork::SpawnFinish => 15,
            KernelWork::ReapThreads => 16,
            KernelWork::ReapUserStack => 17,
            KernelWork::ReapUserPages => 18,
            KernelWork::ReapPageDir => 19,
            KernelWork::ReapKernelStack => 20,
        }
    }
}

/// Name of a work stage code; codes past the last stage are "unknown".
pub open spec fn spec_work_name(code: u32) -> Seq<char> {
    if code == 0 { "none"@ }
    else if code == 1 { "spawn/args"@ }
    else if code == 2 { "spawn/path"@ }
    else if code == 3 { "spawn/read"@ }
    else if code == 4 { "spawn/slot"@ }
    else if code == 5 { "task/pd"@ }
    else if code == 6 { "task/kstack"@ }
    else if code == 7 { "task/metadata"@ }
    else if code == 8 { "spawn/mappings"@ }
    else if code == 9 { "spawn/ustack"@ }
    else if code == 10 { "spawn/heap"@ }
    else if code == 11 { "spawn/elf"@ }
    else if code == 12 { "spawn/argv"@ }
    else if code == 13 { "spawn/fds"@ }
    else if code == 14 { "spawn/publish"@ }
    else if code == 15 { "spawn/finish"@ }
    else if code == 16 { "reap/threads"@ }
    else if code == 17 { "reap/ustack"@ }
    else if code == 18 { "reap/pages"@ }
    else if code == 19 { "reap/pd"@ }
    else if code == 20 { "reap/kstack"@ }
    else { "unknown"@ }
}

pub fn kernel_work_name(work: u32) -> (r: &'static str)
    ensures
        r@ == spec_work_name(work),
{
    if work == 0 { "none" }
    else if work == 1 { "spawn/args" }
    else if work == 2 { "spawn/path" }
    else if work == 3 { "spawn/read" }
    else if work == 4 { "spawn/slot" }
    else if work == 5 { "task/pd" }
    else if work == 6 { "task/kstack" }
    else if work == 7 { "task/metadata" }
    else if work == 8 { "spawn/mappings" }
    else if work == 9 { "spawn/ustack" }
    else if work == 10 { "spawn/heap" }
    else if work == 11 { "spawn/elf" }
    else if work == 12 { "spawn/argv" }
    else if work == 13 { "spawn/fds" }
    else if work == 14 { "spawn/publish" }
    else if work == 15 { "spawn/finish" }
    else if work == 16 { "reap/threads" }
    else if work == 17 { "reap/ustack" }
    else if work == 18 { "reap/pages" }
    else if work == 19 { "reap/pd" }
    else if work == 20 { "reap/kstack" }
    else { "unknown" }
}

/// The trace word: stage code in the top byte, progress in the low 24 bits.
pub open spec fn spec_work_word(w: KernelWork, progress: u32) -> u32 {
    (spec_work_code(w) * 0x100_0000 + progress % 0x100_0000) as u32
}

pub fn work_word(w: KernelWork, progress: u32) -> (r: u32)
    ensures
        r == spec_work_word(w, progress),
{
    let c = w.code();
    assert(c < 256 ==> (c << 24u32) | (progress & 0x00ff_ffffu32) == c * 0x100_0000 + progress % 0x100_0000) by (bit_vector);
    (c << 24u32) | (progress & 0x00ff_ffffu32)
}

/// A trace word splits back into its stage code and the low 24 bits of the
/// progress.
pub proof fn law_work_word_roundtrip(w: KernelWork, progress: u32)
    ensures
        spec_work_word(w, progress) / 0x100_0000 == spec_work_code(w),
        spec_work_word(w, progress) % 0x100_0000 == progress % 0x100_0000,
{
}

/// Everything the kernel records about one CPU slot.
#[derive(Debug, Clone, Copy, PartialEq, Eq, Structural)]
pub struct CpuSlot {
    /// Local APIC id, `u32::MAX` while the slot is unused.
    pub apic_id: u32,
    /// Task slot running here, -1 when idle.
    pub current_task: i8,
    pub current_cr3: u32,
    pub idle_esp: u32,
    pub user_ticks: u32,
    pub system_ticks: u32,
    pub idle_ticks: u32,
    pub ap_timer_ticks: u32,
    pub last_eip: u32,
    pub last_cs: u32,
    pub last_eflags: u32,
    pub syscall_number: u32,
    pub syscall_phase: u32,
    pub scheduler_stage: u32,
    pub kernel_work: u32,
}

pub open spec fn fresh_slot() -> CpuSlot {
    CpuSlot {
        apic_id: u32::MAX,
        current_task: -1i8,
        current_cr3: 0,
        idle_esp: 0,
        user_ticks: 0,
        system_ticks: 0,
        idle_ticks: 0,
        ap_timer_ticks: 0,
        last_eip: 0,
        last_cs: 0,
        last_eflags: 0,
        syscall_number: u32::MAX,
        syscall_phase: 0,
        scheduler_stage: 0,
        kernel_work: 0,
    }
}

/// The processor table.
pub struct SmpState {
    /// Processors that reached the scheduler, the bootstrap one included.
    pub ap_online: u32,
    /// Bit `i` set once slot `i` is online.
    pub online_mask: u32,
    pub user_scheduling: bool,
    pub cpus: Vec<CpuSlot>,
}

/// Bit `cpu` of the online mask.
pub open spec fn cpu_online(mask: u32, cpu: int) -> bool {
    0 <= cpu < 32 && mask & (1u32 << (cpu as u32)) != 0
}

pub open spec fn wrapping_inc(x: u32) -> u32 {
    if x == u32::MAX { 0 } else { (x + 1) as u32 }
}

/// CPU-time class of a timer tick: idle when no task runs, user when the
/// interrupted code ran at ring 3, system otherwise.
pub open spec fn spec_account(s: CpuSlot, cs: u32, eip: u32, eflags: u32) -> CpuSlot {
    let s2 = CpuSlot { last_eip: eip, last_cs: cs, last_eflags: eflags, ..s };
    if s.current_task <= 0 {
        CpuSlot { idle_ticks: wrapping_inc(s.idle_ticks), ..s2 }
    } else if cs % 4 == 3 {
        CpuSlot { user_ticks: wrapping_inc(s.user_ticks), ..s2 }
    } else {
        CpuSlot { system_ticks: wrapping_inc(s.system_ticks), ..s2 }
    }
}

/// Slot ids in boot order: the bootstrap processor first, then every other
/// reported processor, at most `MAX_CPUS` in all.
pub open spec fn spec_slot_ids(bsp: u8, ids: Seq<u8>) -> Seq<u8> {
    let all = seq![bsp] + ids.filter(not_id(bsp));
    if all.len() <= MAX_CPUS { all } else { all.subrange(0, MAX_CPUS as int) }
}

pub open spec fn not_id(b: u8) -> spec_fn(u8) -> bool {
    |x: u8| x != b
}

pub fn cpu_slot_count() -> (r: usize)
    ensures
        r == MAX_CPUS,
{
    MAX_CPUS
}

impl SmpState {
    pub open spec fn wf(&self) -> bool {
        self.cpus@.len() == MAX_CPUS
    }

    /// Only the bootstrap processor is online, nothing runs yet.
    pub fn new() -> (r: Self)
        ensures
            r.wf(),
            r.ap_online == 1,
            r.online_mask == 1,
            !r.user_scheduling,
            forall|i: int| 0 <= i < MAX_CPUS ==> #[trigger] r.cpus@[i] == fresh_slot(),
    {
        let mut cpus: Vec<CpuSlot> = Vec::new();
        let mut i: usize = 0;
        while i < MAX_CPUS
            invariant
                0 <= i <= MAX_CPUS,
                cpus@.len() == i,
                forall|k: int| 0 <= k < i ==> #[trigger] cpus@[k] == fresh_slot(),
            decreases MAX_CPUS - i,
        {
            cpus.push(CpuSlot {
                apic_id: u32::MAX,
                current_task: -1,
                current_cr3: 0,
                idle_esp: 0,
                user_ticks: 0,
                system_ticks: 0,
                idle_ticks: 0,
                ap_timer_ticks: 0,
                last_eip: 0,
                last_cs: 0,
                last_eflags: 0,
                syscall_number: u32::MAX,
                syscall_phase: 0,
                scheduler_stage: 0,
                kernel_work: 0,
            });
            i = i + 1;
        }
        SmpState { ap_online: 1, online_mask: 1, user_scheduling: false, cpus }
    }

    /// Slot whose recorded APIC id is `apic_id`.
    pub fn cpu_slot_for_apic(&self, apic_id: u32) -> (r: Option<usize>)
        requires
            self.wf(),
        ensures
            r matches Some(i) ==> i < MAX_CPUS && self.cpus@[i as int].apic_id == apic_id
                && forall|j: int| 0 <= j < i ==> (#[trigger] self.cpus@[j]).apic_id != apic_id,
            r is None ==> forall|j: int| 0 <= j < MAX_CPUS ==> (#[trigger] self.cpus@[j]).apic_id != apic_id,
    {
        let mut i: usize = 0;
        while i < self.cpus.len()
            invariant
                0 <= i <= self.cpus@.len(),
                self.wf(),
                forall|j: int| 0 <= j < i ==> (#[trigger] self.cpus@[j]).apic_id != apic_id,
            decreases self.cpus@.len() - i,
        {
            if self.cpus[i].apic_id == apic_id {
                return Some(i);
            }
            i = i + 1;
        }
        None
    }

    /// Index of the CPU with the given APIC id; 0 (the bootstrap CPU) when
    /// it is not recorded.
    pub fn current_cpu_index(&self, apic_id: u32) -> (r: usize)
        requires
            self.wf(),
        ensures
            r < MAX_CPUS,
            (exists|j: int| 0 <= j < MAX_CPUS && (#[trigger] self.cpus@[j]).apic_id == apic_id) ==> {
                &&& self.cpus@[r as int].apic_id == apic_id
                &&& forall|j: int| 0 <= j < r ==> (#[trigger] self.cpus@[j]).apic_id != apic_id
            },
            (forall|j: int| 0 <= j < MAX_CPUS ==> (#[trigger] self.cpus@[j]).apic_id != apic_id) ==> r == 0,
    {
        match self.cpu_slot_for_apic(apic_id) {
            Some(i) => i,
            None => 0,
        }
    }

    /// Processors online, kept within `1..=MAX_CPUS`.
    pub fn online_cpu_count(&self) -> (r: usize)
        ensures
            r == (if self.ap_online < 1 { 1 } else if self.ap_online > MAX_CPUS { MAX_CPUS as int } else { self.ap_online as int }),
    {
        if self.ap_online < 1 {
            1
        } else if self.ap_online > 8 {
            MAX_CPUS
        } else {
            self.ap_online as usize
        }
    }

    /// Tick counters of an online CPU.
    pub fn cpu_times(&self, cpu: usize) -> (r: Option<CpuTimes>)
        requires
            self.wf(),
        ensures
            (cpu >= MAX_CPUS || !cpu_online(self.online_mask, cpu as int)) ==> r is None,
            cpu < MAX_CPUS && cpu_online(self.online_mask, cpu as int) ==> r == Some(CpuTimes {
                user: self.cpus@[cpu as int].user_ticks,
                system: self.cpus@[cpu as int].system_ticks,
                idle: self.cpus@[cpu as int].idle_ticks,
            }),
    {
        if cpu >= MAX_CPUS {
            return None;
        }
        let c = cpu as u32;
        if self.online_mask & (1u32 << c) == 0 {
            return None;
        }
        let s = self.cpus[cpu];
        Some(CpuTimes { user: s.user_ticks, system: s.system_ticks, idle: s.idle_ticks })
    }

    /// Record that `cpu` is inside work stage `work`, `progress` into it.
    pub fn trace_kernel_work(&mut self, cpu: usize, work: KernelWork, progress: u32)
        requires
            old(self).wf(),
            cpu < MAX_CPUS,
        ensures
            final(self).cpus@ == old(self).cpus@.update(cpu as int,
                CpuSlot { kernel_work: spec_work_word(work, progress), ..old(self).cpus@[cpu as int] }),
            final(self).ap_online == old(self).ap_online,
            final(self).online_mask == old(self).online_mask,
            final(self).user_scheduling == old(self).user_scheduling,
    {
        let mut s = self.cpus[cpu];
        s.kernel_work = work_word(work, progress);
        self.cpus.set(cpu, s);
    }

    pub fn trace_scheduler(&mut self, cpu: usize, stage: u32)
        requires
            old(self).wf(),
            cpu < MAX_CPUS,
        ensures
            final(self).cpus@ == old(self).cpus@.update(cpu as int,
                CpuSlot { scheduler_stage: stage, ..old(self).cpus@[cpu as int] }),
            final(self).ap_online == old(self).ap_online,
            final(self).online_mask == old(self).online_mask,
            final(self).user_scheduling == old(self).user_scheduling,
    {
        let mut s = self.cpus[cpu];
        s.scheduler_stage = stage;
        self.cpus.set(cpu, s);
    }

    /// Record the syscall `cpu` is in; entering one (phase 1) clears the
    /// work marker left by the previous call.
    pub fn trace_syscall(&mut self, cpu: usize, number: u32, phase: u32)
        requires
            old(self).wf(),
            cpu < MAX_CPUS,
        ensures
            final(self).cpus@ == old(self).cpus@.update(cpu as int, CpuSlot {
                syscall_number: number,
                syscall_phase: phase,
                kernel_work: if phase == 1 { 0 } else { old(self).cpus@[cpu as int].kernel_work },
                ..old(self).cpus@[cpu as int]
            }),
            final(self).ap_online == old(self).ap_online,
            final(self).online_mask == old(self).online_mask,
            final(self).user_scheduling == old(self).user_scheduling,
    {
        let mut s = self.cpus[cpu];
        if phase == 1 {
            s.kernel_work = 0;
        }
        s.syscall_number = number;
        s.syscall_phase = phase;
        self.cpus.set(cpu, s);
    }

    /// Leaving the kernel clears the scheduler stage, the work marker and
    /// the syscall phase.
    pub fn trace_kernel_return(&mut self, cpu: usize)
        requires
            old(self).wf(),
            cpu < MAX_CPUS,
        ensures
            final(self).cpus@ == old(self).cpus@.update(cpu as int, CpuSlot {
                scheduler_stage: 0,
                kernel_work: 0,
                syscall_phase: 0,
                ..old(self).cpus@[cpu as int]
            }),
            final(self).ap_online == old(self).ap_online,
            final(self).online_mask == old(self).online_mask,
            final(self).user_scheduling == old(self).user_scheduling,
    {
        self.trace_scheduler(cpu, 0);
        self.trace_kernel_work(cpu, KernelWork::NoWork, 0);
        let mut s = self.cpus[cpu];
        s.syscall_phase = 0;
        self.cpus.set(cpu, s);
        assert(spec_work_word(KernelWork::NoWork, 0) == 0);
    }

    /// Charge one timer tick of `cpu` to user, system or idle time and keep
    /// the interrupted context for diagnostics; other slots are ignored.
    pub fn account_cpu_tick(&mut self, cpu: usize, cs: u32, eip: u32, eflags: u32)
        requires
            old(self).wf(),
        ensures
            cpu >= MAX_CPUS ==> final(self).cpus@ == old(self).cpus@,
            cpu < MAX_CPUS ==> final(self).cpus@ == old(self).cpus@.update(cpu as int,
                spec_account(old(self).cpus@[cpu as int], cs, eip, eflags)),
            final(self).wf(),
            final(self).ap_online == old(self).ap_online,
            final(self).online_mask == old(self).online_mask,
            final(self).user_scheduling == old(self).user_scheduling,
    {
        if cpu >= MAX_CPUS {
            return;
        }
        let mut s = self.cpus[cpu];
        s.last_eip = eip;
        s.last_cs = cs;
        s.last_eflags = eflags;
        let user = cs & 3 == 3;
        assert((cs & 3 == 3) == (cs % 4 == 3)) by (bit_vector);
        if s.current_task <= 0 {
            s.idle_ticks = s.idle_ticks.wrapping_add(1);
        } else if user {
            s.user_ticks = s.user_ticks.wrapping_add(1);
        } else {
            s.system_ticks = s.system_ticks.wrapping_add(1);
        }
        self.cpus.set(cpu, s);
    }

    /// Count one Local APIC timer tick of `cpu`.
    pub fn count_ap_tick(&mut self, cpu: usize)
        requires
            old(self).wf(),
            cpu < MAX_CPUS,
        ensures
            final(self).cpus@ == old(self).cpus@.update(cpu as int, CpuSlot {
                ap_timer_ticks: wrapping_inc(old(self).cpus@[cpu as int].ap_timer_ticks),
                ..old(self).cpus@[cpu as int]
            }),
            final(self).ap_online == old(self).ap_online,
            final(self).online_mask == old(self).online_mask,
            final(self).user_scheduling == old(self).user_scheduling,
    {
        let mut s = self.cpus[cpu];
        s.ap_timer_ticks = s.ap_timer_ticks.wrapping_add(1);
        self.cpus.set(cpu, s);
    }

    pub fn current_task_slot(&self, cpu: usize) -> (r: i8)
        requires
            self.wf(),
            cpu < MAX_CPUS,
        ensures
            r == self.cpus@[cpu as int].current_task,
    {
        self.cpus[cpu].current_task
    }

    /// Task slot on `cpu`; -1 for a slot past the table.
    pub fn task_slot_on_cpu(&self, cpu: usize) -> (r: i8)
        requires
            self.wf(),
        ensures
            cpu < MAX_CPUS ==> r == self.cpus@[cpu as int].current_task,
            cpu >= MAX_CPUS ==> r == -1,
    {
        if cpu < self.cpus.len() {
            self.cpus[cpu].current_task
        } else {
            -1
        }
    }

    pub fn set_current_task_slot(&mut self, cpu: usize, slot: i8)
        requires
            old(self).wf(),
            cpu < MAX_CPUS,
        ensures
            final(self).cpus@ == old(self).cpus@.update(cpu as int,
                CpuSlot { current_task: slot, ..old(self).cpus@[cpu as int] }),
            final(self).ap_online == old(self).ap_online,
            final(self).online_mask == old(self).online_mask,
            final(self).user_scheduling == old(self).user_scheduling,
    {
        let mut s = self.cpus[cpu];
        s.current_task = slot;
        self.cpus.set(cpu, s);
    }

    pub fn set_current_cr3(&mut self, cpu: usize, page_dir_phys: u32)
        requires
            old(self).wf(),
            cpu < MAX_CPUS,
        ensures
            final(self).cpus@ == old(self).cpus@.update(cpu as int,
                CpuSlot { current_cr3: page_dir_phys, ..old(self).cpus@[cpu as int] }),
            final(self).ap_online == old(self).ap_online,
            final(self).online_mask == old(self).online_mask,
            final(self).user_scheduling == old(self).user_scheduling,
    {
        let mut s = self.cpus[cpu];
        s.current_cr3 = page_dir_phys;
        self.cpus.set(cpu, s);
    }

    pub fn set_idle_esp(&mut self, cpu: usize, esp: u32)
        requires
            old(self).wf(),
            cpu < MAX_CPUS,
        ensures
            final(self).cpus@ == old(self).cpus@.update(cpu as int,
                CpuSlot { idle_esp: esp, ..old(self).cpus@[cpu as int] }),
            final(self).ap_online == old(self).ap_online,
            final(self).online_mask == old(self).online_mask,
            final(self).user_scheduling == old(self).user_scheduling,
    {
        let mut s = self.cpus[cpu];
        s.idle_esp = esp;
        self.cpus.set(cpu, s);
    }

    pub fn idle_esp(&self, cpu: usize) -> (r: u32)
        requires
            self.wf(),
            cpu < MAX_CPUS,
        ensures
            r == self.cpus@[cpu as int].idle_esp,
    {
        self.cpus[cpu].idle_esp
    }

    pub fn user_scheduling_enabled(&self) -> (r: bool)
        ensures
            r == self.user_scheduling,
    {
        self.user_scheduling
    }

    pub fn enable_user_scheduling(&mut self)
        ensures
            final(self).user_scheduling,
            final(self).cpus@ == old(self).cpus@,
            final(self).ap_online == old(self).ap_online,
            final(self).online_mask == old(self).online_mask,
    {
        self.user_scheduling = true;
    }

    /// An application processor in `slot` reached the scheduler.
    pub fn mark_online(&mut self, slot: usize)
        requires
            old(self).wf(),
            slot < MAX_CPUS,
        ensures
            final(self).online_mask == old(self).online_mask | (1u32 << (slot as u32)),
            final(self).ap_online == wrapping_inc(old(self).ap_online),
            final(self).cpus@ == old(self).cpus@,
            final(self).user_scheduling == old(self).user_scheduling,
    {
        let s = slot as u32;
        self.online_mask = self.online_mask | (1u32 << s);
        self.ap_online = self.ap_online.wrapping_add(1);
    }

    /// APIC ids of the online CPUs other than `sender` that run on page
    /// directory `page_dir_phys`: the CPUs a TLB shootdown must reach.
    pub fn tlb_targets(&self, sender: usize, page_dir_phys: u32) -> (r: Vec<u8>)
        requires
            self.wf(),
        ensures
            r@ == Seq::new(MAX_CPUS as nat, |i: int| i).filter(shootdown_target(self.online_mask, self.cpus@, sender, page_dir_phys))
                .map_values(|i: int| self.cpus@[i].apic_id as u8),
    {
        let ghost cands = Seq::new(MAX_CPUS as nat, |i: int| i);
        let ghost pred = shootdown_target(self.online_mask, self.cpus@, sender, page_dir_phys);
        let mut out: Vec<u8> = Vec::new();
        let mut cpu: usize = 0;
        while cpu < MAX_CPUS
            invariant
                0 <= cpu <= MAX_CPUS,
                self.wf(),
                cands == Seq::new(MAX_CPUS as nat, |i: int| i),
                pred == shootdown_target(self.online_mask, self.cpus@, sender, page_dir_phys),
                out@ == cands.subrange(0, cpu as int).filter(pred).map_values(|i: int| self.cpus@[i].apic_id as u8),
            decreases MAX_CPUS - cpu,
        {
            proof {
                lemma_filter_prefix_step(cands, cpu as int, pred);
            }
            let c = cpu as u32;
            let s = self.cpus[cpu];
            if self.online_mask & (1u32 << c) != 0 && cpu != sender && s.current_cr3 == page_dir_phys {
                out.push(s.apic_id as u8);
                proof {
                    let f = cands.subrange(0, cpu as int).filter(pred);
                    assert(f.push(cpu as int).map_values(|i: int| self.cpus@[i].apic_id as u8)
                        =~= f.map_values(|i: int| self.cpus@[i].apic_id as u8).push(s.apic_id as u8));
                }
            }
            cpu = cpu + 1;
        }
        proof {
            assert(cands.subrange(0, MAX_CPUS as int) =~= cands);
        }
        out
    }

    /// Record the boot order of the processors: the bootstrap CPU takes
    /// slot 0, every other reported CPU the next free slot while one is left.
    /// Returns the number of slots in use.
    pub fn assign_cpu_slots(&mut self, bsp_id: u8, ids: &[u8]) -> (r: usize)
        requires
            old(self).wf(),
        ensures
            final(self).wf(),
            r == spec_slot_ids(bsp_id, ids@).len(),
            forall|i: int| 0 <= i < r ==> (#[trigger] final(self).cpus@[i]).apic_id == spec_slot_ids(bsp_id, ids@)[i] as u32,
            forall|i: int| 0 <= i < MAX_CPUS ==> #[trigger] final(self).cpus@[i]
                == (CpuSlot { apic_id: final(self).cpus@[i].apic_id, ..old(self).cpus@[i] }),
            forall|i: int| r <= i < MAX_CPUS ==> #[trigger] final(self).cpus@[i] == old(self).cpus@[i],
            final(self).ap_online == old(self).ap_online,
            final(self).online_mask == old(self).online_mask,
            final(self).user_scheduling == old(self).user_scheduling,
    {
        let mut s0 = self.cpus[0];
        s0.apic_id = bsp_id as u32;
        self.cpus.set(0, s0);
        let mut logical: usize = 1;
        let mut k: usize = 0;
        let ghost pred = not_id(bsp_id);
        while k < ids.len()
            invariant
                0 <= k <= ids@.len(),
                1 <= logical <= MAX_CPUS,
                self.wf(),
                pred == not_id(bsp_id),
                logical == (if 1 + ids@.subrange(0, k as int).filter(pred).len() <= MAX_CPUS {
                    1 + ids@.subrange(0, k as int).filter(pred).len() as int
                } else {
                    MAX_CPUS as int
                }),
                self.cpus@[0].apic_id == bsp_id as u32,
                forall|i: int| 1 <= i < logical ==> (#[trigger] self.cpus@[i]).apic_id
                    == ids@.subrange(0, k as int).filter(pred)[i - 1] as u32,
                forall|i: int| 0 <= i < MAX_CPUS ==> #[trigger] self.cpus@[i]
                    == (CpuSlot { apic_id: self.cpus@[i].apic_id, ..old(self).cpus@[i] }),
                forall|i: int| logical <= i < MAX_CPUS ==> #[trigger] self.cpus@[i] == old(self).cpus@[i],
                self.ap_online == old(self).ap_online,
                self.online_mask == old(self).online_mask,
                self.user_scheduling == old(self).user_scheduling,
            decreases ids@.len() - k,
        {
            proof {
                lemma_filter_prefix_step(ids@, k as int, pred);
            }
            let id = ids[k];
            if id != bsp_id && logical < MAX_CPUS {
                let mut s = self.cpus[logical];
                s.apic_id = id as u32;
                self.cpus.set(logical, s);
                logical = logical + 1;
            }
            k = k + 1;
        }
        proof {
            assert(ids@.subrange(0, ids@.len() as int) =~= ids@);
            let f = ids@.filter(pred);
            let all = seq![bsp_id] + f;
            assert forall|i: int| 0 <= i < logical implies (#[trigger] self.cpus@[i]).apic_id == spec_slot_ids(bsp_id, ids@)[i] as u32 by {
                if i > 0 {
                    assert(all[i] == f[i - 1]);
                }
            }
        }
        logical
    }
}

/// CPU `i` must see a TLB shootdown for `page_dir_phys` sent by `sender`.
pub open spec fn shootdown_target(mask: u32, cpus: Seq<CpuSlot>, sender: usize, page_dir_phys: u32) -> spec_fn(int) -> bool {
    |i: int| cpu_online(mask, i) && i != sender && cpus[i].current_cr3 == page_dir_phys
}

/// The page-aligned address a shootdown flushes.
pub fn shootdown_page(page: u32) -> (r: u32)
    ensures
        r == page - page % 0x1000,
{
    assert(page & !0xfffu32 == page - page % 0x1000) by (bit_vector);
    page & !0xfffu32
}

/// One online CPU as the debug dump shows it.
#[derive(Debug, Clone, Copy)]
pub struct CpuDebugLine {
    pub cpu: usize,
    pub slot: CpuSlot,
    /// IF (bit 9) of the last interrupted EFLAGS.
    pub interrupts_on: bool,
    pub work_name: &'static str,
    pub work_progress: u32,
}

/// The F12 debug dump: global lock state and every online CPU in slot
/// order. It reads only recorded values, so it can be taken while another
/// CPU holds the kernel lock.
pub struct DebugSnapshot {
    pub jiffies: u64,
    pub kernel_locked: bool,
    pub user_scheduling: bool,
    pub lock_owner: u32,
    pub lock_ctx: u32,
    pub cpus: Vec<CpuDebugLine>,
}

/// Online slots below `n`, in order.
pub open spec fn online_slots(mask: u32, n: int) -> Seq<int>
    decreases n,
{
    if n <= 0 {
        Seq::empty()
    } else if cpu_online(mask, n - 1) {
        online_slots(mask, n - 1).push(n - 1)
    } else {
        online_slots(mask, n - 1)
    }
}

impl SmpState {
    /// Snapshot the processor table for the debug dump.
    pub fn debug_snapshot(&self, jiffies: u64, kernel_locked: bool, lock_owner: u32, lock_ctx: u32) -> (r: DebugSnapshot)
        requires
            self.wf(),
        ensures
            r.jiffies == jiffies && r.kernel_locked == kernel_locked && r.lock_owner == lock_owner
                && r.lock_ctx == lock_ctx,
            r.user_scheduling == self.user_scheduling,
            r.cpus@.len() == online_slots(self.online_mask, MAX_CPUS as int).len(),
            forall|k: int| 0 <= k < r.cpus@.len() ==> {
                let c = #[trigger] online_slots(self.online_mask, MAX_CPUS as int)[k];
                let line = r.cpus@[k];
                &&& line.cpu == c
                &&& line.slot == self.cpus@[c]
                &&& line.interrupts_on == ((self.cpus@[c].last_eflags / 512) % 2 == 1)
                &&& line.work_name@ == spec_work_name(self.cpus@[c].kernel_work / 0x100_0000)
                &&& line.work_progress == self.cpus@[c].kernel_work % 0x100_0000
            },
    {
        let mut cpus: Vec<CpuDebugLine> = Vec::new();
        let mut i: usize = 0;
        while i < MAX_CPUS
            invariant
                0 <= i <= MAX_CPUS,
                self.wf(),
                cpus@.len() == online_slots(self.online_mask, i as int).len(),
                forall|k: int| 0 <= k < cpus@.len() ==> {
                    let c = #[trigger] online_slots(self.online_mask, i as int)[k];
                    let line = cpus@[k];
                    &&& 0 <= c < i
                    &&& line.cpu == c
                    &&& line.slot == self.cpus@[c]
                    &&& line.interrupts_on == ((self.cpus@[c].last_eflags / 512) % 2 == 1)
                    &&& line.work_name@ == spec_work_name(self.cpus@[c].kernel_work / 0x100_0000)
                    &&& line.work_progress == self.cpus@[c].kernel_work % 0x100_0000
                },
            decreases MAX_CPUS - i,
        {
            let bit = 1u32 << (i as u32);
            let online = self.online_mask & bit != 0;
            if online {
                let slot = self.cpus[i];
                let line = CpuDebugLine {
                    cpu: i,
                    slot,
                    interrupts_on: (slot.last_eflags / 512) % 2 == 1,
                    work_name: kernel_work_name(slot.kernel_work / 0x100_0000),
                    work_progress: slot.kernel_work % 0x100_0000,
                };
                let ghost prev = online_slots(self.online_mask, i as int);
                cpus.push(line);
                proof {
                    assert(online_slots(self.online_mask, i + 1) == prev.push(i as int));
                }
            } else {
                proof {
                    assert(online_slots(self.online_mask, i + 1) == online_slots(self.online_mask, i as int));
                }
            }
            i = i + 1;
        }
        DebugSnapshot { jiffies, kernel_locked, user_scheduling: self.user_scheduling, lock_owner, lock_ctx, cpus }
    }
}


/// Checks of the online count an application processor gets to come up.
pub const AP_STARTUP_SPINS: u32 = 2_000_000;
/// Interrupt command: INIT, level assert.
pub const IPI_INIT_ASSERT: u32 = 0x0000_c500;
/// Interrupt command: INIT, level deassert.
pub const IPI_INIT_DEASSERT: u32 = 0x0000_8500;
/// Interrupt command: startup IPI into the trampoline page at 0x8000.
pub const IPI_STARTUP: u32 = 0x0000_0608;

/// Why the start-up of the application processors stopped.
#[derive(Clone, Copy, Debug, PartialEq, Eq, Structural)]
pub enum ApStopReason {
    /// Every slot in use was started.
    AllStarted,
    /// The APIC did not take the INIT command.
    InitTimedOut,
    /// The processor did not come online in time; later slots are not
    /// tried, as they would share its start-up parameters.
    StartupTimedOut,
}

/// Progress of starting the processors of slots `1..logical` in order.
#[derive(Clone, Copy, Debug, PartialEq, Eq, Structural)]
pub enum ApStart {
    /// Start `slot` next, once the online count is read.
    Next { slot: usize, logical: usize },
    /// INIT was sent to `slot`; `before` is the online count before it.
    InitSent { slot: usize, logical: usize, before: u32 },
    /// The startup IPI was sent to `slot`.
    StartupSent { slot: usize, logical: usize, before: u32 },
    /// Waiting for `slot` to come online; `spins` checks have failed.
    Waiting { slot: usize, logical: usize, before: u32, spins: u32 },
    /// Done: the processors of slots `1..slot` came online.
    Stopped { slot: usize, why: ApStopReason },
}

/// What the bootstrap processor reports.
#[derive(Clone, Copy, Debug, PartialEq, Eq, Structural)]
pub enum ApEvent {
    /// The online count, read before the next processor is started.
    Begin { online: u32 },
    /// Whether the APIC took the INIT command.
    InitDelivered(bool),
    /// The online count, read back.
    Online(u32),
}

/// What the bootstrap processor does next.
#[derive(Clone, Copy, Debug, PartialEq, Eq, Structural)]
pub enum ApAction {
    /// Read the online count and report it with `Begin`.
    ReadBefore,
    /// Put `slot`'s stack top in the start-up parameters, fence, then send
    /// `command` (INIT assert) to the processor.
    SendInit { slot: usize, command: u32 },
    /// Wait, send `deassert`, wait, send `startup`, wait; read the online
    /// count.
    SendStartup { slot: usize, deassert: u32, startup: u32 },
    /// Send `startup` once more, then read the online count.
    ResendStartup { slot: usize, startup: u32 },
    /// Spin once, then read the online count.
    ReadOnline,
    /// Stop starting processors.
    Finish,
    /// The event does not belong to this state: nothing to do.
    Ignore,
}

/// Slots stay within the slots in use, and a wait within its budget.
pub open spec fn ap_start_wf(st: ApStart) -> bool {
    match st {
        ApStart::Next { slot, logical } => slot <= logical <= MAX_CPUS,
        ApStart::InitSent { slot, logical, .. } => slot < logical <= MAX_CPUS,
        ApStart::StartupSent { slot, logical, .. } => slot < logical <= MAX_CPUS,
        ApStart::Waiting { slot, logical, spins, .. } => slot < logical <= MAX_CPUS && spins < AP_STARTUP_SPINS,
        ApStart::Stopped { .. } => true,
    }
}

/// One step of bringing up the application processors: INIT, then the
/// startup IPI, sent again when the processor is not online after it; the
/// processor is online once the online count passes what it was before the
/// INIT. A processor that is not online after [`AP_STARTUP_SPINS`] checks,
/// or an INIT the APIC does not take, ends the start-up.
pub fn ap_start_step(st: ApStart, ev: ApEvent) -> (r: (ApStart, ApAction))
    requires
        ap_start_wf(st),
    ensures
        ap_start_wf(r.0),
        match (st, ev) {
            (ApStart::Next { slot, logical }, ApEvent::Begin { online }) => if slot < logical {
                r == (
                    ApStart::InitSent { slot, logical, before: online },
                    ApAction::SendInit { slot, command: IPI_INIT_ASSERT },
                )
            } else {
                r == (ApStart::Stopped { slot, why: ApStopReason::AllStarted }, ApAction::Finish)
            },
            (ApStart::InitSent { slot, logical, before }, ApEvent::InitDelivered(ok)) => if ok {
                r == (
                    ApStart::StartupSent { slot, logical, before },
                    ApAction::SendStartup { slot, deassert: IPI_INIT_DEASSERT, startup: IPI_STARTUP },
                )
            } else {
                r == (ApStart::Stopped { slot, why: ApStopReason::InitTimedOut }, ApAction::Finish)
            },
            (ApStart::StartupSent { slot, logical, before }, ApEvent::Online(n)) => if n == before {
                r == (
                    ApStart::Waiting { slot, logical, before, spins: 0 },
                    ApAction::ResendStartup { slot, startup: IPI_STARTUP },
                )
            } else {
                r == (ApStart::Waiting { slot, logical, before, spins: 0 }, ApAction::ReadOnline)
            },
            (ApStart::Waiting { slot, logical, before, spins }, ApEvent::Online(n)) => if n > before {
                r == (ApStart::Next { slot: (slot + 1) as usize, logical }, ApAction::ReadBefore)
            } else if spins + 1 >= AP_STARTUP_SPINS {
                r == (ApStart::Stopped { slot, why: ApStopReason::StartupTimedOut }, ApAction::Finish)
            } else {
                r == (ApStart::Waiting { slot, logical, before, spins: (spins + 1) as u32 }, ApAction::ReadOnline)
            },
            _ => r == (st, ApAction::Ignore),
        },
{
    match (st, ev) {
        (ApStart::Next { slot, logical }, ApEvent::Begin { online }) => {
            if slot < logical {
                (ApStart::InitSent { slot, logical, before: online }, ApAction::SendInit { slot, command: IPI_INIT_ASSERT })
            } else {
                (ApStart::Stopped { slot, why: ApStopReason::AllStarted }, ApAction::Finish)
            }
        },
        (ApStart::InitSent { slot, logical, before }, ApEvent::InitDelivered(ok)) => {
            if ok {
                (
                    ApStart::StartupSent { slot, logical, before },
                    ApAction::SendStartup { slot, deassert: IPI_INIT_DEASSERT, startup: IPI_STARTUP },
                )
            } else {
                (ApStart::Stopped { slot, why: ApStopReason::InitTimedOut }, ApAction::Finish)
            }
        },
        (ApStart::StartupSent { slot, logical, before }, ApEvent::Online(n)) => {
            if n == before {
                (ApStart::Waiting { slot, logical, before, spins: 0 }, ApAction::ResendStartup { slot, startup: IPI_STARTUP })
            } else {
                (ApStart::Waiting { slot, logical, before, spins: 0 }, ApAction::ReadOnline)
            }
        },
        (ApStart::Waiting { slot, logical, before, spins }, ApEvent::Online(n)) => {
            if n > before {
                (ApStart::Next { slot: slot + 1, logical }, ApAction::ReadBefore)
            } else if spins + 1 >= AP_STARTUP_SPINS {
                (ApStart::Stopped { slot, why: ApStopReason::StartupTimedOut }, ApAction::Finish)
            } else {
                (ApStart::Waiting { slot, logical, before, spins: spins + 1 }, ApAction::ReadOnline)
            }
        },
        _ => (st, ApAction::Ignore),
    }
}

} // verus!
