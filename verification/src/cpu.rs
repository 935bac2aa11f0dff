//! CPU contexts: the register file of each CPU, its run state, and the
//! handles through which the host reaches it.

use crate::hook::attached_len;
use std::collections::HashMap;
use vstd::prelude::*;

verus! {

broadcast use vstd::std_specs::hash::group_hash_axioms;

/// A segment register: the selector and the descriptor that was loaded with
/// it.
#[derive(Clone, Copy, Debug, PartialEq, Eq, Structural)]
pub struct Seg {
    pub present: bool,
    pub selector: u16,
    pub base: u64,
    pub limit: u32,
    pub attr: u16,
}

/// A descriptor-table register.
#[derive(Clone, Copy, Debug, PartialEq, Eq, Structural)]
pub struct GlobalSeg {
    pub base: u64,
    pub limit: u16,
}

/// A vector register, as eight 64-bit lanes from the lowest up.
#[derive(Clone, Copy, Debug, PartialEq, Eq)]
pub struct Zmm {
    pub q: [u64; 8],
}

/// A register of the x87 stack, as its raw bits.
#[derive(Clone, Copy, Debug, PartialEq, Eq, Structural)]
pub struct Float80 {
    pub fraction: u64,
    pub exp: u16,
}

#[allow(non_camel_case_types)]
pub type bochscpu_cpu_state_t = State;

#[allow(non_camel_case_types)]
pub type bochscpu_cpu_seg_t = Seg;

#[allow(non_camel_case_types)]
pub type bochscpu_cpu_global_seg_t = GlobalSeg;

#[allow(non_camel_case_types)]
pub type bochscpu_cpu_zmm_t = Zmm;

/// Number of vector registers.
pub const ZMM_COUNT: usize = 32;

/// Number of registers of the x87 stack.
pub const FPST_COUNT: usize = 8;

/// The register file of one CPU.
#[derive(Clone, Copy, Debug, PartialEq, Eq)]
pub struct State {
    pub bochscpu_seed: u64,
    pub rax: u64,
    pub rcx: u64,
    pub rdx: u64,
    pub rbx: u64,
    pub rsp: u64,
    pub rbp: u64,
    pub rsi: u64,
    pub rdi: u64,
    pub r8: u64,
    pub r9: u64,
    pub r10: u64,
    pub r11: u64,
    pub r12: u64,
    pub r13: u64,
    pub r14: u64,
    pub r15: u64,
    pub rip: u64,
    pub rflags: u64,
    pub es: Seg,
    pub cs: Seg,
    pub ss: Seg,
    pub ds: Seg,
    pub fs: Seg,
    pub gs: Seg,
    pub ldtr: Seg,
    pub tr: Seg,
    pub gdtr: GlobalSeg,
    pub idtr: GlobalSeg,
    pub cr0: u32,
    pub cr2: u64,
    pub cr3: u64,
    pub cr4: u32,
    pub cr8: u64,
    pub dr0: u64,
    pub dr1: u64,
    pub dr2: u64,
    pub dr3: u64,
    pub dr6: u32,
    pub dr7: u32,
    pub xcr0: u32,
    pub zmm: [Zmm; 32],
    pub fpcw: u16,
    pub fpsw: u16,
    pub fptw: u16,
    pub fpop: u16,
    pub fpst: [Float80; 8],
    pub mxcsr: u32,
    pub mxcsr_mask: u32,
    pub tsc: u64,
    pub efer: u32,
    pub kernel_gs_base: u64,
    pub apic_base: u64,
    pub pat: u64,
    pub sysenter_cs: u64,
    pub sysenter_eip: u64,
    pub sysenter_esp: u64,
    pub star: u64,
    pub lstar: u64,
    pub cstar: u64,
    pub sfmask: u64,
    pub tsc_aux: u64,
}

/// Where a CPU is in its life between two calls and inside a run.
#[derive(Clone, Copy, Debug, PartialEq, Eq, Structural)]
pub enum RunState {
    /// Not executing. A run starts here and ends here.
    Stopped,
    /// Executing instructions.
    Running,
    /// The guest has halted; the run ends at the next instruction boundary.
    Halted,
}

/// An exception that is to be delivered to the guest.
#[derive(Clone, Copy, Debug, PartialEq, Eq, Structural)]
pub struct PendingException {
    pub vector: u32,
    pub error: Option<u16>,
}

/// One CPU of the emulator.
#[derive(Clone, Copy, Debug, PartialEq, Eq)]
pub struct CpuContext {
    pub state: State,
    pub run_state: RunState,
    /// A stop was asked for during this run and has not been observed yet.
    pub stop_requested: bool,
    /// How often state that the CPU derives from its registers was
    /// invalidated.
    pub flushes: u64,
    pub exception: Option<PendingException>,
}

/// The count of invalidations after one more; it stays at the largest number
/// once it is reached.
pub open spec fn flushed(flushes: u64) -> u64 {
    if flushes < u64::MAX {
        (flushes + 1) as u64
    } else {
        flushes
    }
}

fn count_flush(flushes: u64) -> (r: u64)
    ensures
        r == flushed(flushes),
{
    if flushes < u64::MAX {
        flushes + 1
    } else {
        flushes
    }
}

/// A segment register after reset.
pub open spec fn spec_reset_seg(selector: u16, base: u64, attr: u16) -> Seg {
    Seg { present: true, selector, base, limit: 0xffff, attr }
}

#[verifier::when_used_as_spec(spec_reset_seg)]
fn reset_seg(selector: u16, base: u64, attr: u16) -> (s: Seg)
    ensures
        s == spec_reset_seg(selector, base, attr),
{
    Seg { present: true, selector, base, limit: 0xffff, attr }
}

/// The register file after reset: execution starts sixteen bytes below the
/// top of the first four gigabytes, in real mode, with every segment 64
/// kilobytes long. What the architecture leaves to the model of the CPU is
/// zero.
pub open spec fn spec_reset_state() -> State {
    State {
        bochscpu_seed: 0,
        rax: 0,
        rcx: 0,
        rdx: 0,
        rbx: 0,
        rsp: 0,
        rbp: 0,
        rsi: 0,
        rdi: 0,
        r8: 0,
        r9: 0,
        r10: 0,
        r11: 0,
        r12: 0,
        r13: 0,
        r14: 0,
        r15: 0,
        rip: 0xfff0,
        rflags: 0x2,
        es: spec_reset_seg(0, 0, 0x93),
        cs: spec_reset_seg(0xf000, 0xffff_0000, 0x9b),
        ss: spec_reset_seg(0, 0, 0x93),
        ds: spec_reset_seg(0, 0, 0x93),
        fs: spec_reset_seg(0, 0, 0x93),
        gs: spec_reset_seg(0, 0, 0x93),
        ldtr: spec_reset_seg(0, 0, 0x82),
        tr: spec_reset_seg(0, 0, 0x8b),
        gdtr: GlobalSeg { base: 0, limit: 0xffff },
        idtr: GlobalSeg { base: 0, limit: 0xffff },
        cr0: 0x6000_0010,
        cr2: 0,
        cr3: 0,
        cr4: 0,
        cr8: 0,
        dr0: 0,
        dr1: 0,
        dr2: 0,
        dr3: 0,
        dr6: 0xffff_0ff0,
        dr7: 0x400,
        xcr0: 1,
        zmm: vstd::array::spec_array_fill_for_copy_type::<Zmm, 32>(
            Zmm { q: vstd::array::spec_array_fill_for_copy_type::<u64, 8>(0) },
        ),
        fpcw: 0x40,
        fpsw: 0,
        fptw: 0x5555,
        fpop: 0,
        fpst: vstd::array::spec_array_fill_for_copy_type::<Float80, 8>(
            Float80 { fraction: 0, exp: 0 },
        ),
        mxcsr: 0x1f80,
        mxcsr_mask: 0,
        tsc: 0,
        efer: 0,
        kernel_gs_base: 0,
        apic_base: 0,
        pat: 0,
        sysenter_cs: 0,
        sysenter_eip: 0,
        sysenter_esp: 0,
        star: 0,
        lstar: 0,
        cstar: 0,
        sfmask: 0,
        tsc_aux: 0,
    }
}

#[verifier::when_used_as_spec(spec_reset_state)]
pub fn reset_state() -> (s: State)
    ensures
        s == spec_reset_state(),
{
    State {
        bochscpu_seed: 0,
        rax: 0,
        rcx: 0,
        rdx: 0,
        rbx: 0,
        rsp: 0,
        rbp: 0,
        rsi: 0,
        rdi: 0,
        r8: 0,
        r9: 0,
        r10: 0,
        r11: 0,
        r12: 0,
        r13: 0,
        r14: 0,
        r15: 0,
        rip: 0xfff0,
        rflags: 0x2,
        es: reset_seg(0, 0, 0x93),
        cs: reset_seg(0xf000, 0xffff_0000, 0x9b),
        ss: reset_seg(0, 0, 0x93),
        ds: reset_seg(0, 0, 0x93),
        fs: reset_seg(0, 0, 0x93),
        gs: reset_seg(0, 0, 0x93),
        ldtr: reset_seg(0, 0, 0x82),
        tr: reset_seg(0, 0, 0x8b),
        gdtr: GlobalSeg { base: 0, limit: 0xffff },
        idtr: GlobalSeg { base: 0, limit: 0xffff },
        cr0: 0x6000_0010,
        cr2: 0,
        cr3: 0,
        cr4: 0,
        cr8: 0,
        dr0: 0,
        dr1: 0,
        dr2: 0,
        dr3: 0,
        dr6: 0xffff_0ff0,
        dr7: 0x400,
        xcr0: 1,
        zmm: [Zmm { q: [0u64; 8] }; 32],
        fpcw: 0x40,
        fpsw: 0,
        fptw: 0x5555,
        fpop: 0,
        fpst: [Float80 { fraction: 0, exp: 0 }; 8],
        mxcsr: 0x1f80,
        mxcsr_mask: 0,
        tsc: 0,
        efer: 0,
        kernel_gs_base: 0,
        apic_base: 0,
        pat: 0,
        sysenter_cs: 0,
        sysenter_eip: 0,
        sysenter_esp: 0,
        star: 0,
        lstar: 0,
        cstar: 0,
        sfmask: 0,
        tsc_aux: 0,
    }
}

/// A CPU as `bochscpu_cpu_new` makes it: reset, stopped, with nothing
/// pending.
pub open spec fn spec_fresh_cpu() -> CpuContext {
    CpuContext {
        state: spec_reset_state(),
        run_state: RunState::Stopped,
        stop_requested: false,
        flushes: 0,
        exception: None,
    }
}

#[verifier::when_used_as_spec(spec_fresh_cpu)]
pub fn fresh_cpu() -> (c: CpuContext)
    ensures
        c == spec_fresh_cpu(),
{
    CpuContext {
        state: reset_state(),
        run_state: RunState::Stopped,
        stop_requested: false,
        flushes: 0,
        exception: None,
    }
}

/// A CPU whose register file has been replaced by `s`, with or without
/// invalidating what it derives from its registers.
pub open spec fn with_state(c: CpuContext, s: State, flush: bool) -> CpuContext {
    CpuContext {
        state: s,
        flushes: if flush {
            flushed(c.flushes)
        } else {
            c.flushes
        },
        ..c
    }
}

/// A CPU at the start of a run. A stop that was asked for earlier is
/// forgotten.
pub open spec fn started(c: CpuContext) -> CpuContext {
    CpuContext { run_state: RunState::Running, stop_requested: false, ..c }
}

/// A CPU after a stop was asked for. Outside a run there is nothing to stop.
pub open spec fn stop_asked(c: CpuContext) -> CpuContext {
    if c.run_state == RunState::Stopped {
        c
    } else {
        CpuContext { stop_requested: true, ..c }
    }
}

/// A CPU after the guest executed a halt.
pub open spec fn halted(c: CpuContext) -> CpuContext {
    if c.run_state == RunState::Running {
        CpuContext { run_state: RunState::Halted, ..c }
    } else {
        c
    }
}

/// Whether a run goes on behind an instruction boundary: it does until the
/// guest has halted or a stop was asked for.
pub open spec fn goes_on(c: CpuContext) -> bool {
    c.run_state == RunState::Running && !c.stop_requested
}

/// A CPU behind an instruction boundary: the run has ended, and the request
/// that ended it is used up, unless the run goes on.
pub open spec fn at_boundary(c: CpuContext) -> CpuContext {
    if goes_on(c) {
        c
    } else {
        CpuContext { run_state: RunState::Stopped, stop_requested: false, ..c }
    }
}

/// The host's handle to one CPU.
#[allow(non_camel_case_types)]
#[derive(Debug, PartialEq, Eq)]
pub struct bochscpu_cpu_t {
    pub id: u32,
}

/// The CPUs of the emulator, by their id.
pub struct Emulator {
    cpus: HashMap<u32, CpuContext>,
}

impl View for Emulator {
    type V = Map<u32, CpuContext>;

    closed spec fn view(&self) -> Map<u32, CpuContext> {
        self.cpus@
    }
}

impl Emulator {
    /// An emulator without a CPU.
    pub fn new() -> (emu: Emulator)
        ensures
            emu@ == Map::<u32, CpuContext>::empty(),
    {
        Emulator { cpus: HashMap::new() }
    }

    /// The CPU behind a handle exists.
    pub open spec fn alive(&self, p: &bochscpu_cpu_t) -> bool {
        self@.contains_key(p.id)
    }

    /// Whether the CPU behind a handle exists.
    pub fn is_alive(&self, p: &bochscpu_cpu_t) -> (b: bool)
        ensures
            b == self.alive(p),
    {
        self.cpus.contains_key(&p.id)
    }

    /// The CPU with the id `id`.
    pub fn cpu(&self, id: u32) -> (c: CpuContext)
        requires
            self@.contains_key(id),
        ensures
            c == self@[id],
    {
        match self.cpus.get(&id) {
            Some(c) => *c,
            None => fresh_cpu(),
        }
    }

    fn put(&mut self, id: u32, c: CpuContext)
        ensures
            final(self)@ == old(self)@.insert(id, c),
    {
        self.cpus.insert(id, c);
    }

    fn set_regs(&mut self, id: u32, s: State, flush: bool)
        requires
            old(self)@.contains_key(id),
        ensures
            final(self)@ == old(self)@.insert(id, with_state(old(self)@[id], s, flush)),
    {
        let mut c = self.cpu(id);
        c.state = s;
        if flush {
            c.flushes = count_flush(c.flushes);
        }
        self.put(id, c);
    }

    /// The guest executed a halt: the run ends at the next instruction
    /// boundary.
    pub fn halt(&mut self, p: &bochscpu_cpu_t)
        requires
            old(self).alive(p),
        ensures
            final(self)@ == old(self)@.insert(p.id, halted(old(self)@[p.id])),
    {
        let mut c = self.cpu(p.id);
        if c.run_state == RunState::Running {
            c.run_state = RunState::Halted;
        }
        self.put(p.id, c);
    }

    /// An instruction boundary was reached. Tells whether the run goes on;
    /// where it does not, the CPU is stopped and the request that ended the
    /// run is used up.
    pub fn boundary(&mut self, p: &bochscpu_cpu_t) -> (on: bool)
        requires
            old(self).alive(p),
        ensures
            on == goes_on(old(self)@[p.id]),
            final(self)@ == old(self)@.insert(p.id, at_boundary(old(self)@[p.id])),
    {
        let mut c = self.cpu(p.id);
        let on = c.run_state == RunState::Running && !c.stop_requested;
        if !on {
            c.run_state = RunState::Stopped;
            c.stop_requested = false;
        }
        self.put(p.id, c);
        on
    }
}

/// Creates the CPU with the id `id`, reset and stopped, and a handle to it. A
/// CPU that had the id before is replaced.
pub fn bochscpu_cpu_new(emu: &mut Emulator, id: u32) -> (p: bochscpu_cpu_t)
    ensures
        p.id == id,
        final(emu)@ == old(emu)@.insert(id, spec_fresh_cpu()),
{
    emu.put(id, fresh_cpu());
    bochscpu_cpu_t { id }
}

/// A handle to the CPU that exists under the id `id`. The CPU is not
/// touched.
pub fn bochscpu_cpu_from(id: u32) -> (p: bochscpu_cpu_t)
    ensures
        p.id == id,
{
    bochscpu_cpu_t { id }
}

/// Gives up a handle and leaves its CPU as it is. The id that is handed back
/// is the one under which the CPU can be reached again.
pub fn bochscpu_cpu_forget(p: bochscpu_cpu_t) -> (id: u32)
    ensures
        id == p.id,
{
    p.id
}

/// Gives up a handle and removes its CPU from the emulator.
pub fn bochscpu_cpu_delete(emu: &mut Emulator, p: bochscpu_cpu_t)
    ensures
        final(emu)@ == old(emu)@.remove(p.id),
{
    emu.cpus.remove(&p.id);
}

/// Invalidates what the CPU derives from its registers, its mode among it, so
/// that it is derived anew. The registers stay.
pub fn bochscpu_cpu_set_mode(emu: &mut Emulator, p: &bochscpu_cpu_t)
    requires
        old(emu).alive(p),
    ensures
        final(emu)@ == old(emu)@.insert(
            p.id,
            with_state(old(emu)@[p.id], old(emu)@[p.id].state, true),
        ),
{
    let regs = emu.cpu(p.id).state;
    emu.set_regs(p.id, regs, true);
}

/// Starts a run. The tables whose addresses stand in `tables` before its
/// first null are attached, in that order, and handed back; a stop that was
/// asked for before the run is forgotten.
pub fn bochscpu_cpu_run(emu: &mut Emulator, p: &bochscpu_cpu_t, tables: &[usize]) -> (chain: Vec<
    usize,
>)
    requires
        old(emu).alive(p),
        old(emu)@[p.id].run_state == RunState::Stopped,
    ensures
        final(emu)@ == old(emu)@.insert(p.id, started(old(emu)@[p.id])),
        chain@ == tables@.take(attached_len(tables@) as int),
{
    let mut c = emu.cpu(p.id);
    c.run_state = RunState::Running;
    c.stop_requested = false;
    emu.put(p.id, c);
    let n: usize = crate::hook::attached(tables);
    vstd::slice::slice_to_vec(vstd::slice::slice_subrange(tables, 0, n))
}

/// Asks a running CPU to stop. The request is observed at the next
/// instruction boundary; outside a run it is dropped.
pub fn bochscpu_cpu_stop(emu: &mut Emulator, p: &bochscpu_cpu_t)
    requires
        old(emu).alive(p),
    ensures
        final(emu)@ == old(emu)@.insert(p.id, stop_asked(old(emu)@[p.id])),
{
    let mut c = emu.cpu(p.id);
    if c.run_state != RunState::Stopped {
        c.stop_requested = true;
    }
    emu.put(p.id, c);
}

/// Copies the register file of the CPU to `s`.
pub fn bochscpu_cpu_state(emu: &Emulator, p: &bochscpu_cpu_t, s: &mut bochscpu_cpu_state_t)
    requires
        emu.alive(p),
    ensures
        *final(s) == emu@[p.id].state,
{
    *s = emu.cpu(p.id).state;
}

/// Replaces the register file of the CPU by `s` and invalidates what the CPU
/// derives from its registers.
pub fn bochscpu_cpu_set_state(
    emu: &mut Emulator,
    p: &bochscpu_cpu_t,
    s: &bochscpu_cpu_state_t,
)
    requires
        old(emu).alive(p),
    ensures
        final(emu)@ == old(emu)@.insert(p.id, with_state(old(emu)@[p.id], *s, true)),
{
    emu.set_regs(p.id, *s, true);
}

/// Replaces the register file of the CPU by `s` and invalidates nothing.
pub fn bochscpu_cpu_set_state_no_flush(
    emu: &mut Emulator,
    p: &bochscpu_cpu_t,
    s: &bochscpu_cpu_state_t,
)
    requires
        old(emu).alive(p),
    ensures
        final(emu)@ == old(emu)@.insert(p.id, with_state(old(emu)@[p.id], *s, false)),
{
    emu.set_regs(p.id, *s, false);
}

/// Leaves an exception with an error code for the CPU to deliver.
pub fn bochscpu_cpu_set_exception(emu: &mut Emulator, p: &bochscpu_cpu_t, vector: u32, error: u16)
    requires
        old(emu).alive(p),
    ensures
        final(emu)@ == old(emu)@.insert(
            p.id,
            (CpuContext {
                exception: Some(PendingException { vector, error: Some(error) }),
                ..old(emu)@[p.id]
            }),
        ),
{
    let mut c = emu.cpu(p.id);
    c.exception = Some(PendingException { vector, error: Some(error) });
    emu.put(p.id, c);
}

pub fn bochscpu_cpu_rax(emu: &Emulator, p: &bochscpu_cpu_t) -> (val: u64)
    requires
        emu.alive(p),
    ensures
        val == emu@[p.id].state.rax,
{
    emu.cpu(p.id).state.rax
}

pub fn bochscpu_cpu_set_rax(emu: &mut Emulator, p: &bochscpu_cpu_t, val: u64)
    requires
        old(emu).alive(p),
    ensures
        final(emu)@ == old(emu)@.insert(
            p.id,
            with_state(old(emu)@[p.id], (State { rax: val, ..old(emu)@[p.id].state }), false),
        ),
{
    let mut s = emu.cpu(p.id).state;
    s.rax = val;
    emu.set_regs(p.id, s, false);
}

pub fn bochscpu_cpu_rcx(emu: &Emulator, p: &bochscpu_cpu_t) -> (val: u64)
    requires
        emu.alive(p),
    ensures
        val == emu@[p.id].state.rcx,
{
    emu.cpu(p.id).state.rcx
}

pub fn bochscpu_cpu_set_rcx(emu: &mut Emulator, p: &bochscpu_cpu_t, val: u64)
    requires
        old(emu).alive(p),
    ensures
        final(emu)@ == old(emu)@.insert(
            p.id,
            with_state(old(emu)@[p.id], (State { rcx: val, ..old(emu)@[p.id].state }), false),
        ),
{
    let mut s = emu.cpu(p.id).state;
    s.rcx = val;
    emu.set_regs(p.id, s, false);
}

pub fn bochscpu_cpu_rdx(emu: &Emulator, p: &bochscpu_cpu_t) -> (val: u64)
    requires
        emu.alive(p),
    ensures
        val == emu@[p.id].state.rdx,
{
    emu.cpu(p.id).state.rdx
}

pub fn bochscpu_cpu_set_rdx(emu: &mut Emulator, p: &bochscpu_cpu_t, val: u64)
    requires
        old(emu).alive(p),
    ensures
        final(emu)@ == old(emu)@.insert(
            p.id,
            with_state(old(emu)@[p.id], (State { rdx: val, ..old(emu)@[p.id].state }), false),
        ),
{
    let mut s = emu.cpu(p.id).state;
    s.rdx = val;
    emu.set_regs(p.id, s, false);
}

pub fn bochscpu_cpu_rbx(emu: &Emulator, p: &bochscpu_cpu_t) -> (val: u64)
    requires
        emu.alive(p),
    ensures
        val == emu@[p.id].state.rbx,
{
    emu.cpu(p.id).state.rbx
}

pub fn bochscpu_cpu_set_rbx(emu: &mut Emulator, p: &bochscpu_cpu_t, val: u64)
    requires
        old(emu).alive(p),
    ensures
        final(emu)@ == old(emu)@.insert(
            p.id,
            with_state(old(emu)@[p.id], (State { rbx: val, ..old(emu)@[p.id].state }), false),
        ),
{
    let mut s = emu.cpu(p.id).state;
    s.rbx = val;
    emu.set_regs(p.id, s, false);
}

pub fn bochscpu_cpu_rsp(emu: &Emulator, p: &bochscpu_cpu_t) -> (val: u64)
    requires
        emu.alive(p),
    ensures
        val == emu@[p.id].state.rsp,
{
    emu.cpu(p.id).state.rsp
}

pub fn bochscpu_cpu_set_rsp(emu: &mut Emulator, p: &bochscpu_cpu_t, val: u64)
    requires
        old(emu).alive(p),
    ensures
        final(emu)@ == old(emu)@.insert(
            p.id,
            with_state(old(emu)@[p.id], (State { rsp: val, ..old(emu)@[p.id].state }), false),
        ),
{
    let mut s = emu.cpu(p.id).state;
    s.rsp = val;
    emu.set_regs(p.id, s, false);
}

pub fn bochscpu_cpu_rbp(emu: &Emulator, p: &bochscpu_cpu_t) -> (val: u64)
    requires
        emu.alive(p),
    ensures
        val == emu@[p.id].state.rbp,
{
    emu.cpu(p.id).state.rbp
}

pub fn bochscpu_cpu_set_rbp(emu: &mut Emulator, p: &bochscpu_cpu_t, val: u64)
    requires
        old(emu).alive(p),
    ensures
        final(emu)@ == old(emu)@.insert(
            p.id,
            with_state(old(emu)@[p.id], (State { rbp: val, ..old(emu)@[p.id].state }), false),
        ),
{
    let mut s = emu.cpu(p.id).state;
    s.rbp = val;
    emu.set_regs(p.id, s, false);
}

pub fn bochscpu_cpu_rsi(emu: &Emulator, p: &bochscpu_cpu_t) -> (val: u64)
    requires
        emu.alive(p),
    ensures
        val == emu@[p.id].state.rsi,
{
    emu.cpu(p.id).state.rsi
}

pub fn bochscpu_cpu_set_rsi(emu: &mut Emulator, p: &bochscpu_cpu_t, val: u64)
    requires
        old(emu).alive(p),
    ensures
        final(emu)@ == old(emu)@.insert(
            p.id,
            with_state(old(emu)@[p.id], (State { rsi: val, ..old(emu)@[p.id].state }), false),
        ),
{
    let mut s = emu.cpu(p.id).state;
    s.rsi = val;
    emu.set_regs(p.id, s, false);
}

pub fn bochscpu_cpu_rdi(emu: &Emulator, p: &bochscpu_cpu_t) -> (val: u64)
    requires
        emu.alive(p),
    ensures
        val == emu@[p.id].state.rdi,
{
    emu.cpu(p.id).state.rdi
}

pub fn bochscpu_cpu_set_rdi(emu: &mut Emulator, p: &bochscpu_cpu_t, val: u64)
    requires
        old(emu).alive(p),
    ensures
        final(emu)@ == old(emu)@.insert(
            p.id,
            with_state(old(emu)@[p.id], (State { rdi: val, ..old(emu)@[p.id].state }), false),
        ),
{
    let mut s = emu.cpu(p.id).state;
    s.rdi = val;
    emu.set_regs(p.id, s, false);
}

pub fn bochscpu_cpu_r8(emu: &Emulator, p: &bochscpu_cpu_t) -> (val: u64)
    requires
        emu.alive(p),
    ensures
        val == emu@[p.id].state.r8,
{
    emu.cpu(p.id).state.r8
}

pub fn bochscpu_cpu_set_r8(emu: &mut Emulator, p: &bochscpu_cpu_t, val: u64)
    requires
        old(emu).alive(p),
    ensures
        final(emu)@ == old(emu)@.insert(
            p.id,
            with_state(old(emu)@[p.id], (State { r8: val, ..old(emu)@[p.id].state }), false),
        ),
{
    let mut s = emu.cpu(p.id).state;
    s.r8 = val;
    emu.set_regs(p.id, s, false);
}

pub fn bochscpu_cpu_r9(emu: &Emulator, p: &bochscpu_cpu_t) -> (val: u64)
    requires
        emu.alive(p),
    ensures
        val == emu@[p.id].state.r9,
{
    emu.cpu(p.id).state.r9
}

pub fn bochscpu_cpu_set_r9(emu: &mut Emulator, p: &bochscpu_cpu_t, val: u64)
    requires
        old(emu).alive(p),
    ensures
        final(emu)@ == old(emu)@.insert(
            p.id,
            with_state(old(emu)@[p.id], (State { r9: val, ..old(emu)@[p.id].state }), false),
        ),
{
    let mut s = emu.cpu(p.id).state;
    s.r9 = val;
    emu.set_regs(p.id, s, false);
}

pub fn bochscpu_cpu_r10(emu: &Emulator, p: &bochscpu_cpu_t) -> (val: u64)
    requires
        emu.alive(p),
    ensures
        val == emu@[p.id].state.r10,
{
    emu.cpu(p.id).state.r10
}

pub fn bochscpu_cpu_set_r10(emu: &mut Emulator, p: &bochscpu_cpu_t, val: u64)
    requires
        old(emu).alive(p),
    ensures
        final(emu)@ == old(emu)@.insert(
            p.id,
            with_state(old(emu)@[p.id], (State { r10: val, ..old(emu)@[p.id].state }), false),
        ),
{
    let mut s = emu.cpu(p.id).state;
    s.r10 = val;
    emu.set_regs(p.id, s, false);
}

pub fn bochscpu_cpu_r11(emu: &Emulator, p: &bochscpu_cpu_t) -> (val: u64)
    requires
        emu.alive(p),
    ensures
        val == emu@[p.id].state.r11,
{
    emu.cpu(p.id).state.r11
}

pub fn bochscpu_cpu_set_r11(emu: &mut Emulator, p: &bochscpu_cpu_t, val: u64)
    requires
        old(emu).alive(p),
    ensures
        final(emu)@ == old(emu)@.insert(
            p.id,
            with_state(old(emu)@[p.id], (State { r11: val, ..old(emu)@[p.id].state }), false),
        ),
{
    let mut s = emu.cpu(p.id).state;
    s.r11 = val;
    emu.set_regs(p.id, s, false);
}

pub fn bochscpu_cpu_r12(emu: &Emulator, p: &bochscpu_cpu_t) -> (val: u64)
    requires
        emu.alive(p),
    ensures
        val == emu@[p.id].state.r12,
{
    emu.cpu(p.id).state.r12
}

pub fn bochscpu_cpu_set_r12(emu: &mut Emulator, p: &bochscpu_cpu_t, val: u64)
    requires
        old(emu).alive(p),
    ensures
        final(emu)@ == old(emu)@.insert(
            p.id,
            with_state(old(emu)@[p.id], (State { r12: val, ..old(emu)@[p.id].state }), false),
        ),
{
    let mut s = emu.cpu(p.id).state;
    s.r12 = val;
    emu.set_regs(p.id, s, false);
}

pub fn bochscpu_cpu_r13(emu: &Emulator, p: &bochscpu_cpu_t) -> (val: u64)
    requires
        emu.alive(p),
    ensures
        val == emu@[p.id].state.r13,
{
    emu.cpu(p.id).state.r13
}

pub fn bochscpu_cpu_set_r13(emu: &mut Emulator, p: &bochscpu_cpu_t, val: u64)
    requires
        old(emu).alive(p),
    ensures
        final(emu)@ == old(emu)@.insert(
            p.id,
            with_state(old(emu)@[p.id], (State { r13: val, ..old(emu)@[p.id].state }), false),
        ),
{
    let mut s = emu.cpu(p.id).state;
    s.r13 = val;
    emu.set_regs(p.id, s, false);
}

pub fn bochscpu_cpu_r14(emu: &Emulator, p: &bochscpu_cpu_t) -> (val: u64)
    requires
        emu.alive(p),
    ensures
        val == emu@[p.id].state.r14,
{
    emu.cpu(p.id).state.r14
}

pub fn bochscpu_cpu_set_r14(emu: &mut Emulator, p: &bochscpu_cpu_t, val: u64)
    requires
        old(emu).alive(p),
    ensures
        final(emu)@ == old(emu)@.insert(
            p.id,
            with_state(old(emu)@[p.id], (State { r14: val, ..old(emu)@[p.id].state }), false),
        ),
{
    let mut s = emu.cpu(p.id).state;
    s.r14 = val;
    emu.set_regs(p.id, s, false);
}

pub fn bochscpu_cpu_r15(emu: &Emulator, p: &bochscpu_cpu_t) -> (val: u64)
    requires
        emu.alive(p),
    ensures
        val == emu@[p.id].state.r15,
{
    emu.cpu(p.id).state.r15
}

pub fn bochscpu_cpu_set_r15(emu: &mut Emulator, p: &bochscpu_cpu_t, val: u64)
    requires
        old(emu).alive(p),
    ensures
        final(emu)@ == old(emu)@.insert(
            p.id,
            with_state(old(emu)@[p.id], (State { r15: val, ..old(emu)@[p.id].state }), false),
        ),
{
    let mut s = emu.cpu(p.id).state;
    s.r15 = val;
    emu.set_regs(p.id, s, false);
}

pub fn bochscpu_cpu_rip(emu: &Emulator, p: &bochscpu_cpu_t) -> (val: u64)
    requires
        emu.alive(p),
    ensures
        val == emu@[p.id].state.rip,
{
    emu.cpu(p.id).state.rip
}

pub fn bochscpu_cpu_set_rip(emu: &mut Emulator, p: &bochscpu_cpu_t, val: u64)
    requires
        old(emu).alive(p),
    ensures
        final(emu)@ == old(emu)@.insert(
            p.id,
            with_state(old(emu)@[p.id], (State { rip: val, ..old(emu)@[p.id].state }), false),
        ),
{
    let mut s = emu.cpu(p.id).state;
    s.rip = val;
    emu.set_regs(p.id, s, false);
}

pub fn bochscpu_cpu_rflags(emu: &Emulator, p: &bochscpu_cpu_t) -> (val: u64)
    requires
        emu.alive(p),
    ensures
        val == emu@[p.id].state.rflags,
{
    emu.cpu(p.id).state.rflags
}

pub fn bochscpu_cpu_set_rflags(emu: &mut Emulator, p: &bochscpu_cpu_t, val: u64)
    requires
        old(emu).alive(p),
    ensures
        final(emu)@ == old(emu)@.insert(
            p.id,
            with_state(old(emu)@[p.id], (State { rflags: val, ..old(emu)@[p.id].state }), false),
        ),
{
    let mut s = emu.cpu(p.id).state;
    s.rflags = val;
    emu.set_regs(p.id, s, false);
}

pub fn bochscpu_cpu_es(emu: &Emulator, p: &bochscpu_cpu_t, s: &mut bochscpu_cpu_seg_t)
    requires
        emu.alive(p),
    ensures
        *final(s) == emu@[p.id].state.es,
{
    *s = emu.cpu(p.id).state.es;
}

pub fn bochscpu_cpu_set_es(emu: &mut Emulator, p: &bochscpu_cpu_t, s: &bochscpu_cpu_seg_t)
    requires
        old(emu).alive(p),
    ensures
        final(emu)@ == old(emu)@.insert(
            p.id,
            with_state(old(emu)@[p.id], (State { es: *s, ..old(emu)@[p.id].state }), true),
        ),
{
    let mut regs = emu.cpu(p.id).state;
    regs.es = *s;
    emu.set_regs(p.id, regs, true);
}

pub fn bochscpu_cpu_cs(emu: &Emulator, p: &bochscpu_cpu_t, s: &mut bochscpu_cpu_seg_t)
    requires
        emu.alive(p),
    ensures
        *final(s) == emu@[p.id].state.cs,
{
    *s = emu.cpu(p.id).state.cs;
}

pub fn bochscpu_cpu_set_cs(emu: &mut Emulator, p: &bochscpu_cpu_t, s: &bochscpu_cpu_seg_t)
    requires
        old(emu).alive(p),
    ensures
        final(emu)@ == old(emu)@.insert(
            p.id,
            with_state(old(emu)@[p.id], (State { cs: *s, ..old(emu)@[p.id].state }), true),
        ),
{
    let mut regs = emu.cpu(p.id).state;
    regs.cs = *s;
    emu.set_regs(p.id, regs, true);
}

pub fn bochscpu_cpu_ss(emu: &Emulator, p: &bochscpu_cpu_t, s: &mut bochscpu_cpu_seg_t)
    requires
        emu.alive(p),
    ensures
        *final(s) == emu@[p.id].state.ss,
{
    *s = emu.cpu(p.id).state.ss;
}

pub fn bochscpu_cpu_set_ss(emu: &mut Emulator, p: &bochscpu_cpu_t, s: &bochscpu_cpu_seg_t)
    requires
        old(emu).alive(p),
    ensures
        final(emu)@ == old(emu)@.insert(
            p.id,
            with_state(old(emu)@[p.id], (State { ss: *s, ..old(emu)@[p.id].state }), true),
        ),
{
    let mut regs = emu.cpu(p.id).state;
    regs.ss = *s;
    emu.set_regs(p.id, regs, true);
}

pub fn bochscpu_cpu_ds(emu: &Emulator, p: &bochscpu_cpu_t, s: &mut bochscpu_cpu_seg_t)
    requires
        emu.alive(p),
    ensures
        *final(s) == emu@[p.id].state.ds,
{
    *s = emu.cpu(p.id).state.ds;
}

pub fn bochscpu_cpu_set_ds(emu: &mut Emulator, p: &bochscpu_cpu_t, s: &bochscpu_cpu_seg_t)
    requires
        old(emu).alive(p),
    ensures
        final(emu)@ == old(emu)@.insert(
            p.id,
            with_state(old(emu)@[p.id], (State { ds: *s, ..old(emu)@[p.id].state }), true),
        ),
{
    let mut regs = emu.cpu(p.id).state;
    regs.ds = *s;
    emu.set_regs(p.id, regs, true);
}

pub fn bochscpu_cpu_fs(emu: &Emulator, p: &bochscpu_cpu_t, s: &mut bochscpu_cpu_seg_t)
    requires
        emu.alive(p),
    ensures
        *final(s) == emu@[p.id].state.fs,
{
    *s = emu.cpu(p.id).state.fs;
}

pub fn bochscpu_cpu_set_fs(emu: &mut Emulator, p: &bochscpu_cpu_t, s: &bochscpu_cpu_seg_t)
    requires
        old(emu).alive(p),
    ensures
        final(emu)@ == old(emu)@.insert(
            p.id,
            with_state(old(emu)@[p.id], (State { fs: *s, ..old(emu)@[p.id].state }), true),
        ),
{
    let mut regs = emu.cpu(p.id).state;
    regs.fs = *s;
    emu.set_regs(p.id, regs, true);
}

pub fn bochscpu_cpu_gs(emu: &Emulator, p: &bochscpu_cpu_t, s: &mut bochscpu_cpu_seg_t)
    requires
        emu.alive(p),
    ensures
        *final(s) == emu@[p.id].state.gs,
{
    *s = emu.cpu(p.id).state.gs;
}

pub fn bochscpu_cpu_set_gs(emu: &mut Emulator, p: &bochscpu_cpu_t, s: &bochscpu_cpu_seg_t)
    requires
        old(emu).alive(p),
    ensures
        final(emu)@ == old(emu)@.insert(
            p.id,
            with_state(old(emu)@[p.id], (State { gs: *s, ..old(emu)@[p.id].state }), true),
        ),
{
    let mut regs = emu.cpu(p.id).state;
    regs.gs = *s;
    emu.set_regs(p.id, regs, true);
}

pub fn bochscpu_cpu_ldtr(emu: &Emulator, p: &bochscpu_cpu_t, s: &mut bochscpu_cpu_seg_t)
    requires
        emu.alive(p),
    ensures
        *final(s) == emu@[p.id].state.ldtr,
{
    *s = emu.cpu(p.id).state.ldtr;
}

pub fn bochscpu_cpu_set_ldtr(emu: &mut Emulator, p: &bochscpu_cpu_t, s: &bochscpu_cpu_seg_t)
    requires
        old(emu).alive(p),
    ensures
        final(emu)@ == old(emu)@.insert(
            p.id,
            with_state(old(emu)@[p.id], (State { ldtr: *s, ..old(emu)@[p.id].state }), true),
        ),
{
    let mut regs = emu.cpu(p.id).state;
    regs.ldtr = *s;
    emu.set_regs(p.id, regs, true);
}

pub fn bochscpu_cpu_tr(emu: &Emulator, p: &bochscpu_cpu_t, s: &mut bochscpu_cpu_seg_t)
    requires
        emu.alive(p),
    ensures
        *final(s) == emu@[p.id].state.tr,
{
    *s = emu.cpu(p.id).state.tr;
}

pub fn bochscpu_cpu_set_tr(emu: &mut Emulator, p: &bochscpu_cpu_t, s: &bochscpu_cpu_seg_t)
    requires
        old(emu).alive(p),
    ensures
        final(emu)@ == old(emu)@.insert(
            p.id,
            with_state(old(emu)@[p.id], (State { tr: *s, ..old(emu)@[p.id].state }), true),
        ),
{
    let mut regs = emu.cpu(p.id).state;
    regs.tr = *s;
    emu.set_regs(p.id, regs, true);
}

pub fn bochscpu_cpu_gdtr(emu: &Emulator, p: &bochscpu_cpu_t, s: &mut bochscpu_cpu_global_seg_t)
    requires
        emu.alive(p),
    ensures
        *final(s) == emu@[p.id].state.gdtr,
{
    *s = emu.cpu(p.id).state.gdtr;
}

pub fn bochscpu_cpu_set_gdtr(emu: &mut Emulator, p: &bochscpu_cpu_t, s: &bochscpu_cpu_global_seg_t)
    requires
        old(emu).alive(p),
    ensures
        final(emu)@ == old(emu)@.insert(
            p.id,
            with_state(old(emu)@[p.id], (State { gdtr: *s, ..old(emu)@[p.id].state }), false),
        ),
{
    let mut regs = emu.cpu(p.id).state;
    regs.gdtr = *s;
    emu.set_regs(p.id, regs, false);
}

pub fn bochscpu_cpu_idtr(emu: &Emulator, p: &bochscpu_cpu_t, s: &mut bochscpu_cpu_global_seg_t)
    requires
        emu.alive(p),
    ensures
        *final(s) == emu@[p.id].state.idtr,
{
    *s = emu.cpu(p.id).state.idtr;
}

pub fn bochscpu_cpu_set_idtr(emu: &mut Emulator, p: &bochscpu_cpu_t, s: &bochscpu_cpu_global_seg_t)
    requires
        old(emu).alive(p),
    ensures
        final(emu)@ == old(emu)@.insert(
            p.id,
            with_state(old(emu)@[p.id], (State { idtr: *s, ..old(emu)@[p.id].state }), false),
        ),
{
    let mut regs = emu.cpu(p.id).state;
    regs.idtr = *s;
    emu.set_regs(p.id, regs, false);
}

pub fn bochscpu_cpu_cr2(emu: &Emulator, p: &bochscpu_cpu_t) -> (val: u64)
    requires
        emu.alive(p),
    ensures
        val == emu@[p.id].state.cr2,
{
    emu.cpu(p.id).state.cr2
}

pub fn bochscpu_cpu_set_cr2(emu: &mut Emulator, p: &bochscpu_cpu_t, val: u64)
    requires
        old(emu).alive(p),
    ensures
        final(emu)@ == old(emu)@.insert(
            p.id,
            with_state(old(emu)@[p.id], (State { cr2: val, ..old(emu)@[p.id].state }), false),
        ),
{
    let mut s = emu.cpu(p.id).state;
    s.cr2 = val;
    emu.set_regs(p.id, s, false);
}

pub fn bochscpu_cpu_cr3(emu: &Emulator, p: &bochscpu_cpu_t) -> (val: u64)
    requires
        emu.alive(p),
    ensures
        val == emu@[p.id].state.cr3,
{
    emu.cpu(p.id).state.cr3
}

pub fn bochscpu_cpu_set_cr3(emu: &mut Emulator, p: &bochscpu_cpu_t, val: u64)
    requires
        old(emu).alive(p),
    ensures
        final(emu)@ == old(emu)@.insert(
            p.id,
            with_state(old(emu)@[p.id], (State { cr3: val, ..old(emu)@[p.id].state }), true),
        ),
{
    let mut s = emu.cpu(p.id).state;
    s.cr3 = val;
    emu.set_regs(p.id, s, true);
}

pub fn bochscpu_cpu_zmm(emu: &Emulator, p: &bochscpu_cpu_t, idx: usize, z: &mut bochscpu_cpu_zmm_t)
    requires
        emu.alive(p),
        idx < ZMM_COUNT,
    ensures
        *final(z) == emu@[p.id].state.zmm[idx as int],
{
    let regs = emu.cpu(p.id).state;
    *z = regs.zmm[idx];
}

pub fn bochscpu_cpu_set_zmm(
    emu: &mut Emulator,
    p: &bochscpu_cpu_t,
    idx: usize,
    z: &bochscpu_cpu_zmm_t,
)
    requires
        old(emu).alive(p),
        idx < ZMM_COUNT,
    ensures
        final(emu)@ == old(emu)@.insert(
            p.id,
            with_state(
                old(emu)@[p.id],
                (State {
                    zmm: vstd::array::spec_array_update(old(emu)@[p.id].state.zmm, idx as int, *z),
                    ..old(emu)@[p.id].state
                }),
                false,
            ),
        ),
{
    let mut regs = emu.cpu(p.id).state;
    regs.zmm[idx] = *z;
    assert(regs.zmm =~= vstd::array::spec_array_update(
        old(emu)@[p.id].state.zmm,
        idx as int,
        *z,
    ));
    emu.set_regs(p.id, regs, false);
}

/// What is set is what is got: after the register file of a CPU was replaced
/// by `v`, with or without a flush, the register file of that CPU is `v` in
/// every field, and no other CPU has changed.
pub proof fn lemma_state_round_trip(cpus: Map<u32, CpuContext>, id: u32, v: State, flush: bool)
    requires
        cpus.contains_key(id),
    ensures
        cpus.insert(id, with_state(cpus[id], v, flush))[id].state == v,
        forall|other: u32|
            other != id && cpus.contains_key(other) ==> cpus.insert(
                id,
                with_state(cpus[id], v, flush),
            )[other] == cpus[other],
{
}

/// Replacing the register file with a flush is replacing it without one and
/// then invalidating what is derived from it.
pub proof fn lemma_set_state_is_no_flush_then_mode(c: CpuContext, v: State)
    ensures
        with_state(c, v, true) == with_state(with_state(c, v, false), v, true),
{
}

/// A stop that is asked for before a run has no effect on the run: the run
/// starts as it would have started, and it goes on behind the first
/// instruction boundary.
pub proof fn lemma_stop_before_run(c: CpuContext)
    requires
        c.run_state == RunState::Stopped,
    ensures
        stop_asked(c) == c,
        started(stop_asked(c)) == started(c),
        started(stop_asked(c)).run_state == RunState::Running,
        goes_on(started(stop_asked(c))),
        at_boundary(started(stop_asked(c))) == started(c),
{
}

/// A stop that is asked for during a run ends the run at the next instruction
/// boundary and changes nothing else: the guest finds its registers as they
/// were and nothing left for it. The request is used up by that: the next run
/// goes on behind its first boundary.
pub proof fn lemma_stop_during_run(c: CpuContext)
    requires
        c.run_state == RunState::Running,
    ensures
        stop_asked(c).run_state == RunState::Running,
        !goes_on(stop_asked(c)),
        at_boundary(stop_asked(c)) == (CpuContext {
            run_state: RunState::Stopped,
            stop_requested: false,
            ..c
        }),
        goes_on(started(at_boundary(stop_asked(c)))),
{
}

/// A run ends stopped, and only for one of two reasons: behind the boundary
/// that follows a halt of the guest or a request to stop, the CPU is stopped;
/// behind any other boundary the run goes on and nothing has changed.
pub proof fn lemma_run_ends_stopped(c: CpuContext)
    requires
        c.run_state == RunState::Running,
    ensures
        at_boundary(halted(c)).run_state == RunState::Stopped,
        at_boundary(stop_asked(c)).run_state == RunState::Stopped,
        !c.stop_requested ==> at_boundary(c) == c,
{
}

} // verus!
