//! Hook tables and the order in which their callbacks are called.
//!
//! A table holds one slot for each kind of event and one context value. The
//! callbacks themselves live with the host: a slot holds a callback's
//! address, and a call is handed out as a value that names the callback, the
//! context and the arguments.

use vstd::prelude::*;

verus! {

pub const BOCHSCPU_HOOK_MEM_READ: u32 = 0;

pub const BOCHSCPU_HOOK_MEM_WRITE: u32 = 1;

pub const BOCHSCPU_HOOK_MEM_EXECUTE: u32 = 2;

pub const BOCHSCPU_HOOK_MEM_RW: u32 = 3;

pub const BOCHSCPU_HOOK_TLB_CR0: u32 = 10;

pub const BOCHSCPU_HOOK_TLB_CR3: u32 = 11;

pub const BOCHSCPU_HOOK_TLB_CR4: u32 = 12;

pub const BOCHSCPU_HOOK_TLB_TASKSWITCH: u32 = 13;

pub const BOCHSCPU_HOOK_TLB_CONTEXTSWITCH: u32 = 14;

pub const BOCHSCPU_HOOK_TLB_INVLPG: u32 = 15;

pub const BOCHSCPU_HOOK_TLB_INVEPT: u32 = 16;

pub const BOCHSCPU_HOOK_TLB_INVVPID: u32 = 17;

pub const BOCHSCPU_HOOK_TLB_INVPCID: u32 = 18;

/// The slot value that stands for no callback.
pub const NO_HOOK: usize = 0;

/// How memory is accessed.
#[derive(Clone, Copy, Debug, PartialEq, Eq, Structural)]
pub enum MemAccess {
    Read,
    Write,
    Execute,
    RW,
}

impl MemAccess {
    /// The number that callbacks are given for this kind of access.
    pub open spec fn spec_code(self) -> u32 {
        match self {
            MemAccess::Read => BOCHSCPU_HOOK_MEM_READ,
            MemAccess::Write => BOCHSCPU_HOOK_MEM_WRITE,
            MemAccess::Execute => BOCHSCPU_HOOK_MEM_EXECUTE,
            MemAccess::RW => BOCHSCPU_HOOK_MEM_RW,
        }
    }

    #[verifier::when_used_as_spec(spec_code)]
    pub fn code(self) -> (c: u32)
        ensures
            c == self.spec_code(),
    {
        match self {
            MemAccess::Read => BOCHSCPU_HOOK_MEM_READ,
            MemAccess::Write => BOCHSCPU_HOOK_MEM_WRITE,
            MemAccess::Execute => BOCHSCPU_HOOK_MEM_EXECUTE,
            MemAccess::RW => BOCHSCPU_HOOK_MEM_RW,
        }
    }

    /// The kind of access that a number stands for, if it stands for one.
    pub fn from_code(c: u32) -> (r: Option<MemAccess>)
        ensures
            match r {
                Some(a) => a.spec_code() == c,
                None => forall|a: MemAccess| a.spec_code() != c,
            },
    {
        if c == BOCHSCPU_HOOK_MEM_READ {
            Some(MemAccess::Read)
        } else if c == BOCHSCPU_HOOK_MEM_WRITE {
            Some(MemAccess::Write)
        } else if c == BOCHSCPU_HOOK_MEM_EXECUTE {
            Some(MemAccess::Execute)
        } else if c == BOCHSCPU_HOOK_MEM_RW {
            Some(MemAccess::RW)
        } else {
            None
        }
    }
}

/// Why the TLB is being operated on.
#[derive(Clone, Copy, Debug, PartialEq, Eq, Structural)]
pub enum TlbCntrl {
    MovCr0,
    MovCr3,
    MovCr4,
    TaskSwitch,
    ContextSwitch,
    InvLpg,
    InvEpt,
    InvVpid,
    InvPcid,
}

impl TlbCntrl {
    /// The number that callbacks are given for this reason.
    pub open spec fn spec_code(self) -> u32 {
        match self {
            TlbCntrl::MovCr0 => BOCHSCPU_HOOK_TLB_CR0,
            TlbCntrl::MovCr3 => BOCHSCPU_HOOK_TLB_CR3,
            TlbCntrl::MovCr4 => BOCHSCPU_HOOK_TLB_CR4,
            TlbCntrl::TaskSwitch => BOCHSCPU_HOOK_TLB_TASKSWITCH,
            TlbCntrl::ContextSwitch => BOCHSCPU_HOOK_TLB_CONTEXTSWITCH,
            TlbCntrl::InvLpg => BOCHSCPU_HOOK_TLB_INVLPG,
            TlbCntrl::InvEpt => BOCHSCPU_HOOK_TLB_INVEPT,
            TlbCntrl::InvVpid => BOCHSCPU_HOOK_TLB_INVVPID,
            TlbCntrl::InvPcid => BOCHSCPU_HOOK_TLB_INVPCID,
        }
    }

    #[verifier::when_used_as_spec(spec_code)]
    pub fn code(self) -> (c: u32)
        ensures
            c == self.spec_code(),
    {
        match self {
            TlbCntrl::MovCr0 => BOCHSCPU_HOOK_TLB_CR0,
            TlbCntrl::MovCr3 => BOCHSCPU_HOOK_TLB_CR3,
            TlbCntrl::MovCr4 => BOCHSCPU_HOOK_TLB_CR4,
            TlbCntrl::TaskSwitch => BOCHSCPU_HOOK_TLB_TASKSWITCH,
            TlbCntrl::ContextSwitch => BOCHSCPU_HOOK_TLB_CONTEXTSWITCH,
            TlbCntrl::InvLpg => BOCHSCPU_HOOK_TLB_INVLPG,
            TlbCntrl::InvEpt => BOCHSCPU_HOOK_TLB_INVEPT,
            TlbCntrl::InvVpid => BOCHSCPU_HOOK_TLB_INVVPID,
            TlbCntrl::InvPcid => BOCHSCPU_HOOK_TLB_INVPCID,
        }
    }

    /// The reason that a number stands for, if it stands for one.
    pub fn from_code(c: u32) -> (r: Option<TlbCntrl>)
        ensures
            match r {
                Some(t) => t.spec_code() == c,
                None => forall|t: TlbCntrl| t.spec_code() != c,
            },
    {
        if c == BOCHSCPU_HOOK_TLB_CR0 {
            Some(TlbCntrl::MovCr0)
        } else if c == BOCHSCPU_HOOK_TLB_CR3 {
            Some(TlbCntrl::MovCr3)
        } else if c == BOCHSCPU_HOOK_TLB_CR4 {
            Some(TlbCntrl::MovCr4)
        } else if c == BOCHSCPU_HOOK_TLB_TASKSWITCH {
            Some(TlbCntrl::TaskSwitch)
        } else if c == BOCHSCPU_HOOK_TLB_CONTEXTSWITCH {
            Some(TlbCntrl::ContextSwitch)
        } else if c == BOCHSCPU_HOOK_TLB_INVLPG {
            Some(TlbCntrl::InvLpg)
        } else if c == BOCHSCPU_HOOK_TLB_INVEPT {
            Some(TlbCntrl::InvEpt)
        } else if c == BOCHSCPU_HOOK_TLB_INVVPID {
            Some(TlbCntrl::InvVpid)
        } else if c == BOCHSCPU_HOOK_TLB_INVPCID {
            Some(TlbCntrl::InvPcid)
        } else {
            None
        }
    }
}

/// The value of the control register that goes with a TLB event: zero where
/// there is none.
pub open spec fn spec_cr_or_zero(new_cr: Option<u64>) -> u64 {
    match new_cr {
        Some(v) => v,
        None => 0,
    }
}

#[verifier::when_used_as_spec(spec_cr_or_zero)]
pub fn cr_or_zero(new_cr: Option<u64>) -> (cr: u64)
    ensures
        cr == spec_cr_or_zero(new_cr),
{
    match new_cr {
        Some(v) => v,
        None => 0,
    }
}

/// The kinds of event that a table has a slot for.
#[derive(Clone, Copy, Debug, PartialEq, Eq, Structural)]
pub enum HookKind {
    Reset,
    Hlt,
    Mwait,
    CnearBranchTaken,
    CnearBranchNotTaken,
    UcnearBranch,
    FarBranch,
    Opcode,
    Interrupt,
    Exception,
    HwInterrupt,
    TlbCntrl,
    CacheCntrl,
    PrefetchHint,
    Clflush,
    BeforeExecution,
    AfterExecution,
    RepeatIteration,
    Inp,
    Inp2,
    Outp,
    LinAccess,
    PhyAccess,
    Wrmsr,
    Vmexit,
}

/// What a callback is handed besides the context: the arguments of one
/// event, flat, in the order of the callback's parameters.
#[allow(inconsistent_fields)]
#[derive(Debug, PartialEq, Eq)]
pub enum HookArgs {
    /// The CPU was reset, by software or by hardware.
    Reset { id: u32, source: u32 },
    /// The CPU executed a halt.
    Hlt { id: u32 },
    /// The CPU waits on a monitored range.
    Mwait { id: u32, addr: u64, len: usize, flags: u32 },
    /// A conditional near branch was taken.
    CnearBranchTaken { id: u32, branch_pc: u64, new_pc: u64 },
    /// A conditional near branch was not taken.
    CnearBranchNotTaken { id: u32, pc: u64, new_pc: u64 },
    /// An unconditional near branch.
    UcnearBranch { id: u32, what: u32, branch_pc: u64, new_pc: u64 },
    /// A far branch, from one code segment and address to another.
    FarBranch { id: u32, what: u32, prev_cs: u16, prev_pc: u64, new_cs: u16, new_pc: u64 },
    /// An instruction was decoded: its handle, its bytes, and the mode it was
    /// decoded in.
    Opcode { id: u32, ins: usize, bytes: Vec<u8>, is_32: bool, is_64: bool },
    /// A software interrupt.
    Interrupt { id: u32, vector: u32 },
    /// An exception.
    Exception { id: u32, vector: u32, error_code: u32 },
    /// A hardware interrupt, taken at a code segment and address.
    HwInterrupt { id: u32, vector: u32, cs: u16, pc: u64 },
    /// An operation on the TLB; a control register's new value goes with it
    /// where there is one, zero where there is none.
    TlbCntrl { id: u32, what: u32, new_cr: u64 },
    /// An operation on the caches.
    CacheCntrl { id: u32, what: u32 },
    /// A prefetch hint.
    PrefetchHint { id: u32, what: u32, seg: u32, off: u64 },
    /// A cache line was flushed.
    Clflush { id: u32, vaddr: u64, paddr: u64 },
    /// An instruction is about to execute.
    BeforeExecution { id: u32, ins: usize },
    /// An instruction has executed.
    AfterExecution { id: u32, ins: usize },
    /// One round of a repeated instruction.
    RepeatIteration { id: u32, ins: usize },
    /// A read from an I/O port is about to happen.
    Inp { addr: u16, len: usize },
    /// A read from an I/O port, with the value read.
    Inp2 { addr: u16, len: usize, val: u32 },
    /// A write to an I/O port.
    Outp { addr: u16, len: usize, val: u32 },
    /// An access to memory by linear address.
    LinAccess { id: u32, vaddr: u64, paddr: u64, len: usize, memty: u32, rw: u32 },
    /// An access to memory by physical address.
    PhyAccess { id: u32, paddr: u64, len: usize, memty: u32, rw: u32 },
    /// A write to a model-specific register.
    Wrmsr { id: u32, msr: u32, val: u64 },
    /// An exit from a virtual machine.
    Vmexit { id: u32, reason: u32, qualification: u64 },
}

impl HookArgs {
    /// The kind of event that these arguments belong to.
    pub open spec fn spec_kind(&self) -> HookKind {
        match self {
            HookArgs::Reset { .. } => HookKind::Reset,
            HookArgs::Hlt { .. } => HookKind::Hlt,
            HookArgs::Mwait { .. } => HookKind::Mwait,
            HookArgs::CnearBranchTaken { .. } => HookKind::CnearBranchTaken,
            HookArgs::CnearBranchNotTaken { .. } => HookKind::CnearBranchNotTaken,
            HookArgs::UcnearBranch { .. } => HookKind::UcnearBranch,
            HookArgs::FarBranch { .. } => HookKind::FarBranch,
            HookArgs::Opcode { .. } => HookKind::Opcode,
            HookArgs::Interrupt { .. } => HookKind::Interrupt,
            HookArgs::Exception { .. } => HookKind::Exception,
            HookArgs::HwInterrupt { .. } => HookKind::HwInterrupt,
            HookArgs::TlbCntrl { .. } => HookKind::TlbCntrl,
            HookArgs::CacheCntrl { .. } => HookKind::CacheCntrl,
            HookArgs::PrefetchHint { .. } => HookKind::PrefetchHint,
            HookArgs::Clflush { .. } => HookKind::Clflush,
            HookArgs::BeforeExecution { .. } => HookKind::BeforeExecution,
            HookArgs::AfterExecution { .. } => HookKind::AfterExecution,
            HookArgs::RepeatIteration { .. } => HookKind::RepeatIteration,
            HookArgs::Inp { .. } => HookKind::Inp,
            HookArgs::Inp2 { .. } => HookKind::Inp2,
            HookArgs::Outp { .. } => HookKind::Outp,
            HookArgs::LinAccess { .. } => HookKind::LinAccess,
            HookArgs::PhyAccess { .. } => HookKind::PhyAccess,
            HookArgs::Wrmsr { .. } => HookKind::Wrmsr,
            HookArgs::Vmexit { .. } => HookKind::Vmexit,
        }
    }

    #[verifier::when_used_as_spec(spec_kind)]
    pub fn kind(&self) -> (k: HookKind)
        ensures
            k == self.spec_kind(),
    {
        match self {
            HookArgs::Reset { .. } => HookKind::Reset,
            HookArgs::Hlt { .. } => HookKind::Hlt,
            HookArgs::Mwait { .. } => HookKind::Mwait,
            HookArgs::CnearBranchTaken { .. } => HookKind::CnearBranchTaken,
            HookArgs::CnearBranchNotTaken { .. } => HookKind::CnearBranchNotTaken,
            HookArgs::UcnearBranch { .. } => HookKind::UcnearBranch,
            HookArgs::FarBranch { .. } => HookKind::FarBranch,
            HookArgs::Opcode { .. } => HookKind::Opcode,
            HookArgs::Interrupt { .. } => HookKind::Interrupt,
            HookArgs::Exception { .. } => HookKind::Exception,
            HookArgs::HwInterrupt { .. } => HookKind::HwInterrupt,
            HookArgs::TlbCntrl { .. } => HookKind::TlbCntrl,
            HookArgs::CacheCntrl { .. } => HookKind::CacheCntrl,
            HookArgs::PrefetchHint { .. } => HookKind::PrefetchHint,
            HookArgs::Clflush { .. } => HookKind::Clflush,
            HookArgs::BeforeExecution { .. } => HookKind::BeforeExecution,
            HookArgs::AfterExecution { .. } => HookKind::AfterExecution,
            HookArgs::RepeatIteration { .. } => HookKind::RepeatIteration,
            HookArgs::Inp { .. } => HookKind::Inp,
            HookArgs::Inp2 { .. } => HookKind::Inp2,
            HookArgs::Outp { .. } => HookKind::Outp,
            HookArgs::LinAccess { .. } => HookKind::LinAccess,
            HookArgs::PhyAccess { .. } => HookKind::PhyAccess,
            HookArgs::Wrmsr { .. } => HookKind::Wrmsr,
            HookArgs::Vmexit { .. } => HookKind::Vmexit,
        }
    }
}

/// One table of hooks: the context that every callback of the table is
/// handed first, and for each kind of event the address of the callback, or
/// `NO_HOOK`.
#[allow(non_camel_case_types)]
#[derive(Clone, Copy, Debug, PartialEq, Eq, Hash, Structural)]
pub struct bochscpu_hooks_t {
    pub ctx: usize,
    pub reset: usize,
    pub hlt: usize,
    pub mwait: usize,
    pub cnear_branch_taken: usize,
    pub cnear_branch_not_taken: usize,
    pub ucnear_branch: usize,
    pub far_branch: usize,
    pub opcode: usize,
    pub interrupt: usize,
    pub exception: usize,
    pub hw_interrupt: usize,
    pub tlb_cntrl: usize,
    pub cache_cntrl: usize,
    pub prefetch_hint: usize,
    pub clflush: usize,
    pub before_execution: usize,
    pub after_execution: usize,
    pub repeat_iteration: usize,
    pub inp: usize,
    pub inp2: usize,
    pub outp: usize,
    pub lin_access: usize,
    pub phy_access: usize,
    pub wrmsr: usize,
    pub vmexit: usize,
}

/// Whom to call: a callback and the context of the table it stands in.
#[derive(Clone, Copy, Debug, PartialEq, Eq, Structural)]
pub struct HookTarget {
    pub callback: usize,
    pub ctx: usize,
}

/// One call to make: whom to call, and with what.
#[derive(Debug, PartialEq, Eq)]
pub struct HookCall {
    pub target: HookTarget,
    pub args: HookArgs,
}

/// The call that a table makes of an event: none where the slot of the
/// event's kind is empty.
pub open spec fn hook_call(hooks: bochscpu_hooks_t, args: HookArgs) -> Option<HookCall> {
    match hooks.spec_target(args.spec_kind()) {
        Some(target) => Some(HookCall { target, args }),
        None => None,
    }
}

impl bochscpu_hooks_t {
    /// A table with the context `ctx` and every slot empty.
    pub fn new(ctx: usize) -> (hooks: Self)
        ensures
            hooks.ctx == ctx,
            forall|kind: HookKind| hooks.spec_slot(kind) == NO_HOOK,
    {
        bochscpu_hooks_t {
            ctx,
            reset: NO_HOOK,
            hlt: NO_HOOK,
            mwait: NO_HOOK,
            cnear_branch_taken: NO_HOOK,
            cnear_branch_not_taken: NO_HOOK,
            ucnear_branch: NO_HOOK,
            far_branch: NO_HOOK,
            opcode: NO_HOOK,
            interrupt: NO_HOOK,
            exception: NO_HOOK,
            hw_interrupt: NO_HOOK,
            tlb_cntrl: NO_HOOK,
            cache_cntrl: NO_HOOK,
            prefetch_hint: NO_HOOK,
            clflush: NO_HOOK,
            before_execution: NO_HOOK,
            after_execution: NO_HOOK,
            repeat_iteration: NO_HOOK,
            inp: NO_HOOK,
            inp2: NO_HOOK,
            outp: NO_HOOK,
            lin_access: NO_HOOK,
            phy_access: NO_HOOK,
            wrmsr: NO_HOOK,
            vmexit: NO_HOOK,
        }
    }

    /// The context that the table's callbacks are handed.
    pub fn ctx(&self) -> (ctx: usize)
        ensures
            ctx == self.ctx,
    {
        self.ctx
    }

    /// Replaces the context; the slots stay.
    pub fn set_ctx(&mut self, ctx: usize)
        ensures
            final(self).ctx == ctx,
            forall|kind: HookKind| final(self).spec_slot(kind) == old(self).spec_slot(kind),
    {
        self.ctx = ctx;
    }

    /// What the slot for `kind` holds.
    pub open spec fn spec_slot(&self, kind: HookKind) -> usize {
        match kind {
            HookKind::Reset => self.reset,
            HookKind::Hlt => self.hlt,
            HookKind::Mwait => self.mwait,
            HookKind::CnearBranchTaken => self.cnear_branch_taken,
            HookKind::CnearBranchNotTaken => self.cnear_branch_not_taken,
            HookKind::UcnearBranch => self.ucnear_branch,
            HookKind::FarBranch => self.far_branch,
            HookKind::Opcode => self.opcode,
            HookKind::Interrupt => self.interrupt,
            HookKind::Exception => self.exception,
            HookKind::HwInterrupt => self.hw_interrupt,
            HookKind::TlbCntrl => self.tlb_cntrl,
            HookKind::CacheCntrl => self.cache_cntrl,
            HookKind::PrefetchHint => self.prefetch_hint,
            HookKind::Clflush => self.clflush,
            HookKind::BeforeExecution => self.before_execution,
            HookKind::AfterExecution => self.after_execution,
            HookKind::RepeatIteration => self.repeat_iteration,
            HookKind::Inp => self.inp,
            HookKind::Inp2 => self.inp2,
            HookKind::Outp => self.outp,
            HookKind::LinAccess => self.lin_access,
            HookKind::PhyAccess => self.phy_access,
            HookKind::Wrmsr => self.wrmsr,
            HookKind::Vmexit => self.vmexit,
        }
    }

    #[verifier::when_used_as_spec(spec_slot)]
    pub fn slot(&self, kind: HookKind) -> (callback: usize)
        ensures
            callback == self.spec_slot(kind),
    {
        match kind {
            HookKind::Reset => self.reset,
            HookKind::Hlt => self.hlt,
            HookKind::Mwait => self.mwait,
            HookKind::CnearBranchTaken => self.cnear_branch_taken,
            HookKind::CnearBranchNotTaken => self.cnear_branch_not_taken,
            HookKind::UcnearBranch => self.ucnear_branch,
            HookKind::FarBranch => self.far_branch,
            HookKind::Opcode => self.opcode,
            HookKind::Interrupt => self.interrupt,
            HookKind::Exception => self.exception,
            HookKind::HwInterrupt => self.hw_interrupt,
            HookKind::TlbCntrl => self.tlb_cntrl,
            HookKind::CacheCntrl => self.cache_cntrl,
            HookKind::PrefetchHint => self.prefetch_hint,
            HookKind::Clflush => self.clflush,
            HookKind::BeforeExecution => self.before_execution,
            HookKind::AfterExecution => self.after_execution,
            HookKind::RepeatIteration => self.repeat_iteration,
            HookKind::Inp => self.inp,
            HookKind::Inp2 => self.inp2,
            HookKind::Outp => self.outp,
            HookKind::LinAccess => self.lin_access,
            HookKind::PhyAccess => self.phy_access,
            HookKind::Wrmsr => self.wrmsr,
            HookKind::Vmexit => self.vmexit,
        }
    }

    /// Puts `callback` in the slot for `kind`; `NO_HOOK` empties it. The
    /// context and the other slots stay.
    pub fn set(&mut self, kind: HookKind, callback: usize)
        ensures
            final(self).ctx == old(self).ctx,
            forall|other: HookKind|
                final(self).spec_slot(other) == (if other == kind {
                    callback
                } else {
                    old(self).spec_slot(other)
                }),
    {
        match kind {
            HookKind::Reset => {
                self.reset = callback;
            },
            HookKind::Hlt => {
                self.hlt = callback;
            },
            HookKind::Mwait => {
                self.mwait = callback;
            },
            HookKind::CnearBranchTaken => {
                self.cnear_branch_taken = callback;
            },
            HookKind::CnearBranchNotTaken => {
                self.cnear_branch_not_taken = callback;
            },
            HookKind::UcnearBranch => {
                self.ucnear_branch = callback;
            },
            HookKind::FarBranch => {
                self.far_branch = callback;
            },
            HookKind::Opcode => {
                self.opcode = callback;
            },
            HookKind::Interrupt => {
                self.interrupt = callback;
            },
            HookKind::Exception => {
                self.exception = callback;
            },
            HookKind::HwInterrupt => {
                self.hw_interrupt = callback;
            },
            HookKind::TlbCntrl => {
                self.tlb_cntrl = callback;
            },
            HookKind::CacheCntrl => {
                self.cache_cntrl = callback;
            },
            HookKind::PrefetchHint => {
                self.prefetch_hint = callback;
            },
            HookKind::Clflush => {
                self.clflush = callback;
            },
            HookKind::BeforeExecution => {
                self.before_execution = callback;
            },
            HookKind::AfterExecution => {
                self.after_execution = callback;
            },
            HookKind::RepeatIteration => {
                self.repeat_iteration = callback;
            },
            HookKind::Inp => {
                self.inp = callback;
            },
            HookKind::Inp2 => {
                self.inp2 = callback;
            },
            HookKind::Outp => {
                self.outp = callback;
            },
            HookKind::LinAccess => {
                self.lin_access = callback;
            },
            HookKind::PhyAccess => {
                self.phy_access = callback;
            },
            HookKind::Wrmsr => {
                self.wrmsr = callback;
            },
            HookKind::Vmexit => {
                self.vmexit = callback;
            },
        }
    }

    /// Empties the slot for `kind`, and that slot only.
    pub fn clear(&mut self, kind: HookKind)
        ensures
            final(self).ctx == old(self).ctx,
            forall|other: HookKind|
                final(self).spec_slot(other) == (if other == kind {
                    NO_HOOK
                } else {
                    old(self).spec_slot(other)
                }),
    {
        self.set(kind, NO_HOOK);
    }

    /// Empties every slot; the context stays.
    pub fn clear_all(&mut self)
        ensures
            final(self).ctx == old(self).ctx,
            forall|kind: HookKind| final(self).spec_slot(kind) == NO_HOOK,
    {
        *self = bochscpu_hooks_t::new(self.ctx);
    }

    /// Whom the table calls for an event of `kind`: nobody where the slot is
    /// empty.
    pub open spec fn spec_target(&self, kind: HookKind) -> Option<HookTarget> {
        if self.spec_slot(kind) == NO_HOOK {
            None
        } else {
            Some(HookTarget { callback: self.spec_slot(kind), ctx: self.ctx })
        }
    }

    #[verifier::when_used_as_spec(spec_target)]
    pub fn target(&self, kind: HookKind) -> (t: Option<HookTarget>)
        ensures
            t == self.spec_target(kind),
    {
        let callback = self.slot(kind);
        if callback == NO_HOOK {
            None
        } else {
            Some(HookTarget { callback, ctx: self.ctx })
        }
    }

    /// The call that the table makes of an event with the arguments `args`.
    pub fn call(&self, args: HookArgs) -> (r: Option<HookCall>)
        ensures
            r == hook_call(*self, args),
    {
        match self.target(args.kind()) {
            Some(target) => Some(HookCall { target, args }),
            None => None,
        }
    }

    /// The CPU was reset, by software or by hardware.
    pub fn reset(&self, id: u32, source: u32) -> (r: Option<HookCall>)
        ensures
            r == hook_call(*self, HookArgs::Reset { id, source }),
    {
        self.call(HookArgs::Reset { id, source })
    }

    /// The CPU executed a halt.
    pub fn hlt(&self, id: u32) -> (r: Option<HookCall>)
        ensures
            r == hook_call(*self, HookArgs::Hlt { id }),
    {
        self.call(HookArgs::Hlt { id })
    }

    /// The CPU waits on a monitored range.
    pub fn mwait(&self, id: u32, addr: u64, len: usize, flags: u32) -> (r: Option<HookCall>)
        ensures
            r == hook_call(*self, HookArgs::Mwait { id, addr, len, flags }),
    {
        self.call(HookArgs::Mwait { id, addr, len, flags })
    }

    /// A conditional near branch was taken.
    pub fn cnear_branch_taken(&self, id: u32, branch_pc: u64, new_pc: u64) -> (r: Option<HookCall>)
        ensures
            r == hook_call(*self, HookArgs::CnearBranchTaken { id, branch_pc, new_pc }),
    {
        self.call(HookArgs::CnearBranchTaken { id, branch_pc, new_pc })
    }

    /// A conditional near branch was not taken.
    pub fn cnear_branch_not_taken(&self, id: u32, pc: u64, new_pc: u64) -> (r: Option<HookCall>)
        ensures
            r == hook_call(*self, HookArgs::CnearBranchNotTaken { id, pc, new_pc }),
    {
        self.call(HookArgs::CnearBranchNotTaken { id, pc, new_pc })
    }

    /// An unconditional near branch.
    pub fn ucnear_branch(
        &self,
        id: u32,
        what: u32,
        branch_pc: u64,
        new_pc: u64,
    ) -> (r: Option<HookCall>)
        ensures
            r == hook_call(*self, HookArgs::UcnearBranch { id, what, branch_pc, new_pc }),
    {
        self.call(HookArgs::UcnearBranch { id, what, branch_pc, new_pc })
    }

    /// A far branch, from one code segment and address to another.
    pub fn far_branch(
        &self,
        id: u32,
        what: u32,
        branch_pc: (u16, u64),
        new_pc: (u16, u64),
    ) -> (r: Option<HookCall>)
        ensures
            r == hook_call(
                *self,
                (HookArgs::FarBranch {
                    id,
                    what,
                    prev_cs: branch_pc.0,
                    prev_pc: branch_pc.1,
                    new_cs: new_pc.0,
                    new_pc: new_pc.1,
                }),
            ),
    {
        self.call(HookArgs::FarBranch {
            id,
            what,
            prev_cs: branch_pc.0,
            prev_pc: branch_pc.1,
            new_cs: new_pc.0,
            new_pc: new_pc.1,
        })
    }

    /// An instruction was decoded: its handle, its bytes, and the mode it
    /// was decoded in. The callback is handed the bytes as they are.
    pub fn opcode(&self, id: u32, ins: usize, opcode: &[u8], is_32: bool, is_64: bool) -> (r:
        Option<HookCall>)
        ensures
            r is Some <==> self.opcode != NO_HOOK,
            r matches Some(call) ==> call.target == (HookTarget {
                callback: self.opcode,
                ctx: self.ctx,
            }) && (call.args matches HookArgs::Opcode {
                id: a,
                ins: b,
                bytes: c,
                is_32: d,
                is_64: e,
            } && a == id && b == ins && c@ == opcode@ && d == is_32 && e == is_64),
    {
        if self.opcode == NO_HOOK {
            None
        } else {
            let bytes: Vec<u8> = vstd::slice::slice_to_vec(opcode);
            self.call(HookArgs::Opcode { id, ins, bytes, is_32, is_64 })
        }
    }

    /// A software interrupt.
    pub fn interrupt(&self, id: u32, vector: u32) -> (r: Option<HookCall>)
        ensures
            r == hook_call(*self, HookArgs::Interrupt { id, vector }),
    {
        self.call(HookArgs::Interrupt { id, vector })
    }

    /// An exception.
    pub fn exception(&self, id: u32, vector: u32, error_code: u32) -> (r: Option<HookCall>)
        ensures
            r == hook_call(*self, HookArgs::Exception { id, vector, error_code }),
    {
        self.call(HookArgs::Exception { id, vector, error_code })
    }

    /// A hardware interrupt, taken at a code segment and address.
    pub fn hw_interrupt(&self, id: u32, vector: u32, pc: (u16, u64)) -> (r: Option<HookCall>)
        ensures
            r == hook_call(*self, HookArgs::HwInterrupt { id, vector, cs: pc.0, pc: pc.1 }),
    {
        self.call(HookArgs::HwInterrupt { id, vector, cs: pc.0, pc: pc.1 })
    }

    /// An operation on the TLB; a control register's new value goes with it
    /// where there is one, zero where there is none.
    pub fn tlb_cntrl(&self, id: u32, what: TlbCntrl, new_cr: Option<u64>) -> (r: Option<HookCall>)
        ensures
            r == hook_call(
                *self,
                (HookArgs::TlbCntrl { id, what: what.code(), new_cr: cr_or_zero(new_cr) }),
            ),
    {
        self.call(HookArgs::TlbCntrl { id, what: what.code(), new_cr: cr_or_zero(new_cr) })
    }

    /// An operation on the caches.
    pub fn cache_cntrl(&self, id: u32, what: u32) -> (r: Option<HookCall>)
        ensures
            r == hook_call(*self, HookArgs::CacheCntrl { id, what }),
    {
        self.call(HookArgs::CacheCntrl { id, what })
    }

    /// A prefetch hint.
    pub fn prefetch_hint(&self, id: u32, what: u32, seg: u32, off: u64) -> (r: Option<HookCall>)
        ensures
            r == hook_call(*self, HookArgs::PrefetchHint { id, what, seg, off }),
    {
        self.call(HookArgs::PrefetchHint { id, what, seg, off })
    }

    /// A cache line was flushed.
    pub fn clflush(&self, id: u32, vaddr: u64, paddr: u64) -> (r: Option<HookCall>)
        ensures
            r == hook_call(*self, HookArgs::Clflush { id, vaddr, paddr }),
    {
        self.call(HookArgs::Clflush { id, vaddr, paddr })
    }

    /// An instruction is about to execute.
    pub fn before_execution(&self, id: u32, ins: usize) -> (r: Option<HookCall>)
        ensures
            r == hook_call(*self, HookArgs::BeforeExecution { id, ins }),
    {
        self.call(HookArgs::BeforeExecution { id, ins })
    }

    /// An instruction has executed.
    pub fn after_execution(&self, id: u32, ins: usize) -> (r: Option<HookCall>)
        ensures
            r == hook_call(*self, HookArgs::AfterExecution { id, ins }),
    {
        self.call(HookArgs::AfterExecution { id, ins })
    }

    /// One round of a repeated instruction.
    pub fn repeat_iteration(&self, id: u32, ins: usize) -> (r: Option<HookCall>)
        ensures
            r == hook_call(*self, HookArgs::RepeatIteration { id, ins }),
    {
        self.call(HookArgs::RepeatIteration { id, ins })
    }

    /// A read from an I/O port is about to happen.
    pub fn inp(&self, addr: u16, len: usize) -> (r: Option<HookCall>)
        ensures
            r == hook_call(*self, HookArgs::Inp { addr, len }),
    {
        self.call(HookArgs::Inp { addr, len })
    }

    /// A read from an I/O port, with the value read.
    pub fn inp2(&self, addr: u16, len: usize, val: u32) -> (r: Option<HookCall>)
        ensures
            r == hook_call(*self, HookArgs::Inp2 { addr, len, val }),
    {
        self.call(HookArgs::Inp2 { addr, len, val })
    }

    /// A write to an I/O port.
    pub fn outp(&self, addr: u16, len: usize, val: u32) -> (r: Option<HookCall>)
        ensures
            r == hook_call(*self, HookArgs::Outp { addr, len, val }),
    {
        self.call(HookArgs::Outp { addr, len, val })
    }

    /// An access to memory by linear address.
    pub fn lin_access(
        &self,
        id: u32,
        vaddr: u64,
        paddr: u64,
        len: usize,
        memty: u32,
        rw: MemAccess,
    ) -> (r: Option<HookCall>)
        ensures
            r == hook_call(
                *self,
                (HookArgs::LinAccess { id, vaddr, paddr, len, memty, rw: rw.code() }),
            ),
    {
        self.call(HookArgs::LinAccess { id, vaddr, paddr, len, memty, rw: rw.code() })
    }

    /// An access to memory by physical address.
    pub fn phy_access(
        &self,
        id: u32,
        paddr: u64,
        len: usize,
        memty: u32,
        rw: MemAccess,
    ) -> (r: Option<HookCall>)
        ensures
            r == hook_call(*self, HookArgs::PhyAccess { id, paddr, len, memty, rw: rw.code() }),
    {
        self.call(HookArgs::PhyAccess { id, paddr, len, memty, rw: rw.code() })
    }

    /// A write to a model-specific register.
    pub fn wrmsr(&self, id: u32, msr: u32, val: u64) -> (r: Option<HookCall>)
        ensures
            r == hook_call(*self, HookArgs::Wrmsr { id, msr, val }),
    {
        self.call(HookArgs::Wrmsr { id, msr, val })
    }

    /// An exit from a virtual machine.
    pub fn vmexit(&self, id: u32, reason: u32, qualification: u64) -> (r: Option<HookCall>)
        ensures
            r == hook_call(*self, HookArgs::Vmexit { id, reason, qualification }),
    {
        self.call(HookArgs::Vmexit { id, reason, qualification })
    }

}

/// The calls that a chain of tables makes of an event of `kind`: one for each
/// table whose slot for the kind is filled, in the order of the tables.
pub open spec fn dispatch_plan(chain: Seq<bochscpu_hooks_t>, kind: HookKind) -> Seq<HookTarget>
    decreases chain.len(),
{
    if chain.len() == 0 {
        Seq::empty()
    } else {
        let before = dispatch_plan(chain.drop_last(), kind);
        match chain.last().spec_target(kind) {
            Some(t) => before.push(t),
            None => before,
        }
    }
}

/// Number of tables among the first `upto` of the chain whose slot for `kind`
/// is filled.
pub open spec fn filled_before(chain: Seq<bochscpu_hooks_t>, kind: HookKind, upto: int) -> int
    recommends
        0 <= upto <= chain.len(),
{
    dispatch_plan(chain.take(upto), kind).len() as int
}

/// Whom to call for an event of `kind`, and in what order, when the tables of
/// `chain` are attached in that order.
pub fn dispatch(chain: &[bochscpu_hooks_t], kind: HookKind) -> (calls: Vec<HookTarget>)
    ensures
        calls@ == dispatch_plan(chain@, kind),
{
    let mut calls: Vec<HookTarget> = Vec::new();
    let mut i: usize = 0;
    while i < chain.len()
        invariant
            i <= chain@.len(),
            calls@ == dispatch_plan(chain@.take(i as int), kind),
        decreases chain@.len() - i,
    {
        proof {
            assert(chain@.take(i + 1).drop_last() =~= chain@.take(i as int));
        }
        if let Some(t) = chain[i].target(kind) {
            calls.push(t);
        }
        i += 1;
    }
    proof {
        assert(chain@.take(chain@.len() as int) =~= chain@);
    }
    calls
}

/// The calls of the first tables of a chain are the first calls of the chain.
pub proof fn lemma_dispatch_prefix(chain: Seq<bochscpu_hooks_t>, kind: HookKind, upto: int)
    requires
        0 <= upto <= chain.len(),
    ensures
        dispatch_plan(chain.take(upto), kind).len() <= dispatch_plan(chain, kind).len(),
        dispatch_plan(chain.take(upto), kind) == dispatch_plan(chain, kind).take(
            filled_before(chain, kind, upto),
        ),
    decreases chain.len(),
{
    if upto == chain.len() {
        assert(chain.take(upto) =~= chain);
        assert(dispatch_plan(chain, kind).take(dispatch_plan(chain, kind).len() as int)
            =~= dispatch_plan(chain, kind));
    } else {
        lemma_dispatch_prefix(chain.drop_last(), kind, upto);
        assert(chain.drop_last().take(upto) =~= chain.take(upto));
        let shorter = dispatch_plan(chain.drop_last(), kind);
        let n = filled_before(chain, kind, upto);
        assert(dispatch_plan(chain, kind).take(n) =~= shorter.take(n));
    }
}

/// A table with a filled slot is called, and its call stands behind the calls
/// of the tables before it: at the place that the number of those tables with
/// a filled slot gives.
pub proof fn lemma_dispatch_place(chain: Seq<bochscpu_hooks_t>, kind: HookKind, i: int)
    requires
        0 <= i < chain.len(),
        chain[i].spec_slot(kind) != NO_HOOK,
    ensures
        0 <= filled_before(chain, kind, i) < dispatch_plan(chain, kind).len(),
        dispatch_plan(chain, kind)[filled_before(chain, kind, i)] == (HookTarget {
            callback: chain[i].spec_slot(kind),
            ctx: chain[i].ctx,
        }),
        filled_before(chain, kind, i + 1) == filled_before(chain, kind, i) + 1,
{
    lemma_dispatch_prefix(chain, kind, i + 1);
    assert(chain.take(i + 1).drop_last() =~= chain.take(i));
    let upto_i = dispatch_plan(chain.take(i), kind);
    let with_i = dispatch_plan(chain.take(i + 1), kind);
    assert(chain.take(i + 1).last() == chain[i]);
    assert(with_i == upto_i.push(chain[i].spec_target(kind)->0));
    assert(with_i[upto_i.len() as int] == chain[i].spec_target(kind)->0);
}

/// Tables are called in the order in which they were attached: of two tables
/// of a chain with a filled slot for the kind of an event, the callback of the
/// one attached first is called before the callback of the other.
pub proof fn lemma_dispatch_order(chain: Seq<bochscpu_hooks_t>, kind: HookKind, i: int, j: int)
    requires
        0 <= i < j < chain.len(),
        chain[i].spec_slot(kind) != NO_HOOK,
        chain[j].spec_slot(kind) != NO_HOOK,
    ensures
        0 <= filled_before(chain, kind, i) < filled_before(chain, kind, j) < dispatch_plan(
            chain,
            kind,
        ).len(),
        dispatch_plan(chain, kind)[filled_before(chain, kind, i)] == (HookTarget {
            callback: chain[i].spec_slot(kind),
            ctx: chain[i].ctx,
        }),
        dispatch_plan(chain, kind)[filled_before(chain, kind, j)] == (HookTarget {
            callback: chain[j].spec_slot(kind),
            ctx: chain[j].ctx,
        }),
{
    lemma_dispatch_place(chain, kind, i);
    lemma_dispatch_place(chain, kind, j);
    lemma_dispatch_prefix(chain.take(j), kind, i + 1);
    assert(chain.take(j).take(i + 1) =~= chain.take(i + 1));
}

/// No table is called twice and none that is not attached: a chain makes at
/// most as many calls as it has tables, exactly as many where every table has
/// the slot filled, and none where it is empty.
pub proof fn lemma_dispatch_count(chain: Seq<bochscpu_hooks_t>, kind: HookKind)
    ensures
        dispatch_plan(chain, kind).len() <= chain.len(),
        (forall|i: int| 0 <= i < chain.len() ==> (#[trigger] chain[i]).spec_slot(kind) != NO_HOOK)
            ==> dispatch_plan(chain, kind).len() == chain.len(),
        chain.len() == 0 ==> dispatch_plan(chain, kind) == Seq::<HookTarget>::empty(),
    decreases chain.len(),
{
    if chain.len() > 0 {
        lemma_dispatch_count(chain.drop_last(), kind);
        if forall|i: int|
            0 <= i < chain.len() ==> (#[trigger] chain[i]).spec_slot(kind) != NO_HOOK {
            assert forall|i: int| 0 <= i < chain.drop_last().len() implies (
            #[trigger] chain.drop_last()[i]).spec_slot(kind) != NO_HOOK by {
                assert(chain.drop_last()[i] == chain[i]);
            }
            assert(chain.last() == chain[chain.len() - 1]);
        }
    }
}

/// Number of entries of a list of table addresses that stand before its
/// first null; all of them where it holds none.
pub open spec fn attached_len(list: Seq<usize>) -> nat
    decreases list.len(),
{
    if list.len() == 0 || list[0] == 0 {
        0
    } else {
        1 + attached_len(list.drop_first())
    }
}

/// A list of addresses that ends in a null attaches what stands before the
/// null: `n` tables where `n` addresses that are not null are followed by a
/// null, and none where the null comes first.
pub proof fn lemma_null_terminated(list: Seq<usize>, n: int)
    requires
        0 <= n < list.len(),
        forall|i: int| 0 <= i < n ==> list[i] != 0,
        list[n] == 0,
    ensures
        attached_len(list) == n,
    decreases n,
{
    if n > 0 {
        assert(list[0] != 0);
        assert forall|i: int| 0 <= i < n - 1 implies list.drop_first()[i] != 0 by {
            assert(list.drop_first()[i] == list[i + 1]);
        }
        lemma_null_terminated(list.drop_first(), n - 1);
    }
}

/// What `attached_len` counts are the leading entries, none of them null.
pub proof fn lemma_attached(list: Seq<usize>)
    ensures
        attached_len(list) <= list.len(),
        forall|i: int| 0 <= i < attached_len(list) ==> list[i] != 0,
        attached_len(list) < list.len() ==> list[attached_len(list) as int] == 0,
    decreases list.len(),
{
    if list.len() > 0 && list[0] != 0 {
        lemma_attached(list.drop_first());
        assert forall|i: int| 0 <= i < attached_len(list) implies list[i] != 0 by {
            if i > 0 {
                assert(list.drop_first()[i - 1] == list[i]);
            }
        }
        if attached_len(list) < list.len() {
            assert(list.drop_first()[attached_len(list.drop_first()) as int] == list[attached_len(
                list,
            ) as int]);
        }
    }
}

/// Counts the tables that a list of table addresses attaches: those before
/// its first null.
pub fn attached(list: &[usize]) -> (n: usize)
    ensures
        n == attached_len(list@),
        n <= list@.len(),
        forall|i: int| 0 <= i < n ==> list@[i] != 0,
        n < list@.len() ==> list@[n as int] == 0,
{
    let mut n: usize = 0;
    proof {
        assert(list@.skip(0) =~= list@);
    }
    while n < list.len() && list[n] != 0
        invariant
            n <= list@.len(),
            attached_len(list@) == n + attached_len(list@.skip(n as int)),
        decreases list@.len() - n,
    {
        proof {
            assert(list@.skip(n as int).drop_first() =~= list@.skip(n + 1));
            assert(list@.skip(n as int)[0] == list@[n as int]);
        }
        n += 1;
    }
    proof {
        if n < list@.len() {
            assert(list@.skip(n as int)[0] == list@[n as int]);
        }
        lemma_attached(list@);
    }
    n
}

} // verus!
