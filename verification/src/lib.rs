//! Control plane of an instrumentable x86 CPU emulator: guest memory and its
//! address translation, hook tables and their dispatch order, and the CPU
//! contexts with their register file and run state.
//!
//! The emulator core that decodes and executes instructions is not part of
//! this crate. It reports events and is told what to do with them; the host's
//! callbacks and buffers are named by their addresses.

pub mod cpu;
pub mod hook;
pub mod instr;
pub mod mem;
pub mod opcode;
pub mod paging;
pub mod phys;
pub mod virt;

pub use crate::cpu::{
    bochscpu_cpu_cr2, bochscpu_cpu_cr3, bochscpu_cpu_cs, bochscpu_cpu_delete,
    bochscpu_cpu_ds, bochscpu_cpu_es, bochscpu_cpu_forget, bochscpu_cpu_from,
    bochscpu_cpu_fs, bochscpu_cpu_gdtr, bochscpu_cpu_global_seg_t, bochscpu_cpu_gs,
    bochscpu_cpu_idtr, bochscpu_cpu_ldtr, bochscpu_cpu_new, bochscpu_cpu_r10,
    bochscpu_cpu_r11, bochscpu_cpu_r12, bochscpu_cpu_r13, bochscpu_cpu_r14,
    bochscpu_cpu_r15, bochscpu_cpu_r8, bochscpu_cpu_r9, bochscpu_cpu_rax, bochscpu_cpu_rbp,
    bochscpu_cpu_rbx, bochscpu_cpu_rcx, bochscpu_cpu_rdi, bochscpu_cpu_rdx,
    bochscpu_cpu_rflags, bochscpu_cpu_rip, bochscpu_cpu_rsi, bochscpu_cpu_rsp,
    bochscpu_cpu_run, bochscpu_cpu_seg_t, bochscpu_cpu_set_cr2, bochscpu_cpu_set_cr3,
    bochscpu_cpu_set_cs, bochscpu_cpu_set_ds, bochscpu_cpu_set_es,
    bochscpu_cpu_set_exception, bochscpu_cpu_set_fs, bochscpu_cpu_set_gdtr,
    bochscpu_cpu_set_gs, bochscpu_cpu_set_idtr, bochscpu_cpu_set_ldtr,
    bochscpu_cpu_set_mode, bochscpu_cpu_set_r10, bochscpu_cpu_set_r11, bochscpu_cpu_set_r12,
    bochscpu_cpu_set_r13, bochscpu_cpu_set_r14, bochscpu_cpu_set_r15, bochscpu_cpu_set_r8,
    bochscpu_cpu_set_r9, bochscpu_cpu_set_rax, bochscpu_cpu_set_rbp, bochscpu_cpu_set_rbx,
    bochscpu_cpu_set_rcx, bochscpu_cpu_set_rdi, bochscpu_cpu_set_rdx,
    bochscpu_cpu_set_rflags, bochscpu_cpu_set_rip, bochscpu_cpu_set_rsi,
    bochscpu_cpu_set_rsp, bochscpu_cpu_set_ss, bochscpu_cpu_set_state,
    bochscpu_cpu_set_state_no_flush, bochscpu_cpu_set_tr, bochscpu_cpu_set_zmm,
    bochscpu_cpu_ss, bochscpu_cpu_state, bochscpu_cpu_state_t, bochscpu_cpu_stop,
    bochscpu_cpu_t, bochscpu_cpu_tr, bochscpu_cpu_zmm, bochscpu_cpu_zmm_t, CpuContext,
    Emulator, Float80, FPST_COUNT, fresh_cpu, GlobalSeg, PendingException, reset_state,
    RunState, Seg, State, Zmm, ZMM_COUNT,
};
pub use crate::hook::{
    attached, BOCHSCPU_HOOK_MEM_EXECUTE, BOCHSCPU_HOOK_MEM_READ, BOCHSCPU_HOOK_MEM_RW,
    BOCHSCPU_HOOK_MEM_WRITE, BOCHSCPU_HOOK_TLB_CONTEXTSWITCH, BOCHSCPU_HOOK_TLB_CR0,
    BOCHSCPU_HOOK_TLB_CR3, BOCHSCPU_HOOK_TLB_CR4, BOCHSCPU_HOOK_TLB_INVEPT,
    BOCHSCPU_HOOK_TLB_INVLPG, BOCHSCPU_HOOK_TLB_INVPCID, BOCHSCPU_HOOK_TLB_INVVPID,
    BOCHSCPU_HOOK_TLB_TASKSWITCH, bochscpu_hooks_t, cr_or_zero, dispatch, HookArgs,
    HookCall, HookKind, HookTarget, MemAccess, NO_HOOK, TlbCntrl,
};
pub use crate::instr::{
    bochscpu_instr_bx_opcode, bochscpu_instr_dst, bochscpu_instr_imm16,
    bochscpu_instr_imm32, bochscpu_instr_imm64, bochscpu_instr_src, bochscpu_instr_t,
};
pub use crate::mem::{
    access_code, access_status, BackingStore, bochscpu_mem_missing_page,
    bochscpu_mem_page_insert, bochscpu_mem_page_remove, bochscpu_mem_phy_read,
    bochscpu_mem_phy_translate, bochscpu_mem_phy_write, BOCHSCPU_MEM_UNMAPPED,
    bochscpu_mem_virt_read, bochscpu_mem_virt_translate, bochscpu_mem_virt_write,
    gpa_or_unmapped, Memory, MissingPage, NoHandler, translation_code,
};
pub use crate::opcode::{
    BOCHSCPU_OPCODE_ERROR, BOCHSCPU_OPCODE_INSERTED,
};
pub use crate::paging::{
    ADDR_MASK, LARGE, Level, PageFault, PHYS_LIMIT, PRESENT, VirtError, walk,
};
pub use crate::phys::{
    Frame, HostPage, MAX_PAGE_INDEX, PAGE_SIZE, PageMap, PhysMem, Unbacked,
};
pub use crate::virt::{
    virt_probe, virt_read, virt_write,
};
