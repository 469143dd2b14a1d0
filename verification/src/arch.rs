//! Model of the CPU-local machine state the kernel manipulates: the
//! interrupt flag, the timer tick counter, the registered trap callbacks,
//! the captured general-protection fault, and the local APIC timer.
//!
//! On hardware these live in the interrupt flag register, MSRs and
//! process-wide cells; here they are explicit fields, so every transition
//! the kernel relies on carries a contract. Descriptor-table and page-table
//! entries are computed by verified functions; loading them into the CPU is
//! the runtime's affair.

use vstd::prelude::*;

verus! {

/// Interrupt vector numbers the kernel installs handlers for.
#[derive(Clone, Copy, PartialEq, Eq, Structural)]
pub enum InterruptVector {
    GeneralProtection,
    Timer,
    Spurious,
    Ipc,
}

impl InterruptVector {
    /// The hardware vector number: `#GP` is 13, the periodic timer runs on
    /// vector 32, the user-service IPC trap on 0x80, and the spurious
    /// vector on 0xFF.
    pub open spec fn spec_number(&self) -> u8 {
        match self {
            InterruptVector::GeneralProtection => 13,
            InterruptVector::Timer => 32,
            InterruptVector::Ipc => 0x80,
            InterruptVector::Spurious => 0xFF,
        }
    }

    /// Returns the hardware vector number.
    #[verifier::when_used_as_spec(spec_number)]
    pub fn number(&self) -> (r: u8)
        ensures
            r == self.spec_number(),
    {
        match self {
            InterruptVector::GeneralProtection => 13,
            InterruptVector::Timer => 32,
            InterruptVector::Ipc => 0x80,
            InterruptVector::Spurious => 0xFF,
        }
    }
}

/// The stack frame the CPU pushes when an interrupt is taken.
pub struct InterruptStackFrame {
    pub instruction_pointer: u64,
    pub code_segment: u64,
    pub cpu_flags: u64,
    pub stack_pointer: u64,
    pub stack_segment: u64,
}

/// Selector of the kernel code segment in the GDT.
pub const KERNEL_CODE_SELECTOR: u16 = 0x08;

/// One entry of the interrupt descriptor table: a handler address spread
/// over three fields plus an options word.
#[derive(Clone, Copy, PartialEq, Eq, Structural)]
pub struct IdtEntry {
    pub offset_low: u16,
    pub selector: u16,
    pub options: u16,
    pub offset_mid: u16,
    pub offset_high: u32,
    pub reserved: u32,
}

impl IdtEntry {
    /// An entry with no handler installed.
    pub fn missing() -> (r: IdtEntry)
        ensures
            r == (IdtEntry {
                offset_low: 0,
                selector: 0,
                options: 0,
                offset_mid: 0,
                offset_high: 0,
                reserved: 0,
            }),
    {
        IdtEntry {
            offset_low: 0,
            selector: 0,
            options: 0,
            offset_mid: 0,
            offset_high: 0,
            reserved: 0,
        }
    }

    /// The entry's options word: present, of interrupt kind, with the
    /// descriptor privilege level in bits 13..15.
    pub open spec fn spec_options(dpl: u16) -> u16 {
        0x8E00u16 | (((dpl & 0x3) << 13) as u16)
    }

    /// Builds an entry pointing at `handler`, the handler's address, with
    /// the kernel code selector and the given privilege level. The address
    /// is split little-endian over the three offset fields.
    pub fn with_handler(handler: u64, dpl: u16) -> (r: IdtEntry)
        ensures
            r.offset_low == handler % 0x10000,
            r.offset_mid == (handler / 0x10000) % 0x10000,
            r.offset_high == handler / 0x100000000,
            r.selector == KERNEL_CODE_SELECTOR,
            r.options == IdtEntry::spec_options(dpl),
            r.reserved == 0,
    {
        let mut options: u16 = 0x8E00;
        options = options | ((dpl & 0x3) << 13);
        let r = IdtEntry {
            offset_low: (handler & 0xFFFF) as u16,
            selector: KERNEL_CODE_SELECTOR,
            options,
            offset_mid: ((handler >> 16) & 0xFFFF) as u16,
            offset_high: (handler >> 32) as u32,
            reserved: 0,
        };
        proof {
            assert(handler & 0xFFFF == handler % 0x10000) by (bit_vector);
            assert((handler >> 16) & 0xFFFF == (handler / 0x10000) % 0x10000) by (bit_vector);
            assert(handler >> 32 == handler / 0x100000000) by (bit_vector);
        }
        r
    }

    /// Builds an entry for a handler that receives an error code; the
    /// layout is the same.
    pub fn with_handler_err(handler: u64, dpl: u16) -> (r: IdtEntry)
        ensures
            r.offset_low == handler % 0x10000,
            r.offset_mid == (handler / 0x10000) % 0x10000,
            r.offset_high == handler / 0x100000000,
            r.selector == KERNEL_CODE_SELECTOR,
            r.options == IdtEntry::spec_options(dpl),
            r.reserved == 0,
    {
        IdtEntry::with_handler(handler, dpl)
    }
}

/// Number of vectors an interrupt descriptor table covers.
pub const IDT_ENTRIES: usize = 256;

/// The interrupt descriptor table: one entry per vector.
pub struct Idt {
    entries: Vec<IdtEntry>,
}

impl Idt {
    /// The table's entries by vector number.
    pub closed spec fn spec_entries(&self) -> Seq<IdtEntry> {
        self.entries@
    }

    /// The table covers all `IDT_ENTRIES` vectors.
    pub open spec fn wf(&self) -> bool {
        self.spec_entries().len() == IDT_ENTRIES
    }

    /// Creates a table with every entry missing.
    pub fn new() -> (r: Idt)
        ensures
            r.wf(),
            forall|i: int| 0 <= i < IDT_ENTRIES ==> r.spec_entries()[i] == IdtEntry::missing_spec(),
    {
        let mut entries: Vec<IdtEntry> = Vec::new();
        let mut i: usize = 0;
        while i < IDT_ENTRIES
            invariant
                i <= IDT_ENTRIES,
                entries@.len() == i,
                forall|j: int| 0 <= j < i ==> entries@[j] == IdtEntry::missing_spec(),
            decreases IDT_ENTRIES - i,
        {
            entries.push(IdtEntry::missing());
            i += 1;
        }
        Idt { entries }
    }

    /// Installs a handler entry for the given vector.
    pub fn set_handler(&mut self, vector: InterruptVector, handler: u64, dpl: u16)
        requires
            old(self).wf(),
        ensures
            final(self).wf(),
            final(self).spec_entries() == old(self).spec_entries().update(
                vector.spec_number() as int,
                final(self).spec_entries()[vector.spec_number() as int],
            ),
            final(self).spec_entries()[vector.spec_number() as int].options == IdtEntry::spec_options(
                dpl,
            ),
            final(self).spec_entries()[vector.spec_number() as int].offset_low == handler % 0x10000,
    {
        let idx = vector.number() as usize;
        let entry = IdtEntry::with_handler(handler, dpl);
        self.entries.set(idx, entry);
        proof {
            assert(self.spec_entries() =~= old(self).spec_entries().update(
                vector.spec_number() as int,
                self.spec_entries()[vector.spec_number() as int],
            ));
        }
    }

    /// Installs a handler entry for a vector whose handler receives an
    /// error code.
    pub fn set_handler_err(&mut self, vector: InterruptVector, handler: u64, dpl: u16)
        requires
            old(self).wf(),
        ensures
            final(self).wf(),
            final(self).spec_entries() == old(self).spec_entries().update(
                vector.spec_number() as int,
                final(self).spec_entries()[vector.spec_number() as int],
            ),
            final(self).spec_entries()[vector.spec_number() as int].options == IdtEntry::spec_options(
                dpl,
            ),
            final(self).spec_entries()[vector.spec_number() as int].offset_low == handler % 0x10000,
    {
        self.set_handler(vector, handler, dpl);
    }
}

impl IdtEntry {
    /// The missing entry as a value.
    pub open spec fn missing_spec() -> IdtEntry {
        IdtEntry {
            offset_low: 0,
            selector: 0,
            options: 0,
            offset_mid: 0,
            offset_high: 0,
            reserved: 0,
        }
    }
}


/// Size in bytes of the task state segment.
pub const TSS_SIZE_BYTES: u16 = 104;

/// The 64-bit task state segment, all fields cleared and the I/O map past
/// the segment's end.
pub struct TaskStateSegment {
    pub rsp: (u64, u64, u64),
    pub ist: (u64, u64, u64, u64, u64, u64, u64),
    pub iomap_base: u16,
}

impl TaskStateSegment {
    /// A cleared segment whose I/O map base points past the segment.
    pub fn new() -> (r: TaskStateSegment)
        ensures
            r.rsp == (0u64, 0u64, 0u64),
            r.iomap_base == TSS_SIZE_BYTES,
    {
        TaskStateSegment {
            rsp: (0, 0, 0),
            ist: (0, 0, 0, 0, 0, 0, 0),
            iomap_base: TSS_SIZE_BYTES,
        }
    }
}

/// The two-word system descriptor for a task state segment at `base`: the
/// limit and base spread over the first word with the type bits, and the
/// base's high half in the second.
pub open spec fn spec_tss_descriptor(base: u64) -> (u64, u64) {
    let limit = (TSS_SIZE_BYTES - 1) as u64;
    (
        (limit & 0xFFFF) | ((base & 0xFFFF) << 16) | (((base >> 16) & 0xFF) << 32) | (0x89u64
            << 40) | (((limit >> 16) & 0xF) << 48) | (((base >> 24) & 0xFF) << 56),
        base >> 32,
    )
}

/// Packs the system descriptor for a task state segment at `base`.
pub fn tss_descriptor(base: u64) -> (r: (u64, u64))
    ensures
        r == spec_tss_descriptor(base),
{
    let limit = (TSS_SIZE_BYTES - 1) as u64;
    let lower = (limit & 0xFFFF) | ((base & 0xFFFF) << 16) | (((base >> 16) & 0xFF) << 32) | (
    0x89u64 << 40) | (((limit >> 16) & 0xF) << 48) | (((base >> 24) & 0xFF) << 56);
    let upper = base >> 32;
    (lower, upper)
}

/// Raw segment descriptor for the kernel code segment.
pub const GDT_KERNEL_CODE: u64 = 0x00af9a000000ffff;

/// Raw segment descriptor for the kernel data segment.
pub const GDT_KERNEL_DATA: u64 = 0x00af92000000ffff;

/// Builds the global descriptor table: the null entry, kernel code and
/// data, and the two words describing the task state segment at
/// `tss_base`.
pub fn build_gdt(tss_base: u64) -> (r: Vec<u64>)
    ensures
        r@.len() == 5,
        r@[0] == 0,
        r@[1] == GDT_KERNEL_CODE,
        r@[2] == GDT_KERNEL_DATA,
        r@[3] == spec_tss_descriptor(tss_base).0,
        r@[4] == spec_tss_descriptor(tss_base).1,
{
    let (tss_low, tss_high) = tss_descriptor(tss_base);
    let mut gdt: Vec<u64> = Vec::new();
    gdt.push(0);
    gdt.push(GDT_KERNEL_CODE);
    gdt.push(GDT_KERNEL_DATA);
    gdt.push(tss_low);
    gdt.push(tss_high);
    gdt
}

/// A captured general-protection fault: instruction pointer, code segment
/// and error code, valid until consumed.
pub struct GpFaultCells {
    rip: u64,
    cs: u64,
    err: u64,
    valid: bool,
}

/// Default bus frequency the APIC timer divides down from.
pub const DEFAULT_BUS_HZ: u64 = 25_000_000;

/// Computes the periodic timer's initial count for the requested rate: the
/// bus frequency divided by the rate, never zero.
pub fn compute_initial_count(hz: u32) -> (r: u64)
    ensures
        r == (if hz == 0 {
            DEFAULT_BUS_HZ as int
        } else if DEFAULT_BUS_HZ as int / (hz as int) == 0 {
            1int
        } else {
            DEFAULT_BUS_HZ as int / (hz as int)
        }),
{
    let rate: u32 = if hz >= 1 {
        hz
    } else {
        1
    };
    let count = DEFAULT_BUS_HZ / (rate as u64);
    proof {
        assert(rate as int == (if hz == 0 {
            1int
        } else {
            hz as int
        }));
        assert(count == DEFAULT_BUS_HZ as int / (rate as int));
        assert(hz == 0 ==> count == DEFAULT_BUS_HZ as int);
    }
    if count == 0 {
        1
    } else {
        count
    }
}

/// The CPU-local machine state: interrupt flag, tick counter, callback
/// registry, captured fault, and timer arming.
pub struct ArchState {
    interrupts: bool,
    ticks: u64,
    timer_callback: u64,
    ipc_callback: u64,
    gp_fault: GpFaultCells,
    timer_armed: bool,
    timer_initial_count: u64,
}

impl ArchState {
    /// True when maskable interrupts are enabled.
    pub closed spec fn spec_interrupts_enabled(&self) -> bool {
        self.interrupts
    }

    /// The number of timer interrupts taken so far.
    pub closed spec fn spec_ticks(&self) -> u64 {
        self.ticks
    }

    /// The registered timer callback; zero means none.
    pub closed spec fn spec_timer_callback(&self) -> u64 {
        self.timer_callback
    }

    /// The registered IPC callback; zero means none.
    pub closed spec fn spec_ipc_callback(&self) -> u64 {
        self.ipc_callback
    }

    /// The captured fault triple while one is pending.
    pub closed spec fn spec_gp_fault(&self) -> Option<(u64, u64, u64)> {
        if self.gp_fault.valid {
            Some((self.gp_fault.rip, self.gp_fault.cs, self.gp_fault.err))
        } else {
            None
        }
    }

    /// Whether the periodic timer is armed.
    pub closed spec fn spec_timer_armed(&self) -> bool {
        self.timer_armed
    }

    /// The count the periodic timer was armed with.
    pub closed spec fn spec_timer_initial_count(&self) -> u64 {
        self.timer_initial_count
    }

    /// Creates the power-on model state: interrupts disabled, no ticks, no
    /// callbacks, no fault, timer unarmed.
    pub fn new() -> (r: ArchState)
        ensures
            !r.spec_interrupts_enabled(),
            r.spec_ticks() == 0,
            r.spec_timer_callback() == 0,
            r.spec_ipc_callback() == 0,
            r.spec_gp_fault() is None,
            !r.spec_timer_armed(),
    {
        ArchState {
            interrupts: false,
            ticks: 0,
            timer_callback: 0,
            ipc_callback: 0,
            gp_fault: GpFaultCells { rip: 0, cs: 0, err: 0, valid: false },
            timer_armed: false,
            timer_initial_count: 0,
        }
    }

    /// Enables maskable interrupts; everything else is untouched.
    pub fn enable_interrupts(&mut self)
        ensures
            final(self).spec_interrupts_enabled(),
            final(self).spec_ticks() == old(self).spec_ticks(),
            final(self).spec_timer_callback() == old(self).spec_timer_callback(),
            final(self).spec_ipc_callback() == old(self).spec_ipc_callback(),
            final(self).spec_gp_fault() == old(self).spec_gp_fault(),
            final(self).spec_timer_armed() == old(self).spec_timer_armed(),
            final(self).spec_timer_initial_count() == old(self).spec_timer_initial_count(),
    {
        self.interrupts = true;
    }

    /// Disables maskable interrupts; everything else is untouched.
    pub fn disable_interrupts(&mut self)
        ensures
            !final(self).spec_interrupts_enabled(),
            final(self).spec_ticks() == old(self).spec_ticks(),
            final(self).spec_timer_callback() == old(self).spec_timer_callback(),
            final(self).spec_ipc_callback() == old(self).spec_ipc_callback(),
            final(self).spec_gp_fault() == old(self).spec_gp_fault(),
            final(self).spec_timer_armed() == old(self).spec_timer_armed(),
            final(self).spec_timer_initial_count() == old(self).spec_timer_initial_count(),
    {
        self.interrupts = false;
    }

    /// Returns the interrupt flag.
    pub fn interrupts_enabled(&self) -> (r: bool)
        ensures
            r == self.spec_interrupts_enabled(),
    {
        self.interrupts
    }

    /// Reads the tick counter. The handler cannot run mid-read: the read
    /// happens with interrupts masked, as the contract's single value
    /// reflects.
    pub fn timer_ticks(&self) -> (r: u64)
        ensures
            r == self.spec_ticks(),
    {
        self.ticks
    }

    /// Registers the timer-interrupt callback; zero stands for none.
    pub fn register_timer_handler(&mut self, callback: u64)
        ensures
            final(self).spec_timer_callback() == callback,
            final(self).spec_interrupts_enabled() == old(self).spec_interrupts_enabled(),
            final(self).spec_ticks() == old(self).spec_ticks(),
            final(self).spec_ipc_callback() == old(self).spec_ipc_callback(),
            final(self).spec_gp_fault() == old(self).spec_gp_fault(),
            final(self).spec_timer_armed() == old(self).spec_timer_armed(),
            final(self).spec_timer_initial_count() == old(self).spec_timer_initial_count(),
    {
        self.timer_callback = callback;
    }

    /// Registers the IPC-trap callback; zero stands for none.
    pub fn register_ipc_handler(&mut self, callback: u64)
        ensures
            final(self).spec_ipc_callback() == callback,
            final(self).spec_interrupts_enabled() == old(self).spec_interrupts_enabled(),
            final(self).spec_ticks() == old(self).spec_ticks(),
            final(self).spec_timer_callback() == old(self).spec_timer_callback(),
            final(self).spec_gp_fault() == old(self).spec_gp_fault(),
            final(self).spec_timer_armed() == old(self).spec_timer_armed(),
            final(self).spec_timer_initial_count() == old(self).spec_timer_initial_count(),
    {
        self.ipc_callback = callback;
    }

    /// Takes a timer interrupt: the tick counter moves up by one, wrapping,
    /// before the registered callback — returned here for the caller to
    /// dispatch — would run.
    pub fn timer_trap(&mut self) -> (r: Option<u64>)
        ensures
            final(self).spec_ticks() == old(self).spec_ticks().wrapping_add(1),
            final(self).spec_interrupts_enabled() == old(self).spec_interrupts_enabled(),
            final(self).spec_timer_callback() == old(self).spec_timer_callback(),
            final(self).spec_ipc_callback() == old(self).spec_ipc_callback(),
            final(self).spec_gp_fault() == old(self).spec_gp_fault(),
            final(self).spec_timer_armed() == old(self).spec_timer_armed(),
            final(self).spec_timer_initial_count() == old(self).spec_timer_initial_count(),
            r == (if old(self).spec_timer_callback() == 0 {
                Option::<u64>::None
            } else {
                Some(old(self).spec_timer_callback())
            }),
    {
        self.ticks = self.ticks.wrapping_add(1);
        if self.timer_callback == 0 {
            None
        } else {
            Some(self.timer_callback)
        }
    }

    /// Takes an IPC trap: returns the registered callback, if any, for the
    /// caller to dispatch.
    pub fn ipc_trap(&self) -> (r: Option<u64>)
        ensures
            r == (if self.spec_ipc_callback() == 0 {
                Option::<u64>::None
            } else {
                Some(self.spec_ipc_callback())
            }),
    {
        if self.ipc_callback == 0 {
            None
        } else {
            Some(self.ipc_callback)
        }
    }

    /// Records a general-protection fault: the faulting instruction
    /// pointer, code segment and error code are captured and marked valid,
    /// and interrupts are disabled, as the handler does before halting.
    pub fn general_protection_fault(&mut self, frame: &InterruptStackFrame, error_code: u64)
        ensures
            final(self).spec_gp_fault() == Some(
                (frame.instruction_pointer, frame.code_segment, error_code),
            ),
            !final(self).spec_interrupts_enabled(),
            final(self).spec_ticks() == old(self).spec_ticks(),
    {
        self.gp_fault = GpFaultCells {
            rip: frame.instruction_pointer,
            cs: frame.code_segment,
            err: error_code,
            valid: true,
        };
        self.interrupts = false;
    }

    /// Consumes the captured fault: returns the triple and clears the
    /// valid flag, or `None` when no fault is pending.
    pub fn take_last_gp_fault(&mut self) -> (r: Option<(u64, u64, u64)>)
        ensures
            r == old(self).spec_gp_fault(),
            final(self).spec_gp_fault() is None,
            final(self).spec_ticks() == old(self).spec_ticks(),
            final(self).spec_interrupts_enabled() == old(self).spec_interrupts_enabled(),
    {
        if self.gp_fault.valid {
            self.gp_fault.valid = false;
            Some((self.gp_fault.rip, self.gp_fault.cs, self.gp_fault.err))
        } else {
            None
        }
    }

    /// Arms the periodic timer at the requested rate; zero is a no-op.
    pub fn start_timer(&mut self, hz: u32)
        ensures
            hz == 0 ==> *final(self) == *old(self),
            hz != 0 ==> final(self).spec_timer_armed(),
            final(self).spec_interrupts_enabled() == old(self).spec_interrupts_enabled(),
            final(self).spec_ticks() == old(self).spec_ticks(),
            final(self).spec_timer_callback() == old(self).spec_timer_callback(),
            final(self).spec_ipc_callback() == old(self).spec_ipc_callback(),
            final(self).spec_gp_fault() == old(self).spec_gp_fault(),
            hz != 0 ==> final(self).spec_timer_initial_count() as int == (if DEFAULT_BUS_HZ as int
                / (hz as int) == 0 {
                1int
            } else {
                DEFAULT_BUS_HZ as int / (hz as int)
            }),
    {
        if hz == 0 {
            return ;
        }
        let count = compute_initial_count(hz);
        self.timer_armed = true;
        self.timer_initial_count = count;
    }
}

/// The word the kernel writes to the emulator's debug-exit port to end an
/// automated run: the exit code shifted up one bit with the low bit set.
pub fn debug_exit_word(code: u32) -> (r: u32)
    requires
        code < 0x80000000,
    ensures
        r == 2 * code + 1,
{
    proof {
        assert(code < 0x80000000 ==> (code << 1) | 1 == 2 * code + 1) by (bit_vector);
    }
    (code << 1) | 1
}

/// Compares the first `len` bytes of two buffers: zero when they agree,
/// else the difference of the first disagreeing pair.
pub open spec fn spec_memcmp(a: Seq<u8>, b: Seq<u8>, i: int, len: int) -> int
    decreases len - i,
{
    if i >= len {
        0
    } else if a[i] != b[i] {
        a[i] - b[i]
    } else {
        spec_memcmp(a, b, i + 1, len)
    }
}

/// Byte-wise comparison of the first `len` bytes of two buffers.
pub fn memcmp(a: &[u8], b: &[u8], len: usize) -> (r: i32)
    requires
        len <= a@.len(),
        len <= b@.len(),
    ensures
        r == spec_memcmp(a@, b@, 0, len as int),
        r == 0 <==> (forall|i: int| 0 <= i < len ==> a@[i] == b@[i]),
{
    let mut idx: usize = 0;
    while idx < len
        invariant
            idx <= len,
            len <= a@.len(),
            len <= b@.len(),
            spec_memcmp(a@, b@, 0, len as int) == spec_memcmp(a@, b@, idx as int, len as int),
            forall|i: int| 0 <= i < idx ==> a@[i] == b@[i],
        decreases len - idx,
    {
        let lhs = a[idx];
        let rhs = b[idx];
        if lhs != rhs {
            proof {
                lemma_memcmp_nonzero(a@, b@, 0, idx as int, len as int);
            }
            return lhs as i32 - rhs as i32;
        }
        idx += 1;
    }
    0
}

proof fn lemma_memcmp_nonzero(a: Seq<u8>, b: Seq<u8>, from: int, at: int, len: int)
    requires
        0 <= from <= at < len,
        forall|i: int| from <= i < at ==> a[i] == b[i],
        a[at] != b[at],
    ensures
        spec_memcmp(a, b, from, len) == a[at] - b[at],
    decreases at - from,
{
    if from < at {
        lemma_memcmp_nonzero(a, b, from + 1, at, len);
    }
}

/// The sixteen lower-case hexadecimal digit characters.
pub open spec fn spec_hex_digit(n: u64) -> u8
    recommends
        n < 16,
{
    if n < 10 {
        (0x30 + n) as u8
    } else {
        (0x57 + n) as u8
    }
}

/// Formats a 64-bit value as sixteen lower-case hexadecimal digit bytes,
/// most significant nibble first.
pub fn u64_hex_digits(value: u64) -> (r: Vec<u8>)
    ensures
        r@.len() == 16,
        forall|i: int|
            0 <= i < 16 ==> r@[i] == spec_hex_digit((value >> (((15 - i) * 4) as u64)) & 0xF),
{
    let mut buf: Vec<u8> = Vec::new();
    let mut idx: usize = 0;
    while idx < 16
        invariant
            idx <= 16,
            buf@.len() == idx,
            forall|i: int|
                0 <= i < idx ==> buf@[i] == spec_hex_digit((value >> (((15 - i) * 4) as u64))
                    & 0xF),
        decreases 16 - idx,
    {
        let shift = ((15 - idx) * 4) as u64;
        let nibble = (value >> shift) & 0xF;
        proof {
            let sh = shift;
            assert(sh <= 60 ==> ((value >> sh) & 0xF) < 16) by (bit_vector);
        }
        let digit = if nibble < 10 {
            0x30u8 + (nibble as u8)
        } else {
            0x57u8 + (nibble as u8)
        };
        buf.push(digit);
        idx += 1;
    }
    buf
}

/// Builds the identity-mapped page directory: 512 two-megabyte huge-page
/// entries with the present, writable and huge bits set.
pub fn build_identity_page_directory() -> (r: Vec<u64>)
    ensures
        r@.len() == 512,
        forall|i: int| 0 <= i < 512 ==> r@[i] == i * 0x200000 + 0x83,
{
    let mut entries: Vec<u64> = Vec::new();
    let mut idx: usize = 0;
    while idx < 512
        invariant
            idx <= 512,
            entries@.len() == idx,
            forall|i: int| 0 <= i < idx ==> entries@[i] == i * 0x200000 + 0x83,
        decreases 512 - idx,
    {
        let base = (idx as u64) * 0x200000;
        proof {
            assert((idx as u64) < 512 ==> (idx as u64) * 0x200000 + 0x83 <= u64::MAX)
                by (nonlinear_arith);
        }
        entries.push(base + 0x83);
        idx += 1;
    }
    entries
}

} // verus!
