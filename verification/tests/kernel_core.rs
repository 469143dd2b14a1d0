//! The kernel core: frame allocator, channel, scheduler, lock, machine
//! state, and the boot handshake.

use rustcore::arch::ArchState;
use rustcore::bootproto::{BootInfo, MemoryRange, MemoryRegion, MemoryRegionKind, BOOTINFO_VERSION};
use rustcore::channel::{Channel, ReceiveError, SendError};
use rustcore::kernel::{self, TaskProgram};
use rustcore::memory::{frame_size, FrameAllocator};
use rustcore::scheduler::ReadyQueue;
use rustcore::sync::SpinLock;

#[test]
fn frame_allocator_exhaustion() {
    let mut alloc = FrameAllocator::new();
    alloc.init(None);
    assert_eq!(alloc.reserved_frames(), 4);
    let mut frames = Vec::new();
    for _ in 0..124 {
        let frame = alloc.allocate_frame().expect("allocation should succeed");
        assert!(frames.iter().all(|f: &rustcore::memory::Frame| f.number() != frame.number()));
        frames.push(frame);
    }
    assert!(alloc.allocate_frame().is_none());
    assert!(alloc.release_frame(frames[0]));
    assert!(alloc.allocate_frame().is_some());
}

#[test]
fn test_double_release() {
    let mut alloc = FrameAllocator::new();
    alloc.init(None);
    let frame = alloc.allocate_frame().expect("allocation should succeed");
    assert!(alloc.release_frame(frame));
    assert!(!alloc.release_frame(frame));
}

#[test]
fn allocator_parity() {
    let mut alloc = FrameAllocator::new();
    alloc.init(None);
    let initial = alloc.reserved_frames();
    let a = alloc.allocate_frame().unwrap();
    let b = alloc.allocate_frame().unwrap();
    assert_eq!(alloc.reserved_frames(), initial + 2);
    assert!(alloc.release_frame(a));
    assert_eq!(alloc.reserved_frames(), initial + 1);
    assert!(!alloc.release_frame(a));
    assert_eq!(alloc.reserved_frames(), initial + 1);
    assert!(alloc.release_frame(b));
    assert_eq!(alloc.reserved_frames(), initial);
}

#[test]
fn allocator_seeded_from_boot_info() {
    let info = BootInfo {
        version: BOOTINFO_VERSION,
        flags: 0,
        stack_top: 0,
        memory_map: vec![
            MemoryRegion { base: 0, length: 64 * 4096, kind: MemoryRegionKind::UsableRam },
            MemoryRegion {
                base: 64 * 4096,
                length: 64 * 4096,
                kind: MemoryRegionKind::Reserved,
            },
        ],
        rsdp: 0,
        bootfs: MemoryRange::empty(),
        kernel_digest: vec![0; 32],
    };
    let mut alloc = FrameAllocator::new();
    alloc.apply_boot_info(&info);
    // 64 reserved high frames plus the 4 low boot frames
    assert_eq!(alloc.reserved_frames(), 68);
}

#[test]
fn frame_size_constant() {
    assert_eq!(frame_size(), 4096);
}

#[test]
fn frame_start_address() {
    let mut alloc = FrameAllocator::new();
    alloc.init(None);
    let frame = alloc.allocate_frame().unwrap();
    assert_eq!(frame.start_addr(), frame.number() as usize * 4096);
}

#[test]
fn channel_saturation() {
    let mut channel = Channel::new();
    for _ in 0..16 {
        assert!(channel.send(b"a").is_ok());
    }
    assert_eq!(channel.send(b"a"), Err(SendError::Full));
    let mut buf = vec![0u8; 4];
    assert!(channel.receive(&mut buf).is_ok());
    assert!(channel.send(b"a").is_ok());
}

#[test]
fn channel_fifo_order() {
    let mut channel = Channel::new();
    channel.send(b"one").unwrap();
    channel.send(b"two").unwrap();
    channel.send(b"three").unwrap();
    let mut buf = vec![0u8; 8];
    let n = channel.receive(&mut buf).unwrap();
    assert_eq!(&buf[..n], b"one");
    let n = channel.receive(&mut buf).unwrap();
    assert_eq!(&buf[..n], b"two");
    let n = channel.receive(&mut buf).unwrap();
    assert_eq!(&buf[..n], b"three");
    assert_eq!(channel.receive(&mut buf), Err(ReceiveError::Empty));
}

#[test]
fn channel_oversized_and_empty() {
    let mut channel = Channel::new();
    let big = vec![0u8; 65];
    assert_eq!(channel.send(&big), Err(SendError::Oversized));
    let mut buf = vec![0u8; 4];
    assert_eq!(channel.receive(&mut buf), Err(ReceiveError::Empty));
}

#[test]
fn channel_truncates_to_buffer() {
    let mut channel = Channel::new();
    channel.send(b"abcdef").unwrap();
    let mut buf = vec![0u8; 4];
    let n = channel.receive(&mut buf).unwrap();
    assert_eq!(n, 4);
    assert_eq!(&buf[..], b"abcd");
}

#[test]
fn scheduler_fifo_ids() {
    let mut queue: ReadyQueue<u64> = ReadyQueue::new();
    let a = queue.push(10).unwrap();
    let b = queue.push(20).unwrap();
    let c = queue.push(30).unwrap();
    let t1 = queue.pop().unwrap();
    let t2 = queue.pop().unwrap();
    let t3 = queue.pop().unwrap();
    assert_eq!(t1.id, a);
    assert_eq!(t2.id, b);
    assert_eq!(t3.id, c);
    assert_eq!(t1.entry, 10);
    assert_eq!(t2.entry, 20);
    assert_eq!(t3.entry, 30);
    assert!(queue.pop().is_none());
}

#[test]
fn scheduler_queue_capacity() {
    let mut queue: ReadyQueue<u64> = ReadyQueue::new();
    let mut registered = 0;
    while queue.push(0).is_some() {
        registered += 1;
    }
    assert_eq!(registered, 15);
    assert!(queue.push(0).is_none());
}

#[test]
fn lock_masks_interrupts() {
    let mut arch = ArchState::new();
    arch.enable_interrupts();
    let lock = SpinLock::new(7u64);
    let guard = lock.lock(&mut arch);
    assert!(!arch.interrupts_enabled());
    assert_eq!(*lock.get(&guard), 7);
    lock.unlock(&mut arch, guard);
    assert!(arch.interrupts_enabled());
}

#[test]
fn lock_restores_disabled_state() {
    let mut arch = ArchState::new();
    assert!(!arch.interrupts_enabled());
    let lock = SpinLock::new(0u8);
    let guard = lock.lock(&mut arch);
    assert!(!arch.interrupts_enabled());
    lock.unlock(&mut arch, guard);
    assert!(!arch.interrupts_enabled());
}

#[test]
fn timer_ticks_and_gp_fault() {
    let mut arch = ArchState::new();
    assert_eq!(arch.timer_ticks(), 0);
    arch.register_timer_handler(5);
    let cb = arch.timer_trap();
    assert_eq!(arch.timer_ticks(), 1);
    assert_eq!(cb, Some(5));
    assert!(arch.take_last_gp_fault().is_none());
    let frame = rustcore::arch::InterruptStackFrame {
        instruction_pointer: 0x1000,
        code_segment: 8,
        cpu_flags: 0,
        stack_pointer: 0,
        stack_segment: 0,
    };
    arch.general_protection_fault(&frame, 0x11);
    assert_eq!(arch.take_last_gp_fault(), Some((0x1000, 8, 0x11)));
    assert!(arch.take_last_gp_fault().is_none());
}

#[test]
fn apic_timer_arming() {
    let mut arch = ArchState::new();
    arch.start_timer(0);
    assert_eq!(rustcore::arch::compute_initial_count(100), 250_000);
    assert_eq!(rustcore::arch::compute_initial_count(0), 25_000_000);
    arch.start_timer(100);
}

#[test]
fn happy_path_boot() {
    let mut k = kernel::init(None, Vec::new());
    k.ipc.register_init_service();
    let id = k.register(TaskProgram::InitBootstrap);
    assert!(id.is_some());
    assert!(k.ipc.send_bootstrap_message(b"BOOT").is_ok());
    let ran = k.run();
    assert_eq!(ran.len(), 1);
    let mut ack = vec![0u8; 16];
    let n = k.ipc.receive_bootstrap_message(&mut ack).unwrap();
    assert_eq!(n, 10);
    assert_eq!(&ack[..n], b"INIT:READY");
}

#[test]
fn unrouted_send() {
    let mut k = kernel::init(None, Vec::new());
    assert_eq!(k.ipc.send_bootstrap_message(b"X"), Err(SendError::Unroutable));
    let mut buf = vec![0u8; 4];
    assert_eq!(k.ipc.receive_bootstrap_message(&mut buf), Err(ReceiveError::Empty));
}

#[test]
fn init_without_bootstrap_message_answers_fail() {
    let mut k = kernel::init(None, Vec::new());
    k.ipc.register_init_service();
    let _ = k.register(TaskProgram::InitBootstrap);
    let ran = k.run();
    assert_eq!(ran.len(), 1);
    let mut ack = vec![0u8; 16];
    let n = k.ipc.receive_bootstrap_message(&mut ack).unwrap();
    assert_eq!(&ack[..n], b"INIT:FAIL");
}

#[test]
fn ipc_trap_pending_flag() {
    let mut k = kernel::init(None, Vec::new());
    assert!(!k.ipc.take_ipc_interrupt());
    k.ipc.handle_ipc_trap();
    assert!(k.ipc.take_ipc_interrupt());
    assert!(!k.ipc.take_ipc_interrupt());
}

#[test]
fn idt_entry_layout() {
    let entry = rustcore::arch::IdtEntry::with_handler(0x1234_5678_9abc_def0, 3);
    assert_eq!(entry.offset_low, 0xdef0);
    assert_eq!(entry.offset_mid, 0x9abc);
    assert_eq!(entry.offset_high, 0x1234_5678);
    assert_eq!(entry.selector, 0x08);
    assert_eq!(entry.options, 0x8E00 | (3 << 13));
}

#[test]
fn identity_page_directory_layout() {
    let pd = rustcore::arch::build_identity_page_directory();
    assert_eq!(pd.len(), 512);
    assert_eq!(pd[0], 0x83);
    assert_eq!(pd[1], 0x200000 + 0x83);
    assert_eq!(pd[511], 511 * 0x200000 + 0x83);
}

#[test]
fn hex_digit_rendering() {
    let digits = rustcore::arch::u64_hex_digits(0x0123_4567_89ab_cdef);
    assert_eq!(digits, b"0123456789abcdef".to_vec());
    let zero = rustcore::arch::u64_hex_digits(0);
    assert_eq!(zero, b"0000000000000000".to_vec());
}

#[test]
fn memcmp_matches_prefixes() {
    assert_eq!(rustcore::arch::memcmp(b"abc", b"abd", 2), 0);
    assert!(rustcore::arch::memcmp(b"abc", b"abd", 3) < 0);
    assert!(rustcore::arch::memcmp(b"abe", b"abd", 3) > 0);
}

#[test]
fn boot_store_records_handoff() {
    let info = BootInfo {
        version: BOOTINFO_VERSION,
        flags: 0,
        stack_top: 0x8000,
        memory_map: Vec::new(),
        rsdp: 0,
        bootfs: MemoryRange { base: 0x2000, length: 3 },
        kernel_digest: vec![7; 32],
    };
    assert!(info.is_compatible());
    let mut k = kernel::init(Some(info), vec![1, 2, 3]);
    let range = k.boot.bootfs_range().unwrap();
    assert_eq!(range.base, 0x2000);
    assert_eq!(range.length, 3);
    assert_eq!(k.boot.kernel_digest().unwrap(), vec![7; 32]);
    let frame = k.memory.allocate_frame();
    assert!(frame.is_some());
}

#[test]
fn descriptor_table_layout() {
    let tss = rustcore::arch::TaskStateSegment::new();
    assert_eq!(tss.iomap_base, 104);
    let (low, high) = rustcore::arch::tss_descriptor(0);
    assert_eq!(low, 103 | (0x89u64 << 40));
    assert_eq!(high, 0);
    let (_, high) = rustcore::arch::tss_descriptor(0x1_0000_0000);
    assert_eq!(high, 1);
    let gdt = rustcore::arch::build_gdt(0);
    assert_eq!(gdt.len(), 5);
    assert_eq!(gdt[0], 0);
    assert_eq!(gdt[1], 0x00af9a000000ffff);
    assert_eq!(gdt[2], 0x00af92000000ffff);
    assert_eq!(gdt[3], low);
}

#[test]
fn empty_message_roundtrip() {
    let mut channel = Channel::new();
    assert!(channel.send(b"").is_ok());
    let mut buf = vec![0u8; 8];
    let n = channel.receive(&mut buf).unwrap();
    assert_eq!(n, 0);
}

#[test]
fn zero_buffer_receive_consumes_message() {
    let mut channel = Channel::new();
    channel.send(b"data").unwrap();
    let mut empty: Vec<u8> = Vec::new();
    let n = channel.receive(&mut empty).unwrap();
    assert_eq!(n, 0);
    let mut buf = vec![0u8; 8];
    assert_eq!(channel.receive(&mut buf), Err(ReceiveError::Empty));
}

#[test]
fn multiple_message_exchanges() {
    let mut channel = Channel::new();
    for round in 0u8..3 {
        let payload = [round, round + 1, round + 2];
        channel.send(&payload).unwrap();
        let mut buf = vec![0u8; 8];
        let n = channel.receive(&mut buf).unwrap();
        assert_eq!(&buf[..n], &payload);
    }
}
