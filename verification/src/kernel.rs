//! The kernel's process-wide state and its boot flow: initialize the
//! subsystems in dependency order, then drain the scheduler, running each
//! registered task program to completion.

use vstd::prelude::*;

use crate::arch::ArchState;
use crate::boot::BootStore;
use crate::bootfs::BootfsView;
use crate::bootproto::BootInfo;
use crate::channel::MAX_MESSAGES;
use crate::ipc_bridge::IpcBridge;
use crate::memory::FrameAllocator;
use crate::scheduler::{ReadyQueue, TaskControlBlock, TaskId};

verus! {

broadcast use
    crate::scheduler::ReadyQueue::lemma_len_bound,
    crate::ipc_bridge::IpcBridge::lemma_channel_view,
    crate::ipc_bridge::IpcBridge::lemma_contents_len,
    crate::channel::Channel::lemma_contents_len;

/// The task programs the kernel knows how to run. Entry points are not
/// function pointers here but named programs, so a run's effect on the
/// kernel state is itself specified.
#[derive(Debug, Clone, Copy, PartialEq, Eq, Structural)]
pub enum TaskProgram {
    /// The init service's bootstrap: validate the manifest, take one
    /// bootstrap datagram, and answer with a readiness message.
    InitBootstrap,
}

/// The payload the init task answers with after a successful receive,
/// `INIT:READY`.
pub open spec fn init_ready_payload() -> Seq<u8> {
    seq![0x49u8, 0x4eu8, 0x49u8, 0x54u8, 0x3au8, 0x52u8, 0x45u8, 0x41u8, 0x44u8, 0x59u8]
}

/// The payload the init task answers with after a failed receive,
/// `INIT:FAIL`.
pub open spec fn init_fail_payload() -> Seq<u8> {
    seq![0x49u8, 0x4eu8, 0x49u8, 0x54u8, 0x3au8, 0x46u8, 0x41u8, 0x49u8, 0x4cu8]
}

/// The channel contents after the init task runs: it takes the head
/// datagram if one is queued, then answers `INIT:READY` on success and
/// `INIT:FAIL` on an empty channel; the answer is dropped when the queue
/// is full.
pub open spec fn spec_init_task(c: Seq<Seq<u8>>) -> Seq<Seq<u8>> {
    let after = if c.len() > 0 {
        c.drop_first()
    } else {
        c
    };
    let payload = if c.len() > 0 {
        init_ready_payload()
    } else {
        init_fail_payload()
    };
    if after.len() < MAX_MESSAGES {
        after.push(payload)
    } else {
        after
    }
}

/// The channel contents after a run drains the given tasks in order.
pub open spec fn spec_run_tasks(
    tasks: Seq<TaskControlBlock<TaskProgram>>,
    c: Seq<Seq<u8>>,
) -> Seq<Seq<u8>>
    decreases tasks.len(),
{
    if tasks.len() == 0 {
        c
    } else {
        spec_run_tasks(tasks.drop_first(), spec_init_task(c))
    }
}

/// The kernel's process-wide state: machine model, handoff record, frame
/// allocator, IPC bridge, scheduler, and the staged boot filesystem.
pub struct Kernel {
    pub arch: ArchState,
    pub boot: BootStore,
    pub memory: FrameAllocator,
    pub ipc: IpcBridge,
    pub scheduler: ReadyQueue<TaskProgram>,
    pub bootfs: BootfsView,
}

/// Initializes the kernel subsystems in dependency order and enables
/// interrupts: the handoff record is stored, the frame allocator is seeded
/// from it, IPC starts empty and unrouted, and the scheduler starts with
/// an empty queue. `bootfs_image` holds the bytes of the staged boot
/// filesystem extent the record describes.
pub fn init(boot_info: Option<BootInfo>, bootfs_image: Vec<u8>) -> (k: Kernel)
    requires
        match boot_info {
            Some(info) => info.bootfs.length == bootfs_image@.len(),
            None => bootfs_image@.len() == 0,
        },
    ensures
        k.arch.spec_interrupts_enabled(),
        k.memory.wf(),
        k.ipc.wf(),
        k.ipc.contents() == Seq::<Seq<u8>>::empty(),
        !k.ipc.spec_init_registered(),
        !k.ipc.spec_ipc_pending(),
        k.scheduler.wf(),
        k.scheduler.tasks() == Seq::<TaskControlBlock<TaskProgram>>::empty(),
        k.bootfs.spec_data() == bootfs_image@,
        match boot_info {
            Some(info) => k.boot.spec_info() == Some(info),
            None => k.boot.spec_info() is None,
        },
{
    let mut arch = ArchState::new();
    let mut boot = BootStore::new();
    let mut memory = FrameAllocator::new();
    let mut ipc = IpcBridge::new();
    let scheduler: ReadyQueue<TaskProgram> = ReadyQueue::new();

    let bootfs = match &boot_info {
        Some(info) => BootfsView::from_range(info.bootfs, bootfs_image),
        None => BootfsView::empty(),
    };
    match &boot_info {
        Some(info) => memory.apply_boot_info(info),
        None => memory.init(None),
    }
    boot.init(boot_info);
    ipc.init(&mut arch);
    arch.enable_interrupts();

    Kernel { arch, boot, memory, ipc, scheduler, bootfs }
}

fn init_ready_bytes() -> (r: Vec<u8>)
    ensures
        r@ == init_ready_payload(),
{
    let mut v: Vec<u8> = Vec::new();
    v.push(0x49);
    v.push(0x4e);
    v.push(0x49);
    v.push(0x54);
    v.push(0x3a);
    v.push(0x52);
    v.push(0x45);
    v.push(0x41);
    v.push(0x44);
    v.push(0x59);
    proof {
        assert(v@ =~= init_ready_payload());
    }
    v
}

fn init_fail_bytes() -> (r: Vec<u8>)
    ensures
        r@ == init_fail_payload(),
{
    let mut v: Vec<u8> = Vec::new();
    v.push(0x49);
    v.push(0x4e);
    v.push(0x49);
    v.push(0x54);
    v.push(0x3a);
    v.push(0x46);
    v.push(0x41);
    v.push(0x49);
    v.push(0x4c);
    proof {
        assert(v@ =~= init_fail_payload());
    }
    v
}

impl Kernel {
    /// Registers a task program with the scheduler; refused when the ready
    /// queue is full.
    pub fn register(&mut self, entry: TaskProgram) -> (r: Option<TaskId>)
        requires
            old(self).scheduler.wf(),
        ensures
            final(self).scheduler.wf(),
            final(self).arch == old(self).arch,
            final(self).boot == old(self).boot,
            final(self).memory == old(self).memory,
            final(self).ipc == old(self).ipc,
            final(self).bootfs == old(self).bootfs,
            match r {
                Some(id) => {
                    &&& old(self).scheduler.spec_len() < crate::scheduler::MAX_TASKS - 1
                    &&& id.spec_num() == old(self).scheduler.spec_next_id()
                    &&& final(self).scheduler.spec_next_id() == (old(self).scheduler.spec_next_id()
                        + 1) % 0x10000
                    &&& final(self).scheduler.tasks() == old(self).scheduler.tasks().push(
                        TaskControlBlock {
                            id,
                            entry,
                            state: crate::scheduler::TaskState::Ready,
                        },
                    )
                },
                None => {
                    &&& old(self).scheduler.spec_len() == crate::scheduler::MAX_TASKS - 1
                    &&& final(self).scheduler == old(self).scheduler
                },
            },
    {
        self.scheduler.push(entry)
    }

    /// Fetches the next runnable task, marking it as running.
    pub fn next_task(&mut self) -> (r: Option<TaskControlBlock<TaskProgram>>)
        requires
            old(self).scheduler.wf(),
        ensures
            final(self).scheduler.wf(),
            final(self).arch == old(self).arch,
            final(self).boot == old(self).boot,
            final(self).memory == old(self).memory,
            final(self).ipc == old(self).ipc,
            final(self).bootfs == old(self).bootfs,
            match r {
                Some(tcb) => {
                    &&& old(self).scheduler.spec_len() > 0
                    &&& tcb.id == old(self).scheduler.tasks().first().id
                    &&& tcb.entry == old(self).scheduler.tasks().first().entry
                    &&& tcb.state == crate::scheduler::TaskState::Running
                    &&& final(self).scheduler.tasks() == old(self).scheduler.tasks().drop_first()
                },
                None => {
                    &&& old(self).scheduler.spec_len() == 0
                    &&& final(self).scheduler == old(self).scheduler
                },
            },
    {
        self.scheduler.pop()
    }

    /// Runs one task program to completion against the kernel's IPC state.
    fn run_program(&mut self, program: TaskProgram)
        requires
            old(self).ipc.wf(),
        ensures
            final(self).ipc.wf(),
            final(self).ipc.contents() == spec_init_task(old(self).ipc.contents()),
            final(self).ipc.spec_init_registered() == old(self).ipc.spec_init_registered(),
            final(self).ipc.spec_ipc_pending() == old(self).ipc.spec_ipc_pending(),
            final(self).arch == old(self).arch,
            final(self).boot == old(self).boot,
            final(self).memory == old(self).memory,
            final(self).scheduler == old(self).scheduler,
            final(self).bootfs == old(self).bootfs,
    {
        match program {
            TaskProgram::InitBootstrap => {
                let ghost c0 = self.ipc.contents();
                let channel = self.ipc.kernel_channel_mut();
                let outcome = crate::init::bootstrap(channel, &self.bootfs);
                let payload = if outcome.receive_error.is_none() {
                    init_ready_bytes()
                } else {
                    init_fail_bytes()
                };
                let channel = self.ipc.kernel_channel_mut();
                let _ = channel.send(payload.as_slice());
            },
        }
    }

    /// Drains the scheduler, running tasks in FIFO order until the queue
    /// is empty: every task registered before the call runs exactly once,
    /// in registration order, and the returned ids record that order.
    pub fn run(&mut self) -> (ran: Vec<TaskId>)
        requires
            old(self).scheduler.wf(),
            old(self).ipc.wf(),
        ensures
            final(self).scheduler.wf(),
            final(self).ipc.wf(),
            final(self).scheduler.tasks() == Seq::<TaskControlBlock<TaskProgram>>::empty(),
            ran@.len() == old(self).scheduler.tasks().len(),
            forall|i: int|
                0 <= i < ran@.len() ==> ran@[i] == old(self).scheduler.tasks()[i].id,
            final(self).ipc.contents() == spec_run_tasks(
                old(self).scheduler.tasks(),
                old(self).ipc.contents(),
            ),
            final(self).ipc.spec_init_registered() == old(self).ipc.spec_init_registered(),
            final(self).arch == old(self).arch,
            final(self).boot == old(self).boot,
            final(self).memory == old(self).memory,
            final(self).bootfs == old(self).bootfs,
    {
        let ghost tasks0 = self.scheduler.tasks();
        let ghost c0 = self.ipc.contents();
        let mut ran: Vec<TaskId> = Vec::new();
        loop
            invariant
                self.scheduler.wf(),
                self.ipc.wf(),
                tasks0 == old(self).scheduler.tasks(),
                c0 == old(self).ipc.contents(),
                ran@.len() + self.scheduler.tasks().len() == tasks0.len(),
                forall|i: int| 0 <= i < ran@.len() ==> ran@[i] == tasks0[i].id,
                forall|i: int|
                    0 <= i < self.scheduler.tasks().len() ==> #[trigger] self.scheduler.tasks()[i]
                        == tasks0[ran@.len() + i],
                spec_run_tasks(tasks0, c0) == spec_run_tasks(
                    self.scheduler.tasks(),
                    self.ipc.contents(),
                ),
                self.ipc.spec_init_registered() == old(self).ipc.spec_init_registered(),
                self.arch == old(self).arch,
                self.boot == old(self).boot,
                self.memory == old(self).memory,
                self.bootfs == old(self).bootfs,
            decreases self.scheduler.tasks().len(),
        {
            let ghost pre_tasks = self.scheduler.tasks();
            let task = self.scheduler.pop();
            match task {
                Some(tcb) => {
                    proof {
                        assert(pre_tasks.first() == tasks0[ran@.len() as int]);
                    }
                    self.run_program(tcb.entry);
                    ran.push(tcb.id);
                },
                None => {
                    proof {
                        assert(self.scheduler.tasks() =~= Seq::<
                            TaskControlBlock<TaskProgram>,
                        >::empty());
                    }
                    return ran;
                },
            }
        }
    }
}

} // verus!
