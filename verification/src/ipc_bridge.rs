//! Kernel-side IPC: the kernel channel, the routing table that directs
//! bootstrap traffic to the registered init endpoint, and the IPC-trap
//! pending flag.

use vstd::prelude::*;

use crate::arch::ArchState;
use crate::channel::{self, Channel, ReceiveError, SendError, MAX_MESSAGES, MAX_PAYLOAD};

verus! {

/// Callback token the bridge registers for the user-service IPC trap;
/// dispatching it sets the pending flag.
pub const IPC_TRAP_HANDLER: u64 = 1;

/// Directs bootstrap traffic: a single flag saying whether the init
/// service subscribed.
struct RoutingTable {
    init_registered: bool,
}

impl RoutingTable {
    fn new() -> (r: RoutingTable)
        ensures
            !r.init_registered,
    {
        RoutingTable { init_registered: false }
    }

    fn mark_init_registered(&mut self)
        ensures
            final(self).init_registered,
    {
        self.init_registered = true;
    }

    fn clear(&mut self)
        ensures
            !final(self).init_registered,
    {
        self.init_registered = false;
    }

    fn init_registered(&self) -> (r: bool)
        ensures
            r == self.init_registered,
    {
        self.init_registered
    }
}

/// The kernel's IPC state: the bootstrap channel, the routing flag, and
/// the trap-pending flag.
pub struct IpcBridge {
    channel: Channel,
    routing: RoutingTable,
    ipc_pending: bool,
}

impl IpcBridge {
    /// The queued bootstrap payloads, oldest first.
    pub closed spec fn contents(&self) -> Seq<Seq<u8>> {
        self.channel.contents()
    }

    /// Whether the init service has registered for startup messages.
    pub closed spec fn spec_init_registered(&self) -> bool {
        self.routing.init_registered
    }

    /// Whether an IPC trap arrived since the last check.
    pub closed spec fn spec_ipc_pending(&self) -> bool {
        self.ipc_pending
    }

    /// Structural invariant of the channel ring.
    pub closed spec fn wf(&self) -> bool {
        self.channel.wf()
    }

    /// A well-formed bridge queues at most `MAX_MESSAGES` payloads.
    pub broadcast proof fn lemma_contents_len(&self)
        requires
            #[trigger] self.wf(),
        ensures
            self.contents().len() <= MAX_MESSAGES,
    {
        self.channel.lemma_contents_len();
    }

    /// Creates a bridge with an empty channel, no subscriber and no
    /// pending trap.
    pub fn new() -> (r: IpcBridge)
        ensures
            r.wf(),
            r.contents() == Seq::<Seq<u8>>::empty(),
            !r.spec_init_registered(),
            !r.spec_ipc_pending(),
    {
        IpcBridge { channel: Channel::new(), routing: RoutingTable::new(), ipc_pending: false }
    }

    /// Initializes kernel-side IPC: hooks the IPC trap, empties the
    /// channel, clears the routing table and the pending flag.
    pub fn init(&mut self, arch: &mut ArchState)
        ensures
            final(self).wf(),
            final(self).contents() == Seq::<Seq<u8>>::empty(),
            !final(self).spec_init_registered(),
            !final(self).spec_ipc_pending(),
            final(arch).spec_ipc_callback() == IPC_TRAP_HANDLER,
            final(arch).spec_interrupts_enabled() == old(arch).spec_interrupts_enabled(),
            final(arch).spec_ticks() == old(arch).spec_ticks(),
    {
        arch.register_ipc_handler(IPC_TRAP_HANDLER);
        channel::init(&mut self.channel);
        self.routing.clear();
        self.ipc_pending = false;
    }

    /// Exposes the kernel-managed channel to the rest of the system.
    pub fn kernel_channel(&self) -> (r: &Channel)
        ensures
            r.wf() == self.wf(),
            r.contents() == self.contents(),
    {
        &self.channel
    }

    /// Exposes the kernel-managed channel for sends and receives.
    pub fn kernel_channel_mut(&mut self) -> (r: &mut Channel)
        ensures
            *r == old(self).spec_channel(),
            final(self).spec_channel() == *final(r),
            final(self).spec_init_registered() == old(self).spec_init_registered(),
            final(self).spec_ipc_pending() == old(self).spec_ipc_pending(),
    {
        &mut self.channel
    }

    /// The channel value itself.
    pub closed spec fn spec_channel(&self) -> Channel {
        self.channel
    }

    /// The bridge's contents and well-formedness are the channel's.
    pub broadcast proof fn lemma_channel_view(&self)
        ensures
            (#[trigger] self.spec_channel()).contents() == self.contents(),
            self.spec_channel().wf() == self.wf(),
    {
    }

    /// Marks the init service as subscribed to the bootstrap channel.
    pub fn register_init_service(&mut self)
        ensures
            final(self).spec_init_registered(),
            final(self).wf() == old(self).wf(),
            final(self).contents() == old(self).contents(),
            final(self).spec_ipc_pending() == old(self).spec_ipc_pending(),
    {
        self.routing.mark_init_registered();
    }

    /// Returns whether the init service has registered for startup
    /// messages.
    pub fn init_service_registered(&self) -> (r: bool)
        ensures
            r == self.spec_init_registered(),
    {
        self.routing.init_registered()
    }

    /// Sends a bootstrap message to the init service if it is connected:
    /// without a registered endpoint the send is `Unroutable` and the
    /// channel keeps its contents; otherwise the channel's send rules
    /// apply.
    pub fn send_bootstrap_message(&mut self, payload: &[u8]) -> (r: Result<(), SendError>)
        requires
            old(self).wf(),
        ensures
            final(self).wf(),
            final(self).spec_init_registered() == old(self).spec_init_registered(),
            final(self).spec_ipc_pending() == old(self).spec_ipc_pending(),
            !old(self).spec_init_registered() ==> r == Err::<(), SendError>(SendError::Unroutable)
                && final(self).contents() == old(self).contents(),
            old(self).spec_init_registered() && payload@.len() > MAX_PAYLOAD ==> r == Err::<
                (),
                SendError,
            >(SendError::Oversized) && final(self).contents() == old(self).contents(),
            old(self).spec_init_registered() && payload@.len() <= MAX_PAYLOAD && old(
                self,
            ).contents().len() == MAX_MESSAGES ==> r == Err::<(), SendError>(SendError::Full)
                && final(self).contents() == old(self).contents(),
            old(self).spec_init_registered() && payload@.len() <= MAX_PAYLOAD && old(
                self,
            ).contents().len() < MAX_MESSAGES ==> r is Ok && final(self).contents()
                == channel::spec_send(old(self).contents(), payload@),
    {
        if self.routing.init_registered() {
            self.channel.send(payload)
        } else {
            Err(SendError::Unroutable)
        }
    }

    /// Attempts to receive a message from the kernel channel; the
    /// channel's receive rules apply.
    pub fn receive_bootstrap_message(&mut self, buffer: &mut Vec<u8>) -> (r: Result<
        usize,
        ReceiveError,
    >)
        requires
            old(self).wf(),
        ensures
            final(self).wf(),
            final(self).spec_init_registered() == old(self).spec_init_registered(),
            final(self).spec_ipc_pending() == old(self).spec_ipc_pending(),
            match r {
                Ok(n) => {
                    &&& old(self).contents().len() > 0
                    &&& n == vstd::math::min(
                        channel::spec_receive(old(self).contents()).0.len() as int,
                        old(buffer)@.len() as int,
                    )
                    &&& final(buffer)@.len() == old(buffer)@.len()
                    &&& final(buffer)@ =~= channel::spec_receive(old(self).contents()).0.take(
                        n as int,
                    ) + old(buffer)@.skip(n as int)
                    &&& final(self).contents() == channel::spec_receive(old(self).contents()).1
                },
                Err(e) => {
                    &&& e == ReceiveError::Empty
                    &&& old(self).contents().len() == 0
                    &&& final(self).contents() == old(self).contents()
                    &&& final(buffer)@ == old(buffer)@
                },
            },
    {
        self.channel.receive(buffer)
    }

    /// Returns whether an IPC trap was raised since the last check and
    /// clears the flag.
    pub fn take_ipc_interrupt(&mut self) -> (r: bool)
        ensures
            r == old(self).spec_ipc_pending(),
            !final(self).spec_ipc_pending(),
            final(self).wf() == old(self).wf(),
            final(self).contents() == old(self).contents(),
            final(self).spec_init_registered() == old(self).spec_init_registered(),
    {
        let was = self.ipc_pending;
        self.ipc_pending = false;
        was
    }

    /// The bridge's IPC-trap hook: records that a user-mode interrupt
    /// arrived, without doing any work in the handler.
    pub fn handle_ipc_trap(&mut self)
        ensures
            final(self).spec_ipc_pending(),
            final(self).wf() == old(self).wf(),
            final(self).contents() == old(self).contents(),
            final(self).spec_init_registered() == old(self).spec_init_registered(),
    {
        self.ipc_pending = true;
    }
}

} // verus!
