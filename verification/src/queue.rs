//! Ring mechanics of hardware command queues.

use vstd::prelude::*;

use crate::addr::{address_checked_add, PhysAddrRange, VirtAddr, VirtAddrRange};
use crate::bits;
use crate::device::{QueueCallbacks, QueueDevice, QueueEvent, QueueReport};
use crate::error::Error;
use crate::submit::{Submission, SubmitAction, SubmitReply, SubmitStage};

verus! {

/// How often a condition is looked at before the controller counts as gone.
pub const COMMAND_QUEUE_POLL_LIMIT: usize = 1_000_000;

/// Caller-provided backing for one hardware command queue.
///
/// The backing must be physically contiguous and mapped writable at `virt` for
/// as long as hardware can read commands from it.
#[derive(Clone, Copy, Debug, PartialEq, Eq)]
pub struct CommandQueueBacking {
    phys: PhysAddrRange,
    virt: VirtAddrRange,
    entry_count: usize,
    entry_bytes: usize,
}

/// What is wrong with a backing of the given shape, if anything.
pub open spec fn backing_fault(
    phys: PhysAddrRange,
    virt: VirtAddrRange,
    entry_count: usize,
    entry_bytes: usize,
) -> Option<Error> {
    if !bits::is_pow2(entry_count as int) {
        Some(Error::InvalidRange)
    } else if !bits::is_pow2(entry_bytes as int) || entry_bytes < 8 {
        Some(Error::InvalidGranule)
    } else if entry_count * entry_bytes > usize::MAX {
        Some(Error::AddressOverflow)
    } else if phys.spec_size() < entry_count * entry_bytes || virt.spec_size() < entry_count
        * entry_bytes {
        Some(Error::InvalidRange)
    } else if phys.start.0 % entry_bytes != 0 || virt.start.0 % entry_bytes != 0 {
        Some(Error::InvalidAddress)
    } else {
        None
    }
}

impl CommandQueueBacking {
    pub closed spec fn spec_phys(self) -> PhysAddrRange {
        self.phys
    }

    pub closed spec fn spec_virt(self) -> VirtAddrRange {
        self.virt
    }

    pub closed spec fn spec_entry_count(self) -> usize {
        self.entry_count
    }

    pub closed spec fn spec_entry_bytes(self) -> usize {
        self.entry_bytes
    }

    /// A power of two of entries, each a power of two of at least eight bytes,
    /// in ranges that hold them.
    pub open spec fn wf(self) -> bool {
        backing_fault(
            self.spec_phys(),
            self.spec_virt(),
            self.spec_entry_count(),
            self.spec_entry_bytes(),
        ) is None
    }

    pub fn new(
        phys: PhysAddrRange,
        virt: VirtAddrRange,
        entry_count: usize,
        entry_bytes: usize,
    ) -> (r: Result<Self, Error>)
        ensures
            match r {
                Ok(backing) => {
                    &&& backing_fault(phys, virt, entry_count, entry_bytes) is None
                    &&& backing.wf()
                    &&& backing.spec_phys() == phys
                    &&& backing.spec_virt() == virt
                    &&& backing.spec_entry_count() == entry_count
                    &&& backing.spec_entry_bytes() == entry_bytes
                },
                Err(error) => backing_fault(phys, virt, entry_count, entry_bytes) == Some(error),
            },
    {
        if entry_count == 0 || !bits::is_power_of_two(entry_count) {
            return Err(Error::InvalidRange);
        }
        if entry_bytes == 0 || !bits::is_power_of_two(entry_bytes) || entry_bytes < 8 {
            return Err(Error::InvalidGranule);
        }
        let size: usize = match entry_count.checked_mul(entry_bytes) {
            Some(size) => size,
            None => return Err(Error::AddressOverflow),
        };
        if phys.size() < size || virt.size() < size {
            return Err(Error::InvalidRange);
        }
        if phys.start.as_usize() % entry_bytes != 0 || virt.start.as_usize() % entry_bytes != 0 {
            return Err(Error::InvalidAddress);
        }
        Ok(CommandQueueBacking { phys, virt, entry_count, entry_bytes })
    }

    pub fn phys(self) -> (r: PhysAddrRange)
        ensures
            r == self.spec_phys(),
    {
        self.phys
    }

    pub fn virt(self) -> (r: VirtAddrRange)
        ensures
            r == self.spec_virt(),
    {
        self.virt
    }

    pub fn entry_count(self) -> (r: usize)
        ensures
            r == self.spec_entry_count(),
    {
        self.entry_count
    }

    pub fn entry_bytes(self) -> (r: usize)
        ensures
            r == self.spec_entry_bytes(),
    {
        self.entry_bytes
    }

    pub fn byte_len(self) -> (r: usize)
        requires
            self.wf(),
        ensures
            r == self.spec_entry_count() * self.spec_entry_bytes(),
    {
        self.entry_count * self.entry_bytes
    }

    /// Where a slot lies: `slot` entries behind the start.
    pub open spec fn spec_entry_vaddr(self, slot: usize) -> Result<VirtAddr, Error> {
        if self.spec_virt().start.0 + slot * self.spec_entry_bytes() <= usize::MAX {
            Ok(VirtAddr((self.spec_virt().start.0 + slot * self.spec_entry_bytes()) as usize))
        } else {
            Err(Error::AddressOverflow)
        }
    }

    pub fn entry_vaddr(self, slot: usize) -> (r: Result<VirtAddr, Error>)
        ensures
            r == self.spec_entry_vaddr(slot),
    {
        let offset: usize = match slot.checked_mul(self.entry_bytes) {
            Some(offset) => offset,
            None => return Err(Error::AddressOverflow),
        };
        assert(slot * self.entry_bytes >= 0) by (nonlinear_arith);
        match address_checked_add(self.virt.start.as_usize(), offset) {
            Some(addr) => Ok(VirtAddr::from_usize(addr)),
            None => Err(Error::AddressOverflow),
        }
    }
}

/// Every slot of a backing whose virtual bounds are in order has an address,
/// and its bytes lie inside the range.
pub proof fn law_slots_lie_in_backing(backing: CommandQueueBacking, slot: usize)
    requires
        backing.wf(),
        backing.spec_virt().start.0 <= backing.spec_virt().end.0,
        slot < backing.spec_entry_count(),
    ensures
        match backing.spec_entry_vaddr(slot) {
            Ok(vaddr) => backing.spec_virt().start.0 <= vaddr.0 && vaddr.0
                + backing.spec_entry_bytes() <= backing.spec_virt().end.0,
            Err(_) => false,
        },
{
    let (count, bytes) = (backing.spec_entry_count(), backing.spec_entry_bytes());
    assert(0 <= slot * bytes && slot * bytes + bytes <= count * bytes) by (nonlinear_arith)
        requires
            slot + 1 <= count,
    ;
}

/// Stage of one queue slot.
#[derive(Clone, Copy, Debug, PartialEq, Eq, Structural)]
pub enum QueueSlot {
    Empty,
    Writing,
    Ready,
    Published,
}

/// One submission: its place in the order of submissions, and the slot that it
/// uses.
#[derive(Clone, Copy, Debug, PartialEq, Eq, Structural)]
pub struct QueueTicket {
    pub ticket: usize,
    pub slot: usize,
}

/// The bytes of one slot, and where they are to be written.
#[derive(Clone, Debug, PartialEq, Eq)]
pub struct SlotWrite {
    pub vaddr: VirtAddr,
    pub image: Vec<u8>,
}

/// What a queue knows: its backing, the number of submissions that took a
/// ticket, that were published and that were retired, and the stage of each
/// slot.
pub struct QueueView {
    pub backing: Option<CommandQueueBacking>,
    pub claim: usize,
    pub committed: usize,
    pub retired: usize,
    pub slots: Seq<QueueSlot>,
}

/// The slot of a ticket in a ring of `entry_count` slots.
pub open spec fn slot_of(ticket: usize, entry_count: usize) -> usize {
    ticket % entry_count
}

/// What a slot of `entry_bytes` bytes holds for a command: the command's
/// bytes, then zeros.
pub open spec fn slot_image(command: Seq<u8>, entry_bytes: int) -> Seq<u8> {
    Seq::new(
        entry_bytes as nat,
        |i: int|
            if i < command.len() {
                command[i]
            } else {
                0
            },
    )
}

/// The tail register value that publishes `slot`: the byte offset of the slot
/// behind it, which is the first one behind the last one.
pub open spec fn tail_after(slot: usize, entry_count: usize, entry_bytes: usize) -> int {
    if slot + 1 == entry_count {
        0
    } else {
        (slot + 1) * entry_bytes
    }
}

/// The number of submissions between two counters, which wrap around.
pub open spec fn outstanding(ticket: usize, retired: usize) -> int {
    if ticket >= retired {
        ticket - retired
    } else {
        ticket - retired + usize::MAX + 1
    }
}

impl QueueView {
    /// The ring that a ticket has to find room in.
    pub open spec fn ring(self) -> CommandQueueBacking {
        self.backing->0
    }

    /// What is wrong with a command of `width` bytes, if anything.
    pub open spec fn claim_fault(self, width: usize) -> Option<Error> {
        match self.backing {
            None => Some(Error::ControllerUnavailable),
            Some(backing) => if !bits::is_pow2(width as int) || width
                > backing.spec_entry_bytes() {
                Some(Error::InvalidGranule)
            } else {
                None
            },
        }
    }

    /// The ticket that the next submission gets.
    pub open spec fn next_ticket(self) -> QueueTicket {
        QueueTicket {
            ticket: self.claim,
            slot: slot_of(self.claim, self.ring().spec_entry_count()),
        }
    }

    /// Fewer submissions than the ring has slots stand before the ticket.
    pub open spec fn has_room(self, ticket: QueueTicket) -> bool {
        outstanding(ticket.ticket, self.retired) < self.ring().spec_entry_count()
    }

    /// The ticket's slot is in the given stage, all else is unchanged.
    pub open spec fn with_slot(self, ticket: QueueTicket, stage: QueueSlot) -> QueueView {
        QueueView { slots: self.slots.update(ticket.slot as int, stage), ..self }
    }

    /// The ticket's slot is published, and all submissions up to it are.
    pub open spec fn publishing(self, ticket: QueueTicket) -> QueueView {
        QueueView {
            committed: (ticket.ticket + 1) as usize,
            ..self.with_slot(ticket, QueueSlot::Published)
        }
    }

    /// The ticket's slot is free, and at least the submissions up to it count
    /// as retired.
    pub open spec fn retiring(self, ticket: QueueTicket) -> QueueView {
        QueueView {
            retired: if self.retired < ticket.ticket + 1 {
                (ticket.ticket + 1) as usize
            } else {
                self.retired
            },
            ..self.with_slot(ticket, QueueSlot::Empty)
        }
    }

    /// A submission is published after it took its ticket, and retires after it
    /// was published.
    pub open spec fn ordered(self) -> bool {
        self.retired <= self.committed <= self.claim
    }

    /// No submission is under way.
    pub open spec fn idle(self) -> bool {
        &&& self.backing is Some
        &&& self.claim == self.committed
        &&& self.claim == self.retired
        &&& forall|i: int|
            0 <= i < self.ring().spec_entry_count() ==> #[trigger] self.slots[i]
                == QueueSlot::Empty
    }
}

/// Hardware command queue.
///
/// This manages the shared ring mechanics used by VT-d queued invalidation
/// and AMD-Vi command buffers. Descriptor width, descriptor encoding, register
/// programming, and error checks stay in the concrete controller. `N` is only
/// the software slot-state capacity; the active hardware queue depth still
/// comes from [`CommandQueueBacking::entry_count`].
///
/// A submission takes a ticket, waits for room and for its slot, fills the
/// slot, waits for its turn, publishes the slot, waits until hardware has read
/// it, and retires. Each of these is one method here; a [`Submission`] makes
/// them in this order, so that submissions of several callers can interleave,
/// and [`CommandQueue::submit_to_device`] and [`CommandQueue::submit`] run one to
/// its end.
#[derive(Debug)]
pub struct CommandQueue<const N: usize> {
    backing: Option<CommandQueueBacking>,
    claim: usize,
    committed: usize,
    retired: usize,
    slot_state: [QueueSlot; N],
}

impl<const N: usize> View for CommandQueue<N> {
    type V = QueueView;

    closed spec fn view(&self) -> QueueView {
        QueueView {
            backing: self.backing,
            claim: self.claim,
            committed: self.committed,
            retired: self.retired,
            slots: self.slot_state@,
        }
    }
}

impl<const N: usize> CommandQueue<N> {
    /// The ring is a valid one and each of its slots has a stage.
    pub open spec fn wf(self) -> bool {
        &&& self@.slots.len() == N
        &&& self@.backing matches Some(backing) ==> backing.wf() && backing.spec_entry_count() <= N
    }

    pub fn new() -> (r: Self)
        ensures
            r.wf(),
            r@.backing is None,
            r@.claim == 0,
            r@.committed == 0,
            r@.retired == 0,
            forall|i: int| 0 <= i < N ==> #[trigger] r@.slots[i] == QueueSlot::Empty,
    {
        CommandQueue {
            backing: None,
            claim: 0,
            committed: 0,
            retired: 0,
            slot_state: [QueueSlot::Empty;N],
        }
    }

    /// Starts over on the given backing, which has to have no more entries
    /// than the queue has slots.
    pub fn init(&mut self, backing: CommandQueueBacking) -> (r: Result<(), Error>)
        requires
            old(self).wf(),
            backing.wf(),
        ensures
            final(self).wf(),
            match r {
                Ok(_) => {
                    &&& backing.spec_entry_count() <= N
                    &&& final(self)@.backing == Some(backing)
                    &&& final(self)@.claim == 0
                    &&& final(self)@.idle()
                },
                Err(error) => {
                    &&& backing.spec_entry_count() > N
                    &&& error == Error::InvalidRange
                    &&& final(self)@ == old(self)@
                },
            },
    {
        if N == 0 || backing.entry_count() > N {
            return Err(Error::InvalidRange);
        }
        self.backing = Some(backing);
        self.claim = 0;
        self.committed = 0;
        self.retired = 0;
        let count: usize = backing.entry_count();
        let mut i: usize = 0;
        while i < count
            invariant
                i <= count <= N,
                self.backing == Some(backing),
                backing.wf(),
                count == backing.spec_entry_count(),
                self.claim == 0,
                self.committed == 0,
                self.retired == 0,
                self.slot_state@.len() == N,
                forall|j: int| 0 <= j < i ==> #[trigger] self.slot_state@[j] == QueueSlot::Empty,
            decreases count - i,
        {
            self.slot_state[i] = QueueSlot::Empty;
            i = i + 1;
        }
        Ok(())
    }

    pub fn backing(&self) -> (r: Option<CommandQueueBacking>)
        ensures
            r == self@.backing,
    {
        self.backing
    }

    pub fn is_active(&self) -> (r: bool)
        ensures
            r == (self@.backing is Some),
    {
        self.backing.is_some()
    }

    /// Whether a ticket is left: tickets are counted and none is given twice.
    pub fn can_claim(&self) -> (r: bool)
        ensures
            r == (self@.claim < usize::MAX),
    {
        self.claim < usize::MAX
    }

    /// Whether `count` tickets are left.
    pub fn can_claim_all(&self, count: usize) -> (r: bool)
        ensures
            r == (self@.claim + count <= usize::MAX),
    {
        count <= usize::MAX - self.claim
    }

    /// Takes the next ticket for a command of `width` bytes.
    pub fn claim_ticket(&mut self, width: usize) -> (r: Result<QueueTicket, Error>)
        requires
            old(self).wf(),
        ensures
            final(self).wf(),
            match r {
                Ok(ticket) => {
                    &&& old(self)@.claim_fault(width) is None
                    &&& ticket == old(self)@.next_ticket()
                    &&& ticket.slot < old(self)@.ring().spec_entry_count()
                    &&& final(self)@ == (QueueView {
                        claim: if old(self)@.claim == usize::MAX {
                            0
                        } else {
                            (old(self)@.claim + 1) as usize
                        },
                        ..old(self)@
                    })
                },
                Err(error) => {
                    &&& old(self)@.claim_fault(width) == Some(error)
                    &&& final(self)@ == old(self)@
                },
            },
    {
        let backing = match self.backing {
            Some(backing) => backing,
            None => return Err(Error::ControllerUnavailable),
        };
        if width == 0 || !bits::is_power_of_two(width) || width > backing.entry_bytes() {
            return Err(Error::InvalidGranule);
        }
        let ticket: usize = self.claim;
        self.claim = self.claim.wrapping_add(1);
        let slot: usize = ticket & (backing.entry_count() - 1);
        proof {
            bits::lemma_pow2_mask_is_mod(ticket as u64, backing.entry_count as u64);
        }
        Ok(QueueTicket { ticket, slot })
    }

    /// Whether the ring has room for the ticket.
    pub fn has_capacity(&self, ticket: QueueTicket) -> (r: bool)
        requires
            self@.backing is Some,
        ensures
            r == self@.has_room(ticket),
    {
        match self.backing {
            Some(backing) => ticket.ticket.wrapping_sub(self.retired) < backing.entry_count(),
            None => false,
        }
    }

    /// Whether the ticket's slot is free.
    pub fn slot_is_empty(&self, ticket: QueueTicket) -> (r: bool)
        requires
            self.wf(),
            ticket.slot < N,
        ensures
            r == (self@.slots[ticket.slot as int] == QueueSlot::Empty),
    {
        self.slot_state[ticket.slot] == QueueSlot::Empty
    }

    /// Takes the ticket's slot, and says what is to be written to it.
    pub fn start_write(&mut self, ticket: QueueTicket, command: &[u8]) -> (r: Result<
        SlotWrite,
        Error,
    >)
        requires
            old(self).wf(),
            old(self)@.backing is Some,
            ticket.slot < N,
            old(self)@.slots[ticket.slot as int] == QueueSlot::Empty,
        ensures
            final(self).wf(),
            final(self)@ == old(self)@.with_slot(ticket, QueueSlot::Writing),
            match r {
                Ok(write) => {
                    &&& old(self)@.ring().spec_entry_vaddr(ticket.slot) == Ok::<VirtAddr, Error>(
                        write.vaddr,
                    )
                    &&& write.image@ == slot_image(
                        command@,
                        old(self)@.ring().spec_entry_bytes() as int,
                    )
                },
                Err(error) => old(self)@.ring().spec_entry_vaddr(ticket.slot) == Err::<
                    VirtAddr,
                    Error,
                >(error),
            },
    {
        self.slot_state[ticket.slot] = QueueSlot::Writing;
        let backing = match self.backing {
            Some(backing) => backing,
            None => return Err(Error::ControllerUnavailable),
        };
        let vaddr = match backing.entry_vaddr(ticket.slot) {
            Ok(vaddr) => vaddr,
            Err(error) => return Err(error),
        };
        let size: usize = backing.entry_bytes();
        let mut image: Vec<u8> = Vec::new();
        let mut offset: usize = 0;
        while offset < size
            invariant
                offset <= size,
                image@.len() == offset,
                forall|i: int|
                    0 <= i < offset ==> #[trigger] image@[i] == slot_image(
                        command@,
                        size as int,
                    )[i],
            decreases size - offset,
        {
            let value: u8 = if offset < command.len() {
                command[offset]
            } else {
                0
            };
            image.push(value);
            offset = offset + 1;
        }
        assert(image@ =~= slot_image(command@, size as int));
        Ok(SlotWrite { vaddr, image })
    }

    /// Notes that the ticket's slot has been written.
    pub fn finish_write(&mut self, ticket: QueueTicket)
        requires
            old(self).wf(),
            ticket.slot < N,
            old(self)@.slots[ticket.slot as int] == QueueSlot::Writing,
        ensures
            final(self).wf(),
            final(self)@ == old(self)@.with_slot(ticket, QueueSlot::Ready),
    {
        self.slot_state[ticket.slot] = QueueSlot::Ready;
    }

    /// Whether all submissions before the ticket are published.
    pub fn may_publish(&self, ticket: QueueTicket) -> (r: bool)
        ensures
            r == (self@.committed == ticket.ticket),
    {
        self.committed == ticket.ticket
    }

    /// The tail register value that publishes the ticket's slot.
    pub fn tail(&self, ticket: QueueTicket) -> (r: usize)
        requires
            self.wf(),
            self@.backing is Some,
            ticket.slot < self@.ring().spec_entry_count(),
            self@.slots[ticket.slot as int] == QueueSlot::Ready,
            self@.committed == ticket.ticket,
        ensures
            r == tail_after(
                ticket.slot,
                self@.ring().spec_entry_count(),
                self@.ring().spec_entry_bytes(),
            ),
    {
        match self.backing {
            Some(backing) => {
                let count: usize = backing.entry_count();
                let bytes: usize = backing.entry_bytes();
                let next: usize = (ticket.slot + 1) & (count - 1);
                proof {
                    bits::lemma_pow2_mask_is_mod((ticket.slot + 1) as u64, count as u64);
                    if ticket.slot + 1 < count {
                        vstd::arithmetic::div_mod::lemma_small_mod(
                            (ticket.slot + 1) as nat,
                            count as nat,
                        );
                    } else {
                        vstd::arithmetic::div_mod::lemma_mod_self_0(count as int);
                    }
                    assert(0 <= next * bytes <= count * bytes && (next == 0 ==> next * bytes == 0))
                        by (nonlinear_arith)
                        requires
                            0 <= next < count,
                            0 <= bytes,
                    ;
                }
                next * bytes
            },
            None => 0,
        }
    }

    /// Notes that the tail register was moved behind the ticket's slot.
    pub fn published(&mut self, ticket: QueueTicket)
        requires
            old(self).wf(),
            ticket.slot < N,
            ticket.ticket < usize::MAX,
            old(self)@.slots[ticket.slot as int] == QueueSlot::Ready,
            old(self)@.committed == ticket.ticket,
        ensures
            final(self).wf(),
            final(self)@ == old(self)@.publishing(ticket),
    {
        self.slot_state[ticket.slot] = QueueSlot::Published;
        self.committed = ticket.ticket + 1;
    }

    /// Whether hardware whose head register holds `head` has left the ticket's
    /// slot.
    pub fn consumed(&self, ticket: QueueTicket, head: usize) -> (r: bool)
        requires
            self.wf(),
            self@.backing is Some,
        ensures
            r == (head / self@.ring().spec_entry_bytes() != ticket.slot),
    {
        match self.backing {
            Some(backing) => head / backing.entry_bytes() != ticket.slot,
            None => false,
        }
    }

    /// Frees the ticket's slot, and counts the submissions up to it as retired.
    pub fn retire(&mut self, ticket: QueueTicket)
        requires
            old(self).wf(),
            ticket.slot < N,
            ticket.ticket < usize::MAX,
            old(self)@.slots[ticket.slot as int] == QueueSlot::Published,
        ensures
            final(self).wf(),
            final(self)@ == old(self)@.retiring(ticket),
    {
        self.slot_state[ticket.slot] = QueueSlot::Empty;
        if self.retired < ticket.ticket + 1 {
            self.retired = ticket.ticket + 1;
        }
    }
}

impl QueueView {
    /// The queue after the next ticket was taken.
    pub open spec fn claimed(self) -> QueueView {
        QueueView { claim: (self.claim + 1) as usize, ..self }
    }

    /// The queue after the next submission was published.
    pub open spec fn after_publish(self) -> QueueView {
        QueueView {
            committed: (self.claim + 1) as usize,
            ..self.claimed().with_slot(self.next_ticket(), QueueSlot::Published)
        }
    }

    /// The queue after the next submission was retired.
    pub open spec fn after_retire(self) -> QueueView {
        QueueView {
            retired: if self.retired < self.claim + 1 {
                (self.claim + 1) as usize
            } else {
                self.retired
            },
            committed: (self.claim + 1) as usize,
            ..self.claimed().with_slot(self.next_ticket(), QueueSlot::Empty)
        }
    }

    /// Hardware whose head register holds `head` has left the slot of the next
    /// submission.
    pub open spec fn next_consumed(self, head: usize) -> bool {
        head / self.ring().spec_entry_bytes() != self.next_ticket().slot
    }

    /// The tail register value that publishes the next submission.
    pub open spec fn next_tail(self) -> usize {
        tail_after(
            self.next_ticket().slot,
            self.ring().spec_entry_count(),
            self.ring().spec_entry_bytes(),
        ) as usize
    }
}

/// What one submission of `command` does to a queue, given four callbacks: it is
/// carried out, and the callbacks answered everything that was done for it.
pub open spec fn submission<WS, RH, WT, CE>(
    before: QueueView,
    after: QueueView,
    command: Seq<u8>,
    write_slot: WS,
    read_head: RH,
    write_tail: WT,
    check_error: CE,
    r: Result<(), Error>,
) -> bool where
    WS: Fn(SlotWrite),
    RH: Fn() -> Result<usize, Error>,
    WT: Fn(usize),
    CE: Fn() -> Result<(), Error>,
 {
    exists|events: Seq<QueueEvent>|
        {
            &&& #[trigger] crate::device::carried_out(before, after, command, events, r)
            &&& forall|i: int|
                0 <= i < events.len() ==> crate::device::answers(
                    #[trigger] events[i],
                    write_slot,
                    read_head,
                    crate::device::tail_taken(write_tail),
                    check_error,
                )
        }
}

impl<const N: usize> CommandQueue<N> {
    /// Runs one submission from ticket to retirement on a device. The slot is
    /// written before the tail, the tail before the head is first read, and
    /// the device is asked for an error last, once hardware has left the slot.
    /// A slot whose submission failed after its tail write stays published.
    /// What was answered to the tail write has no part in it, and is reported.
    pub fn submit_to_device<D: QueueDevice>(&mut self, command: &[u8], device: &mut D) -> (r:
        QueueReport)
        requires
            old(self).wf(),
            old(self)@.claim < usize::MAX,
            old(device).ready(),
        ensures
            final(self).wf(),
            final(device).ready(),
            final(device).unused() == old(device).unused(),
            old(device).log().is_prefix_of(final(device).log()),
            crate::device::reported(
                old(self)@,
                final(self)@,
                command@,
                final(device).log().skip(old(device).log().len() as int),
                r,
            ),
            r.submitted is Ok ==> crate::device::asked_of(
                final(device).log().skip(old(device).log().len() as int),
            ) == crate::submit::script(
                old(self)@.next_ticket(),
                command@,
                old(self)@.ring(),
                (final(device).log().len() - old(device).log().len() - 3) as nat,
            ),
            old(self)@.idle() && r.submitted is Ok ==> final(self)@.idle(),
    {
        let ghost before = self@;
        let ghost base = device.log();
        let ghost mut events: Seq<QueueEvent> = Seq::empty();
        let mut submission = match Submission::start(self, command) {
            Ok(submission) => submission,
            Err(error) => {
                assert(base.skip(base.len() as int) =~= events);
                return QueueReport { submitted: Err(error), tail: Ok(()) };
            },
        };
        let ghost ticket = before.next_ticket();
        let ghost mut heads: Seq<usize> = Seq::empty();
        let ghost mut last: Result<usize, Error> = Ok(0);
        let ghost written = before.next_write(command@);
        let mut reply = SubmitReply::Done;
        let mut answer: Result<(), Error> = Ok(());
        loop
            invariant
                self.wf(),
                before == old(self)@,
                base == old(device).log(),
                before.claim < usize::MAX,
                before.claim_fault(command@.len() as usize) is None,
                ticket == before.next_ticket(),
                written == before.next_write(command@),
                device.ready(),
                device.unused() == old(device).unused(),
                device.log() == base + events,
                submission@.ticket == ticket,
                submission@.command == command@,
                submission@.agrees(self@),
                submission@.polls < COMMAND_QUEUE_POLL_LIMIT,
                submission@.stage != SubmitStage::Closed,
                self@ == (match submission@.stage {
                    SubmitStage::Room | SubmitStage::Slot => before.claimed(),
                    SubmitStage::Filling => before.claimed().with_slot(ticket, QueueSlot::Writing),
                    SubmitStage::Turn | SubmitStage::Publishing => before.claimed().with_slot(
                        ticket,
                        QueueSlot::Ready,
                    ),
                    _ => before.after_publish(),
                }),
                events == (match submission@.stage {
                    SubmitStage::Room | SubmitStage::Slot => Seq::<QueueEvent>::empty(),
                    SubmitStage::Filling | SubmitStage::Turn => seq![written],
                    SubmitStage::Publishing => before.publish(command@, answer),
                    SubmitStage::Waiting => before.watch(command@, answer, heads, last),
                    _ => before.watch(command@, answer, heads, last).push(
                        QueueEvent::CheckError(reply->Checked_0),
                    ),
                }),
                submission@.stage != SubmitStage::Room ==> before.has_room(ticket),
                submission@.holds_slot() ==> {
                    &&& before.slots[ticket.slot as int] == QueueSlot::Empty
                    &&& before.ring().spec_entry_vaddr(ticket.slot) is Ok
                },
                stages_left(submission@.stage) < 4 ==> before.committed == ticket.ticket,
                stages_left(submission@.stage) >= 4 ==> answer == Ok::<(), Error>(()),
                stages_left(submission@.stage) > 2 ==> heads == Seq::<usize>::empty(),
                heads.len() < COMMAND_QUEUE_POLL_LIMIT,
                forall|i: int|
                    0 <= i < heads.len() ==> !before.next_consumed(#[trigger] heads[i]),
                submission@.stage == SubmitStage::Waiting ==> {
                    &&& heads.len() == submission@.polls
                    &&& reply == SubmitReply::Head(last)
                },
                submission@.stage == SubmitStage::Checking ==> {
                    &&& last matches Ok(head) && before.next_consumed(head)
                    &&& reply is Checked
                },
            decreases stages_left(submission@.stage), COMMAND_QUEUE_POLL_LIMIT - submission@.polls,
        {
            proof {
                let (index, slots) = (ticket.slot as int, before.slots);
                assert(slots.update(index, QueueSlot::Writing).update(index, QueueSlot::Ready)
                    =~= slots.update(index, QueueSlot::Ready));
                assert(slots.update(index, QueueSlot::Ready).update(index, QueueSlot::Published)
                    =~= slots.update(index, QueueSlot::Published));
                assert(slots.update(index, QueueSlot::Published).update(index, QueueSlot::Empty)
                    =~= slots.update(index, QueueSlot::Empty));
            }
            let ghost stage = submission@.stage;
            match submission.advance(self, reply) {
                SubmitAction::Again => reply = SubmitReply::Done,
                SubmitAction::WriteSlot(write) => {
                    device.write_slot(write);
                    reply = SubmitReply::Done;
                    proof {
                        events = events.push(written);
                        assert(events =~= seq![written]);
                        assert(device.log() =~= base + events);
                    }
                },
                SubmitAction::WriteTail(tail) => {
                    answer = device.write_tail(tail);
                    reply = SubmitReply::Done;
                    proof {
                        events = events.push(QueueEvent::WriteTail { tail, answer });
                        assert(events =~= before.publish(command@, answer));
                        assert(device.log() =~= base + events);
                    }
                },
                SubmitAction::ReadHead => {
                    let head = device.read_head();
                    reply = SubmitReply::Head(head);
                    proof {
                        if stage == SubmitStage::Waiting {
                            heads = heads.push(last->Ok_0);
                        }
                        last = head;
                        events = events.push(QueueEvent::ReadHead(head));
                        assert(events =~= before.watch(command@, answer, heads, last));
                        assert(device.log() =~= base + events);
                    }
                },
                SubmitAction::CheckError => {
                    let checked = device.check_error();
                    reply = SubmitReply::Checked(checked);
                    proof {
                        events = events.push(QueueEvent::CheckError(checked));
                        assert(device.log() =~= base + events);
                    }
                },
                SubmitAction::Finish(r) => {
                    proof {
                        if let SubmitReply::Checked(Ok(none)) = reply {
                            assert(none == ());
                        }
                        if stage == SubmitStage::Waiting || stage == SubmitStage::Checking {
                            assert(crate::device::watched(
                                before,
                                self@,
                                command@,
                                answer,
                                heads,
                                last,
                                events,
                                r,
                            ));
                        }
                        assert(crate::device::carried_out(before, self@, command@, events, r));
                        assert(device.log().skip(base.len() as int) =~= events);
                        if r is Ok {
                            crate::device::law_successful_submission_does_its_script(
                                before,
                                self@,
                                command@,
                                events,
                                r,
                            );
                        }
                    }
                    return QueueReport { submitted: r, tail: answer };
                },
            }
        }
    }

    /// Runs one submission from ticket to retirement. `write_slot` stores the
    /// command, `write_tail` hands it to hardware, `read_head` tells how far
    /// hardware got, and `check_error` is asked once hardware has left the
    /// slot.
    pub fn submit<const W: usize, WS, RH, WT, CE>(
        &mut self,
        command: [u8; W],
        write_slot: WS,
        read_head: RH,
        write_tail: WT,
        check_error: CE,
    ) -> (r: Result<(), Error>) where
        WS: Fn(SlotWrite),
        RH: Fn() -> Result<usize, Error>,
        WT: Fn(usize),
        CE: Fn() -> Result<(), Error>,

        requires
            old(self).wf(),
            old(self)@.claim < usize::MAX,
            forall|write: SlotWrite| call_requires(write_slot, (write,)),
            call_requires(read_head, ()),
            forall|tail: usize| call_requires(write_tail, (tail,)),
            call_requires(check_error, ()),
        ensures
            final(self).wf(),
            submission(
                old(self)@,
                final(self)@,
                command@,
                write_slot,
                read_head,
                write_tail,
                check_error,
                r,
            ),
            old(self)@.idle() && r is Ok ==> final(self)@.idle(),
    {
        let ghost taken = crate::device::tail_taken(write_tail);
        let take_tail = |tail: usize| -> (r: Result<(), Error>)
            ensures
                taken(tail, r),
            {
                write_tail(tail);
                Ok(())
            };
        let mut device = QueueCallbacks::new(write_slot, read_head, take_tail, check_error);
        let ghost start = device;
        let report = self.submit_to_device(vstd::array::array_as_slice(&command), &mut device);
        proof {
            device.lemma_answers(start, write_slot, read_head, take_tail, check_error);
            assert(device.log().skip(0) =~= device.log());
            let events = device.log();
            assert forall|i: int| 0 <= i < events.len() implies crate::device::answers(
                #[trigger] events[i],
                write_slot,
                read_head,
                crate::device::tail_taken(write_tail),
                check_error,
            ) by {
                assert(crate::device::answers(
                    events[i],
                    write_slot,
                    read_head,
                    crate::device::tail_answers(take_tail),
                    check_error,
                ));
            }
        }
        report.submitted
    }
}

/// How many stages a submission still has before it.
spec fn stages_left(stage: SubmitStage) -> int {
    match stage {
        SubmitStage::Room => 7,
        SubmitStage::Slot => 6,
        SubmitStage::Filling => 5,
        SubmitStage::Turn => 4,
        SubmitStage::Publishing => 3,
        SubmitStage::Waiting => 2,
        SubmitStage::Checking => 1,
        SubmitStage::Closed => 0,
    }
}

impl<const N: usize> Default for CommandQueue<N> {
    fn default() -> (r: Self)
        ensures
            r.wf(),
            r@.backing is None,
            r@.claim == 0,
            r@.committed == 0,
            r@.retired == 0,
            forall|i: int| 0 <= i < N ==> #[trigger] r@.slots[i] == QueueSlot::Empty,
    {
        Self::new()
    }
}

/// Two submissions that a ring has room for at the same time never share a
/// slot.
pub proof fn law_outstanding_tickets_have_distinct_slots(
    queue: QueueView,
    a: QueueTicket,
    b: QueueTicket,
)
    requires
        queue.backing is Some,
        queue.ring().wf(),
        a.slot == slot_of(a.ticket, queue.ring().spec_entry_count()),
        b.slot == slot_of(b.ticket, queue.ring().spec_entry_count()),
        queue.retired <= a.ticket < b.ticket,
        queue.has_room(a),
        queue.has_room(b),
    ensures
        a.slot != b.slot,
{
    let count = queue.ring().spec_entry_count() as int;
    let (x, y) = (a.ticket as int, b.ticket as int);
    if x % count == y % count {
        vstd::arithmetic::div_mod::lemma_fundamental_div_mod(x, count);
        vstd::arithmetic::div_mod::lemma_fundamental_div_mod(y, count);
        assert(y - x == count * (y / count - x / count)) by (nonlinear_arith)
            requires
                x == count * (x / count) + x % count,
                y == count * (y / count) + y % count,
                x % count == y % count,
        ;
        assert(count * (y / count - x / count) >= count || count * (y / count - x / count) <= 0)
            by (nonlinear_arith)
            requires
                count > 0,
        ;
    }
}

/// Interleaved submissions keep the counters in order: a ticket is taken, the
/// ticket whose turn it is is published, and one that was published retires.
pub proof fn law_steps_keep_counters_in_order(queue: QueueView, ticket: QueueTicket)
    requires
        queue.ordered(),
        queue.claim < usize::MAX,
        ticket.ticket < queue.claim,
    ensures
        queue.claimed().ordered(),
        queue.committed == ticket.ticket ==> queue.publishing(ticket).ordered(),
        ticket.ticket < queue.committed ==> queue.retiring(ticket).ordered(),
{
}

/// A submission that is not published yet has its slot to itself: no later
/// submission that the ring has room for gets the same slot.
pub proof fn law_unpublished_ticket_has_its_own_slot(
    queue: QueueView,
    a: QueueTicket,
    b: QueueTicket,
)
    requires
        queue.backing is Some,
        queue.ring().wf(),
        queue.ordered(),
        a.slot == slot_of(a.ticket, queue.ring().spec_entry_count()),
        b.slot == slot_of(b.ticket, queue.ring().spec_entry_count()),
        queue.committed <= a.ticket < b.ticket,
        queue.has_room(b),
    ensures
        a.slot != b.slot,
{
    law_outstanding_tickets_have_distinct_slots(queue, a, b);
}

/// On an idle queue the next submission finds room, a free slot and its turn.
pub proof fn law_idle_queue_takes_the_next_submission(queue: QueueView)
    requires
        queue.idle(),
        queue.ring().wf(),
    ensures
        queue.has_room(queue.next_ticket()),
        queue.slots[queue.next_ticket().slot as int] == QueueSlot::Empty,
        queue.committed == queue.next_ticket().ticket,
{
    vstd::arithmetic::div_mod::lemma_mod_bound(
        queue.claim as int,
        queue.ring().spec_entry_count() as int,
    );
}

/// A submission of a good command to an idle queue succeeds when hardware is
/// found to have left the slot at one of the polls and reports no error: the
/// command, filled up with zeros, was written to the slot of the next ticket,
/// the tail behind that slot was written once, after that and before the head
/// was read, hardware was asked for an error once and last, and the queue is
/// idle again, with one submission more.
pub proof fn law_idle_queue_carries_out_a_submission(
    before: QueueView,
    after: QueueView,
    command: Seq<u8>,
    events: Seq<QueueEvent>,
    r: Result<(), Error>,
)
    requires
        before.idle(),
        before.ring().wf(),
        before.claim < usize::MAX,
        before.slots.len() >= before.ring().spec_entry_count(),
        before.claim_fault(command.len() as usize) is None,
        before.ring().spec_entry_vaddr(before.next_ticket().slot) is Ok,
        forall|i: int|
            0 <= i < events.len() ==> (#[trigger] events[i] matches QueueEvent::ReadHead(head)
                ==> head is Ok),
        events.len() == COMMAND_QUEUE_POLL_LIMIT + 2 ==> exists|i: int|
            0 <= i < events.len() && (#[trigger] events[i] matches QueueEvent::ReadHead(Ok(head))
                && before.next_consumed(head)),
        forall|i: int|
            0 <= i < events.len() ==> (#[trigger] events[i] matches QueueEvent::CheckError(checked)
                ==> checked is Ok),
        crate::device::carried_out(before, after, command, events, r),
    ensures
        r is Ok,
        after.claim == before.claim + 1,
        after.backing == before.backing,
        after.idle(),
        crate::device::asked_of(events) == crate::submit::script(
            before.next_ticket(),
            command,
            before.ring(),
            (events.len() - 3) as nat,
        ),
{
    law_idle_queue_takes_the_next_submission(before);
    let (answer, heads, last) = choose|
        answer: Result<(), Error>,
        heads: Seq<usize>,
        last: Result<usize, Error>,
    | #[trigger]
        crate::device::watched(before, after, command, answer, heads, last, events, r);
    let seen = before.watch(command, answer, heads, last);
    assert(seen.len() == heads.len() + 3);
    assert(seen.last() == QueueEvent::ReadHead(last));
    assert(events[seen.len() - 1] == QueueEvent::ReadHead(last));
    if let Ok(head) = last {
        if before.next_consumed(head) {
            assert(events.last() == QueueEvent::CheckError(r));
        } else {
            let i = choose|i: int|
                0 <= i < events.len() && (#[trigger] events[i] matches QueueEvent::ReadHead(Ok(
                    head,
                )) && before.next_consumed(head));
            if 2 <= i < events.len() - 1 {
                assert(events[i] == QueueEvent::ReadHead(Ok(heads[i - 2])));
            }
        }
    }
    crate::device::law_successful_submission_does_its_script(before, after, command, events, r);
}

/// The same of callbacks: where every head that `read_head` can give has left
/// the slot, and neither it nor `check_error` can fail, a submission of a good
/// command to an idle queue succeeds, and the callbacks were called for its
/// script.
pub proof fn law_idle_queue_submits_through_callbacks<WS, RH, WT, CE>(
    before: QueueView,
    after: QueueView,
    command: Seq<u8>,
    write_slot: WS,
    read_head: RH,
    write_tail: WT,
    check_error: CE,
    r: Result<(), Error>,
) where
    WS: Fn(SlotWrite),
    RH: Fn() -> Result<usize, Error>,
    WT: Fn(usize),
    CE: Fn() -> Result<(), Error>,

    requires
        before.idle(),
        before.ring().wf(),
        before.claim < usize::MAX,
        before.slots.len() >= before.ring().spec_entry_count(),
        before.claim_fault(command.len() as usize) is None,
        before.ring().spec_entry_vaddr(before.next_ticket().slot) is Ok,
        forall|head: Result<usize, Error>|
            #[trigger] call_ensures(read_head, (), head) ==> (head matches Ok(at)
                && before.next_consumed(at)),
        forall|checked: Result<(), Error>|
            #[trigger] call_ensures(check_error, (), checked) ==> checked is Ok,
        submission(
            before,
            after,
            command,
            write_slot,
            read_head,
            write_tail,
            check_error,
            r,
        ),
    ensures
        r is Ok,
        after.claim == before.claim + 1,
        after.backing == before.backing,
        after.idle(),
        crate::device::answers(
            before.next_write(command),
            write_slot,
            read_head,
            crate::device::tail_taken(write_tail),
            check_error,
        ),
        call_ensures(write_tail, (before.next_tail(),), ()),
{
    let events = choose|events: Seq<QueueEvent>|
        {
            &&& #[trigger] crate::device::carried_out(before, after, command, events, r)
            &&& forall|i: int|
                0 <= i < events.len() ==> crate::device::answers(
                    #[trigger] events[i],
                    write_slot,
                    read_head,
                    crate::device::tail_taken(write_tail),
                    check_error,
                )
        };
    law_idle_queue_takes_the_next_submission(before);
    let (answer, heads, last) = choose|
        answer: Result<(), Error>,
        heads: Seq<usize>,
        last: Result<usize, Error>,
    | #[trigger]
        crate::device::watched(before, after, command, answer, heads, last, events, r);
    assert(events[heads.len() as int + 2] == QueueEvent::ReadHead(last));
    assert(call_ensures(read_head, (), last));
    law_idle_queue_carries_out_a_submission(before, after, command, events, r);
    crate::device::law_successful_submission_does_its_script(before, after, command, events, r);
    assert(crate::device::answers(
        events[0],
        write_slot,
        read_head,
        crate::device::tail_taken(write_tail),
        check_error,
    ));
    assert(crate::device::answers(
        events[1],
        write_slot,
        read_head,
        crate::device::tail_taken(write_tail),
        check_error,
    ));
}

} // verus!
