//! What a submission to a command queue does to the ring and to the queue,
//! stated over the queue's counters and the numbers of its ring.

use vstd::prelude::*;

use crate::device::QueueEvent;
use crate::error::Error;
use crate::queue::{QueueSlot, QueueView, SlotWrite};
use crate::submit::{Asked, SubmissionView, SubmitReply, SubmitStage};

verus! {

/// An event writes a command to a slot: at the slot's place in the ring, with
/// the bytes of the command in front and zeros behind them.
pub open spec fn fills_slot(queue: QueueView, slot: int, command: Seq<u8>, event: QueueEvent) -> bool {
    let ring = queue.backing->0;
    event matches QueueEvent::WriteSlot { vaddr, image } && {
        &&& vaddr.0 == ring.spec_virt().start.0 + slot * ring.spec_entry_bytes()
        &&& image.len() == ring.spec_entry_bytes()
        &&& forall|i: int|
            0 <= i < image.len() ==> #[trigger] image[i] == (if i < command.len() {
                command[i]
            } else {
                0
            })
    }
}

/// A tail is that of the slot behind the given one, around the end of the ring.
pub open spec fn is_tail_behind(queue: QueueView, slot: int, tail: usize) -> bool {
    let ring = queue.backing->0;
    let count = ring.spec_entry_count() as int;
    tail == ((slot + 1) % count) * ring.spec_entry_bytes()
}

/// Hardware has left a slot: its head is in another one.
pub open spec fn has_left(queue: QueueView, slot: int, head: usize) -> bool {
    head as int / queue.backing->0.spec_entry_bytes() as int != slot
}

/// The slot that a ticket uses.
pub open spec fn slot_of_ticket(queue: QueueView, ticket: int) -> int {
    ticket % (queue.backing->0.spec_entry_count() as int)
}

/// All that a submission changed is its slot and the counters.
pub open spec fn only_slot_changed(before: QueueView, after: QueueView, slot: int) -> bool {
    &&& after.backing == before.backing
    &&& after.slots.len() == before.slots.len()
    &&& forall|i: int|
        0 <= i < before.slots.len() && i != slot ==> #[trigger] after.slots[i] == before.slots[i]
}

/// A submission that succeeded wrote its command to the slot of its ticket, then
/// the tail behind that slot, then read the head, at most a million times, until
/// hardware had left the slot, and then found no error. Its ticket is committed
/// and retired, its slot is free again, and nothing else of the queue has
/// changed.
#[verifier::rlimit(40)]
pub proof fn law_success_hands_the_command_over(
    before: QueueView,
    after: QueueView,
    command: Seq<u8>,
    events: Seq<QueueEvent>,
    r: Result<(), Error>,
)
    requires
        crate::device::carried_out(before, after, command, events, r),
        r is Ok,
        before.claim < usize::MAX,
        before.backing is Some,
        before.backing->0.wf(),
        before.slots.len() >= before.backing->0.spec_entry_count(),
    ensures
        ({
            let slot = slot_of_ticket(before, before.claim as int);
            &&& 4 <= events.len() <= 1_000_003
            &&& fills_slot(before, slot, command, events[0])
            &&& events[1] matches QueueEvent::WriteTail { tail, .. } && is_tail_behind(
                before,
                slot,
                tail,
            )
            &&& forall|i: int|
                2 <= i < events.len() - 1 ==> (#[trigger] events[i] matches QueueEvent::ReadHead(
                    Ok(head),
                ) && has_left(before, slot, head) == (i == events.len() - 2))
            &&& events[events.len() - 1] == QueueEvent::CheckError(Ok(()))
            &&& only_slot_changed(before, after, slot)
            &&& after.slots[slot] == QueueSlot::Empty
            &&& after.claim == before.claim + 1
            &&& after.committed == before.claim + 1
            &&& after.retired == (if before.retired > before.claim {
                before.retired as int
            } else {
                before.claim + 1
            })
        }),
{
    crate::device::law_successful_submission_does_its_script(before, after, command, events, r);
    lemma_slot_in_ring(before, before.claim);
    let ring = before.backing->0;
    lemma_tail(
        slot_of_ticket(before, before.claim as int),
        ring.spec_entry_count() as int,
        ring.spec_entry_bytes() as int,
    );
    assert forall|i: int|
        2 <= i < events.len() - 1 implies (#[trigger] events[i] matches QueueEvent::ReadHead(
        Ok(head),
    ) && has_left(before, slot_of_ticket(before, before.claim as int), head) == (i == events.len()
        - 2)) by {
        if i < events.len() - 2 {
            assert(events[i] matches QueueEvent::ReadHead(Ok(head)) && !before.next_consumed(head));
        }
    }
}

proof fn lemma_slot_in_ring(queue: QueueView, ticket: usize)
    requires
        queue.backing is Some,
        queue.backing->0.wf(),
    ensures
        queue.backing->0.spec_entry_count() > 0,
        queue.backing->0.spec_entry_bytes() >= 8,
        0 <= slot_of_ticket(queue, ticket as int) < queue.backing->0.spec_entry_count(),
        crate::queue::slot_of(ticket, queue.backing->0.spec_entry_count()) == slot_of_ticket(
            queue,
            ticket as int,
        ),
        queue.backing->0.spec_entry_count() * queue.backing->0.spec_entry_bytes() <= usize::MAX,
{
    vstd::arithmetic::div_mod::lemma_mod_bound(
        ticket as int,
        queue.backing->0.spec_entry_count() as int,
    );
}

/// The tail behind a slot starts the next one, and the first behind the last.
proof fn lemma_tail(slot: int, count: int, bytes: int)
    requires
        0 <= slot < count <= usize::MAX,
        0 < bytes <= usize::MAX,
        count * bytes <= usize::MAX,
    ensures
        crate::queue::tail_after(slot as usize, count as usize, bytes as usize) == ((slot + 1)
            % count) * bytes,
        0 <= ((slot + 1) % count) * bytes <= usize::MAX,
{
    if slot + 1 == count {
        vstd::arithmetic::div_mod::lemma_mod_self_0(count);
    } else {
        vstd::arithmetic::div_mod::lemma_small_mod((slot + 1) as nat, count as nat);
        assert(0 <= (slot + 1) * bytes <= count * bytes) by (nonlinear_arith)
            requires
                0 <= slot + 1 <= count,
                bytes > 0,
        ;
    }
}

/// A queue without a ring takes no command, and a ring none whose length is not
/// a power of two or is longer than a slot; nothing is done then, and the queue
/// is as before. Where the ring is full, or the next slot is still in use,
/// nothing is done either, but the ticket is used up.
pub proof fn law_refused_submission_does_nothing(
    before: QueueView,
    after: QueueView,
    command: Seq<u8>,
    events: Seq<QueueEvent>,
    r: Result<(), Error>,
)
    requires
        crate::device::carried_out(before, after, command, events, r),
        command.len() <= usize::MAX,
        before.claim < usize::MAX,
        before.backing matches Some(ring) ==> ring.wf() && before.slots.len()
            >= ring.spec_entry_count(),
        before.retired <= before.claim,
    ensures
        before.backing is None ==> r == Err::<(), Error>(Error::ControllerUnavailable) && after
            == before && events.len() == 0,
        before.backing matches Some(ring) ==> {
            let slot = slot_of_ticket(before, before.claim as int);
            &&& !crate::bits::is_pow2(command.len() as int) || command.len()
                > ring.spec_entry_bytes() ==> r == Err::<(), Error>(Error::InvalidGranule) && after
                == before && events.len() == 0
            &&& crate::bits::is_pow2(command.len() as int) && command.len()
                <= ring.spec_entry_bytes() && (before.claim - before.retired
                >= ring.spec_entry_count() || before.slots[slot] != QueueSlot::Empty) ==> {
                &&& r == Err::<(), Error>(Error::ControllerUnavailable)
                &&& events.len() == 0
                &&& only_slot_changed(before, after, -1)
                &&& after.claim == before.claim + 1
                &&& after.committed == before.committed
                &&& after.retired == before.retired
            }
        },
{
    if let Some(ring) = before.backing {
        lemma_slot_in_ring(before, before.claim);
    }
}

/// Where hardware does not leave the slot, the head is read a million times, and
/// then the submission is given up: its command was handed over and its ticket
/// committed, and not retired.
pub proof fn law_submission_is_given_up_after_a_million_polls(
    before: QueueView,
    after: QueueView,
    command: Seq<u8>,
    events: Seq<QueueEvent>,
    r: Result<(), Error>,
)
    requires
        crate::device::carried_out(before, after, command, events, r),
        before.claim < usize::MAX,
        before.backing is Some,
        before.backing->0.wf(),
        before.slots.len() >= before.backing->0.spec_entry_count(),
        events.len() >= 3,
        forall|i: int|
            2 <= i < events.len() ==> (#[trigger] events[i] matches QueueEvent::ReadHead(Ok(head))
                && !has_left(before, slot_of_ticket(before, before.claim as int), head)),
    ensures
        ({
            let slot = slot_of_ticket(before, before.claim as int);
            &&& events.len() == 1_000_002
            &&& r == Err::<(), Error>(Error::ControllerUnavailable)
            &&& only_slot_changed(before, after, slot)
            &&& after.slots[slot] == QueueSlot::Published
            &&& after.claim == before.claim + 1
            &&& after.committed == before.claim + 1
            &&& after.retired == before.retired
        }),
{
    lemma_slot_in_ring(before, before.claim);
    let (answer, heads, last) = choose|
        answer: Result<(), Error>,
        heads: Seq<usize>,
        last: Result<usize, Error>,
    | #[trigger]
        crate::device::watched(before, after, command, answer, heads, last, events, r);
    assert(crate::device::watched(before, after, command, answer, heads, last, events, r));
    let seen = before.watch(command, answer, heads, last);
    assert(seen.len() == heads.len() + 3);
    let end = events[events.len() - 1];
    assert(end matches QueueEvent::ReadHead(Ok(head)) && !has_left(
        before,
        slot_of_ticket(before, before.claim as int),
        head,
    ));
    assert(seen[seen.len() - 1] == QueueEvent::ReadHead(last));
}

/// What a submission does next, by the stage it is in: it waits for room in the
/// ring, for its slot to be free, for its turn, and for hardware to leave its
/// slot, each for at most a million polls; it moves on exactly when that is so.
/// On its way it changes its own slot and the counters, and nothing else.
#[verifier::rlimit(40)]
pub proof fn law_submission_moves_on_when_it_may(
    submission: SubmissionView,
    queue: QueueView,
    reply: SubmitReply,
)
    requires
        submission.agrees(queue),
        queue.backing->0.wf(),
        queue.slots.len() >= queue.backing->0.spec_entry_count(),
        submission.polls < 1_000_000,
        queue.retired <= submission.ticket.ticket,
    ensures
        ({
            let turn = submission.turn(queue, reply);
            let ticket = submission.ticket.ticket;
            let slot = submission.ticket.slot as int;
            let ring = queue.backing->0;
            let may = match submission.stage {
                SubmitStage::Room => ticket - queue.retired < ring.spec_entry_count(),
                SubmitStage::Slot => queue.slots[slot] == QueueSlot::Empty,
                SubmitStage::Turn => queue.committed == ticket,
                SubmitStage::Waiting => reply matches SubmitReply::Head(Ok(head)) && has_left(
                    queue,
                    slot,
                    head,
                ),
                _ => true,
            };
            let waits = submission.stage == SubmitStage::Room || submission.stage
                == SubmitStage::Slot || submission.stage == SubmitStage::Turn || (submission.stage
                == SubmitStage::Waiting && (reply matches SubmitReply::Head(Ok(_))));
            &&& slot == slot_of_ticket(queue, ticket as int)
            &&& only_slot_changed(queue, turn.queue, slot)
            &&& turn.queue.claim == queue.claim
            &&& waits && !may ==> {
                &&& turn.queue == queue
                &&& submission.polls + 1 < 1_000_000 ==> turn.stage == submission.stage
                    && turn.polls == submission.polls + 1
                &&& submission.polls + 1 == 1_000_000 ==> turn.stage == SubmitStage::Closed
                    && turn.action == Asked::Finish(Err(Error::ControllerUnavailable))
            }
            &&& waits && may ==> turn.stage != submission.stage
            &&& submission.stage == SubmitStage::Room && may ==> turn.stage == SubmitStage::Slot
                && turn.queue == queue && turn.action is Again && turn.polls == 0
            &&& submission.stage == SubmitStage::Slot && may ==> {
                &&& turn.queue.slots[slot] == QueueSlot::Writing
                &&& turn.stage == SubmitStage::Filling ==> (turn.action
                    matches Asked::WriteSlot { vaddr, image } && fills_slot(
                    queue,
                    slot,
                    submission.command,
                    QueueEvent::WriteSlot { vaddr, image },
                ))
                &&& turn.stage != SubmitStage::Filling ==> turn.stage == SubmitStage::Closed
                    && turn.action == Asked::Finish(Err(Error::AddressOverflow))
                    && ring.spec_virt().start.0 + slot * ring.spec_entry_bytes() > usize::MAX
            }
            &&& submission.stage == SubmitStage::Filling ==> turn.stage == SubmitStage::Turn
                && turn.queue.slots[slot] == QueueSlot::Ready && turn.action is Again && turn.polls
                == 0
            &&& submission.stage == SubmitStage::Turn && may ==> turn.stage
                == SubmitStage::Publishing && turn.queue == queue && (turn.action
                matches Asked::WriteTail(tail) && is_tail_behind(queue, slot, tail))
            &&& submission.stage == SubmitStage::Publishing ==> {
                &&& turn.stage == SubmitStage::Waiting
                &&& turn.queue.slots[slot] == QueueSlot::Published
                &&& turn.queue.committed == ticket + 1
                &&& turn.queue.retired == queue.retired
                &&& turn.action == Asked::ReadHead
                &&& turn.polls == 0
            }
            &&& submission.stage == SubmitStage::Waiting && waits && may ==> turn.stage
                == SubmitStage::Checking && turn.queue == queue && turn.action == Asked::CheckError
            &&& submission.stage == SubmitStage::Checking ==> match reply {
                SubmitReply::Checked(Ok(_)) => {
                    &&& turn.stage == SubmitStage::Closed
                    &&& turn.action == Asked::Finish(Ok(()))
                    &&& turn.queue.slots[slot] == QueueSlot::Empty
                    &&& turn.queue.retired == ticket + 1
                    &&& turn.queue.committed == queue.committed
                },
                SubmitReply::Checked(Err(error)) => {
                    &&& turn.stage == SubmitStage::Closed
                    &&& turn.action == Asked::Finish(Err(error))
                    &&& turn.queue == queue
                },
                _ => turn.stage == SubmitStage::Checking && turn.queue == queue,
            }
            &&& submission.stage == SubmitStage::Waiting ==> (reply matches SubmitReply::Head(
                Err(error),
            ) ==> turn.stage == SubmitStage::Closed && turn.action == Asked::Finish(Err(error))
                && turn.queue == queue)
            &&& submission.stage == SubmitStage::Closed ==> turn.stage == SubmitStage::Closed
                && turn.queue == queue && turn.action is Again
        }),
{
    lemma_slot_in_ring(queue, submission.ticket.ticket);
    let ring = queue.backing->0;
    lemma_tail(
        submission.ticket.slot as int,
        ring.spec_entry_count() as int,
        ring.spec_entry_bytes() as int,
    );
}

/// Queue memory is accepted where the number of its entries and their size are
/// powers of two, a size is at least eight bytes, the entries fit into both of
/// its ranges, and these start at a multiple of the size.
pub proof fn law_queue_memory_holds_its_entries(
    phys: crate::addr::PhysAddrRange,
    virt: crate::addr::VirtAddrRange,
    entry_count: usize,
    entry_bytes: usize,
)
    ensures
        ({
            let bytes = entry_count * entry_bytes;
            let counted = crate::bits::is_pow2(entry_count as int);
            let sized = crate::bits::is_pow2(entry_bytes as int) && entry_bytes >= 8;
            let fits = bytes <= phys.spec_size() && bytes <= virt.spec_size();
            let placed = phys.start.0 as int % entry_bytes as int == 0 && virt.start.0 as int
                % entry_bytes as int == 0;
            match crate::queue::backing_fault(phys, virt, entry_count, entry_bytes) {
                None => counted && sized && bytes <= usize::MAX && fits && placed,
                Some(Error::InvalidRange) => !counted || sized && bytes <= usize::MAX && !fits,
                Some(Error::InvalidGranule) => counted && !sized,
                Some(Error::AddressOverflow) => counted && sized && bytes > usize::MAX,
                Some(Error::InvalidAddress) => counted && sized && fits && !placed,
                Some(_) => false,
            }
        }),
{
}

/// A submission that failed behind its ticket keeps what it had done: where its
/// turn had not come, its slot is written and nothing is published; where its
/// tail was written, its ticket is committed and its slot published. It is never
/// retired, and the error is the one that hardware or its registers gave, or
/// that of a wait that was given up.
#[verifier::rlimit(40)]
pub proof fn law_failed_submission_is_not_retired(
    before: QueueView,
    after: QueueView,
    command: Seq<u8>,
    events: Seq<QueueEvent>,
    r: Result<(), Error>,
)
    requires
        crate::device::carried_out(before, after, command, events, r),
        r is Err,
        before.claim < usize::MAX,
        before.backing is Some,
        before.backing->0.wf(),
        before.slots.len() >= before.backing->0.spec_entry_count(),
    ensures
        ({
            let slot = slot_of_ticket(before, before.claim as int);
            &&& after.retired == before.retired
            &&& only_slot_changed(before, after, slot)
            &&& events.len() == 1 ==> {
                &&& fills_slot(before, slot, command, events[0])
                &&& before.committed != before.claim
                &&& after.slots[slot] == QueueSlot::Ready
                &&& after.committed == before.committed
                &&& after.claim == before.claim + 1
                &&& r == Err::<(), Error>(Error::ControllerUnavailable)
            }
            &&& events.len() != 2
            &&& events.len() > 2 ==> {
                &&& before.committed == before.claim
                &&& fills_slot(before, slot, command, events[0])
                &&& after.slots[slot] == QueueSlot::Published
                &&& after.committed == before.claim + 1
                &&& after.claim == before.claim + 1
                &&& match events[events.len() - 1] {
                    QueueEvent::ReadHead(Err(error)) => r == Err::<(), Error>(error),
                    QueueEvent::ReadHead(Ok(head)) => {
                        &&& r == Err::<(), Error>(Error::ControllerUnavailable)
                        &&& events.len() == 1_000_002
                        &&& !has_left(before, slot, head)
                    },
                    QueueEvent::CheckError(checked) => r == checked,
                    _ => false,
                }
            }
        }),
{
    lemma_slot_in_ring(before, before.claim);
    if events.len() > 1 {
        let (answer, heads, last) = choose|
            answer: Result<(), Error>,
            heads: Seq<usize>,
            last: Result<usize, Error>,
        | #[trigger]
            crate::device::watched(before, after, command, answer, heads, last, events, r);
        assert(crate::device::watched(before, after, command, answer, heads, last, events, r));
        let seen = before.watch(command, answer, heads, last);
        assert(seen.len() == heads.len() + 3);
        assert(seen[0] == before.next_write(command));
        assert(seen[seen.len() - 1] == QueueEvent::ReadHead(last));
        assert(events[0] == seen[0]);
    } else if exists|answer: Result<(), Error>, heads: Seq<usize>, last: Result<usize, Error>|
        #[trigger] crate::device::watched(before, after, command, answer, heads, last, events, r) {
        let (answer, heads, last) = choose|
            answer: Result<(), Error>,
            heads: Seq<usize>,
            last: Result<usize, Error>,
        | #[trigger]
            crate::device::watched(before, after, command, answer, heads, last, events, r);
        let seen = before.watch(command, answer, heads, last);
        assert(seen.len() == heads.len() + 3);
    }
}

/// A submission through callbacks did what some run of the queue did, and every
/// answer in it came from the callback that was asked: slots and tails were
/// handed to theirs, and heads and errors are what theirs returned.
pub proof fn law_callbacks_gave_the_answers<WS, RH, WT, CE>(
    before: QueueView,
    after: QueueView,
    command: Seq<u8>,
    write_slot: WS,
    read_head: RH,
    write_tail: WT,
    check_error: CE,
    r: Result<(), Error>,
) -> (events: Seq<QueueEvent>) where
    WS: Fn(SlotWrite),
    RH: Fn() -> Result<usize, Error>,
    WT: Fn(usize),
    CE: Fn() -> Result<(), Error>,

    requires
        crate::queue::submission(
            before,
            after,
            command,
            write_slot,
            read_head,
            write_tail,
            check_error,
            r,
        ),
    ensures
        crate::device::carried_out(before, after, command, events, r),
        forall|i: int|
            0 <= i < events.len() ==> match #[trigger] events[i] {
                QueueEvent::WriteSlot { vaddr, image } => exists|write: SlotWrite|
                    {
                        &&& #[trigger] call_ensures(write_slot, (write,), ())
                        &&& write.vaddr == vaddr
                        &&& write.image@ == image
                    },
                QueueEvent::WriteTail { tail, answer } => answer is Ok && call_ensures(
                    write_tail,
                    (tail,),
                    (),
                ),
                QueueEvent::ReadHead(head) => call_ensures(read_head, (), head),
                QueueEvent::CheckError(checked) => call_ensures(check_error, (), checked),
            },
{
    let events = choose|events: Seq<QueueEvent>|
        {
            &&& #[trigger] crate::device::carried_out(before, after, command, events, r)
            &&& forall|i: int|
                0 <= i < events.len() ==> crate::device::answers(
                    #[trigger] events[i],
                    write_slot,
                    read_head,
                    crate::device::tail_taken(write_tail),
                    check_error,
                )
        };
    events
}

} // verus!
