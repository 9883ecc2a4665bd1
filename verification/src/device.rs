//! The hardware behind a command queue, and the record of what was done to it.

use vstd::prelude::*;

use crate::addr::VirtAddr;
use crate::error::Error;
use crate::queue::{QueueSlot, QueueView, SlotWrite, COMMAND_QUEUE_POLL_LIMIT};
use crate::submit::Asked;

verus! {

/// One thing that was done to the hardware of a queue, with its answer.
pub enum QueueEvent {
    WriteSlot { vaddr: VirtAddr, image: Seq<u8> },
    WriteTail { tail: usize, answer: Result<(), Error> },
    ReadHead(Result<usize, Error>),
    CheckError(Result<(), Error>),
}

impl QueueEvent {
    /// The action that the event carried out.
    pub open spec fn asked(self) -> Asked {
        match self {
            QueueEvent::WriteSlot { vaddr, image } => Asked::WriteSlot { vaddr, image },
            QueueEvent::WriteTail { tail, .. } => Asked::WriteTail(tail),
            QueueEvent::ReadHead(_) => Asked::ReadHead,
            QueueEvent::CheckError(_) => Asked::CheckError,
        }
    }
}

/// The actions that the events carried out.
pub open spec fn asked_of(events: Seq<QueueEvent>) -> Seq<Asked> {
    Seq::new(events.len(), |i: int| events[i].asked())
}

/// The hardware of a command queue: the memory of its slots, its head and tail
/// registers and its error state. The log has everything that was done to it,
/// in order.
pub trait QueueDevice: Sized {
    /// What was done so far.
    spec fn log(self) -> Seq<QueueEvent>;

    /// The device can be used.
    spec fn ready(self) -> bool;

    /// The device as it was before anything was done.
    spec fn unused(self) -> Self;

    /// Stores the bytes of a slot.
    fn write_slot(&mut self, write: SlotWrite)
        requires
            old(self).ready(),
        ensures
            final(self).ready(),
            final(self).unused() == old(self).unused(),
            final(self).log() == old(self).log().push(
                QueueEvent::WriteSlot { vaddr: write.vaddr, image: write.image@ },
            ),
    ;

    /// Writes the tail register. The answer says whether it could be written.
    fn write_tail(&mut self, tail: usize) -> (r: Result<(), Error>)
        requires
            old(self).ready(),
        ensures
            final(self).ready(),
            final(self).unused() == old(self).unused(),
            final(self).log() == old(self).log().push(QueueEvent::WriteTail { tail, answer: r }),
    ;

    /// Reads the head register.
    fn read_head(&mut self) -> (r: Result<usize, Error>)
        requires
            old(self).ready(),
        ensures
            final(self).ready(),
            final(self).unused() == old(self).unused(),
            final(self).log() == old(self).log().push(QueueEvent::ReadHead(r)),
    ;

    /// Asks for an error.
    fn check_error(&mut self) -> (r: Result<(), Error>)
        requires
            old(self).ready(),
        ensures
            final(self).ready(),
            final(self).unused() == old(self).unused(),
            final(self).log() == old(self).log().push(QueueEvent::CheckError(r)),
    ;
}

/// What a callback that can fail may answer to a tail write.
pub open spec fn tail_answers<WT: Fn(usize) -> Result<(), Error>>(write_tail: WT) -> spec_fn(
    usize,
    Result<(), Error>,
) -> bool {
    |tail: usize, answer: Result<(), Error>| call_ensures(write_tail, (tail,), answer)
}

/// The same of a callback that cannot.
pub open spec fn tail_taken<WT: Fn(usize)>(write_tail: WT) -> spec_fn(
    usize,
    Result<(), Error>,
) -> bool {
    |tail: usize, answer: Result<(), Error>|
        answer is Ok && call_ensures(write_tail, (tail,), ())
}

/// The callbacks may answer the event as they did, where `on_tail` says what may
/// be answered to a tail write.
pub open spec fn answers<WS, RH, CE>(
    event: QueueEvent,
    write_slot: WS,
    read_head: RH,
    on_tail: spec_fn(usize, Result<(), Error>) -> bool,
    check_error: CE,
) -> bool where
    WS: Fn(SlotWrite),
    RH: Fn() -> Result<usize, Error>,
    CE: Fn() -> Result<(), Error>,
 {
    match event {
        QueueEvent::WriteSlot { vaddr, image } => exists|write: SlotWrite|
            write.vaddr == vaddr && write.image@ == image && #[trigger] call_ensures(
                write_slot,
                (write,),
                (),
            ),
        QueueEvent::WriteTail { tail, answer } => on_tail(tail, answer),
        QueueEvent::ReadHead(r) => call_ensures(read_head, (), r),
        QueueEvent::CheckError(r) => call_ensures(check_error, (), r),
    }
}

/// A device made of four callbacks.
pub struct QueueCallbacks<WS, RH, WT, CE> {
    write_slot: WS,
    read_head: RH,
    write_tail: WT,
    check_error: CE,
    log: Ghost<Seq<QueueEvent>>,
}

impl<WS, RH, WT, CE> QueueCallbacks<WS, RH, WT, CE> where
    WS: Fn(SlotWrite),
    RH: Fn() -> Result<usize, Error>,
    WT: Fn(usize) -> Result<(), Error>,
    CE: Fn() -> Result<(), Error>,
 {
    /// The device is made of these callbacks.
    pub closed spec fn made_of(
        self,
        write_slot: WS,
        read_head: RH,
        write_tail: WT,
        check_error: CE,
    ) -> bool {
        &&& self.write_slot == write_slot
        &&& self.read_head == read_head
        &&& self.write_tail == write_tail
        &&& self.check_error == check_error
    }

    pub fn new(write_slot: WS, read_head: RH, write_tail: WT, check_error: CE) -> (r: Self)
        requires
            forall|write: SlotWrite| call_requires(write_slot, (write,)),
            call_requires(read_head, ()),
            forall|tail: usize| call_requires(write_tail, (tail,)),
            call_requires(check_error, ()),
        ensures
            r.ready(),
            r.log() == Seq::<QueueEvent>::empty(),
            r.made_of(write_slot, read_head, write_tail, check_error),
    {
        QueueCallbacks { write_slot, read_head, write_tail, check_error, log: Ghost(Seq::empty()) }
    }

    /// Whatever was done to a device made of callbacks, the callbacks answered
    /// it.
    pub proof fn lemma_answers(
        self,
        start: Self,
        write_slot: WS,
        read_head: RH,
        write_tail: WT,
        check_error: CE,
    )
        requires
            self.ready(),
            self.unused() == start.unused(),
            start.made_of(write_slot, read_head, write_tail, check_error),
        ensures
            forall|i: int|
                0 <= i < self.log().len() ==> answers(
                    #[trigger] self.log()[i],
                    write_slot,
                    read_head,
                    tail_answers(write_tail),
                    check_error,
                ),
    {
    }
}

impl<WS, RH, WT, CE> QueueDevice for QueueCallbacks<WS, RH, WT, CE> where
    WS: Fn(SlotWrite),
    RH: Fn() -> Result<usize, Error>,
    WT: Fn(usize) -> Result<(), Error>,
    CE: Fn() -> Result<(), Error>,
 {
    closed spec fn log(self) -> Seq<QueueEvent> {
        self.log@
    }

    closed spec fn ready(self) -> bool {
        &&& forall|write: SlotWrite| call_requires(self.write_slot, (write,))
        &&& call_requires(self.read_head, ())
        &&& forall|tail: usize| call_requires(self.write_tail, (tail,))
        &&& call_requires(self.check_error, ())
        &&& forall|i: int|
            0 <= i < self.log@.len() ==> answers(
                #[trigger] self.log@[i],
                self.write_slot,
                self.read_head,
                tail_answers(self.write_tail),
                self.check_error,
            )
    }

    closed spec fn unused(self) -> Self {
        QueueCallbacks { log: Ghost(Seq::empty()), ..self }
    }

    fn write_slot(&mut self, write: SlotWrite) {
        let ghost event = QueueEvent::WriteSlot { vaddr: write.vaddr, image: write.image@ };
        (self.write_slot)(write);
        self.log = Ghost(self.log@.push(event));
    }

    fn write_tail(&mut self, tail: usize) -> (r: Result<(), Error>) {
        let r = (self.write_tail)(tail);
        self.log = Ghost(self.log@.push(QueueEvent::WriteTail { tail, answer: r }));
        r
    }

    fn read_head(&mut self) -> (r: Result<usize, Error>) {
        let r = (self.read_head)();
        self.log = Ghost(self.log@.push(QueueEvent::ReadHead(r)));
        r
    }

    fn check_error(&mut self) -> (r: Result<(), Error>) {
        let r = (self.check_error)();
        self.log = Ghost(self.log@.push(QueueEvent::CheckError(r)));
        r
    }
}

/// One read of the head register for each of the answers.
pub open spec fn reads(heads: Seq<usize>) -> Seq<QueueEvent> {
    Seq::new(heads.len(), |i: int| QueueEvent::ReadHead(Ok(heads[i])))
}

impl QueueView {
    /// The write of the next submission's slot: the command's bytes and zeros.
    pub open spec fn next_write(self, command: Seq<u8>) -> QueueEvent {
        QueueEvent::WriteSlot {
            vaddr: self.ring().spec_entry_vaddr(self.next_ticket().slot)->Ok_0,
            image: crate::queue::slot_image(command, self.ring().spec_entry_bytes() as int),
        }
    }

    /// The next submission's slot write and tail write.
    pub open spec fn publish(self, command: Seq<u8>, answer: Result<(), Error>) -> Seq<QueueEvent> {
        seq![
            self.next_write(command),
            QueueEvent::WriteTail { tail: self.next_tail(), answer },
        ]
    }

    /// The same with the reads of the head register that follow.
    pub open spec fn watch(
        self,
        command: Seq<u8>,
        answer: Result<(), Error>,
        heads: Seq<usize>,
        last: Result<usize, Error>,
    ) -> Seq<QueueEvent> {
        (self.publish(command, answer) + reads(heads)).push(QueueEvent::ReadHead(last))
    }
}

/// What comes of a submission whose tail was written, whatever was answered to
/// that: the head is read until hardware has left the slot, at most so often as
/// the limit allows, `last` being the last answer and `heads` those before it.
/// Only then hardware is asked for an error, once, and the submission retires
/// where there is none.
pub open spec fn watched(
    before: QueueView,
    after: QueueView,
    command: Seq<u8>,
    answer: Result<(), Error>,
    heads: Seq<usize>,
    last: Result<usize, Error>,
    events: Seq<QueueEvent>,
    r: Result<(), Error>,
) -> bool {
    let seen = before.watch(command, answer, heads, last);
    &&& heads.len() < COMMAND_QUEUE_POLL_LIMIT
    &&& forall|i: int| 0 <= i < heads.len() ==> !before.next_consumed(#[trigger] heads[i])
    &&& match last {
        Err(error) => {
            &&& events == seen
            &&& r == Err::<(), Error>(error)
            &&& after == before.after_publish()
        },
        Ok(head) => if before.next_consumed(head) {
            &&& events == seen.push(QueueEvent::CheckError(r))
            &&& after == (if r is Ok {
                before.after_retire()
            } else {
                before.after_publish()
            })
        } else {
            &&& heads.len() + 1 == COMMAND_QUEUE_POLL_LIMIT
            &&& events == seen
            &&& r == Err::<(), Error>(Error::ControllerUnavailable)
            &&& after == before.after_publish()
        },
    }
}

/// What one submission of `command` does to a queue and to its hardware, the
/// events in order and nothing else: each refusal leaves the queue where it
/// stood, the command is written to the slot of the next ticket, its tail is
/// written, and then hardware is watched.
pub open spec fn carried_out(
    before: QueueView,
    after: QueueView,
    command: Seq<u8>,
    events: Seq<QueueEvent>,
    r: Result<(), Error>,
) -> bool {
    let ticket = before.next_ticket();
    let vaddr = before.ring().spec_entry_vaddr(ticket.slot);
    if before.claim_fault(command.len() as usize) is Some {
        &&& r == Err::<(), Error>(before.claim_fault(command.len() as usize)->0)
        &&& after == before
        &&& events == Seq::<QueueEvent>::empty()
    } else if !before.has_room(ticket) || before.slots[ticket.slot as int] != QueueSlot::Empty {
        &&& r == Err::<(), Error>(Error::ControllerUnavailable)
        &&& after == before.claimed()
        &&& events == Seq::<QueueEvent>::empty()
    } else if vaddr is Err {
        &&& r == Err::<(), Error>(vaddr->Err_0)
        &&& after == before.claimed().with_slot(ticket, QueueSlot::Writing)
        &&& events == Seq::<QueueEvent>::empty()
    } else if before.committed != ticket.ticket {
        &&& r == Err::<(), Error>(Error::ControllerUnavailable)
        &&& after == before.claimed().with_slot(ticket, QueueSlot::Ready)
        &&& events == seq![before.next_write(command)]
    } else {
        exists|answer: Result<(), Error>, heads: Seq<usize>, last: Result<usize, Error>| #[trigger]
            watched(before, after, command, answer, heads, last, events, r)
    }
}

/// What was answered to the tail write of a submission, where it came to that.
pub open spec fn tail_answer(events: Seq<QueueEvent>) -> Result<(), Error> {
    if events.len() > 1 {
        events[1]->answer
    } else {
        Ok(())
    }
}

/// What a submission came to, and what was answered to its tail write.
#[derive(Clone, Copy, Debug, PartialEq, Eq)]
pub struct QueueReport {
    pub submitted: Result<(), Error>,
    pub tail: Result<(), Error>,
}

impl QueueReport {
    /// The error of the submission, else that of its tail write.
    pub open spec fn spec_outcome(self) -> Result<(), Error> {
        match self.submitted {
            Ok(_) => self.tail,
            Err(error) => Err(error),
        }
    }

    pub fn outcome(self) -> (r: Result<(), Error>)
        ensures
            r == self.spec_outcome(),
    {
        match self.submitted {
            Ok(_) => self.tail,
            Err(error) => Err(error),
        }
    }
}

/// A submission was carried out and reported as it came to.
pub open spec fn reported(
    before: QueueView,
    after: QueueView,
    command: Seq<u8>,
    events: Seq<QueueEvent>,
    report: QueueReport,
) -> bool {
    &&& carried_out(before, after, command, events, report.submitted)
    &&& report.tail == tail_answer(events)
}

/// A submission takes one ticket, or none where its command is refused, and the
/// queue stays on its ring.
pub proof fn law_submission_takes_one_ticket(
    before: QueueView,
    after: QueueView,
    command: Seq<u8>,
    events: Seq<QueueEvent>,
    r: Result<(), Error>,
)
    requires
        carried_out(before, after, command, events, r),
        before.claim < usize::MAX,
    ensures
        after.backing == before.backing,
        after.claim == before.claim + (if before.claim_fault(command.len() as usize) is Some {
            0int
        } else {
            1
        }),
{
}

/// A submission that succeeded did exactly what its script asks for, in its
/// order: its slot was written once, then the tail behind it was written once,
/// then the head register was read and nothing else done until hardware was
/// found to have left the slot, then hardware was asked once for an error.
pub proof fn law_successful_submission_does_its_script(
    before: QueueView,
    after: QueueView,
    command: Seq<u8>,
    events: Seq<QueueEvent>,
    r: Result<(), Error>,
)
    requires
        carried_out(before, after, command, events, r),
        r is Ok,
    ensures
        4 <= events.len() <= COMMAND_QUEUE_POLL_LIMIT + 3,
        asked_of(events) == crate::submit::script(
            before.next_ticket(),
            command,
            before.ring(),
            (events.len() - 3) as nat,
        ),
        events[0] == before.next_write(command),
        events[1] == (QueueEvent::WriteTail {
            tail: before.next_tail(),
            answer: tail_answer(events),
        }),
        forall|i: int|
            2 <= i < events.len() - 2 ==> (#[trigger] events[i] matches QueueEvent::ReadHead(Ok(head))
                && !before.next_consumed(head)),
        events[events.len() - 2] matches QueueEvent::ReadHead(Ok(head)) && before.next_consumed(
            head,
        ),
        events.last() == QueueEvent::CheckError(Ok(())),
{
    let (answer, heads, last) = choose|
        answer: Result<(), Error>,
        heads: Seq<usize>,
        last: Result<usize, Error>,
    | #[trigger]
        watched(before, after, command, answer, heads, last, events, r);
    let seen = before.watch(command, answer, heads, last);
    assert(events == seen.push(QueueEvent::CheckError(r)));
    assert(r->Ok_0 == ());
    assert forall|i: int| 2 <= i < events.len() - 2 implies (#[trigger] events[i] matches QueueEvent::ReadHead(Ok(head))
                && !before.next_consumed(head)) by {
        assert(events[i] == QueueEvent::ReadHead(Ok(heads[i - 2])));
    }
    assert(asked_of(events) =~= crate::submit::script(
        before.next_ticket(),
        command,
        before.ring(),
        (events.len() - 3) as nat,
    ));
}

/// Whatever comes of a submission, no more is done than its script asks for,
/// and in its order.
pub proof fn law_submission_does_a_start_of_its_script(
    before: QueueView,
    after: QueueView,
    command: Seq<u8>,
    events: Seq<QueueEvent>,
    r: Result<(), Error>,
)
    requires
        carried_out(before, after, command, events, r),
    ensures
        asked_of(events).is_prefix_of(
            crate::submit::script(
                before.next_ticket(),
                command,
                before.ring(),
                if events.len() < 3 {
                    0
                } else if events.last() is CheckError {
                    (events.len() - 3) as nat
                } else {
                    (events.len() - 2) as nat
                },
            ),
        ),
{
    if exists|answer: Result<(), Error>, heads: Seq<usize>, last: Result<usize, Error>| #[trigger]
        watched(before, after, command, answer, heads, last, events, r) && events.len() >= 3 {
        let (answer, heads, last) = choose|
            answer: Result<(), Error>,
            heads: Seq<usize>,
            last: Result<usize, Error>,
        | #[trigger]
            watched(before, after, command, answer, heads, last, events, r) && events.len() >= 3;
        let seen = before.watch(command, answer, heads, last);
        assert(seen.len() == heads.len() + 3);
    }
}

/// A submission that was reported succeeded exactly where it was carried out
/// and its tail was taken; the error of the submission comes before that of the
/// tail.
pub proof fn law_outcome_tells_of_both(report: QueueReport)
    ensures
        report.spec_outcome() is Ok <==> report.submitted is Ok && report.tail is Ok,
        report.submitted is Err ==> report.spec_outcome() == report.submitted,
        report.submitted is Ok && report.tail is Err ==> report.spec_outcome() == report.tail,
{
}

} // verus!
