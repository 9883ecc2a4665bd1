//! One submission to a command queue, step by step.
//!
//! Each step looks at the queue once, changes it, and says what is to be done
//! before the next step. Submissions of several callers can interleave between
//! steps.

use vstd::prelude::*;

use crate::addr::VirtAddr;
use crate::error::Error;
use crate::poll::{poll_outcome, Poll};
use crate::queue::{
    CommandQueue, CommandQueueBacking, QueueSlot, QueueTicket, QueueView, SlotWrite,
    COMMAND_QUEUE_POLL_LIMIT,
};

verus! {

/// How far a submission got.
#[derive(Clone, Copy, Debug, PartialEq, Eq, Structural)]
pub enum SubmitStage {
    /// It waits for room in the ring.
    Room,
    /// It waits for its slot to be free.
    Slot,
    /// Its slot is being written.
    Filling,
    /// Its slot is written, and it waits for its turn.
    Turn,
    /// Its tail is being written.
    Publishing,
    /// It waits for hardware to leave its slot.
    Waiting,
    /// Hardware has left its slot, and is asked for an error.
    Checking,
    /// It is over.
    Closed,
}

/// What is to be done before the next step.
#[derive(Debug, PartialEq, Eq)]
pub enum SubmitAction {
    /// Nothing: the next step can be made at once, or after a pause.
    Again,
    /// The bytes are to be written to the slot.
    WriteSlot(SlotWrite),
    /// The tail register is to be written.
    WriteTail(usize),
    /// The head register is to be read.
    ReadHead,
    /// Hardware is to be asked for an error.
    CheckError,
    /// Nothing more: the submission is over.
    Finish(Result<(), Error>),
}

/// What came of the action before a step.
#[derive(Clone, Copy, Debug, PartialEq, Eq)]
pub enum SubmitReply {
    /// It was done.
    Done,
    /// The head register was read.
    Head(Result<usize, Error>),
    /// Hardware was asked for an error.
    Checked(Result<(), Error>),
}

/// An action, with its bytes as a sequence.
pub enum Asked {
    Again,
    WriteSlot { vaddr: VirtAddr, image: Seq<u8> },
    WriteTail(usize),
    ReadHead,
    CheckError,
    Finish(Result<(), Error>),
}

impl View for SubmitAction {
    type V = Asked;

    open spec fn view(&self) -> Asked {
        match *self {
            SubmitAction::Again => Asked::Again,
            SubmitAction::WriteSlot(write) => Asked::WriteSlot {
                vaddr: write.vaddr,
                image: write.image@,
            },
            SubmitAction::WriteTail(tail) => Asked::WriteTail(tail),
            SubmitAction::ReadHead => Asked::ReadHead,
            SubmitAction::CheckError => Asked::CheckError,
            SubmitAction::Finish(r) => Asked::Finish(r),
        }
    }
}

/// The write of a command to the ticket's slot.
pub open spec fn slot_write(
    ticket: QueueTicket,
    command: Seq<u8>,
    ring: CommandQueueBacking,
) -> Asked {
    Asked::WriteSlot {
        vaddr: ring.spec_entry_vaddr(ticket.slot)->Ok_0,
        image: crate::queue::slot_image(command, ring.spec_entry_bytes() as int),
    }
}

/// The tail write that publishes the ticket's slot.
pub open spec fn tail_write(ticket: QueueTicket, ring: CommandQueueBacking) -> Asked {
    Asked::WriteTail(
        crate::queue::tail_after(
            ticket.slot,
            ring.spec_entry_count(),
            ring.spec_entry_bytes(),
        ) as usize,
    )
}

/// The actions of a submission that nothing stops: the slot is written once,
/// then the tail is written once, then the head is read `reads` times, then
/// hardware is asked once for an error.
pub open spec fn script(
    ticket: QueueTicket,
    command: Seq<u8>,
    ring: CommandQueueBacking,
    reads: nat,
) -> Seq<Asked> {
    seq![slot_write(ticket, command, ring), tail_write(ticket, ring)] + Seq::new(
        reads,
        |i: int| Asked::ReadHead,
    ) + seq![Asked::CheckError]
}

/// What a submission knows: its ticket and command, how far it got, the polls
/// of its present wait, and the actions that it asked for so far.
pub struct SubmissionView {
    pub ticket: QueueTicket,
    pub command: Seq<u8>,
    pub stage: SubmitStage,
    pub polls: usize,
    pub asked: Seq<Asked>,
}

/// What one step does.
pub struct SubmitTurn {
    pub stage: SubmitStage,
    pub polls: usize,
    pub queue: QueueView,
    pub action: Asked,
}

impl SubmissionView {
    /// What the next step does. A reply that was not asked for is passed over.
    pub open spec fn turn(self, queue: QueueView, reply: SubmitReply) -> SubmitTurn {
        let ring = queue.ring();
        let held = SubmitTurn {
            stage: self.stage,
            polls: self.polls,
            queue,
            action: Asked::Again,
        };
        let again = SubmitTurn { polls: (self.polls + 1) as usize, ..held };
        let lost = SubmitTurn {
            stage: SubmitStage::Closed,
            action: Asked::Finish(Err(Error::ControllerUnavailable)),
            ..held
        };
        match self.stage {
            SubmitStage::Room => match crate::poll::poll_after(
                queue.has_room(self.ticket),
                self.polls,
                COMMAND_QUEUE_POLL_LIMIT,
            ) {
                Poll::Done => SubmitTurn { stage: SubmitStage::Slot, polls: 0, ..held },
                Poll::Again => again,
                Poll::TimedOut => lost,
            },
            SubmitStage::Slot => match crate::poll::poll_after(
                queue.slots[self.ticket.slot as int] == QueueSlot::Empty,
                self.polls,
                COMMAND_QUEUE_POLL_LIMIT,
            ) {
                Poll::Done => {
                    let taken = queue.with_slot(self.ticket, QueueSlot::Writing);
                    match ring.spec_entry_vaddr(self.ticket.slot) {
                        Ok(_) => SubmitTurn {
                            stage: SubmitStage::Filling,
                            queue: taken,
                            action: slot_write(self.ticket, self.command, ring),
                            ..held
                        },
                        Err(error) => SubmitTurn {
                            stage: SubmitStage::Closed,
                            queue: taken,
                            action: Asked::Finish(Err(error)),
                            ..held
                        },
                    }
                },
                Poll::Again => again,
                Poll::TimedOut => lost,
            },
            SubmitStage::Filling => SubmitTurn {
                stage: SubmitStage::Turn,
                polls: 0,
                queue: queue.with_slot(self.ticket, QueueSlot::Ready),
                ..held
            },
            SubmitStage::Turn => match crate::poll::poll_after(
                queue.committed == self.ticket.ticket,
                self.polls,
                COMMAND_QUEUE_POLL_LIMIT,
            ) {
                Poll::Done => SubmitTurn {
                    stage: SubmitStage::Publishing,
                    action: tail_write(self.ticket, ring),
                    ..held
                },
                Poll::Again => again,
                Poll::TimedOut => lost,
            },
            SubmitStage::Publishing => SubmitTurn {
                stage: SubmitStage::Waiting,
                polls: 0,
                queue: queue.publishing(self.ticket),
                action: Asked::ReadHead,
            },
            SubmitStage::Waiting => match reply {
                SubmitReply::Head(Ok(head)) => match crate::poll::poll_after(
                    head / ring.spec_entry_bytes() != self.ticket.slot,
                    self.polls,
                    COMMAND_QUEUE_POLL_LIMIT,
                ) {
                    Poll::Done => SubmitTurn {
                        stage: SubmitStage::Checking,
                        action: Asked::CheckError,
                        ..held
                    },
                    Poll::Again => SubmitTurn { action: Asked::ReadHead, ..again },
                    Poll::TimedOut => lost,
                },
                SubmitReply::Head(Err(error)) => SubmitTurn {
                    stage: SubmitStage::Closed,
                    action: Asked::Finish(Err(error)),
                    ..held
                },
                _ => held,
            },
            SubmitStage::Checking => match reply {
                SubmitReply::Checked(Ok(_)) => SubmitTurn {
                    stage: SubmitStage::Closed,
                    queue: queue.retiring(self.ticket),
                    action: Asked::Finish(Ok(())),
                    ..held
                },
                SubmitReply::Checked(Err(error)) => SubmitTurn {
                    stage: SubmitStage::Closed,
                    action: Asked::Finish(Err(error)),
                    ..held
                },
                _ => held,
            },
            SubmitStage::Closed => held,
        }
    }

    /// The submission after the next step.
    pub open spec fn next(self, queue: QueueView, reply: SubmitReply) -> SubmissionView {
        let turn = self.turn(queue, reply);
        SubmissionView {
            stage: turn.stage,
            polls: turn.polls,
            asked: if turn.action is Again {
                self.asked
            } else {
                self.asked.push(turn.action)
            },
            ..self
        }
    }

    /// The submission is one of the queue's, and holds its slot in the stage
    /// that it left it in.
    pub open spec fn agrees(self, queue: QueueView) -> bool {
        let slot = queue.slots[self.ticket.slot as int];
        &&& queue.backing is Some
        &&& self.ticket.ticket < usize::MAX
        &&& self.ticket.slot == crate::queue::slot_of(
            self.ticket.ticket,
            queue.ring().spec_entry_count(),
        )
        &&& match self.stage {
            SubmitStage::Filling => slot == QueueSlot::Writing,
            SubmitStage::Turn => slot == QueueSlot::Ready,
            SubmitStage::Publishing => slot == QueueSlot::Ready && queue.committed
                == self.ticket.ticket,
            SubmitStage::Waiting | SubmitStage::Checking => slot == QueueSlot::Published
                && self.ticket.ticket < queue.committed,
            _ => true,
        }
    }

    /// Whether the submission has a slot.
    pub open spec fn holds_slot(self) -> bool {
        match self.stage {
            SubmitStage::Room | SubmitStage::Slot | SubmitStage::Closed => false,
            _ => true,
        }
    }

    /// Two submissions have tickets of their own, and no slot in common.
    pub open spec fn apart(self, other: SubmissionView) -> bool {
        &&& self.ticket.ticket != other.ticket.ticket
        &&& self.holds_slot() && other.holds_slot() ==> self.ticket.slot != other.ticket.slot
    }

    /// The script of the submission, with a read for each poll.
    pub open spec fn script(self, ring: CommandQueueBacking) -> Seq<Asked> {
        script(self.ticket, self.command, ring, (self.polls + 1) as nat)
    }

    /// How much of the script a submission has asked for.
    pub open spec fn progress(self) -> int {
        match self.stage {
            SubmitStage::Room | SubmitStage::Slot => 0,
            SubmitStage::Filling | SubmitStage::Turn => 1,
            SubmitStage::Publishing => 2,
            SubmitStage::Waiting => self.polls + 3,
            SubmitStage::Checking => self.polls + 4,
            SubmitStage::Closed => self.asked.len() - 1,
        }
    }

    /// What the submission asked for is the script as far as it got. One that
    /// is over asked last for its end, and one that succeeded has gone through
    /// the whole script.
    pub open spec fn follows_script(self, ring: CommandQueueBacking) -> bool {
        let script = self.script(ring);
        if self.stage == SubmitStage::Closed {
            &&& self.asked.len() > 0
            &&& self.asked.last() is Finish
            &&& self.progress() <= script.len()
            &&& self.asked.drop_last() == script.take(self.progress())
            &&& self.asked.last() == Asked::Finish(Ok(())) ==> self.progress() == script.len()
        } else {
            self.asked == script.take(self.progress())
        }
    }
}

/// One submission.
pub struct Submission<'a> {
    ticket: QueueTicket,
    command: &'a [u8],
    stage: SubmitStage,
    polls: usize,
    asked: Ghost<Seq<Asked>>,
}

impl<'a> View for Submission<'a> {
    type V = SubmissionView;

    closed spec fn view(&self) -> SubmissionView {
        SubmissionView {
            ticket: self.ticket,
            command: self.command@,
            stage: self.stage,
            polls: self.polls,
            asked: self.asked@,
        }
    }
}

impl<'a> Submission<'a> {
    /// Takes a ticket for a command.
    pub fn start<const N: usize>(queue: &mut CommandQueue<N>, command: &'a [u8]) -> (r: Result<
        Self,
        Error,
    >)
        requires
            old(queue).wf(),
            old(queue)@.claim < usize::MAX,
        ensures
            final(queue).wf(),
            match r {
                Ok(submission) => {
                    &&& old(queue)@.claim_fault(command@.len() as usize) is None
                    &&& final(queue)@ == old(queue)@.claimed()
                    &&& submission@ == (SubmissionView {
                        ticket: old(queue)@.next_ticket(),
                        command: command@,
                        stage: SubmitStage::Room,
                        polls: 0,
                        asked: Seq::empty(),
                    })
                    &&& submission@.agrees(final(queue)@)
                    &&& submission@.follows_script(final(queue)@.ring())
                },
                Err(error) => {
                    &&& old(queue)@.claim_fault(command@.len() as usize) == Some(error)
                    &&& final(queue)@ == old(queue)@
                },
            },
    {
        match queue.claim_ticket(command.len()) {
            Ok(ticket) => {
                let submission = Submission {
                    ticket,
                    command,
                    stage: SubmitStage::Room,
                    polls: 0,
                    asked: Ghost(Seq::empty()),
                };
                assert(submission@.script(queue@.ring()).take(0) =~= Seq::empty());
                Ok(submission)
            },
            Err(error) => Err(error),
        }
    }

    pub fn stage(&self) -> (r: SubmitStage)
        ensures
            r == self@.stage,
    {
        self.stage
    }

    /// Counts one more poll of a wait: what follows it.
    fn poll(&mut self, holds: bool) -> (r: Poll)
        ensures
            r == crate::poll::poll_after(holds, old(self)@.polls, COMMAND_QUEUE_POLL_LIMIT),
            final(self)@ == (SubmissionView {
                polls: match r {
                    Poll::Again => (old(self)@.polls + 1) as usize,
                    _ => old(self)@.polls,
                },
                stage: match r {
                    Poll::TimedOut => SubmitStage::Closed,
                    _ => old(self)@.stage,
                },
                ..old(self)@
            }),
    {
        let outcome = poll_outcome(holds, self.polls, COMMAND_QUEUE_POLL_LIMIT);
        match outcome {
            Poll::Done => {},
            Poll::Again => self.polls = self.polls + 1,
            Poll::TimedOut => self.stage = SubmitStage::Closed,
        }
        outcome
    }

    /// Makes the next step.
    pub fn advance<const N: usize>(&mut self, queue: &mut CommandQueue<N>, reply: SubmitReply) -> (r:
        SubmitAction)
        requires
            old(queue).wf(),
            old(self)@.agrees(old(queue)@),
        ensures
            final(queue).wf(),
            final(self)@ == old(self)@.next(old(queue)@, reply),
            final(queue)@ == old(self)@.turn(old(queue)@, reply).queue,
            r@ == old(self)@.turn(old(queue)@, reply).action,
            final(self)@.agrees(final(queue)@),
            old(self)@.follows_script(old(queue)@.ring()) ==> final(self)@.follows_script(
                final(queue)@.ring(),
            ),
    {
        let ghost before = self@;
        let ghost queued = queue@;
        proof {
            vstd::arithmetic::div_mod::lemma_mod_bound(
                self.ticket.ticket as int,
                queue@.ring().spec_entry_count() as int,
            );
            lemma_step_keeps_script(before, queued, reply);
            lemma_step_keeps_agreement(before, queued, reply);
        }
        let action = self.step(queue, reply);
        self.asked = Ghost(
            if action@ is Again {
                self.asked@
            } else {
                self.asked@.push(action@)
            },
        );
        action
    }

    /// The step without the record of what was asked for.
    fn step<const N: usize>(&mut self, queue: &mut CommandQueue<N>, reply: SubmitReply) -> (r:
        SubmitAction)
        requires
            old(queue).wf(),
            old(self)@.agrees(old(queue)@),
            old(self)@.ticket.slot < old(queue)@.ring().spec_entry_count(),
        ensures
            final(queue).wf(),
            ({
                let turn = old(self)@.turn(old(queue)@, reply);
                &&& final(self)@ == (SubmissionView {
                    stage: turn.stage,
                    polls: turn.polls,
                    ..old(self)@
                })
                &&& final(queue)@ == turn.queue
                &&& r@ == turn.action
            }),
    {
        let ticket = self.ticket;
        let lost = SubmitAction::Finish(Err(Error::ControllerUnavailable));
        match self.stage {
            SubmitStage::Room => match self.poll(queue.has_capacity(ticket)) {
                Poll::Done => {
                    self.stage = SubmitStage::Slot;
                    self.polls = 0;
                    SubmitAction::Again
                },
                Poll::Again => SubmitAction::Again,
                Poll::TimedOut => lost,
            },
            SubmitStage::Slot => match self.poll(queue.slot_is_empty(ticket)) {
                Poll::Done => match queue.start_write(ticket, self.command) {
                    Ok(write) => {
                        self.stage = SubmitStage::Filling;
                        SubmitAction::WriteSlot(write)
                    },
                    Err(error) => {
                        self.stage = SubmitStage::Closed;
                        SubmitAction::Finish(Err(error))
                    },
                },
                Poll::Again => SubmitAction::Again,
                Poll::TimedOut => lost,
            },
            SubmitStage::Filling => {
                queue.finish_write(ticket);
                self.stage = SubmitStage::Turn;
                self.polls = 0;
                SubmitAction::Again
            },
            SubmitStage::Turn => match self.poll(queue.may_publish(ticket)) {
                Poll::Done => {
                    self.stage = SubmitStage::Publishing;
                    SubmitAction::WriteTail(queue.tail(ticket))
                },
                Poll::Again => SubmitAction::Again,
                Poll::TimedOut => lost,
            },
            SubmitStage::Publishing => {
                queue.published(ticket);
                self.stage = SubmitStage::Waiting;
                self.polls = 0;
                SubmitAction::ReadHead
            },
            SubmitStage::Waiting => match reply {
                SubmitReply::Head(Ok(head)) => match self.poll(queue.consumed(ticket, head)) {
                    Poll::Done => {
                        self.stage = SubmitStage::Checking;
                        SubmitAction::CheckError
                    },
                    Poll::Again => SubmitAction::ReadHead,
                    Poll::TimedOut => lost,
                },
                SubmitReply::Head(Err(error)) => {
                    self.stage = SubmitStage::Closed;
                    SubmitAction::Finish(Err(error))
                },
                _ => SubmitAction::Again,
            },
            SubmitStage::Checking => match reply {
                SubmitReply::Checked(Ok(_)) => {
                    queue.retire(ticket);
                    self.stage = SubmitStage::Closed;
                    SubmitAction::Finish(Ok(()))
                },
                SubmitReply::Checked(Err(error)) => {
                    self.stage = SubmitStage::Closed;
                    SubmitAction::Finish(Err(error))
                },
                _ => SubmitAction::Again,
            },
            SubmitStage::Closed => SubmitAction::Again,
        }
    }
}

proof fn lemma_step_keeps_script(
    submission: SubmissionView,
    queue: QueueView,
    reply: SubmitReply,
)
    requires
        queue.backing is Some,
    ensures
        submission.follows_script(queue.ring()) ==> submission.next(
            queue,
            reply,
        ).follows_script(submission.turn(queue, reply).queue.ring()),
{
    let ring = queue.ring();
    let next = submission.next(queue, reply);
    if submission.follows_script(ring) {
        let script = next.script(ring);
        let progress = next.progress();
        if next.stage == SubmitStage::Closed && submission.stage != SubmitStage::Closed {
            assert(next.asked.drop_last() =~= submission.asked);
            assert(next.asked.drop_last() =~= script.take(progress));
        } else if submission.stage != SubmitStage::Closed {
            assert(next.asked =~= script.take(progress));
        }
    }
}

proof fn lemma_step_keeps_agreement(
    submission: SubmissionView,
    queue: QueueView,
    reply: SubmitReply,
)
    requires
        submission.agrees(queue),
        submission.ticket.slot < queue.slots.len(),
    ensures
        submission.next(queue, reply).agrees(submission.turn(queue, reply).queue),
{
}

/// A submission that succeeded has asked for exactly this, in this order: its
/// command was written to its slot once, its tail was written once, the head
/// was read once for each poll and never before, and hardware was asked for an
/// error once, behind all of it.
pub proof fn law_successful_submission_followed_its_script(
    submission: SubmissionView,
    ring: CommandQueueBacking,
)
    requires
        submission.stage == SubmitStage::Closed,
        submission.follows_script(ring),
        submission.asked.last() == Asked::Finish(Ok(())),
    ensures
        submission.asked == submission.script(ring).push(Asked::Finish(Ok(()))),
{
    let script = submission.script(ring);
    assert(script.take(script.len() as int) =~= script);
    assert(submission.asked =~= submission.asked.drop_last().push(submission.asked.last()));
}

/// A new submission leaves the earlier ones as they were, and has no slot in
/// common with any.
pub proof fn law_new_submission_leaves_others_alone(
    new: SubmissionView,
    other: SubmissionView,
    queue: QueueView,
)
    requires
        queue.claim < usize::MAX,
        new.ticket == queue.next_ticket(),
        new.stage == SubmitStage::Room,
        other.agrees(queue),
        other.ticket.ticket < queue.claim,
    ensures
        new.apart(other),
        other.agrees(queue.claimed()),
        other.ticket.ticket < queue.claimed().claim,
        new.ticket.ticket < queue.claimed().claim,
{
}

/// A step of one submission leaves every other one as it was: the other still
/// agrees with the queue, and the two still have no slot in common.
pub proof fn law_steps_leave_other_submissions_alone(
    submission: SubmissionView,
    other: SubmissionView,
    queue: QueueView,
    reply: SubmitReply,
)
    requires
        submission.agrees(queue),
        other.agrees(queue),
        submission.apart(other),
        submission.ticket.slot < queue.slots.len(),
        other.ticket.slot < queue.slots.len(),
    ensures
        other.agrees(submission.turn(queue, reply).queue),
        submission.next(queue, reply).apart(other),
{
}

} // verus!
