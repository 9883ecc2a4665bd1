use std::cell::{Cell, RefCell};

use kore_iommu::device::{QueueCallbacks, QueueReport};
use kore_iommu::queue::{
    CommandQueue, CommandQueueBacking, SlotWrite, COMMAND_QUEUE_POLL_LIMIT,
};
use kore_iommu::submit::{Submission, SubmitAction, SubmitReply, SubmitStage};
use kore_iommu::{Error, PhysAddr, PhysAddrRange, VirtAddr, VirtAddrRange};

const ENTRIES: usize = 8;
const ENTRY_BYTES: usize = 16;
const BASE: usize = 0x7000_0000;

fn ranges(len: usize) -> (PhysAddrRange, VirtAddrRange) {
    (
        PhysAddrRange::from_start_size(PhysAddr::from_usize(0x20_0000), len),
        VirtAddrRange::from_start_size(VirtAddr::from_usize(BASE), len),
    )
}

fn test_queue() -> (CommandQueue<ENTRIES>, RefCell<Vec<u8>>, Cell<usize>) {
    let (phys, virt) = ranges(ENTRIES * ENTRY_BYTES);
    let backing =
        CommandQueueBacking::new(phys, virt, ENTRIES, ENTRY_BYTES).expect("valid queue backing");
    let mut queue = CommandQueue::new();
    queue.init(backing).expect("queue init");
    (
        queue,
        RefCell::new(vec![0u8; ENTRIES * ENTRY_BYTES]),
        Cell::new(0),
    )
}

fn store(buffer: &RefCell<Vec<u8>>, write: SlotWrite) {
    let offset = write.vaddr.as_usize() - BASE;
    buffer.borrow_mut()[offset..offset + write.image.len()].copy_from_slice(&write.image);
}

fn read_slot(buffer: &[u8], slot: usize) -> (u64, u64) {
    let offset = slot * ENTRY_BYTES;
    let low = u64::from_ne_bytes(buffer[offset..offset + 8].try_into().unwrap());
    let high = u64::from_ne_bytes(buffer[offset + 8..offset + 16].try_into().unwrap());
    (low, high)
}

#[test]
fn command_queue_backing_rejects_non_power_of_two_entries() {
    let (phys, virt) = ranges(ENTRIES * ENTRY_BYTES);
    let result = CommandQueueBacking::new(phys, virt, 7, ENTRY_BYTES);
    assert_eq!(result, Err(Error::InvalidRange));
}

#[test]
fn command_queue_submit_writes_entry_and_advances_tail() {
    let (mut queue, buffer, head) = test_queue();
    let tail = Cell::new(0usize);
    let low = 0xaaaa_bbbb_cccc_ddddu64;
    let high = 0x1111_2222_3333_4444u64;
    let mut bytes = [0u8; 16];
    bytes[..8].copy_from_slice(&low.to_ne_bytes());
    bytes[8..].copy_from_slice(&high.to_ne_bytes());

    queue
        .submit(
            bytes,
            |write| store(&buffer, write),
            || Ok(head.get()),
            |new_tail| {
                tail.set(new_tail);
                head.set(new_tail);
            },
            || Ok(()),
        )
        .unwrap();

    assert_eq!(tail.get(), ENTRY_BYTES);
    assert_eq!(read_slot(&buffer.borrow(), 0), (low, high));
}

#[test]
fn command_queue_sequential_submits_wrap_slots() {
    let (mut queue, buffer, head) = test_queue();

    for i in 0..(ENTRIES * 2) {
        let marker = i as u64;
        let mut bytes = [0u8; 16];
        bytes[..8].copy_from_slice(&marker.to_ne_bytes());
        bytes[8..].copy_from_slice(&(!marker).to_ne_bytes());
        queue
            .submit(
                bytes,
                |write| store(&buffer, write),
                || Ok(head.get()),
                |new_tail| head.set(new_tail),
                || Ok(()),
            )
            .unwrap();

        assert_eq!(read_slot(&buffer.borrow(), i % ENTRIES), (marker, !marker));
    }
}

#[test]
fn narrow_commands_are_padded_with_zeros() {
    let (mut queue, buffer, head) = test_queue();
    buffer.borrow_mut().fill(0xff);
    queue
        .submit(
            [0xabu8; 8],
            |write| store(&buffer, write),
            || Ok(head.get()),
            |new_tail| head.set(new_tail),
            || Ok(()),
        )
        .unwrap();
    assert_eq!(read_slot(&buffer.borrow(), 0), (0xabab_abab_abab_abab, 0));
    assert_eq!(read_slot(&buffer.borrow(), 1), (u64::MAX, u64::MAX));
}

#[test]
fn submit_rejects_widths_and_inactive_queues() {
    let mut idle = CommandQueue::<4>::new();
    assert!(!idle.is_active());
    assert_eq!(
        idle.submit([0u8; 16], |_| {}, || Ok(0), |_| {}, || Ok(())),
        Err(Error::ControllerUnavailable)
    );
    let (mut queue, _, _) = test_queue();
    assert_eq!(
        queue.submit([0u8; 32], |_| {}, || Ok(0), |_| {}, || Ok(())),
        Err(Error::InvalidGranule)
    );
    assert_eq!(
        queue.submit([0u8; 12], |_| {}, || Ok(0), |_| {}, || Ok(())),
        Err(Error::InvalidGranule)
    );
    assert_eq!(
        queue.submit([0u8; 0], |_| {}, || Ok(0), |_| {}, || Ok(())),
        Err(Error::InvalidGranule)
    );
}

#[test]
fn stuck_hardware_times_out_and_errors_come_through() {
    let (mut queue, _, _) = test_queue();
    let polls = Cell::new(0usize);
    assert_eq!(
        queue.submit(
            [0u8; 16],
            |_| {},
            || {
                polls.set(polls.get() + 1);
                Ok(0)
            },
            |_| {},
            || Ok(())
        ),
        Err(Error::ControllerUnavailable)
    );
    assert_eq!(polls.get(), 1_000_000);

    let (mut queue, _, _) = test_queue();
    assert_eq!(
        queue.submit(
            [0u8; 16],
            |_| {},
            || Err(Error::InvalidRange),
            |_| {},
            || Ok(())
        ),
        Err(Error::InvalidRange)
    );
    let (mut queue, _, _) = test_queue();
    assert_eq!(
        queue.submit(
            [0u8; 16],
            |_| {},
            || Ok(ENTRY_BYTES),
            |_| {},
            || Err(Error::Unsupported)
        ),
        Err(Error::Unsupported)
    );
}

#[test]
fn full_ring_refuses_tickets_past_its_depth() {
    let (mut queue, _, _) = test_queue();
    let mut tickets = Vec::new();
    for _ in 0..ENTRIES {
        let ticket = queue.claim_ticket(16).unwrap();
        assert!(queue.has_capacity(ticket));
        tickets.push(ticket);
    }
    let late = queue.claim_ticket(16).unwrap();
    assert_eq!(late.slot, tickets[0].slot);
    assert!(!queue.has_capacity(late));

    let first = tickets[0];
    assert!(queue.slot_is_empty(first));
    queue.start_write(first, &[1u8; 16]).unwrap();
    assert!(!queue.slot_is_empty(first));
    queue.finish_write(first);
    assert!(queue.may_publish(first));
    assert!(!queue.may_publish(tickets[1]));
    assert_eq!(queue.tail(first), ENTRY_BYTES);
    assert_eq!(queue.tail(tickets[ENTRIES - 1]), 0);
    queue.published(first);
    assert!(queue.may_publish(tickets[1]));
    assert!(!queue.consumed(first, 0));
    assert!(queue.consumed(first, ENTRY_BYTES));
    queue.retire(first);
    assert!(queue.has_capacity(late));
    assert!(queue.slot_is_empty(late));
}

#[test]
fn backing_reports_each_fault() {
    let (phys, virt) = ranges(0x1000);
    assert_eq!(
        CommandQueueBacking::new(phys, virt, 0, 16),
        Err(Error::InvalidRange)
    );
    assert_eq!(
        CommandQueueBacking::new(phys, virt, 8, 4),
        Err(Error::InvalidGranule)
    );
    assert_eq!(
        CommandQueueBacking::new(phys, virt, 8, 24),
        Err(Error::InvalidGranule)
    );
    assert_eq!(
        CommandQueueBacking::new(phys, virt, 1 << 62, 16),
        Err(Error::AddressOverflow)
    );
    assert_eq!(
        CommandQueueBacking::new(phys, virt, 512, 16),
        Err(Error::InvalidRange)
    );
    let off = VirtAddrRange::from_start_size(VirtAddr::from_usize(BASE + 8), 0x1000);
    assert_eq!(
        CommandQueueBacking::new(phys, off, 8, 16),
        Err(Error::InvalidAddress)
    );
    let backing = CommandQueueBacking::new(phys, virt, 256, 16).unwrap();
    assert_eq!(backing.byte_len(), 0x1000);
    assert_eq!(
        backing.entry_vaddr(3),
        Ok(VirtAddr::from_usize(BASE + 48))
    );
    let mut small = CommandQueue::<8>::new();
    assert_eq!(small.init(backing), Err(Error::InvalidRange));
}

#[test]
fn new_queue_has_tickets_left() {
    let (queue, _, _) = test_queue();
    assert!(queue.can_claim());
}

#[test]
fn submission_asks_for_its_actions_in_order() {
    let (mut queue, buffer, _) = test_queue();
    let command = [7u8; 16];
    let mut submission = Submission::start(&mut queue, &command).unwrap();
    assert_eq!(submission.stage(), SubmitStage::Room);
    assert_eq!(submission.advance(&mut queue, SubmitReply::Done), SubmitAction::Again);
    let SubmitAction::WriteSlot(write) = submission.advance(&mut queue, SubmitReply::Done) else {
        panic!("expected a slot write");
    };
    store(&buffer, write);
    assert_eq!(&buffer.borrow()[..16], &command);
    assert_eq!(submission.advance(&mut queue, SubmitReply::Done), SubmitAction::Again);
    assert_eq!(
        submission.advance(&mut queue, SubmitReply::Done),
        SubmitAction::WriteTail(ENTRY_BYTES)
    );
    assert_eq!(submission.advance(&mut queue, SubmitReply::Done), SubmitAction::ReadHead);
    assert_eq!(
        submission.advance(&mut queue, SubmitReply::Head(Ok(0))),
        SubmitAction::ReadHead
    );
    assert_eq!(submission.advance(&mut queue, SubmitReply::Done), SubmitAction::Again);
    assert_eq!(
        submission.advance(&mut queue, SubmitReply::Head(Ok(ENTRY_BYTES))),
        SubmitAction::CheckError
    );
    assert_eq!(
        submission.advance(&mut queue, SubmitReply::Checked(Ok(()))),
        SubmitAction::Finish(Ok(()))
    );
    assert_eq!(submission.stage(), SubmitStage::Closed);
}

#[test]
fn interleaved_submissions_publish_in_ticket_order() {
    let (mut queue, _, _) = test_queue();
    let command = [1u8; 16];
    let mut first = Submission::start(&mut queue, &command).unwrap();
    let mut second = Submission::start(&mut queue, &command).unwrap();
    for _ in 0..3 {
        second.advance(&mut queue, SubmitReply::Done);
    }
    assert_eq!(second.stage(), SubmitStage::Turn);
    assert_eq!(second.advance(&mut queue, SubmitReply::Done), SubmitAction::Again);
    for _ in 0..3 {
        first.advance(&mut queue, SubmitReply::Done);
    }
    assert_eq!(
        first.advance(&mut queue, SubmitReply::Done),
        SubmitAction::WriteTail(ENTRY_BYTES)
    );
    assert_eq!(second.advance(&mut queue, SubmitReply::Done), SubmitAction::Again);
    assert_eq!(first.advance(&mut queue, SubmitReply::Done), SubmitAction::ReadHead);
    assert_eq!(
        second.advance(&mut queue, SubmitReply::Done),
        SubmitAction::WriteTail(2 * ENTRY_BYTES)
    );
}

#[test]
fn head_is_polled_up_to_the_limit() {
    let (mut queue, buffer, _) = test_queue();
    let reads = Cell::new(0usize);
    let tails = Cell::new(0usize);
    let result = queue.submit(
        [1u8; 16],
        |write| store(&buffer, write),
        || {
            reads.set(reads.get() + 1);
            Ok(0)
        },
        |_| tails.set(tails.get() + 1),
        || panic!("hardware has not left the slot"),
    );
    assert_eq!(result, Err(Error::ControllerUnavailable));
    assert_eq!(reads.get(), COMMAND_QUEUE_POLL_LIMIT);
    assert_eq!(tails.get(), 1);
}

/// What a device was asked to do, in order.
#[derive(Clone, Copy, Debug, PartialEq, Eq)]
enum Event {
    Slot(usize),
    Tail(usize),
    Head,
    Check,
}

#[test]
fn device_sees_slot_tail_heads_and_check_in_order() {
    let (mut queue, buffer, _) = test_queue();
    let events = RefCell::new(Vec::new());
    let reads = Cell::new(0usize);
    let mut device = QueueCallbacks::new(
        |write: SlotWrite| {
            events.borrow_mut().push(Event::Slot(write.vaddr.as_usize() - BASE));
            store(&buffer, write);
        },
        || {
            events.borrow_mut().push(Event::Head);
            reads.set(reads.get() + 1);
            Ok(if reads.get() < 3 { 0 } else { ENTRY_BYTES })
        },
        |tail| {
            events.borrow_mut().push(Event::Tail(tail));
            Ok(())
        },
        || {
            events.borrow_mut().push(Event::Check);
            Ok(())
        },
    );
    assert_eq!(
        queue.submit_to_device(&[0xabu8; 16], &mut device),
        QueueReport {
            submitted: Ok(()),
            tail: Ok(()),
        }
    );
    assert_eq!(
        *events.borrow(),
        vec![
            Event::Slot(0),
            Event::Tail(ENTRY_BYTES),
            Event::Head,
            Event::Head,
            Event::Head,
            Event::Check,
        ]
    );
    assert_eq!(read_slot(&buffer.borrow(), 0).0, 0xabab_abab_abab_abab);

    events.borrow_mut().clear();
    assert_eq!(
        queue.submit_to_device(&[0u8; 12], &mut device).submitted,
        Err(Error::InvalidGranule)
    );
    assert!(events.borrow().is_empty());
}

#[test]
fn device_is_not_asked_for_an_error_behind_a_failed_read() {
    let (mut queue, buffer, _) = test_queue();
    let checks = Cell::new(0usize);
    let tails = Cell::new(0usize);
    let mut device = QueueCallbacks::new(
        |write| store(&buffer, write),
        || Err(Error::InvalidRange),
        |_| {
            tails.set(tails.get() + 1);
            Ok(())
        },
        || {
            checks.set(checks.get() + 1);
            Ok(())
        },
    );
    assert_eq!(
        queue.submit_to_device(&[1u8; 16], &mut device).submitted,
        Err(Error::InvalidRange)
    );
    assert_eq!((tails.get(), checks.get()), (1, 0));
}

#[test]
fn refused_tail_write_is_reported_behind_the_submission() {
    let (mut queue, buffer, _) = test_queue();
    let mut device = QueueCallbacks::new(
        |write| store(&buffer, write),
        || Ok(ENTRY_BYTES),
        |_| Err(Error::InvalidRange),
        || Ok(()),
    );
    let report = queue.submit_to_device(&[1u8; 16], &mut device);
    assert_eq!(report.submitted, Ok(()));
    assert_eq!(report.tail, Err(Error::InvalidRange));
    assert_eq!(report.outcome(), Err(Error::InvalidRange));
    let report = queue.submit_to_device(&[1u8; 16], &mut device);
    assert_eq!(report.submitted, Err(Error::ControllerUnavailable));
    assert_eq!(report.outcome(), Err(Error::ControllerUnavailable));
}

#[test]
fn default_queue_is_a_new_one() {
    let (phys, virt) = ranges(ENTRIES * ENTRY_BYTES);
    let backing = CommandQueueBacking::new(phys, virt, ENTRIES, ENTRY_BYTES).unwrap();
    let mut queue = CommandQueue::<ENTRIES>::default();
    assert!(!queue.is_active());
    queue.init(backing).unwrap();
    assert!(queue.can_claim_all(usize::MAX));
    let command = [0u8; 16];
    Submission::start(&mut queue, &command).unwrap();
    assert!(!queue.can_claim_all(usize::MAX));
    assert!(queue.can_claim_all(usize::MAX - 1));
}
