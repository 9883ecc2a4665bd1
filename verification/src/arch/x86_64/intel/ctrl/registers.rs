//! The register frame of a remapping unit, and the register accesses that each
//! operation takes.

use vstd::prelude::*;

use super::super::error::VtdError;
use super::invalidation::queued_invalidation_table_address;
use super::remap::VtdInterruptRemapTableBacking;
use super::tables::VtdRootTableBacking;
use crate::addr::{
    address_checked_add, MmioAddrRange, MmioRange, PhysAddr, PhysAddrRange, VirtAddr,
};
use crate::bits;
use crate::ctrl::{InterruptRoute, MsiMessage};
use crate::error::Error;
use crate::mapping::Mapping;
use crate::memory::{PageSize, PageTableEntry};
use crate::poll::Poll;
use crate::queue::CommandQueueBacking;

verus! {

pub const REG_VERSION: usize = 0x00;

pub const REG_CAP: usize = 0x08;

pub const REG_ECAP: usize = 0x10;

pub const REG_GCMD: usize = 0x18;

pub const REG_GSTS: usize = 0x1c;

pub const REG_RTADDR: usize = 0x20;

pub const REG_CCMD: usize = 0x28;

pub const REG_FSTS: usize = 0x34;

pub const REG_FECTL: usize = 0x38;

pub const REG_FEDATA: usize = 0x3c;

pub const REG_FEADDR: usize = 0x40;

pub const REG_FEUADDR: usize = 0x44;

pub const REG_IQH: usize = 0x80;

pub const REG_IQT: usize = 0x88;

pub const REG_IQA: usize = 0x90;

pub const REG_IRTA: usize = 0xb8;

pub const GCMD_TE: u32 = 0x8000_0000;

pub const GCMD_SRTP: u32 = 0x4000_0000;

pub const GCMD_QIE: u32 = 0x0400_0000;

pub const GCMD_IRE: u32 = 0x0200_0000;

pub const GCMD_SIRTP: u32 = 0x0100_0000;

pub const GSTS_TES: u32 = 0x8000_0000;

pub const GSTS_RTPS: u32 = 0x4000_0000;

pub const GSTS_QIES: u32 = 0x0400_0000;

pub const GSTS_IRES: u32 = 0x0200_0000;

pub const GSTS_IRTPS: u32 = 0x0100_0000;

pub const FECTL_INTERRUPT_MASK: u32 = 0x8000_0000;

/// How often the status register is looked at before a transition counts as
/// failed.
pub const REGISTER_TRANSITION_POLL_LIMIT: usize = 1_000_000;

const PAGE_ADDR_MASK: u64 = 0xffff_ffff_ffff_f000;

const IRTA_EIME: u64 = 0x800;

/// One access to the register frame. The accesses of an operation up to its
/// wait are made without interruption.
#[derive(Clone, Copy, Debug, PartialEq, Eq, Structural)]
pub enum RegisterStep {
    Write32 { offset: usize, value: u32 },
    Write64 { offset: usize, value: u64 },
    /// Writes the command register with the global status, the bits `set`
    /// added and the bits `clear` taken away.
    Command { set: u32, clear: u32 },
    /// Waits until the global status agrees with `expected` in the bits `mask`.
    Await { mask: u32, expected: u32 },
}

/// The command register value for a status.
pub open spec fn command_value(status: u32, set: u32, clear: u32) -> u32 {
    (status | set) & !clear
}

/// The command register value that turns the bits `set` on and the bits `clear`
/// off in the state that `status` reports.
pub fn global_command(status: u32, set: u32, clear: u32) -> (r: u32)
    ensures
        r == command_value(status, set, clear),
{
    (status | set) & !clear
}

/// A command changes only the bits that it names: each of `set` is on, each of
/// `clear` is off, and every other one is as the status has it.
pub proof fn law_command_changes_only_its_bits(status: u32, set: u32, clear: u32, index: u32)
    requires
        index < 32,
    ensures
        ((command_value(status, set, clear) >> index) & 1 == 1) == ((clear >> index) & 1 == 0 && ((
        set >> index) & 1 == 1 || (status >> index) & 1 == 1)),
{
    assert((((((status | set) & !clear) >> index) & 1) == 1) == (((clear >> index) & 1 == 0) && (((
    set >> index) & 1 == 1) || ((status >> index) & 1 == 1)))) by (bit_vector)
        requires
            index < 32,
    ;
}

/// Whether a status agrees with `expected` in the bits `mask`.
pub open spec fn reached(status: u32, mask: u32, expected: u32) -> bool {
    status & mask == expected & mask
}

/// What follows a status that was read after `polls` other ones: the wait ends
/// when the status agrees with `expected` in the bits `mask`, and is given up
/// with the last poll.
pub fn poll_outcome(polls: usize, status: u32, mask: u32, expected: u32) -> (r: Poll)
    ensures
        r == crate::poll::poll_after(
            reached(status, mask, expected),
            polls,
            REGISTER_TRANSITION_POLL_LIMIT,
        ),
{
    crate::poll::poll_outcome(
        status & mask == expected & mask,
        polls,
        REGISTER_TRANSITION_POLL_LIMIT,
    )
}

/// The states that the unit was found in while it had not reached the expected
/// one.
pub open spec fn waited<RS>(read_status: RS, mask: u32, expected: u32, states: Seq<u32>) -> bool where
    RS: Fn() -> Result<u32, Error>,
 {
    forall|i: int|
        0 <= i < states.len() ==> !reached(#[trigger] states[i], mask, expected) && call_ensures(
            read_status,
            (),
            Ok(states[i]),
        )
}

/// The accesses that make `root` the root table.
pub open spec fn root_table_steps(root: PhysAddr) -> Seq<RegisterStep> {
    seq![
        RegisterStep::Write64 { offset: REG_RTADDR, value: root.0 as u64 },
        RegisterStep::Command { set: GCMD_SRTP, clear: 0 },
        RegisterStep::Await { mask: GSTS_RTPS, expected: GSTS_RTPS },
    ]
}

/// The accesses that hand a ring to the unit, whose tail starts at zero.
pub open spec fn queue_steps(backing: CommandQueueBacking) -> Seq<RegisterStep> {
    seq![
        RegisterStep::Write64 {
            offset: REG_IQA,
            value: super::invalidation::queue_address(backing),
        },
        RegisterStep::Write64 { offset: REG_IQT, value: 0 },
    ]
}

/// The accesses that turn one feature on or off: its bit in the command
/// register, and its bit in the status register.
pub open spec fn switch_steps(command: u32, status: u32, enabled: bool) -> Seq<RegisterStep> {
    if enabled {
        seq![
            RegisterStep::Command { set: command, clear: 0 },
            RegisterStep::Await { mask: status, expected: status },
        ]
    } else {
        seq![
            RegisterStep::Command { set: 0, clear: command },
            RegisterStep::Await { mask: status, expected: 0 },
        ]
    }
}

/// The remapping table address register value: the table address, its size
/// in bits `[3:0]` and the extended interrupt mode in bit 11.
pub open spec fn remap_table_value(
    table: VtdInterruptRemapTableBacking,
    extended_interrupt_mode: bool,
) -> u64 {
    ((table.spec_backing().spec_phys().start.0 as u64) & 0xffff_ffff_ffff_f000) | (
    table.spec_irta_size() as u64) | (if extended_interrupt_mode {
        0x800u64
    } else {
        0
    })
}

/// The accesses that set the route of fault events: a disabled route is
/// masked, and a message is written before the mask is lifted.
pub open spec fn fault_event_steps(route: InterruptRoute) -> Seq<RegisterStep> {
    match route {
        InterruptRoute::Disabled => seq![
            RegisterStep::Write32 { offset: REG_FECTL, value: FECTL_INTERRUPT_MASK },
        ],
        InterruptRoute::Msi(message) => seq![
            RegisterStep::Write32 { offset: REG_FEDATA, value: message.data },
            RegisterStep::Write32 {
                offset: REG_FEADDR,
                value: low_half(message.address),
            },
            RegisterStep::Write32 {
                offset: REG_FEUADDR,
                value: high_half(message.address),
            },
            RegisterStep::Write32 { offset: REG_FECTL, value: 0 },
        ],
    }
}

fn switch(command: u32, status: u32, enabled: bool) -> (r: Vec<RegisterStep>)
    ensures
        r@ == switch_steps(command, status, enabled),
{
    let steps = if enabled {
        vec![
            RegisterStep::Command { set: command, clear: 0 },
            RegisterStep::Await { mask: status, expected: status },
        ]
    } else {
        vec![
            RegisterStep::Command { set: 0, clear: command },
            RegisterStep::Await { mask: status, expected: 0 },
        ]
    };
    assert(steps@ =~= switch_steps(command, status, enabled));
    steps
}

/// The route that the control, data and address registers hold.
pub open spec fn event_route(control: u32, data: u32, low: u32, high: u32) -> InterruptRoute {
    if control & FECTL_INTERRUPT_MASK != 0 {
        InterruptRoute::Disabled
    } else {
        InterruptRoute::Msi(MsiMessage { address: joined_halves(low, high), data })
    }
}

/// Mapped VT-d register window.
///
/// The caller owns how the MMIO page is mapped. Each operation says which
/// registers are to be accessed, in which order, and the owner of the mapping
/// performs the accesses.
#[derive(Clone, Copy, Debug, PartialEq, Eq)]
pub struct VtdRegisterWindow<Entry> where Entry: PageTableEntry {
    pub mapping: Mapping<Entry, VirtAddr>,
}

impl<Entry> VtdRegisterWindow<Entry> where Entry: PageTableEntry {
    pub fn new(mapping: Mapping<Entry, VirtAddr>) -> (r: Self)
        ensures
            r.mapping == mapping,
    {
        VtdRegisterWindow { mapping }
    }

    pub fn mapping(&self) -> (r: &Mapping<Entry, VirtAddr>)
        ensures
            *r == self.mapping,
    {
        &self.mapping
    }

    pub fn mapping_mut(&mut self) -> (r: &mut Mapping<Entry, VirtAddr>)
        ensures
            *r == old(self).mapping,
            final(self).mapping == *final(r),
    {
        &mut self.mapping
    }

    /// The frame as device memory, which has to end inside the address space.
    pub fn mmio_range(&self) -> (r: MmioAddrRange)
        requires
            self.mapping.paddr.0 + self.mapping.range.spec_size() <= usize::MAX,
        ensures
            r.first() == self.mapping.paddr.0,
            r.last() == self.mapping.paddr.0 + self.mapping.range.spec_size(),
    {
        let size: usize = self.mapping.range.size();
        <MmioAddrRange as MmioRange<usize>>::from_phys_range(
            PhysAddrRange::from_start_size(self.mapping.paddr, size),
        )
    }

    /// Where the register of `width` bytes at `offset` is mapped.
    pub open spec fn spec_register_vaddr(self, offset: usize, width: usize) -> Result<
        VirtAddr,
        Error,
    > {
        if offset + width > usize::MAX {
            Err(Error::AddressOverflow)
        } else if offset + width > self.mapping.range.spec_size() {
            Err(Error::InvalidRange)
        } else if self.mapping.range.start.0 + offset > usize::MAX {
            Err(Error::AddressOverflow)
        } else {
            Ok(VirtAddr((self.mapping.range.start.0 + offset) as usize))
        }
    }

    pub fn register_vaddr(&self, offset: usize, width: usize) -> (r: Result<VirtAddr, Error>)
        ensures
            r == self.spec_register_vaddr(offset, width),
    {
        let end: usize = match offset.checked_add(width) {
            Some(end) => end,
            None => return Err(Error::AddressOverflow),
        };
        if end > self.mapping.range.size() {
            return Err(Error::InvalidRange);
        }
        match address_checked_add(self.mapping.range.start.as_usize(), offset) {
            Some(addr) => Ok(VirtAddr::from_usize(addr)),
            None => Err(Error::AddressOverflow),
        }
    }

    /// Reads the status until it agrees with `expected` in the bits `mask`.
    pub fn wait_global_status<RS>(&self, mask: u32, expected: u32, read_status: RS) -> (r: Result<
        (),
        Error,
    >) where RS: Fn() -> Result<u32, Error>
        requires
            call_requires(read_status, ()),
        ensures
            match r {
                Ok(_) => exists|status: u32|
                    reached(status, mask, expected) && #[trigger] call_ensures(
                        read_status,
                        (),
                        Ok(status),
                    ),
                Err(error) => {
                    ||| call_ensures(read_status, (), Err(error))
                    ||| error == Error::ControllerUnavailable && exists|states: Seq<u32>|
                        states.len() == REGISTER_TRANSITION_POLL_LIMIT && #[trigger] waited(
                            read_status,
                            mask,
                            expected,
                            states,
                        )
                },
            },
    {
        let mut polls: usize = 0;
        let ghost mut states: Seq<u32> = Seq::empty();
        loop
            invariant
                polls < REGISTER_TRANSITION_POLL_LIMIT,
                states.len() == polls,
                waited(read_status, mask, expected, states),
                call_requires(read_status, ()),
            decreases REGISTER_TRANSITION_POLL_LIMIT - polls,
        {
            match read_status() {
                Ok(status) => {
                    proof {
                        if !reached(status, mask, expected) {
                            states = states.push(status);
                            assert(waited(read_status, mask, expected, states));
                        }
                    }
                    match poll_outcome(polls, status, mask, expected) {
                        Poll::Done => return Ok(()),
                        Poll::Again => polls = polls + 1,
                        Poll::TimedOut => {
                            return Err(Error::from(VtdError::RegisterTransitionTimeout));
                        },
                    }
                },
                Err(error) => return Err(error),
            }
        }
    }

    pub fn set_root_entry_table(&self, root: PhysAddr) -> (r: Result<Vec<RegisterStep>, Error>)
        ensures
            match r {
                Ok(steps) => root.0 % 0x1000 == 0 && steps@ == root_table_steps(root),
                Err(error) => root.0 % 0x1000 != 0 && error == Error::InvalidGranule,
            },
    {
        proof {
            bits::lemma_page_is_pow2();
        }
        if !root.is_aligned(PageSize::Size4K.bytes()) {
            return Err(Error::from(VtdError::UnsupportedGranule));
        }
        let steps = vec![
            RegisterStep::Write64 { offset: REG_RTADDR, value: root.as_usize() as u64 },
            RegisterStep::Command { set: GCMD_SRTP, clear: 0 },
            RegisterStep::Await { mask: GSTS_RTPS, expected: GSTS_RTPS },
        ];
        assert(steps@ =~= root_table_steps(root));
        Ok(steps)
    }

    pub fn set_root_table(&self, table: VtdRootTableBacking) -> (r: Result<Vec<RegisterStep>, Error>)
        ensures
            ({
                let root = table.spec_backing().spec_phys().start;
                match r {
                    Ok(steps) => root.0 % 0x1000 == 0 && steps@ == root_table_steps(root),
                    Err(error) => root.0 % 0x1000 != 0 && error == Error::InvalidGranule,
                }
            }),
    {
        self.set_root_entry_table(table.phys().start)
    }

    pub fn set_queued_invalidation_table(&self, backing: CommandQueueBacking) -> (r: Result<
        Vec<RegisterStep>,
        Error,
    >)
        ensures
            match r {
                Ok(steps) => super::invalidation::queue_fault(backing) is None && steps@
                    == queue_steps(backing),
                Err(error) => super::invalidation::queue_fault(backing) == Some(error),
            },
    {
        match queued_invalidation_table_address(backing) {
            Ok(address) => {
                let steps = vec![
                    RegisterStep::Write64 { offset: REG_IQA, value: address },
                    RegisterStep::Write64 { offset: REG_IQT, value: 0 },
                ];
                assert(steps@ =~= queue_steps(backing));
                Ok(steps)
            },
            Err(error) => Err(error),
        }
    }

    pub fn set_translation_enabled(&self, enabled: bool) -> (r: Vec<RegisterStep>)
        ensures
            r@ == switch_steps(GCMD_TE, GSTS_TES, enabled),
    {
        switch(GCMD_TE, GSTS_TES, enabled)
    }

    pub fn enable_translation(&self) -> (r: Vec<RegisterStep>)
        ensures
            r@ == switch_steps(GCMD_TE, GSTS_TES, true),
    {
        self.set_translation_enabled(true)
    }

    pub fn disable_translation(&self) -> (r: Vec<RegisterStep>)
        ensures
            r@ == switch_steps(GCMD_TE, GSTS_TES, false),
    {
        self.set_translation_enabled(false)
    }

    pub fn set_queued_invalidation_enabled(&self, enabled: bool) -> (r: Vec<RegisterStep>)
        ensures
            r@ == switch_steps(GCMD_QIE, GSTS_QIES, enabled),
    {
        switch(GCMD_QIE, GSTS_QIES, enabled)
    }

    pub fn enable_queued_invalidation(&self) -> (r: Vec<RegisterStep>)
        ensures
            r@ == switch_steps(GCMD_QIE, GSTS_QIES, true),
    {
        self.set_queued_invalidation_enabled(true)
    }

    pub fn disable_queued_invalidation(&self) -> (r: Vec<RegisterStep>)
        ensures
            r@ == switch_steps(GCMD_QIE, GSTS_QIES, false),
    {
        self.set_queued_invalidation_enabled(false)
    }

    pub fn set_interrupt_remapping_enabled(&self, enabled: bool) -> (r: Vec<RegisterStep>)
        ensures
            r@ == switch_steps(GCMD_IRE, GSTS_IRES, enabled),
    {
        switch(GCMD_IRE, GSTS_IRES, enabled)
    }

    pub fn enable_interrupt_remapping(&self) -> (r: Vec<RegisterStep>)
        ensures
            r@ == switch_steps(GCMD_IRE, GSTS_IRES, true),
    {
        self.set_interrupt_remapping_enabled(true)
    }

    pub fn disable_interrupt_remapping(&self) -> (r: Vec<RegisterStep>)
        ensures
            r@ == switch_steps(GCMD_IRE, GSTS_IRES, false),
    {
        self.set_interrupt_remapping_enabled(false)
    }

    /// The accesses that make `table` the remapping table.
    pub fn set_interrupt_remap_table(
        &self,
        table: VtdInterruptRemapTableBacking,
        extended_interrupt_mode: bool,
    ) -> (r: Vec<RegisterStep>)
        requires
            table.wf(),
        ensures
            r@ == seq![
                RegisterStep::Write64 {
                    offset: REG_IRTA,
                    value: remap_table_value(table, extended_interrupt_mode),
                },
                RegisterStep::Command { set: GCMD_SIRTP, clear: 0 },
                RegisterStep::Await { mask: GSTS_IRTPS, expected: GSTS_IRTPS },
            ],
    {
        let mode: u64 = if extended_interrupt_mode {
            IRTA_EIME
        } else {
            0
        };
        let value: u64 = ((table.phys().start.as_usize() as u64) & PAGE_ADDR_MASK)
            | table.irta_size() | mode;
        let steps = vec![
            RegisterStep::Write64 { offset: REG_IRTA, value },
            RegisterStep::Command { set: GCMD_SIRTP, clear: 0 },
            RegisterStep::Await { mask: GSTS_IRTPS, expected: GSTS_IRTPS },
        ];
        assert(steps@ =~= seq![
            RegisterStep::Write64 {
                offset: REG_IRTA,
                value: remap_table_value(table, extended_interrupt_mode),
            },
            RegisterStep::Command { set: GCMD_SIRTP, clear: 0 },
            RegisterStep::Await { mask: GSTS_IRTPS, expected: GSTS_IRTPS },
        ]);
        steps
    }

    pub fn configure_fault_event(&self, route: InterruptRoute) -> (r: Vec<RegisterStep>)
        ensures
            r@ == fault_event_steps(route),
    {
        let steps = match route {
            InterruptRoute::Disabled => vec![
                RegisterStep::Write32 { offset: REG_FECTL, value: FECTL_INTERRUPT_MASK },
            ],
            InterruptRoute::Msi(message) => vec![
                RegisterStep::Write32 { offset: REG_FEDATA, value: message.data() },
                RegisterStep::Write32 {
                    offset: REG_FEADDR,
                    value: (message.address() % 0x1_0000_0000) as u32,
                },
                RegisterStep::Write32 {
                    offset: REG_FEUADDR,
                    value: (message.address() / 0x1_0000_0000) as u32,
                },
                RegisterStep::Write32 { offset: REG_FECTL, value: 0 },
            ],
        };
        assert(steps@ =~= fault_event_steps(route));
        steps
    }

    /// The message that the data and address registers hold.
    pub fn fault_event_message(&self, data: u32, low: u32, high: u32) -> (r: MsiMessage)
        ensures
            r == (MsiMessage { address: joined_halves(low, high), data }),
    {
        MsiMessage::new((low as u64) + 0x1_0000_0000 * (high as u64), data)
    }

    /// The route that the control, data and address registers hold.
    pub fn fault_event_route(&self, control: u32, data: u32, low: u32, high: u32) -> (r: InterruptRoute)
        ensures
            r == event_route(control, data, low, high),
    {
        if (control & FECTL_INTERRUPT_MASK) != 0 {
            InterruptRoute::Disabled
        } else {
            InterruptRoute::Msi(self.fault_event_message(data, low, high))
        }
    }
}

/// The low 32 bits of a word.
pub open spec fn low_half(word: u64) -> u32 {
    (word % 0x1_0000_0000) as u32
}

/// The high 32 bits of a word.
pub open spec fn high_half(word: u64) -> u32 {
    (word / 0x1_0000_0000) as u32
}

/// The word with the given halves.
pub open spec fn joined_halves(low: u32, high: u32) -> u64 {
    (low + 0x1_0000_0000 * high) as u64
}

/// What the 32-bit register at `offset`, which held `before`, holds after the
/// steps.
pub open spec fn held(steps: Seq<RegisterStep>, offset: usize, before: u32) -> u32
    decreases steps.len(),
{
    if steps.len() == 0 {
        before
    } else {
        match steps.last() {
            RegisterStep::Write32 { offset: written, value } if written == offset => value,
            _ => held(steps.drop_last(), offset, before),
        }
    }
}

/// The route that was configured is the one that the registers read back as,
/// whatever they held before.
pub proof fn law_fault_event_route_round_trip(
    route: InterruptRoute,
    control: u32,
    data: u32,
    low: u32,
    high: u32,
)
    ensures
        ({
            let steps = fault_event_steps(route);
            event_route(
                held(steps, REG_FECTL, control),
                held(steps, REG_FEDATA, data),
                held(steps, REG_FEADDR, low),
                held(steps, REG_FEUADDR, high),
            ) == route
        }),
{
    reveal_with_fuel(held, 5);
    assert(0x8000_0000u32 & 0x8000_0000u32 != 0 && 0u32 & 0x8000_0000u32 == 0) by (bit_vector);
    let steps = fault_event_steps(route);
    match route {
        InterruptRoute::Disabled => {},
        InterruptRoute::Msi(message) => {
            assert(steps.drop_last() =~= steps.take(3));
            assert(steps.take(3).drop_last() =~= steps.take(2));
            assert(steps.take(2).drop_last() =~= steps.take(1));
            assert(joined_halves(low_half(message.address), high_half(message.address))
                == message.address);
        },
    }
}

} // verus!
