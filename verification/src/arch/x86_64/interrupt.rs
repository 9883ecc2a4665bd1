//! x86 MSI/MSI-X delivery-message helpers.

use vstd::prelude::*;
use vstd::std_specs::convert::FromSpecImpl;

use crate::ctrl::MsiMessage;
use crate::error::Error;

verus! {

const MSI_ADDRESS_BASE: u64 = 0xfee0_0000;

const MSI_REDIRECTION_HINT: u64 = 0x08;

const MSI_DESTINATION_MODE_LOGICAL: u64 = 0x04;

const MSI_LEVEL_ASSERT: u32 = 0x4000;

const MSI_TRIGGER_LEVEL: u32 = 0x8000;

/// CPU interrupt vector usable for external MSI/MSI-X delivery.
#[derive(Clone, Copy, Debug, PartialEq, Eq, PartialOrd, Ord, Hash)]
pub struct X86InterruptVector(u8);

impl View for X86InterruptVector {
    type V = u8;

    closed spec fn view(&self) -> u8 {
        self.0
    }
}

impl X86InterruptVector {
    /// The first vector that is not reserved for processor exceptions.
    pub const MIN_EXTERNAL: u8 = 32;

    #[verifier::type_invariant]
    spec fn external(self) -> bool {
        self.0 >= 32
    }

    /// The vector, which must not be one of the processor exceptions.
    pub fn new(vector: u8) -> (r: Result<Self, Error>)
        ensures
            match r {
                Ok(value) => vector >= 32 && value@ == vector,
                Err(error) => vector < 32 && error == Error::InvalidRange,
            },
    {
        if vector < Self::MIN_EXTERNAL {
            return Err(Error::InvalidRange);
        }
        Ok(X86InterruptVector(vector))
    }

    pub fn get(self) -> (r: u8)
        ensures
            r == self@,
            r >= 32,
    {
        proof {
            use_type_invariant(&self);
        }
        self.0
    }
}

/// Plain xAPIC MSI destination field.
#[derive(Clone, Copy, Debug, PartialEq, Eq, Hash, Structural)]
pub enum X86MsiDestination {
    Physical(u8),
    Logical(u8),
}

impl X86MsiDestination {
    pub open spec fn spec_id(self) -> u8 {
        match self {
            X86MsiDestination::Physical(id) => id,
            X86MsiDestination::Logical(id) => id,
        }
    }

    pub fn id(self) -> (r: u8)
        ensures
            r == self.spec_id(),
    {
        match self {
            X86MsiDestination::Physical(id) => id,
            X86MsiDestination::Logical(id) => id,
        }
    }

    pub fn is_logical(self) -> (r: bool)
        ensures
            r == (self is Logical),
    {
        match self {
            X86MsiDestination::Physical(_) => false,
            X86MsiDestination::Logical(_) => true,
        }
    }
}

/// x86 MSI delivery mode.
#[derive(Clone, Copy, Debug, PartialEq, Eq, Hash, Structural)]
pub enum X86MsiDeliveryMode {
    Fixed,
    LowestPriority,
    Smi,
    Nmi,
    Init,
    ExtInt,
}

impl X86MsiDeliveryMode {
    /// The number that stands for the mode in messages and table entries.
    pub open spec fn spec_code(self) -> u8 {
        match self {
            X86MsiDeliveryMode::Fixed => 0,
            X86MsiDeliveryMode::LowestPriority => 1,
            X86MsiDeliveryMode::Smi => 2,
            X86MsiDeliveryMode::Nmi => 4,
            X86MsiDeliveryMode::Init => 5,
            X86MsiDeliveryMode::ExtInt => 7,
        }
    }

    pub fn code(self) -> (r: u8)
        ensures
            r == self.spec_code(),
            r <= 7,
    {
        match self {
            X86MsiDeliveryMode::Fixed => 0,
            X86MsiDeliveryMode::LowestPriority => 1,
            X86MsiDeliveryMode::Smi => 2,
            X86MsiDeliveryMode::Nmi => 4,
            X86MsiDeliveryMode::Init => 5,
            X86MsiDeliveryMode::ExtInt => 7,
        }
    }
}

/// x86 MSI trigger mode.
#[derive(Clone, Copy, Debug, PartialEq, Eq, Hash, Structural)]
pub enum X86MsiTriggerMode {
    Edge,
    Level,
}

impl Default for X86MsiTriggerMode {
    fn default() -> (r: Self)
        ensures
            r == X86MsiTriggerMode::Edge,
    {
        X86MsiTriggerMode::Edge
    }
}

/// x86 MSI level bit.
#[derive(Clone, Copy, Debug, PartialEq, Eq, Hash, Structural)]
pub enum X86MsiLevel {
    Deassert,
    Assert,
}

/// The address word of a message to the given destination: the identity in bits
/// `[19:12]`, the logical mode in bit 2 and the redirection hint in bit 3.
pub open spec fn msi_address(id: u8, logical: bool, hint: bool) -> u64 {
    0xfee0_0000u64 | ((id as u64) << 12) | (if logical {
        0x04u64
    } else {
        0
    }) | (if hint {
        0x08u64
    } else {
        0
    })
}

/// The data word of a message: the vector in bits `[7:0]`, the delivery mode in
/// bits `[10:8]`, the level in bit 14 and the trigger mode in bit 15.
pub open spec fn msi_data(vector: u8, mode: u8, asserted: bool, level_triggered: bool) -> u32 {
    (vector as u32) | ((mode as u32) << 8) | (if asserted {
        0x4000u32
    } else {
        0
    }) | (if level_triggered {
        0x8000u32
    } else {
        0
    })
}

/// Builder for an x86 APIC MSI/MSI-X delivery message.
#[derive(Clone, Copy, Debug, PartialEq, Eq, Hash)]
pub struct X86MsiDelivery {
    pub destination: X86MsiDestination,
    pub vector: X86InterruptVector,
    pub delivery_mode: X86MsiDeliveryMode,
    pub trigger_mode: X86MsiTriggerMode,
    pub level: X86MsiLevel,
    pub redirection_hint: bool,
}

impl X86MsiDelivery {
    pub open spec fn of(
        destination: X86MsiDestination,
        vector: X86InterruptVector,
        delivery_mode: X86MsiDeliveryMode,
    ) -> Self {
        X86MsiDelivery {
            destination,
            vector,
            delivery_mode,
            trigger_mode: X86MsiTriggerMode::Edge,
            level: X86MsiLevel::Assert,
            redirection_hint: false,
        }
    }

    pub fn fixed(destination: X86MsiDestination, vector: X86InterruptVector) -> (r: Self)
        ensures
            r == Self::of(destination, vector, X86MsiDeliveryMode::Fixed),
    {
        Self::new(destination, vector, X86MsiDeliveryMode::Fixed)
    }

    pub fn new(
        destination: X86MsiDestination,
        vector: X86InterruptVector,
        delivery_mode: X86MsiDeliveryMode,
    ) -> (r: Self)
        ensures
            r == Self::of(destination, vector, delivery_mode),
    {
        X86MsiDelivery {
            destination,
            vector,
            delivery_mode,
            trigger_mode: X86MsiTriggerMode::Edge,
            level: X86MsiLevel::Assert,
            redirection_hint: false,
        }
    }

    pub fn with_trigger_mode(self, trigger_mode: X86MsiTriggerMode) -> (r: Self)
        ensures
            r == (X86MsiDelivery { trigger_mode, ..self }),
    {
        X86MsiDelivery { trigger_mode, ..self }
    }

    pub fn with_level(self, level: X86MsiLevel) -> (r: Self)
        ensures
            r == (X86MsiDelivery { level, ..self }),
    {
        X86MsiDelivery { level, ..self }
    }

    pub fn with_redirection_hint(self, enabled: bool) -> (r: Self)
        ensures
            r == (X86MsiDelivery { redirection_hint: enabled, ..self }),
    {
        X86MsiDelivery { redirection_hint: enabled, ..self }
    }

    pub fn destination(self) -> (r: X86MsiDestination)
        ensures
            r == self.destination,
    {
        self.destination
    }

    pub fn vector(self) -> (r: X86InterruptVector)
        ensures
            r == self.vector,
    {
        self.vector
    }

    pub fn delivery_mode(self) -> (r: X86MsiDeliveryMode)
        ensures
            r == self.delivery_mode,
    {
        self.delivery_mode
    }

    pub fn trigger_mode(self) -> (r: X86MsiTriggerMode)
        ensures
            r == self.trigger_mode,
    {
        self.trigger_mode
    }

    pub fn level(self) -> (r: X86MsiLevel)
        ensures
            r == self.level,
    {
        self.level
    }

    pub fn redirection_hint(self) -> (r: bool)
        ensures
            r == self.redirection_hint,
    {
        self.redirection_hint
    }

    /// The message that delivers the interrupt.
    pub open spec fn spec_message(self) -> MsiMessage {
        MsiMessage {
            address: msi_address(
                self.destination.spec_id(),
                self.destination is Logical,
                self.redirection_hint,
            ),
            data: msi_data(
                self.vector@,
                self.delivery_mode.spec_code(),
                self.level is Assert,
                self.trigger_mode is Level,
            ),
        }
    }

    pub fn message(self) -> (r: MsiMessage)
        ensures
            r == self.spec_message(),
    {
        let logical: u64 = if self.destination.is_logical() {
            MSI_DESTINATION_MODE_LOGICAL
        } else {
            0
        };
        let hint: u64 = if self.redirection_hint {
            MSI_REDIRECTION_HINT
        } else {
            0
        };
        let address: u64 = MSI_ADDRESS_BASE | ((self.destination.id() as u64) << 12) | logical
            | hint;
        let level: u32 = if self.level == X86MsiLevel::Assert {
            MSI_LEVEL_ASSERT
        } else {
            0
        };
        let trigger: u32 = if self.trigger_mode == X86MsiTriggerMode::Level {
            MSI_TRIGGER_LEVEL
        } else {
            0
        };
        let data: u32 = (self.vector.get() as u32) | ((self.delivery_mode.code() as u32) << 8)
            | level | trigger;
        MsiMessage::new(address, data)
    }
}

impl From<X86MsiDelivery> for MsiMessage {
    fn from(value: X86MsiDelivery) -> (r: Self) {
        value.message()
    }
}

impl FromSpecImpl<X86MsiDelivery> for MsiMessage {
    open spec fn obeys_from_spec() -> bool {
        true
    }

    open spec fn from_spec(value: X86MsiDelivery) -> Self {
        value.spec_message()
    }
}

/// A message is addressed to the interrupt window, and every part of the
/// delivery can be read back from its field.
pub proof fn law_message_holds_every_part(delivery: X86MsiDelivery)
    ensures
        ({
            let message = delivery.spec_message();
            &&& message.address >> 20 == 0xfee
            &&& (message.address >> 12) & 0xff == delivery.destination.spec_id()
            &&& (message.address & 0x04 != 0) == (delivery.destination is Logical)
            &&& (message.address & 0x08 != 0) == delivery.redirection_hint
            &&& message.data & 0xff == delivery.vector@
            &&& (message.data >> 8) & 0x7 == delivery.delivery_mode.spec_code()
            &&& (message.data & 0x4000 != 0) == (delivery.level is Assert)
            &&& (message.data & 0x8000 != 0) == (delivery.trigger_mode is Level)
            &&& message.data >> 16 == 0
        }),
{
    lemma_message_fields(
        delivery.destination.spec_id(),
        delivery.destination is Logical,
        delivery.redirection_hint,
        delivery.vector@,
        delivery.delivery_mode.spec_code(),
        delivery.level is Assert,
        delivery.trigger_mode is Level,
    );
}

proof fn lemma_message_fields(
    id: u8,
    logical: bool,
    hint: bool,
    vector: u8,
    mode: u8,
    asserted: bool,
    triggered: bool,
)
    by (bit_vector)
    requires
        mode <= 7,
    ensures
        msi_address(id, logical, hint) >> 20 == 0xfee,
        (msi_address(id, logical, hint) >> 12) & 0xff == id,
        (msi_address(id, logical, hint) & 0x04 != 0) == logical,
        (msi_address(id, logical, hint) & 0x08 != 0) == hint,
        msi_data(vector, mode, asserted, triggered) & 0xff == vector,
        (msi_data(vector, mode, asserted, triggered) >> 8) & 0x7 == mode,
        (msi_data(vector, mode, asserted, triggered) & 0x4000 != 0) == asserted,
        (msi_data(vector, mode, asserted, triggered) & 0x8000 != 0) == triggered,
        msi_data(vector, mode, asserted, triggered) >> 16 == 0,
{
}

/// The delivery modes have the codes that messages carry: three codes are not
/// used, and no two modes share one.
pub proof fn law_delivery_modes_have_their_codes(delivery: X86MsiDelivery)
    ensures
        (delivery.spec_message().data >> 8) & 0x7 == (match delivery.delivery_mode {
            X86MsiDeliveryMode::Fixed => 0u32,
            X86MsiDeliveryMode::LowestPriority => 1,
            X86MsiDeliveryMode::Smi => 2,
            X86MsiDeliveryMode::Nmi => 4,
            X86MsiDeliveryMode::Init => 5,
            X86MsiDeliveryMode::ExtInt => 7,
        }),
        (delivery.spec_message().address >> 12) & 0xff == (match delivery.destination {
            X86MsiDestination::Physical(id) => id,
            X86MsiDestination::Logical(id) => id,
        }),
{
    law_message_holds_every_part(delivery);
}

/// A delivery that is made of a destination, a vector and a mode has those, is
/// triggered by an edge and asserted, and goes to that destination alone.
pub proof fn law_plain_delivery_is_an_asserted_edge(
    destination: X86MsiDestination,
    vector: X86InterruptVector,
    mode: X86MsiDeliveryMode,
)
    ensures
        ({
            let message = X86MsiDelivery::of(destination, vector, mode).spec_message();
            &&& message.data & 0xff == vector@
            &&& message.data & 0x8000 == 0
            &&& message.data & 0x4000 != 0
            &&& message.address & 0x08 == 0
            &&& (message.address & 0x04 != 0) == (destination is Logical)
        }),
{
    law_message_holds_every_part(X86MsiDelivery::of(destination, vector, mode));
}

} // verus!
