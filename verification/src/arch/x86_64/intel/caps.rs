//! Intel VT-d capability register decoding.

use vstd::prelude::*;
use vstd::std_specs::convert::FromSpecImpl;

use super::paging::VtdSecondLevelAddressWidth;
use crate::bits;
use crate::caps::CapabilityFlags;
use crate::memory::PageSize;

verus! {

/// Size of one VT-d remapping-unit MMIO register frame.
pub const VTD_MMIO_SIZE: usize = 0x1000;

/// Raw VT-d Capability register.
#[derive(Clone, Copy, Debug, PartialEq, Eq, Hash, Structural)]
pub struct VtdCapability(pub u64);

impl VtdCapability {
    pub fn from_bits(bits: u64) -> (r: Self)
        ensures
            r == VtdCapability(bits),
    {
        VtdCapability(bits)
    }

    pub fn bits(self) -> (r: u64)
        ensures
            r == self.0,
    {
        self.0
    }

    /// Bits `[21:16]`, which hold one less than the width.
    pub fn max_guest_address_width(self) -> (r: u8)
        ensures
            r == bits::bit_field(self.0, 21, 16) + 1,
    {
        bits::field(self.0, 21, 16) as u8 + 1
    }

    /// Bits `[12:8]`, one for each supported width.
    pub fn supported_agaw_mask(self) -> (r: u8)
        ensures
            r == bits::bit_field(self.0, 12, 8),
    {
        bits::field(self.0, 12, 8) as u8
    }

    /// Whether the unit walks tables of `width`.
    pub open spec fn has_width(self, width: VtdSecondLevelAddressWidth) -> bool {
        bits::bit_set(self.0, (8 + width.spec_agaw()) as u64)
    }

    pub fn supports_address_width(self, width: VtdSecondLevelAddressWidth) -> (r: bool)
        ensures
            r == self.has_width(width),
    {
        bits::bit(self.0, 8 + width.agaw())
    }

    /// The widest of the supported widths.
    pub open spec fn spec_best_width(self) -> Option<VtdSecondLevelAddressWidth> {
        if self.has_width(VtdSecondLevelAddressWidth::Bits57) {
            Some(VtdSecondLevelAddressWidth::Bits57)
        } else if self.has_width(VtdSecondLevelAddressWidth::Bits48) {
            Some(VtdSecondLevelAddressWidth::Bits48)
        } else if self.has_width(VtdSecondLevelAddressWidth::Bits39) {
            Some(VtdSecondLevelAddressWidth::Bits39)
        } else {
            None
        }
    }

    pub fn best_address_width(self) -> (r: Option<VtdSecondLevelAddressWidth>)
        ensures
            r == self.spec_best_width(),
    {
        if self.supports_address_width(VtdSecondLevelAddressWidth::Bits57) {
            Some(VtdSecondLevelAddressWidth::Bits57)
        } else if self.supports_address_width(VtdSecondLevelAddressWidth::Bits48) {
            Some(VtdSecondLevelAddressWidth::Bits48)
        } else if self.supports_address_width(VtdSecondLevelAddressWidth::Bits39) {
            Some(VtdSecondLevelAddressWidth::Bits39)
        } else {
            None
        }
    }

    /// Where the fault records lie in the register frame: bits `[33:24]`, in
    /// units of 16 bytes.
    pub open spec fn spec_fault_record_offset(self) -> int {
        bits::bit_field(self.0, 33, 24) * 16
    }

    pub fn fault_record_register_offset(self) -> (r: u64)
        ensures
            r == self.spec_fault_record_offset(),
            r <= 0xf_fff0,
    {
        bits::field(self.0, 33, 24) * 16
    }

    /// The number of fault records: bits `[47:40]`, which hold one less.
    pub open spec fn spec_fault_record_count(self) -> int {
        bits::bit_field(self.0, 47, 40) + 1
    }

    pub fn fault_record_count(self) -> (r: u16)
        ensures
            r == self.spec_fault_record_count(),
            1 <= r <= 256,
    {
        bits::field(self.0, 47, 40) as u16 + 1
    }

    /// Bits `[37:34]`, one for each leaf size above 4 KiB.
    pub fn superpage_mask(self) -> (r: u8)
        ensures
            r == bits::bit_field(self.0, 37, 34),
    {
        bits::field(self.0, 37, 34) as u8
    }

    /// Whether leaves of `size` may stand in the tables: always of 4 KiB, of
    /// 2 MiB by bit 34 and of 1 GiB by bit 35.
    pub open spec fn has_leaf_size(self, size: PageSize) -> bool {
        match size {
            PageSize::Size4K => true,
            PageSize::Size2M => bits::bit_set(self.0, 34),
            PageSize::Size1G => bits::bit_set(self.0, 35),
            _ => false,
        }
    }

    pub fn supports_leaf_size(self, size: PageSize) -> (r: bool)
        ensures
            r == self.has_leaf_size(size),
    {
        match size {
            PageSize::Size4K => true,
            PageSize::Size2M => bits::bit(self.0, 34),
            PageSize::Size1G => bits::bit(self.0, 35),
            _ => false,
        }
    }

    /// Bits `[53:48]`: the largest address mask of an invalidation.
    pub open spec fn spec_max_mask(self) -> u64 {
        bits::bit_field(self.0, 53, 48)
    }

    pub fn max_address_mask_value(self) -> (r: u8)
        ensures
            r == self.spec_max_mask(),
            r <= 0x3f,
    {
        bits::field(self.0, 53, 48) as u8
    }

    /// The address mask of an invalidation of one leaf, for a unit that offers
    /// page-selective invalidation with masks that large.
    pub open spec fn spec_page_mask(self, size: PageSize) -> Option<u8> {
        match granule_mask(size) {
            Some(mask) => if bits::bit_set(self.0, 39) && mask <= self.spec_max_mask() {
                Some(mask)
            } else {
                None
            },
            None => None,
        }
    }

    pub fn page_selective_address_mask(self, size: PageSize) -> (r: Option<u8>)
        ensures
            r == self.spec_page_mask(size),
    {
        let required: u8 = match size {
            PageSize::Size4K => 0,
            PageSize::Size2M => 9,
            PageSize::Size1G => 18,
            _ => return None,
        };
        if self.page_selective_invalidation() && self.max_address_mask_value() >= required {
            Some(required)
        } else {
            None
        }
    }

    /// Bit 39.
    pub fn page_selective_invalidation(self) -> (r: bool)
        ensures
            r == bits::bit_set(self.0, 39),
    {
        bits::bit(self.0, 39)
    }

    /// Bit 54.
    pub fn write_draining(self) -> (r: bool)
        ensures
            r == bits::bit_set(self.0, 54),
    {
        bits::bit(self.0, 54)
    }

    /// Bit 55.
    pub fn read_draining(self) -> (r: bool)
        ensures
            r == bits::bit_set(self.0, 55),
    {
        bits::bit(self.0, 55)
    }

    /// Bit 56.
    pub fn first_level_1g_page(self) -> (r: bool)
        ensures
            r == bits::bit_set(self.0, 56),
    {
        bits::bit(self.0, 56)
    }

    /// Bit 59.
    pub fn posted_interrupts(self) -> (r: bool)
        ensures
            r == bits::bit_set(self.0, 59),
    {
        bits::bit(self.0, 59)
    }

    /// Bit 60.
    pub fn first_level_5_level_paging(self) -> (r: bool)
        ensures
            r == bits::bit_set(self.0, 60),
    {
        bits::bit(self.0, 60)
    }

    /// Bit 22.
    pub fn zero_length_read(self) -> (r: bool)
        ensures
            r == bits::bit_set(self.0, 22),
    {
        bits::bit(self.0, 22)
    }
}

/// The address mask that covers one leaf of `size`: its number of 4 KiB pages
/// is two to that power.
pub open spec fn granule_mask(size: PageSize) -> Option<u8> {
    match size {
        PageSize::Size4K => Some(0),
        PageSize::Size2M => Some(9),
        PageSize::Size1G => Some(18),
        _ => None,
    }
}

/// The best width is a supported one, none of the supported ones is wider, and
/// it is missing only where none is supported.
pub proof fn law_best_width_is_widest(cap: VtdCapability, width: VtdSecondLevelAddressWidth)
    ensures
        match cap.spec_best_width() {
            Some(best) => cap.has_width(best) && (cap.has_width(width) ==> width.spec_agaw()
                <= best.spec_agaw()),
            None => !cap.has_width(width),
        },
{
}

/// The width test agrees with the mask of supported widths.
pub proof fn law_width_is_a_mask_bit(cap: VtdCapability, width: VtdSecondLevelAddressWidth)
    ensures
        cap.has_width(width) == ((bits::bit_field(cap.0, 12, 8) as u8) & (1u8
            << width.spec_agaw()) != 0),
{
    let word = cap.0;
    let agaw = width.spec_agaw();
    assert(((word >> ((8 + agaw) as u64)) & 1 == 1) == ((((word >> 8) & (((1u64 << 5) - 1) as u64))
        as u8) & (1u8 << agaw) != 0)) by (bit_vector)
        requires
            1 <= agaw <= 3,
    ;
}

impl From<u64> for VtdCapability {
    fn from(value: u64) -> (r: Self) {
        VtdCapability(value)
    }
}

impl FromSpecImpl<u64> for VtdCapability {
    open spec fn obeys_from_spec() -> bool {
        true
    }

    open spec fn from_spec(value: u64) -> Self {
        VtdCapability(value)
    }
}

impl From<VtdCapability> for u64 {
    fn from(value: VtdCapability) -> (r: Self) {
        value.0
    }
}

impl FromSpecImpl<VtdCapability> for u64 {
    open spec fn obeys_from_spec() -> bool {
        true
    }

    open spec fn from_spec(value: VtdCapability) -> Self {
        value.0
    }
}

impl Default for VtdCapability {
    fn default() -> (r: Self)
        ensures
            r == VtdCapability(0),
    {
        VtdCapability(0)
    }
}

/// Raw VT-d Extended Capability register.
#[derive(Clone, Copy, Debug, PartialEq, Eq, Hash, Structural)]
pub struct VtdExtendedCapability(pub u64);

impl VtdExtendedCapability {
    pub fn from_bits(bits: u64) -> (r: Self)
        ensures
            r == VtdExtendedCapability(bits),
    {
        VtdExtendedCapability(bits)
    }

    pub fn bits(self) -> (r: u64)
        ensures
            r == self.0,
    {
        self.0
    }

    /// Where the IOTLB registers lie in the register frame: bits `[17:8]`, in
    /// units of 16 bytes.
    pub fn iotlb_register_offset(self) -> (r: u64)
        ensures
            r == bits::bit_field(self.0, 17, 8) * 16,
    {
        bits::field(self.0, 17, 8) * 16
    }

    /// Bits `[23:20]`.
    pub fn max_handle_mask_value(self) -> (r: u8)
        ensures
            r == bits::bit_field(self.0, 23, 20),
    {
        bits::field(self.0, 23, 20) as u8
    }

    /// Bits `[39:35]`, which hold one less than the width.
    pub fn pasid_bits(self) -> (r: u8)
        ensures
            r == bits::bit_field(self.0, 39, 35) + 1,
    {
        bits::field(self.0, 39, 35) as u8 + 1
    }

    /// The features that the register reports, in the common vocabulary.
    /// Translation itself is always among them.
    pub open spec fn spec_capability_flags(self) -> CapabilityFlags {
        CapabilityFlags(
            common_flags(
                bits::bit_set(self.0, 40),
                bits::bit_set(self.0, 2),
                bits::bit_set(self.0, 3),
                bits::bit_set(self.0, 26),
                bits::bit_set(self.0, 29),
                bits::bit_set(self.0, 45),
            ),
        )
    }

    pub fn capability_flags(self) -> (r: CapabilityFlags)
        ensures
            r == self.spec_capability_flags(),
    {
        let pasid: u64 = if self.pasid() {
            CapabilityFlags::pasid().bits()
        } else {
            0
        };
        let device_tlb: u64 = if self.device_tlb() {
            CapabilityFlags::device_tlb().bits()
        } else {
            0
        };
        let remapping: u64 = if self.interrupt_remapping() {
            CapabilityFlags::interrupt_remapping().bits()
        } else {
            0
        };
        let nested: u64 = if self.nested_translation() {
            CapabilityFlags::nested_translation().bits()
        } else {
            0
        };
        let requests: u64 = if self.page_requests() {
            CapabilityFlags::page_requests().bits()
        } else {
            0
        };
        let dirty: u64 = if self.second_level_accessed_dirty() {
            CapabilityFlags::dirty_tracking().bits()
        } else {
            0
        };
        CapabilityFlags(
            CapabilityFlags::translation().bits() | pasid | device_tlb | remapping | nested
                | requests | dirty,
        )
    }

    /// Bit 0.
    pub fn coherent_page_walks(self) -> (r: bool)
        ensures
            r == bits::bit_set(self.0, 0),
    {
        bits::bit(self.0, 0)
    }

    /// Bit 1.
    pub fn queued_invalidation(self) -> (r: bool)
        ensures
            r == bits::bit_set(self.0, 1),
    {
        bits::bit(self.0, 1)
    }

    /// Bit 2.
    pub fn device_tlb(self) -> (r: bool)
        ensures
            r == bits::bit_set(self.0, 2),
    {
        bits::bit(self.0, 2)
    }

    /// Bit 3.
    pub fn interrupt_remapping(self) -> (r: bool)
        ensures
            r == bits::bit_set(self.0, 3),
    {
        bits::bit(self.0, 3)
    }

    /// Bit 4.
    pub fn extended_interrupt_mode(self) -> (r: bool)
        ensures
            r == bits::bit_set(self.0, 4),
    {
        bits::bit(self.0, 4)
    }

    /// Bit 6.
    pub fn pass_through(self) -> (r: bool)
        ensures
            r == bits::bit_set(self.0, 6),
    {
        bits::bit(self.0, 6)
    }

    /// Bit 7.
    pub fn snoop_control(self) -> (r: bool)
        ensures
            r == bits::bit_set(self.0, 7),
    {
        bits::bit(self.0, 7)
    }

    /// Bit 25.
    pub fn memory_type_support(self) -> (r: bool)
        ensures
            r == bits::bit_set(self.0, 25),
    {
        bits::bit(self.0, 25)
    }

    /// Bit 26.
    pub fn nested_translation(self) -> (r: bool)
        ensures
            r == bits::bit_set(self.0, 26),
    {
        bits::bit(self.0, 26)
    }

    /// Bit 29.
    pub fn page_requests(self) -> (r: bool)
        ensures
            r == bits::bit_set(self.0, 29),
    {
        bits::bit(self.0, 29)
    }

    /// Bit 30.
    pub fn execute_requests(self) -> (r: bool)
        ensures
            r == bits::bit_set(self.0, 30),
    {
        bits::bit(self.0, 30)
    }

    /// Bit 31.
    pub fn supervisor_requests(self) -> (r: bool)
        ensures
            r == bits::bit_set(self.0, 31),
    {
        bits::bit(self.0, 31)
    }

    /// Bit 33.
    pub fn no_write_flag(self) -> (r: bool)
        ensures
            r == bits::bit_set(self.0, 33),
    {
        bits::bit(self.0, 33)
    }

    /// Bit 34.
    pub fn extended_accessed_flag(self) -> (r: bool)
        ensures
            r == bits::bit_set(self.0, 34),
    {
        bits::bit(self.0, 34)
    }

    /// Bit 40.
    pub fn pasid(self) -> (r: bool)
        ensures
            r == bits::bit_set(self.0, 40),
    {
        bits::bit(self.0, 40)
    }

    /// Bit 41.
    pub fn device_tlb_invalidation_throttle(self) -> (r: bool)
        ensures
            r == bits::bit_set(self.0, 41),
    {
        bits::bit(self.0, 41)
    }

    /// Bit 42.
    pub fn page_request_draining(self) -> (r: bool)
        ensures
            r == bits::bit_set(self.0, 42),
    {
        bits::bit(self.0, 42)
    }

    /// Bit 43.
    pub fn scalable_mode(self) -> (r: bool)
        ensures
            r == bits::bit_set(self.0, 43),
    {
        bits::bit(self.0, 43)
    }

    /// Bit 45.
    pub fn second_level_accessed_dirty(self) -> (r: bool)
        ensures
            r == bits::bit_set(self.0, 45),
    {
        bits::bit(self.0, 45)
    }

    /// Bit 46.
    pub fn second_level_translation(self) -> (r: bool)
        ensures
            r == bits::bit_set(self.0, 46),
    {
        bits::bit(self.0, 46)
    }

    /// Bit 47.
    pub fn first_level_translation(self) -> (r: bool)
        ensures
            r == bits::bit_set(self.0, 47),
    {
        bits::bit(self.0, 47)
    }
}

/// The common flag word of a unit with the given features.
pub open spec fn common_flags(
    pasid: bool,
    device_tlb: bool,
    remapping: bool,
    nested: bool,
    requests: bool,
    dirty: bool,
) -> u64 {
    0x01u64 | (if pasid {
        0x02u64
    } else {
        0
    }) | (if device_tlb {
        0x08u64
    } else {
        0
    }) | (if remapping {
        0x10u64
    } else {
        0
    }) | (if nested {
        0x20u64
    } else {
        0
    }) | (if requests {
        0x40u64
    } else {
        0
    }) | (if dirty {
        0x80u64
    } else {
        0
    })
}

/// Each common feature is reported exactly where its register bit is set;
/// translation always is, and ATS, which the register has no bit for, never.
pub proof fn law_common_flags_follow_the_register(ecap: VtdExtendedCapability)
    ensures
        ({
            let flags = ecap.spec_capability_flags();
            &&& flags.has(CapabilityFlags(0x01))
            &&& flags.has(CapabilityFlags(0x02)) == bits::bit_set(ecap.0, 40)
            &&& !flags.has(CapabilityFlags(0x04))
            &&& flags.has(CapabilityFlags(0x08)) == bits::bit_set(ecap.0, 2)
            &&& flags.has(CapabilityFlags(0x10)) == bits::bit_set(ecap.0, 3)
            &&& flags.has(CapabilityFlags(0x20)) == bits::bit_set(ecap.0, 26)
            &&& flags.has(CapabilityFlags(0x40)) == bits::bit_set(ecap.0, 29)
            &&& flags.has(CapabilityFlags(0x80)) == bits::bit_set(ecap.0, 45)
        }),
{
    lemma_common_flags(
        bits::bit_set(ecap.0, 40),
        bits::bit_set(ecap.0, 2),
        bits::bit_set(ecap.0, 3),
        bits::bit_set(ecap.0, 26),
        bits::bit_set(ecap.0, 29),
        bits::bit_set(ecap.0, 45),
    );
}

proof fn lemma_common_flags(
    pasid: bool,
    device_tlb: bool,
    remapping: bool,
    nested: bool,
    requests: bool,
    dirty: bool,
)
    by (bit_vector)
    ensures
        common_flags(pasid, device_tlb, remapping, nested, requests, dirty) & 0x01 == 0x01,
        (common_flags(pasid, device_tlb, remapping, nested, requests, dirty) & 0x02 == 0x02)
            == pasid,
        common_flags(pasid, device_tlb, remapping, nested, requests, dirty) & 0x04 == 0,
        (common_flags(pasid, device_tlb, remapping, nested, requests, dirty) & 0x08 == 0x08)
            == device_tlb,
        (common_flags(pasid, device_tlb, remapping, nested, requests, dirty) & 0x10 == 0x10)
            == remapping,
        (common_flags(pasid, device_tlb, remapping, nested, requests, dirty) & 0x20 == 0x20)
            == nested,
        (common_flags(pasid, device_tlb, remapping, nested, requests, dirty) & 0x40 == 0x40)
            == requests,
        (common_flags(pasid, device_tlb, remapping, nested, requests, dirty) & 0x80 == 0x80)
            == dirty,
{
}

impl From<u64> for VtdExtendedCapability {
    fn from(value: u64) -> (r: Self) {
        VtdExtendedCapability(value)
    }
}

impl FromSpecImpl<u64> for VtdExtendedCapability {
    open spec fn obeys_from_spec() -> bool {
        true
    }

    open spec fn from_spec(value: u64) -> Self {
        VtdExtendedCapability(value)
    }
}

impl From<VtdExtendedCapability> for u64 {
    fn from(value: VtdExtendedCapability) -> (r: Self) {
        value.0
    }
}

impl FromSpecImpl<VtdExtendedCapability> for u64 {
    open spec fn obeys_from_spec() -> bool {
        true
    }

    open spec fn from_spec(value: VtdExtendedCapability) -> Self {
        value.0
    }
}

impl Default for VtdExtendedCapability {
    fn default() -> (r: Self)
        ensures
            r == VtdExtendedCapability(0),
    {
        VtdExtendedCapability(0)
    }
}

} // verus!
