//! x86_64 address-space activation.

use vstd::prelude::*;

use crate::addr::PhysAddr;
use crate::memory::{PageSize, PagingError};

verus! {

/// `x86_64::instructions::tlb::Pcid`.
#[verifier::external_type_specification]
#[verifier::external_body]
pub struct ExPcid(::x86_64::instructions::tlb::Pcid);

/// `x86_64::PhysAddr::try_new`: a number is a physical address where bits 52 to
/// 63 are zero.
#[verifier::external_body]
fn is_physical_address(raw: u64) -> (r: bool)
    ensures
        r == (raw < 0x10_0000_0000_0000),
{
    ::x86_64::PhysAddr::try_new(raw).is_ok()
}

/// `x86_64::structures::paging::PhysFrame::from_start_address` for 4 KiB frames:
/// the start of the frame that starts at a physical address, where the address
/// is a multiple of the frame size.
#[verifier::external_body]
fn frame_at(raw: u64) -> (r: Option<u64>)
    requires
        raw < 0x10_0000_0000_0000,
    ensures
        r == (if raw % 0x1000 == 0 {
            Some(raw)
        } else {
            None
        }),
{
    let address = ::x86_64::PhysAddr::new(raw);
    match ::x86_64::structures::paging::PhysFrame::<
        ::x86_64::structures::paging::Size4KiB,
    >::from_start_address(address) {
        Ok(frame) => Some(frame.start_address().as_u64()),
        Err(_) => None,
    }
}

/// The flag bits of CR0.
#[derive(Clone, Copy, Debug, PartialEq, Eq, Hash, Structural)]
pub struct Cr0Flags(pub u64);

impl Cr0Flags {
    pub fn from_bits(bits: u64) -> (r: Self)
        ensures
            r == Cr0Flags(bits),
    {
        Cr0Flags(bits)
    }

    pub fn bits(self) -> (r: u64)
        ensures
            r == self.0,
    {
        self.0
    }
}

/// The cache-control flag bits of CR3.
#[derive(Clone, Copy, Debug, PartialEq, Eq, Hash, Structural)]
pub struct Cr3Flags(pub u64);

impl Cr3Flags {
    pub fn from_bits(bits: u64) -> (r: Self)
        ensures
            r == Cr3Flags(bits),
    {
        Cr3Flags(bits)
    }

    pub fn bits(self) -> (r: u64)
        ensures
            r == self.0,
    {
        self.0
    }
}

/// The flag bits of CR4.
#[derive(Clone, Copy, Debug, PartialEq, Eq, Hash, Structural)]
pub struct Cr4Flags(pub u64);

impl Cr4Flags {
    pub fn from_bits(bits: u64) -> (r: Self)
        ensures
            r == Cr4Flags(bits),
    {
        Cr4Flags(bits)
    }

    pub fn bits(self) -> (r: u64)
        ensures
            r == self.0,
    {
        self.0
    }
}

/// How an x86_64 CR3 switch should encode the low CR3 bits.
#[derive(Clone, Copy, Debug, PartialEq, Eq)]
pub enum X86Cr3Mode {
    /// Use legacy CR3 cache-control flags. This mode is valid when PCID is
    /// disabled in CR4.
    Flags(Cr3Flags),
    /// Use a PCID tag. The caller must have enabled CR4.PCIDE before
    /// activating a token in this mode.
    Pcid { pcid: ::x86_64::instructions::tlb::Pcid, preserve_tlb_entries: bool },
}

/// How the low CR3 bits are to be read.
#[derive(Clone, Copy, Debug, PartialEq, Eq, Structural)]
pub enum X86Cr3Read {
    Flags,
    Pcid,
}

/// What the low CR3 bits were read as.
#[derive(Clone, Copy, Debug, PartialEq, Eq)]
pub enum X86Cr3Value {
    Flags(Cr3Flags),
    Pcid(::x86_64::instructions::tlb::Pcid),
}

/// x86_64 paging-control values to apply around a CR3 switch.
///
/// `cr4` is applied before CR3 so callers can enable mechanisms such as PAE,
/// LA57, or PCID before loading a root that depends on them. `cr0` is applied
/// after CR3 so callers can load a root before enabling paging on a freshly
/// booted AP.
#[derive(Clone, Copy, Debug, PartialEq, Eq)]
pub struct X86PagingControls {
    pub cr0: Option<Cr0Flags>,
    pub cr3: X86Cr3Mode,
    pub cr4: Option<Cr4Flags>,
}

impl X86PagingControls {
    pub fn new(cr3: X86Cr3Mode) -> (r: Self)
        ensures
            r == (X86PagingControls { cr0: None, cr3, cr4: None }),
    {
        X86PagingControls { cr0: None, cr3, cr4: None }
    }

    pub fn legacy(flags: Cr3Flags) -> (r: Self)
        ensures
            r == (X86PagingControls { cr0: None, cr3: X86Cr3Mode::Flags(flags), cr4: None }),
    {
        Self::new(X86Cr3Mode::Flags(flags))
    }

    pub fn pcid(pcid: ::x86_64::instructions::tlb::Pcid, preserve_tlb_entries: bool) -> (r: Self)
        ensures
            r == (X86PagingControls {
                cr0: None,
                cr3: X86Cr3Mode::Pcid { pcid, preserve_tlb_entries },
                cr4: None,
            }),
    {
        Self::new(X86Cr3Mode::Pcid { pcid, preserve_tlb_entries })
    }

    pub fn with_cr0(self, flags: Cr0Flags) -> (r: Self)
        ensures
            r == (X86PagingControls { cr0: Some(flags), ..self }),
    {
        X86PagingControls { cr0: Some(flags), ..self }
    }

    pub fn without_cr0(self) -> (r: Self)
        ensures
            r == (X86PagingControls { cr0: None, ..self }),
    {
        X86PagingControls { cr0: None, ..self }
    }

    pub fn with_cr4(self, flags: Cr4Flags) -> (r: Self)
        ensures
            r == (X86PagingControls { cr4: Some(flags), ..self }),
    {
        X86PagingControls { cr4: Some(flags), ..self }
    }

    pub fn without_cr4(self) -> (r: Self)
        ensures
            r == (X86PagingControls { cr4: None, ..self }),
    {
        X86PagingControls { cr4: None, ..self }
    }

    pub fn cr0(self) -> (r: Option<Cr0Flags>)
        ensures
            r == self.cr0,
    {
        self.cr0
    }

    pub fn cr3(self) -> (r: X86Cr3Mode)
        ensures
            r == self.cr3,
    {
        self.cr3
    }

    pub fn cr4(self) -> (r: Option<Cr4Flags>)
        ensures
            r == self.cr4,
    {
        self.cr4
    }
}

/// Installed x86_64 address-space token.
#[derive(Clone, Copy, Debug, PartialEq, Eq)]
pub struct X86PagingToken {
    pub root: PhysAddr,
    pub controls: X86PagingControls,
}

impl X86PagingToken {
    pub fn root(self) -> (r: PhysAddr)
        ensures
            r == self.root,
    {
        self.root
    }

    pub fn controls(self) -> (r: X86PagingControls)
        ensures
            r == self.controls,
    {
        self.controls
    }

    pub fn cr3(self) -> (r: X86Cr3Mode)
        ensures
            r == self.controls.cr3,
    {
        self.controls.cr3()
    }
}

/// One control-register write of an activation.
#[derive(Clone, Copy, Debug, PartialEq, Eq)]
pub enum X86ControlWrite {
    Cr4(Cr4Flags),
    Cr3 { frame: u64, mode: X86Cr3Mode },
    Cr0(Cr0Flags),
}

/// The frame that a root table fills, where the root is one.
pub open spec fn root_frame(root: PhysAddr) -> Result<u64, PagingError> {
    if root.0 % 0x1000 != 0 {
        Err(PagingError::NotAligned)
    } else if root.0 >= 0x10_0000_0000_0000 {
        Err(PagingError::AddressOutOfRange)
    } else {
        Ok(root.0 as u64)
    }
}

/// The frame that a root table fills: the root has to be aligned to a page and
/// to be a physical address.
pub fn frame_from_root(root: PhysAddr) -> (r: Result<u64, PagingError>)
    ensures
        r == root_frame(root),
{
    proof {
        crate::bits::lemma_page_is_pow2();
    }
    if !root.is_aligned(PageSize::Size4K.bytes()) {
        return Err(PagingError::NotAligned);
    }
    let raw: u64 = root.as_usize() as u64;
    if !is_physical_address(raw) {
        return Err(PagingError::AddressOutOfRange);
    }
    match frame_at(raw) {
        Some(frame) => Ok(frame),
        None => Err(PagingError::NotAligned),
    }
}

/// The root table that fills a frame.
pub fn root_from_frame(frame: u64) -> (r: PhysAddr)
    ensures
        r == PhysAddr(frame as usize),
{
    PhysAddr::from_usize(frame as usize)
}

/// A root that fills a frame is the root of that frame.
pub proof fn law_root_frame_round_trip(root: PhysAddr)
    requires
        root_frame(root) is Ok,
    ensures
        PhysAddr(root_frame(root)->Ok_0 as usize) == root,
{
}

/// CPU-local x86_64 paging activation policy.
///
/// This type applies caller-provided CR0/CR3/CR4 values. It does not choose
/// feature bits, allocate PCIDs, or install PAT; those are boot/per-CPU policy
/// decisions that must happen at the layer constructing the controls.
#[derive(Clone, Copy, Debug)]
pub struct X86PagingActivation {
    pub controls: X86PagingControls,
}

impl X86PagingActivation {
    pub fn new(controls: X86PagingControls) -> (r: Self)
        ensures
            r == (X86PagingActivation { controls }),
    {
        X86PagingActivation { controls }
    }

    pub fn legacy(flags: Cr3Flags) -> (r: Self)
        ensures
            r.controls == (X86PagingControls {
                cr0: None,
                cr3: X86Cr3Mode::Flags(flags),
                cr4: None,
            }),
    {
        Self::new(X86PagingControls::legacy(flags))
    }

    pub fn pcid(pcid: ::x86_64::instructions::tlb::Pcid, preserve_tlb_entries: bool) -> (r: Self)
        ensures
            r.controls == (X86PagingControls {
                cr0: None,
                cr3: X86Cr3Mode::Pcid { pcid, preserve_tlb_entries },
                cr4: None,
            }),
    {
        Self::new(X86PagingControls::pcid(pcid, preserve_tlb_entries))
    }

    pub fn with_cr0(self, flags: Cr0Flags) -> (r: Self)
        ensures
            r.controls == (X86PagingControls { cr0: Some(flags), ..self.controls }),
    {
        X86PagingActivation { controls: self.controls.with_cr0(flags) }
    }

    pub fn with_cr4(self, flags: Cr4Flags) -> (r: Self)
        ensures
            r.controls == (X86PagingControls { cr4: Some(flags), ..self.controls }),
    {
        X86PagingActivation { controls: self.controls.with_cr4(flags) }
    }

    pub fn controls(self) -> (r: X86PagingControls)
        ensures
            r == self.controls,
    {
        self.controls
    }

    /// The token of a root that fills a frame, with the policy's controls.
    pub fn install(&self, root: PhysAddr) -> (r: Result<X86PagingToken, PagingError>)
        ensures
            r == (match root_frame(root) {
                Ok(_) => Ok(X86PagingToken { root, controls: self.controls }),
                Err(error) => Err(error),
            }),
    {
        match frame_from_root(root) {
            Ok(_) => Ok(X86PagingToken { root, controls: self.controls }),
            Err(error) => Err(error),
        }
    }

    /// The writes that make a token the current address space: CR4 first where
    /// it is given, then CR3, then CR0 where it is given.
    pub open spec fn activation_writes(token: X86PagingToken, frame: u64) -> Seq<X86ControlWrite> {
        (match token.controls.cr4 {
            Some(flags) => seq![X86ControlWrite::Cr4(flags)],
            None => Seq::empty(),
        }) + seq![X86ControlWrite::Cr3 { frame, mode: token.controls.cr3 }] + (
        match token.controls.cr0 {
            Some(flags) => seq![X86ControlWrite::Cr0(flags)],
            None => Seq::empty(),
        })
    }

    pub fn activate(&self, token: X86PagingToken) -> (r: Result<Vec<X86ControlWrite>, PagingError>)
        ensures
            match r {
                Ok(writes) => {
                    &&& root_frame(token.root) is Ok
                    &&& writes@ == Self::activation_writes(token, root_frame(token.root)->Ok_0)
                },
                Err(error) => root_frame(token.root) == Err::<u64, PagingError>(error),
            },
    {
        let frame: u64 = match frame_from_root(token.root) {
            Ok(frame) => frame,
            Err(error) => return Err(error),
        };
        let mut writes: Vec<X86ControlWrite> = Vec::new();
        match token.controls.cr4() {
            Some(flags) => writes.push(X86ControlWrite::Cr4(flags)),
            None => {},
        }
        writes.push(X86ControlWrite::Cr3 { frame, mode: token.controls.cr3() });
        match token.controls.cr0() {
            Some(flags) => writes.push(X86ControlWrite::Cr0(flags)),
            None => {},
        }
        assert(writes@ =~= Self::activation_writes(token, frame));
        Ok(writes)
    }

    /// How the current CR3 is to be read: in the way that the policy writes it.
    pub fn cr3_read(&self) -> (r: X86Cr3Read)
        ensures
            r == (match self.controls.cr3 {
                X86Cr3Mode::Flags(_) => X86Cr3Read::Flags,
                X86Cr3Mode::Pcid { .. } => X86Cr3Read::Pcid,
            }),
    {
        match self.controls.cr3() {
            X86Cr3Mode::Flags(_) => X86Cr3Read::Flags,
            X86Cr3Mode::Pcid { .. } => X86Cr3Read::Pcid,
        }
    }

    /// The token of the address space that the control registers were read as.
    /// Whether a switch keeps TLB entries is not in a register, so it is taken
    /// from the policy, which a policy without a PCID denies.
    pub fn current(&self, cr0: Cr0Flags, frame: u64, cr3: X86Cr3Value, cr4: Cr4Flags) -> (r:
        X86PagingToken)
        ensures
            r == (X86PagingToken {
                root: PhysAddr(frame as usize),
                controls: X86PagingControls {
                    cr0: Some(cr0),
                    cr3: match cr3 {
                        X86Cr3Value::Flags(flags) => X86Cr3Mode::Flags(flags),
                        X86Cr3Value::Pcid(pcid) => X86Cr3Mode::Pcid {
                            pcid,
                            preserve_tlb_entries: match self.controls.cr3 {
                                X86Cr3Mode::Flags(_) => false,
                                X86Cr3Mode::Pcid { preserve_tlb_entries, .. } =>
                                preserve_tlb_entries,
                            },
                        },
                    },
                    cr4: Some(cr4),
                },
            }),
    {
        let mode = match cr3 {
            X86Cr3Value::Flags(flags) => X86Cr3Mode::Flags(flags),
            X86Cr3Value::Pcid(pcid) => {
                let preserve_tlb_entries = match self.controls.cr3() {
                    X86Cr3Mode::Flags(_) => false,
                    X86Cr3Mode::Pcid { preserve_tlb_entries, .. } => preserve_tlb_entries,
                };
                X86Cr3Mode::Pcid { pcid, preserve_tlb_entries }
            },
        };
        X86PagingToken {
            root: root_from_frame(frame),
            controls: X86PagingControls { cr0: Some(cr0), cr3: mode, cr4: Some(cr4) },
        }
    }
}

/// A token that was installed can be activated, and its CR3 write loads its own
/// root.
pub proof fn law_installed_token_activates_its_root(token: X86PagingToken)
    requires
        root_frame(token.root) is Ok,
    ensures
        exists|i: int|
            0 <= i < X86PagingActivation::activation_writes(
                token,
                root_frame(token.root)->Ok_0,
            ).len() && #[trigger] X86PagingActivation::activation_writes(
                token,
                root_frame(token.root)->Ok_0,
            )[i] == (X86ControlWrite::Cr3 {
                frame: token.root.0 as u64,
                mode: token.controls.cr3,
            }),
{
    let writes = X86PagingActivation::activation_writes(token, root_frame(token.root)->Ok_0);
    if token.controls.cr4 is Some {
        assert(writes[1] == (X86ControlWrite::Cr3 {
            frame: token.root.0 as u64,
            mode: token.controls.cr3,
        }));
    } else {
        assert(writes[0] == (X86ControlWrite::Cr3 {
            frame: token.root.0 as u64,
            mode: token.controls.cr3,
        }));
    }
}

/// A token is activated in a fixed order: its CR4 flags where it has any, then
/// its root and mode in CR3, then its CR0 flags where it has any, and nothing
/// else is written.
pub proof fn law_activation_writes_in_order(token: X86PagingToken, frame: u64)
    ensures
        ({
            let writes = X86PagingActivation::activation_writes(token, frame);
            let first: int = if token.controls.cr4 is Some {
                1
            } else {
                0
            };
            &&& writes.len() == first + 1 + (if token.controls.cr0 is Some {
                1int
            } else {
                0
            })
            &&& token.controls.cr4 matches Some(flags) ==> writes[0] == X86ControlWrite::Cr4(flags)
            &&& writes[first] == (X86ControlWrite::Cr3 { frame, mode: token.controls.cr3 })
            &&& token.controls.cr0 matches Some(flags) ==> writes.last() == X86ControlWrite::Cr0(
                flags,
            )
        }),
{
}

/// A root is refused where it does not start a frame, and else where it is not
/// below four petabytes.
pub proof fn law_root_frame_is_the_root(root: PhysAddr)
    ensures
        match root_frame(root) {
            Ok(frame) => frame == root.0 && root.0 % 0x1000 == 0 && root.0 < 0x10_0000_0000_0000,
            Err(error) => {
                ||| error == PagingError::NotAligned && root.0 % 0x1000 != 0
                ||| error == PagingError::AddressOutOfRange && root.0 % 0x1000 == 0 && root.0
                    >= 0x10_0000_0000_0000
            },
        },
{
}

} // verus!
