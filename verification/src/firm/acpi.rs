//! ACPI system description tables as byte strings.
//!
//! Discovery and mapping of tables belong to the platform's ACPI support. This
//! module holds what the IOMMU table parsers need of a table: a check of the
//! common header and a bounded reader of its bytes.

use vstd::prelude::*;

use crate::bytes::{get_u16, get_u32, get_u64};

verus! {

/// Length of the header that all system description tables start with.
pub const SDT_HEADER_LEN: usize = 36;

/// Four-byte name of a table.
#[derive(Clone, Copy, Debug, PartialEq, Eq)]
pub struct Signature(pub [u8; 4]);

impl Signature {
    /// Whether `s` starts with the name.
    pub open spec fn starts(self, s: Seq<u8>) -> bool {
        &&& s.len() >= 4
        &&& s[0] == self.0@[0]
        &&& s[1] == self.0@[1]
        &&& s[2] == self.0@[2]
        &&& s[3] == self.0@[3]
    }

    /// DMA remapping reporting table of Intel platforms.
    pub fn dmar() -> (r: Self)
        ensures
            r.0@ == seq![0x44u8, 0x4d, 0x41, 0x52],
    {
        Signature([0x44, 0x4d, 0x41, 0x52])
    }

    /// I/O virtualization reporting structure of AMD platforms.
    pub fn ivrs() -> (r: Self)
        ensures
            r.0@ == seq![0x49u8, 0x56, 0x52, 0x53],
    {
        Signature([0x49, 0x56, 0x52, 0x53])
    }

    /// I/O remapping table of ARM platforms.
    pub fn iort() -> (r: Self)
        ensures
            r.0@ == seq![0x49u8, 0x4f, 0x52, 0x54],
    {
        Signature([0x49, 0x4f, 0x52, 0x54])
    }

    /// Whether `bytes` start with the name.
    fn begins(self, bytes: &[u8]) -> (r: bool)
        requires
            bytes@.len() >= 4,
        ensures
            r == self.starts(bytes@),
    {
        bytes[0] == self.0[0] && bytes[1] == self.0[1] && bytes[2] == self.0[2] && bytes[3]
            == self.0[3]
    }
}

/// What is wrong with the header of a table.
#[derive(Clone, Copy, Debug, PartialEq, Eq)]
pub enum AcpiError {
    SdtInvalidSignature(Signature),
    SdtInvalidOemId(Signature),
    SdtInvalidTableId(Signature),
    SdtInvalidChecksum(Signature),
}

/// Why a byte string is not a table.
#[derive(Clone, Copy, Debug, PartialEq, Eq)]
pub enum SdtFault {
    /// It is shorter than the header.
    ShortHeader,
    /// Its declared length is shorter than the header or longer than the
    /// byte string.
    Length,
    /// Its header is not valid.
    Acpi(AcpiError),
}

/// Sum of the bytes.
pub open spec fn byte_sum(s: Seq<u8>) -> int
    decreases s.len(),
{
    if s.len() == 0 {
        0
    } else {
        byte_sum(s.drop_last()) + s.last()
    }
}

/// What the header of a whole table fails on: its name, the two names of its
/// maker or its checksum.
pub open spec fn header_fault(table: Seq<u8>, signature: Signature) -> Option<AcpiError> {
    if !signature.starts(table) || !vstd::utf8::valid_utf8(signature.0@) {
        Some(AcpiError::SdtInvalidSignature(signature))
    } else if !vstd::utf8::valid_utf8(table.subrange(10, 16)) {
        Some(AcpiError::SdtInvalidOemId(signature))
    } else if !vstd::utf8::valid_utf8(table.subrange(16, 24)) {
        Some(AcpiError::SdtInvalidTableId(signature))
    } else if byte_sum(table) % 0x100 != 0 {
        Some(AcpiError::SdtInvalidChecksum(signature))
    } else {
        None
    }
}

/// The table that a byte string starts with.
pub open spec fn sdt_table(s: Seq<u8>, signature: Signature) -> Result<Seq<u8>, SdtFault> {
    let length = crate::bytes::le32(s, 4) as int;
    if s.len() < SDT_HEADER_LEN {
        Err(SdtFault::ShortHeader)
    } else if !signature.starts(s) {
        Err(SdtFault::Acpi(AcpiError::SdtInvalidSignature(signature)))
    } else if length < SDT_HEADER_LEN || length > s.len() {
        Err(SdtFault::Length)
    } else {
        match header_fault(s.take(length), signature) {
            Some(error) => Err(SdtFault::Acpi(error)),
            None => Ok(s.take(length)),
        }
    }
}

/// `core::str::from_utf8`: succeeds exactly on byte strings that are UTF-8.
#[verifier::external_body]
fn is_utf8(bytes: &[u8]) -> (r: bool)
    ensures
        r == vstd::utf8::valid_utf8(bytes@),
{
    core::str::from_utf8(bytes).is_ok()
}

/// Sum of the bytes modulo 256.
fn checksum(bytes: &[u8]) -> (r: u8)
    ensures
        r == byte_sum(bytes@) % 0x100,
{
    let mut sum: u8 = 0;
    let mut i: usize = 0;
    while i < bytes.len()
        invariant
            i <= bytes@.len(),
            sum == byte_sum(bytes@.take(i as int)) % 0x100,
        decreases bytes@.len() - i,
    {
        assert(bytes@.take(i + 1).drop_last() =~= bytes@.take(i as int));
        sum = sum.wrapping_add(bytes[i]);
        i += 1;
    }
    assert(bytes@.take(i as int) =~= bytes@);
    sum
}

/// Checks the header of a whole table.
pub fn validate_header(table: &[u8], signature: Signature) -> (r: Result<(), AcpiError>)
    requires
        table@.len() >= SDT_HEADER_LEN,
    ensures
        r == (match header_fault(table@, signature) {
            Some(error) => Err(error),
            None => Ok(()),
        }),
{
    let name = signature.0;
    if !signature.begins(table) || !is_utf8(vstd::array::array_as_slice(&name)) {
        return Err(AcpiError::SdtInvalidSignature(signature));
    }
    if !is_utf8(vstd::slice::slice_subrange(table, 10, 16)) {
        return Err(AcpiError::SdtInvalidOemId(signature));
    }
    if !is_utf8(vstd::slice::slice_subrange(table, 16, 24)) {
        return Err(AcpiError::SdtInvalidTableId(signature));
    }
    if checksum(table) != 0 {
        return Err(AcpiError::SdtInvalidChecksum(signature));
    }
    Ok(())
}

/// The bytes of the table that `bytes` start with.
pub fn table_bytes<'a>(bytes: &'a [u8], signature: Signature) -> (r: Result<&'a [u8], SdtFault>)
    ensures
        match sdt_table(bytes@, signature) {
            Ok(table) => r matches Ok(found) && found@ == table,
            Err(fault) => r == Err::<&'a [u8], _>(fault),
        },
{
    if bytes.len() < SDT_HEADER_LEN {
        return Err(SdtFault::ShortHeader);
    }
    if !signature.begins(bytes) {
        return Err(SdtFault::Acpi(AcpiError::SdtInvalidSignature(signature)));
    }
    let length = get_u32(bytes, 4) as usize;
    if length < SDT_HEADER_LEN || length > bytes.len() {
        return Err(SdtFault::Length);
    }
    let table = vstd::slice::slice_subrange(bytes, 0, length);
    match validate_header(table, signature) {
        Ok(()) => Ok(table),
        Err(error) => Err(SdtFault::Acpi(error)),
    }
}

/// Why bytes of a table cannot be read.
#[derive(Clone, Copy, Debug, PartialEq, Eq)]
pub enum AcpiTableBytesError {
    Truncated { needed: usize, available: usize },
    LengthExceedsBuffer { declared: usize, available: usize },
    WrongSignature { expected: Signature, found: [u8; 4] },
    Malformed(&'static str),
}

/// Bounded reader of the bytes of one table.
#[derive(Clone, Copy, Debug)]
pub struct SdtBytes<'a> {
    bytes: &'a [u8],
}

impl<'a> SdtBytes<'a> {
    /// The bytes of the table.
    pub closed spec fn view(self) -> Seq<u8> {
        self.bytes@
    }

    /// The table with the given name that `bytes` start with, by its declared
    /// length.
    pub fn new(bytes: &'a [u8], signature: Signature) -> (r: Result<Self, AcpiTableBytesError>)
        ensures
            ({
                let declared = crate::bytes::le32(bytes@, 4) as int;
                if bytes@.len() < SDT_HEADER_LEN {
                    r == Err::<Self, _>(
                        AcpiTableBytesError::Truncated {
                            needed: SDT_HEADER_LEN,
                            available: bytes@.len() as usize,
                        },
                    )
                } else if !signature.starts(bytes@) {
                    r matches Err(AcpiTableBytesError::WrongSignature { expected, found })
                        && expected == signature && found@ == bytes@.take(4)
                } else if declared < SDT_HEADER_LEN {
                    r == Err::<Self, _>(
                        AcpiTableBytesError::Malformed(
                            "ACPI table length is shorter than the SDT header",
                        ),
                    )
                } else if declared > bytes@.len() {
                    r == Err::<Self, _>(
                        AcpiTableBytesError::LengthExceedsBuffer {
                            declared: declared as usize,
                            available: bytes@.len() as usize,
                        },
                    )
                } else {
                    r matches Ok(table) && table@ == bytes@.take(declared)
                }
            }),
    {
        if bytes.len() < SDT_HEADER_LEN {
            return Err(
                AcpiTableBytesError::Truncated { needed: SDT_HEADER_LEN, available: bytes.len() },
            );
        }
        if !signature.begins(bytes) {
            let found = [bytes[0], bytes[1], bytes[2], bytes[3]];
            assert(found@ =~= bytes@.take(4));
            return Err(AcpiTableBytesError::WrongSignature { expected: signature, found });
        }
        let declared = get_u32(bytes, 4) as usize;
        if declared < SDT_HEADER_LEN {
            return Err(
                AcpiTableBytesError::Malformed("ACPI table length is shorter than the SDT header"),
            );
        }
        if declared > bytes.len() {
            return Err(
                AcpiTableBytesError::LengthExceedsBuffer { declared, available: bytes.len() },
            );
        }
        Ok(SdtBytes { bytes: vstd::slice::slice_subrange(bytes, 0, declared) })
    }

    pub fn bytes(self) -> (r: &'a [u8])
        ensures
            r@ == self@,
    {
        self.bytes
    }

    pub fn len(self) -> (r: usize)
        ensures
            r == self@.len(),
    {
        self.bytes.len()
    }

    pub fn read_u8(self, offset: usize) -> (r: Result<u8, AcpiTableBytesError>)
        ensures
            r == (if offset < self@.len() {
                Ok(self@[offset as int])
            } else {
                Err(
                    AcpiTableBytesError::Truncated {
                        needed: if offset < usize::MAX {
                            (offset + 1) as usize
                        } else {
                            usize::MAX
                        },
                        available: self@.len() as usize,
                    },
                )
            }),
    {
        if offset < self.bytes.len() {
            Ok(self.bytes[offset])
        } else {
            Err(
                AcpiTableBytesError::Truncated {
                    needed: offset.saturating_add(1),
                    available: self.bytes.len(),
                },
            )
        }
    }

    /// What reading `width` bytes at `offset` fails on.
    pub open spec fn read_fault(self, offset: usize, width: int) -> Option<AcpiTableBytesError> {
        if offset + width > usize::MAX {
            Some(AcpiTableBytesError::Malformed("ACPI read offset overflow"))
        } else if offset + width > self@.len() {
            Some(
                AcpiTableBytesError::Truncated {
                    needed: (offset + width) as usize,
                    available: self@.len() as usize,
                },
            )
        } else {
            None
        }
    }

    pub fn read_u16(self, offset: usize) -> (r: Result<u16, AcpiTableBytesError>)
        ensures
            r == (match self.read_fault(offset, 2) {
                Some(error) => Err(error),
                None => Ok(crate::bytes::le16(self@, offset as int)),
            }),
    {
        match self.readable(offset, 2) {
            Some(error) => Err(error),
            None => Ok(get_u16(self.bytes, offset)),
        }
    }

    pub fn read_u32(self, offset: usize) -> (r: Result<u32, AcpiTableBytesError>)
        ensures
            r == (match self.read_fault(offset, 4) {
                Some(error) => Err(error),
                None => Ok(crate::bytes::le32(self@, offset as int)),
            }),
    {
        match self.readable(offset, 4) {
            Some(error) => Err(error),
            None => Ok(get_u32(self.bytes, offset)),
        }
    }

    pub fn read_u64(self, offset: usize) -> (r: Result<u64, AcpiTableBytesError>)
        ensures
            r == (match self.read_fault(offset, 8) {
                Some(error) => Err(error),
                None => Ok(crate::bytes::le64(self@, offset as int)),
            }),
    {
        match self.readable(offset, 8) {
            Some(error) => Err(error),
            None => Ok(get_u64(self.bytes, offset)),
        }
    }

    /// What reading `width` bytes at `offset` fails on.
    fn readable(self, offset: usize, width: usize) -> (r: Option<AcpiTableBytesError>)
        ensures
            r == self.read_fault(offset, width as int),
    {
        let end = match offset.checked_add(width) {
            Some(end) => end,
            None => return Some(AcpiTableBytesError::Malformed("ACPI read offset overflow")),
        };
        if end > self.bytes.len() {
            Some(AcpiTableBytesError::Truncated { needed: end, available: self.bytes.len() })
        } else {
            None
        }
    }
}

proof fn lemma_sum_of_changed(s: Seq<u8>, i: int, byte: u8)
    requires
        0 <= i < s.len(),
    ensures
        byte_sum(s.update(i, byte)) == byte_sum(s) - s[i] + byte,
    decreases s.len(),
{
    let changed = s.update(i, byte);
    if i == s.len() - 1 {
        assert(changed.drop_last() =~= s.drop_last());
    } else {
        assert(changed.drop_last() =~= s.drop_last().update(i, byte));
        lemma_sum_of_changed(s.drop_last(), i, byte);
    }
}

/// A table that is accepted starts with its signature and is as long as the
/// number in its bytes `[4..8]`, at least 36 bytes and no longer than what was
/// given; its bytes add up to a multiple of 256. Where one of these does not
/// hold the table is refused, the first of them that does not hold being named.
pub proof fn law_accepted_table_is_whole(s: Seq<u8>, signature: Signature)
    ensures
        ({
            let length = crate::bytes::le32(s, 4) as int;
            let named = s.len() >= 36 && s[0] == signature.0@[0] && s[1] == signature.0@[1] && s[2]
                == signature.0@[2] && s[3] == signature.0@[3];
            let fits = 36 <= length <= s.len();
            match sdt_table(s, signature) {
                Ok(table) => {
                    &&& named && fits
                    &&& table == s.take(length)
                    &&& byte_sum(table) % 256 == 0
                    &&& vstd::utf8::valid_utf8(s.subrange(10, 16))
                    &&& vstd::utf8::valid_utf8(s.subrange(16, 24))
                },
                Err(SdtFault::ShortHeader) => s.len() < 36,
                Err(SdtFault::Length) => named && !fits,
                Err(SdtFault::Acpi(error)) => {
                    ||| s.len() >= 36 && !named && error == AcpiError::SdtInvalidSignature(
                        signature,
                    )
                    ||| named && fits && error == AcpiError::SdtInvalidSignature(signature)
                        && !vstd::utf8::valid_utf8(signature.0@)
                    ||| named && fits && error == AcpiError::SdtInvalidOemId(signature)
                        && !vstd::utf8::valid_utf8(s.subrange(10, 16))
                    ||| named && fits && error == AcpiError::SdtInvalidTableId(signature)
                        && !vstd::utf8::valid_utf8(s.subrange(16, 24))
                    ||| named && fits && error == AcpiError::SdtInvalidChecksum(signature)
                        && byte_sum(s.take(length)) % 256 != 0
                },
            }
        }),
{
    let length = crate::bytes::le32(s, 4) as int;
    if s.len() >= 36 && 36 <= length <= s.len() {
        assert(s.take(length).subrange(10, 16) =~= s.subrange(10, 16));
        assert(s.take(length).subrange(16, 24) =~= s.subrange(16, 24));
    }
}

/// A table that is accepted is not accepted any more when one of its bytes
/// behind the length is another one.
pub proof fn law_changed_byte_is_found(s: Seq<u8>, signature: Signature, i: int, byte: u8)
    requires
        sdt_table(s, signature) is Ok,
        8 <= i < crate::bytes::le32(s, 4),
        byte != s[i],
    ensures
        sdt_table(s.update(i, byte), signature) is Err,
{
    let length = crate::bytes::le32(s, 4) as int;
    let changed = s.update(i, byte);
    law_accepted_table_is_whole(s, signature);
    assert(crate::bytes::le32(changed, 4) == length);
    assert(changed.take(length) =~= s.take(length).update(i, byte));
    lemma_sum_of_changed(s.take(length), i, byte);
    if sdt_table(changed, signature) is Ok {
        law_accepted_table_is_whole(changed, signature);
        assert(-255 <= byte - s[i] <= 255 && byte - s[i] != 0);
    }
}

/// A number can be read exactly where all of its bytes are in the table; where
/// they are not, the error says how many bytes the table would need.
pub proof fn law_number_is_read_where_its_bytes_are<'a>(
    table: SdtBytes<'a>,
    offset: usize,
    width: int,
)
    requires
        0 <= width <= 8,
        table@.len() <= usize::MAX,
    ensures
        match table.read_fault(offset, width) {
            None => offset + width <= table@.len(),
            Some(AcpiTableBytesError::Truncated { needed, available }) => {
                &&& needed == offset + width
                &&& available == table@.len()
                &&& needed > available
            },
            Some(_) => offset + width > usize::MAX,
        },
{
}

} // verus!
