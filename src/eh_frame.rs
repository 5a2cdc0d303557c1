//! Parser for the `.eh_frame` unwind table: recovers the start address and the
//! length of every function that carries a Frame Description Entry.
use std::collections::HashMap;
use vstd::prelude::*;

verus! {

broadcast use vstd::std_specs::hash::group_hash_axioms;

/// How an encoded pointer is stored (low nibble of a pointer-encoding byte).
#[allow(non_camel_case_types)]
#[derive(Debug, Clone, Copy, PartialEq, Eq, Structural)]
pub enum EhPointerFormat {
    /// A literal pointer whose size is the architecture's pointer size.
    DW_EH_PE_absptr,
    /// An unsigned LEB128 value.
    DW_EH_PE_uleb128,
    /// A 2-byte unsigned value.
    DW_EH_PE_udata2,
    /// A 4-byte unsigned value.
    DW_EH_PE_udata4,
    /// An 8-byte unsigned value.
    DW_EH_PE_udata8,
    /// A signed LEB128 value.
    DW_EH_PE_sleb128,
    /// A 2-byte signed value.
    DW_EH_PE_sdata2,
    /// A 4-byte signed value.
    DW_EH_PE_sdata4,
    /// An 8-byte signed value.
    DW_EH_PE_sdata8,
}

/// What an encoded pointer is relative to (high nibble of a pointer-encoding byte).
#[allow(non_camel_case_types)]
#[derive(Debug, Clone, Copy, PartialEq, Eq, Structural)]
pub enum EhPointerApplication {
    /// Relative to the position of the encoded value itself.
    DW_EH_PE_pcrel,
    /// Relative to the start of the `.text` section.
    DW_EH_PE_textrel,
    /// Relative to the start of the `.got` or `.eh_frame_hdr` section.
    DW_EH_PE_datarel,
    /// Relative to the start of the function.
    DW_EH_PE_funcrel,
    /// Aligned to an address-unit boundary.
    DW_EH_PE_aligned,
}

/// Which piece of CIE information an FDE could not obtain.
#[derive(Debug, Clone, Copy, PartialEq, Eq, Structural)]
pub enum CieFault {
    /// No CIE starts at the offset the FDE points to.
    NoSuchCie,
    /// The CIE carries no `R` augmentation, so it has no pointer format.
    NoPointerFormat,
    /// The CIE carries no `R` augmentation, so it has no pointer application.
    NoPointerApplication,
}

/// Every way in which `.eh_frame` data is rejected.
#[derive(Debug, Clone, Copy, PartialEq, Eq, Structural)]
pub enum EhFrameError {
    /// A read ran past the end of the section or of the augmentation data.
    UnexpectedEnd,
    /// A LEB128 number does not fit in 64 bits.
    LebOverflow,
    /// A CIE version other than 1.
    UnsupportedVersion(u8),
    /// An augmentation character outside `z`, `eh`, `L`, `P`, `R`.
    UnsupportedAugmentation(u8),
    /// A pointer-format nibble that names no format.
    PointerFormatDecode(u8),
    /// A pointer-application nibble that names no application.
    PointerApplicationDecode(u8),
    /// A pointer format this parser does not decode.
    UnsupportedPointerFormat(EhPointerFormat),
    /// A pointer application this parser does not apply.
    UnsupportedPointerApplication(EhPointerApplication),
    /// A pointer-sized field for a pointer size other than 4.
    UnsupportedPointerSize(usize),
    /// An FDE whose CIE is missing or lacks what the FDE needs.
    InvalidCie(u64, CieFault),
    /// An entry whose fields run past its declared length (the entry's offset).
    EntryOverrun(u64),
}

/// Common Information Entry: the decoding context shared by FDEs.
#[derive(Debug, Clone, Copy, PartialEq, Eq, Structural)]
pub struct Cie {
    pub fde_pointer_format: Option<EhPointerFormat>,
    pub fde_pointer_application: Option<EhPointerApplication>,
}

/// Frame Description Entry: the code range `[begin, begin + length)` of one function.
#[derive(Debug, Clone, Copy, PartialEq, Eq, Structural)]
pub struct Fde {
    pub begin: u64,
    pub length: u64,
}

/// One entry of the table: a CIE with its section offset, or an FDE.
#[derive(Debug, Clone, Copy, PartialEq, Eq, Structural)]
pub enum EhFrameEntry {
    Cie(u64, Cie),
    Fde(Fde),
}

/// The little-endian 32-bit value of the four bytes of `d` at `p`.
pub open spec fn le_u32(d: Seq<u8>, p: int) -> nat {
    d[p] as nat + 0x100 * d[p + 1] as nat + 0x1_0000 * d[p + 2] as nat + 0x100_0000 * d[p + 3] as nat
}

/// The little-endian 64-bit value of the eight bytes of `d` at `p`.
pub open spec fn le_u64(d: Seq<u8>, p: int) -> nat {
    le_u32(d, p) + 0x1_0000_0000 * le_u32(d, p + 4)
}

/// A result read at a position, as a spec value with an integer position.
pub open spec fn read_result<T>(r: Result<(T, usize), EhFrameError>, s: Result<(T, int), EhFrameError>) -> bool {
    match (r, s) {
        (Ok((a, p)), Ok((b, q))) => a == b && p as int == q,
        (Err(e1), Err(e2)) => e1 == e2,
        _ => false,
    }
}

pub open spec fn spec_u8(d: Seq<u8>, p: int) -> Result<(u8, int), EhFrameError> {
    if 0 <= p < d.len() {
        Ok((d[p], p + 1))
    } else {
        Err(EhFrameError::UnexpectedEnd)
    }
}

pub open spec fn spec_u32(d: Seq<u8>, p: int) -> Result<(u32, int), EhFrameError> {
    if 0 <= p && p + 4 <= d.len() {
        Ok((le_u32(d, p) as u32, p + 4))
    } else {
        Err(EhFrameError::UnexpectedEnd)
    }
}

pub open spec fn spec_u64(d: Seq<u8>, p: int) -> Result<(u64, int), EhFrameError> {
    if 0 <= p && p + 8 <= d.len() {
        Ok((le_u64(d, p) as u64, p + 8))
    } else {
        Err(EhFrameError::UnexpectedEnd)
    }
}

fn read_u8(data: &[u8], pos: usize) -> (r: Result<(u8, usize), EhFrameError>)
    ensures
        read_result(r, spec_u8(data@, pos as int)),
{
    if pos < data.len() {
        Ok((data[pos], pos + 1))
    } else {
        Err(EhFrameError::UnexpectedEnd)
    }
}

/// The four bytes at `pos`, which the caller has checked are there.
fn le_u32_at(data: &[u8], pos: usize) -> (v: u32)
    requires
        pos + 4 <= data@.len(),
    ensures
        v as nat == le_u32(data@, pos as int),
{
    let b0 = data[pos] as u64;
    let b1 = data[pos + 1] as u64;
    let b2 = data[pos + 2] as u64;
    let b3 = data[pos + 3] as u64;
    let v: u64 = b0 + 0x100 * b1 + 0x1_0000 * b2 + 0x100_0000 * b3;
    v as u32
}

fn read_u32(data: &[u8], pos: usize) -> (r: Result<(u32, usize), EhFrameError>)
    ensures
        read_result(r, spec_u32(data@, pos as int)),
{
    if pos <= data.len() && 4 <= data.len() - pos {
        Ok((le_u32_at(data, pos), pos + 4))
    } else {
        Err(EhFrameError::UnexpectedEnd)
    }
}

fn read_u64(data: &[u8], pos: usize) -> (r: Result<(u64, usize), EhFrameError>)
    ensures
        read_result(r, spec_u64(data@, pos as int)),
{
    if pos <= data.len() && 8 <= data.len() - pos {
        let lo = le_u32_at(data, pos) as u64;
        let hi = le_u32_at(data, pos + 4) as u64;
        assert(hi * 0x1_0000_0000 <= 0xFFFF_FFFF * 0x1_0000_0000) by (nonlinear_arith)
            requires hi <= 0xFFFF_FFFF;
        Ok((lo + 0x1_0000_0000 * hi, pos + 8))
    } else {
        Err(EhFrameError::UnexpectedEnd)
    }
}


/// Index of the first byte at or after `i` whose continuation bit is clear.
pub open spec fn leb_last(d: Seq<u8>, i: int) -> Option<int>
    decreases d.len() - i,
{
    if i < 0 || i >= d.len() {
        None
    } else if d[i] < 0x80 {
        Some(i)
    } else {
        leb_last(d, i + 1)
    }
}

/// The unsigned LEB128 value of the `n` bytes of `d` at `p`.
pub open spec fn uleb_value(d: Seq<u8>, p: int, n: nat) -> nat
    decreases n,
{
    if n == 0 {
        0
    } else {
        (d[p] % 0x80) as nat + 0x80 * uleb_value(d, p + 1, (n - 1) as nat)
    }
}

/// An unsigned LEB128 number at `p`: its value and the position after it. A tenth
/// byte may only hold the top bit of a 64-bit value.
pub open spec fn spec_uleb(d: Seq<u8>, p: int) -> Result<(u64, int), EhFrameError> {
    match leb_last(d, p) {
        None => Err(EhFrameError::UnexpectedEnd),
        Some(t) => if t - p < 9 || (t - p == 9 && d[t] <= 1) {
            Ok((uleb_value(d, p, (t - p + 1) as nat) as u64, t + 1))
        } else {
            Err(EhFrameError::LebOverflow)
        },
    }
}

/// A signed LEB128 number at `p`, of which only its extent matters here. A tenth
/// byte may only hold the sign of a 64-bit value.
pub open spec fn spec_sleb_skip(d: Seq<u8>, p: int) -> Result<((), int), EhFrameError> {
    match leb_last(d, p) {
        None => Err(EhFrameError::UnexpectedEnd),
        Some(t) => if t - p < 9 || (t - p == 9 && (d[t] == 0 || d[t] == 0x7f)) {
            Ok(((), t + 1))
        } else {
            Err(EhFrameError::LebOverflow)
        },
    }
}

/// Relies on `leb128::read::unsigned`: it reads bytes up to the first one without the
/// continuation bit and returns their value; it fails with `IoError` when the bytes run
/// out first and with `Overflow` when the value needs more than 64 bits.
#[verifier::external_body]
fn read_uleb128(data: &[u8], pos: usize) -> (r: Result<(u64, usize), EhFrameError>)
    requires
        pos <= data@.len(),
    ensures
        read_result(r, spec_uleb(data@, pos as int)),
{
    let mut cursor = std::io::Cursor::new(data);
    cursor.set_position(pos as u64);
    match leb128::read::unsigned(&mut cursor) {
        Ok(v) => Ok((v, cursor.position() as usize)),
        Err(leb128::read::Error::IoError(_)) => Err(EhFrameError::UnexpectedEnd),
        Err(leb128::read::Error::Overflow) => Err(EhFrameError::LebOverflow),
    }
}

/// Relies on `leb128::read::signed`: it reads bytes up to the first one without the
/// continuation bit; it fails with `IoError` when the bytes run out first and with
/// `Overflow` when the value needs more than 64 bits. The value itself is not used.
#[verifier::external_body]
fn skip_sleb128(data: &[u8], pos: usize) -> (r: Result<((), usize), EhFrameError>)
    requires
        pos <= data@.len(),
    ensures
        read_result(r, spec_sleb_skip(data@, pos as int)),
{
    let mut cursor = std::io::Cursor::new(data);
    cursor.set_position(pos as u64);
    match leb128::read::signed(&mut cursor) {
        Ok(_) => Ok(((), cursor.position() as usize)),
        Err(leb128::read::Error::IoError(_)) => Err(EhFrameError::UnexpectedEnd),
        Err(leb128::read::Error::Overflow) => Err(EhFrameError::LebOverflow),
    }
}

/// The pointer format that a low nibble names.
pub open spec fn format_of(n: u8) -> Option<EhPointerFormat> {
    if n == 0x00 {
        Some(EhPointerFormat::DW_EH_PE_absptr)
    } else if n == 0x01 {
        Some(EhPointerFormat::DW_EH_PE_uleb128)
    } else if n == 0x02 {
        Some(EhPointerFormat::DW_EH_PE_udata2)
    } else if n == 0x03 {
        Some(EhPointerFormat::DW_EH_PE_udata4)
    } else if n == 0x04 {
        Some(EhPointerFormat::DW_EH_PE_udata8)
    } else if n == 0x09 {
        Some(EhPointerFormat::DW_EH_PE_sleb128)
    } else if n == 0x0A {
        Some(EhPointerFormat::DW_EH_PE_sdata2)
    } else if n == 0x0B {
        Some(EhPointerFormat::DW_EH_PE_sdata4)
    } else if n == 0x0C {
        Some(EhPointerFormat::DW_EH_PE_sdata8)
    } else {
        None
    }
}

/// The pointer application that a high nibble names.
pub open spec fn application_of(n: u8) -> Option<EhPointerApplication> {
    if n == 0x10 {
        Some(EhPointerApplication::DW_EH_PE_pcrel)
    } else if n == 0x20 {
        Some(EhPointerApplication::DW_EH_PE_textrel)
    } else if n == 0x30 {
        Some(EhPointerApplication::DW_EH_PE_datarel)
    } else if n == 0x40 {
        Some(EhPointerApplication::DW_EH_PE_funcrel)
    } else if n == 0x50 {
        Some(EhPointerApplication::DW_EH_PE_aligned)
    } else {
        None
    }
}

impl EhPointerFormat {
    pub fn from_nibble(n: u8) -> (r: Option<EhPointerFormat>)
        ensures
            r == format_of(n),
    {
        if n == 0x00 {
            Some(EhPointerFormat::DW_EH_PE_absptr)
        } else if n == 0x01 {
            Some(EhPointerFormat::DW_EH_PE_uleb128)
        } else if n == 0x02 {
            Some(EhPointerFormat::DW_EH_PE_udata2)
        } else if n == 0x03 {
            Some(EhPointerFormat::DW_EH_PE_udata4)
        } else if n == 0x04 {
            Some(EhPointerFormat::DW_EH_PE_udata8)
        } else if n == 0x09 {
            Some(EhPointerFormat::DW_EH_PE_sleb128)
        } else if n == 0x0A {
            Some(EhPointerFormat::DW_EH_PE_sdata2)
        } else if n == 0x0B {
            Some(EhPointerFormat::DW_EH_PE_sdata4)
        } else if n == 0x0C {
            Some(EhPointerFormat::DW_EH_PE_sdata8)
        } else {
            None
        }
    }
}

impl EhPointerApplication {
    pub fn from_nibble(n: u8) -> (r: Option<EhPointerApplication>)
        ensures
            r == application_of(n),
    {
        if n == 0x10 {
            Some(EhPointerApplication::DW_EH_PE_pcrel)
        } else if n == 0x20 {
            Some(EhPointerApplication::DW_EH_PE_textrel)
        } else if n == 0x30 {
            Some(EhPointerApplication::DW_EH_PE_datarel)
        } else if n == 0x40 {
            Some(EhPointerApplication::DW_EH_PE_funcrel)
        } else if n == 0x50 {
            Some(EhPointerApplication::DW_EH_PE_aligned)
        } else {
            None
        }
    }
}

/// A 32-bit value read as signed and widened to 64 bits, as two's complement.
pub open spec fn sign_extend32(v: u32) -> u64 {
    if v < 0x8000_0000 {
        v as u64
    } else {
        (v + 0xFFFF_FFFF_0000_0000) as u64
    }
}

/// An encoded pointer at `p`, before its application.
pub open spec fn spec_encoded(d: Seq<u8>, p: int, format: EhPointerFormat, pointer_size: usize) -> Result<(u64, int), EhFrameError> {
    match format {
        EhPointerFormat::DW_EH_PE_absptr => if pointer_size == 4 {
            match spec_u32(d, p) {
                Ok((v, q)) => Ok((v as u64, q)),
                Err(e) => Err(e),
            }
        } else {
            Err(EhFrameError::UnsupportedPointerSize(pointer_size))
        },
        EhPointerFormat::DW_EH_PE_sdata4 => match spec_u32(d, p) {
            Ok((v, q)) => Ok((sign_extend32(v), q)),
            Err(e) => Err(e),
        },
        _ => Err(EhFrameError::UnsupportedPointerFormat(format)),
    }
}

/// An encoded pointer at `p`, applied: a pc-relative value is added to the load
/// address of the encoded value itself, wrapping.
pub open spec fn spec_applied(
    d: Seq<u8>,
    p: int,
    format: EhPointerFormat,
    application: EhPointerApplication,
    pointer_size: usize,
    base_address: u64,
) -> Result<(u64, int), EhFrameError> {
    match spec_encoded(d, p, format, pointer_size) {
        Err(e) => Err(e),
        Ok((v, q)) => match application {
            EhPointerApplication::DW_EH_PE_pcrel => Ok((base_address.wrapping_add(p as u64).wrapping_add(v), q)),
            _ => Err(EhFrameError::UnsupportedPointerApplication(application)),
        },
    }
}

fn read_encoded_no_application(data: &[u8], pos: usize, format: EhPointerFormat, pointer_size: usize) -> (r: Result<(u64, usize), EhFrameError>)
    ensures
        read_result(r, spec_encoded(data@, pos as int, format, pointer_size)),
{
    match format {
        EhPointerFormat::DW_EH_PE_absptr => {
            if pointer_size == 4 {
                let (v, q) = read_u32(data, pos)?;
                Ok((v as u64, q))
            } else {
                Err(EhFrameError::UnsupportedPointerSize(pointer_size))
            }
        },
        EhPointerFormat::DW_EH_PE_sdata4 => {
            let (v, q) = read_u32(data, pos)?;
            let w: u64 = if v < 0x8000_0000 {
                v as u64
            } else {
                v as u64 + 0xFFFF_FFFF_0000_0000
            };
            Ok((w, q))
        },
        _ => Err(EhFrameError::UnsupportedPointerFormat(format)),
    }
}

fn read_encoded(
    data: &[u8],
    pos: usize,
    format: EhPointerFormat,
    application: EhPointerApplication,
    pointer_size: usize,
    base_address: u64,
) -> (r: Result<(u64, usize), EhFrameError>)
    ensures
        read_result(r, spec_applied(data@, pos as int, format, application, pointer_size, base_address)),
{
    let (unapplied, q) = read_encoded_no_application(data, pos, format, pointer_size)?;
    match application {
        EhPointerApplication::DW_EH_PE_pcrel => Ok((base_address.wrapping_add(pos as u64).wrapping_add(unapplied), q)),
        _ => Err(EhFrameError::UnsupportedPointerApplication(application)),
    }
}


/// Augmentation characters, as the bytes that spell them.
pub const AUG_Z: u8 = 0x7a;
pub const AUG_E: u8 = 0x65;
pub const AUG_H: u8 = 0x68;
pub const AUG_L: u8 = 0x4c;
pub const AUG_P: u8 = 0x50;
pub const AUG_R: u8 = 0x52;

/// Index of the first NUL byte at or after `i`.
pub open spec fn nul_at_or_after(d: Seq<u8>, i: int) -> Option<int>
    decreases d.len() - i,
{
    if i < 0 || i >= d.len() {
        None
    } else if d[i] == 0 {
        Some(i)
    } else {
        nul_at_or_after(d, i + 1)
    }
}

/// The augmentation string holds "eh".
pub open spec fn has_eh(aug: Seq<u8>) -> bool {
    exists|i: int| 0 <= i && i + 1 < aug.len() && #[trigger] aug[i] == AUG_E && aug[i + 1] == AUG_H
}

pub open spec fn cie_without_pointer_encoding() -> Cie {
    Cie { fde_pointer_format: None, fde_pointer_application: None }
}

/// Reads the augmentation data `ad` from `q` on, as the augmentation string `aug`
/// from its `i`-th character on dictates.
pub open spec fn spec_augmentation(aug: Seq<u8>, i: int, ad: Seq<u8>, q: int, pointer_size: usize, cie: Cie) -> Result<Cie, EhFrameError>
    decreases aug.len() - i,
{
    if i < 0 || i >= aug.len() {
        Ok(cie)
    } else {
        let c = aug[i];
        if c == AUG_Z {
            spec_augmentation(aug, i + 1, ad, q, pointer_size, cie)
        } else if c == AUG_E {
            if i + 1 < aug.len() && aug[i + 1] == AUG_H {
                spec_augmentation(aug, i + 2, ad, q, pointer_size, cie)
            } else {
                Err(EhFrameError::UnsupportedAugmentation(c))
            }
        } else if c == AUG_L {
            match spec_u8(ad, q) {
                Err(e) => Err(e),
                Ok((_, q1)) => spec_augmentation(aug, i + 1, ad, q1, pointer_size, cie),
            }
        } else if c == AUG_P {
            match spec_u8(ad, q) {
                Err(e) => Err(e),
                Ok((b, q1)) => match format_of(b & 0x0F) {
                    None => Err(EhFrameError::PointerFormatDecode(b & 0x0F)),
                    Some(f) => match spec_encoded(ad, q1, f, pointer_size) {
                        Err(e) => Err(e),
                        Ok((_, q2)) => spec_augmentation(aug, i + 1, ad, q2, pointer_size, cie),
                    },
                },
            }
        } else if c == AUG_R {
            match spec_u8(ad, q) {
                Err(e) => Err(e),
                Ok((b, q1)) => match format_of(b & 0x0F) {
                    None => Err(EhFrameError::PointerFormatDecode(b & 0x0F)),
                    Some(f) => match application_of(b & 0xF0) {
                        None => Err(EhFrameError::PointerApplicationDecode(b & 0xF0)),
                        Some(a) => spec_augmentation(aug, i + 1, ad, q1, pointer_size,
                            Cie { fde_pointer_format: Some(f), fde_pointer_application: Some(a) }),
                    },
                },
            }
        } else {
            Err(EhFrameError::UnsupportedAugmentation(c))
        }
    }
}

/// The "eh" data field at `p`, present iff the augmentation string holds "eh":
/// the position after it.
pub open spec fn spec_eh_data(d: Seq<u8>, p: int, aug: Seq<u8>, pointer_size: usize) -> Result<((), int), EhFrameError> {
    if has_eh(aug) {
        if pointer_size == 4 {
            match spec_u32(d, p) {
                Ok((_, q)) => Ok(((), q)),
                Err(e) => Err(e),
            }
        } else {
            Err(EhFrameError::UnsupportedPointerSize(pointer_size))
        }
    } else {
        Ok(((), p))
    }
}

/// The fields of a CIE after its version byte: from the augmentation string at `p`.
pub open spec fn spec_cie_fields(d: Seq<u8>, p: int, pointer_size: usize) -> Result<(Cie, int), EhFrameError> {
    match nul_at_or_after(d, p) {
        None => Err(EhFrameError::UnexpectedEnd),
        Some(z) => {
            let aug = d.subrange(p, z);
            match spec_eh_data(d, z + 1, aug, pointer_size) {
                Err(e) => Err(e),
                Ok((_, p3)) => match spec_uleb(d, p3) {
                    Err(e) => Err(e),
                    Ok((_, p4)) => match spec_sleb_skip(d, p4) {
                        Err(e) => Err(e),
                        Ok((_, p5)) => match spec_u8(d, p5) {
                            Err(e) => Err(e),
                            Ok((_, p6)) => if aug.len() > 0 && aug[0] == AUG_Z {
                                match spec_uleb(d, p6) {
                                    Err(e) => Err(e),
                                    Ok((n, p7)) => if p7 + n > d.len() {
                                        Err(EhFrameError::UnexpectedEnd)
                                    } else {
                                        match spec_augmentation(aug, 0, d.subrange(p7, p7 + n), 0, pointer_size, cie_without_pointer_encoding()) {
                                            Err(e) => Err(e),
                                            Ok(cie) => Ok((cie, p7 + n)),
                                        }
                                    },
                                }
                            } else {
                                Ok((cie_without_pointer_encoding(), p6))
                            },
                        },
                    },
                },
            }
        },
    }
}

/// A CIE whose version byte is at `p`: the CIE and the position after its
/// augmentation data.
pub open spec fn spec_cie(d: Seq<u8>, p: int, pointer_size: usize) -> Result<(Cie, int), EhFrameError> {
    match spec_u8(d, p) {
        Err(e) => Err(e),
        Ok((version, p1)) => if version != 1 {
            Err(EhFrameError::UnsupportedVersion(version))
        } else {
            spec_cie_fields(d, p1, pointer_size)
        },
    }
}

proof fn lemma_nul_at_or_after(d: Seq<u8>, i: int)
    ensures
        nul_at_or_after(d, i) matches Some(z) ==> i <= z < d.len() && d[z] == 0,
    decreases d.len() - i,
{
    if 0 <= i < d.len() && d[i] != 0 {
        lemma_nul_at_or_after(d, i + 1);
    }
}

proof fn lemma_leb_last(d: Seq<u8>, i: int)
    ensures
        leb_last(d, i) matches Some(t) ==> i <= t < d.len() && d[t] < 0x80,
    decreases d.len() - i,
{
    if 0 <= i < d.len() && d[i] >= 0x80 {
        lemma_leb_last(d, i + 1);
    }
}

proof fn lemma_leb_positions(d: Seq<u8>, p: int)
    ensures
        spec_uleb(d, p) matches Ok((_, q)) ==> p < q <= d.len(),
        spec_sleb_skip(d, p) matches Ok((_, q)) ==> p < q <= d.len(),
{
    lemma_leb_last(d, p);
}

fn find_nul(data: &[u8], pos: usize) -> (r: Option<usize>)
    requires
        pos <= data@.len(),
    ensures
        match r {
            None => nul_at_or_after(data@, pos as int) is None,
            Some(z) => nul_at_or_after(data@, pos as int) == Some(z as int) && pos <= z < data@.len(),
        },
{
    proof {
        lemma_nul_at_or_after(data@, pos as int);
    }
    let mut i = pos;
    while i < data.len()
        invariant
            pos <= i <= data@.len(),
            nul_at_or_after(data@, pos as int) == nul_at_or_after(data@, i as int),
        decreases data@.len() - i,
    {
        if data[i] == 0 {
            return Some(i);
        }
        i = i + 1;
    }
    None
}

fn contains_eh(aug: &[u8]) -> (r: bool)
    ensures
        r == has_eh(aug@),
{
    let mut i: usize = 0;
    while aug.len() > 0 && i < aug.len() - 1
        invariant
            i <= aug@.len(),
            forall|k: int| 0 <= k < i ==> !(k + 1 < aug@.len() && #[trigger] aug@[k] == AUG_E && aug@[k + 1] == AUG_H),
        decreases aug@.len() - i,
    {
        if aug[i] == AUG_E && aug[i + 1] == AUG_H {
            return true;
        }
        i = i + 1;
    }
    false
}

fn parse_augmentation(aug: &[u8], ad: &[u8], pointer_size: usize) -> (r: Result<Cie, EhFrameError>)
    ensures
        r == spec_augmentation(aug@, 0, ad@, 0, pointer_size, cie_without_pointer_encoding()),
{
    let mut cie = Cie { fde_pointer_format: None, fde_pointer_application: None };
    let mut i: usize = 0;
    let mut q: usize = 0;
    while i < aug.len()
        invariant
            i <= aug@.len(),
            q <= ad@.len(),
            spec_augmentation(aug@, i as int, ad@, q as int, pointer_size, cie)
                == spec_augmentation(aug@, 0, ad@, 0, pointer_size, cie_without_pointer_encoding()),
        decreases aug@.len() - i,
    {
        let c = aug[i];
        if c == AUG_Z {
            i = i + 1;
        } else if c == AUG_E {
            if i + 1 < aug.len() && aug[i + 1] == AUG_H {
                i = i + 2;
            } else {
                return Err(EhFrameError::UnsupportedAugmentation(c));
            }
        } else if c == AUG_L {
            let (_, q1) = read_u8(ad, q)?;
            q = q1;
            i = i + 1;
        } else if c == AUG_P {
            let (b, q1) = read_u8(ad, q)?;
            let f = match EhPointerFormat::from_nibble(b & 0x0F) {
                Some(f) => f,
                None => return Err(EhFrameError::PointerFormatDecode(b & 0x0F)),
            };
            let (_, q2) = read_encoded_no_application(ad, q1, f, pointer_size)?;
            q = q2;
            i = i + 1;
        } else if c == AUG_R {
            let (b, q1) = read_u8(ad, q)?;
            let f = match EhPointerFormat::from_nibble(b & 0x0F) {
                Some(f) => f,
                None => return Err(EhFrameError::PointerFormatDecode(b & 0x0F)),
            };
            let a = match EhPointerApplication::from_nibble(b & 0xF0) {
                Some(a) => a,
                None => return Err(EhFrameError::PointerApplicationDecode(b & 0xF0)),
            };
            cie = Cie { fde_pointer_format: Some(f), fde_pointer_application: Some(a) };
            q = q1;
            i = i + 1;
        } else {
            return Err(EhFrameError::UnsupportedAugmentation(c));
        }
    }
    Ok(cie)
}

impl Cie {
    /// Parses a CIE whose version byte is at `pos`; returns it with the position
    /// after its augmentation data.
    fn parse(data: &[u8], pos: usize, pointer_size: usize) -> (r: Result<(Cie, usize), EhFrameError>)
        ensures
            read_result(r, spec_cie(data@, pos as int, pointer_size)),
    {
        let (version, p1) = read_u8(data, pos)?;
        if version != 1 {
            return Err(EhFrameError::UnsupportedVersion(version));
        }
        let z = match find_nul(data, p1) {
            Some(z) => z,
            None => return Err(EhFrameError::UnexpectedEnd),
        };
        let aug = vstd::slice::slice_subrange(data, p1, z);
        let len = data.len();
        assert(z < len);
        let p3 = if contains_eh(aug) {
            if pointer_size == 4 {
                let (_, q) = read_u32(data, z + 1)?;
                q
            } else {
                return Err(EhFrameError::UnsupportedPointerSize(pointer_size));
            }
        } else {
            z + 1
        };
        let (_, p4) = read_uleb128(data, p3)?;
        proof {
            lemma_leb_positions(data@, p3 as int);
        }
        let (_, p5) = skip_sleb128(data, p4)?;
        proof {
            lemma_leb_positions(data@, p4 as int);
        }
        let (_, p6) = read_u8(data, p5)?;
        if aug.len() > 0 && aug[0] == AUG_Z {
            let (n, p7) = read_uleb128(data, p6)?;
            proof {
                lemma_leb_positions(data@, p6 as int);
            }
            if n > (data.len() - p7) as u64 {
                return Err(EhFrameError::UnexpectedEnd);
            }
            let end = p7 + n as usize;
            let ad = vstd::slice::slice_subrange(data, p7, end);
            let cie = parse_augmentation(aug, ad, pointer_size)?;
            Ok((cie, end))
        } else {
            Ok((Cie { fde_pointer_format: None, fde_pointer_application: None }, p6))
        }
    }
}


/// The section offset of the CIE that an FDE names: the position of its CIE
/// pointer (`p - 4`, `p` being the position after it) less the pointer's value.
pub open spec fn cie_offset(p: int, cie_pointer: u32) -> u64 {
    (p as u64).wrapping_sub(4).wrapping_sub(cie_pointer as u64)
}

/// An FDE whose CIE pointer `cie_pointer` ends at `p`, with the CIEs seen so far
/// keyed by section offset: the FDE and the position after its address range.
pub open spec fn spec_fde(
    d: Seq<u8>,
    p: int,
    cie_pointer: u32,
    cies: Map<u64, Cie>,
    pointer_size: usize,
    base_address: u64,
) -> Result<(Fde, int), EhFrameError> {
    let offset = cie_offset(p, cie_pointer);
    if p - 4 - cie_pointer < 0 || !cies.contains_key(offset) {
        Err(EhFrameError::InvalidCie(offset, CieFault::NoSuchCie))
    } else {
        let cie = cies[offset];
        match cie.fde_pointer_format {
            None => Err(EhFrameError::InvalidCie(offset, CieFault::NoPointerFormat)),
            Some(format) => match cie.fde_pointer_application {
                None => Err(EhFrameError::InvalidCie(offset, CieFault::NoPointerApplication)),
                Some(application) => match spec_applied(d, p, format, application, pointer_size, base_address) {
                    Err(e) => Err(e),
                    Ok((begin, q)) => if pointer_size == 4 {
                        match spec_u32(d, q) {
                            Err(e) => Err(e),
                            Ok((length, q1)) => Ok((Fde { begin, length: length as u64 }, q1)),
                        }
                    } else {
                        Err(EhFrameError::UnsupportedPointerSize(pointer_size))
                    },
                },
            },
        }
    }
}

/// The declared length of the entry at `p` and the position where its content
/// starts; a 32-bit length of all ones announces a 64-bit one.
pub open spec fn spec_entry_length(d: Seq<u8>, p: int) -> Result<(u64, int), EhFrameError> {
    let short = le_u32(d, p) as u32;
    if short == 0xffff_ffff {
        spec_u64(d, p + 4)
    } else {
        Ok((short as u64, p + 4))
    }
}

/// The content of the entry at `p` whose content starts at `start`: the entry and
/// the position after the fields that were read.
pub open spec fn spec_entry_body(
    d: Seq<u8>,
    p: int,
    start: int,
    cies: Map<u64, Cie>,
    pointer_size: usize,
    base_address: u64,
) -> Result<(EhFrameEntry, int), EhFrameError> {
    match spec_u32(d, start) {
        Err(e) => Err(e),
        Ok((id, p1)) => if id == 0 {
            match spec_cie(d, p1, pointer_size) {
                Err(e) => Err(e),
                Ok((cie, q)) => Ok((EhFrameEntry::Cie(p as u64, cie), q)),
            }
        } else {
            match spec_fde(d, p1, id, cies, pointer_size, base_address) {
                Err(e) => Err(e),
                Ok((fde, q)) => Ok((EhFrameEntry::Fde(fde), q)),
            }
        },
    }
}

/// The entry at `p`, with the position of the next one; `None` at the end of the
/// table, which is a zero length or fewer than four bytes left. Past the end of the
/// data the next position is the end, where the table ends too.
pub open spec fn spec_entry(
    d: Seq<u8>,
    p: int,
    cies: Map<u64, Cie>,
    pointer_size: usize,
    base_address: u64,
) -> Result<Option<(EhFrameEntry, int)>, EhFrameError> {
    if p < 0 || p + 4 > d.len() {
        Ok(None)
    } else {
        match spec_entry_length(d, p) {
            Err(e) => Err(e),
            Ok((length, start)) => if length == 0 {
                Ok(None)
            } else {
                match spec_entry_body(d, p, start, cies, pointer_size, base_address) {
                    Err(e) => Err(e),
                    Ok((entry, q)) => if q - start > length {
                        Err(EhFrameError::EntryOverrun(p as u64))
                    } else if start + length > d.len() {
                        Ok(Some((entry, d.len() as int)))
                    } else {
                        Ok(Some((entry, start + length)))
                    },
                }
            },
        }
    }
}

/// The FDEs of the table from the entry at `p` on, in order.
pub open spec fn spec_fdes_from(
    d: Seq<u8>,
    p: int,
    cies: Map<u64, Cie>,
    pointer_size: usize,
    base_address: u64,
) -> Result<Seq<Fde>, EhFrameError>
    decreases d.len() - p,
{
    match spec_entry(d, p, cies, pointer_size, base_address) {
        Err(e) => Err(e),
        Ok(None) => Ok(Seq::empty()),
        Ok(Some((entry, next))) => if next <= p || next > d.len() {
            Ok(Seq::empty())
        } else {
            match entry {
                EhFrameEntry::Cie(offset, cie) => spec_fdes_from(d, next, cies.insert(offset, cie), pointer_size, base_address),
                EhFrameEntry::Fde(fde) => match spec_fdes_from(d, next, cies, pointer_size, base_address) {
                    Err(e) => Err(e),
                    Ok(rest) => Ok(seq![fde] + rest),
                },
            }
        },
    }
}

/// The FDEs of a whole `.eh_frame` section, in order.
pub open spec fn spec_fdes(d: Seq<u8>, pointer_size: usize, base_address: u64) -> Result<Seq<Fde>, EhFrameError> {
    spec_fdes_from(d, 0, Map::empty(), pointer_size, base_address)
}

proof fn lemma_entry_advances(d: Seq<u8>, p: int, cies: Map<u64, Cie>, pointer_size: usize, base_address: u64)
    ensures
        spec_entry(d, p, cies, pointer_size, base_address) matches Ok(Some((_, next))) ==> next > p,
{
}

impl Fde {
    /// Parses an FDE whose CIE pointer `cie_pointer` ends at `pos`.
    fn parse(
        data: &[u8],
        pos: usize,
        cie_pointer: u32,
        cies: &HashMap<u64, Cie>,
        pointer_size: usize,
        base_address: u64,
    ) -> (r: Result<(Fde, usize), EhFrameError>)
        ensures
            read_result(r, spec_fde(data@, pos as int, cie_pointer, cies@, pointer_size, base_address)),
    {
        let offset = (pos as u64).wrapping_sub(4).wrapping_sub(cie_pointer as u64);
        if (pos as u64) < 4 || (pos as u64) - 4 < cie_pointer as u64 {
            return Err(EhFrameError::InvalidCie(offset, CieFault::NoSuchCie));
        }
        let cie = match cies.get(&offset) {
            Some(c) => *c,
            None => return Err(EhFrameError::InvalidCie(offset, CieFault::NoSuchCie)),
        };
        let format = match cie.fde_pointer_format {
            Some(f) => f,
            None => return Err(EhFrameError::InvalidCie(offset, CieFault::NoPointerFormat)),
        };
        let application = match cie.fde_pointer_application {
            Some(a) => a,
            None => return Err(EhFrameError::InvalidCie(offset, CieFault::NoPointerApplication)),
        };
        let (begin, q) = read_encoded(data, pos, format, application, pointer_size, base_address)?;
        if pointer_size != 4 {
            return Err(EhFrameError::UnsupportedPointerSize(pointer_size));
        }
        let (length, q1) = read_u32(data, q)?;
        Ok((Fde { begin, length: length as u64 }, q1))
    }
}

fn parse_entry_body(
    data: &[u8],
    pos: usize,
    start: usize,
    pointer_size: usize,
    cies: &HashMap<u64, Cie>,
    base_address: u64,
) -> (r: Result<(EhFrameEntry, usize), EhFrameError>)
    ensures
        read_result(r, spec_entry_body(data@, pos as int, start as int, cies@, pointer_size, base_address)),
{
    let (id, p1) = read_u32(data, start)?;
    if id == 0 {
        let (cie, q) = Cie::parse(data, p1, pointer_size)?;
        Ok((EhFrameEntry::Cie(pos as u64, cie), q))
    } else {
        let (fde, q) = Fde::parse(data, p1, id, cies, pointer_size, base_address)?;
        Ok((EhFrameEntry::Fde(fde), q))
    }
}

/// Parses the entry at `pos`: the entry and the position of the next one, or `None`
/// at the end of the table.
fn parse_eh_frame_entry(
    data: &[u8],
    pos: usize,
    pointer_size: usize,
    cies: &HashMap<u64, Cie>,
    base_address: u64,
) -> (r: Result<Option<(EhFrameEntry, usize)>, EhFrameError>)
    requires
        pos <= data@.len(),
    ensures
        match (r, spec_entry(data@, pos as int, cies@, pointer_size, base_address)) {
            (Ok(None), Ok(None)) => true,
            (Ok(Some((e1, n1))), Ok(Some((e2, n2)))) => e1 == e2 && n1 == n2,
            (Err(e1), Err(e2)) => e1 == e2,
            _ => false,
        },
{
    if data.len() - pos < 4 {
        return Ok(None);
    }
    let short = le_u32_at(data, pos);
    let (length, start) = if short == 0xffff_ffff {
        read_u64(data, pos + 4)?
    } else {
        (short as u64, pos + 4)
    };
    if length == 0 {
        return Ok(None);
    }
    let (entry, q) = parse_entry_body(data, pos, start, pointer_size, cies, base_address)?;
    if q >= start && (q - start) as u64 > length {
        return Err(EhFrameError::EntryOverrun(pos as u64));
    }
    let next = if length > (data.len() - start) as u64 {
        data.len()
    } else {
        start + length as usize
    };
    Ok(Some((entry, next)))
}

/// `prefix` followed by the FDEs of a parse, or the parse's error.
pub open spec fn after_prefix(prefix: Seq<Fde>, r: Result<Seq<Fde>, EhFrameError>) -> Result<Seq<Fde>, EhFrameError> {
    match r {
        Ok(rest) => Ok(prefix + rest),
        Err(e) => Err(e),
    }
}

/// Decodes a whole `.eh_frame` section, loaded at `base_address`, into its FDEs in
/// order. CIEs are kept by section offset for the FDEs that follow them.
pub fn get_fdes(data: &[u8], pointer_size: usize, base_address: u64) -> (r: Result<Vec<Fde>, EhFrameError>)
    ensures
        match r {
            Ok(v) => spec_fdes(data@, pointer_size, base_address) == Ok::<Seq<Fde>, EhFrameError>(v@),
            Err(e) => spec_fdes(data@, pointer_size, base_address) == Err::<Seq<Fde>, EhFrameError>(e),
        },
{
    let mut fdes: Vec<Fde> = Vec::new();
    let mut cies: HashMap<u64, Cie> = HashMap::new();
    let mut pos: usize = 0;
    loop
        invariant
            pos <= data@.len(),
            spec_fdes(data@, pointer_size, base_address) == after_prefix(
                fdes@,
                spec_fdes_from(data@, pos as int, cies@, pointer_size, base_address),
            ),
        decreases data@.len() - pos,
    {
        let ghost before = spec_fdes_from(data@, pos as int, cies@, pointer_size, base_address);
        proof {
            lemma_entry_advances(data@, pos as int, cies@, pointer_size, base_address);
        }
        match parse_eh_frame_entry(data, pos, pointer_size, &cies, base_address) {
            Err(e) => {
                return Err(e);
            },
            Ok(None) => {
                assert(fdes@ + Seq::<Fde>::empty() == fdes@);
                return Ok(fdes);
            },
            Ok(Some((entry, next))) => {
                match entry {
                    EhFrameEntry::Cie(offset, cie) => {
                        cies.insert(offset, cie);
                    },
                    EhFrameEntry::Fde(fde) => {
                        let ghost old_fdes = fdes@;
                        fdes.push(fde);
                        proof {
                            match spec_fdes_from(data@, next as int, cies@, pointer_size, base_address) {
                                Ok(rest) => {
                                    assert(old_fdes + (seq![fde] + rest) == fdes@ + rest);
                                },
                                Err(_) => {},
                            }
                        }
                    },
                }
                pos = next;
            },
        }
    }
}

} // verus!
