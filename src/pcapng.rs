//! Pieces of the pcap-ng container format: block types, option TLVs and the
//! section header block, parsed from bytes.
use vstd::prelude::*;

verus! {

/// The block type uniquely identifies a block.
#[derive(Clone, Copy, Debug, PartialEq, Eq, Structural)]
pub enum BlockType {
    SectionHeader,
    InterfaceDescription,
    SimplePacket,
    NameResolution,
    InterfaceStatistic,
    EnhancedPacket,
    SystemJournalExport,
    DecryptionSecretsBlock,
    Custom,
}

/// The number that identifies each block type in a file.
pub open spec fn block_type_code(t: BlockType) -> u32 {
    match t {
        BlockType::SectionHeader => 0x0A0D_0D0A,
        BlockType::InterfaceDescription => 0x0000_0001,
        BlockType::SimplePacket => 0x0000_0003,
        BlockType::NameResolution => 0x0000_0004,
        BlockType::InterfaceStatistic => 0x0000_0005,
        BlockType::EnhancedPacket => 0x0000_0006,
        BlockType::SystemJournalExport => 0x0000_0009,
        BlockType::DecryptionSecretsBlock => 0x0000_000A,
        BlockType::Custom => 0x0000_0BAD,
    }
}

/// The block type with number `value`, or the error for an unknown one.
pub open spec fn block_type_from(value: u32) -> Result<BlockType, Error> {
    if value == 0x0A0D_0D0A {
        Ok(BlockType::SectionHeader)
    } else if value == 1 {
        Ok(BlockType::InterfaceDescription)
    } else if value == 3 {
        Ok(BlockType::SimplePacket)
    } else if value == 4 {
        Ok(BlockType::NameResolution)
    } else if value == 5 {
        Ok(BlockType::InterfaceStatistic)
    } else if value == 6 {
        Ok(BlockType::EnhancedPacket)
    } else if value == 9 {
        Ok(BlockType::SystemJournalExport)
    } else if value == 0xA {
        Ok(BlockType::DecryptionSecretsBlock)
    } else if value == 0xBAD {
        Ok(BlockType::Custom)
    } else {
        Err(Error::Type(value))
    }
}

impl BlockType {
    /// The number of this block type.
    pub fn code(&self) -> (r: u32)
        ensures
            r == block_type_code(*self),
    {
        match self {
            BlockType::SectionHeader => 0x0A0D_0D0A,
            BlockType::InterfaceDescription => 0x0000_0001,
            BlockType::SimplePacket => 0x0000_0003,
            BlockType::NameResolution => 0x0000_0004,
            BlockType::InterfaceStatistic => 0x0000_0005,
            BlockType::EnhancedPacket => 0x0000_0006,
            BlockType::SystemJournalExport => 0x0000_0009,
            BlockType::DecryptionSecretsBlock => 0x0000_000A,
            BlockType::Custom => 0x0000_0BAD,
        }
    }

    /// The block type with number `value`.
    pub fn try_from(value: u32) -> (r: Result<BlockType, Error>)
        ensures
            r == block_type_from(value),
            r matches Ok(t) ==> block_type_code(t) == value,
    {
        if value == 0x0A0D_0D0A {
            Ok(BlockType::SectionHeader)
        } else if value == 1 {
            Ok(BlockType::InterfaceDescription)
        } else if value == 3 {
            Ok(BlockType::SimplePacket)
        } else if value == 4 {
            Ok(BlockType::NameResolution)
        } else if value == 5 {
            Ok(BlockType::InterfaceStatistic)
        } else if value == 6 {
            Ok(BlockType::EnhancedPacket)
        } else if value == 9 {
            Ok(BlockType::SystemJournalExport)
        } else if value == 0xA {
            Ok(BlockType::DecryptionSecretsBlock)
        } else if value == 0xBAD {
            Ok(BlockType::Custom)
        } else {
            Err(Error::Type(value))
        }
    }
}

/// Why parsing failed.
#[derive(Clone, Copy, Debug, PartialEq, Eq, Structural)]
pub enum Error {
    /// Invalid block type.
    Type(u32),
    /// Invalid option type.
    Option(u16),
    /// The input ends before the item does.
    Incomplete,
}

/// Big-endian byte order (network byte order).
pub struct BigEndian;

/// Little-endian byte order.
pub struct LittleEndian;

pub open spec fn be_u16_of(s: Seq<u8>) -> u16 {
    (s[0] as nat * 256 + s[1] as nat) as u16
}

pub open spec fn be_u32_of(s: Seq<u8>) -> u32 {
    (s[0] as nat * 0x100_0000 + s[1] as nat * 0x1_0000 + s[2] as nat * 0x100 + s[3] as nat) as u32
}

pub open spec fn le_u16_of(s: Seq<u8>) -> u16 {
    (s[1] as nat * 256 + s[0] as nat) as u16
}

pub open spec fn le_u32_of(s: Seq<u8>) -> u32 {
    (s[3] as nat * 0x100_0000 + s[2] as nat * 0x1_0000 + s[1] as nat * 0x100 + s[0] as nat) as u32
}

impl BigEndian {
    /// The 16-bit integer the first two bytes hold, and the rest.
    pub fn parse_u16(input: &[u8]) -> (r: Result<(&[u8], u16), Error>)
        ensures
            input@.len() < 2 <==> r is Err,
            r matches Ok((rest, v)) ==> v == be_u16_of(input@) && rest@ == input@.skip(2),
            r matches Err(e) ==> e == Error::Incomplete,
    {
        if input.len() < 2 {
            return Err(Error::Incomplete);
        }
        let v = (input[0] as u16) * 256 + input[1] as u16;
        Ok((vstd::slice::slice_subrange(input, 2, input.len()), v))
    }

    /// The 32-bit integer the first four bytes hold, and the rest.
    pub fn parse_u32(input: &[u8]) -> (r: Result<(&[u8], u32), Error>)
        ensures
            input@.len() < 4 <==> r is Err,
            r matches Ok((rest, v)) ==> v == be_u32_of(input@) && rest@ == input@.skip(4),
            r matches Err(e) ==> e == Error::Incomplete,
    {
        if input.len() < 4 {
            return Err(Error::Incomplete);
        }
        let v = (input[0] as u32) * 0x100_0000 + (input[1] as u32) * 0x1_0000 + (input[2] as u32) * 0x100
            + input[3] as u32;
        Ok((vstd::slice::slice_subrange(input, 4, input.len()), v))
    }
}

impl LittleEndian {
    /// The 16-bit integer the first two bytes hold, and the rest.
    pub fn parse_u16(input: &[u8]) -> (r: Result<(&[u8], u16), Error>)
        ensures
            input@.len() < 2 <==> r is Err,
            r matches Ok((rest, v)) ==> v == le_u16_of(input@) && rest@ == input@.skip(2),
            r matches Err(e) ==> e == Error::Incomplete,
    {
        if input.len() < 2 {
            return Err(Error::Incomplete);
        }
        let v = (input[1] as u16) * 256 + input[0] as u16;
        Ok((vstd::slice::slice_subrange(input, 2, input.len()), v))
    }

    /// The 32-bit integer the first four bytes hold, and the rest.
    pub fn parse_u32(input: &[u8]) -> (r: Result<(&[u8], u32), Error>)
        ensures
            input@.len() < 4 <==> r is Err,
            r matches Ok((rest, v)) ==> v == le_u32_of(input@) && rest@ == input@.skip(4),
            r matches Err(e) ==> e == Error::Incomplete,
    {
        if input.len() < 4 {
            return Err(Error::Incomplete);
        }
        let v = (input[3] as u32) * 0x100_0000 + (input[2] as u32) * 0x1_0000 + (input[1] as u32) * 0x100
            + input[0] as u32;
        Ok((vstd::slice::slice_subrange(input, 4, input.len()), v))
    }
}

/// Round `val` up to a multiple of `alignment`.
pub open spec fn aligned(val: nat, alignment: nat) -> nat {
    ((val + alignment - 1) as nat / alignment) * alignment
}

/// Round `val` up to a multiple of `alignment` (a power of two in the
/// format, though any positive alignment works).
pub fn align(val: usize, alignment: usize) -> (r: usize)
    requires
        alignment > 0,
        val + alignment - 1 <= usize::MAX,
    ensures
        r == aligned(val as nat, alignment as nat),
        r % alignment == 0,
        val <= r < val + alignment,
{
    let q = (val + (alignment - 1)) / alignment;
    let ghost (v, a, qi) = (val as int, alignment as int, q as int);
    assert(qi * a <= v + a - 1 && v <= qi * a && (qi * a) % a == 0) by (nonlinear_arith)
        requires
            qi == (v + a - 1) / a,
            a > 0,
            v >= 0,
    ;
    q * alignment
}

/// Code that specifies the type of an option TLV.
#[derive(Clone, Copy, Debug, PartialEq, Eq, Structural)]
pub enum Code {
    EndOfOpt,
    Comment,
    Hardware,
    OS,
    UserAppl,
    Custom2988,
    Custom2989,
    Custom19372,
    Custom19373,
}

/// The number of each option code.
pub open spec fn code_value(c: Code) -> u16 {
    match c {
        Code::EndOfOpt => 0,
        Code::Comment => 1,
        Code::Hardware => 2,
        Code::OS => 3,
        Code::UserAppl => 4,
        Code::Custom2988 => 2988,
        Code::Custom2989 => 2989,
        Code::Custom19372 => 19372,
        Code::Custom19373 => 19373,
    }
}

/// The option code with number `value`, or the error for an unknown one.
pub open spec fn code_from(value: u16) -> Result<Code, Error> {
    if value == 0 {
        Ok(Code::EndOfOpt)
    } else if value == 1 {
        Ok(Code::Comment)
    } else if value == 2 {
        Ok(Code::Hardware)
    } else if value == 3 {
        Ok(Code::OS)
    } else if value == 4 {
        Ok(Code::UserAppl)
    } else if value == 2988 {
        Ok(Code::Custom2988)
    } else if value == 2989 {
        Ok(Code::Custom2989)
    } else if value == 19372 {
        Ok(Code::Custom19372)
    } else if value == 19373 {
        Ok(Code::Custom19373)
    } else {
        Err(Error::Option(value))
    }
}

impl Code {
    /// The option code with number `value`.
    pub fn try_from(value: u16) -> (r: Result<Code, Error>)
        ensures
            r == code_from(value),
            r matches Ok(c) ==> code_value(c) == value,
    {
        match value {
            0 => Ok(Code::EndOfOpt),
            1 => Ok(Code::Comment),
            2 => Ok(Code::Hardware),
            3 => Ok(Code::OS),
            4 => Ok(Code::UserAppl),
            2988 => Ok(Code::Custom2988),
            2989 => Ok(Code::Custom2989),
            19372 => Ok(Code::Custom19372),
            19373 => Ok(Code::Custom19373),
            _ => Err(Error::Option(value)),
        }
    }

    /// The number of this option code.
    pub fn value(&self) -> (r: u16)
        ensures
            r == code_value(*self),
    {
        match self {
            Code::EndOfOpt => 0,
            Code::Comment => 1,
            Code::Hardware => 2,
            Code::OS => 3,
            Code::UserAppl => 4,
            Code::Custom2988 => 2988,
            Code::Custom2989 => 2989,
            Code::Custom19372 => 19372,
            Code::Custom19373 => 19373,
        }
    }
}

/// An optional field of a block: its code, the length of its value, and the
/// value padded to 32 bits.
#[derive(Debug)]
pub struct BlockOption<'a> {
    pub code: Code,
    pub len: u16,
    pub value: &'a [u8],
}

/// Parse one option TLV: a big-endian code and length, then the value padded
/// to a multiple of four bytes. Returns the rest of the input and the option.
pub fn option(input: &[u8]) -> (r: Result<(&[u8], BlockOption<'_>), Error>)
    ensures
        input@.len() < 4 ==> r == Err::<(&[u8], BlockOption<'_>), Error>(Error::Incomplete),
        input@.len() >= 4 ==> {
            let code = be_u16_of(input@);
            let len = be_u16_of(input@.skip(2));
            let padded = aligned(len as nat, 4) as int;
            if input@.len() < 4 + padded {
                r == Err::<(&[u8], BlockOption<'_>), Error>(Error::Incomplete)
            } else {
                match code_from(code) {
                    Err(e) => r == Err::<(&[u8], BlockOption<'_>), Error>(e),
                    Ok(c) => r matches Ok((rest, o)) && o.code == c && o.len == len && o.value@
                        == input@.subrange(4, 4 + padded) && rest@ == input@.skip(4 + padded),
                }
            }
        },
{
    let (rest, code) = match BigEndian::parse_u16(input) {
        Ok(x) => x,
        Err(e) => return Err(e),
    };
    let (rest, len) = match BigEndian::parse_u16(rest) {
        Ok(x) => x,
        Err(e) => return Err(e),
    };
    assert(rest@ == input@.skip(4));
    assert(input@.skip(2).skip(2) == input@.skip(4));
    let padded = align(len as usize, 4);
    if rest.len() < padded {
        return Err(Error::Incomplete);
    }
    let value = vstd::slice::slice_subrange(rest, 0, padded);
    let after = vstd::slice::slice_subrange(rest, padded, rest.len());
    assert(value@ == input@.subrange(4, 4 + padded));
    assert(after@ == input@.skip(4 + padded));
    let code = match Code::try_from(code) {
        Ok(c) => c,
        Err(e) => return Err(e),
    };
    Ok((after, BlockOption { code, len, value }))
}

/// The magic number a writer stores in its own byte order.
pub const BYTE_ORDER_MAGIC: u32 = 0x1A2B_3C4D;

/// The section header block, which starts each section of a capture file.
#[derive(Debug)]
pub struct SectionHeader<'a> {
    pub block_type: BlockType,
    pub total_length: u32,
    pub byte_order: u32,
    pub major: u16,
    pub minor: u16,
    pub section_length: i64,
    pub options: Option<&'a [u8]>,
    pub total_length_dup: u32,
}

/// Big-endian 64-bit value of eight bytes.
pub open spec fn be_u64_of(s: Seq<u8>) -> nat {
    be_u32_of(s) as nat * 0x1_0000_0000 + be_u32_of(s.skip(4)) as nat
}

/// Parse the fixed fields of a section header block, all big-endian: block
/// type, total length, byte-order magic, major and minor version, and
/// section length. The options are not read.
pub fn section_header(input: &[u8]) -> (r: Result<(&[u8], SectionHeader<'_>), Error>)
    ensures
        input@.len() < 24 <==> r is Err,
        r matches Err(e) ==> e == Error::Incomplete,
        r matches Ok((rest, h)) ==> {
            &&& rest@ == input@.skip(24)
            &&& h.block_type == BlockType::SectionHeader
            &&& h.total_length == be_u32_of(input@.skip(4))
            &&& h.total_length_dup == h.total_length
            &&& h.byte_order == be_u32_of(input@.skip(8))
            &&& h.major == be_u16_of(input@.skip(12))
            &&& h.minor == be_u16_of(input@.skip(14))
            &&& h.section_length as int == (if be_u64_of(input@.skip(16)) < 0x8000_0000_0000_0000 {
                be_u64_of(input@.skip(16)) as int
            } else {
                be_u64_of(input@.skip(16)) as int - 0x1_0000_0000_0000_0000
            })
            &&& h.options is None
        },
{
    if input.len() < 24 {
        return Err(Error::Incomplete);
    }
    let (rest, _) = match BigEndian::parse_u32(input) {
        Ok(x) => x,
        Err(e) => return Err(e),
    };
    let (rest, total_length) = match BigEndian::parse_u32(rest) {
        Ok(x) => x,
        Err(e) => return Err(e),
    };
    let (rest, byte_order) = match BigEndian::parse_u32(rest) {
        Ok(x) => x,
        Err(e) => return Err(e),
    };
    let (rest, major) = match BigEndian::parse_u16(rest) {
        Ok(x) => x,
        Err(e) => return Err(e),
    };
    let (rest, minor) = match BigEndian::parse_u16(rest) {
        Ok(x) => x,
        Err(e) => return Err(e),
    };
    let (rest2, hi) = match BigEndian::parse_u32(rest) {
        Ok(x) => x,
        Err(e) => return Err(e),
    };
    let (rest3, lo) = match BigEndian::parse_u32(rest2) {
        Ok(x) => x,
        Err(e) => return Err(e),
    };
    assert(input@.skip(4).skip(4) == input@.skip(8));
    assert(input@.skip(8).skip(4) == input@.skip(12));
    assert(input@.skip(12).skip(2) == input@.skip(14));
    assert(input@.skip(14).skip(2) == input@.skip(16));
    assert(input@.skip(16).skip(4) == input@.skip(20));
    assert(input@.skip(20).skip(4) == input@.skip(24));
    let raw: u64 = (hi as u64) * 0x1_0000_0000 + lo as u64;
    let section_length: i64 = if raw < 0x8000_0000_0000_0000 {
        raw as i64
    } else {
        (raw - 0x8000_0000_0000_0000) as i64 - 0x4000_0000_0000_0000 - 0x4000_0000_0000_0000
    };
    Ok((
        rest3,
        SectionHeader {
            block_type: BlockType::SectionHeader,
            total_length,
            byte_order,
            major,
            minor,
            section_length,
            options: None,
            total_length_dup: total_length,
        },
    ))
}

} // verus!
