//! The instruction set and the binary layout of a bytecode module.
//!
//! Instruction layouts by opcode family:
//! - move-like (`Copy`, `Move`): `[OPCODE] [DEST] [ORIGIN]`
//! - arithmetic-like (`Add`, `Sub`): `[OPCODE] [DEST] [ARG ORIGINS]`
//! - control-transfer-like (`Goto`, `Call`): `[OPCODE] [ARGS]`
use vstd::prelude::*;

use crate::error::VmError;

verus! {

/// The opcodes of the base convention.
#[derive(Clone, Copy, PartialEq, Eq, Debug, Structural)]
pub enum Opcode {
    Nop,
    Copy,
    Move,
    Add,
    Sub,
    Goto,
    Call,
}

/// The byte of an opcode: the family in the top five bits, the three
/// variant bits zero.
pub open spec fn spec_opcode_byte(op: Opcode) -> u8 {
    match op {
        Opcode::Nop => 0b00001_000,
        Opcode::Copy => 0b00010_000,
        Opcode::Move => 0b00011_000,
        Opcode::Add => 0b00100_000,
        Opcode::Sub => 0b00101_000,
        Opcode::Goto => 0b00110_000,
        Opcode::Call => 0b00111_000,
    }
}

/// The opcode that a byte encodes, if any.
pub open spec fn spec_opcode_of(byte: u8) -> Option<Opcode> {
    if byte == 0b00001_000 {
        Some(Opcode::Nop)
    } else if byte == 0b00010_000 {
        Some(Opcode::Copy)
    } else if byte == 0b00011_000 {
        Some(Opcode::Move)
    } else if byte == 0b00100_000 {
        Some(Opcode::Add)
    } else if byte == 0b00101_000 {
        Some(Opcode::Sub)
    } else if byte == 0b00110_000 {
        Some(Opcode::Goto)
    } else if byte == 0b00111_000 {
        Some(Opcode::Call)
    } else {
        None
    }
}

/// The mnemonic of an opcode.
pub open spec fn spec_mnemonic(op: Opcode) -> Seq<char> {
    match op {
        Opcode::Nop => "NOP"@,
        Opcode::Copy => "COPY"@,
        Opcode::Move => "MOVE"@,
        Opcode::Add => "ADD"@,
        Opcode::Sub => "SUB"@,
        Opcode::Goto => "GOTO"@,
        Opcode::Call => "CALL"@,
    }
}

/// The canonical table of (opcode, byte, mnemonic) that decoding, encoding
/// and naming all consult.
pub open spec fn spec_opcode_table() -> Seq<(Opcode, u8, &'static str)> {
    seq![
        (Opcode::Nop, 0b00001_000u8, "NOP"),
        (Opcode::Copy, 0b00010_000u8, "COPY"),
        (Opcode::Move, 0b00011_000u8, "MOVE"),
        (Opcode::Add, 0b00100_000u8, "ADD"),
        (Opcode::Sub, 0b00101_000u8, "SUB"),
        (Opcode::Goto, 0b00110_000u8, "GOTO"),
        (Opcode::Call, 0b00111_000u8, "CALL"),
    ]
}

/// Every opcode appears in the table, and each entry holds the byte and
/// the mnemonic of its opcode.
proof fn lemma_opcode_table_complete(op: Opcode)
    ensures
        exists|i: int|
            0 <= i < spec_opcode_table().len() && (#[trigger] spec_opcode_table()[i]).0 == op,
        forall|i: int|
            0 <= i < spec_opcode_table().len() ==> (#[trigger] spec_opcode_table()[i]).1
                == spec_opcode_byte(spec_opcode_table()[i].0) && spec_opcode_table()[i].2@
                == spec_mnemonic(spec_opcode_table()[i].0),
{
    let t = spec_opcode_table();
    let i: int = match op {
        Opcode::Nop => 0,
        Opcode::Copy => 1,
        Opcode::Move => 2,
        Opcode::Add => 3,
        Opcode::Sub => 4,
        Opcode::Goto => 5,
        Opcode::Call => 6,
    };
    assert(t[i].0 == op);
}

fn opcode_list() -> (r: Vec<(Opcode, u8, &'static str)>)
    ensures
        r@ == spec_opcode_table(),
{
    let r = vec![
        (Opcode::Nop, 0b00001_000u8, "NOP"),
        (Opcode::Copy, 0b00010_000u8, "COPY"),
        (Opcode::Move, 0b00011_000u8, "MOVE"),
        (Opcode::Add, 0b00100_000u8, "ADD"),
        (Opcode::Sub, 0b00101_000u8, "SUB"),
        (Opcode::Goto, 0b00110_000u8, "GOTO"),
        (Opcode::Call, 0b00111_000u8, "CALL"),
    ];
    assert(r@ =~= spec_opcode_table());
    r
}

impl Opcode {
    /// Decodes an opcode byte; a byte that matches no opcode is rejected.
    pub fn from_u8(byte: u8) -> (r: Result<Opcode, VmError>)
        ensures
            r == match spec_opcode_of(byte) {
                Some(op) => Ok::<Opcode, VmError>(op),
                None => Err(VmError::InvalidOpcode),
            },
    {
        let table = opcode_list();
        let mut i: usize = 0;
        while i < table.len()
            invariant
                table@ == spec_opcode_table(),
                0 <= i <= table@.len(),
                forall|j: int| 0 <= j < i ==> (#[trigger] table@[j]).1 != byte,
            decreases table@.len() - i,
        {
            let (op, b, _) = table[i];
            if byte == b {
                return Ok(op);
            }
            i = i + 1;
        }
        assert(table@[0].1 != byte && table@[1].1 != byte && table@[2].1 != byte
            && table@[3].1 != byte && table@[4].1 != byte && table@[5].1 != byte
            && table@[6].1 != byte);
        Err(VmError::InvalidOpcode)
    }

    /// The byte that encodes this opcode.
    pub fn to_u8(&self) -> (r: u8)
        ensures
            r == spec_opcode_byte(*self),
    {
        let table = opcode_list();
        proof {
            lemma_opcode_table_complete(*self);
        }
        let mut i: usize = 0;
        while i < table.len()
            invariant
                table@ == spec_opcode_table(),
                0 <= i <= table@.len(),
                forall|j: int| 0 <= j < i ==> (#[trigger] table@[j]).0 != *self,
            decreases table@.len() - i,
        {
            let (op, b, _) = table[i];
            if *self == op {
                return b;
            }
            i = i + 1;
        }
        proof {
            let k = choose|k: int| 0 <= k < spec_opcode_table().len() && (#[trigger] spec_opcode_table()[k]).0 == *self;
            assert(table@[k].0 == *self);
        }
        0
    }

    /// The mnemonic of this opcode.
    pub fn to_str(&self) -> (r: &'static str)
        ensures
            r@ == spec_mnemonic(*self),
    {
        let table = opcode_list();
        proof {
            lemma_opcode_table_complete(*self);
        }
        let mut i: usize = 0;
        while i < table.len()
            invariant
                table@ == spec_opcode_table(),
                0 <= i <= table@.len(),
                forall|j: int| 0 <= j < i ==> (#[trigger] table@[j]).0 != *self,
            decreases table@.len() - i,
        {
            let (op, _, s) = table[i];
            if *self == op {
                return s;
            }
            i = i + 1;
        }
        proof {
            let k = choose|k: int| 0 <= k < spec_opcode_table().len() && (#[trigger] spec_opcode_table()[k]).0 == *self;
            assert(table@[k].0 == *self);
        }
        ""
    }
}

/// Encoding and decoding are inverse: every opcode decodes from its own
/// byte, and every byte that decodes at all is the byte of what it decodes to.
pub proof fn lemma_opcode_bijection(op: Opcode, byte: u8)
    ensures
        spec_opcode_of(spec_opcode_byte(op)) == Some(op),
        spec_opcode_of(byte) is Some ==> spec_opcode_byte(spec_opcode_of(byte)->Some_0) == byte,
{
}

/// The version of the bytecode convention this implementation writes, and
/// the newest one it reads.
pub const BYTECODE_CONVENTION_VERSION: u32 = 0;

/// The compiler version, as ASCII, in which the current header shape was
/// introduced: "0.0.1".
pub open spec fn spec_introduction_version() -> Seq<u8> {
    seq![0x30u8, 0x2eu8, 0x30u8, 0x2eu8, 0x31u8]
}

/// The four big-endian bytes of a `u32`.
pub open spec fn be_bytes(v: u32) -> Seq<u8> {
    seq![(v >> 24u32) as u8, (v >> 16u32) as u8, (v >> 8u32) as u8, v as u8]
}

/// The `u32` held big-endian in the first four bytes of `b`.
pub open spec fn be_value(b: Seq<u8>) -> u32
    recommends
        b.len() >= 4,
{
    ((b[0] as u32) << 24u32) | ((b[1] as u32) << 16u32) | ((b[2] as u32) << 8u32) | (b[3] as u32)
}

/// No byte of `s` is NUL, so `s` can stand as a NUL-terminated string.
pub open spec fn no_nul(s: Seq<u8>) -> bool {
    forall|i: int| 0 <= i < s.len() ==> s[i] != 0
}

/// The bytes of a header: the version big-endian, then the introduction
/// version, then a NUL.
pub open spec fn spec_header_bytes(version: u32, intro: Seq<u8>) -> Seq<u8> {
    be_bytes(version) + intro + seq![0u8]
}

/// `b` holds a NUL somewhere after the version field.
pub open spec fn has_terminator(b: Seq<u8>) -> bool {
    exists|k: int| 4 <= k < b.len() && b[k] == 0
}

/// `b` starts with a header of the given version and introduction version:
/// the string runs from offset 4 up to the first NUL.
pub open spec fn parses_to(b: Seq<u8>, version: u32, intro: Seq<u8>) -> bool {
    &&& b.len() >= 5
    &&& be_value(b) == version
    &&& 4 + intro.len() < b.len()
    &&& b[4 + intro.len() as int] == 0
    &&& b.subrange(4, 4 + intro.len() as int) == intro
    &&& no_nul(intro)
}

/// The header at the start of a bytecode module.
pub struct Header {
    pub convention_version: u32,
    /// ASCII, without its terminating NUL.
    pub compiler_introduction_version: Vec<u8>,
}

impl Header {
    /// The header that this implementation writes.
    pub fn current() -> (r: Header)
        ensures
            r.convention_version == BYTECODE_CONVENTION_VERSION,
            r.compiler_introduction_version@ == spec_introduction_version(),
    {
        let v = vec![0x30u8, 0x2eu8, 0x30u8, 0x2eu8, 0x31u8];
        assert(v@ =~= spec_introduction_version());
        Header { convention_version: BYTECODE_CONVENTION_VERSION, compiler_introduction_version: v }
    }

    /// The number of bytes the header takes, its terminator included.
    pub fn encoded_len(&self) -> (r: usize)
        requires
            self.compiler_introduction_version@.len() + 5 <= usize::MAX,
        ensures
            r == self.compiler_introduction_version@.len() + 5,
    {
        self.compiler_introduction_version.len() + 5
    }
}

/// Writes a header: the version as four big-endian bytes, then the
/// introduction version, then a NUL.
pub fn write_header(h: &Header) -> (r: Vec<u8>)
    requires
        no_nul(h.compiler_introduction_version@),
    ensures
        r@ == spec_header_bytes(h.convention_version, h.compiler_introduction_version@),
{
    let v = h.convention_version;
    let mut out: Vec<u8> = Vec::new();
    out.push((v >> 24u32) as u8);
    out.push((v >> 16u32) as u8);
    out.push((v >> 8u32) as u8);
    out.push(v as u8);
    let s = &h.compiler_introduction_version;
    let mut i: usize = 0;
    while i < s.len()
        invariant
            0 <= i <= s@.len(),
            out@ == be_bytes(v) + s@.subrange(0, i as int),
        decreases s@.len() - i,
    {
        out.push(s[i]);
        i = i + 1;
        assert(s@.subrange(0, i as int) =~= s@.subrange(0, i - 1) + seq![s@[i - 1]]);
    }
    out.push(0u8);
    assert(s@.subrange(0, s@.len() as int) =~= s@);
    assert(out@ =~= spec_header_bytes(v, s@));
    out
}

/// The header of the current convention, in bytes.
pub fn new_header() -> (r: Vec<u8>)
    ensures
        r@ == spec_header_bytes(BYTECODE_CONVENTION_VERSION, spec_introduction_version()),
{
    write_header(&Header::current())
}

/// Parses the header at the start of `bytes`. Fails with `Truncated` when
/// fewer than five bytes are given or the string has no terminator, and with
/// `UnsupportedVersion` when the version is newer than this reader's.
pub fn read_header(bytes: &[u8]) -> (r: Result<Header, VmError>)
    ensures
        bytes@.len() < 5 ==> r == Err::<Header, VmError>(VmError::Truncated),
        bytes@.len() >= 5 && be_value(bytes@) > BYTECODE_CONVENTION_VERSION ==> r == Err::<
            Header,
            VmError,
        >(VmError::UnsupportedVersion),
        bytes@.len() >= 5 && be_value(bytes@) <= BYTECODE_CONVENTION_VERSION && !has_terminator(
            bytes@,
        ) ==> r == Err::<Header, VmError>(VmError::Truncated),
        bytes@.len() >= 5 && be_value(bytes@) <= BYTECODE_CONVENTION_VERSION && has_terminator(
            bytes@,
        ) ==> r is Ok,
        r matches Ok(h) ==> parses_to(
            bytes@,
            h.convention_version,
            h.compiler_introduction_version@,
        ),
{
    if bytes.len() < 5 {
        return Err(VmError::Truncated);
    }
    let version: u32 = ((bytes[0] as u32) << 24u32) | ((bytes[1] as u32) << 16u32) | ((
    bytes[2] as u32) << 8u32) | (bytes[3] as u32);
    if version > BYTECODE_CONVENTION_VERSION {
        return Err(VmError::UnsupportedVersion);
    }
    let mut intro: Vec<u8> = Vec::new();
    let mut k: usize = 4;
    while k < bytes.len()
        invariant
            4 <= k <= bytes@.len(),
            version == be_value(bytes@),
            version <= BYTECODE_CONVENTION_VERSION,
            intro@ == bytes@.subrange(4, k as int),
            forall|j: int| 4 <= j < k ==> bytes@[j] != 0,
        decreases bytes@.len() - k,
    {
        let c = bytes[k];
        if c == 0 {
            assert(no_nul(intro@));
            return Ok(Header { convention_version: version, compiler_introduction_version: intro });
        }
        intro.push(c);
        k = k + 1;
        assert(intro@ =~= bytes@.subrange(4, k as int));
    }
    Err(VmError::Truncated)
}

/// What `write_header` writes, `read_header` reads back: the bytes of a
/// header with a supported version and a NUL-free string parse to that same
/// version and string.
pub proof fn lemma_header_round_trip(version: u32, intro: Seq<u8>)
    requires
        no_nul(intro),
    ensures
        spec_header_bytes(version, intro).len() >= 5,
        be_value(spec_header_bytes(version, intro)) == version,
        has_terminator(spec_header_bytes(version, intro)),
        parses_to(spec_header_bytes(version, intro), version, intro),
{
    let b = spec_header_bytes(version, intro);
    assert(b.subrange(4, 4 + intro.len() as int) =~= intro);
    assert(b[4 + intro.len() as int] == 0);
    let (b0, b1, b2, b3) = (b[0], b[1], b[2], b[3]);
    assert(b0 == (version >> 24u32) as u8 && b1 == (version >> 16u32) as u8 && b2 == (version
        >> 8u32) as u8 && b3 == version as u8);
    assert(((((version >> 24u32) as u8) as u32) << 24u32) | ((((version >> 16u32) as u8) as u32)
        << 16u32) | ((((version >> 8u32) as u8) as u32) << 8u32) | ((version as u8) as u32)
        == version) by (bit_vector);
}

} // verus!
