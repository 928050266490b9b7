//! A reader for the `.DS_Store` files that Finder writes: the header, the allocator with
//! its table of contents, the master node of the `DSDB` B-tree, and the size and date
//! records of the first-level entries of that tree.
use vstd::prelude::*;
use crate::byte_buffer::{can_read, spec_u32_be, spec_u64_be, BufferError, ByteBuffer};
use crate::text::{decode_utf16, spec_utf8_lossy, utf16_be_units, utf8_lossy};

verus! {

/// The magic number `Bud1` that follows the alignment word of the header.
pub const BUD1_MAGIC: u32 = 0x42756431;

/// The value that the fifth word of the master node must hold.
pub const MASTER_PAGE_SIZE: u32 = 0x1000;

/// Why a `.DS_Store` file could not be read.
#[derive(Debug, Clone, Copy, PartialEq, Eq, Structural)]
pub enum DsError {
    /// A read ran past the end of the file.
    UnexpectedEof,
    /// The table of contents has no `DSDB` entry.
    MissingDsdb,
    /// A record announces a name longer than the bytes that remain.
    NotEnoughBytes,
    /// The file breaks a structural rule of the format: a wrong magic or alignment word,
    /// an offset or count out of range, undecodable UTF-16, a date blob that is not eight
    /// bytes long, a tree node without records, or a cycle in the tree.
    Malformed,
}

/// The four ASCII bytes of a type or field code.
pub open spec fn code4(c0: u8, c1: u8, c2: u8, c3: u8) -> Seq<u8> {
    seq![c0, c1, c2, c3]
}

/// `DSDB`, the name of the B-tree in the table of contents.
pub open spec fn key_dsdb() -> Seq<u8> { code4(0x44, 0x53, 0x44, 0x42) }
/// The type code `bool`.
pub open spec fn type_bool() -> Seq<u8> { code4(0x62, 0x6f, 0x6f, 0x6c) }
/// The type code `shor`.
pub open spec fn type_shor() -> Seq<u8> { code4(0x73, 0x68, 0x6f, 0x72) }
/// The type code `long`.
pub open spec fn type_long() -> Seq<u8> { code4(0x6c, 0x6f, 0x6e, 0x67) }
/// The type code `comp`.
pub open spec fn type_comp() -> Seq<u8> { code4(0x63, 0x6f, 0x6d, 0x70) }
/// The type code `dutc`.
pub open spec fn type_dutc() -> Seq<u8> { code4(0x64, 0x75, 0x74, 0x63) }
/// The type code `type`.
pub open spec fn type_type() -> Seq<u8> { code4(0x74, 0x79, 0x70, 0x65) }
/// The type code `blob`.
pub open spec fn type_blob() -> Seq<u8> { code4(0x62, 0x6c, 0x6f, 0x62) }
/// The type code `ustr`.
pub open spec fn type_ustr() -> Seq<u8> { code4(0x75, 0x73, 0x74, 0x72) }
/// The field code `ph1S` (a folder size).
pub open spec fn field_ph1s() -> Seq<u8> { code4(0x70, 0x68, 0x31, 0x53) }
/// The field code `phyS` (a folder size).
pub open spec fn field_phys() -> Seq<u8> { code4(0x70, 0x68, 0x79, 0x53) }
/// The field code `moDD` (modification date).
pub open spec fn field_modd() -> Seq<u8> { code4(0x6d, 0x6f, 0x44, 0x44) }
/// The field code `modD` (modification date).
pub open spec fn field_modd2() -> Seq<u8> { code4(0x6d, 0x6f, 0x64, 0x44) }

/// Whether `b` holds exactly the bytes `c0 c1 c2 c3`.
fn code_eq(b: &Vec<u8>, c0: u8, c1: u8, c2: u8, c3: u8) -> (res: bool)
    ensures
        res == (b@ == code4(c0, c1, c2, c3)),
{
    if b.len() == 4 && b[0] == c0 && b[1] == c1 && b[2] == c2 && b[3] == c3 {
        assert(b@ =~= code4(c0, c1, c2, c3));
        true
    } else {
        false
    }
}

/// A failed read of the buffer becomes an end-of-file error of the parser.
fn lift<T>(r: Result<T, BufferError>) -> (res: Result<T, DsError>)
    ensures
        match r {
            Ok(v) => res == Ok::<T, DsError>(v),
            Err(_) => res == Err::<T, DsError>(DsError::UnexpectedEof),
        },
{
    match r {
        Ok(v) => Ok(v),
        Err(_) => Err(DsError::UnexpectedEof),
    }
}

/// A property of a folder that its parent's `.DS_Store` records.
#[derive(Debug, Clone, Copy, PartialEq, Eq, Structural)]
pub enum ModType {
    /// The folder size that the `.DS_Store` strategy reads: the `ph1S` field. Despite
    /// the name, that field holds the space the folder takes on disk.
    LogicalSize,
    /// The folder size of the `phyS` field, the other size field the reader keeps.
    PhysicalSize,
    /// The folder's modification date, kept under `moDD`.
    ModificationDate,
}

impl ModType {
    /// The field code under which the reader keeps this property.
    pub fn field_code(&self) -> (res: &'static str)
        ensures
            *self == ModType::LogicalSize ==> res@ == "ph1S"@,
            *self == ModType::PhysicalSize ==> res@ == "phyS"@,
            *self == ModType::ModificationDate ==> res@ == "moDD"@,
    {
        match self {
            ModType::LogicalSize => "ph1S",
            ModType::PhysicalSize => "phyS",
            ModType::ModificationDate => "moDD",
        }
    }
}

// ---------------------------------------------------------------- header

/// The header read at `p`: the allocator's offset (the stored word plus four) and length.
/// The alignment word must be 1, the magic `Bud1`, and the offset repeated.
pub open spec fn spec_parse_header(d: Seq<u8>, p: int) -> Result<(u32, u32), DsError> {
    let len = d.len() as int;
    if p + 4 > len {
        Err(DsError::UnexpectedEof)
    } else if spec_u32_be(d, p) != 1 {
        Err(DsError::Malformed)
    } else if p + 8 > len {
        Err(DsError::UnexpectedEof)
    } else if spec_u32_be(d, p + 4) != BUD1_MAGIC {
        Err(DsError::Malformed)
    } else if p + 12 > len {
        Err(DsError::UnexpectedEof)
    } else if spec_u32_be(d, p + 8) > u32::MAX - 4 {
        Err(DsError::Malformed)
    } else if p + 20 > len {
        Err(DsError::UnexpectedEof)
    } else if spec_u32_be(d, p + 16) != spec_u32_be(d, p + 8) {
        Err(DsError::Malformed)
    } else {
        Ok(((spec_u32_be(d, p + 8) + 4) as u32, spec_u32_be(d, p + 12)))
    }
}

/// The bytes of the header read when the check that rejects it is made: after the
/// alignment word, the magic, the offset, or the repeated offset.
pub open spec fn header_words_read(d: Seq<u8>, p: int) -> int {
    if spec_u32_be(d, p) != 1 {
        4
    } else if spec_u32_be(d, p + 4) != BUD1_MAGIC {
        8
    } else if spec_u32_be(d, p + 8) > u32::MAX - 4 {
        12
    } else {
        20
    }
}

/// Reads the header at the cursor.
pub fn parse_header(buffer: &mut ByteBuffer) -> (res: Result<(u32, u32), DsError>)
    ensures
        final(buffer).bytes() == old(buffer).bytes(),
        res == spec_parse_header(old(buffer).bytes(), old(buffer).position() as int),
        res is Ok ==> final(buffer).position() == old(buffer).position() + 20,
        res == Err::<(u32, u32), DsError>(DsError::UnexpectedEof) ==> final(buffer).position()
            == old(buffer).bytes().len(),
        res == Err::<(u32, u32), DsError>(DsError::Malformed) ==> final(buffer).position()
            == old(buffer).position() + header_words_read(
            old(buffer).bytes(),
            old(buffer).position() as int,
        ),
{
    let alignment = lift(buffer.read_uint32())?;
    if alignment != 1 {
        return Err(DsError::Malformed);
    }
    let magic = lift(buffer.read_uint32())?;
    if magic != BUD1_MAGIC {
        return Err(DsError::Malformed);
    }
    let stored_offset = lift(buffer.read_uint32())?;
    if stored_offset > u32::MAX - 4 {
        return Err(DsError::Malformed);
    }
    let alloc_offset: u32 = 4 + stored_offset;
    let alloc_len = lift(buffer.read_uint32())?;
    let stored_repeat = lift(buffer.read_uint32())?;
    if stored_repeat > u32::MAX - 4 {
        return Err(DsError::Malformed);
    }
    let alloc_offset_repeat: u32 = 4 + stored_repeat;
    if alloc_offset_repeat != alloc_offset {
        return Err(DsError::Malformed);
    }
    Ok((alloc_offset, alloc_len))
}

// ---------------------------------------------------------------- allocator

/// The `num` block offsets stored from `start` on.
pub open spec fn spec_offsets(d: Seq<u8>, start: int, num: nat) -> Seq<u32> {
    Seq::new(num, |i: int| spec_u32_be(d, start + 4 * i))
}

/// The value of the last `DSDB` entry among the `count` table-of-contents entries stored
/// from `p` on (each a length byte, that many key bytes, and a big-endian word).
pub open spec fn spec_toc(d: Seq<u8>, p: int, count: nat) -> Result<Option<u32>, DsError>
    decreases count,
{
    let len = d.len() as int;
    if count == 0 {
        Ok(None)
    } else if p + 1 > len {
        Err(DsError::UnexpectedEof)
    } else {
        let k = d[p] as int;
        if !can_read(len, p + 1, k) || p + 1 + k + 4 > len {
            Err(DsError::UnexpectedEof)
        } else {
            match spec_toc(d, p + 5 + k, (count - 1) as nat) {
                Err(e) => Err(e),
                Ok(Some(v)) => Ok(Some(v)),
                Ok(None) => if d.subrange(p + 1, p + 1 + k) == key_dsdb() {
                    Ok(Some(spec_u32_be(d, p + 1 + k)))
                } else {
                    Ok(None)
                },
            }
        }
    }
}

/// The result of the table of contents when `best` was found in the entries already read.
pub open spec fn toc_combine(best: Option<u32>, rest: Result<Option<u32>, DsError>) -> Result<
    Option<u32>,
    DsError,
> {
    match rest {
        Err(e) => Err(e),
        Ok(Some(v)) => Ok(Some(v)),
        Ok(None) => Ok(best),
    }
}

/// The allocator at `ao`: the id of the `DSDB` tree and the table of block offsets.
pub open spec fn spec_parse_allocator(d: Seq<u8>, ao: u32) -> Result<(u32, Seq<u32>), DsError> {
    let len = d.len() as int;
    let p = ao as int;
    if p + 4 > len {
        Err(DsError::UnexpectedEof)
    } else if p + 8 > len {
        Err(DsError::UnexpectedEof)
    } else if spec_u32_be(d, p + 4) != 0 {
        Err(DsError::Malformed)
    } else if p + 8 + 4 * spec_u32_be(d, p) > len {
        Err(DsError::Malformed)
    } else if ao > u32::MAX - 0x408 {
        Err(DsError::Malformed)
    } else if p + 0x408 + 4 > len {
        Err(DsError::UnexpectedEof)
    } else {
        match spec_toc(d, p + 0x408 + 4, spec_u32_be(d, p + 0x408) as nat) {
            Err(e) => Err(e),
            Ok(None) => Err(DsError::MissingDsdb),
            Ok(Some(master)) => Ok((master, spec_offsets(d, p + 8, spec_u32_be(d, p) as nat))),
        }
    }
}

/// Reads the allocator at `alloc_offset`.
pub fn parse_allocator(buffer: &mut ByteBuffer, alloc_offset: u32) -> (res: Result<
    (u32, Vec<u32>),
    DsError,
>)
    ensures
        final(buffer).bytes() == old(buffer).bytes(),
        match spec_parse_allocator(old(buffer).bytes(), alloc_offset) {
            Ok((m, offs)) => res is Ok && res->Ok_0.0 == m && res->Ok_0.1@ == offs,
            Err(e) => res == Err::<(u32, Vec<u32>), DsError>(e),
        },
{
    let ghost d = buffer.bytes();
    let len = buffer.data_len();
    buffer.reset();
    buffer.skip(alloc_offset as u64);
    let num_offsets = lift(buffer.read_uint32())?;
    let second = lift(buffer.read_uint32())?;
    if second != 0 {
        return Err(DsError::Malformed);
    }
    let mut offsets: Vec<u32> = Vec::new();
    let mut i: u32 = 0;
    while i < num_offsets
        invariant
            buffer.bytes() == d,
            d == old(buffer).bytes(),
            len == d.len(),
            alloc_offset + 8 <= len,
            spec_u32_be(d, alloc_offset + 4) == 0,
            alloc_offset + 8 + 4 * i <= len,
            i <= num_offsets,
            num_offsets == spec_u32_be(d, alloc_offset as int),
            buffer.position() == alloc_offset as int + 8 + 4 * i,
            offsets@ =~= spec_offsets(d, alloc_offset as int + 8, i as nat),
        decreases num_offsets - i,
    {
        match buffer.read_uint32() {
            Ok(v) => {
                offsets.push(v);
            },
            Err(_) => {
                return Err(DsError::Malformed);
            },
        }
        i = i + 1;
    }
    if alloc_offset > u32::MAX - 0x408 {
        return Err(DsError::Malformed);
    }
    buffer.reset();
    buffer.skip((alloc_offset + 0x408) as u64);
    let num_keys = lift(buffer.read_uint32())?;
    let mut best: Option<u32> = None;
    let mut k: u32 = 0;
    while k < num_keys
        invariant
            buffer.bytes() == d,
            d == old(buffer).bytes(),
            len == d.len(),
            alloc_offset + 8 <= len,
            spec_u32_be(d, alloc_offset + 4) == 0,
            alloc_offset + 8 + 4 * num_offsets <= len,
            num_offsets == spec_u32_be(d, alloc_offset as int),
            offsets@ =~= spec_offsets(d, alloc_offset as int + 8, num_offsets as nat),
            alloc_offset <= u32::MAX - 0x408,
            alloc_offset + 0x408 + 4 <= len,
            k <= num_keys,
            num_keys == spec_u32_be(d, alloc_offset as int + 0x408),
            spec_toc(d, alloc_offset as int + 0x408 + 4, num_keys as nat) == toc_combine(
                best,
                spec_toc(d, buffer.position() as int, (num_keys - k) as nat),
            ),
        decreases num_keys - k,
    {
        let ghost p = buffer.position() as int;
        let key_len = lift(buffer.read_uint8())?;
        let key = lift(buffer.read_uint8_array(key_len as usize))?;
        let value = lift(buffer.read_uint32())?;
        assert(key@ =~= d.subrange(p + 1, p + 1 + key_len));
        if code_eq(&key, 0x44, 0x53, 0x44, 0x42) {
            best = Some(value);
        }
        k = k + 1;
    }
    match best {
        Some(master_id) => Ok((master_id, offsets)),
        None => Err(DsError::MissingDsdb),
    }
}


// ---------------------------------------------------------------- master node

/// The position of the block whose offset-and-size word is `x`: the offset rounded down to
/// a multiple of 32, plus the four bytes of the file's leading alignment word.
pub open spec fn spec_align(x: u32) -> u32 {
    (x - x % 32 + 4) as u32
}

/// Where the block of `offset_and_size` starts.
pub fn align_and_adjust_cursor(offset_and_size: u32) -> (res: u32)
    ensures
        res == spec_align(offset_and_size),
{
    let aligned_offset = offset_and_size & !0x1fu32;
    assert(offset_and_size & !0x1fu32 == offset_and_size - offset_and_size % 32) by (bit_vector);
    assert(aligned_offset <= 0xffff_ffe0) by (bit_vector)
        requires
            aligned_offset == offset_and_size & !0x1fu32,
    ;
    aligned_offset + 4
}

/// The master node of the block `offset_and_size`: the id of the tree's root, provided
/// the node's five words can be read and the fifth is the page size.
pub open spec fn spec_parse_master_node(d: Seq<u8>, offset_and_size: u32) -> Result<u32, DsError> {
    let p = spec_align(offset_and_size) as int;
    if p + 20 > d.len() {
        Err(DsError::UnexpectedEof)
    } else if spec_u32_be(d, p + 16) != MASTER_PAGE_SIZE {
        Err(DsError::Malformed)
    } else {
        Ok(spec_u32_be(d, p))
    }
}

/// Reads the master node of the block `offset_and_size`.
pub fn parse_master_node(buffer: &mut ByteBuffer, offset_and_size: u32) -> (res: Result<
    u32,
    DsError,
>)
    ensures
        final(buffer).bytes() == old(buffer).bytes(),
        res == spec_parse_master_node(old(buffer).bytes(), offset_and_size),
        res is Ok ==> final(buffer).position() == spec_align(offset_and_size) + 20,
        res == Err::<u32, DsError>(DsError::UnexpectedEof) ==> final(buffer).position()
            == old(buffer).bytes().len(),
        res == Err::<u32, DsError>(DsError::Malformed) ==> final(buffer).position()
            == spec_align(offset_and_size) + 20,
{
    let next_cursor = align_and_adjust_cursor(offset_and_size);
    buffer.reset();
    buffer.skip(next_cursor as u64);
    let root_id = lift(buffer.read_uint32())?;
    let _tree_height = lift(buffer.read_uint32())?;
    let _num_records = lift(buffer.read_uint32())?;
    let _num_nodes = lift(buffer.read_uint32())?;
    let fifth = lift(buffer.read_uint32())?;
    if fifth != MASTER_PAGE_SIZE {
        return Err(DsError::Malformed);
    }
    Ok(root_id)
}

/// The big-endian value of eight bytes.
pub fn vec_to_u64_be(bytes: Vec<u8>) -> (res: Result<u64, &'static str>)
    ensures
        bytes@.len() == 8 ==> res == Ok::<u64, &'static str>(spec_u64_be(bytes@, 0)),
        bytes@.len() != 8 ==> res is Err && res->Err_0@
            == "Input Vec<u8> must contain exactly 8 bytes for conversion to u64."@,
{
    if bytes.len() != 8 {
        return Err("Input Vec<u8> must contain exactly 8 bytes for conversion to u64.");
    }
    let hi = (bytes[0] as u32) * 0x1000000 + (bytes[1] as u32) * 0x10000 + (bytes[2] as u32)
        * 0x100 + (bytes[3] as u32);
    let lo = (bytes[4] as u32) * 0x1000000 + (bytes[5] as u32) * 0x10000 + (bytes[6] as u32)
        * 0x100 + (bytes[7] as u32);
    Ok((hi as u64) * 0x1_0000_0000 + (lo as u64))
}


// ---------------------------------------------------------------- values and records

/// A value kept from a record, as the specification sees it.
pub enum SpecValue {
    /// A size in bytes.
    Size(u64),
    /// The eight bytes of a date blob, a little-endian `f64` of seconds since 2001.
    Date(Seq<u8>),
}

/// A kept record, as the specification sees it.
pub struct SpecRecord {
    pub name: Seq<char>,
    pub field: Seq<char>,
    pub value: SpecValue,
}

/// What reading a tree gives: the records kept until an error, and that error, if any.
pub struct TreeOutcome {
    pub records: Seq<SpecRecord>,
    pub error: Option<DsError>,
}

/// The value read by [`parse_datatype`].
#[derive(Debug)]
pub enum ParsedValue {
    /// A size kept from a `ph1S` or `phyS` field.
    Intx(u64),
    /// The blob of a `moDD` or `modD` field.
    Date(Vec<u8>),
    /// A value that is not kept.
    Unrecognized,
}

impl ParsedValue {
    pub open spec fn view(&self) -> Option<SpecValue> {
        match self {
            ParsedValue::Intx(v) => Some(SpecValue::Size(*v)),
            ParsedValue::Date(b) => Some(SpecValue::Date(b@)),
            ParsedValue::Unrecognized => None,
        }
    }
}

/// The value of a kept record.
#[derive(Debug, Clone)]
pub enum RecordValue {
    /// A size in bytes.
    Size(u64),
    /// The eight bytes of a date blob, a little-endian `f64` of seconds since 2001.
    Date(Vec<u8>),
}

/// A record kept from the tree: the entry's name, the field's code and its value.
#[derive(Debug, Clone)]
pub struct DsRecord {
    pub name: String,
    pub field: String,
    pub value: RecordValue,
}

impl DsRecord {
    pub open spec fn view(&self) -> SpecRecord {
        SpecRecord {
            name: self.name@,
            field: self.field@,
            value: match self.value {
                RecordValue::Size(v) => SpecValue::Size(v),
                RecordValue::Date(b) => SpecValue::Date(b@),
            },
        }
    }
}

/// The views of a list of records.
pub open spec fn records_view(r: Seq<DsRecord>) -> Seq<SpecRecord> {
    r.map_values(|x: DsRecord| x.view())
}

/// The value of type `dtype` for field `field` stored at `p`, and the position after it.
/// A read past the end gives `UnexpectedEof` (and leaves the cursor at the end); a date
/// blob of another length than eight, or a `ustr` that cannot be read or decoded, is
/// `Malformed`. Only sizes of `ph1S`/`phyS` and dates of `moDD`/`modD` are kept.
#[verifier::opaque]
pub open spec fn spec_parse_datatype(d: Seq<u8>, dtype: Seq<u8>, field: Seq<u8>, p: int) -> Result<
    (Option<SpecValue>, int),
    DsError,
> {
    let len = d.len() as int;
    if dtype == type_bool() {
        if can_read(len, p, 1) { Ok((None, p + 1)) } else { Err(DsError::UnexpectedEof) }
    } else if dtype == type_shor() || dtype == type_long() || dtype == type_type() {
        if can_read(len, p, 4) { Ok((None, p + 4)) } else { Err(DsError::UnexpectedEof) }
    } else if dtype == type_comp() || dtype == type_dutc() {
        if !can_read(len, p, 8) {
            Err(DsError::UnexpectedEof)
        } else if field == field_ph1s() || field == field_phys() {
            Ok((Some(SpecValue::Size(spec_u64_be(d, p))), p + 8))
        } else {
            Ok((None, p + 8))
        }
    } else if dtype == type_blob() {
        if !can_read(len, p, 4) {
            Err(DsError::UnexpectedEof)
        } else {
            let n = spec_u32_be(d, p) as int;
            if !can_read(len, p + 4, n) {
                Err(DsError::UnexpectedEof)
            } else if field == field_modd() || field == field_modd2() {
                if n == 8 {
                    Ok((Some(SpecValue::Date(d.subrange(p + 4, p + 12))), p + 12))
                } else {
                    Err(DsError::Malformed)
                }
            } else {
                Ok((None, p + 4 + n))
            }
        }
    } else if dtype == type_ustr() {
        if !can_read(len, p, 4) {
            Err(DsError::UnexpectedEof)
        } else {
            let n = 2 * spec_u32_be(d, p) as int;
            if !can_read(len, p + 4, n) {
                Err(DsError::Malformed)
            } else if n > 0 && decode_utf16(utf16_be_units(d.subrange(p + 4, p + 4 + n))) is None {
                Err(DsError::Malformed)
            } else {
                Ok((None, p + 4 + n))
            }
        }
    } else {
        Ok((None, p))
    }
}

/// Reads the value of type `data_type` for the field `field` at the cursor.
pub fn parse_datatype(data_type: &Vec<u8>, field: &Vec<u8>, buffer: &mut ByteBuffer) -> (res:
    Result<ParsedValue, DsError>)
    ensures
        final(buffer).bytes() == old(buffer).bytes(),
        match spec_parse_datatype(
            old(buffer).bytes(),
            data_type@,
            field@,
            old(buffer).position() as int,
        ) {
            Ok((v, q)) => res is Ok && res->Ok_0.view() == v && final(buffer).position() == q,
            Err(e) => res == Err::<ParsedValue, DsError>(e) && (e == DsError::UnexpectedEof
                ==> final(buffer).position() == old(buffer).bytes().len()),
        },
        res is Err ==> res->Err_0 == DsError::UnexpectedEof || res->Err_0 == DsError::Malformed,
{
    reveal(spec_parse_datatype);
    let ghost d = buffer.bytes();
    let ghost p = buffer.position() as int;
    if code_eq(data_type, 0x62, 0x6f, 0x6f, 0x6c) {
        let _value = lift(buffer.read_uint8())?;
        Ok(ParsedValue::Unrecognized)
    } else if code_eq(data_type, 0x73, 0x68, 0x6f, 0x72) || code_eq(data_type, 0x6c, 0x6f, 0x6e, 0x67) {
        let _value = lift(buffer.read_uint32())?;
        Ok(ParsedValue::Unrecognized)
    } else if code_eq(data_type, 0x63, 0x6f, 0x6d, 0x70) || code_eq(data_type, 0x64, 0x75, 0x74, 0x63) {
        let value = lift(buffer.read_uint64())?;
        if code_eq(field, 0x70, 0x68, 0x31, 0x53) || code_eq(field, 0x70, 0x68, 0x79, 0x53) {
            Ok(ParsedValue::Intx(value))
        } else {
            Ok(ParsedValue::Unrecognized)
        }
    } else if code_eq(data_type, 0x74, 0x79, 0x70, 0x65) {
        let _value = lift(buffer.read_uint8_array(4))?;
        Ok(ParsedValue::Unrecognized)
    } else if code_eq(data_type, 0x62, 0x6c, 0x6f, 0x62) {
        let data_length = lift(buffer.read_uint32())?;
        let value = lift(buffer.read_uint8_array(data_length as usize))?;
        if code_eq(field, 0x6d, 0x6f, 0x44, 0x44) || code_eq(field, 0x6d, 0x6f, 0x64, 0x44) {
            if data_length == 8 {
                Ok(ParsedValue::Date(value))
            } else {
                Err(DsError::Malformed)
            }
        } else {
            Ok(ParsedValue::Unrecognized)
        }
    } else if code_eq(data_type, 0x75, 0x73, 0x74, 0x72) {
        let data_length = lift(buffer.read_uint32())?;
        let n: u64 = (data_length as u64) * 2;
        if n > buffer.data_len() as u64 {
            return Err(DsError::Malformed);
        }
        match buffer.read_string_utf16_be(n as usize) {
            Ok(_value) => Ok(ParsedValue::Unrecognized),
            Err(_) => Err(DsError::Malformed),
        }
    } else {
        Ok(ParsedValue::Unrecognized)
    }
}


// ---------------------------------------------------------------- the B-tree

/// What reading one record gives: an error, or the records it keeps and the position after it.
pub enum RecordStep {
    Fail(DsError),
    Next(Seq<SpecRecord>, int),
}

/// The record stored at `p1`: a name (its length in UTF-16 units, then big-endian UTF-16),
/// a field code, a type code and a value. A name longer than the remaining bytes (counted
/// modulo 2^32) is `NotEnoughBytes`; a name that cannot be read or decoded is `Malformed`.
/// A value that runs past the end is skipped, and the cursor is left at the end.
#[verifier::opaque]
pub open spec fn spec_record_step(d: Seq<u8>, p1: int) -> RecordStep {
    let len = d.len() as int;
    if p1 + 4 > len {
        RecordStep::Fail(DsError::UnexpectedEof)
    } else {
        let n = spec_u32_be(d, p1) as int;
        let p2 = p1 + 4;
        if n > ((len - p2) as u32) as int {
            RecordStep::Fail(DsError::NotEnoughBytes)
        } else if !can_read(len, p2, 2 * n) {
            RecordStep::Fail(DsError::Malformed)
        } else {
            match decode_utf16(utf16_be_units(d.subrange(p2, p2 + 2 * n))) {
                None => RecordStep::Fail(DsError::Malformed),
                Some(name) => {
                    let p3 = p2 + 2 * n;
                    if p3 + 8 > len {
                        RecordStep::Fail(DsError::UnexpectedEof)
                    } else {
                        let field = d.subrange(p3, p3 + 4);
                        let dtype = d.subrange(p3 + 4, p3 + 8);
                        match spec_parse_datatype(d, dtype, field, p3 + 8) {
                            Err(DsError::Malformed) => RecordStep::Fail(DsError::Malformed),
                            Err(_) => RecordStep::Next(Seq::empty(), len),
                            Ok((None, q)) => RecordStep::Next(Seq::empty(), q),
                            Ok((Some(v), q)) => RecordStep::Next(
                                seq![SpecRecord { name, field: spec_utf8_lossy(field), value: v }],
                                q,
                            ),
                        }
                    }
                },
            }
        }
    }
}

/// An outcome with no records and the error `e`.
pub open spec fn failed(e: DsError) -> TreeOutcome {
    TreeOutcome { records: Seq::empty(), error: Some(e) }
}

/// The outcome `o` preceded by the records `acc`.
pub open spec fn after(acc: Seq<SpecRecord>, o: TreeOutcome) -> TreeOutcome {
    TreeOutcome { records: acc + o.records, error: o.error }
}

/// The result that an outcome stands for.
pub open spec fn outcome_result(o: TreeOutcome) -> Result<(), DsError> {
    match o.error {
        Some(e) => Err(e),
        None => Ok(()),
    }
}

/// The last `remaining` iterations over the records of a node at depth `depth`, from `p` on.
/// In an inner node (`next_id != 0`) each record is preceded by the id of a child, whose
/// subtree is read first.
pub open spec fn spec_node_loop(
    d: Seq<u8>,
    offs: Seq<u32>,
    depth: nat,
    next_id: u32,
    remaining: nat,
    p: int,
) -> TreeOutcome
    decreases offs.len() - depth, remaining,
{
    if remaining == 0 {
        TreeOutcome { records: Seq::empty(), error: None }
    } else if depth >= offs.len() {
        failed(DsError::Malformed)
    } else if next_id != 0 && p + 4 > d.len() {
        failed(DsError::UnexpectedEof)
    } else {
        let child = if next_id != 0 {
            spec_b_tree(d, offs, spec_u32_be(d, p), depth + 1)
        } else {
            TreeOutcome { records: Seq::empty(), error: None }
        };
        let p1 = if next_id != 0 { p + 4 } else { p };
        if child.error is Some {
            child
        } else {
            match spec_record_step(d, p1) {
                RecordStep::Fail(e) => TreeOutcome { records: child.records, error: Some(e) },
                RecordStep::Next(recs, q) => after(
                    child.records + recs,
                    spec_node_loop(d, offs, depth, next_id, (remaining - 1) as nat, q),
                ),
            }
        }
    }
}

/// The subtree of node `node` met at depth `depth`: its block holds the id of its next
/// level (0 in a leaf) and its record count, then all records but the last are read.
/// An id outside the offset table, a node without records, and a path deeper than there
/// are nodes (which can only come from a cycle) are `Malformed`.
pub open spec fn spec_b_tree(d: Seq<u8>, offs: Seq<u32>, node: u32, depth: nat) -> TreeOutcome
    decreases offs.len() - depth, 0x1_0000_0000nat,
{
    if node >= offs.len() || depth >= offs.len() {
        failed(DsError::Malformed)
    } else {
        let p = spec_align(offs[node as int]) as int;
        if p + 8 > d.len() {
            failed(DsError::UnexpectedEof)
        } else if spec_u32_be(d, p + 4) == 0 {
            failed(DsError::Malformed)
        } else {
            spec_node_loop(d, offs, depth, spec_u32_be(d, p), (spec_u32_be(d, p + 4) - 1) as nat, p + 8)
        }
    }
}

/// Reads the record at the cursor, keeping it in `records` if it holds a size or a date.
fn parse_record(buffer: &mut ByteBuffer, records: &mut Vec<DsRecord>) -> (res: Result<(), DsError>)
    ensures
        final(buffer).bytes() == old(buffer).bytes(),
        match spec_record_step(old(buffer).bytes(), old(buffer).position() as int) {
            RecordStep::Fail(e) => res == Err::<(), DsError>(e) && final(records)@ == old(records)@,
            RecordStep::Next(recs, q) => res == Ok::<(), DsError>(()) && final(buffer).position() == q
                && records_view(final(records)@) == records_view(old(records)@) + recs,
        },
{
    reveal(spec_record_step);
    let ghost d = buffer.bytes();
    let ghost p1 = buffer.position() as int;
    let name_length = lift(buffer.read_uint32())?;
    if name_length > buffer.bytes_remaining() {
        return Err(DsError::NotEnoughBytes);
    }
    let ghost p2 = buffer.position() as int;
    let nb: u64 = (name_length as u64) * 2;
    if nb > buffer.data_len() as u64 {
        return Err(DsError::Malformed);
    }
    let name = match buffer.read_string_utf16_be(nb as usize) {
        Ok(s) => s,
        Err(_) => {
            return Err(DsError::Malformed);
        },
    };
    proof {
        if nb == 0 {
            assert(d.subrange(p2, p2) =~= Seq::<u8>::empty());
        }
    }
    let field = lift(buffer.read_uint8_array(4))?;
    let dtype = lift(buffer.read_uint8_array(4))?;
    let ghost old_records = records@;
    match parse_datatype(&dtype, &field, buffer) {
        Ok(ParsedValue::Intx(v)) => {
            let r = DsRecord { name, field: utf8_lossy(field.as_slice()), value: RecordValue::Size(v) };
            records.push(r);
            assert(records_view(records@) =~= records_view(old_records).push(r.view()));
        },
        Ok(ParsedValue::Date(b)) => {
            let r = DsRecord { name, field: utf8_lossy(field.as_slice()), value: RecordValue::Date(b) };
            records.push(r);
            assert(records_view(records@) =~= records_view(old_records).push(r.view()));
        },
        Ok(ParsedValue::Unrecognized) => {
            assert(records_view(records@) =~= records_view(old_records) + Seq::<SpecRecord>::empty());
        },
        Err(DsError::Malformed) => {
            return Err(DsError::Malformed);
        },
        Err(_) => {
            assert(records_view(records@) =~= records_view(old_records) + Seq::<SpecRecord>::empty());
        },
    }
    Ok(())
}

/// Reads the subtree of node `node_id`, met at depth `depth`, appending the records it
/// keeps to `records` (also when it stops on an error).
pub fn parse_b_tree(
    buffer: &mut ByteBuffer,
    records: &mut Vec<DsRecord>,
    offsets: &Vec<u32>,
    node_id: u32,
    depth: u32,
) -> (res: Result<(), DsError>)
    requires
        offsets@.len() <= u32::MAX,
    ensures
        final(buffer).bytes() == old(buffer).bytes(),
        records_view(final(records)@) == records_view(old(records)@) + spec_b_tree(
            old(buffer).bytes(),
            offsets@,
            node_id,
            depth as nat,
        ).records,
        res == outcome_result(spec_b_tree(old(buffer).bytes(), offsets@, node_id, depth as nat)),
    decreases offsets@.len() - depth,
{
    let ghost d = buffer.bytes();
    let ghost start = records_view(records@);
    if node_id as usize >= offsets.len() || depth as usize >= offsets.len() {
        assert(start + Seq::<SpecRecord>::empty() =~= start);
        return Err(DsError::Malformed);
    }
    let offset_and_size = offsets[node_id as usize];
    let next_cursor = align_and_adjust_cursor(offset_and_size);
    buffer.reset();
    buffer.skip(next_cursor as u64);
    let next_id = match buffer.read_uint32() {
        Ok(v) => v,
        Err(_) => {
            assert(start + Seq::<SpecRecord>::empty() =~= start);
            return Err(DsError::UnexpectedEof);
        },
    };
    let num_records = match buffer.read_uint32() {
        Ok(v) => v,
        Err(_) => {
            assert(start + Seq::<SpecRecord>::empty() =~= start);
            return Err(DsError::UnexpectedEof);
        },
    };
    if num_records == 0 {
        assert(start + Seq::<SpecRecord>::empty() =~= start);
        return Err(DsError::Malformed);
    }
    let count = num_records - 1;
    let ghost p8 = buffer.position() as int;
    let ghost total = spec_node_loop(d, offsets@, depth as nat, next_id, count as nat, p8);
    let ghost mut acc: Seq<SpecRecord> = Seq::empty();
    assert(total == spec_b_tree(d, offsets@, node_id, depth as nat));
    assert(total == after(acc, total)) by {
        assert(acc + total.records =~= total.records);
    }
    let mut i: u32 = 0;
    while i < count
        invariant
            buffer.bytes() == d,
            d == old(buffer).bytes(),
            (depth as int) < offsets@.len(),
            offsets@.len() <= u32::MAX,
            i <= count,
            start == records_view(old(records)@),
            records_view(records@) == start + acc,
            total == spec_b_tree(d, offsets@, node_id, depth as nat),
            total == after(
                acc,
                spec_node_loop(
                    d,
                    offsets@,
                    depth as nat,
                    next_id,
                    (count - i) as nat,
                    buffer.position() as int,
                ),
            ),
        decreases count - i,
    {
        let ghost p = buffer.position() as int;
        let ghost cur = spec_node_loop(d, offsets@, depth as nat, next_id, (count - i) as nat, p);
        let ghost child = if next_id != 0 {
            spec_b_tree(d, offsets@, spec_u32_be(d, p), depth as nat + 1)
        } else {
            TreeOutcome { records: Seq::empty(), error: None }
        };
        if next_id != 0 {
            let child_id = match buffer.read_uint32() {
                Ok(v) => v,
                Err(_) => {
                    assert(records_view(records@) =~= start + (acc + cur.records));
                    return Err(DsError::UnexpectedEof);
                },
            };
            let current_cursor = buffer.byte_offset();
            let r = parse_b_tree(buffer, records, offsets, child_id, depth + 1);
            assert(child_id == spec_u32_be(d, p));
            if r.is_err() {
                assert(child.error is Some);
                assert(cur == child);
                assert(records_view(records@) =~= start + (acc + cur.records));
                return r;
            }
            buffer.reset();
            buffer.skip(current_cursor);
        } else {
            assert(records_view(records@) =~= start + acc + child.records);
        }
        let step = parse_record(buffer, records);
        match step {
            Ok(()) => {
                proof {
                    match spec_record_step(d, if next_id != 0 { p + 4 } else { p }) {
                        RecordStep::Next(recs, q) => {
                            let nxt = spec_node_loop(
                                d,
                                offsets@,
                                depth as nat,
                                next_id,
                                (count - i - 1) as nat,
                                q,
                            );
                            assert(cur == after(child.records + recs, nxt));
                            let old_acc = acc;
                            acc = acc + child.records + recs;
                            assert(records_view(records@) =~= start + acc);
                            assert(old_acc + (child.records + recs + nxt.records) =~= acc
                                + nxt.records);
                        },
                        RecordStep::Fail(e) => {},
                    }
                }
            },
            Err(e) => {
                assert(records_view(records@) =~= start + (acc + cur.records));
                return Err(e);
            },
        }
        i = i + 1;
    }
    assert(acc + Seq::<SpecRecord>::empty() =~= acc);
    Ok(())
}


// ---------------------------------------------------------------- the whole file

/// The records of a `.DS_Store` file: its header, then its allocator, then the master
/// node of the `DSDB` tree, then the tree from its root at depth 0.
pub open spec fn spec_parse_ds_store(d: Seq<u8>) -> TreeOutcome {
    match spec_parse_header(d, 0) {
        Err(e) => failed(e),
        Ok((alloc_offset, _alloc_len)) => match spec_parse_allocator(d, alloc_offset) {
            Err(e) => failed(e),
            Ok((master_id, offs)) => if master_id >= offs.len() {
                failed(DsError::Malformed)
            } else {
                match spec_parse_master_node(d, offs[master_id as int]) {
                    Err(e) => failed(e),
                    Ok(root_id) => spec_b_tree(d, offs, root_id, 0),
                }
            },
        },
    }
}

/// What [`parse_ds_store`] read: the records kept, in file order, and the error that
/// stopped it, if any (records kept before an error are still listed).
#[derive(Debug)]
pub struct DsParse {
    pub records: Vec<DsRecord>,
    pub error: Option<DsError>,
}

impl DsParse {
    pub open spec fn view(&self) -> TreeOutcome {
        TreeOutcome { records: records_view(self.records@), error: self.error }
    }
}

/// Reads the size and date records of the contents of a `.DS_Store` file.
pub fn parse_ds_store(data: Vec<u8>) -> (res: DsParse)
    ensures
        res.view() == spec_parse_ds_store(data@),
{
    let ghost d = data@;
    let mut buffer = ByteBuffer::new(data);
    let mut records: Vec<DsRecord> = Vec::new();
    assert(records_view(records@) =~= Seq::<SpecRecord>::empty());
    let (alloc_offset, _alloc_len) = match parse_header(&mut buffer) {
        Ok(h) => h,
        Err(e) => {
            return DsParse { records, error: Some(e) };
        },
    };
    let (master_id, offsets) = match parse_allocator(&mut buffer, alloc_offset) {
        Ok(a) => a,
        Err(e) => {
            return DsParse { records, error: Some(e) };
        },
    };
    if master_id as usize >= offsets.len() {
        return DsParse { records, error: Some(DsError::Malformed) };
    }
    let root_id = match parse_master_node(&mut buffer, offsets[master_id as usize]) {
        Ok(r) => r,
        Err(e) => {
            return DsParse { records, error: Some(e) };
        },
    };
    let r = parse_b_tree(&mut buffer, &mut records, &offsets, root_id, 0);
    assert(records_view(records@) =~= spec_b_tree(d, offsets@, root_id, 0).records);
    DsParse {
        records,
        error: match r {
            Ok(()) => None,
            Err(e) => Some(e),
        },
    }
}


// ---------------------------------------------------------------- laws

/// Whether `r` is a record the reader keeps: a size of a `ph1S` or `phyS` field, or an
/// eight-byte date of a `moDD` or `modD` field.
pub open spec fn is_kept_record(r: SpecRecord) -> bool {
    match r.value {
        SpecValue::Size(_) => r.field == spec_utf8_lossy(field_ph1s()) || r.field
            == spec_utf8_lossy(field_phys()),
        SpecValue::Date(b) => b.len() == 8 && (r.field == spec_utf8_lossy(field_modd()) || r.field
            == spec_utf8_lossy(field_modd2())),
    }
}

/// Whether every record of `s` is one the reader keeps.
pub open spec fn all_kept(s: Seq<SpecRecord>) -> bool {
    forall|i: int| 0 <= i < s.len() ==> #[trigger] is_kept_record(s[i])
}

proof fn lemma_all_kept_concat(a: Seq<SpecRecord>, b: Seq<SpecRecord>)
    requires
        all_kept(a),
        all_kept(b),
    ensures
        all_kept(a + b),
{
    assert forall|i: int| 0 <= i < (a + b).len() implies #[trigger] is_kept_record((a + b)[i]) by {
        if i < a.len() {
            assert((a + b)[i] == a[i]);
        } else {
            assert((a + b)[i] == b[i - a.len()]);
        }
    }
}

proof fn lemma_datatype_kept(d: Seq<u8>, dtype: Seq<u8>, field: Seq<u8>, p: int)
    requires
        p >= 0,
    ensures
        spec_parse_datatype(d, dtype, field, p) matches Ok((Some(v), _)) ==> is_kept_record(
            SpecRecord { name: Seq::empty(), field: spec_utf8_lossy(field), value: v },
        ),
        spec_parse_datatype(d, dtype, field, p) matches Ok((_, q)) ==> q >= 0,
{
    reveal(spec_parse_datatype);
}

proof fn lemma_step_kept(d: Seq<u8>, p1: int)
    requires
        p1 >= 0,
    ensures
        spec_record_step(d, p1) matches RecordStep::Next(recs, _) ==> all_kept(recs),
        spec_record_step(d, p1) matches RecordStep::Next(_, q) ==> q >= 0,
{
    reveal(spec_record_step);
    let len = d.len() as int;
    if p1 + 4 <= len {
        let n = spec_u32_be(d, p1) as int;
        let p3 = p1 + 4 + 2 * n;
        lemma_datatype_kept(d, d.subrange(p3 + 4, p3 + 8), d.subrange(p3, p3 + 4), p3 + 8);
    }
}

/// Reading any subtree, from any node at any depth, keeps nothing but sizes of
/// `ph1S`/`phyS` fields and eight-byte dates of `moDD`/`modD` fields: [`parse_b_tree`]
/// appends exactly these records and removes none.
pub proof fn law_subtree_only_sizes_and_dates(d: Seq<u8>, offs: Seq<u32>, node: u32, depth: nat)
    ensures
        all_kept(spec_b_tree(d, offs, node, depth).records),
    decreases offs.len() - depth, 0x1_0000_0000nat,
{
    if node >= offs.len() || depth >= offs.len() {
    } else {
        let p = spec_align(offs[node as int]) as int;
        if p + 8 > d.len() || spec_u32_be(d, p + 4) == 0 {
        } else {
            lemma_loop_kept(d, offs, depth, spec_u32_be(d, p), (spec_u32_be(d, p + 4) - 1) as nat, p + 8);
        }
    }
}

proof fn lemma_loop_kept(d: Seq<u8>, offs: Seq<u32>, depth: nat, next_id: u32, remaining: nat, p: int)
    requires
        p >= 0,
    ensures
        all_kept(spec_node_loop(d, offs, depth, next_id, remaining, p).records),
    decreases offs.len() - depth, remaining,
{
    if remaining == 0 || depth >= offs.len() || (next_id != 0 && p + 4 > d.len()) {
    } else {
        let child = if next_id != 0 {
            spec_b_tree(d, offs, spec_u32_be(d, p), depth + 1)
        } else {
            TreeOutcome { records: Seq::empty(), error: None }
        };
        if next_id != 0 {
            law_subtree_only_sizes_and_dates(d, offs, spec_u32_be(d, p), depth + 1);
        }
        let p1 = if next_id != 0 { p + 4 } else { p };
        lemma_step_kept(d, p1);
        match spec_record_step(d, p1) {
            RecordStep::Next(recs, q) => {
                lemma_loop_kept(d, offs, depth, next_id, (remaining - 1) as nat, q);
                let rest = spec_node_loop(d, offs, depth, next_id, (remaining - 1) as nat, q);
                lemma_all_kept_concat(child.records, recs);
                lemma_all_kept_concat(child.records + recs, rest.records);
            },
            RecordStep::Fail(_) => {},
        }
    }
}

/// The reader keeps nothing but sizes of `ph1S`/`phyS` fields and eight-byte dates of
/// `moDD`/`modD` fields, whatever the file holds.
pub proof fn law_only_sizes_and_dates(d: Seq<u8>)
    ensures
        all_kept(spec_parse_ds_store(d).records),
{
    match spec_parse_header(d, 0) {
        Err(_) => {},
        Ok((alloc_offset, _)) => match spec_parse_allocator(d, alloc_offset) {
            Err(_) => {},
            Ok((master_id, offs)) => if master_id < offs.len() {
                match spec_parse_master_node(d, offs[master_id as int]) {
                    Err(_) => {},
                    Ok(root_id) => law_subtree_only_sizes_and_dates(d, offs, root_id, 0),
                }
            },
        },
    }
}

// ---------------------------------------------------------------- value laws

/// The big-endian number of the eight bytes of `d` from `p` on, written out.
proof fn lemma_u64_be_value(d: Seq<u8>, p: int)
    requires
        0 <= p,
        p + 8 <= d.len(),
    ensures
        spec_u64_be(d, p) as int == d[p] as int * 0x100_0000_0000_0000 + d[p + 1] as int
            * 0x1_0000_0000_0000 + d[p + 2] as int * 0x100_0000_0000 + d[p + 3] as int
            * 0x1_0000_0000 + d[p + 4] as int * 0x100_0000 + d[p + 5] as int * 0x1_0000 + d[p
            + 6] as int * 0x100 + d[p + 7] as int,
{
    let hi = d[p] as int * 0x100_0000 + d[p + 1] as int * 0x1_0000 + d[p + 2] as int * 0x100
        + d[p + 3] as int;
    let lo = d[p + 4] as int * 0x100_0000 + d[p + 5] as int * 0x1_0000 + d[p + 6] as int * 0x100
        + d[p + 7] as int;
    assert(0 <= hi < 0x1_0000_0000);
    assert(0 <= lo < 0x1_0000_0000);
    assert(spec_u32_be(d, p) as int == hi);
    assert(spec_u32_be(d, p + 4) as int == lo);
    assert(hi * 0x1_0000_0000 + lo < 0x1_0000_0000_0000_0000) by (nonlinear_arith)
        requires
            0 <= hi < 0x1_0000_0000,
            0 <= lo < 0x1_0000_0000,
    ;
}

/// A `comp` or `dutc` value of a `ph1S` or `phyS` field is kept as the whole big-endian
/// 64-bit number of its eight bytes, and the value ends eight bytes on.
pub proof fn law_size_is_the_whole_u64(d: Seq<u8>, dtype: Seq<u8>, field: Seq<u8>, p: int)
    requires
        0 <= p,
        p + 8 <= d.len(),
        dtype == seq![0x63u8, 0x6f, 0x6d, 0x70] || dtype == seq![0x64u8, 0x75, 0x74, 0x63],
        field == seq![0x70u8, 0x68, 0x31, 0x53] || field == seq![0x70u8, 0x68, 0x79, 0x53],
    ensures
        spec_parse_datatype(d, dtype, field, p) matches Ok((Some(SpecValue::Size(v)), q)) && q == p
            + 8 && v as int == d[p] as int * 0x100_0000_0000_0000 + d[p + 1] as int
            * 0x1_0000_0000_0000 + d[p + 2] as int * 0x100_0000_0000 + d[p + 3] as int
            * 0x1_0000_0000 + d[p + 4] as int * 0x100_0000 + d[p + 5] as int * 0x1_0000 + d[p
            + 6] as int * 0x100 + d[p + 7] as int,
{
    reveal(spec_parse_datatype);
    lemma_u64_be_value(d, p);
    assert(dtype != type_bool() && dtype != type_shor() && dtype != type_long() && dtype
        != type_type());
}

/// How far each kind of value reaches: a `bool` takes one byte, a `shor`, a `long` and a
/// `type` four, a `comp` and a `dutc` eight; none of them is kept, but for the sizes of
/// `ph1S`/`phyS`.
pub proof fn law_value_widths(d: Seq<u8>, field: Seq<u8>, p: int)
    requires
        0 <= p,
    ensures
        p + 1 <= d.len() ==> spec_parse_datatype(d, seq![0x62u8, 0x6f, 0x6f, 0x6c], field, p)
            == Ok::<(Option<SpecValue>, int), DsError>((None, p + 1)),
        p + 4 <= d.len() ==> spec_parse_datatype(d, seq![0x73u8, 0x68, 0x6f, 0x72], field, p)
            == Ok::<(Option<SpecValue>, int), DsError>((None, p + 4)),
        p + 4 <= d.len() ==> spec_parse_datatype(d, seq![0x6cu8, 0x6f, 0x6e, 0x67], field, p)
            == Ok::<(Option<SpecValue>, int), DsError>((None, p + 4)),
        p + 4 <= d.len() ==> spec_parse_datatype(d, seq![0x74u8, 0x79, 0x70, 0x65], field, p)
            == Ok::<(Option<SpecValue>, int), DsError>((None, p + 4)),
        p + 8 <= d.len() && field != seq![0x70u8, 0x68, 0x31, 0x53] && field != seq![
            0x70u8,
            0x68,
            0x79,
            0x53,
        ] ==> spec_parse_datatype(d, seq![0x63u8, 0x6f, 0x6d, 0x70], field, p) == Ok::<
            (Option<SpecValue>, int),
            DsError,
        >((None, p + 8)) && spec_parse_datatype(d, seq![0x64u8, 0x75, 0x74, 0x63], field, p)
            == Ok::<(Option<SpecValue>, int), DsError>((None, p + 8)),
{
    reveal(spec_parse_datatype);
    assert(seq![0x62u8, 0x6f, 0x6f, 0x6c] =~= type_bool());
    assert(seq![0x73u8, 0x68, 0x6f, 0x72] =~= type_shor());
    assert(seq![0x6cu8, 0x6f, 0x6e, 0x67] =~= type_long());
    assert(seq![0x74u8, 0x79, 0x70, 0x65] =~= type_type());
    assert(seq![0x63u8, 0x6f, 0x6d, 0x70] =~= type_comp());
    assert(seq![0x64u8, 0x75, 0x74, 0x63] =~= type_dutc());
    assert(type_shor() != type_bool()) by { assert(type_shor()[0] != type_bool()[0]); }
    assert(type_long() != type_bool()) by { assert(type_long()[0] != type_bool()[0]); }
    assert(type_type() != type_bool()) by { assert(type_type()[0] != type_bool()[0]); }
    assert(type_comp() != type_bool()) by { assert(type_comp()[0] != type_bool()[0]); }
    assert(type_dutc() != type_bool()) by { assert(type_dutc()[0] != type_bool()[0]); }
    assert(type_comp() != type_shor()) by { assert(type_comp()[0] != type_shor()[0]); }
    assert(type_comp() != type_long()) by { assert(type_comp()[0] != type_long()[0]); }
    assert(type_comp() != type_type()) by { assert(type_comp()[0] != type_type()[0]); }
    assert(type_dutc() != type_shor()) by { assert(type_dutc()[0] != type_shor()[0]); }
    assert(type_dutc() != type_long()) by { assert(type_dutc()[0] != type_long()[0]); }
    assert(type_dutc() != type_type()) by { assert(type_dutc()[0] != type_type()[0]); }
    assert(field_ph1s() =~= seq![0x70u8, 0x68, 0x31, 0x53]);
    assert(field_phys() =~= seq![0x70u8, 0x68, 0x79, 0x53]);
}

} // verus!
