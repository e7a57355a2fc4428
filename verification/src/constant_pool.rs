use crate::cursor::{be16, be32, be64, take_outcome, ByteCursor};
use crate::error::DecodeError;
use vstd::prelude::*;

verus! {

/// An ordered constant-pool table, conceptually 1-based per the class file
/// format's numbering; slot 0 holds the reserved placeholder so that index
/// values read from the stream can index directly.
pub type ConstantPool = Vec<ConstantPoolEntry>;

/// One constant-pool entry: a tagged variant over one shared byte stream.
/// Every index field is a 1-based reference into the same pool, resolved
/// lazily; dangling indices surface only when looked up.
///
/// `Float` and `Double` keep the raw IEEE interchange bits exactly as they
/// stand in the stream; the decoder neither interprets nor computes with
/// them.
#[derive(Debug)]
#[allow(inconsistent_fields)]
pub enum ConstantPoolEntry {
    /// The unused slot-0 placeholder. Decode never produces it anywhere
    /// else, and no lookup accepts an index that reaches it.
    Reserved,
    Utf8(Vec<u8>),
    Integer(i32),
    Float { bits: u32 },
    Long(i64),
    Double { bits: u64 },
    Class { name_idx: u16 },
    Str { string_idx: u16 },
    FieldRef { class_idx: u16, name_and_type_idx: u16 },
    MethodRef { class_idx: u16, name_and_type_idx: u16 },
    InterfaceMethodRef { class_idx: u16, name_and_type_idx: u16 },
    NameAndType { name_idx: u16, descriptor_idx: u16 },
}

/// The ghost shape of a constant-pool entry: the same variants with the
/// UTF8 payload as a byte sequence.
#[allow(inconsistent_fields)]
pub enum EntryModel {
    Reserved,
    Utf8(Seq<u8>),
    Integer(i32),
    Float { bits: u32 },
    Long(i64),
    Double { bits: u64 },
    Class { name_idx: u16 },
    Str { string_idx: u16 },
    FieldRef { class_idx: u16, name_and_type_idx: u16 },
    MethodRef { class_idx: u16, name_and_type_idx: u16 },
    InterfaceMethodRef { class_idx: u16, name_and_type_idx: u16 },
    NameAndType { name_idx: u16, descriptor_idx: u16 },
}

impl View for ConstantPoolEntry {
    type V = EntryModel;

    open spec fn view(&self) -> EntryModel {
        match self {
            ConstantPoolEntry::Reserved => EntryModel::Reserved,
            ConstantPoolEntry::Utf8(text) => EntryModel::Utf8(text@),
            ConstantPoolEntry::Integer(v) => EntryModel::Integer(*v),
            ConstantPoolEntry::Float { bits } => EntryModel::Float { bits: *bits },
            ConstantPoolEntry::Long(v) => EntryModel::Long(*v),
            ConstantPoolEntry::Double { bits } => EntryModel::Double { bits: *bits },
            ConstantPoolEntry::Class { name_idx } => EntryModel::Class { name_idx: *name_idx },
            ConstantPoolEntry::Str { string_idx } => EntryModel::Str { string_idx: *string_idx },
            ConstantPoolEntry::FieldRef { class_idx, name_and_type_idx } => EntryModel::FieldRef {
                class_idx: *class_idx,
                name_and_type_idx: *name_and_type_idx,
            },
            ConstantPoolEntry::MethodRef { class_idx, name_and_type_idx } => EntryModel::MethodRef {
                class_idx: *class_idx,
                name_and_type_idx: *name_and_type_idx,
            },
            ConstantPoolEntry::InterfaceMethodRef {
                class_idx,
                name_and_type_idx,
            } => EntryModel::InterfaceMethodRef {
                class_idx: *class_idx,
                name_and_type_idx: *name_and_type_idx,
            },
            ConstantPoolEntry::NameAndType { name_idx, descriptor_idx } => EntryModel::NameAndType {
                name_idx: *name_idx,
                descriptor_idx: *descriptor_idx,
            },
        }
    }
}

/// The ghost contents of a whole pool.
pub open spec fn pool_model(cp: Seq<ConstantPoolEntry>) -> Seq<EntryModel> {
    cp.map_values(|e: ConstantPoolEntry| e@)
}

/// True of the tag bytes in the format's fixed tag table.
pub open spec fn spec_known_tag(tag: u8) -> bool {
    ||| tag == 1
    ||| tag == 3
    ||| tag == 4
    ||| tag == 5
    ||| tag == 6
    ||| tag == 7
    ||| tag == 8
    ||| tag == 9
    ||| tag == 10
    ||| tag == 11
    ||| tag == 12
}

/// The zero-initialized variant that a known tag byte maps to before its
/// payload is read.
pub open spec fn spec_zero_entry(tag: u8) -> EntryModel {
    if tag == 1 {
        EntryModel::Utf8(Seq::empty())
    } else if tag == 3 {
        EntryModel::Integer(0)
    } else if tag == 4 {
        EntryModel::Float { bits: 0 }
    } else if tag == 5 {
        EntryModel::Long(0)
    } else if tag == 6 {
        EntryModel::Double { bits: 0 }
    } else if tag == 7 {
        EntryModel::Class { name_idx: 0 }
    } else if tag == 8 {
        EntryModel::Str { string_idx: 0 }
    } else if tag == 9 {
        EntryModel::FieldRef { class_idx: 0, name_and_type_idx: 0 }
    } else if tag == 10 {
        EntryModel::MethodRef { class_idx: 0, name_and_type_idx: 0 }
    } else if tag == 11 {
        EntryModel::InterfaceMethodRef { class_idx: 0, name_and_type_idx: 0 }
    } else if tag == 12 {
        EntryModel::NameAndType { name_idx: 0, descriptor_idx: 0 }
    } else {
        EntryModel::Reserved
    }
}

/// Decode of one entry's payload, the tag byte already consumed: exactly
/// which bytes are read, which value comes out, and which failure kind
/// arises on which input.
pub open spec fn spec_parse_entry_payload(tag: u8, b: Seq<u8>, pos: int) -> Result<
    (EntryModel, int),
    DecodeError,
> {
    if tag == 7 {
        if pos + 2 > b.len() {
            Err(DecodeError::TruncatedStream)
        } else {
            Ok((EntryModel::Class { name_idx: be16(b, pos) }, pos + 2))
        }
    } else if tag == 8 {
        if pos + 2 > b.len() {
            Err(DecodeError::TruncatedStream)
        } else {
            Ok((EntryModel::Str { string_idx: be16(b, pos) }, pos + 2))
        }
    } else if tag == 9 {
        if pos + 4 > b.len() {
            Err(DecodeError::TruncatedStream)
        } else {
            Ok(
                (
                    EntryModel::FieldRef {
                        class_idx: be16(b, pos),
                        name_and_type_idx: be16(b, pos + 2),
                    },
                    pos + 4,
                ),
            )
        }
    } else if tag == 10 {
        if pos + 4 > b.len() {
            Err(DecodeError::TruncatedStream)
        } else {
            Ok(
                (
                    EntryModel::MethodRef {
                        class_idx: be16(b, pos),
                        name_and_type_idx: be16(b, pos + 2),
                    },
                    pos + 4,
                ),
            )
        }
    } else if tag == 11 {
        if pos + 4 > b.len() {
            Err(DecodeError::TruncatedStream)
        } else {
            Ok(
                (
                    EntryModel::InterfaceMethodRef {
                        class_idx: be16(b, pos),
                        name_and_type_idx: be16(b, pos + 2),
                    },
                    pos + 4,
                ),
            )
        }
    } else if tag == 12 {
        if pos + 4 > b.len() {
            Err(DecodeError::TruncatedStream)
        } else {
            Ok(
                (
                    EntryModel::NameAndType {
                        name_idx: be16(b, pos),
                        descriptor_idx: be16(b, pos + 2),
                    },
                    pos + 4,
                ),
            )
        }
    } else if tag == 3 {
        if pos + 4 > b.len() {
            Err(DecodeError::TruncatedStream)
        } else {
            Ok((EntryModel::Integer(be32(b, pos) as i32), pos + 4))
        }
    } else if tag == 4 {
        if pos + 4 > b.len() {
            Err(DecodeError::TruncatedStream)
        } else {
            Ok((EntryModel::Float { bits: be32(b, pos) }, pos + 4))
        }
    } else if tag == 5 {
        if pos + 8 > b.len() {
            Err(DecodeError::TruncatedStream)
        } else {
            Ok((EntryModel::Long(be64(b, pos) as i64), pos + 8))
        }
    } else if tag == 6 {
        if pos + 8 > b.len() {
            Err(DecodeError::TruncatedStream)
        } else {
            Ok((EntryModel::Double { bits: be64(b, pos) }, pos + 8))
        }
    } else if tag == 1 {
        if pos + 2 > b.len() {
            Err(DecodeError::TruncatedStream)
        } else {
            let n = be16(b, pos) as int;
            if pos + 2 + n > b.len() {
                Err(DecodeError::TruncatedStream)
            } else {
                let text = b.subrange(pos + 2, pos + 2 + n);
                if vstd::utf8::valid_utf8(text) {
                    Ok((EntryModel::Utf8(text), pos + 2 + n))
                } else {
                    Err(DecodeError::InvalidEncoding)
                }
            }
        }
    } else {
        Err(DecodeError::UnknownConstantTag)
    }
}

/// Decode of one whole entry at `pos`: one tag byte, then its payload.
pub open spec fn spec_parse_entry(b: Seq<u8>, pos: int) -> Result<(EntryModel, int), DecodeError> {
    if pos + 1 > b.len() {
        Err(DecodeError::TruncatedStream)
    } else {
        spec_parse_entry_payload(b[pos], b, pos + 1)
    }
}

/// Decode of `n` consecutive entries starting at `pos`, appended to `acc`.
pub open spec fn spec_parse_entries(b: Seq<u8>, pos: int, n: nat, acc: Seq<EntryModel>) -> Result<
    (Seq<EntryModel>, int),
    DecodeError,
>
    decreases n,
{
    if n == 0 {
        Ok((acc, pos))
    } else {
        match spec_parse_entry(b, pos) {
            Ok((e, p2)) => spec_parse_entries(b, p2, (n - 1) as nat, acc.push(e)),
            Err(k) => Err(k),
        }
    }
}

/// Decode of a pool with declared count `count`: the reserved slot-0
/// placeholder followed by exactly `count - 1` decoded entries.
pub open spec fn spec_parse_pool(b: Seq<u8>, pos: int, count: int) -> Result<
    (Seq<EntryModel>, int),
    DecodeError,
>
    recommends
        count >= 1,
{
    spec_parse_entries(b, pos, (count - 1) as nat, seq![EntryModel::Reserved])
}

/// Relies on core::str::from_utf8, which returns `Ok` exactly when the
/// bytes are valid UTF-8; `vstd::utf8::valid_utf8` is that validity
/// predicate.
#[verifier::external_body]
fn utf8_valid(b: &[u8]) -> (r: bool)
    ensures
        r == vstd::utf8::valid_utf8(b@),
{
    core::str::from_utf8(b).is_ok()
}

impl ConstantPoolEntry {
    /// The tag byte of this entry's variant in the format's fixed tag
    /// table; 0 for the reserved placeholder, which no tag encodes.
    pub open spec fn tag(&self) -> u8 {
        match self {
            ConstantPoolEntry::Reserved => 0,
            ConstantPoolEntry::Utf8(_) => 1,
            ConstantPoolEntry::Integer(_) => 3,
            ConstantPoolEntry::Float { .. } => 4,
            ConstantPoolEntry::Long(_) => 5,
            ConstantPoolEntry::Double { .. } => 6,
            ConstantPoolEntry::Class { .. } => 7,
            ConstantPoolEntry::Str { .. } => 8,
            ConstantPoolEntry::FieldRef { .. } => 9,
            ConstantPoolEntry::MethodRef { .. } => 10,
            ConstantPoolEntry::InterfaceMethodRef { .. } => 11,
            ConstantPoolEntry::NameAndType { .. } => 12,
        }
    }

    /// Reports the tag byte of this entry's variant.
    pub fn tag_byte(&self) -> (t: u8)
        ensures
            t == self.tag(),
    {
        match self {
            ConstantPoolEntry::Reserved => 0,
            ConstantPoolEntry::Utf8(_) => 1,
            ConstantPoolEntry::Integer(_) => 3,
            ConstantPoolEntry::Float { .. } => 4,
            ConstantPoolEntry::Long(_) => 5,
            ConstantPoolEntry::Double { .. } => 6,
            ConstantPoolEntry::Class { .. } => 7,
            ConstantPoolEntry::Str { .. } => 8,
            ConstantPoolEntry::FieldRef { .. } => 9,
            ConstantPoolEntry::MethodRef { .. } => 10,
            ConstantPoolEntry::InterfaceMethodRef { .. } => 11,
            ConstantPoolEntry::NameAndType { .. } => 12,
        }
    }

    /// Maps a tag byte to the zero-initialized variant of its shape, or
    /// fails with `UnknownConstantTag` for a byte outside the tag table.
    pub fn from_tag(cp_tag: u8) -> (r: Result<ConstantPoolEntry, DecodeError>)
        ensures
            match r {
                Ok(e) => spec_known_tag(cp_tag) && e.tag() == cp_tag && e@ == spec_zero_entry(
                    cp_tag,
                ),
                Err(err) => err == DecodeError::UnknownConstantTag && !spec_known_tag(cp_tag),
            },
    {
        match cp_tag {
            7 => Ok(ConstantPoolEntry::Class { name_idx: 0 }),
            9 => Ok(ConstantPoolEntry::FieldRef { class_idx: 0, name_and_type_idx: 0 }),
            10 => Ok(ConstantPoolEntry::MethodRef { class_idx: 0, name_and_type_idx: 0 }),
            11 => Ok(ConstantPoolEntry::InterfaceMethodRef { class_idx: 0, name_and_type_idx: 0 }),
            8 => Ok(ConstantPoolEntry::Str { string_idx: 0 }),
            3 => Ok(ConstantPoolEntry::Integer(0)),
            4 => Ok(ConstantPoolEntry::Float { bits: 0 }),
            5 => Ok(ConstantPoolEntry::Long(0)),
            6 => Ok(ConstantPoolEntry::Double { bits: 0 }),
            12 => Ok(ConstantPoolEntry::NameAndType { name_idx: 0, descriptor_idx: 0 }),
            1 => Ok(ConstantPoolEntry::Utf8(Vec::new())),
            _ => Err(DecodeError::UnknownConstantTag),
        }
    }

    /// Reads this entry's payload from the cursor, replacing the entry's
    /// fields with the decoded values. The variant itself (the tag) stays
    /// what it was; the bytes read and the failure kinds are exactly those
    /// of `spec_parse_entry_payload` for that tag.
    pub fn parse_entry(&mut self, cur: &mut ByteCursor) -> (r: Result<(), DecodeError>)
        ensures
            final(cur).buf == old(cur).buf,
            match r {
                Ok(_) => spec_parse_entry_payload(
                    old(self).tag(),
                    old(cur).buf@,
                    old(cur).pos as int,
                ) == Ok::<(EntryModel, int), DecodeError>(
                    (final(self)@, final(cur).pos as int),
                ),
                Err(e) => spec_parse_entry_payload(
                    old(self).tag(),
                    old(cur).buf@,
                    old(cur).pos as int,
                ) == Err::<(EntryModel, int), DecodeError>(e),
            },
    {
        let t = self.tag_byte();
        if t == 7 || t == 8 {
            let idx = match cur.read_u16() {
                Ok(v) => v,
                Err(e) => {
                    return Err(e);
                },
            };
            if t == 7 {
                *self = ConstantPoolEntry::Class { name_idx: idx };
            } else {
                *self = ConstantPoolEntry::Str { string_idx: idx };
            }
            Ok(())
        } else if t == 9 || t == 10 || t == 11 || t == 12 {
            let idx0 = match cur.read_u16() {
                Ok(v) => v,
                Err(e) => {
                    return Err(e);
                },
            };
            let idx1 = match cur.read_u16() {
                Ok(v) => v,
                Err(e) => {
                    return Err(e);
                },
            };
            if t == 9 {
                *self = ConstantPoolEntry::FieldRef { class_idx: idx0, name_and_type_idx: idx1 };
            } else if t == 10 {
                *self = ConstantPoolEntry::MethodRef { class_idx: idx0, name_and_type_idx: idx1 };
            } else if t == 11 {
                *self = ConstantPoolEntry::InterfaceMethodRef {
                    class_idx: idx0,
                    name_and_type_idx: idx1,
                };
            } else {
                *self = ConstantPoolEntry::NameAndType { name_idx: idx0, descriptor_idx: idx1 };
            }
            Ok(())
        } else if t == 3 {
            let v = match cur.read_i32() {
                Ok(v) => v,
                Err(e) => {
                    return Err(e);
                },
            };
            *self = ConstantPoolEntry::Integer(v);
            Ok(())
        } else if t == 4 {
            let v = match cur.read_u32() {
                Ok(v) => v,
                Err(e) => {
                    return Err(e);
                },
            };
            *self = ConstantPoolEntry::Float { bits: v };
            Ok(())
        } else if t == 5 {
            let v = match cur.read_i64() {
                Ok(v) => v,
                Err(e) => {
                    return Err(e);
                },
            };
            *self = ConstantPoolEntry::Long(v);
            Ok(())
        } else if t == 6 {
            let v = match cur.read_u64() {
                Ok(v) => v,
                Err(e) => {
                    return Err(e);
                },
            };
            *self = ConstantPoolEntry::Double { bits: v };
            Ok(())
        } else if t == 1 {
            let n = match cur.read_u16() {
                Ok(v) => v,
                Err(e) => {
                    return Err(e);
                },
            };
            let text = match cur.read_bytes(n as usize) {
                Ok(v) => v,
                Err(e) => {
                    return Err(e);
                },
            };
            if utf8_valid(text.as_slice()) {
                *self = ConstantPoolEntry::Utf8(text);
                Ok(())
            } else {
                Err(DecodeError::InvalidEncoding)
            }
        } else {
            Err(DecodeError::UnknownConstantTag)
        }
    }
}

/// Decodes a pool of exactly `count` live slots: the reserved placeholder
/// at slot 0, then `count - 1` entries read in order from the cursor.
///
/// Known limitation, kept deliberately: the official class file format
/// reserves two consecutive index slots for each Long or Double entry
/// (the slot after it stays unusable). This decoder gives every entry a
/// single slot, so index values in a class that holds Long or Double
/// constants resolve one-off from the official numbering.
pub fn parse_pool(cur: &mut ByteCursor, count: usize) -> (r: Result<ConstantPool, DecodeError>)
    requires
        count >= 1,
    ensures
        final(cur).buf == old(cur).buf,
        match r {
            Ok(cp) => spec_parse_pool(old(cur).buf@, old(cur).pos as int, count as int)
                == Ok::<(Seq<EntryModel>, int), DecodeError>(
                (pool_model(cp@), final(cur).pos as int),
            ) && cp@.len() == count && pool_model(cp@)[0] == EntryModel::Reserved,
            Err(e) => spec_parse_pool(old(cur).buf@, old(cur).pos as int, count as int)
                == Err::<(Seq<EntryModel>, int), DecodeError>(e),
        },
{
    let ghost b = cur.buf@;
    let ghost pos0 = cur.pos as int;
    let mut cp: Vec<ConstantPoolEntry> = Vec::new();
    cp.push(ConstantPoolEntry::Reserved);
    proof {
        assert(pool_model(cp@) =~= seq![EntryModel::Reserved]);
    }
    let mut i: usize = 1;
    while i < count
        invariant
            1 <= i <= count,
            cp@.len() == i,
            cur.buf == old(cur).buf,
            cur.buf@ == b,
            pos0 == old(cur).pos as int,
            pool_model(cp@)[0] == EntryModel::Reserved,
            spec_parse_entries(b, pos0, (count - 1) as nat, seq![EntryModel::Reserved])
                == spec_parse_entries(b, cur.pos as int, (count - i) as nat, pool_model(cp@)),
        decreases count - i,
    {
        let ghost p_before = cur.pos as int;
        let ghost dv_before = pool_model(cp@);
        let tag = match cur.read_u8() {
            Ok(v) => v,
            Err(e) => {
                proof {
                    assert(spec_parse_entry(b, p_before) == Err::<
                        (EntryModel, int),
                        DecodeError,
                    >(e));
                    assert(spec_parse_entries(b, p_before, (count - i) as nat, dv_before)
                        == Err::<(Seq<EntryModel>, int), DecodeError>(e));
                }
                return Err(e);
            },
        };
        let mut entry = match ConstantPoolEntry::from_tag(tag) {
            Ok(en) => en,
            Err(e) => {
                proof {
                    assert(spec_parse_entry(b, p_before) == Err::<
                        (EntryModel, int),
                        DecodeError,
                    >(e));
                    assert(spec_parse_entries(b, p_before, (count - i) as nat, dv_before)
                        == Err::<(Seq<EntryModel>, int), DecodeError>(e));
                }
                return Err(e);
            },
        };
        match entry.parse_entry(cur) {
            Ok(_) => {},
            Err(e) => {
                return Err(e);
            },
        }
        cp.push(entry);
        i = i + 1;
        proof {
            assert(pool_model(cp@) =~= dv_before.push(entry@));
            assert(spec_parse_entry(b, p_before) == Ok::<(EntryModel, int), DecodeError>(
                (entry@, cur.pos as int),
            ));
        }
    }
    Ok(cp)
}

/// The big-endian bytes of a 16-bit value.
pub open spec fn be16_bytes(v: u16) -> Seq<u8> {
    seq![(v / 0x100) as u8, (v % 0x100) as u8]
}

/// The big-endian bytes of a 32-bit value.
pub open spec fn be32_bytes(v: u32) -> Seq<u8> {
    be16_bytes((v / 0x10000) as u16) + be16_bytes((v % 0x10000) as u16)
}

/// The big-endian bytes of a 64-bit value.
pub open spec fn be64_bytes(v: u64) -> Seq<u8> {
    be32_bytes((v / 0x1_0000_0000) as u32) + be32_bytes((v % 0x1_0000_0000) as u32)
}

/// The wire encoding of one live constant-pool entry: its tag byte
/// followed by its payload bytes. The reserved placeholder has no
/// encoding; it encodes to the empty sequence.
pub open spec fn spec_encode_entry(e: EntryModel) -> Seq<u8> {
    match e {
        EntryModel::Reserved => Seq::empty(),
        EntryModel::Utf8(text) => seq![1u8] + be16_bytes(text.len() as u16) + text,
        EntryModel::Integer(v) => seq![3u8] + be32_bytes(v as u32),
        EntryModel::Float { bits } => seq![4u8] + be32_bytes(bits),
        EntryModel::Long(v) => seq![5u8] + be64_bytes(v as u64),
        EntryModel::Double { bits } => seq![6u8] + be64_bytes(bits),
        EntryModel::Class { name_idx } => seq![7u8] + be16_bytes(name_idx),
        EntryModel::Str { string_idx } => seq![8u8] + be16_bytes(string_idx),
        EntryModel::FieldRef { class_idx, name_and_type_idx } => seq![9u8] + be16_bytes(class_idx)
            + be16_bytes(name_and_type_idx),
        EntryModel::MethodRef { class_idx, name_and_type_idx } => seq![10u8] + be16_bytes(class_idx)
            + be16_bytes(name_and_type_idx),
        EntryModel::InterfaceMethodRef { class_idx, name_and_type_idx } => seq![11u8]
            + be16_bytes(class_idx) + be16_bytes(name_and_type_idx),
        EntryModel::NameAndType { name_idx, descriptor_idx } => seq![12u8] + be16_bytes(name_idx)
            + be16_bytes(descriptor_idx),
    }
}

proof fn lemma_be16_bytes(b: Seq<u8>, i: int)
    requires
        0 <= i,
        i + 2 <= b.len(),
    ensures
        be16_bytes(be16(b, i)) =~= seq![b[i], b[i + 1]],
{
    let hi = b[i] as int;
    let lo = b[i + 1] as int;
    let v = be16(b, i) as int;
    assert(v == hi * 0x100 + lo);
    assert(v / 0x100 == hi && v % 0x100 == lo) by (nonlinear_arith)
        requires
            v == hi * 0x100 + lo,
            0 <= lo < 0x100,
            0 <= hi,
    ;
}

proof fn lemma_be32_bytes(b: Seq<u8>, i: int)
    requires
        0 <= i,
        i + 4 <= b.len(),
    ensures
        be32_bytes(be32(b, i)) =~= seq![b[i], b[i + 1], b[i + 2], b[i + 3]],
{
    lemma_be16_bytes(b, i);
    lemma_be16_bytes(b, i + 2);
    let hi = be16(b, i) as int;
    let lo = be16(b, i + 2) as int;
    let v = be32(b, i) as int;
    assert(v == hi * 0x10000 + lo);
    assert(v / 0x10000 == hi && v % 0x10000 == lo) by (nonlinear_arith)
        requires
            v == hi * 0x10000 + lo,
            0 <= lo < 0x10000,
            0 <= hi,
    ;
}

proof fn lemma_be64_bytes(b: Seq<u8>, i: int)
    requires
        0 <= i,
        i + 8 <= b.len(),
    ensures
        be64_bytes(be64(b, i)) =~= seq![
            b[i],
            b[i + 1],
            b[i + 2],
            b[i + 3],
            b[i + 4],
            b[i + 5],
            b[i + 6],
            b[i + 7],
        ],
{
    lemma_be32_bytes(b, i);
    lemma_be32_bytes(b, i + 4);
    let hi = be32(b, i) as int;
    let lo = be32(b, i + 4) as int;
    let v = be64(b, i) as int;
    assert(v == hi * 0x1_0000_0000 + lo);
    assert(v / 0x1_0000_0000 == hi && v % 0x1_0000_0000 == lo) by (nonlinear_arith)
        requires
            v == hi * 0x1_0000_0000 + lo,
            0 <= lo < 0x1_0000_0000,
            0 <= hi,
    ;
}

/// Round trip: whenever decode accepts a run of bytes as one entry,
/// re-encoding the decoded entry reproduces exactly the bytes consumed.
/// So decode loses nothing and admits a single wire form per value.
pub proof fn lemma_entry_round_trip(b: Seq<u8>, pos: int, e: EntryModel, end: int)
    requires
        0 <= pos,
        spec_parse_entry(b, pos) == Ok::<(EntryModel, int), DecodeError>((e, end)),
    ensures
        pos < end <= b.len(),
        spec_encode_entry(e) =~= b.subrange(pos, end),
{
    let tag = b[pos];
    if tag == 7 || tag == 8 {
        lemma_be16_bytes(b, pos + 1);
        assert(spec_encode_entry(e) =~= b.subrange(pos, end));
    } else if tag == 9 || tag == 10 || tag == 11 || tag == 12 {
        lemma_be16_bytes(b, pos + 1);
        lemma_be16_bytes(b, pos + 3);
        assert(spec_encode_entry(e) =~= b.subrange(pos, end));
    } else if tag == 3 || tag == 4 {
        lemma_be32_bytes(b, pos + 1);
        let v = be32(b, pos + 1);
        assert((v as i32) as u32 == v) by (bit_vector);
        assert(spec_encode_entry(e) =~= b.subrange(pos, end));
    } else if tag == 5 || tag == 6 {
        lemma_be64_bytes(b, pos + 1);
        let v = be64(b, pos + 1);
        assert((v as i64) as u64 == v) by (bit_vector);
        assert(spec_encode_entry(e) =~= b.subrange(pos, end));
    } else {
        let n = be16(b, pos + 1) as int;
        let text = b.subrange(pos + 3, pos + 3 + n);
        assert(text.len() == n);
        assert(text.len() as u16 == be16(b, pos + 1));
        lemma_be16_bytes(b, pos + 1);
        assert(spec_encode_entry(e) =~= b.subrange(pos, end));
    }
}

proof fn lemma_entries_prefix(
    b: Seq<u8>,
    pos: int,
    n: nat,
    acc: Seq<EntryModel>,
    s: Seq<EntryModel>,
    end: int,
)
    requires
        spec_parse_entries(b, pos, n, acc) == Ok::<(Seq<EntryModel>, int), DecodeError>((s, end)),
    ensures
        s.len() == acc.len() + n,
        forall|j: int| 0 <= j < acc.len() ==> s[j] == acc[j],
    decreases n,
{
    if n != 0 {
        match spec_parse_entry(b, pos) {
            Ok((e, p2)) => {
                lemma_entries_prefix(b, p2, (n - 1) as nat, acc.push(e), s, end);
            },
            Err(_) => {},
        }
    }
}

/// Pool slot 0 is never populated by decode: every successful pool decode
/// yields exactly the declared number of slots, with the reserved
/// placeholder at slot 0 and all decoded entries from slot 1 on.
pub proof fn lemma_pool_slot_zero_reserved(
    b: Seq<u8>,
    pos: int,
    count: int,
    cp: Seq<EntryModel>,
    end: int,
)
    requires
        count >= 1,
        spec_parse_pool(b, pos, count) == Ok::<(Seq<EntryModel>, int), DecodeError>((cp, end)),
    ensures
        cp.len() == count,
        cp[0] == EntryModel::Reserved,
{
    lemma_entries_prefix(b, pos, (count - 1) as nat, seq![EntryModel::Reserved], cp, end);
}

/// Truncation at any offset strictly inside an accepted entry turns its
/// decode into a `TruncatedStream` failure: no entry decode ever reads a
/// byte at or past the truncation point and still succeeds.
pub proof fn lemma_entry_truncation(b: Seq<u8>, pos: int, e: EntryModel, end: int, k: int)
    requires
        0 <= pos,
        spec_parse_entry(b, pos) == Ok::<(EntryModel, int), DecodeError>((e, end)),
        0 <= k < end,
    ensures
        spec_parse_entry(b.take(k), pos) == Err::<(EntryModel, int), DecodeError>(
            DecodeError::TruncatedStream,
        ),
{
    let t = b.take(k);
    assert(t.len() == k);
    if pos + 1 <= k {
        assert(t[pos] == b[pos]);
        let tag = b[pos];
        if tag == 1 {
            if pos + 3 <= k {
                assert(t[pos + 1] == b[pos + 1] && t[pos + 2] == b[pos + 2]);
                assert(be16(t, pos + 1) == be16(b, pos + 1));
            }
        }
    }
}

/// A run of entry decodes only ever moves the position forward.
pub proof fn lemma_entries_advance(
    b: Seq<u8>,
    pos: int,
    n: nat,
    acc: Seq<EntryModel>,
    s: Seq<EntryModel>,
    end: int,
)
    requires
        spec_parse_entries(b, pos, n, acc) == Ok::<(Seq<EntryModel>, int), DecodeError>((s, end)),
    ensures
        pos <= end,
    decreases n,
{
    if n != 0 {
        match spec_parse_entry(b, pos) {
            Ok((e, p2)) => {
                lemma_entries_advance(b, p2, (n - 1) as nat, acc.push(e), s, end);
            },
            Err(_) => {},
        }
    }
}

/// A whole pool decode only ever moves the position forward.
pub proof fn lemma_pool_advance(b: Seq<u8>, pos: int, count: int, cp: Seq<EntryModel>, end: int)
    requires
        count >= 1,
        spec_parse_pool(b, pos, count) == Ok::<(Seq<EntryModel>, int), DecodeError>((cp, end)),
    ensures
        pos <= end,
{
    lemma_entries_advance(b, pos, (count - 1) as nat, seq![EntryModel::Reserved], cp, end);
}

/// One entry decode holds under truncation: decoding from a
/// truncated buffer either agrees with the full decode or fails with
/// `TruncatedStream`.
pub proof fn lemma_entry_take(b: Seq<u8>, pos: int, k: int)
    requires
        0 <= pos <= k <= b.len(),
    ensures
        take_outcome(spec_parse_entry(b, pos), spec_parse_entry(b.take(k), pos), k),
{
    let t = b.take(k);
    if spec_parse_entry(b, pos) is Ok && pos + 1 <= k {
        assert(t[pos] == b[pos]);
        let tag = b[pos];
        let p = pos + 1;
        if tag == 7 || tag == 8 {
            if p + 2 <= k {
                assert(t[p] == b[p] && t[p + 1] == b[p + 1]);
            }
        } else if tag == 9 || tag == 10 || tag == 11 || tag == 12 {
            if p + 4 <= k {
                assert(t[p] == b[p] && t[p + 1] == b[p + 1] && t[p + 2] == b[p + 2] && t[p + 3]
                    == b[p + 3]);
            }
        } else if tag == 3 || tag == 4 {
            if p + 4 <= k {
                assert(t[p] == b[p] && t[p + 1] == b[p + 1] && t[p + 2] == b[p + 2] && t[p + 3]
                    == b[p + 3]);
            }
        } else if tag == 5 || tag == 6 {
            if p + 8 <= k {
                assert(t[p] == b[p] && t[p + 1] == b[p + 1] && t[p + 2] == b[p + 2] && t[p + 3]
                    == b[p + 3] && t[p + 4] == b[p + 4] && t[p + 5] == b[p + 5] && t[p + 6] == b[p
                    + 6] && t[p + 7] == b[p + 7]);
            }
        } else if tag == 1 {
            if p + 2 <= k {
                assert(t[p] == b[p] && t[p + 1] == b[p + 1]);
                let n = be16(b, p) as int;
                if p + 2 + n <= k {
                    assert(t.subrange(p + 2, p + 2 + n) =~= b.subrange(p + 2, p + 2 + n));
                }
            }
        }
    }
}

/// A run of entry decodes holds under truncation: it either agrees with the full decode or fails with `TruncatedStream`.
pub proof fn lemma_entries_take(b: Seq<u8>, pos: int, n: nat, acc: Seq<EntryModel>, k: int)
    requires
        0 <= pos <= k <= b.len(),
    ensures
        take_outcome(
            spec_parse_entries(b, pos, n, acc),
            spec_parse_entries(b.take(k), pos, n, acc),
            k,
        ),
    decreases n,
{
    if n != 0 && spec_parse_entries(b, pos, n, acc) is Ok {
        match spec_parse_entry(b, pos) {
            Ok((e, p2)) => {
                lemma_entry_take(b, pos, k);
                if spec_parse_entry(b.take(k), pos) == Ok::<(EntryModel, int), DecodeError>(
                    (e, p2),
                ) && p2 <= k {
                    lemma_entries_take(b, p2, (n - 1) as nat, acc.push(e), k);
                }
            },
            Err(_) => {},
        }
    }
}

/// A whole pool decode holds under truncation: it either agrees with the full decode or fails with `TruncatedStream`.
pub proof fn lemma_pool_take(b: Seq<u8>, pos: int, count: int, k: int)
    requires
        0 <= pos <= k <= b.len(),
        count >= 1,
    ensures
        take_outcome(spec_parse_pool(b, pos, count), spec_parse_pool(b.take(k), pos, count), k),
{
    lemma_entries_take(b, pos, (count - 1) as nat, seq![EntryModel::Reserved], k);
}

/// The variant kinds of a constant-pool entry, for typed lookup.
#[derive(Debug, Clone, Copy, PartialEq, Eq, Structural)]
pub enum EntryKind {
    Utf8,
    Integer,
    Float,
    Long,
    Double,
    Class,
    Str,
    FieldRef,
    MethodRef,
    InterfaceMethodRef,
    NameAndType,
}

/// True when the entry is a live (non-reserved) entry of the given kind.
pub open spec fn entry_has_kind(e: EntryModel, k: EntryKind) -> bool {
    match e {
        EntryModel::Reserved => false,
        EntryModel::Utf8(_) => k == EntryKind::Utf8,
        EntryModel::Integer(_) => k == EntryKind::Integer,
        EntryModel::Float { .. } => k == EntryKind::Float,
        EntryModel::Long(_) => k == EntryKind::Long,
        EntryModel::Double { .. } => k == EntryKind::Double,
        EntryModel::Class { .. } => k == EntryKind::Class,
        EntryModel::Str { .. } => k == EntryKind::Str,
        EntryModel::FieldRef { .. } => k == EntryKind::FieldRef,
        EntryModel::MethodRef { .. } => k == EntryKind::MethodRef,
        EntryModel::InterfaceMethodRef { .. } => k == EntryKind::InterfaceMethodRef,
        EntryModel::NameAndType { .. } => k == EntryKind::NameAndType,
    }
}

/// Typed, checked lookup: returns the entry at a real (1-based) index when
/// it has the expected kind; fails with `DanglingReference` when the index
/// reaches no live entry (slot 0 included), and with `TypeMismatch` when
/// the entry there has another kind. Never allocates a new entry.
pub fn lookup<'a>(cp: &'a ConstantPool, idx: usize, kind: EntryKind) -> (r: Result<
    &'a ConstantPoolEntry,
    DecodeError,
>)
    ensures
        match r {
            Ok(e) => 1 <= idx < cp@.len() && *e == cp@[idx as int] && entry_has_kind(
                pool_model(cp@)[idx as int],
                kind,
            ),
            Err(err) => {
                ||| (err == DecodeError::DanglingReference && !(1 <= idx < cp@.len()))
                ||| (err == DecodeError::TypeMismatch && 1 <= idx < cp@.len() && !entry_has_kind(
                    pool_model(cp@)[idx as int],
                    kind,
                ))
            },
        },
{
    if idx == 0 || idx >= cp.len() {
        Err(DecodeError::DanglingReference)
    } else {
        let e = &cp[idx];
        if entry_kind_matches(e, kind) {
            Ok(e)
        } else {
            Err(DecodeError::TypeMismatch)
        }
    }
}

/// Reports whether a live entry has the given kind.
fn entry_kind_matches(e: &ConstantPoolEntry, k: EntryKind) -> (r: bool)
    ensures
        r == entry_has_kind(e@, k),
{
    match e {
        ConstantPoolEntry::Reserved => false,
        ConstantPoolEntry::Utf8(_) => k == EntryKind::Utf8,
        ConstantPoolEntry::Integer(_) => k == EntryKind::Integer,
        ConstantPoolEntry::Float { .. } => k == EntryKind::Float,
        ConstantPoolEntry::Long(_) => k == EntryKind::Long,
        ConstantPoolEntry::Double { .. } => k == EntryKind::Double,
        ConstantPoolEntry::Class { .. } => k == EntryKind::Class,
        ConstantPoolEntry::Str { .. } => k == EntryKind::Str,
        ConstantPoolEntry::FieldRef { .. } => k == EntryKind::FieldRef,
        ConstantPoolEntry::MethodRef { .. } => k == EntryKind::MethodRef,
        ConstantPoolEntry::InterfaceMethodRef { .. } => k == EntryKind::InterfaceMethodRef,
        ConstantPoolEntry::NameAndType { .. } => k == EntryKind::NameAndType,
    }
}

} // verus!
