use crate::attributes::{attrs_model, lemma_attrs_advance, lemma_attrs_take, spec_parse_attrs,
    AttrModel, Attributes};
use crate::constant_pool::{pool_model, ConstantPool, EntryModel};
use crate::cursor::{be16, take_outcome, ByteCursor};
use crate::error::DecodeError;
use vstd::prelude::*;

verus! {

/// The ghost shape of one field or method record: both share it, since
/// the format gives them identical structure.
pub struct MemberModel {
    pub access_flags: u16,
    pub name_idx: usize,
    pub descriptor_idx: usize,
    pub attributes_count: usize,
    pub attributes: Seq<AttrModel>,
}

/// Decode of one member (field or method) record at `pos`: access flags,
/// name index, descriptor index, then the declared number of attribute
/// records.
pub open spec fn spec_parse_member(b: Seq<u8>, pos: int, cp: Seq<EntryModel>) -> Result<
    (MemberModel, int),
    DecodeError,
> {
    if pos + 8 > b.len() {
        Err(DecodeError::TruncatedStream)
    } else {
        let n = be16(b, pos + 6) as nat;
        match spec_parse_attrs(b, pos + 8, cp, n, Seq::empty()) {
            Ok((attrs, p2)) => Ok(
                (
                    MemberModel {
                        access_flags: be16(b, pos),
                        name_idx: be16(b, pos + 2) as usize,
                        descriptor_idx: be16(b, pos + 4) as usize,
                        attributes_count: be16(b, pos + 6) as usize,
                        attributes: attrs,
                    },
                    p2,
                ),
            ),
            Err(k) => Err(k),
        }
    }
}

/// One member decode only ever moves the position forward.
pub proof fn lemma_member_advance(b: Seq<u8>, pos: int, cp: Seq<EntryModel>, m: MemberModel, end: int)
    requires
        spec_parse_member(b, pos, cp) == Ok::<(MemberModel, int), DecodeError>((m, end)),
    ensures
        pos <= end,
{
    let n = be16(b, pos + 6) as nat;
    match spec_parse_attrs(b, pos + 8, cp, n, Seq::empty()) {
        Ok((attrs, p2)) => {
            lemma_attrs_advance(b, pos + 8, cp, n, Seq::empty(), attrs, p2);
        },
        Err(_) => {},
    }
}

/// One member decode holds under truncation: it either agrees with the full decode or fails with `TruncatedStream`.
pub proof fn lemma_member_take(b: Seq<u8>, pos: int, cp: Seq<EntryModel>, k: int)
    requires
        0 <= pos <= k <= b.len(),
    ensures
        take_outcome(spec_parse_member(b, pos, cp), spec_parse_member(b.take(k), pos, cp), k),
{
    let t = b.take(k);
    if spec_parse_member(b, pos, cp) is Ok && pos + 8 <= k {
        assert(t[pos] == b[pos] && t[pos + 1] == b[pos + 1] && t[pos + 2] == b[pos + 2] && t[pos
            + 3] == b[pos + 3] && t[pos + 4] == b[pos + 4] && t[pos + 5] == b[pos + 5] && t[pos + 6]
            == b[pos + 6] && t[pos + 7] == b[pos + 7]);
        let n = be16(b, pos + 6) as nat;
        lemma_attrs_take(b, pos + 8, cp, n, Seq::empty(), k);
    }
}

/// One field record: flags, name and descriptor references into the
/// constant pool, and the field's attribute list.
#[derive(Debug)]
pub struct FieldInfo {
    pub access_flags: u16,
    pub name_idx: usize,
    pub descriptor_idx: usize,
    pub attributes_count: usize,
    pub attributes: Vec<Attributes>,
}

impl View for FieldInfo {
    type V = MemberModel;

    open spec fn view(&self) -> MemberModel {
        MemberModel {
            access_flags: self.access_flags,
            name_idx: self.name_idx,
            descriptor_idx: self.descriptor_idx,
            attributes_count: self.attributes_count,
            attributes: attrs_model(self.attributes@),
        }
    }
}

impl FieldInfo {
    /// A zero-initialized field record, before any bytes are read into it.
    pub fn new() -> (f: FieldInfo)
        ensures
            f.access_flags == 0,
            f.name_idx == 0,
            f.descriptor_idx == 0,
            f.attributes_count == 0,
            f.attributes@.len() == 0,
    {
        FieldInfo {
            access_flags: 0,
            name_idx: 0,
            descriptor_idx: 0,
            attributes_count: 0,
            attributes: Vec::new(),
        }
    }

    /// Reads one field record from the cursor, replacing this record's
    /// fields with the decoded values.
    #[verifier::loop_isolation(false)]
    #[verifier::rlimit(60)]
    pub fn parse_field(&mut self, byte_rdr: &mut ByteCursor, cp: &ConstantPool) -> (r: Result<
        (),
        DecodeError,
    >)
        ensures
            final(byte_rdr).buf == old(byte_rdr).buf,
            match r {
                Ok(_) => spec_parse_member(
                    old(byte_rdr).buf@,
                    old(byte_rdr).pos as int,
                    pool_model(cp@),
                ) == Ok::<(MemberModel, int), DecodeError>((final(self)@, final(byte_rdr).pos as int)),
                Err(e) => spec_parse_member(
                    old(byte_rdr).buf@,
                    old(byte_rdr).pos as int,
                    pool_model(cp@),
                ) == Err::<(MemberModel, int), DecodeError>(e),
            },
    {
        let ghost b = byte_rdr.buf@;
        let access_flags = match byte_rdr.read_u16() {
            Ok(v) => v,
            Err(e) => {
                return Err(e);
            },
        };
        let name_idx = match byte_rdr.read_u16() {
            Ok(v) => v,
            Err(e) => {
                return Err(e);
            },
        };
        let descriptor_idx = match byte_rdr.read_u16() {
            Ok(v) => v,
            Err(e) => {
                return Err(e);
            },
        };
        let attributes_count = match byte_rdr.read_u16() {
            Ok(v) => v,
            Err(e) => {
                return Err(e);
            },
        };
        let ghost apos = byte_rdr.pos as int;
        let mut attributes: Vec<Attributes> = Vec::new();
        proof {
            assert(attrs_model(attributes@) =~= Seq::<AttrModel>::empty());
        }
        let mut i: usize = 0;
        while i < attributes_count as usize
            invariant
                i <= attributes_count as usize,
                attributes@.len() == i,
                byte_rdr.buf == old(byte_rdr).buf,
                spec_parse_attrs(b, apos, pool_model(cp@), attributes_count as nat, Seq::empty())
                    == spec_parse_attrs(
                    b,
                    byte_rdr.pos as int,
                    pool_model(cp@),
                    (attributes_count as usize - i) as nat,
                    attrs_model(attributes@),
                ),
            decreases attributes_count as usize - i,
        {
            let ghost dv_before = attrs_model(attributes@);
            let a = match Attributes::parse_attribute(byte_rdr, cp) {
                Ok(a) => a,
                Err(e) => {
                    return Err(e);
                },
            };
            attributes.push(a);
            i = i + 1;
            proof {
                assert(attrs_model(attributes@) =~= dv_before.push(a@));
            }
        }
        *self = FieldInfo {
            access_flags,
            name_idx: name_idx as usize,
            descriptor_idx: descriptor_idx as usize,
            attributes_count: attributes_count as usize,
            attributes,
        };
        Ok(())
    }
}

} // verus!
