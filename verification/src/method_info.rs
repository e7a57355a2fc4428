use crate::attributes::{attrs_model, spec_parse_attrs, AttrModel, Attributes};
use crate::constant_pool::{pool_model, ConstantPool};
use crate::cursor::ByteCursor;
use crate::error::DecodeError;
use crate::field_info::{spec_parse_member, MemberModel};
use vstd::prelude::*;

verus! {

/// One method record: the same shape as a field record; only downstream
/// interpretation differs. The decoder accepts any attribute count and
/// leaves semantic policy to higher layers.
#[derive(Debug)]
pub struct MethodInfo {
    pub access_flags: u16,
    pub name_idx: usize,
    pub descriptor_idx: usize,
    pub attributes_count: usize,
    pub attributes: Vec<Attributes>,
}

impl View for MethodInfo {
    type V = MemberModel;

    open spec fn view(&self) -> MemberModel {
        MemberModel {
            access_flags: self.access_flags,
            name_idx: self.name_idx,
            descriptor_idx: self.descriptor_idx,
            attributes_count: self.attributes_count,
            attributes: attrs_model(self.attributes@),
        }
    }
}

impl MethodInfo {
    /// Reads one method record from the cursor.
    #[verifier::loop_isolation(false)]
    #[verifier::rlimit(60)]
    pub fn new(byte_rdr: &mut ByteCursor, cp: &ConstantPool) -> (r: Result<
        MethodInfo,
        DecodeError,
    >)
        ensures
            final(byte_rdr).buf == old(byte_rdr).buf,
            match r {
                Ok(m) => spec_parse_member(
                    old(byte_rdr).buf@,
                    old(byte_rdr).pos as int,
                    pool_model(cp@),
                ) == Ok::<(MemberModel, int), DecodeError>((m@, final(byte_rdr).pos as int)),
                Err(e) => spec_parse_member(
                    old(byte_rdr).buf@,
                    old(byte_rdr).pos as int,
                    pool_model(cp@),
                ) == Err::<(MemberModel, int), DecodeError>(e),
            },
    {
        let ghost b = byte_rdr.buf@;
        let access_flags = match byte_rdr.read_u16() {
            Ok(v) => v,
            Err(e) => {
                return Err(e);
            },
        };
        let name_idx = match byte_rdr.read_u16() {
            Ok(v) => v,
            Err(e) => {
                return Err(e);
            },
        };
        let descriptor_idx = match byte_rdr.read_u16() {
            Ok(v) => v,
            Err(e) => {
                return Err(e);
            },
        };
        let attributes_count = match byte_rdr.read_u16() {
            Ok(v) => v,
            Err(e) => {
                return Err(e);
            },
        };
        let ghost apos = byte_rdr.pos as int;
        let mut attributes: Vec<Attributes> = Vec::new();
        proof {
            assert(attrs_model(attributes@) =~= Seq::<AttrModel>::empty());
        }
        let mut i: usize = 0;
        while i < attributes_count as usize
            invariant
                i <= attributes_count as usize,
                attributes@.len() == i,
                byte_rdr.buf == old(byte_rdr).buf,
                spec_parse_attrs(b, apos, pool_model(cp@), attributes_count as nat, Seq::empty())
                    == spec_parse_attrs(
                    b,
                    byte_rdr.pos as int,
                    pool_model(cp@),
                    (attributes_count as usize - i) as nat,
                    attrs_model(attributes@),
                ),
            decreases attributes_count as usize - i,
        {
            let ghost dv_before = attrs_model(attributes@);
            let a = match Attributes::parse_attribute(byte_rdr, cp) {
                Ok(a) => a,
                Err(e) => {
                    return Err(e);
                },
            };
            attributes.push(a);
            i = i + 1;
            proof {
                assert(attrs_model(attributes@) =~= dv_before.push(a@));
            }
        }
        Ok(
            MethodInfo {
                access_flags,
                name_idx: name_idx as usize,
                descriptor_idx: descriptor_idx as usize,
                attributes_count: attributes_count as usize,
                attributes,
            },
        )
    }
}

} // verus!
