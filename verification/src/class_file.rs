use crate::constant_pool::{lemma_pool_advance, lemma_pool_take, parse_pool, pool_model,
    spec_parse_pool, ConstantPool, ConstantPoolEntry, EntryModel};
use crate::cursor::{be16, be32, take_outcome, ByteCursor};
use crate::error::DecodeError;
use crate::field_info::{lemma_member_advance, lemma_member_take, spec_parse_member, FieldInfo,
    MemberModel};
use crate::method_info::MethodInfo;
use vstd::prelude::*;

verus! {

/// The ghost shape of a fully decoded class record.
#[verifier::ext_equal]
pub struct ClassModel {
    pub magic: u32,
    pub minor_version: u16,
    pub major_version: u16,
    pub constant_pool_count: usize,
    pub cp: Seq<EntryModel>,
    pub access_flags: u16,
    pub this_class: usize,
    pub super_class: usize,
    pub super_interfaces: Seq<usize>,
    pub fields: Seq<MemberModel>,
    pub methods: Seq<MemberModel>,
}

/// The ghost contents of a field list.
pub open spec fn fields_model(fs: Seq<FieldInfo>) -> Seq<MemberModel> {
    fs.map_values(|f: FieldInfo| f@)
}

/// The ghost contents of a method list.
pub open spec fn methods_model(ms: Seq<MethodInfo>) -> Seq<MemberModel> {
    ms.map_values(|m: MethodInfo| m@)
}

/// True when `idx` reaches a Class entry whose name index reaches a UTF8
/// entry: the type-checked, two-hop resolution demanded of the this-class
/// and super-class references.
pub open spec fn class_name_resolves(cp: Seq<EntryModel>, idx: int) -> bool {
    &&& 1 <= idx < cp.len()
    &&& match cp[idx] {
        EntryModel::Class { name_idx } => 1 <= name_idx < cp.len() && cp[name_idx as int] is Utf8,
        _ => false,
    }
}

/// Decode of the class header: magic (which must be 0xCAFEBABE), minor
/// and major version, and the constant-pool count (which must be
/// positive). The result tuple is (magic, minor, major, pool count).
pub open spec fn spec_parse_header(b: Seq<u8>, pos: int) -> Result<
    ((u32, u16, u16, usize), int),
    DecodeError,
> {
    if pos + 4 > b.len() {
        Err(DecodeError::TruncatedStream)
    } else {
        let magic = be32(b, pos);
        if magic != 0xCAFEBABEu32 {
            Err(DecodeError::MalformedHeader)
        } else if pos + 10 > b.len() {
            Err(DecodeError::TruncatedStream)
        } else {
            let cpc = be16(b, pos + 8);
            if cpc == 0 {
                Err(DecodeError::MalformedHeader)
            } else {
                Ok(((magic, be16(b, pos + 4), be16(b, pos + 6), cpc as usize), pos + 10))
            }
        }
    }
}

/// Decode of `n` consecutive big-endian 16-bit values widened to indices,
/// appended to `acc`.
pub open spec fn spec_parse_idxs(b: Seq<u8>, pos: int, n: nat, acc: Seq<usize>) -> Result<
    (Seq<usize>, int),
    DecodeError,
>
    decreases n,
{
    if n == 0 {
        Ok((acc, pos))
    } else if pos + 2 > b.len() {
        Err(DecodeError::TruncatedStream)
    } else {
        spec_parse_idxs(b, pos + 2, (n - 1) as nat, acc.push(be16(b, pos) as usize))
    }
}

/// Decode of the pool-and-identity stage: the pool itself, then access
/// flags, the this-class and super-class references (each validated by
/// two-hop resolution when nonzero; index 0 stands for "no class"), then
/// the super-interface index list. The result tuple is (pool, flags,
/// this-class, super-class, interfaces).
pub open spec fn spec_parse_stage2(b: Seq<u8>, pos: int, cpc: int) -> Result<
    ((Seq<EntryModel>, u16, usize, usize, Seq<usize>), int),
    DecodeError,
> {
    match spec_parse_pool(b, pos, cpc) {
        Err(k) => Err(k),
        Ok((cp, p1)) => {
            if p1 + 6 > b.len() {
                Err(DecodeError::TruncatedStream)
            } else {
                let flags = be16(b, p1);
                let this_c = be16(b, p1 + 2) as int;
                let super_c = be16(b, p1 + 4) as int;
                if this_c != 0 && !class_name_resolves(cp, this_c) {
                    Err(DecodeError::DanglingReference)
                } else if super_c != 0 && !class_name_resolves(cp, super_c) {
                    Err(DecodeError::DanglingReference)
                } else if p1 + 8 > b.len() {
                    Err(DecodeError::TruncatedStream)
                } else {
                    let icount = be16(b, p1 + 6) as nat;
                    match spec_parse_idxs(b, p1 + 8, icount, Seq::empty()) {
                        Ok((ifs, p2)) => Ok(
                            ((cp, flags, this_c as usize, super_c as usize, ifs), p2),
                        ),
                        Err(k) => Err(k),
                    }
                }
            }
        },
    }
}

/// Decode of `n` consecutive member records, appended to `acc`.
pub open spec fn spec_parse_members(
    b: Seq<u8>,
    pos: int,
    cp: Seq<EntryModel>,
    n: nat,
    acc: Seq<MemberModel>,
) -> Result<(Seq<MemberModel>, int), DecodeError>
    decreases n,
{
    if n == 0 {
        Ok((acc, pos))
    } else {
        match spec_parse_member(b, pos, cp) {
            Ok((m, p2)) => spec_parse_members(b, p2, cp, (n - 1) as nat, acc.push(m)),
            Err(k) => Err(k),
        }
    }
}

/// Decode of a member block: a count, then exactly that many member
/// records.
pub open spec fn spec_parse_member_block(b: Seq<u8>, pos: int, cp: Seq<EntryModel>) -> Result<
    (Seq<MemberModel>, int),
    DecodeError,
> {
    if pos + 2 > b.len() {
        Err(DecodeError::TruncatedStream)
    } else {
        spec_parse_members(b, pos + 2, cp, be16(b, pos) as nat, Seq::empty())
    }
}

/// Decode of a whole class record: header, pool and class identity,
/// fields, then methods, in strict grammar order. Trailing bytes past the
/// last method are left unread.
pub open spec fn spec_parse_class(b: Seq<u8>, pos: int) -> Result<(ClassModel, int), DecodeError> {
    match spec_parse_header(b, pos) {
        Err(k) => Err(k),
        Ok((h, p1)) => match spec_parse_stage2(b, p1, h.3 as int) {
            Err(k) => Err(k),
            Ok((s2, p2)) => match spec_parse_member_block(b, p2, s2.0) {
                Err(k) => Err(k),
                Ok((fields, p3)) => match spec_parse_member_block(b, p3, s2.0) {
                    Err(k) => Err(k),
                    Ok((methods, p4)) => Ok(
                        (
                            ClassModel {
                                magic: h.0,
                                minor_version: h.1,
                                major_version: h.2,
                                constant_pool_count: h.3,
                                cp: s2.0,
                                access_flags: s2.1,
                                this_class: s2.2,
                                super_class: s2.3,
                                super_interfaces: s2.4,
                                fields,
                                methods,
                            },
                            p4,
                        ),
                    ),
                },
            },
        },
    }
}

/// A run of index reads holds under truncation: it either agrees with the full decode or fails with `TruncatedStream`.
pub proof fn lemma_idxs_take(b: Seq<u8>, pos: int, n: nat, acc: Seq<usize>, k: int)
    requires
        0 <= pos <= k <= b.len(),
    ensures
        take_outcome(spec_parse_idxs(b, pos, n, acc), spec_parse_idxs(b.take(k), pos, n, acc), k),
    decreases n,
{
    let t = b.take(k);
    if n != 0 && spec_parse_idxs(b, pos, n, acc) is Ok {
        if pos + 2 <= k {
            assert(t[pos] == b[pos] && t[pos + 1] == b[pos + 1]);
            lemma_idxs_take(b, pos + 2, (n - 1) as nat, acc.push(be16(b, pos) as usize), k);
        }
    }
}

/// A run of index reads only ever moves the position forward.
pub proof fn lemma_idxs_advance(b: Seq<u8>, pos: int, n: nat, acc: Seq<usize>, s: Seq<usize>, end: int)
    requires
        spec_parse_idxs(b, pos, n, acc) == Ok::<(Seq<usize>, int), DecodeError>((s, end)),
    ensures
        pos <= end,
    decreases n,
{
    if n != 0 && pos + 2 <= b.len() {
        lemma_idxs_advance(b, pos + 2, (n - 1) as nat, acc.push(be16(b, pos) as usize), s, end);
    }
}

/// A run of member decodes only ever moves the position forward.
pub proof fn lemma_members_advance(
    b: Seq<u8>,
    pos: int,
    cp: Seq<EntryModel>,
    n: nat,
    acc: Seq<MemberModel>,
    s: Seq<MemberModel>,
    end: int,
)
    requires
        spec_parse_members(b, pos, cp, n, acc) == Ok::<(Seq<MemberModel>, int), DecodeError>(
            (s, end),
        ),
    ensures
        pos <= end,
    decreases n,
{
    if n != 0 {
        match spec_parse_member(b, pos, cp) {
            Ok((m, p2)) => {
                lemma_member_advance(b, pos, cp, m, p2);
                lemma_members_advance(b, p2, cp, (n - 1) as nat, acc.push(m), s, end);
            },
            Err(_) => {},
        }
    }
}

/// A member block decode only ever moves the position forward.
pub proof fn lemma_member_block_advance(
    b: Seq<u8>,
    pos: int,
    cp: Seq<EntryModel>,
    s: Seq<MemberModel>,
    end: int,
)
    requires
        spec_parse_member_block(b, pos, cp) == Ok::<(Seq<MemberModel>, int), DecodeError>((s, end)),
    ensures
        pos <= end,
{
    if pos + 2 <= b.len() {
        lemma_members_advance(b, pos + 2, cp, be16(b, pos) as nat, Seq::empty(), s, end);
    }
}

/// The pool-and-identity stage decode only ever moves the position
/// forward.
pub proof fn lemma_stage2_advance(
    b: Seq<u8>,
    pos: int,
    cpc: int,
    s2: (Seq<EntryModel>, u16, usize, usize, Seq<usize>),
    end: int,
)
    requires
        cpc >= 1,
        spec_parse_stage2(b, pos, cpc) == Ok::<
            ((Seq<EntryModel>, u16, usize, usize, Seq<usize>), int),
            DecodeError,
        >((s2, end)),
    ensures
        pos <= end,
{
    match spec_parse_pool(b, pos, cpc) {
        Ok((cp, p1)) => {
            lemma_pool_advance(b, pos, cpc, cp, p1);
            if p1 + 8 <= b.len() {
                match spec_parse_idxs(b, p1 + 8, be16(b, p1 + 6) as nat, Seq::empty()) {
                    Ok((ifs, p2)) => {
                        lemma_idxs_advance(b, p1 + 8, be16(b, p1 + 6) as nat, Seq::empty(), ifs, p2);
                    },
                    Err(_) => {},
                }
            }
        },
        Err(_) => {},
    }
}

/// A run of member decodes holds under truncation: it either agrees with the full decode or fails with `TruncatedStream`.
pub proof fn lemma_members_take(
    b: Seq<u8>,
    pos: int,
    cp: Seq<EntryModel>,
    n: nat,
    acc: Seq<MemberModel>,
    k: int,
)
    requires
        0 <= pos <= k <= b.len(),
    ensures
        take_outcome(
            spec_parse_members(b, pos, cp, n, acc),
            spec_parse_members(b.take(k), pos, cp, n, acc),
            k,
        ),
    decreases n,
{
    if n != 0 && spec_parse_members(b, pos, cp, n, acc) is Ok {
        match spec_parse_member(b, pos, cp) {
            Ok((m, p2)) => {
                lemma_member_advance(b, pos, cp, m, p2);
                lemma_member_take(b, pos, cp, k);
                if spec_parse_member(b.take(k), pos, cp) == Ok::<(MemberModel, int), DecodeError>(
                    (m, p2),
                ) && p2 <= k {
                    lemma_members_take(b, p2, cp, (n - 1) as nat, acc.push(m), k);
                }
            },
            Err(_) => {},
        }
    }
}

/// A member block decode holds under truncation: it either agrees with the full decode or fails with `TruncatedStream`.
pub proof fn lemma_member_block_take(b: Seq<u8>, pos: int, cp: Seq<EntryModel>, k: int)
    requires
        0 <= pos <= k <= b.len(),
    ensures
        take_outcome(
            spec_parse_member_block(b, pos, cp),
            spec_parse_member_block(b.take(k), pos, cp),
            k,
        ),
{
    let t = b.take(k);
    if spec_parse_member_block(b, pos, cp) is Ok && pos + 2 <= k {
        assert(t[pos] == b[pos] && t[pos + 1] == b[pos + 1]);
        lemma_members_take(b, pos + 2, cp, be16(b, pos) as nat, Seq::empty(), k);
    }
}

/// The header decode holds under truncation: it either agrees with the full decode or fails with `TruncatedStream`.
pub proof fn lemma_header_take(b: Seq<u8>, pos: int, k: int)
    requires
        0 <= pos <= k <= b.len(),
    ensures
        take_outcome(spec_parse_header(b, pos), spec_parse_header(b.take(k), pos), k),
{
    let t = b.take(k);
    if spec_parse_header(b, pos) is Ok && pos + 4 <= k {
        assert(t[pos] == b[pos] && t[pos + 1] == b[pos + 1] && t[pos + 2] == b[pos + 2] && t[pos
            + 3] == b[pos + 3]);
        if pos + 10 <= k {
            assert(t[pos + 4] == b[pos + 4] && t[pos + 5] == b[pos + 5] && t[pos + 6] == b[pos + 6]
                && t[pos + 7] == b[pos + 7] && t[pos + 8] == b[pos + 8] && t[pos + 9] == b[pos
                + 9]);
        }
    }
}

/// The pool-and-identity stage decode holds under truncation: it either agrees with the full decode or fails with `TruncatedStream`.
pub proof fn lemma_stage2_take(b: Seq<u8>, pos: int, cpc: int, k: int)
    requires
        0 <= pos <= k <= b.len(),
        cpc >= 1,
    ensures
        take_outcome(spec_parse_stage2(b, pos, cpc), spec_parse_stage2(b.take(k), pos, cpc), k),
{
    let t = b.take(k);
    if spec_parse_stage2(b, pos, cpc) is Ok {
        match spec_parse_pool(b, pos, cpc) {
            Ok((cp, p1)) => {
                lemma_pool_advance(b, pos, cpc, cp, p1);
                lemma_pool_take(b, pos, cpc, k);
                if spec_parse_pool(t, pos, cpc) == Ok::<(Seq<EntryModel>, int), DecodeError>(
                    (cp, p1),
                ) && p1 <= k {
                    if p1 + 6 <= k {
                        assert(t[p1] == b[p1] && t[p1 + 1] == b[p1 + 1] && t[p1 + 2] == b[p1 + 2]
                            && t[p1 + 3] == b[p1 + 3] && t[p1 + 4] == b[p1 + 4] && t[p1 + 5] == b[p1
                            + 5]);
                        if p1 + 8 <= k {
                            assert(t[p1 + 6] == b[p1 + 6] && t[p1 + 7] == b[p1 + 7]);
                            lemma_idxs_take(b, p1 + 8, be16(b, p1 + 6) as nat, Seq::empty(), k);
                        }
                    }
                }
            },
            Err(_) => {},
        }
    }
}

/// Truncation law: cutting an accepted class file anywhere strictly
/// before the position its decode ends at turns the decode into a
/// `TruncatedStream` failure — never a wrong value, never another
/// failure kind. Together with the decoder's freedom from panics, this
/// says no decode ever depends on bytes past the end of its buffer.
#[verifier::rlimit(100)]
pub proof fn lemma_class_truncation(b: Seq<u8>, pos: int, c: ClassModel, end: int, k: int)
    requires
        0 <= pos <= k <= b.len(),
        spec_parse_class(b, pos) == Ok::<(ClassModel, int), DecodeError>((c, end)),
        k < end,
    ensures
        spec_parse_class(b.take(k), pos) == Err::<(ClassModel, int), DecodeError>(
            DecodeError::TruncatedStream,
        ),
{
    let t = b.take(k);
    match spec_parse_header(b, pos) {
        Ok((h, p1)) => {
            lemma_header_take(b, pos, k);
            if spec_parse_header(t, pos) == Ok::<((u32, u16, u16, usize), int), DecodeError>(
                (h, p1),
            ) && p1 <= k {
                match spec_parse_stage2(b, p1, h.3 as int) {
                    Ok((s2, p2)) => {
                        lemma_stage2_advance(b, p1, h.3 as int, s2, p2);
                        lemma_stage2_take(b, p1, h.3 as int, k);
                        if spec_parse_stage2(t, p1, h.3 as int) == Ok::<
                            ((Seq<EntryModel>, u16, usize, usize, Seq<usize>), int),
                            DecodeError,
                        >((s2, p2)) && p2 <= k {
                            match spec_parse_member_block(b, p2, s2.0) {
                                Ok((fields, p3)) => {
                                    lemma_member_block_advance(b, p2, s2.0, fields, p3);
                                    lemma_member_block_take(b, p2, s2.0, k);
                                    if spec_parse_member_block(t, p2, s2.0) == Ok::<
                                        (Seq<MemberModel>, int),
                                        DecodeError,
                                    >((fields, p3)) && p3 <= k {
                                        match spec_parse_member_block(b, p3, s2.0) {
                                            Ok((methods, p4)) => {
                                                lemma_member_block_advance(b, p3, s2.0, methods, p4);
                                                lemma_member_block_take(b, p3, s2.0, k);
                                                if spec_parse_member_block(t, p3, s2.0) == Ok::<
                                                    (Seq<MemberModel>, int),
                                                    DecodeError,
                                                >((methods, p4)) && p4 <= k {
                                                    assert(p4 == end);
                                                    assert(false);
                                                }
                                            },
                                            Err(_) => {
                                                assert(false);
                                            },
                                        }
                                    }
                                },
                                Err(_) => {
                                    assert(false);
                                },
                            }
                        }
                    },
                    Err(_) => {
                        assert(false);
                    },
                }
            }
        },
        Err(_) => {
            assert(false);
        },
    }
}

/// The decoded class record: header values, the owned constant pool, the
/// class identity references, and the field and method lists, each owned
/// exclusively by this record.
#[derive(Debug)]
pub struct ClassFile {
    pub magic: u32,
    pub minor_version: u16,
    pub major_version: u16,
    pub constant_pool_count: usize,
    pub cp: ConstantPool,
    pub access_flags: u16,
    pub this_class: usize,
    pub super_class: usize,
    pub super_interfaces: Vec<usize>,
    pub fields: Vec<FieldInfo>,
    pub methods: Vec<MethodInfo>,
}

impl View for ClassFile {
    type V = ClassModel;

    open spec fn view(&self) -> ClassModel {
        ClassModel {
            magic: self.magic,
            minor_version: self.minor_version,
            major_version: self.major_version,
            constant_pool_count: self.constant_pool_count,
            cp: pool_model(self.cp@),
            access_flags: self.access_flags,
            this_class: self.this_class,
            super_class: self.super_class,
            super_interfaces: self.super_interfaces@,
            fields: fields_model(self.fields@),
            methods: methods_model(self.methods@),
        }
    }
}

impl ClassFile {
    /// A zero-initialized class record, before any bytes are read into it.
    pub fn new() -> (c: ClassFile)
        ensures
            c.magic == 0,
            c.minor_version == 0,
            c.major_version == 0,
            c.constant_pool_count == 0,
            c.cp@.len() == 0,
            c.access_flags == 0,
            c.this_class == 0,
            c.super_class == 0,
            c.super_interfaces@.len() == 0,
            c.fields@.len() == 0,
            c.methods@.len() == 0,
    {
        ClassFile {
            magic: 0,
            minor_version: 0,
            major_version: 0,
            constant_pool_count: 0,
            cp: Vec::new(),
            access_flags: 0,
            this_class: 0,
            super_class: 0,
            super_interfaces: Vec::new(),
            fields: Vec::new(),
            methods: Vec::new(),
        }
    }

    /// Resolves a class reference by two hops: the entry at `class_idx`
    /// must be a Class entry, and the entry at its name index must be a
    /// UTF8 entry, which is returned. Index 0 (the reserved slot) is
    /// never a valid target.
    fn get_class_entry(&self, class_idx: usize) -> (r: Result<&ConstantPoolEntry, DecodeError>)
        ensures
            match r {
                Ok(e) => class_name_resolves(pool_model(self.cp@), class_idx as int) && (pool_model(
                    self.cp@,
                )[class_idx as int] matches EntryModel::Class { name_idx } && *e
                    == self.cp@[name_idx as int]),
                Err(err) => err == DecodeError::DanglingReference && !class_name_resolves(
                    pool_model(self.cp@),
                    class_idx as int,
                ),
            },
    {
        if class_idx == 0 || class_idx >= self.cp.len() {
            return Err(DecodeError::DanglingReference);
        }
        match &self.cp[class_idx] {
            ConstantPoolEntry::Class { name_idx } => {
                let ni = *name_idx as usize;
                if ni == 0 || ni >= self.cp.len() {
                    return Err(DecodeError::DanglingReference);
                }
                match &self.cp[ni] {
                    ConstantPoolEntry::Utf8(_) => Ok(&self.cp[ni]),
                    _ => Err(DecodeError::DanglingReference),
                }
            },
            _ => Err(DecodeError::DanglingReference),
        }
    }

    /// Decodes a whole class record from the cursor, in strict stage
    /// order: header, pool and class identity, fields, methods. On
    /// failure the error of the failing stage propagates and no partial
    /// result is promised.
    pub fn parse(&mut self, byte_rdr: &mut ByteCursor) -> (r: Result<(), DecodeError>)
        ensures
            final(byte_rdr).buf == old(byte_rdr).buf,
            match r {
                Ok(_) => spec_parse_class(old(byte_rdr).buf@, old(byte_rdr).pos as int) == Ok::<
                    (ClassModel, int),
                    DecodeError,
                >((final(self)@, final(byte_rdr).pos as int)),
                Err(e) => spec_parse_class(old(byte_rdr).buf@, old(byte_rdr).pos as int) == Err::<
                    (ClassModel, int),
                    DecodeError,
                >(e),
            },
    {
        match self.parse_class_header(byte_rdr) {
            Ok(_) => {},
            Err(e) => {
                return Err(e);
            },
        }
        match self.parse_constant_pool(byte_rdr) {
            Ok(_) => {},
            Err(e) => {
                return Err(e);
            },
        }
        match self.parse_fields(byte_rdr) {
            Ok(_) => {},
            Err(e) => {
                return Err(e);
            },
        }
        match self.parse_methods(byte_rdr) {
            Ok(_) => {},
            Err(e) => {
                return Err(e);
            },
        }
        Ok(())
    }

    /// Reads the header stage: magic, versions, pool count, with the
    /// magic and positive-count checks of the header grammar.
    fn parse_class_header(&mut self, byte_rdr: &mut ByteCursor) -> (r: Result<(), DecodeError>)
        ensures
            final(byte_rdr).buf == old(byte_rdr).buf,
            final(self).cp == old(self).cp,
            final(self).access_flags == old(self).access_flags,
            final(self).this_class == old(self).this_class,
            final(self).super_class == old(self).super_class,
            final(self).super_interfaces == old(self).super_interfaces,
            final(self).fields == old(self).fields,
            final(self).methods == old(self).methods,
            match r {
                Ok(_) => spec_parse_header(old(byte_rdr).buf@, old(byte_rdr).pos as int) == Ok::<
                    ((u32, u16, u16, usize), int),
                    DecodeError,
                >(
                    (
                        (
                            final(self).magic,
                            final(self).minor_version,
                            final(self).major_version,
                            final(self).constant_pool_count,
                        ),
                        final(byte_rdr).pos as int,
                    ),
                ) && final(self).constant_pool_count >= 1,
                Err(e) => spec_parse_header(old(byte_rdr).buf@, old(byte_rdr).pos as int) == Err::<
                    ((u32, u16, u16, usize), int),
                    DecodeError,
                >(e),
            },
    {
        let magic = match byte_rdr.read_u32() {
            Ok(v) => v,
            Err(e) => {
                return Err(e);
            },
        };
        if magic != 0xCAFEBABE {
            return Err(DecodeError::MalformedHeader);
        }
        let minor_version = match byte_rdr.read_u16() {
            Ok(v) => v,
            Err(e) => {
                return Err(e);
            },
        };
        let major_version = match byte_rdr.read_u16() {
            Ok(v) => v,
            Err(e) => {
                return Err(e);
            },
        };
        let constant_pool_count = match byte_rdr.read_u16() {
            Ok(v) => v,
            Err(e) => {
                return Err(e);
            },
        };
        if constant_pool_count == 0 {
            return Err(DecodeError::MalformedHeader);
        }
        self.magic = magic;
        self.minor_version = minor_version;
        self.major_version = major_version;
        self.constant_pool_count = constant_pool_count as usize;
        Ok(())
    }

    /// Reads the pool-and-identity stage: the constant pool, access
    /// flags, the validated this-class and super-class references, and
    /// the super-interface list.
    #[verifier::loop_isolation(false)]
    #[verifier::rlimit(60)]
    fn parse_constant_pool(&mut self, byte_rdr: &mut ByteCursor) -> (r: Result<(), DecodeError>)
        requires
            old(self).constant_pool_count >= 1,
        ensures
            final(byte_rdr).buf == old(byte_rdr).buf,
            final(self).magic == old(self).magic,
            final(self).minor_version == old(self).minor_version,
            final(self).major_version == old(self).major_version,
            final(self).constant_pool_count == old(self).constant_pool_count,
            final(self).fields == old(self).fields,
            final(self).methods == old(self).methods,
            match r {
                Ok(_) => spec_parse_stage2(
                    old(byte_rdr).buf@,
                    old(byte_rdr).pos as int,
                    old(self).constant_pool_count as int,
                ) == Ok::<((Seq<EntryModel>, u16, usize, usize, Seq<usize>), int), DecodeError>(
                    (
                        (
                            pool_model(final(self).cp@),
                            final(self).access_flags,
                            final(self).this_class,
                            final(self).super_class,
                            final(self).super_interfaces@,
                        ),
                        final(byte_rdr).pos as int,
                    ),
                ) && final(self).cp@.len() == old(self).constant_pool_count,
                Err(e) => spec_parse_stage2(
                    old(byte_rdr).buf@,
                    old(byte_rdr).pos as int,
                    old(self).constant_pool_count as int,
                ) == Err::<((Seq<EntryModel>, u16, usize, usize, Seq<usize>), int), DecodeError>(e),
            },
    {
        let ghost b = byte_rdr.buf@;
        let cp = match parse_pool(byte_rdr, self.constant_pool_count) {
            Ok(cp) => cp,
            Err(e) => {
                return Err(e);
            },
        };
        self.cp = cp;
        let access_flags = match byte_rdr.read_u16() {
            Ok(v) => v,
            Err(e) => {
                return Err(e);
            },
        };
        let this_class = match byte_rdr.read_u16() {
            Ok(v) => v,
            Err(e) => {
                return Err(e);
            },
        };
        let super_class = match byte_rdr.read_u16() {
            Ok(v) => v,
            Err(e) => {
                return Err(e);
            },
        };
        self.access_flags = access_flags;
        self.this_class = this_class as usize;
        self.super_class = super_class as usize;
        if this_class != 0 {
            match self.get_class_entry(this_class as usize) {
                Ok(_) => {},
                Err(e) => {
                    return Err(e);
                },
            }
        }
        if super_class != 0 {
            match self.get_class_entry(super_class as usize) {
                Ok(_) => {},
                Err(e) => {
                    return Err(e);
                },
            }
        }
        let super_interfaces_count = match byte_rdr.read_u16() {
            Ok(v) => v,
            Err(e) => {
                return Err(e);
            },
        };
        let ghost ipos = byte_rdr.pos as int;
        let mut super_interfaces: Vec<usize> = Vec::new();
        let mut i: usize = 0;
        while i < super_interfaces_count as usize
            invariant
                i <= super_interfaces_count as usize,
                super_interfaces@.len() == i,
                byte_rdr.buf == old(byte_rdr).buf,
                spec_parse_idxs(b, ipos, super_interfaces_count as nat, Seq::empty())
                    == spec_parse_idxs(
                    b,
                    byte_rdr.pos as int,
                    (super_interfaces_count as usize - i) as nat,
                    super_interfaces@,
                ),
            decreases super_interfaces_count as usize - i,
        {
            let idx = match byte_rdr.read_u16() {
                Ok(v) => v,
                Err(e) => {
                    return Err(e);
                },
            };
            super_interfaces.push(idx as usize);
            i = i + 1;
        }
        self.super_interfaces = super_interfaces;
        Ok(())
    }

    /// Reads the field stage: a count, then exactly that many field
    /// records.
    #[verifier::loop_isolation(false)]
    #[verifier::rlimit(60)]
    fn parse_fields(&mut self, byte_rdr: &mut ByteCursor) -> (r: Result<(), DecodeError>)
        ensures
            final(byte_rdr).buf == old(byte_rdr).buf,
            final(self).magic == old(self).magic,
            final(self).minor_version == old(self).minor_version,
            final(self).major_version == old(self).major_version,
            final(self).constant_pool_count == old(self).constant_pool_count,
            final(self).cp == old(self).cp,
            final(self).access_flags == old(self).access_flags,
            final(self).this_class == old(self).this_class,
            final(self).super_class == old(self).super_class,
            final(self).super_interfaces == old(self).super_interfaces,
            final(self).methods == old(self).methods,
            match r {
                Ok(_) => spec_parse_member_block(
                    old(byte_rdr).buf@,
                    old(byte_rdr).pos as int,
                    pool_model(old(self).cp@),
                ) == Ok::<(Seq<MemberModel>, int), DecodeError>(
                    (fields_model(final(self).fields@), final(byte_rdr).pos as int),
                ),
                Err(e) => spec_parse_member_block(
                    old(byte_rdr).buf@,
                    old(byte_rdr).pos as int,
                    pool_model(old(self).cp@),
                ) == Err::<(Seq<MemberModel>, int), DecodeError>(e),
            },
    {
        let ghost b = byte_rdr.buf@;
        let fields_count = match byte_rdr.read_u16() {
            Ok(v) => v,
            Err(e) => {
                return Err(e);
            },
        };
        let ghost mpos = byte_rdr.pos as int;
        let mut fields: Vec<FieldInfo> = Vec::new();
        proof {
            assert(fields_model(fields@) =~= Seq::<MemberModel>::empty());
        }
        let mut i: usize = 0;
        while i < fields_count as usize
            invariant
                i <= fields_count as usize,
                fields@.len() == i,
                byte_rdr.buf == old(byte_rdr).buf,
                spec_parse_members(b, mpos, pool_model(self.cp@), fields_count as nat, Seq::empty())
                    == spec_parse_members(
                    b,
                    byte_rdr.pos as int,
                    pool_model(self.cp@),
                    (fields_count as usize - i) as nat,
                    fields_model(fields@),
                ),
                self.cp == old(self).cp,
            decreases fields_count as usize - i,
        {
            let ghost dv_before = fields_model(fields@);
            let mut field = FieldInfo::new();
            match field.parse_field(byte_rdr, &self.cp) {
                Ok(_) => {},
                Err(e) => {
                    return Err(e);
                },
            }
            fields.push(field);
            i = i + 1;
            proof {
                assert(fields_model(fields@) =~= dv_before.push(field@));
            }
        }
        self.fields = fields;
        Ok(())
    }

    /// Reads the method stage: a count, then exactly that many method
    /// records.
    #[verifier::loop_isolation(false)]
    #[verifier::rlimit(60)]
    fn parse_methods(&mut self, byte_rdr: &mut ByteCursor) -> (r: Result<(), DecodeError>)
        ensures
            final(byte_rdr).buf == old(byte_rdr).buf,
            final(self).magic == old(self).magic,
            final(self).minor_version == old(self).minor_version,
            final(self).major_version == old(self).major_version,
            final(self).constant_pool_count == old(self).constant_pool_count,
            final(self).cp == old(self).cp,
            final(self).access_flags == old(self).access_flags,
            final(self).this_class == old(self).this_class,
            final(self).super_class == old(self).super_class,
            final(self).super_interfaces == old(self).super_interfaces,
            final(self).fields == old(self).fields,
            match r {
                Ok(_) => spec_parse_member_block(
                    old(byte_rdr).buf@,
                    old(byte_rdr).pos as int,
                    pool_model(old(self).cp@),
                ) == Ok::<(Seq<MemberModel>, int), DecodeError>(
                    (methods_model(final(self).methods@), final(byte_rdr).pos as int),
                ),
                Err(e) => spec_parse_member_block(
                    old(byte_rdr).buf@,
                    old(byte_rdr).pos as int,
                    pool_model(old(self).cp@),
                ) == Err::<(Seq<MemberModel>, int), DecodeError>(e),
            },
    {
        let ghost b = byte_rdr.buf@;
        let methods_count = match byte_rdr.read_u16() {
            Ok(v) => v,
            Err(e) => {
                return Err(e);
            },
        };
        let ghost mpos = byte_rdr.pos as int;
        let mut methods: Vec<MethodInfo> = Vec::new();
        proof {
            assert(methods_model(methods@) =~= Seq::<MemberModel>::empty());
        }
        let mut i: usize = 0;
        while i < methods_count as usize
            invariant
                i <= methods_count as usize,
                methods@.len() == i,
                byte_rdr.buf == old(byte_rdr).buf,
                spec_parse_members(
                    b,
                    mpos,
                    pool_model(self.cp@),
                    methods_count as nat,
                    Seq::empty(),
                ) == spec_parse_members(
                    b,
                    byte_rdr.pos as int,
                    pool_model(self.cp@),
                    (methods_count as usize - i) as nat,
                    methods_model(methods@),
                ),
                self.cp == old(self).cp,
            decreases methods_count as usize - i,
        {
            let ghost dv_before = methods_model(methods@);
            let m = match MethodInfo::new(byte_rdr, &self.cp) {
                Ok(m) => m,
                Err(e) => {
                    return Err(e);
                },
            };
            methods.push(m);
            i = i + 1;
            proof {
                assert(methods_model(methods@) =~= dv_before.push(m@));
            }
        }
        self.methods = methods;
        Ok(())
    }
}

} // verus!
