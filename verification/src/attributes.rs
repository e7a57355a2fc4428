use crate::constant_pool::{pool_model, ConstantPool, ConstantPoolEntry, EntryModel};
use crate::cursor::{be16, be32, take_outcome, ByteCursor};
use crate::error::DecodeError;
use vstd::prelude::*;

verus! {

/// One exception-handler row of a Code attribute: the protected program
/// counter range, the handler entry offset, and the catch-type pool index
/// (0 meaning "catch all").
#[derive(Debug, Clone, Copy, PartialEq, Eq, Structural)]
pub struct ExceptionHandlingInfo {
    pub start_pc: u16,
    pub end_pc: u16,
    pub handler_pc: u16,
    pub catch_type: u16,
}

/// Decode of one exception-handler row: four big-endian 16-bit fields.
pub open spec fn spec_parse_handler(b: Seq<u8>, pos: int) -> Result<
    (ExceptionHandlingInfo, int),
    DecodeError,
> {
    if pos + 8 > b.len() {
        Err(DecodeError::TruncatedStream)
    } else {
        Ok(
            (
                ExceptionHandlingInfo {
                    start_pc: be16(b, pos),
                    end_pc: be16(b, pos + 2),
                    handler_pc: be16(b, pos + 4),
                    catch_type: be16(b, pos + 6),
                },
                pos + 8,
            ),
        )
    }
}

/// Decode of `n` consecutive handler rows starting at `pos`, appended to
/// `acc`.
pub open spec fn spec_parse_handlers(
    b: Seq<u8>,
    pos: int,
    n: nat,
    acc: Seq<ExceptionHandlingInfo>,
) -> Result<(Seq<ExceptionHandlingInfo>, int), DecodeError>
    decreases n,
{
    if n == 0 {
        Ok((acc, pos))
    } else {
        match spec_parse_handler(b, pos) {
            Ok((h, p2)) => spec_parse_handlers(b, p2, (n - 1) as nat, acc.push(h)),
            Err(k) => Err(k),
        }
    }
}

/// Decode of `n` consecutive big-endian 16-bit values starting at `pos`,
/// appended to `acc`.
pub open spec fn spec_parse_u16s(b: Seq<u8>, pos: int, n: nat, acc: Seq<u16>) -> Result<
    (Seq<u16>, int),
    DecodeError,
>
    decreases n,
{
    if n == 0 {
        Ok((acc, pos))
    } else if pos + 2 > b.len() {
        Err(DecodeError::TruncatedStream)
    } else {
        spec_parse_u16s(b, pos + 2, (n - 1) as nat, acc.push(be16(b, pos)))
    }
}

impl ExceptionHandlingInfo {
    /// Reads one exception-handler row from the cursor.
    pub fn new(byte_rdr: &mut ByteCursor) -> (r: Result<ExceptionHandlingInfo, DecodeError>)
        ensures
            final(byte_rdr).buf == old(byte_rdr).buf,
            match r {
                Ok(h) => spec_parse_handler(old(byte_rdr).buf@, old(byte_rdr).pos as int) == Ok::<
                    (ExceptionHandlingInfo, int),
                    DecodeError,
                >((h, final(byte_rdr).pos as int)),
                Err(e) => spec_parse_handler(old(byte_rdr).buf@, old(byte_rdr).pos as int)
                    == Err::<(ExceptionHandlingInfo, int), DecodeError>(e),
            },
    {
        let start_pc = match byte_rdr.read_u16() {
            Ok(v) => v,
            Err(e) => {
                return Err(e);
            },
        };
        let end_pc = match byte_rdr.read_u16() {
            Ok(v) => v,
            Err(e) => {
                return Err(e);
            },
        };
        let handler_pc = match byte_rdr.read_u16() {
            Ok(v) => v,
            Err(e) => {
                return Err(e);
            },
        };
        let catch_type = match byte_rdr.read_u16() {
            Ok(v) => v,
            Err(e) => {
                return Err(e);
            },
        };
        Ok(ExceptionHandlingInfo { start_pc, end_pc, handler_pc, catch_type })
    }
}

/// One attribute record, resolved by name through the constant pool.
/// Recognized names are `ConstantValue`, `Code` and `Exceptions`; any
/// other well-formed attribute decodes to the `Undefined` placeholder and
/// is skipped over by its declared length.
#[derive(Debug)]
pub enum Attributes {
    ConstantValue { const_idx: usize },
    Code {
        max_stack: u16,
        max_locals: u16,
        code: Vec<u8>,
        exception_table: Vec<ExceptionHandlingInfo>,
    },
    Exceptions { exception_ids: Vec<u16> },
    /// Placeholder for an attribute whose name is not recognized; its body
    /// was skipped over by the declared length without interpretation.
    Undefined,
}

/// The ghost shape of an attribute record.
pub enum AttrModel {
    ConstantValue { const_idx: usize },
    Code {
        max_stack: u16,
        max_locals: u16,
        code: Seq<u8>,
        exception_table: Seq<ExceptionHandlingInfo>,
    },
    Exceptions { exception_ids: Seq<u16> },
    Undefined,
}

impl View for Attributes {
    type V = AttrModel;

    open spec fn view(&self) -> AttrModel {
        match self {
            Attributes::ConstantValue { const_idx } => AttrModel::ConstantValue {
                const_idx: *const_idx,
            },
            Attributes::Code { max_stack, max_locals, code, exception_table } => AttrModel::Code {
                max_stack: *max_stack,
                max_locals: *max_locals,
                code: code@,
                exception_table: exception_table@,
            },
            Attributes::Exceptions { exception_ids } => AttrModel::Exceptions {
                exception_ids: exception_ids@,
            },
            Attributes::Undefined => AttrModel::Undefined,
        }
    }
}

/// The ghost contents of an attribute list.
pub open spec fn attrs_model(attrs: Seq<Attributes>) -> Seq<AttrModel> {
    attrs.map_values(|a: Attributes| a@)
}

/// The bytes of the attribute name `ConstantValue`.
pub open spec fn constant_value_name() -> Seq<u8> {
    seq![
        0x43u8,
        0x6Fu8,
        0x6Eu8,
        0x73u8,
        0x74u8,
        0x61u8,
        0x6Eu8,
        0x74u8,
        0x56u8,
        0x61u8,
        0x6Cu8,
        0x75u8,
        0x65u8,
    ]
}

/// The bytes of the attribute name `Code`.
pub open spec fn code_name() -> Seq<u8> {
    seq![0x43u8, 0x6Fu8, 0x64u8, 0x65u8]
}

/// The bytes of the attribute name `Exceptions`.
pub open spec fn exceptions_name() -> Seq<u8> {
    seq![0x45u8, 0x78u8, 0x63u8, 0x65u8, 0x70u8, 0x74u8, 0x69u8, 0x6Fu8, 0x6Eu8, 0x73u8]
}

/// Decode of a ConstantValue attribute body: a single pool index; the
/// cursor then stands at the fence position `end`.
pub open spec fn spec_parse_constant_value(b: Seq<u8>, anchor: int, end: int) -> Result<
    (AttrModel, int),
    DecodeError,
> {
    if anchor + 2 > b.len() {
        Err(DecodeError::TruncatedStream)
    } else {
        Ok((AttrModel::ConstantValue { const_idx: be16(b, anchor) as usize }, end))
    }
}

/// Decode of a Code attribute body: stack and local limits, the raw
/// bytecode run, and the exception table; trailing sub-attributes are not
/// interpreted, the cursor is fenced to `end`.
pub open spec fn spec_parse_code(b: Seq<u8>, anchor: int, end: int) -> Result<
    (AttrModel, int),
    DecodeError,
> {
    if anchor + 8 > b.len() {
        Err(DecodeError::TruncatedStream)
    } else {
        let clen = be32(b, anchor + 4) as int;
        if anchor + 8 + clen > b.len() {
            Err(DecodeError::TruncatedStream)
        } else if anchor + 8 + clen + 2 > b.len() {
            Err(DecodeError::TruncatedStream)
        } else {
            let tlen = be16(b, anchor + 8 + clen) as nat;
            match spec_parse_handlers(b, anchor + 8 + clen + 2, tlen, Seq::empty()) {
                Ok((table, _)) => Ok(
                    (
                        AttrModel::Code {
                            max_stack: be16(b, anchor),
                            max_locals: be16(b, anchor + 2),
                            code: b.subrange(anchor + 8, anchor + 8 + clen),
                            exception_table: table,
                        },
                        end,
                    ),
                ),
                Err(k) => Err(k),
            }
        }
    }
}

/// Decode of an Exceptions attribute body: a count of raised-exception
/// class indices followed by that many; the cursor is fenced to `end`.
pub open spec fn spec_parse_exceptions(b: Seq<u8>, anchor: int, end: int) -> Result<
    (AttrModel, int),
    DecodeError,
> {
    if anchor + 2 > b.len() {
        Err(DecodeError::TruncatedStream)
    } else {
        let n = be16(b, anchor) as nat;
        match spec_parse_u16s(b, anchor + 2, n, Seq::empty()) {
            Ok((ids, _)) => Ok((AttrModel::Exceptions { exception_ids: ids }, end)),
            Err(k) => Err(k),
        }
    }
}

/// Decode of one whole attribute record at `pos` against an already
/// decoded pool: a name index resolved to UTF8 text, a declared byte
/// length, then the name-selected body. Whichever branch runs, a
/// successful decode always ends at the anchor position (just past the
/// length field) plus the declared length, and that fence must lie within
/// the buffer.
pub open spec fn spec_parse_attribute(b: Seq<u8>, pos: int, cp: Seq<EntryModel>) -> Result<
    (AttrModel, int),
    DecodeError,
> {
    if pos + 2 > b.len() {
        Err(DecodeError::TruncatedStream)
    } else {
        let ni = be16(b, pos) as int;
        if !(1 <= ni < cp.len()) {
            Err(DecodeError::DanglingReference)
        } else {
            match cp[ni] {
                EntryModel::Utf8(name) => {
                    if pos + 6 > b.len() {
                        Err(DecodeError::TruncatedStream)
                    } else {
                        let alen = be32(b, pos + 2) as int;
                        let anchor = pos + 6;
                        let end = anchor + alen;
                        if end > b.len() {
                            Err(DecodeError::TruncatedStream)
                        } else if name == constant_value_name() {
                            spec_parse_constant_value(b, anchor, end)
                        } else if name == code_name() {
                            spec_parse_code(b, anchor, end)
                        } else if name == exceptions_name() {
                            spec_parse_exceptions(b, anchor, end)
                        } else {
                            Ok((AttrModel::Undefined, end))
                        }
                    }
                },
                _ => Err(DecodeError::DanglingReference),
            }
        }
    }
}

/// Length fencing: whenever an attribute decode succeeds, the position it
/// leaves the cursor at is exactly the anchor position (just past the
/// length field, six bytes into the record) plus the declared length, and
/// that position lies within the buffer — for every branch, every
/// code length, and every exception-table length, zero included.
pub proof fn lemma_attribute_end_position(
    b: Seq<u8>,
    pos: int,
    cp: Seq<EntryModel>,
    a: AttrModel,
    end: int,
)
    requires
        spec_parse_attribute(b, pos, cp) == Ok::<(AttrModel, int), DecodeError>((a, end)),
    ensures
        end == pos + 6 + be32(b, pos + 2),
        end <= b.len(),
{
}

/// Permissive dispatch: an attribute whose resolved name is none of the
/// recognized ones, but whose declared length fits the buffer, decodes to
/// the `Undefined` placeholder with the cursor fenced to anchor plus
/// declared length — so whatever follows it decodes from the right
/// position.
pub proof fn lemma_unknown_attribute_placeholder(
    b: Seq<u8>,
    pos: int,
    cp: Seq<EntryModel>,
    name: Seq<u8>,
)
    requires
        pos + 6 <= b.len(),
        1 <= (be16(b, pos) as int),
        (be16(b, pos) as int) < cp.len(),
        cp[be16(b, pos) as int] == EntryModel::Utf8(name),
        name != constant_value_name(),
        name != code_name(),
        name != exceptions_name(),
        pos + 6 + be32(b, pos + 2) <= b.len(),
    ensures
        spec_parse_attribute(b, pos, cp) == Ok::<(AttrModel, int), DecodeError>(
            (AttrModel::Undefined, pos + 6 + be32(b, pos + 2)),
        ),
{
}

/// Decode of `n` consecutive attribute records starting at `pos`,
/// appended to `acc`.
pub open spec fn spec_parse_attrs(
    b: Seq<u8>,
    pos: int,
    cp: Seq<EntryModel>,
    n: nat,
    acc: Seq<AttrModel>,
) -> Result<(Seq<AttrModel>, int), DecodeError>
    decreases n,
{
    if n == 0 {
        Ok((acc, pos))
    } else {
        match spec_parse_attribute(b, pos, cp) {
            Ok((a, p2)) => spec_parse_attrs(b, p2, cp, (n - 1) as nat, acc.push(a)),
            Err(k) => Err(k),
        }
    }
}

/// A run of attribute decodes only ever moves the position forward.
pub proof fn lemma_attrs_advance(
    b: Seq<u8>,
    pos: int,
    cp: Seq<EntryModel>,
    n: nat,
    acc: Seq<AttrModel>,
    s: Seq<AttrModel>,
    end: int,
)
    requires
        spec_parse_attrs(b, pos, cp, n, acc) == Ok::<(Seq<AttrModel>, int), DecodeError>((s, end)),
    ensures
        pos <= end,
    decreases n,
{
    if n != 0 {
        match spec_parse_attribute(b, pos, cp) {
            Ok((a, p2)) => {
                lemma_attribute_end_position(b, pos, cp, a, p2);
                lemma_attrs_advance(b, p2, cp, (n - 1) as nat, acc.push(a), s, end);
            },
            Err(_) => {},
        }
    }
}

/// One handler-row decode holds under truncation: it either agrees with the full decode or fails with `TruncatedStream`.
pub proof fn lemma_handler_take(b: Seq<u8>, pos: int, k: int)
    requires
        0 <= pos <= k <= b.len(),
    ensures
        take_outcome(spec_parse_handler(b, pos), spec_parse_handler(b.take(k), pos), k),
{
    let t = b.take(k);
    if spec_parse_handler(b, pos) is Ok && pos + 8 <= k {
        assert(t[pos] == b[pos] && t[pos + 1] == b[pos + 1] && t[pos + 2] == b[pos + 2] && t[pos
            + 3] == b[pos + 3] && t[pos + 4] == b[pos + 4] && t[pos + 5] == b[pos + 5] && t[pos + 6]
            == b[pos + 6] && t[pos + 7] == b[pos + 7]);
    }
}

/// A run of handler-row decodes holds under truncation: it either agrees with the full decode or fails with `TruncatedStream`.
pub proof fn lemma_handlers_take(
    b: Seq<u8>,
    pos: int,
    n: nat,
    acc: Seq<ExceptionHandlingInfo>,
    k: int,
)
    requires
        0 <= pos <= k <= b.len(),
    ensures
        take_outcome(
            spec_parse_handlers(b, pos, n, acc),
            spec_parse_handlers(b.take(k), pos, n, acc),
            k,
        ),
    decreases n,
{
    if n != 0 && spec_parse_handlers(b, pos, n, acc) is Ok {
        match spec_parse_handler(b, pos) {
            Ok((h, p2)) => {
                lemma_handler_take(b, pos, k);
                if spec_parse_handler(b.take(k), pos) == Ok::<
                    (ExceptionHandlingInfo, int),
                    DecodeError,
                >((h, p2)) && p2 <= k {
                    lemma_handlers_take(b, p2, (n - 1) as nat, acc.push(h), k);
                }
            },
            Err(_) => {},
        }
    }
}

/// A run of 16-bit reads holds under truncation: it either agrees with the full decode or fails with `TruncatedStream`.
pub proof fn lemma_u16s_take(b: Seq<u8>, pos: int, n: nat, acc: Seq<u16>, k: int)
    requires
        0 <= pos <= k <= b.len(),
    ensures
        take_outcome(spec_parse_u16s(b, pos, n, acc), spec_parse_u16s(b.take(k), pos, n, acc), k),
    decreases n,
{
    let t = b.take(k);
    if n != 0 && spec_parse_u16s(b, pos, n, acc) is Ok {
        if pos + 2 <= k {
            assert(t[pos] == b[pos] && t[pos + 1] == b[pos + 1]);
            lemma_u16s_take(b, pos + 2, (n - 1) as nat, acc.push(be16(b, pos)), k);
        }
    }
}

/// One attribute decode holds under truncation, whichever branch
/// the resolved name selects.
pub proof fn lemma_attribute_take(b: Seq<u8>, pos: int, cp: Seq<EntryModel>, k: int)
    requires
        0 <= pos <= k <= b.len(),
    ensures
        take_outcome(
            spec_parse_attribute(b, pos, cp),
            spec_parse_attribute(b.take(k), pos, cp),
            k,
        ),
{
    let t = b.take(k);
    if spec_parse_attribute(b, pos, cp) is Ok && pos + 2 <= k {
        assert(t[pos] == b[pos] && t[pos + 1] == b[pos + 1]);
        if pos + 6 <= k {
            assert(t[pos + 2] == b[pos + 2] && t[pos + 3] == b[pos + 3] && t[pos + 4] == b[pos + 4]
                && t[pos + 5] == b[pos + 5]);
            let alen = be32(b, pos + 2) as int;
            let anchor = pos + 6;
            let end = anchor + alen;
            if end <= k {
                let ni = be16(b, pos) as int;
                match cp[ni] {
                    EntryModel::Utf8(name) => {
                        if name == constant_value_name() {
                            if anchor + 2 <= k {
                                assert(t[anchor] == b[anchor] && t[anchor + 1] == b[anchor + 1]);
                            }
                        } else if name == code_name() {
                            if anchor + 8 <= k {
                                assert(t[anchor] == b[anchor] && t[anchor + 1] == b[anchor + 1]
                                    && t[anchor + 2] == b[anchor + 2] && t[anchor + 3] == b[anchor
                                    + 3] && t[anchor + 4] == b[anchor + 4] && t[anchor + 5]
                                    == b[anchor + 5] && t[anchor + 6] == b[anchor + 6] && t[anchor
                                    + 7] == b[anchor + 7]);
                                let clen = be32(b, anchor + 4) as int;
                                if anchor + 8 + clen <= k {
                                    assert(t.subrange(anchor + 8, anchor + 8 + clen)
                                        =~= b.subrange(anchor + 8, anchor + 8 + clen));
                                    let tpos = anchor + 8 + clen;
                                    if tpos + 2 <= k {
                                        assert(t[tpos] == b[tpos] && t[tpos + 1] == b[tpos + 1]);
                                        let tlen = be16(b, tpos) as nat;
                                        lemma_handlers_take(b, tpos + 2, tlen, Seq::empty(), k);
                                    }
                                }
                            }
                        } else if name == exceptions_name() {
                            if anchor + 2 <= k {
                                assert(t[anchor] == b[anchor] && t[anchor + 1] == b[anchor + 1]);
                                let n = be16(b, anchor) as nat;
                                lemma_u16s_take(b, anchor + 2, n, Seq::empty(), k);
                            }
                        }
                    },
                    _ => {},
                }
            }
        }
    }
}

/// A run of attribute decodes holds under truncation: it either agrees with the full decode or fails with `TruncatedStream`.
pub proof fn lemma_attrs_take(
    b: Seq<u8>,
    pos: int,
    cp: Seq<EntryModel>,
    n: nat,
    acc: Seq<AttrModel>,
    k: int,
)
    requires
        0 <= pos <= k <= b.len(),
    ensures
        take_outcome(
            spec_parse_attrs(b, pos, cp, n, acc),
            spec_parse_attrs(b.take(k), pos, cp, n, acc),
            k,
        ),
    decreases n,
{
    if n != 0 && spec_parse_attrs(b, pos, cp, n, acc) is Ok {
        match spec_parse_attribute(b, pos, cp) {
            Ok((a, p2)) => {
                lemma_attribute_take(b, pos, cp, k);
                if spec_parse_attribute(b.take(k), pos, cp) == Ok::<(AttrModel, int), DecodeError>(
                    (a, p2),
                ) && p2 <= k {
                    lemma_attrs_take(b, p2, cp, (n - 1) as nat, acc.push(a), k);
                }
            },
            Err(_) => {},
        }
    }
}

/// Reports whether two byte vectors hold the same bytes.
fn bytes_eq(a: &Vec<u8>, b: &Vec<u8>) -> (r: bool)
    ensures
        r == (a@ == b@),
{
    if a.len() != b.len() {
        proof {
            assert(a@.len() != b@.len());
        }
        return false;
    }
    let n = a.len();
    let mut i: usize = 0;
    while i < n
        invariant
            i <= n,
            n == a@.len(),
            n == b@.len(),
            forall|j: int| 0 <= j < i ==> a@[j] == b@[j],
        decreases n - i,
    {
        if a[i] != b[i] {
            return false;
        }
        i = i + 1;
    }
    proof {
        assert(a@ =~= b@);
    }
    true
}

/// Builds the byte vector of the attribute name `ConstantValue`.
fn constant_value_name_vec() -> (v: Vec<u8>)
    ensures
        v@ == constant_value_name(),
{
    let mut v: Vec<u8> = Vec::new();
    v.push(0x43);
    v.push(0x6F);
    v.push(0x6E);
    v.push(0x73);
    v.push(0x74);
    v.push(0x61);
    v.push(0x6E);
    v.push(0x74);
    v.push(0x56);
    v.push(0x61);
    v.push(0x6C);
    v.push(0x75);
    v.push(0x65);
    proof {
        assert(v@ =~= constant_value_name());
    }
    v
}

/// Builds the byte vector of the attribute name `Code`.
fn code_name_vec() -> (v: Vec<u8>)
    ensures
        v@ == code_name(),
{
    let mut v: Vec<u8> = Vec::new();
    v.push(0x43);
    v.push(0x6F);
    v.push(0x64);
    v.push(0x65);
    proof {
        assert(v@ =~= code_name());
    }
    v
}

/// Builds the byte vector of the attribute name `Exceptions`.
fn exceptions_name_vec() -> (v: Vec<u8>)
    ensures
        v@ == exceptions_name(),
{
    let mut v: Vec<u8> = Vec::new();
    v.push(0x45);
    v.push(0x78);
    v.push(0x63);
    v.push(0x65);
    v.push(0x70);
    v.push(0x74);
    v.push(0x69);
    v.push(0x6F);
    v.push(0x6E);
    v.push(0x73);
    proof {
        assert(v@ =~= exceptions_name());
    }
    v
}

impl Attributes {
    /// Decodes one attribute record at the cursor position, resolving its
    /// name through the already decoded pool. The cursor always ends at
    /// the anchor position plus the declared length on success, whichever
    /// branch consumed fewer or more bytes through its own reads.
    #[verifier::loop_isolation(false)]
    #[verifier::rlimit(60)]
    pub fn parse_attribute(byte_rdr: &mut ByteCursor, cp: &ConstantPool) -> (r: Result<
        Attributes,
        DecodeError,
    >)
        ensures
            final(byte_rdr).buf == old(byte_rdr).buf,
            match r {
                Ok(a) => spec_parse_attribute(
                    old(byte_rdr).buf@,
                    old(byte_rdr).pos as int,
                    pool_model(cp@),
                ) == Ok::<(AttrModel, int), DecodeError>((a@, final(byte_rdr).pos as int)),
                Err(e) => spec_parse_attribute(
                    old(byte_rdr).buf@,
                    old(byte_rdr).pos as int,
                    pool_model(cp@),
                ) == Err::<(AttrModel, int), DecodeError>(e),
            },
    {
        let ghost b = byte_rdr.buf@;
        let ghost pos0 = byte_rdr.pos as int;
        let attr_name_idx = match byte_rdr.read_u16() {
            Ok(v) => v,
            Err(e) => {
                return Err(e);
            },
        };
        let ni = attr_name_idx as usize;
        if ni == 0 || ni >= cp.len() {
            return Err(DecodeError::DanglingReference);
        }
        let attr_name: &Vec<u8> = match &cp[ni] {
            ConstantPoolEntry::Utf8(name) => name,
            _ => {
                return Err(DecodeError::DanglingReference);
            },
        };
        let attr_len = match byte_rdr.read_u32() {
            Ok(v) => v,
            Err(e) => {
                return Err(e);
            },
        };
        let anchor = byte_rdr.position();
        let total = byte_rdr.total_len();
        if attr_len as usize > total - anchor {
            return Err(DecodeError::TruncatedStream);
        }
        let end = anchor + attr_len as usize;
        if bytes_eq(attr_name, &constant_value_name_vec()) {
            let const_idx = match byte_rdr.read_u16() {
                Ok(v) => v,
                Err(e) => {
                    return Err(e);
                },
            };
            byte_rdr.set_position(end);
            Ok(Attributes::ConstantValue { const_idx: const_idx as usize })
        } else if bytes_eq(attr_name, &code_name_vec()) {
            let max_stack = match byte_rdr.read_u16() {
                Ok(v) => v,
                Err(e) => {
                    return Err(e);
                },
            };
            let max_locals = match byte_rdr.read_u16() {
                Ok(v) => v,
                Err(e) => {
                    return Err(e);
                },
            };
            let code_length = match byte_rdr.read_u32() {
                Ok(v) => v,
                Err(e) => {
                    return Err(e);
                },
            };
            let code = match byte_rdr.read_bytes(code_length as usize) {
                Ok(v) => v,
                Err(e) => {
                    return Err(e);
                },
            };
            let exc_table_len = match byte_rdr.read_u16() {
                Ok(v) => v,
                Err(e) => {
                    return Err(e);
                },
            };
            let ghost tpos = byte_rdr.pos as int;
            let mut excs: Vec<ExceptionHandlingInfo> = Vec::new();
            let mut i: usize = 0;
            while i < exc_table_len as usize
                invariant
                    i <= exc_table_len as usize,
                    excs@.len() == i,
                    byte_rdr.buf == old(byte_rdr).buf,
                    byte_rdr.buf@ == b,
                    spec_parse_handlers(b, tpos, exc_table_len as nat, Seq::empty())
                        == spec_parse_handlers(
                        b,
                        byte_rdr.pos as int,
                        (exc_table_len as usize - i) as nat,
                        excs@,
                    ),
                decreases exc_table_len as usize - i,
            {
                let ghost p_before = byte_rdr.pos as int;
                let h = match ExceptionHandlingInfo::new(byte_rdr) {
                    Ok(h) => h,
                    Err(e) => {
                        proof {
                            assert(spec_parse_handlers(
                                b,
                                p_before,
                                (exc_table_len as usize - i) as nat,
                                excs@,
                            ) == Err::<(Seq<ExceptionHandlingInfo>, int), DecodeError>(e));
                        }
                        return Err(e);
                    },
                };
                excs.push(h);
                i = i + 1;
            }
            byte_rdr.set_position(end);
            Ok(
                Attributes::Code {
                    max_stack,
                    max_locals,
                    code,
                    exception_table: excs,
                },
            )
        } else if bytes_eq(attr_name, &exceptions_name_vec()) {
            let num_of_excs = match byte_rdr.read_u16() {
                Ok(v) => v,
                Err(e) => {
                    return Err(e);
                },
            };
            let ghost ipos = byte_rdr.pos as int;
            let mut exc_ids: Vec<u16> = Vec::new();
            let mut i: usize = 0;
            while i < num_of_excs as usize
                invariant
                    i <= num_of_excs as usize,
                    exc_ids@.len() == i,
                    byte_rdr.buf == old(byte_rdr).buf,
                    byte_rdr.buf@ == b,
                    spec_parse_u16s(b, ipos, num_of_excs as nat, Seq::empty()) == spec_parse_u16s(
                        b,
                        byte_rdr.pos as int,
                        (num_of_excs as usize - i) as nat,
                        exc_ids@,
                    ),
                decreases num_of_excs as usize - i,
            {
                let ghost p_before = byte_rdr.pos as int;
                let id = match byte_rdr.read_u16() {
                    Ok(v) => v,
                    Err(e) => {
                        proof {
                            assert(spec_parse_u16s(
                                b,
                                p_before,
                                (num_of_excs as usize - i) as nat,
                                exc_ids@,
                            ) == Err::<(Seq<u16>, int), DecodeError>(e));
                        }
                        return Err(e);
                    },
                };
                exc_ids.push(id);
                i = i + 1;
            }
            byte_rdr.set_position(end);
            Ok(Attributes::Exceptions { exception_ids: exc_ids })
        } else {
            byte_rdr.set_position(end);
            Ok(Attributes::Undefined)
        }
    }
}

} // verus!
