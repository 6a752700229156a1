use vstd::prelude::*;

use crate::error::AmlError;
use crate::name::{
    append_range, caret_count, is_lead_name_char, is_name_char, name_path_outcome, name_seg_outcome,
    name_string_outcome, resolve_outcome, resolve_path, seg_from, spec_is_lead_name_char,
    spec_is_name_char, DUAL_NAME_PREFIX, MULTI_NAME_PREFIX, NULL_NAME, PARENT_PREFIX_CHAR,
    ROOT_CHAR,
};
use crate::namespace::Namespace;
use crate::stream::{le_bytes, read_outcome, AmlStream};
use crate::value::{decode_region_space, region_space_of, AmlValue, RegionSpace};

verus! {

pub const SCOPE_OP: u8 = 0x10;
pub const BUFFER_OP: u8 = 0x11;
pub const ZERO_OP: u8 = 0x00;
pub const ONE_OP: u8 = 0x01;
pub const ONES_OP: u8 = 0xff;
pub const BYTE_CONST: u8 = 0x0a;
pub const WORD_CONST: u8 = 0x0b;
pub const DWORD_CONST: u8 = 0x0c;
pub const STRING_PREFIX: u8 = 0x0d;
pub const QWORD_CONST: u8 = 0x0e;
pub const EXT_OPCODE_PREFIX: u8 = 0x5b;
pub const EXT_REVISION_OP: u8 = 0x30;
pub const EXT_OP_REGION_OP: u8 = 0x80;
pub const EXT_FIELD_OP: u8 = 0x81;

// ---------------------------------------------------------------------------------------------
// Package lengths
// ---------------------------------------------------------------------------------------------

/// How many bytes follow the lead byte of a package length: its top two bits.
pub open spec fn pkg_extra_count(lead: u8) -> nat {
    (lead / 64) as nat
}

/// The length that a whole package-length prefix encodes. With no extra bytes it is the low
/// six bits of the lead byte; otherwise the low four bits of the lead byte, then eight more
/// bits from each extra byte, least significant first.
pub open spec fn pkg_length_value(prefix: Seq<u8>) -> nat {
    if pkg_extra_count(prefix[0]) == 0 {
        (prefix[0] % 64) as nat
    } else {
        (prefix[0] % 16) as nat + 16 * le_bytes(prefix.subrange(1, prefix.len() as int))
    }
}

/// Decoding a package length at `pos`: the end offset of the region it bounds, computed as
/// the offset after the prefix plus the length less the prefix's own size, and the offset
/// after the prefix. An end offset past 32 bits lies beyond any stream and is reported as
/// the end of the stream.
pub open spec fn pkg_length_outcome(data: Seq<u8>, pos: nat) -> Result<(nat, nat), AmlError> {
    if pos >= data.len() {
        Err(AmlError::EndOfStream)
    } else {
        let count = pkg_extra_count(data[pos as int]);
        let after = pos + 1 + count;
        if after > data.len() {
            Err(AmlError::EndOfStream)
        } else {
            let length = pkg_length_value(data.subrange(pos as int, after as int));
            let end = (after + length - (count + 1)) as nat;
            if end > u32::MAX {
                Err(AmlError::EndOfStream)
            } else {
                Ok((end, after))
            }
        }
    }
}

/// `v` as `n` bytes, least significant first.
pub open spec fn le_encode(v: nat, n: nat) -> Seq<u8>
    decreases n,
{
    if n == 0 {
        Seq::empty()
    } else {
        seq![(v % 256) as u8] + le_encode(v / 256, (n - 1) as nat)
    }
}

/// The largest length, plus one, that a prefix with `count` extra bytes can hold.
pub open spec fn pkg_length_limit(count: nat) -> nat {
    if count == 0 {
        0x40
    } else if count == 1 {
        0x1000
    } else if count == 2 {
        0x10_0000
    } else {
        0x1000_0000
    }
}

/// The package-length prefix that writes `length` with `count` extra bytes.
pub open spec fn pkg_prefix(length: nat, count: nat) -> Seq<u8> {
    if count == 0 {
        seq![length as u8]
    } else {
        seq![(64 * count + length % 16) as u8] + le_encode(length / 16, count)
    }
}

/// A prefix written with any count of extra bytes from 0 to 3, for any length it can hold,
/// decodes to the end offset `start + length - (count + 1)`, where `start` is the offset just
/// after the prefix, so long as that offset fits in 32 bits.
pub proof fn lemma_pkg_length_round_trip(data: Seq<u8>, pos: nat, length: nat, count: nat)
    requires
        count <= 3,
        length < pkg_length_limit(count),
        pos + 1 + count <= data.len(),
        data.subrange(pos as int, (pos + 1 + count) as int) == pkg_prefix(length, count),
        pos + length <= u32::MAX,
    ensures
        pkg_length_outcome(data, pos) == Ok::<(nat, nat), AmlError>(
            ((pos + 1 + count + length - (count + 1)) as nat, pos + 1 + count),
        ),
{
    let prefix = data.subrange(pos as int, (pos + 1 + count) as int);
    assert(data[pos as int] == prefix[0]);
    reveal_with_fuel(le_bytes, 4);
    reveal_with_fuel(le_encode, 4);
    if count == 0 {
        assert(pkg_length_value(prefix) == length);
    } else {
        let v = length / 16;
        let tail = prefix.subrange(1, prefix.len() as int);
        assert(tail =~= le_encode(v, count));
        if count == 1 {
            assert(tail.drop_first() =~= Seq::<u8>::empty());
            assert(le_bytes(tail) == v % 256);
        } else if count == 2 {
            assert(tail.drop_first().drop_first() =~= Seq::<u8>::empty());
            assert(le_bytes(tail) == v % 256 + 256 * ((v / 256) % 256));
        } else {
            assert(tail.drop_first().drop_first().drop_first() =~= Seq::<u8>::empty());
            assert(le_bytes(tail) == v % 256 + 256 * ((v / 256) % 256) + 65536 * ((v / 65536)
                % 256)) by {
                assert(v / 256 / 256 == v / 65536);
            }
        }
        assert(pkg_length_value(prefix) == length);
    }
}

// ---------------------------------------------------------------------------------------------
// Literals
// ---------------------------------------------------------------------------------------------

/// An `n`-byte little-endian operand at `pos`, widened to 64 bits.
pub open spec fn int_operand(data: Seq<u8>, pos: nat, n: nat) -> Result<(u64, nat), AmlError> {
    match read_outcome(data, pos, n) {
        Some((b, p)) => Ok((le_bytes(b) as u64, p)),
        None => Err(AmlError::EndOfStream),
    }
}

/// Computational data at `pos`: the integer and the offset after it. Byte, word, double-word
/// and quad-word constants carry their operand; zero, one and all-ones carry none. Strings,
/// the revision operator and buffers are not handled; any other byte is unexpected.
pub open spec fn computational_data_outcome(data: Seq<u8>, pos: nat) -> Result<(u64, nat), AmlError> {
    if pos >= data.len() {
        Err(AmlError::EndOfStream)
    } else {
        let op = data[pos as int];
        if op == BYTE_CONST {
            int_operand(data, pos + 1, 1)
        } else if op == WORD_CONST {
            int_operand(data, pos + 1, 2)
        } else if op == DWORD_CONST {
            int_operand(data, pos + 1, 4)
        } else if op == QWORD_CONST {
            int_operand(data, pos + 1, 8)
        } else if op == STRING_PREFIX {
            Err(AmlError::NotYetSupported)
        } else if op == ZERO_OP {
            Ok((0, pos + 1))
        } else if op == ONE_OP {
            Ok((1, pos + 1))
        } else if op == ONES_OP {
            Ok((u64::MAX, pos + 1))
        } else if op == EXT_OPCODE_PREFIX {
            if pos + 1 >= data.len() {
                Err(AmlError::EndOfStream)
            } else if data[pos + 1int] == EXT_REVISION_OP {
                Err(AmlError::NotYetSupported)
            } else {
                Err(AmlError::UnexpectedByte(op))
            }
        } else if op == BUFFER_OP {
            Err(AmlError::NotYetSupported)
        } else {
            Err(AmlError::UnexpectedByte(op))
        }
    }
}

// ---------------------------------------------------------------------------------------------
// Declarations
// ---------------------------------------------------------------------------------------------

/// The body of an operation-region declaration at `pos`, just after its two-byte opcode: the
/// name token, the region space, the offset and the length, and the offset after them.
pub open spec fn op_region_outcome(data: Seq<u8>, pos: nat) -> Result<
    (Seq<u8>, RegionSpace, u64, u64, nat),
    AmlError,
> {
    match name_string_outcome(data, pos) {
        Err(e) => Err(e),
        Ok((token, p1)) => if p1 >= data.len() {
            Err(AmlError::EndOfStream)
        } else {
            match region_space_of(data[p1 as int]) {
                None => Err(AmlError::UnexpectedByte(data[p1 as int])),
                Some(space) => match computational_data_outcome(data, p1 + 1) {
                    Err(e) => Err(e),
                    Ok((offset, p2)) => match computational_data_outcome(data, p2) {
                        Err(e) => Err(e),
                        Ok((length, p3)) => Ok((token, space, offset, length, p3)),
                    },
                },
            }
        },
    }
}

/// A field declaration at `pos`, opcode included: the offset after it. Its field list must be
/// empty, as field elements are not handled.
pub open spec fn def_field_outcome(data: Seq<u8>, pos: nat) -> Result<nat, AmlError> {
    if pos >= data.len() {
        Err(AmlError::EndOfStream)
    } else if data[pos as int] != EXT_OPCODE_PREFIX {
        Err(AmlError::UnexpectedByte(data[pos as int]))
    } else if pos + 1 >= data.len() {
        Err(AmlError::EndOfStream)
    } else if data[pos + 1int] != EXT_FIELD_OP {
        Err(AmlError::UnexpectedByte(data[pos + 1int]))
    } else {
        match pkg_length_outcome(data, pos + 2) {
            Err(e) => Err(e),
            Ok((end, p1)) => match name_string_outcome(data, p1) {
                Err(e) => Err(e),
                Ok((_token, p2)) => if p2 >= data.len() {
                    Err(AmlError::EndOfStream)
                } else if p2 + 1 < end {
                    Err(AmlError::NotYetSupported)
                } else {
                    Ok(p2 + 1)
                },
            },
        }
    }
}

/// One-byte opcodes of the control statements.
pub open spec fn spec_is_type1_opcode(b: u8) -> bool {
    b == 0xa5 || b == 0xcc || b == 0x9f || b == 0xa0 || b == 0xa3 || b == 0x86 || b == 0xa4 || b
        == 0xa2
}

/// Second bytes, after the extended prefix, of the control statements.
pub open spec fn spec_is_ext_type1_opcode(b: u8) -> bool {
    b == 0x32 || b == 0x20 || b == 0x27 || b == 0x26 || b == 0x24 || b == 0x22 || b == 0x21 || b
        == 0x2a
}

/// A control statement at `pos` is recognised but not handled; anything else is unexpected.
pub open spec fn type1_outcome(data: Seq<u8>, pos: nat) -> AmlError {
    if pos >= data.len() {
        AmlError::EndOfStream
    } else if spec_is_type1_opcode(data[pos as int]) {
        AmlError::NotYetSupported
    } else if data[pos as int] == EXT_OPCODE_PREFIX {
        if pos + 1 >= data.len() {
            AmlError::EndOfStream
        } else if spec_is_ext_type1_opcode(data[pos + 1int]) {
            AmlError::NotYetSupported
        } else {
            AmlError::UnexpectedByte(EXT_OPCODE_PREFIX)
        }
    } else {
        AmlError::UnexpectedByte(data[pos as int])
    }
}

/// What an operation-region declaration at `pos`, opcode included, does to the map `ns`: the
/// offset after it, or the error, and the map afterwards.
pub open spec fn op_region_step(data: Seq<u8>, pos: nat, scope: Seq<u8>, ns: Map<Seq<u8>, AmlValue>) -> (
    Result<nat, AmlError>,
    Map<Seq<u8>, AmlValue>,
) {
    match op_region_outcome(data, pos + 2) {
        Err(e) => (Err(e), ns),
        Ok((token, space, offset, length, p)) => match resolve_outcome(scope, token) {
            None => (Err(AmlError::InvalidPath(arbitrary())), ns),
            Some(path) => (
                Ok(p),
                ns.insert(path, AmlValue::OpRegion { region: space, offset, length }),
            ),
        },
    }
}

/// What parsing term objects from `pos` until the offset reaches `end` does to the map `ns`,
/// in `scope`: the offset where it stopped, or the first error, and the map afterwards. No
/// term object is parsed once the offset stands at or past `end`.
pub open spec fn term_list_step(
    data: Seq<u8>,
    pos: nat,
    end: nat,
    scope: Seq<u8>,
    ns: Map<Seq<u8>, AmlValue>,
) -> (Result<nat, AmlError>, Map<Seq<u8>, AmlValue>)
    decreases data.len() - pos, 2nat,
{
    if pos >= end {
        (Ok(pos), ns)
    } else {
        let (r, ns1) = term_object_step(data, pos, scope, ns);
        match r {
            Err(e) => (Err(e), ns1),
            Ok(p) => if pos < p && p <= data.len() {
                term_list_step(data, p, end, scope, ns1)
            } else {
                (Err(AmlError::EndOfStream), ns1)
            },
        }
    }
}

/// What one term object at `pos` does to the map `ns`, in `scope`: a scope block, an
/// operation region, a field, or a control statement, tried in that order.
pub open spec fn term_object_step(data: Seq<u8>, pos: nat, scope: Seq<u8>, ns: Map<Seq<u8>, AmlValue>) -> (
    Result<nat, AmlError>,
    Map<Seq<u8>, AmlValue>,
)
    decreases data.len() - pos, 1nat,
{
    if pos >= data.len() {
        (Err(AmlError::EndOfStream), ns)
    } else if data[pos as int] == SCOPE_OP {
        def_scope_step(data, pos, scope, ns)
    } else if data[pos as int] == EXT_OPCODE_PREFIX && pos + 1 >= data.len() {
        (Err(AmlError::EndOfStream), ns)
    } else if data[pos as int] == EXT_OPCODE_PREFIX && data[pos + 1int] == EXT_OP_REGION_OP {
        op_region_step(data, pos, scope, ns)
    } else {
        match def_field_outcome(data, pos) {
            Ok(p) => (Ok(p), ns),
            Err(AmlError::UnexpectedByte(_)) => match type1_outcome(data, pos) {
                AmlError::UnexpectedByte(_) => (Err(AmlError::UnexpectedByte(data[pos as int])), ns),
                e => (Err(e), ns),
            },
            Err(e) => (Err(e), ns),
        }
    }
}

/// What a scope block at `pos` does to the map `ns`: its term list is parsed in the scope
/// its name resolves to.
pub open spec fn def_scope_step(data: Seq<u8>, pos: nat, scope: Seq<u8>, ns: Map<Seq<u8>, AmlValue>) -> (
    Result<nat, AmlError>,
    Map<Seq<u8>, AmlValue>,
)
    decreases data.len() - pos, 0nat,
{
    match pkg_length_outcome(data, pos + 1) {
        Err(e) => (Err(e), ns),
        Ok((end, p1)) => match name_string_outcome(data, p1) {
            Err(e) => (Err(e), ns),
            Ok((token, p2)) => match resolve_outcome(scope, token) {
                None => (Err(AmlError::InvalidPath(arbitrary())), ns),
                Some(inner) => if pos < p2 && p2 <= data.len() {
                    term_list_step(data, p2, end, inner, ns)
                } else {
                    (Err(AmlError::EndOfStream), ns)
                },
            },
        },
    }
}

/// A result of the parser agrees with a stated outcome, wherever it ended: both succeed, or
/// both fail with the same error (of a path error only the kind is compared).
pub open spec fn agrees_in_kind(r: Result<(), AmlError>, s: Result<nat, AmlError>) -> bool {
    match s {
        Ok(_) => r is Ok,
        Err(AmlError::InvalidPath(_)) => r matches Err(AmlError::InvalidPath(_)),
        Err(e) => r == Err::<(), AmlError>(e),
    }
}

/// A result of the parser agrees with a stated outcome: the same success, ending at `pos`,
/// or the same error (of a path error only the kind is compared).
pub open spec fn agrees_with(r: Result<(), AmlError>, s: Result<nat, AmlError>, pos: nat) -> bool {
    match s {
        Ok(p) => r is Ok && pos == p,
        Err(AmlError::InvalidPath(_)) => r matches Err(AmlError::InvalidPath(_)),
        Err(e) => r == Err::<(), AmlError>(e),
    }
}

/// Whether `b` opens a one-byte control statement.
fn is_type1_opcode(b: u8) -> (r: bool)
    ensures
        r == spec_is_type1_opcode(b),
{
    b == 0xa5 || b == 0xcc || b == 0x9f || b == 0xa0 || b == 0xa3 || b == 0x86 || b == 0xa4 || b
        == 0xa2
}

/// Whether `b`, after the extended prefix, opens a control statement.
fn is_ext_type1_opcode(b: u8) -> (r: bool)
    ensures
        r == spec_is_ext_type1_opcode(b),
{
    b == 0x32 || b == 0x20 || b == 0x27 || b == 0x26 || b == 0x24 || b == 0x22 || b == 0x21 || b
        == 0x2a
}

// ---------------------------------------------------------------------------------------------
// The parser
// ---------------------------------------------------------------------------------------------

/// Parser state for one definition block: the cursor and the current scope. The namespace it
/// fills is handed to each step.
pub struct AmlParser<'s> {
    scope: Vec<u8>,
    stream: AmlStream<'s>,
}

impl<'s> AmlParser<'s> {
    /// The cursor.
    pub closed spec fn cursor(&self) -> AmlStream<'s> {
        self.stream
    }

    /// The current scope.
    pub closed spec fn scope_view(&self) -> Seq<u8> {
        self.scope@
    }

    /// The bytes being parsed.
    pub open spec fn data(&self) -> Seq<u8> {
        self.cursor().bytes()
    }

    /// The cursor's position.
    pub open spec fn pos(&self) -> nat {
        self.cursor().pos()
    }

    pub open spec fn wf(&self) -> bool {
        self.cursor().wf()
    }

    /// `next` is a well-formed state over the same bytes and with the same scope.
    pub open spec fn keeps_frame(&self, next: &Self) -> bool {
        &&& next.wf()
        &&& next.data() == self.data()
        &&& next.scope_view() == self.scope_view()
    }

    /// What an operation-region declaration at the cursor of `self` does: `after` and
    /// `ns_after` are the parser and the namespace's map once it returned `r`. On success the
    /// resolved path holds the region; on any failure the namespace is as it was.
    pub open spec fn op_region_done(
        &self,
        after: &Self,
        ns: Map<Seq<u8>, AmlValue>,
        ns_after: Map<Seq<u8>, AmlValue>,
        r: Result<(), AmlError>,
    ) -> bool {
        match op_region_outcome(self.data(), self.pos() + 2) {
            Ok((token, space, offset, length, p)) => match resolve_outcome(self.scope_view(), token) {
                Some(path) => r is Ok && after.pos() == p && ns_after == ns.insert(
                    path,
                    AmlValue::OpRegion { region: space, offset, length },
                ),
                None => r matches Err(AmlError::InvalidPath(t)) && t@ == token && ns_after == ns,
            },
            Err(e) => r == Err::<(), AmlError>(e) && ns_after == ns,
        }
    }

    /// The cursor of `self` is at an operation-region opcode.
    pub open spec fn at_op_region(&self) -> bool {
        &&& self.pos() + 1 < self.data().len()
        &&& self.data()[self.pos() as int] == EXT_OPCODE_PREFIX
        &&& self.data()[self.pos() + 1int] == EXT_OP_REGION_OP
    }

    /// A parser at the start of `stream`, in `scope`.
    pub fn new(scope: Vec<u8>, stream: AmlStream<'s>) -> (r: AmlParser<'s>)
        ensures
            r.cursor() == stream,
            r.scope_view() == scope@,
    {
        AmlParser { scope, stream }
    }

    /// The current scope.
    pub fn scope(&self) -> (r: &[u8])
        ensures
            r@ == self.scope_view(),
    {
        self.scope.as_slice()
    }

    /// The cursor.
    pub fn stream(&self) -> (r: AmlStream<'s>)
        ensures
            r == self.cursor(),
    {
        self.stream
    }

    /// Consumes the byte at the cursor, which must be `opcode`.
    fn consume_opcode(&mut self, opcode: u8) -> (r: Result<(), AmlError>)
        requires
            old(self).wf(),
        ensures
            old(self).keeps_frame(final(self)),
            final(self).pos() >= old(self).pos(),
            old(self).pos() >= old(self).data().len() ==> r == Err::<(), AmlError>(
                AmlError::EndOfStream,
            ),
            old(self).pos() < old(self).data().len() ==> (if old(self).data()[old(self).pos() as int]
                == opcode {
                r is Ok && final(self).pos() == old(self).pos() + 1
            } else {
                r == Err::<(), AmlError>(
                    AmlError::UnexpectedByte(old(self).data()[old(self).pos() as int]),
                )
            }),
    {
        let byte = self.stream.next()?;
        if byte == opcode {
            Ok(())
        } else {
            Err(AmlError::UnexpectedByte(byte))
        }
    }

    /// Consumes a name character: a lead character when `lead`, else any name character.
    fn consume_name_char(&mut self, lead: bool) -> (r: Result<u8, AmlError>)
        requires
            old(self).wf(),
        ensures
            old(self).keeps_frame(final(self)),
            final(self).pos() >= old(self).pos(),
            old(self).pos() >= old(self).data().len() ==> r == Err::<u8, AmlError>(
                AmlError::EndOfStream,
            ),
            old(self).pos() < old(self).data().len() ==> {
                let b = old(self).data()[old(self).pos() as int];
                if (if lead {
                    spec_is_lead_name_char(b)
                } else {
                    spec_is_name_char(b)
                }) {
                    r == Ok::<u8, AmlError>(b) && final(self).pos() == old(self).pos() + 1
                } else {
                    r == Err::<u8, AmlError>(AmlError::UnexpectedByte(b))
                }
            },
    {
        let byte = self.stream.next()?;
        let ok = if lead {
            is_lead_name_char(byte)
        } else {
            is_name_char(byte)
        };
        if ok {
            Ok(byte)
        } else {
            Err(AmlError::UnexpectedByte(byte))
        }
    }

    /// Decodes a package length and gives the end offset of the region it bounds.
    pub fn parse_pkg_length(&mut self) -> (r: Result<u32, AmlError>)
        requires
            old(self).wf(),
        ensures
            old(self).keeps_frame(final(self)),
            final(self).pos() >= old(self).pos(),
            match pkg_length_outcome(old(self).data(), old(self).pos()) {
                Ok((end, after)) => r matches Ok(e) && e as nat == end && final(self).pos() == after,
                Err(e) => r == Err::<u32, AmlError>(e),
            },
    {
        let ghost data = self.data();
        let ghost pos = self.pos();
        let lead = self.stream.next()?;
        let count = lead / 64;
        let length: u32;
        if count == 0 {
            length = (lead % 64) as u32;
        } else {
            if self.stream.len() - self.stream.offset() < count as u32 {
                return Err(AmlError::EndOfStream);
            }
            let lo = (lead % 16) as u32;
            let b1 = self.stream.next()?;
            if count == 1 {
                length = lo + 16 * (b1 as u32);
            } else {
                let b2 = self.stream.next()?;
                if count == 2 {
                    length = lo + 16 * (b1 as u32) + 0x1000 * (b2 as u32);
                } else {
                    let b3 = self.stream.next()?;
                    length = lo + 16 * (b1 as u32) + 0x1000 * (b2 as u32) + 0x10_0000 * (b3 as u32);
                }
            }
        }
        proof {
            let prefix = data.subrange(pos as int, (pos + 1 + count) as int);
            let tail = prefix.subrange(1, prefix.len() as int);
            assert(prefix[0] == lead);
            reveal_with_fuel(le_bytes, 4);
            if count == 1 {
                assert(tail.drop_first() =~= Seq::<u8>::empty());
            } else if count == 2 {
                assert(tail.drop_first().drop_first() =~= Seq::<u8>::empty());
            } else if count == 3 {
                assert(tail.drop_first().drop_first().drop_first() =~= Seq::<u8>::empty());
            }
            assert(length as nat == pkg_length_value(prefix));
        }
        // the prefix has been consumed, so the region ends `length` bytes after its start
        let start = self.stream.offset() - 1 - count as u32;
        if length > u32::MAX - start {
            return Err(AmlError::EndOfStream);
        }
        Ok(start + length)
    }

    /// A four-character name segment.
    pub fn parse_name_seg(&mut self) -> (r: Result<Vec<u8>, AmlError>)
        requires
            old(self).wf(),
        ensures
            old(self).keeps_frame(final(self)),
            final(self).pos() >= old(self).pos(),
            match name_seg_outcome(old(self).data(), old(self).pos()) {
                Ok((seg, p)) => r matches Ok(v) && v@ == seg && final(self).pos() == p,
                Err(e) => r == Err::<Vec<u8>, AmlError>(e),
            },
    {
        let ghost data = self.data();
        let ghost pos = self.pos();
        proof {
            reveal_with_fuel(seg_from, 5);
        }
        let c0 = self.consume_name_char(true)?;
        let c1 = self.consume_name_char(false)?;
        let c2 = self.consume_name_char(false)?;
        let c3 = self.consume_name_char(false)?;
        let v = vec![c0, c1, c2, c3];
        assert(v@ =~= data.subrange(pos as int, pos + 4int));
        Ok(v)
    }

    /// A name path: empty, one segment, or two after the dual prefix.
    pub fn parse_name_path(&mut self) -> (r: Result<Vec<u8>, AmlError>)
        requires
            old(self).wf(),
        ensures
            old(self).keeps_frame(final(self)),
            final(self).pos() >= old(self).pos(),
            match name_path_outcome(old(self).data(), old(self).pos()) {
                Ok((path, p)) => r matches Ok(v) && v@ == path && final(self).pos() == p,
                Err(e) => r == Err::<Vec<u8>, AmlError>(e),
            },
    {
        let lead = self.stream.peek()?;
        if lead == NULL_NAME {
            self.stream.next()?;
            Ok(Vec::new())
        } else if lead == DUAL_NAME_PREFIX {
            self.stream.next()?;
            let mut first = self.parse_name_seg()?;
            let second = self.parse_name_seg()?;
            append_range(&mut first, second.as_slice(), 0, second.len());
            assert(second@.subrange(0, second@.len() as int) =~= second@);
            Ok(first)
        } else if lead == MULTI_NAME_PREFIX {
            Err(AmlError::NotYetSupported)
        } else {
            self.parse_name_seg()
        }
    }

    /// A name token: a root-anchored path, or any number of parent-pops and a path. The
    /// token keeps its leading characters; it is resolved against the scope separately.
    pub fn parse_name_string(&mut self) -> (r: Result<Vec<u8>, AmlError>)
        requires
            old(self).wf(),
        ensures
            old(self).keeps_frame(final(self)),
            final(self).pos() >= old(self).pos(),
            match name_string_outcome(old(self).data(), old(self).pos()) {
                Ok((token, p)) => r matches Ok(v) && v@ == token && final(self).pos() == p,
                Err(e) => r == Err::<Vec<u8>, AmlError>(e),
            },
    {
        let ghost data = self.data();
        let ghost pos = self.pos();
        let lead = self.stream.peek()?;
        let mut token: Vec<u8> = Vec::new();
        if lead == ROOT_CHAR {
            self.stream.next()?;
            token.push(ROOT_CHAR);
            assert(token@ =~= data.subrange(pos as int, pos + 1int));
        } else {
            while self.stream.at(PARENT_PREFIX_CHAR)
                invariant
                    old(self).keeps_frame(self),
                    data == self.data(),
                    pos <= self.pos(),
                    caret_count(data, pos) == (self.pos() - pos) + caret_count(data, self.pos()),
                    token@ == data.subrange(pos as int, self.pos() as int),
                    data[pos as int] != ROOT_CHAR,
                decreases self.cursor().remaining(),
            {
                self.stream.next()?;
                token.push(PARENT_PREFIX_CHAR);
                assert(token@ =~= data.subrange(pos as int, self.pos() as int));
            }
        }
        let path = self.parse_name_path()?;
        append_range(&mut token, path.as_slice(), 0, path.len());
        assert(path@.subrange(0, path@.len() as int) =~= path@);
        Ok(token)
    }

    /// Computational data: an integer constant or one of the constant objects.
    pub fn parse_computational_data(&mut self) -> (r: Result<AmlValue, AmlError>)
        requires
            old(self).wf(),
        ensures
            old(self).keeps_frame(final(self)),
            final(self).pos() >= old(self).pos(),
            match computational_data_outcome(old(self).data(), old(self).pos()) {
                Ok((v, p)) => r == Ok::<AmlValue, AmlError>(AmlValue::Integer(v)) && final(self).pos() == p,
                Err(e) => r == Err::<AmlValue, AmlError>(e),
            },
    {
        let ghost data = self.data();
        let ghost pos = self.pos();
        let op = self.stream.peek()?;
        if op == BYTE_CONST {
            self.stream.next()?;
            let b = self.stream.next()?;
            proof {
                reveal_with_fuel(le_bytes, 2);
                assert(data.subrange(pos + 1int, pos + 2int).drop_first() =~= Seq::<u8>::empty());
            }
            Ok(AmlValue::Integer(b as u64))
        } else if op == WORD_CONST {
            self.stream.next()?;
            let v = self.stream.next_u16()?;
            Ok(AmlValue::Integer(v as u64))
        } else if op == DWORD_CONST {
            self.stream.next()?;
            let v = self.stream.next_u32()?;
            Ok(AmlValue::Integer(v as u64))
        } else if op == QWORD_CONST {
            self.stream.next()?;
            let v = self.stream.next_u64()?;
            Ok(AmlValue::Integer(v))
        } else if op == STRING_PREFIX {
            Err(AmlError::NotYetSupported)
        } else if op == ZERO_OP {
            self.stream.next()?;
            Ok(AmlValue::Integer(0))
        } else if op == ONE_OP {
            self.stream.next()?;
            Ok(AmlValue::Integer(1))
        } else if op == ONES_OP {
            self.stream.next()?;
            Ok(AmlValue::Integer(u64::MAX))
        } else if op == EXT_OPCODE_PREFIX {
            self.stream.next()?;
            let second = self.stream.peek()?;
            if second == EXT_REVISION_OP {
                Err(AmlError::NotYetSupported)
            } else {
                Err(AmlError::UnexpectedByte(op))
            }
        } else if op == BUFFER_OP {
            Err(AmlError::NotYetSupported)
        } else {
            Err(AmlError::UnexpectedByte(op))
        }
    }

    /// Settles a speculative attempt that started from `snapshot`. A success is kept where it
    /// left the cursor. An unexpected byte means "not this production": the cursor goes back to
    /// `snapshot` and the answer is `None`, so that the caller can try another. Any other error
    /// is passed on with the cursor left where the attempt failed.
    fn try_parse<T>(&mut self, snapshot: AmlStream<'s>, attempt: Result<T, AmlError>) -> (r: Result<
        Option<T>,
        AmlError,
    >)
        requires
            old(self).wf(),
            snapshot.wf(),
            snapshot.bytes() == old(self).data(),
        ensures
            old(self).keeps_frame(final(self)),
            match attempt {
                Ok(v) => r == Ok::<Option<T>, AmlError>(Some(v)) && final(self).cursor() == old(self).cursor(),
                Err(AmlError::UnexpectedByte(_)) => r == Ok::<Option<T>, AmlError>(None)
                    && final(self).cursor() == snapshot,
                Err(e) => r == Err::<Option<T>, AmlError>(e) && final(self).cursor() == old(self).cursor(),
            },
    {
        match attempt {
            Ok(v) => Ok(Some(v)),
            Err(AmlError::UnexpectedByte(_)) => {
                self.stream = snapshot;
                Ok(None)
            },
            Err(e) => Err(e),
        }
    }

    /// A term argument; of its forms, computational data is handled.
    pub fn parse_term_arg(&mut self) -> (r: Result<AmlValue, AmlError>)
        requires
            old(self).wf(),
        ensures
            old(self).keeps_frame(final(self)),
            final(self).pos() >= old(self).pos(),
            match computational_data_outcome(old(self).data(), old(self).pos()) {
                Ok((v, p)) => r == Ok::<AmlValue, AmlError>(AmlValue::Integer(v)) && final(self).pos() == p,
                Err(e) => r == Err::<AmlValue, AmlError>(e),
            },
    {
        let snapshot = self.stream;
        let attempt = self.parse_computational_data();
        match self.try_parse(snapshot, attempt)? {
            Some(v) => Ok(v),
            None => Err(AmlError::UnexpectedByte(self.stream.next()?)),
        }
    }

    /// Whether the cursor is at the extended prefix followed by `ext_opcode`; the cursor does
    /// not move.
    fn match_ext_opcode(&mut self, ext_opcode: u8) -> (r: Result<bool, AmlError>)
        requires
            old(self).wf(),
        ensures
            old(self).keeps_frame(final(self)),
            final(self).cursor() == old(self).cursor(),
            ({
                let data = old(self).data();
                let pos = old(self).pos();
                if pos >= data.len() {
                    r == Err::<bool, AmlError>(AmlError::EndOfStream)
                } else if data[pos as int] != EXT_OPCODE_PREFIX {
                    r == Ok::<bool, AmlError>(false)
                } else if pos + 1 >= data.len() {
                    r == Err::<bool, AmlError>(AmlError::EndOfStream)
                } else {
                    r == Ok::<bool, AmlError>(data[pos + 1int] == ext_opcode)
                }
            }),
    {
        let lead = self.stream.peek()?;
        if lead != EXT_OPCODE_PREFIX {
            return Ok(false);
        }
        let saved = self.stream;
        self.stream.next()?;
        let second = self.stream.peek();
        self.stream = saved;
        let second = second?;
        Ok(second == ext_opcode)
    }

    /// An operation-region declaration: its name is resolved against the scope and the region
    /// is stored there.
    fn parse_def_op_region(&mut self, ns: &mut Namespace) -> (r: Result<(), AmlError>)
        requires
            old(self).wf(),
            old(ns).wf(),
            old(self).at_op_region(),
        ensures
            old(self).keeps_frame(final(self)),
            final(self).pos() > old(self).pos(),
            final(ns).wf(),
            old(self).op_region_done(final(self), old(ns).view(), final(ns).view(), r),
    {
        self.consume_opcode(EXT_OPCODE_PREFIX)?;
        self.consume_opcode(EXT_OP_REGION_OP)?;
        let name = self.parse_name_string()?;
        let byte = self.stream.next()?;
        let region = match decode_region_space(byte) {
            Some(space) => space,
            None => return Err(AmlError::UnexpectedByte(byte)),
        };
        let offset = match self.parse_term_arg()? {
            AmlValue::Integer(i) => i,
            _ => return Err(AmlError::NotYetSupported),
        };
        let length = match self.parse_term_arg()? {
            AmlValue::Integer(i) => i,
            _ => return Err(AmlError::NotYetSupported),
        };
        let namespace_path = resolve_path(self.scope.as_slice(), name)?;
        ns.insert(namespace_path, AmlValue::OpRegion { region, offset, length });
        Ok(())
    }

    /// A field declaration. Its name and flags are read and its field list bounded; field
    /// elements themselves are not handled.
    fn parse_def_field(&mut self) -> (r: Result<(), AmlError>)
        requires
            old(self).wf(),
        ensures
            old(self).keeps_frame(final(self)),
            final(self).pos() >= old(self).pos(),
            match def_field_outcome(old(self).data(), old(self).pos()) {
                Ok(p) => r is Ok && final(self).pos() == p,
                Err(e) => r == Err::<(), AmlError>(e),
            },
    {
        self.consume_opcode(EXT_OPCODE_PREFIX)?;
        self.consume_opcode(EXT_FIELD_OP)?;
        let end_offset = self.parse_pkg_length()?;
        let _name = self.parse_name_string()?;
        let _field_flags = self.stream.next()?;
        self.parse_field_list(end_offset)?;
        Ok(())
    }

    /// The elements of a field list, up to `end_offset`.
    fn parse_field_list(&mut self, end_offset: u32) -> (r: Result<(), AmlError>)
        requires
            old(self).wf(),
        ensures
            *final(self) == *old(self),
            old(self).pos() < end_offset ==> r == Err::<(), AmlError>(AmlError::NotYetSupported),
            old(self).pos() >= end_offset ==> r is Ok,
    {
        while self.stream.offset() < end_offset
            invariant
                *self == *old(self),
            decreases self.cursor().remaining(),
        {
            self.parse_field_element()?;
        }
        Ok(())
    }

    /// One field element: not handled.
    fn parse_field_element(&mut self) -> (r: Result<(), AmlError>)
        ensures
            *final(self) == *old(self),
            r == Err::<(), AmlError>(AmlError::NotYetSupported),
    {
        Err(AmlError::NotYetSupported)
    }

    /// A control statement: recognised by its opcode, not handled.
    fn parse_type1_opcode(&mut self) -> (r: Result<(), AmlError>)
        requires
            old(self).wf(),
        ensures
            old(self).keeps_frame(final(self)),
            final(self).pos() >= old(self).pos(),
            r == Err::<(), AmlError>(type1_outcome(old(self).data(), old(self).pos())),
    {
        let op = self.stream.peek()?;
        if is_type1_opcode(op) {
            return Err(AmlError::NotYetSupported);
        }
        if op == EXT_OPCODE_PREFIX {
            self.stream.next()?;
            let second = self.stream.peek()?;
            if is_ext_type1_opcode(second) {
                Err(AmlError::NotYetSupported)
            } else {
                Err(AmlError::UnexpectedByte(EXT_OPCODE_PREFIX))
            }
        } else {
            Err(AmlError::UnexpectedByte(op))
        }
    }

    /// Parses term objects until the cursor reaches `end_offset`. None is parsed once the
    /// cursor stands at or past it. The scope is the same afterwards, whatever the outcome.
    pub fn parse_term_list(&mut self, ns: &mut Namespace, end_offset: u32) -> (r: Result<(), AmlError>)
        requires
            old(self).wf(),
            old(ns).wf(),
        ensures
            old(self).keeps_frame(final(self)),
            final(ns).wf(),
            old(self).pos() >= end_offset ==> r is Ok && final(self).cursor() == old(self).cursor()
                && final(ns).view() == old(ns).view(),
            r is Ok ==> final(self).pos() >= end_offset && final(self).pos() >= old(self).pos(),
            ({
                let (s, m) = term_list_step(
                    old(self).data(),
                    old(self).pos(),
                    end_offset as nat,
                    old(self).scope_view(),
                    old(ns).view(),
                );
                agrees_with(r, s, final(self).pos()) && final(ns).view() == m
            }),
        decreases old(self).cursor().remaining(), 2nat,
    {
        while self.stream.offset() < end_offset
            invariant
                old(self).keeps_frame(self),
                ns.wf(),
                self.pos() >= old(self).pos(),
                old(self).pos() >= end_offset ==> self.pos() == old(self).pos(),
                self.pos() == old(self).pos() ==> self.cursor() == old(self).cursor() && ns.view()
                    == old(ns).view(),
                term_list_step(
                    old(self).data(),
                    old(self).pos(),
                    end_offset as nat,
                    old(self).scope_view(),
                    old(ns).view(),
                ) == term_list_step(
                    self.data(),
                    self.pos(),
                    end_offset as nat,
                    self.scope_view(),
                    ns.view(),
                ),
            decreases self.cursor().remaining(),
        {
            self.parse_term_object(ns)?;
        }
        Ok(())
    }

    /// One term object: a scope, an operation region, a field, or a control statement, tried
    /// in that order. A byte that opens none of them is unexpected.
    pub fn parse_term_object(&mut self, ns: &mut Namespace) -> (r: Result<(), AmlError>)
        requires
            old(self).wf(),
            old(ns).wf(),
        ensures
            old(self).keeps_frame(final(self)),
            final(ns).wf(),
            r is Ok ==> final(self).pos() > old(self).pos(),
            old(self).at_op_region() ==> old(self).op_region_done(
                final(self),
                old(ns).view(),
                final(ns).view(),
                r,
            ),
            ({
                let (s, m) = term_object_step(
                    old(self).data(),
                    old(self).pos(),
                    old(self).scope_view(),
                    old(ns).view(),
                );
                agrees_with(r, s, final(self).pos()) && final(ns).view() == m
            }),
        decreases old(self).cursor().remaining(), 1nat,
    {
        let lead = self.stream.peek()?;
        if lead == SCOPE_OP {
            return self.parse_def_scope(ns);
        }
        if self.match_ext_opcode(EXT_OP_REGION_OP)? {
            return self.parse_def_op_region(ns);
        }
        let snapshot = self.stream;
        let attempt = self.parse_def_field();
        if let Some(_) = self.try_parse(snapshot, attempt)? {
            return Ok(());
        }
        let snapshot = self.stream;
        let attempt = self.parse_type1_opcode();
        if let Some(_) = self.try_parse(snapshot, attempt)? {
            return Ok(());
        }
        Err(AmlError::UnexpectedByte(self.stream.peek()?))
    }

    /// A scope block: the scope becomes the resolved name while its term list is parsed, and
    /// is put back afterwards, on failure too.
    fn parse_def_scope(&mut self, ns: &mut Namespace) -> (r: Result<(), AmlError>)
        requires
            old(self).wf(),
            old(ns).wf(),
            old(self).pos() < old(self).data().len(),
            old(self).data()[old(self).pos() as int] == SCOPE_OP,
        ensures
            old(self).keeps_frame(final(self)),
            final(ns).wf(),
            r is Ok ==> final(self).pos() > old(self).pos(),
            ({
                let (s, m) = def_scope_step(
                    old(self).data(),
                    old(self).pos(),
                    old(self).scope_view(),
                    old(ns).view(),
                );
                agrees_with(r, s, final(self).pos()) && final(ns).view() == m
            }),
        decreases old(self).cursor().remaining(), 0nat,
    {
        self.consume_opcode(SCOPE_OP)?;
        let scope_end_offset = self.parse_pkg_length()?;
        let name_string = self.parse_name_string()?;
        let mut containing_scope = resolve_path(self.scope.as_slice(), name_string)?;
        core::mem::swap(&mut self.scope, &mut containing_scope);
        let result = self.parse_term_list(ns, scope_end_offset);
        self.scope = containing_scope;
        result
    }

    /// Parses a whole definition block from `stream` into `namespace`, starting in `scope`.
    /// What was stored before a failure stays stored.
    pub fn parse(namespace: &mut Namespace, scope: Vec<u8>, stream: AmlStream<'s>) -> (r: Result<
        (),
        AmlError,
    >)
        requires
            old(namespace).wf(),
            stream.wf(),
        ensures
            final(namespace).wf(),
            stream.pos() >= stream.bytes().len() ==> r is Ok && final(namespace).view() == old(namespace).view(),
            ({
                let (s, m) = term_list_step(
                    stream.bytes(),
                    stream.pos(),
                    stream.bytes().len(),
                    scope@,
                    old(namespace).view(),
                );
                agrees_in_kind(r, s) && final(namespace).view() == m
            }),
    {
        let mut parser = AmlParser { scope, stream };
        let end_offset = parser.stream.len();
        parser.parse_term_list(namespace, end_offset)
    }
}

} // verus!
