//! EBML element reading: variable-size integers, typed payloads, and an iterator over
//! the elements of a byte range.

use vstd::prelude::*;
use std::collections::HashMap;
use crate::bytes::{be_value, fold_be, extend_bytes, fold_signed, signed_value};
use crate::ids::EbmlType;
use crate::remux::{lz8, vint_mask, leading_zeros_u8};

verus! {

pub type Size = u64;

/// A byte store addressed by absolute offsets.
pub trait EbmlSource {
    /// The bytes `read_range(start, end)` returns: those at offsets `start..=end`
    /// that the source holds.
    spec fn spec_read(&self, start: u64, end: u64) -> Seq<u8>;

    /// Whether `read_range(start, end)` returns normally.
    spec fn read_ok(&self, start: u64, end: u64) -> bool;

    /// The bytes at offsets `start..=end` that the source holds (fewer near its end).
    fn read_range(&self, start: Size, end: Size) -> (r: Vec<u8>)
        requires
            self.read_ok(start, end),
        ensures
            r@ == self.spec_read(start, end),
            r@.len() <= (if end >= start {
                end - start + 1
            } else {
                0
            }),
    ;

    /// Whether `read_range(start, end)` returns normally.
    fn can_read(&self, start: Size, end: Size) -> (b: bool)
        ensures
            b == self.read_ok(start, end),
    ;

    /// `length` bytes from `start` (fewer near the source's end).
    fn read_exact(&self, start: Size, length: usize) -> (r: Vec<u8>)
        requires
            length == 0 || (start + length <= u64::MAX && self.read_ok(
                start,
                (start + length - 1) as u64,
            )),
        ensures
            r@ == (if length == 0 {
                Seq::empty()
            } else {
                self.spec_read(start, (start + length - 1) as u64)
            }),
    ;
}

/// An in-memory source over a byte buffer whose first byte sits at offset `base`.
/// Used to read a whole element (Cues/Tracks) or a whole Cluster at once and then
/// parse it field by field.
pub struct MemSource {
    data: Vec<u8>,
    /// Absolute file offset corresponding to `data[0]`.
    base: u64,
}

impl MemSource {
    pub fn new(data: Vec<u8>, base: u64) -> (r: Self)
        ensures
            r.bytes() == data@,
            r.base() == base,
    {
        Self { data, base }
    }

    pub closed spec fn bytes(&self) -> Seq<u8> {
        self.data@
    }

    pub closed spec fn base(&self) -> u64 {
        self.base
    }
}

/// The part of `data` (which starts at offset `base`) lying in `start..=end`.
pub open spec fn mem_range(data: Seq<u8>, base: u64, start: u64, end: u64) -> Seq<u8> {
    if start < base || start - base >= data.len() {
        Seq::empty()
    } else {
        let s = start - base;
        let e = if end - base < data.len() - 1 { end - base } else { data.len() - 1 };
        if e < s {
            Seq::empty()
        } else {
            data.subrange(s, e + 1)
        }
    }
}

impl EbmlSource for MemSource {
    open spec fn spec_read(&self, start: u64, end: u64) -> Seq<u8> {
        mem_range(self.bytes(), self.base(), start, end)
    }

    /// A read starting inside the buffer must not end before the buffer's base.
    open spec fn read_ok(&self, start: u64, end: u64) -> bool {
        start >= self.base() && start - self.base() < self.bytes().len() ==> end >= self.base()
    }

    fn read_range(&self, start: Size, end: Size) -> (r: Vec<u8>) {
        if start < self.base {
            return Vec::new();
        }
        let s: u64 = start - self.base;
        if s >= self.data.len() as u64 {
            return Vec::new();
        }
        let last: u64 = (self.data.len() - 1) as u64;
        let e: u64 = if end - self.base < last { end - self.base } else { last };
        if e < s {
            return Vec::new();
        }
        crate::bytes::slice_to_vec(self.data.as_slice(), s as usize, (e + 1) as usize)
    }

    fn can_read(&self, start: Size, end: Size) -> (b: bool) {
        if start >= self.base && start - self.base < self.data.len() as u64 {
            end >= self.base
        } else {
            true
        }
    }

    fn read_exact(&self, start: Size, length: usize) -> (r: Vec<u8>) {
        if length == 0 {
            return Vec::new();
        }
        self.read_range(start, start + length as u64 - 1)
    }
}


/// A byte source together with the element-type table used to decode it.
pub struct Ebml<S: EbmlSource> {
    pub source: S,
    pub id_map: HashMap<u64, EbmlType>,
}

/// The two's-complement reading of a 64-bit pattern.
pub open spec fn i64_of(n: nat) -> int {
    if n < 0x8000_0000_0000_0000 {
        n as int
    } else {
        n - 0x1_0000_0000_0000_0000
    }
}

/// What `String::from_utf8_lossy` makes of a byte string: its UTF-8 decoding, with
/// each invalid sequence replaced by U+FFFD.
pub uninterp spec fn utf8_lossy(bytes: Seq<u8>) -> Seq<char>;

/// `String::from_utf8_lossy(bytes).into_owned()`. Valid UTF-8 decodes exactly; the
/// replacement of invalid sequences is left unstated.
#[verifier::external_body]
pub(crate) fn from_utf8_lossy(bytes: &[u8]) -> (r: String)
    ensures
        r@ == utf8_lossy(bytes@),
        vstd::utf8::valid_utf8(bytes@) ==> r@ == vstd::utf8::decode_utf8(bytes@),
{
    String::from_utf8_lossy(bytes).into_owned()
}

// ----------------------------------------------------------------------------
// Variable-size integers, as read from a source
// ----------------------------------------------------------------------------

/// The bytes of the variable-size integer at `start`: the first byte, then as many
/// more as it has leading zero bits. `(0, [])` when nothing can be read there.
pub open spec fn spec_octets<S: EbmlSource>(src: &S, start: u64) -> (u64, Seq<u8>) {
    let first = src.spec_read(start, start);
    if first.len() == 0 {
        (0, Seq::empty())
    } else {
        let lz = lz8(first[0]);
        if lz != 0 {
            ((lz + 1) as u64, first + src.spec_read((start + 1) as u64, (start + lz) as u64))
        } else {
            (1, first)
        }
    }
}

pub open spec fn octets_ok<S: EbmlSource>(src: &S, start: u64) -> bool {
    let first = src.spec_read(start, start);
    &&& src.read_ok(start, start)
    &&& first.len() > 0 && lz8(first[0]) != 0 ==> start + lz8(first[0]) <= u64::MAX
        && src.read_ok((start + 1) as u64, (start + lz8(first[0])) as u64)
}

/// An element ID: the raw big-endian value of its bytes, marker bit included.
pub open spec fn spec_id<S: EbmlSource>(src: &S, start: u64) -> (u64, u64) {
    (spec_octets(src, start).0, be_value(spec_octets(src, start).1) as u64)
}

pub open spec fn id_ok<S: EbmlSource>(src: &S, start: u64) -> bool {
    octets_ok(src, start) && spec_octets(src, start).1.len() <= 8
}

/// The integer's bytes with the width marker cleared (kept for width 8).
pub open spec fn spec_masked<S: EbmlSource>(src: &S, start: u64) -> (u64, Seq<u8>) {
    let (n, raw) = spec_octets(src, start);
    if raw.len() == 0 {
        (0, Seq::empty())
    } else if n == 8 {
        (n, raw)
    } else {
        (n, raw.update(0, raw[0] & vint_mask(n as nat)))
    }
}

/// A zero first byte (no marker within eight bits) is rejected.
pub open spec fn masked_ok<S: EbmlSource>(src: &S, start: u64) -> bool {
    &&& octets_ok(src, start)
    &&& spec_octets(src, start).1.len() == 0 || spec_octets(src, start).0 <= 8
}

pub open spec fn spec_vuint<S: EbmlSource>(src: &S, start: u64) -> (u64, u64) {
    (spec_masked(src, start).0, be_value(spec_masked(src, start).1) as u64)
}

pub open spec fn spec_vint<S: EbmlSource>(src: &S, start: u64) -> (u64, i64) {
    (spec_masked(src, start).0, i64_of(be_value(spec_masked(src, start).1)) as i64)
}

pub open spec fn vuint_ok<S: EbmlSource>(src: &S, start: u64) -> bool {
    masked_ok(src, start) && spec_masked(src, start).1.len() <= 8
}

impl<S: EbmlSource> Ebml<S> {
    pub fn new(source: S, id_map: HashMap<u64, EbmlType>) -> (r: Self)
        ensures
            r.source == source,
            r.id_map@ == id_map@,
    {
        Ebml { source, id_map }
    }

    /// The unsigned big-endian value of at most eight bytes.
    pub fn bytes_to_uint(raw_bytes: Vec<u8>) -> (r: u64)
        requires
            raw_bytes@.len() <= 8,
        ensures
            r == be_value(raw_bytes@),
    {
        fold_be(raw_bytes.as_slice())
    }

    /// The big-endian two's-complement value of the bytes, sign-extended from the
    /// top bit of the first byte.
    pub fn bytes_to_int(raw_bytes: Vec<u8>) -> (r: i64)
        requires
            raw_bytes@.len() <= 8,
        ensures
            r == signed_value(raw_bytes@),
    {
        fold_signed(raw_bytes.as_slice())
    }

    /// The bytes decoded as UTF-8, invalid sequences replaced by U+FFFD.
    pub fn bytes_to_string(raw_bytes: Vec<u8>) -> (r: String)
        ensures
            r@ == utf8_lossy(raw_bytes@),
            vstd::utf8::valid_utf8(raw_bytes@) ==> r@ == vstd::utf8::decode_utf8(raw_bytes@),
    {
        from_utf8_lossy(raw_bytes.as_slice())
    }

    /// Whether the variable-size integer at `start` can be read.
    pub fn octets_ready(&self, start: Size) -> (b: bool)
        ensures
            b == octets_ok(&self.source, start),
    {
        if !self.source.can_read(start, start) {
            return false;
        }
        let first = self.source.read_range(start, start);
        if first.len() == 0 {
            return true;
        }
        let lz: u64 = leading_zeros_u8(first[0]) as u64;
        if lz == 0 {
            return true;
        }
        if start > u64::MAX - lz {
            return false;
        }
        self.source.can_read(start + 1, start + lz)
    }

    pub fn read_variable_size_octets(&self, start: Size) -> (r: (Size, Vec<u8>))
        requires
            octets_ok(&self.source, start),
        ensures
            (r.0, r.1@) == spec_octets(&self.source, start),
            r.1@.len() <= r.0,
    {
        let mut byte_data = self.source.read_range(start, start);
        if byte_data.len() == 0 {
            return (0, Vec::new());
        }
        let first_byte = byte_data[0];
        let leading_zeros: u64 = leading_zeros_u8(first_byte) as u64;
        let octet_length = leading_zeros + 1;
        if leading_zeros != 0 {
            let additional_data = self.source.read_range(start + 1, start + leading_zeros);
            extend_bytes(&mut byte_data, additional_data.as_slice());
        }
        (octet_length, byte_data)
    }

    pub fn read_variable_size_id(&self, start: Size) -> (r: (Size, u64))
        requires
            id_ok(&self.source, start),
        ensures
            r == spec_id(&self.source, start),
    {
        let (octet_length, byte_data) = self.read_variable_size_octets(start);
        let integer_result = fold_be(byte_data.as_slice());
        (octet_length, integer_result)
    }

    pub fn read_variable_size_octects_masked(&self, start: Size) -> (r: (Size, Vec<u8>))
        requires
            masked_ok(&self.source, start),
        ensures
            (r.0, r.1@) == spec_masked(&self.source, start),
            r.1@.len() <= 8,
    {
        let (octet_length, mut raw_bytes) = self.read_variable_size_octets(start);
        if raw_bytes.len() == 0 {
            return (0, Vec::new());
        }
        if octet_length == 8 {
            return (octet_length, raw_bytes);
        }
        let mask = mask_for(octet_length);
        let b0 = raw_bytes[0] & mask;
        raw_bytes.set(0, b0);
        (octet_length, raw_bytes)
    }

    pub fn read_variable_size_int(&self, start: Size) -> (r: (Size, i64))
        requires
            masked_ok(&self.source, start),
        ensures
            r == spec_vint(&self.source, start),
    {
        let (octet_length, raw_bytes) = self.read_variable_size_octects_masked(start);
        let v = fold_be(raw_bytes.as_slice());
        (octet_length, to_i64(v))
    }

    pub fn read_variable_size_uint(&self, start: Size) -> (r: (Size, u64))
        requires
            masked_ok(&self.source, start),
        ensures
            r == spec_vuint(&self.source, start),
    {
        let (octet_length, raw_bytes) = self.read_variable_size_octects_masked(start);
        let integer_result = fold_be(raw_bytes.as_slice());
        (octet_length, integer_result)
    }
}

/// `0xff >> n` for a vint width `n` in `1..=7`.
fn mask_for(n: u64) -> (m: u8)
    requires
        1 <= n <= 7,
    ensures
        m == vint_mask(n as nat),
{
    if n == 1 {
        0x7f
    } else if n == 2 {
        0x3f
    } else if n == 3 {
        0x1f
    } else if n == 4 {
        0x0f
    } else if n == 5 {
        0x07
    } else if n == 6 {
        0x03
    } else {
        0x01
    }
}

fn is_unknown_size(n: u64, size: u64) -> (r: bool)
    ensures
        r == unknown_size(n, size),
{
    1 <= n && n <= 8 && size == (if n == 1 {
        0x7F
    } else if n == 2 {
        0x3FFF
    } else if n == 3 {
        0x1F_FFFF
    } else if n == 4 {
        0xFFF_FFFF
    } else if n == 5 {
        0x7_FFFF_FFFF
    } else if n == 6 {
        0x3FF_FFFF_FFFF
    } else if n == 7 {
        0x1_FFFF_FFFF_FFFF
    } else {
        0x1FF_FFFF_FFFF_FFFFu64
    })
}

/// The two's-complement reading of a 64-bit pattern.
fn to_i64(v: u64) -> (r: i64)
    ensures
        r == i64_of(v as nat),
{
    if v < 0x8000_0000_0000_0000 {
        v as i64
    } else {
        (v - 0x8000_0000_0000_0000) as i64 + i64::MIN
    }
}


// ----------------------------------------------------------------------------
// Elements
// ----------------------------------------------------------------------------

/// Iterates over the elements stored from `current` up to `end` (or without bound).
pub struct EbmlIterator<'a, S: EbmlSource> {
    pub current: u64,
    pub end: Option<u64>,
    pub ebml: &'a Ebml<S>,
}

/// One element: its ID, the offset of its first header byte, the bytes it spans
/// (header included), and its decoded payload.
pub struct EbmlElement<'a, S: EbmlSource> {
    pub id: u64,
    pub offset: Size,
    pub size: Size,
    pub payload: EbmlPayload<'a, S>,
}

/// A decoded payload. Floats are carried as their raw big-endian bytes.
pub enum EbmlPayload<'a, S: EbmlSource> {
    Master(EbmlIterator<'a, S>),
    UnsignedInt(u64),
    SignedInt(i64),
    Float(Vec<u8>),
    Date(i64),
    String(String),
    Binary((u64, u64)),
    Void,
    Unknown((u64, u64)),
    Invalid(Option<(u64, u64)>),
}

/// The value of a payload: a master element by the range of its children.
pub enum PayloadView {
    Master(u64, u64),
    UnsignedInt(u64),
    SignedInt(i64),
    Float(Seq<u8>),
    Date(i64),
    Text(Seq<char>),
    Binary(u64, u64),
    Void,
    Unknown(u64, u64),
    Invalid(Option<(u64, u64)>),
}

pub struct ElementView {
    pub id: u64,
    pub offset: u64,
    pub size: u64,
    pub payload: PayloadView,
}

impl<'a, S: EbmlSource> EbmlPayload<'a, S> {
    pub open spec fn view(&self) -> PayloadView {
        match self {
            EbmlPayload::Master(it) => PayloadView::Master(
                it.current,
                match it.end {
                    Some(e) => e,
                    None => 0,
                },
            ),
            EbmlPayload::UnsignedInt(v) => PayloadView::UnsignedInt(*v),
            EbmlPayload::SignedInt(v) => PayloadView::SignedInt(*v),
            EbmlPayload::Float(b) => PayloadView::Float(b@),
            EbmlPayload::Date(v) => PayloadView::Date(*v),
            EbmlPayload::String(t) => PayloadView::Text(t@),
            EbmlPayload::Binary(r) => PayloadView::Binary(r.0, r.1),
            EbmlPayload::Void => PayloadView::Void,
            EbmlPayload::Unknown(r) => PayloadView::Unknown(r.0, r.1),
            EbmlPayload::Invalid(r) => PayloadView::Invalid(*r),
        }
    }

    /// A master payload iterates over a bounded range of the same source.
    pub open spec fn children_of(&self, ebml: &'a Ebml<S>) -> bool {
        match self {
            EbmlPayload::Master(it) => it.ebml == ebml && it.end is Some,
            _ => true,
        }
    }
}

impl<'a, S: EbmlSource> EbmlElement<'a, S> {
    pub open spec fn view(&self) -> ElementView {
        ElementView { id: self.id, offset: self.offset, size: self.size, payload: self.payload.view() }
    }

    pub fn empty() -> (r: Self)
        ensures
            r.view() == (ElementView { id: 0, offset: 0, size: 0, payload: PayloadView::Void }),
    {
        EbmlElement { id: 0, offset: 0, size: 0, payload: EbmlPayload::Void }
    }
}

/// The bytes of a typed value stored at `c..c + size`.
pub open spec fn value_bytes<S: EbmlSource>(src: &S, c: u64, size: u64) -> Seq<u8> {
    src.spec_read(c, (c + size - 1) as u64)
}

/// The reserved all-ones value of a size of width `n`: "unknown size".
pub open spec fn all_ones(n: u64) -> u64 {
    if n == 1 {
        0x7F
    } else if n == 2 {
        0x3FFF
    } else if n == 3 {
        0x1F_FFFF
    } else if n == 4 {
        0xFFF_FFFF
    } else if n == 5 {
        0x7_FFFF_FFFF
    } else if n == 6 {
        0x3FF_FFFF_FFFF
    } else if n == 7 {
        0x1_FFFF_FFFF_FFFF
    } else {
        0x1FF_FFFF_FFFF_FFFF
    }
}

/// A size of width `n` with every value bit set: the element's size is unknown.
pub open spec fn unknown_size(n: u64, size: u64) -> bool {
    1 <= n <= 8 && size == all_ones(n)
}

/// The payload of an element of type `t` whose value starts at `c` and is `size`
/// bytes long, and where reading continues afterwards. Integers wider than eight
/// bytes are skipped with no element. A master of unknown size runs to the end of
/// its parent, `parent_end`.
pub open spec fn spec_payload<S: EbmlSource>(
    src: &S,
    t: EbmlType,
    c: u64,
    size: u64,
    unknown: bool,
    parent_end: u64,
) -> (Option<PayloadView>, u64) {
    let b = value_bytes(src, c, size);
    let after = (c + size) as u64;
    match t {
        EbmlType::SignedInteger => if size > 8 {
            (None, after)
        } else {
            (Some(PayloadView::SignedInt(signed_value(b) as i64)), after)
        },
        EbmlType::UnsignedInteger => if size > 8 {
            (None, after)
        } else {
            (Some(PayloadView::UnsignedInt(be_value(b) as u64)), after)
        },
        EbmlType::Float => (Some(PayloadView::Float(b)), after),
        EbmlType::String => (Some(PayloadView::Text(utf8_lossy(b))), after),
        EbmlType::UTF8 => (Some(PayloadView::Text(utf8_lossy(b))), after),
        EbmlType::Date => (Some(PayloadView::Date(signed_value(b) as i64)), after),
        EbmlType::Binary => (Some(PayloadView::Binary(c, (c + size - 1) as u64)), after),
        EbmlType::Void => (Some(PayloadView::Void), after),
        EbmlType::Unsupported => (Some(PayloadView::Invalid(None)), after),
        EbmlType::Master => if unknown {
            (Some(PayloadView::Master(c, parent_end)), parent_end)
        } else {
            (Some(PayloadView::Master(c, after)), after)
        },
    }
}

/// Whether a type's value is read from the source.
pub open spec fn reads_value(t: EbmlType, size: u64) -> bool {
    match t {
        EbmlType::SignedInteger | EbmlType::UnsignedInteger => size <= 8,
        EbmlType::Float | EbmlType::String | EbmlType::UTF8 | EbmlType::Date => true,
        _ => false,
    }
}

/// Decoding the payload returns normally: offsets stay within `u64`, reads are
/// valid, floats are 0, 4 or 8 bytes and dates at most 8.
pub open spec fn payload_ok<S: EbmlSource>(src: &S, t: EbmlType, c: u64, size: u64) -> bool {
    let b = value_bytes(src, c, size);
    &&& c + size <= u64::MAX
    &&& reads_value(t, size) || t == EbmlType::Binary ==> c + size >= 1
    &&& reads_value(t, size) ==> src.read_ok(c, (c + size - 1) as u64)
    &&& t == EbmlType::Float ==> b.len() == 0 || b.len() == 4 || b.len() == 8
    &&& t == EbmlType::Date ==> b.len() <= 8
}

/// The header of the element at `current`: `(id, size, value start, size unknown)`.
pub open spec fn spec_header<S: EbmlSource>(e: &Ebml<S>, current: u64) -> (u64, u64, u64, bool) {
    let (l1, id) = spec_id(&e.source, current);
    let c1 = (current + l1) as u64;
    let (l2, size) = spec_vuint(&e.source, c1);
    (id, size, (c1 + l2) as u64, unknown_size(l2, size))
}

/// Where the elements read by an iterator bounded by `end` stop.
pub open spec fn bound_of(end: Option<u64>) -> u64 {
    match end {
        Some(e) => e,
        None => u64::MAX,
    }
}

/// The next element from `current` (bounded by `end`) and where iteration resumes.
/// Opaque: `reveal(spec_next)` unfolds it.
/// Iteration stops (`None`) at the bound, on an ID the type table lacks, and on an
/// integer wider than eight bytes.
#[verifier::opaque]
pub open spec fn spec_next<S: EbmlSource>(e: &Ebml<S>, current: u64, end: Option<u64>) -> (
    Option<ElementView>,
    u64,
) {
    if end is Some && current >= end->0 {
        (None, current)
    } else {
        let (id, size, c2, unknown) = spec_header(e, current);
        if !e.id_map@.contains_key(id) {
            (None, c2)
        } else {
            let (p, c3) = spec_payload(&e.source, e.id_map@[id], c2, size, unknown, bound_of(end));
            match p {
                None => (None, c3),
                Some(pv) => (
                    Some(ElementView { id, offset: current, size: (c3 - current) as u64, payload: pv }),
                    c3,
                ),
            }
        }
    }
}

/// Reading the next element returns normally. Opaque: `reveal(next_ok)` unfolds it.
#[verifier::opaque]
pub open spec fn next_ok<S: EbmlSource>(e: &Ebml<S>, current: u64, end: Option<u64>) -> bool {
    if end is Some && current >= end->0 {
        true
    } else {
        let (l1, id) = spec_id(&e.source, current);
        let c1 = current + l1;
        let (l2, size) = spec_vuint(&e.source, c1 as u64);
        &&& id_ok(&e.source, current)
        &&& c1 <= u64::MAX
        &&& vuint_ok(&e.source, c1 as u64)
        &&& c1 + l2 <= u64::MAX
        &&& e.id_map@.contains_key(id) ==> payload_ok(
            &e.source,
            e.id_map@[id],
            (c1 + l2) as u64,
            size,
        )
    }
}

/// Whether decoding a payload of type `t` at `c` with `size` bytes returns normally.
fn payload_ready<S: EbmlSource>(src: &S, t: EbmlType, c: u64, size: u64) -> (b: bool)
    ensures
        b == payload_ok(src, t, c, size),
{
    if c > u64::MAX - size {
        return false;
    }
    let rv = match t {
        EbmlType::SignedInteger | EbmlType::UnsignedInteger => size <= 8,
        EbmlType::Float | EbmlType::String | EbmlType::UTF8 | EbmlType::Date => true,
        _ => false,
    };
    if (rv || t == EbmlType::Binary) && c + size < 1 {
        return false;
    }
    if rv {
        if !src.can_read(c, c + size - 1) {
            return false;
        }
        if t == EbmlType::Float || t == EbmlType::Date {
            let b = src.read_range(c, c + size - 1);
            if t == EbmlType::Float {
                return b.len() == 0 || b.len() == 4 || b.len() == 8;
            } else {
                return b.len() <= 8;
            }
        }
    }
    true
}

/// The step of the element iterator: the element starts where the iterator stood,
/// iteration resumes right after it (`offset + size`), never before where it stood,
/// and an element read from a byte that is there is at least one byte long; a
/// binary payload's last byte is the last byte of the element, and a master's
/// children end where iteration resumes and start no later, unless its header
/// already runs past the iterator's bound.
pub proof fn lemma_next_step<S: EbmlSource>(e: &Ebml<S>, current: u64, end: Option<u64>)
    requires
        next_ok(e, current, end),
    ensures
        ({
            let (v, c) = spec_next(e, current, end);
            &&& c >= current
            &&& match v {
                None => true,
                Some(el) => {
                    &&& el.offset == current
                    &&& c == current + el.size
                    &&& e.source.spec_read(current, current).len() > 0 ==> el.size >= 1
                    &&& (el.payload matches PayloadView::Binary(s, t) ==> s <= c && t + 1 == c)
                    &&& (el.payload matches PayloadView::Master(s, t) ==> t == c && (s <= t || s
                        > bound_of(end)))
                },
            }
        }),
{
    reveal(spec_next);
    reveal(next_ok);
}

impl<'a, S: EbmlSource> EbmlIterator<'a, S> {
    pub fn new_endless(offset: u64, ebml: &'a Ebml<S>) -> (r: Self)
        ensures
            r.current == offset,
            r.end is None,
            r.ebml == ebml,
    {
        Self { current: offset, end: None, ebml }
    }

    pub fn new(offset: u64, end: u64, ebml: &'a Ebml<S>) -> (r: Self)
        ensures
            r.current == offset,
            r.end == Some(end),
            r.ebml == ebml,
    {
        Self { current: offset, end: Some(end), ebml }
    }

    /// Whether `next` can be called: reading the next element returns normally.
    pub fn next_ready(&self) -> (b: bool)
        ensures
            b == next_ok(self.ebml, self.current, self.end),
    {
        broadcast use vstd::std_specs::hash::group_hash_axioms;

        proof {
            reveal(next_ok);
        }

        let cur = self.current;
        if let Some(e) = self.end {
            if cur >= e {
                return true;
            }
        }
        if !self.ebml.octets_ready(cur) {
            return false;
        }
        let (l1, idb) = self.ebml.read_variable_size_octets(cur);
        if idb.len() > 8 {
            return false;
        }
        let id = fold_be(idb.as_slice());
        if cur > u64::MAX - l1 {
            return false;
        }
        let c1 = cur + l1;
        if !self.ebml.octets_ready(c1) {
            return false;
        }
        let (n2, raw2) = self.ebml.read_variable_size_octets(c1);
        if !(raw2.len() == 0 || n2 <= 8) || raw2.len() > 8 {
            return false;
        }
        let (l2, size) = self.ebml.read_variable_size_uint(c1);
        if c1 > u64::MAX - l2 {
            return false;
        }
        let t = match self.ebml.id_map.get(&id) {
            Some(t) => *t,
            None => return true,
        };
        payload_ready(&self.ebml.source, t, c1 + l2, size)
    }

    /// The source's bytes at `start..=end`.
    pub fn read_range(&self, start: Size, end: Size) -> (r: Vec<u8>)
        requires
            self.ebml.source.read_ok(start, end),
        ensures
            r@ == self.ebml.source.spec_read(start, end),
    {
        self.ebml.source.read_range(start, end)
    }

    /// Reads the next element and moves past it.
    pub fn next(&mut self) -> (r: Option<EbmlElement<'a, S>>)
        requires
            next_ok(old(self).ebml, old(self).current, old(self).end),
        ensures
            ({
                let (v, c) = spec_next(old(self).ebml, old(self).current, old(self).end);
                &&& final(self).current == c
                &&& match r {
                    None => v is None,
                    Some(el) => v == Some(el.view()) && el.payload.children_of(old(self).ebml),
                }
            }),
            final(self).end == old(self).end,
            final(self).ebml == old(self).ebml,
    {
        broadcast use vstd::std_specs::hash::group_hash_axioms;

        proof {
            reveal(spec_next);
            reveal(next_ok);
        }

        let start = self.current;
        if let Some(end) = self.end {
            if start >= end {
                return None;
            }
        }
        let (length, id) = self.ebml.read_variable_size_id(self.current);
        self.current = self.current + length;
        let (length, size) = self.ebml.read_variable_size_uint(self.current);
        let unknown = is_unknown_size(length, size);
        self.current = self.current + length;
        let c = self.current;
        let ebml_type = match self.ebml.id_map.get(&id) {
            Some(t) => *t,
            None => return None,
        };
        let payload: EbmlPayload<'a, S> = match ebml_type {
            EbmlType::SignedInteger => {
                if size > 8 {
                    self.current = c + size;
                    return None;
                }
                let bytes = self.ebml.source.read_range(c, c + size - 1);
                self.current = c + size;
                EbmlPayload::SignedInt(Ebml::<S>::bytes_to_int(bytes))
            },
            EbmlType::UnsignedInteger => {
                if size > 8 {
                    self.current = c + size;
                    return None;
                }
                let bytes = self.ebml.source.read_range(c, c + size - 1);
                self.current = c + size;
                EbmlPayload::UnsignedInt(Ebml::<S>::bytes_to_uint(bytes))
            },
            EbmlType::Float => {
                let bytes = self.ebml.source.read_range(c, c + size - 1);
                self.current = c + size;
                EbmlPayload::Float(bytes)
            },
            EbmlType::String | EbmlType::UTF8 => {
                let bytes = self.ebml.source.read_range(c, c + size - 1);
                self.current = c + size;
                EbmlPayload::String(Ebml::<S>::bytes_to_string(bytes))
            },
            EbmlType::Date => {
                let bytes = self.ebml.source.read_range(c, c + size - 1);
                self.current = c + size;
                EbmlPayload::Date(Ebml::<S>::bytes_to_int(bytes))
            },
            EbmlType::Binary => {
                self.current = c + size;
                EbmlPayload::Binary((c, c + size - 1))
            },
            EbmlType::Void => {
                self.current = c + size;
                EbmlPayload::Void
            },
            EbmlType::Unsupported => {
                self.current = c + size;
                EbmlPayload::Invalid(None)
            },
            EbmlType::Master => {
                let stop = if unknown {
                    match self.end {
                        Some(e) => e,
                        None => u64::MAX,
                    }
                } else {
                    c + size
                };
                let elements = EbmlIterator::new(c, stop, self.ebml);
                self.current = stop;
                EbmlPayload::Master(elements)
            },
        };
        Some(EbmlElement { id, size: self.current - start, offset: start, payload })
    }
}


/// An element iterator that can look at the next element without consuming it.
pub struct PeekableEbmlIterator<'a, S: EbmlSource> {
    pub iter: EbmlIterator<'a, S>,
    /// `Some` once a peek has read ahead, holding what that read gave.
    pub peeked: Option<Option<EbmlElement<'a, S>>>,
}

/// What the next `peek` or `next` of a peekable iterator reads without a stored
/// element: everything is fine, and there is nothing to read when one is stored.
pub open spec fn peekable_ok<'a, S: EbmlSource>(p: PeekableEbmlIterator<'a, S>) -> bool {
    p.peeked is None ==> next_ok(p.iter.ebml, p.iter.current, p.iter.end)
}

/// The element the next `next` of a peekable iterator returns.
pub open spec fn pending<'a, S: EbmlSource>(p: PeekableEbmlIterator<'a, S>) -> Option<ElementView> {
    match p.peeked {
        Some(o) => match o {
            Some(e) => Some(e.view()),
            None => None,
        },
        None => spec_next(p.iter.ebml, p.iter.current, p.iter.end).0,
    }
}

impl<'a, S: EbmlSource> EbmlIterator<'a, S> {
    pub fn peekable(self) -> (r: PeekableEbmlIterator<'a, S>)
        ensures
            r.iter == self,
            r.peeked is None,
    {
        PeekableEbmlIterator::new(self)
    }
}

impl<'a, S: EbmlSource> PeekableEbmlIterator<'a, S> {
    pub fn new(iter: EbmlIterator<'a, S>) -> (r: Self)
        ensures
            r.iter == iter,
            r.peeked is None,
    {
        Self { iter, peeked: None }
    }

    /// The next element, read ahead and kept for the following `next`.
    pub fn peek(&mut self) -> (r: Option<&EbmlElement<'a, S>>)
        requires
            peekable_ok(*old(self)),
        ensures
            final(self).peeked is Some,
            pending(*final(self)) == pending(*old(self)),
            match r {
                Some(e) => pending(*final(self)) == Some(e.view()),
                None => pending(*final(self)) is None,
            },
            old(self).peeked is Some ==> *final(self) == *old(self),
            old(self).peeked is None ==> final(self).iter.current == spec_next(
                old(self).iter.ebml,
                old(self).iter.current,
                old(self).iter.end,
            ).1,
            final(self).iter.ebml == old(self).iter.ebml,
            final(self).iter.end == old(self).iter.end,
    {
        if self.peeked.is_none() {
            let n = self.iter.next();
            self.peeked = Some(n);
        }
        match &self.peeked {
            Some(Some(e)) => Some(e),
            _ => None,
        }
    }

    /// The next element: the one a peek read, or a fresh read.
    pub fn next(&mut self) -> (r: Option<EbmlElement<'a, S>>)
        requires
            peekable_ok(*old(self)),
        ensures
            final(self).peeked is None,
            match r {
                Some(e) => pending(*old(self)) == Some(e.view()),
                None => pending(*old(self)) is None,
            },
            old(self).peeked is Some ==> final(self).iter == old(self).iter && r == old(
                self,
            ).peeked->0,
            old(self).peeked is None ==> final(self).iter.current == spec_next(
                old(self).iter.ebml,
                old(self).iter.current,
                old(self).iter.end,
            ).1,
            final(self).iter.ebml == old(self).iter.ebml,
            final(self).iter.end == old(self).iter.end,
    {
        match self.peeked.take() {
            Some(p) => p,
            None => self.iter.next(),
        }
    }

    /// The underlying iterator (an element a peek read is dropped).
    pub fn into_inner(self) -> (r: EbmlIterator<'a, S>)
        ensures
            r == self.iter,
    {
        self.iter
    }
}

} // verus!
