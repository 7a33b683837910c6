use crate::memory::{ReadError, RemoteReader, bytes_view};
use vstd::arithmetic::power2::{lemma_pow2_adds, lemma_pow2_pos, pow2};
use vstd::prelude::*;

verus! {

/// The interpreter structures that the walker reads.
#[derive(Clone, Copy, Debug, PartialEq, Eq, Structural)]
pub enum StructKind {
    Interpreter,
    Thread,
    Frame,
    Code,
    Str,
    Bytes,
}

/// The fields that the walker reads, over all structure kinds.
#[derive(Clone, Copy, Debug, PartialEq, Eq, Structural)]
pub enum FieldName {
    /// Interpreter: first thread state.
    ThreadHead,
    /// Thread: next thread state.
    Next,
    /// Thread: innermost frame.
    CurrentFrame,
    /// Thread: the operating system's thread identifier.
    ThreadId,
    /// Frame: the caller's frame.
    Back,
    /// Frame: the code object.
    Code,
    /// Frame: offset of the last instruction run.
    LastInstruction,
    /// Code: file name string.
    FileName,
    /// Code: function name string.
    Name,
    /// Code: first line number.
    FirstLine,
    /// Code: line table bytes object.
    LineTable,
    /// Str: length in code points.
    Length,
    /// Str: the packed state byte.
    State,
    /// Str: pointer to the wide-character buffer of a string not yet ready.
    WideData,
    /// Str: inline data of a compact ASCII string.
    InlineAscii,
    /// Str: inline data of a compact string that is not ASCII.
    InlineCompact,
    /// Str: pointer to the data of a string that is not compact.
    DataPointer,
    /// Str: length in bytes of the cached UTF-8 form.
    Utf8Length,
    /// Str: pointer to the cached UTF-8 form, null where there is none.
    Utf8Data,
    /// Bytes: number of bytes.
    Size,
    /// Bytes: inline data.
    Data,
}

/// How the bytes of a field are turned into a value.
#[derive(Clone, Copy, Debug, PartialEq, Eq, Structural)]
pub enum DecodeRule {
    /// A little-endian unsigned integer or pointer.
    Unsigned,
    /// A little-endian two's complement integer.
    Signed,
    /// A fixed array of bytes, or storage whose address alone is used.
    CharArray,
}

/// Where one field lies in its structure and how it is decoded.
#[derive(Clone, Copy, Debug, PartialEq, Eq, Structural)]
pub struct FieldEntry {
    pub kind: StructKind,
    pub name: FieldName,
    pub offset: u64,
    pub width: usize,
    pub rule: DecodeRule,
}

/// A decoded field.
#[derive(Clone, Debug)]
pub enum Value {
    Unsigned(u64),
    Signed(i64),
    Chars(Vec<u8>),
}

/// The unsigned little-endian value of `s`.
pub open spec fn le_value(s: Seq<u8>) -> nat
    decreases s.len(),
{
    if s.len() == 0 {
        0
    } else {
        (s[0] + 256 * le_value(s.drop_first())) as nat
    }
}

/// The two's complement little-endian value of `s`.
pub open spec fn signed_value(s: Seq<u8>) -> int {
    if s.len() > 0 && le_value(s) >= pow2((8 * s.len() - 1) as nat) {
        le_value(s) - pow2(8 * s.len())
    } else {
        le_value(s) as int
    }
}

pub open spec fn entry_fits(e: FieldEntry) -> bool {
    e.rule != DecodeRule::CharArray ==> 1 <= e.width <= 8
}

/// The first entry for `(kind, name)`.
pub open spec fn lookup_spec(entries: Seq<FieldEntry>, kind: StructKind, name: FieldName) -> Option<
    FieldEntry,
>
    decreases entries.len(),
{
    if entries.len() == 0 {
        None
    } else if entries[0].kind == kind && entries[0].name == name {
        Some(entries[0])
    } else {
        lookup_spec(entries.drop_first(), kind, name)
    }
}

/// The address of field `e` of the structure at `base`.
pub open spec fn field_addr_spec(base: u64, e: FieldEntry) -> Result<u64, ReadError> {
    if base + e.offset > u64::MAX {
        Err(ReadError::Unmapped)
    } else {
        Ok((base + e.offset) as u64)
    }
}

/// The entry and the bytes of a field read once: the layout must have the
/// field, the read must succeed, and it must give the whole width.
pub open spec fn field_bytes_spec<R: RemoteReader>(
    r: &R,
    entries: Seq<FieldEntry>,
    base: u64,
    kind: StructKind,
    name: FieldName,
) -> Result<(FieldEntry, Seq<u8>), ReadError> {
    match lookup_spec(entries, kind, name) {
        None => Err(ReadError::UnsupportedField),
        Some(e) => match field_addr_spec(base, e) {
            Err(x) => Err(x),
            Ok(a) => match r.read_spec(a, e.width) {
                Err(x) => Err(x),
                Ok(b) => if b.len() < e.width {
                    Err(ReadError::OutOfRange)
                } else {
                    Ok((e, b))
                },
            },
        },
    }
}

/// The integer a field holds, where its rule makes it one.
pub open spec fn int_of(rule: DecodeRule, b: Seq<u8>) -> Option<int> {
    match rule {
        DecodeRule::Unsigned => Some(le_value(b) as int),
        DecodeRule::Signed => Some(signed_value(b)),
        DecodeRule::CharArray => None,
    }
}

/// A field read as an integer in `[lo, hi]`.
pub open spec fn field_int_spec<R: RemoteReader>(
    r: &R,
    entries: Seq<FieldEntry>,
    base: u64,
    kind: StructKind,
    name: FieldName,
    lo: int,
    hi: int,
) -> Result<int, ReadError> {
    match field_bytes_spec(r, entries, base, kind, name) {
        Err(x) => Err(x),
        Ok((e, b)) => match int_of(e.rule, b) {
            Some(v) => if lo <= v <= hi {
                Ok(v)
            } else {
                Err(ReadError::OutOfRange)
            },
            None => Err(ReadError::OutOfRange),
        },
    }
}

/// A field read as an address.
pub open spec fn address_spec<R: RemoteReader>(
    r: &R,
    entries: Seq<FieldEntry>,
    base: u64,
    kind: StructKind,
    name: FieldName,
) -> Result<u64, ReadError> {
    match field_int_spec(r, entries, base, kind, name, 0, u64::MAX as int) {
        Err(x) => Err(x),
        Ok(v) => Ok(v as u64),
    }
}

/// A field read as a signed 64-bit integer.
pub open spec fn signed_spec<R: RemoteReader>(
    r: &R,
    entries: Seq<FieldEntry>,
    base: u64,
    kind: StructKind,
    name: FieldName,
) -> Result<i64, ReadError> {
    match field_int_spec(r, entries, base, kind, name, i64::MIN as int, i64::MAX as int) {
        Err(x) => Err(x),
        Ok(v) => Ok(v as i64),
    }
}

/// A field read as a C `int`.
pub open spec fn c_int_spec<R: RemoteReader>(
    r: &R,
    entries: Seq<FieldEntry>,
    base: u64,
    kind: StructKind,
    name: FieldName,
) -> Result<i32, ReadError> {
    match field_int_spec(r, entries, base, kind, name, i32::MIN as int, i32::MAX as int) {
        Err(x) => Err(x),
        Ok(v) => Ok(v as i32),
    }
}

/// The address of a field, with no read.
pub open spec fn storage_addr_spec(
    entries: Seq<FieldEntry>,
    base: u64,
    kind: StructKind,
    name: FieldName,
) -> Result<u64, ReadError> {
    match lookup_spec(entries, kind, name) {
        None => Err(ReadError::UnsupportedField),
        Some(e) => field_addr_spec(base, e),
    }
}

/// What a decoded value says about the bytes it came from.
pub open spec fn value_matches(v: Value, rule: DecodeRule, b: Seq<u8>) -> bool {
    match v {
        Value::Unsigned(x) => rule == DecodeRule::Unsigned && x == le_value(b),
        Value::Signed(x) => rule == DecodeRule::Signed && x == signed_value(b),
        Value::Chars(c) => rule == DecodeRule::CharArray && c@ == b,
    }
}

pub proof fn lemma_le_bound(s: Seq<u8>)
    ensures
        le_value(s) < pow2(8 * s.len()),
    decreases s.len(),
{
    vstd::arithmetic::power2::lemma2_to64();
    if s.len() > 0 {
        let t = s.drop_first();
        lemma_le_bound(t);
        lemma_pow2_adds(8, 8 * t.len());
        assert(8 * s.len() == 8 + 8 * t.len());
        assert(le_value(s) == s[0] + 256 * le_value(t));
        assert(le_value(t) + 1 <= pow2(8 * t.len()));
        assert(256 * le_value(t) + 256 <= 256 * pow2(8 * t.len())) by (nonlinear_arith)
            requires
                le_value(t) + 1 <= pow2(8 * t.len()),
        ;
    }
}

/// The unsigned little-endian value of at most eight bytes.
pub fn decode_unsigned(b: &Vec<u8>) -> (r: u64)
    requires
        b@.len() <= 8,
    ensures
        r == le_value(b@),
{
    let n = b.len();
    let mut v: u64 = 0;
    let mut i: usize = n;
    proof {
        assert(b@.subrange(n as int, n as int) =~= Seq::<u8>::empty());
    }
    while i > 0
        invariant
            i <= n == b@.len() <= 8,
            v == le_value(b@.subrange(i as int, n as int)),
        decreases i,
    {
        let s_next = Ghost(b@.subrange(i - 1, n as int));
        proof {
            assert(s_next@.drop_first() =~= b@.subrange(i as int, n as int));
            lemma_le_bound(b@.subrange(i as int, n as int));
            vstd::arithmetic::power2::lemma2_to64();
            if n - i < 7 {
                vstd::arithmetic::power2::lemma_pow2_strictly_increases(
                    (8 * (n - i)) as nat,
                    56,
                );
            }
            lemma_pow2_adds(32, 24);
            assert(v < 0x100000000000000);
        }
        v = v * 256 + b[i - 1] as u64;
        i = i - 1;
    }
    proof {
        assert(b@.subrange(0, n as int) =~= b@);
    }
    v
}

/// The two's complement little-endian value of one to eight bytes.
pub fn decode_signed(b: &Vec<u8>) -> (r: i64)
    requires
        1 <= b@.len() <= 8,
    ensures
        r == signed_value(b@),
{
    let n = b.len();
    let u = decode_unsigned(b);
    proof {
        lemma_le_bound(b@);
        vstd::arithmetic::power2::lemma2_to64();
        lemma_pow2_adds(1, (8 * n - 1) as nat);
        lemma_pow2_pos((8 * n - 1) as nat);
        if n < 8 {
            vstd::arithmetic::power2::lemma_pow2_strictly_increases(8 * n as nat, 64);
        }
    }
    let bits: u64 = 8 * n as u64;
    let half: u64 = if n == 8 {
        0x8000000000000000u64
    } else {
        proof {
            vstd::bits::lemma_u64_shl_is_mul(1u64, (bits - 1) as u64);
        }
        1u64 << (bits - 1)
    };
    if u < half {
        u as i64
    } else {
        let mask: u64 = if n == 8 {
            0xffffffffffffffffu64
        } else {
            proof {
                vstd::bits::lemma_u64_shl_is_mul(1u64, bits);
            }
            (1u64 << bits) - 1
        };
        let below = mask - u;
        assert(below < 0x8000000000000000u64);
        -(below as i64) - 1
    }
}

/// A table of field locations for one interpreter build.
pub struct LayoutDescriptor {
    entries: Vec<FieldEntry>,
}

impl LayoutDescriptor {
    pub closed spec fn view(&self) -> Seq<FieldEntry> {
        self.entries@
    }

    pub open spec fn wf(&self) -> bool {
        forall|i: int| 0 <= i < self@.len() ==> entry_fits(#[trigger] self@[i])
    }

    /// A descriptor with the given entries, or the first entry whose width
    /// its rule cannot decode (an integer wider than eight bytes, or empty).
    pub fn from_entries(entries: Vec<FieldEntry>) -> (r: Result<LayoutDescriptor, FieldEntry>)
        ensures
            (forall|i: int| 0 <= i < entries@.len() ==> entry_fits(#[trigger] entries@[i]))
                <==> r is Ok,
            r is Ok ==> r->Ok_0@ == entries@ && r->Ok_0.wf(),
            r is Err ==> entries@.contains(r->Err_0) && !entry_fits(r->Err_0),
    {
        let mut i: usize = 0;
        while i < entries.len()
            invariant
                i <= entries@.len(),
                forall|j: int| 0 <= j < i ==> entry_fits(#[trigger] entries@[j]),
            decreases entries@.len() - i,
        {
            let e = entries[i];
            if e.rule != DecodeRule::CharArray && (e.width < 1 || e.width > 8) {
                return Err(e);
            }
            i = i + 1;
        }
        Ok(LayoutDescriptor { entries })
    }

    /// The first entry for `(kind, name)`, if any.
    pub fn lookup(&self, kind: StructKind, name: FieldName) -> (r: Option<FieldEntry>)
        ensures
            r == lookup_spec(self@, kind, name),
    {
        let mut i: usize = 0;
        proof {
            assert(self@.subrange(0, self@.len() as int) =~= self@);
        }
        while i < self.entries.len()
            invariant
                i <= self@.len(),
                lookup_spec(self@, kind, name) == lookup_spec(self@.subrange(i as int, self@.len() as int), kind, name),
            decreases self@.len() - i,
        {
            proof {
                assert(self@.subrange(i as int, self@.len() as int).drop_first() =~= self@.subrange(i + 1, self@.len() as int));
            }
            let e = self.entries[i];
            if e.kind == kind && e.name == name {
                return Some(e);
            }
            i = i + 1;
        }
        None
    }

    /// Whether the descriptor has an entry for `(kind, name)`.
    pub fn has_field(&self, kind: StructKind, name: FieldName) -> (r: bool)
        ensures
            r == lookup_spec(self@, kind, name) is Some,
    {
        self.lookup(kind, name).is_some()
    }
}

pub proof fn lemma_lookup_in(entries: Seq<FieldEntry>, kind: StructKind, name: FieldName)
    ensures
        lookup_spec(entries, kind, name) is Some ==> entries.contains(
            lookup_spec(entries, kind, name)->Some_0,
        ),
    decreases entries.len(),
{
    if entries.len() > 0 {
        lemma_lookup_in(entries.drop_first(), kind, name);
        if !(entries[0].kind == kind && entries[0].name == name) && lookup_spec(entries, kind, name) is Some {
            let e = lookup_spec(entries, kind, name)->Some_0;
            let k = choose|k: int| 0 <= k < entries.drop_first().len() && entries.drop_first()[k] == e;
            assert(entries[k + 1] == e);
        } else if lookup_spec(entries, kind, name) is Some {
            assert(entries[0] == lookup_spec(entries, kind, name)->Some_0);
        }
    }
}

/// The address of field `(kind, name)` of the structure at `base`, with no
/// read.
pub fn storage_address(l: &LayoutDescriptor, base: u64, kind: StructKind, name: FieldName) -> (r:
    Result<u64, ReadError>)
    ensures
        r == storage_addr_spec(l@, base, kind, name),
{
    match l.lookup(kind, name) {
        None => Err(ReadError::UnsupportedField),
        Some(e) => {
            if e.offset > u64::MAX - base {
                Err(ReadError::Unmapped)
            } else {
                Ok(base + e.offset)
            }
        },
    }
}

fn field_bytes<R: RemoteReader>(
    r: &R,
    l: &LayoutDescriptor,
    base: u64,
    kind: StructKind,
    name: FieldName,
) -> (res: Result<(FieldEntry, Vec<u8>), ReadError>)
    requires
        l.wf(),
    ensures
        match res {
            Ok((e, b)) => field_bytes_spec(r, l@, base, kind, name) == Ok::<(FieldEntry, Seq<u8>), ReadError>((e, b@)),
            Err(x) => field_bytes_spec(r, l@, base, kind, name) == Err::<(FieldEntry, Seq<u8>), ReadError>(x),
        },
        res is Ok ==> entry_fits(res->Ok_0.0) && res->Ok_0.1@.len() == res->Ok_0.0.width,
{
    let e = match l.lookup(kind, name) {
        None => return Err(ReadError::UnsupportedField),
        Some(e) => e,
    };
    proof {
        lemma_lookup_in(l@, kind, name);
    }
    if e.offset > u64::MAX - base {
        return Err(ReadError::Unmapped);
    }
    let b = match r.read(base + e.offset, e.width) {
        Err(x) => return Err(x),
        Ok(b) => b,
    };
    if b.len() < e.width {
        return Err(ReadError::OutOfRange);
    }
    Ok((e, b))
}

/// Reads field `(kind, name)` of the structure at `base` with one remote read
/// of exactly its byte range, and decodes it by its rule.
pub fn read_field<R: RemoteReader>(
    r: &R,
    l: &LayoutDescriptor,
    base: u64,
    kind: StructKind,
    name: FieldName,
) -> (res: Result<Value, ReadError>)
    requires
        l.wf(),
    ensures
        match (res, field_bytes_spec(r, l@, base, kind, name)) {
            (Ok(v), Ok((e, b))) => value_matches(v, e.rule, b),
            (Err(x), Err(y)) => x == y,
            _ => false,
        },
{
    let (e, b) = field_bytes(r, l, base, kind, name)?;
    match e.rule {
        DecodeRule::Unsigned => Ok(Value::Unsigned(decode_unsigned(&b))),
        DecodeRule::Signed => Ok(Value::Signed(decode_signed(&b))),
        DecodeRule::CharArray => Ok(Value::Chars(b)),
    }
}

/// Reads an integer field whose value must lie in `[lo, hi]`.
fn read_int_in<R: RemoteReader>(
    r: &R,
    l: &LayoutDescriptor,
    base: u64,
    kind: StructKind,
    name: FieldName,
    lo: i128,
    hi: i128,
) -> (res: Result<i128, ReadError>)
    requires
        l.wf(),
    ensures
        match res {
            Ok(v) => field_int_spec(r, l@, base, kind, name, lo as int, hi as int) == Ok::<int, ReadError>(v as int),
            Err(x) => field_int_spec(r, l@, base, kind, name, lo as int, hi as int) == Err::<int, ReadError>(x),
        },
{
    let (e, b) = field_bytes(r, l, base, kind, name)?;
    let v: i128 = match e.rule {
        DecodeRule::Unsigned => decode_unsigned(&b) as i128,
        DecodeRule::Signed => decode_signed(&b) as i128,
        DecodeRule::CharArray => return Err(ReadError::OutOfRange),
    };
    if lo <= v && v <= hi {
        Ok(v)
    } else {
        Err(ReadError::OutOfRange)
    }
}

/// Reads a pointer or unsigned field as an address.
pub fn read_address<R: RemoteReader>(
    r: &R,
    l: &LayoutDescriptor,
    base: u64,
    kind: StructKind,
    name: FieldName,
) -> (res: Result<u64, ReadError>)
    requires
        l.wf(),
    ensures
        res == address_spec(r, l@, base, kind, name),
{
    let v = read_int_in(r, l, base, kind, name, 0, 0xffff_ffff_ffff_ffff)?;
    Ok(v as u64)
}

/// Reads an integer field as a signed 64-bit value.
pub fn read_signed<R: RemoteReader>(
    r: &R,
    l: &LayoutDescriptor,
    base: u64,
    kind: StructKind,
    name: FieldName,
) -> (res: Result<i64, ReadError>)
    requires
        l.wf(),
    ensures
        res == signed_spec(r, l@, base, kind, name),
{
    let v = read_int_in(r, l, base, kind, name, -0x8000_0000_0000_0000, 0x7fff_ffff_ffff_ffff)?;
    Ok(v as i64)
}

/// Reads an integer field as a C `int`.
pub fn read_c_int<R: RemoteReader>(
    r: &R,
    l: &LayoutDescriptor,
    base: u64,
    kind: StructKind,
    name: FieldName,
) -> (res: Result<i32, ReadError>)
    requires
        l.wf(),
    ensures
        res == c_int_spec(r, l@, base, kind, name),
{
    let v = read_int_in(r, l, base, kind, name, -0x8000_0000, 0x7fff_ffff)?;
    Ok(v as i32)
}

/// An opaque declaration of the interpreter's member descriptor; the walker
/// never reads one.
#[derive(Clone, Copy, Debug)]
pub struct PyMemberDef {
    _unused: [u8; 0],
}

/// The field entries of CPython 3.3 on a 64-bit target: thread states,
/// frames, code objects, string headers and bytes objects.
pub open spec fn python_3_3_entries() -> Seq<FieldEntry> {
    seq![
        FieldEntry {
            kind: StructKind::Interpreter,
            name: FieldName::ThreadHead,
            offset: 8,
            width: 8,
            rule: DecodeRule::Unsigned,
        },
        FieldEntry {
            kind: StructKind::Thread,
            name: FieldName::Next,
            offset: 0,
            width: 8,
            rule: DecodeRule::Unsigned,
        },
        FieldEntry {
            kind: StructKind::Thread,
            name: FieldName::CurrentFrame,
            offset: 16,
            width: 8,
            rule: DecodeRule::Unsigned,
        },
        FieldEntry {
            kind: StructKind::Thread,
            name: FieldName::ThreadId,
            offset: 144,
            width: 8,
            rule: DecodeRule::Unsigned,
        },
        FieldEntry {
            kind: StructKind::Frame,
            name: FieldName::Back,
            offset: 24,
            width: 8,
            rule: DecodeRule::Unsigned,
        },
        FieldEntry {
            kind: StructKind::Frame,
            name: FieldName::Code,
            offset: 32,
            width: 8,
            rule: DecodeRule::Unsigned,
        },
        FieldEntry {
            kind: StructKind::Frame,
            name: FieldName::LastInstruction,
            offset: 120,
            width: 4,
            rule: DecodeRule::Signed,
        },
        FieldEntry {
            kind: StructKind::Code,
            name: FieldName::FileName,
            offset: 96,
            width: 8,
            rule: DecodeRule::Unsigned,
        },
        FieldEntry {
            kind: StructKind::Code,
            name: FieldName::Name,
            offset: 104,
            width: 8,
            rule: DecodeRule::Unsigned,
        },
        FieldEntry {
            kind: StructKind::Code,
            name: FieldName::FirstLine,
            offset: 112,
            width: 4,
            rule: DecodeRule::Signed,
        },
        FieldEntry {
            kind: StructKind::Code,
            name: FieldName::LineTable,
            offset: 120,
            width: 8,
            rule: DecodeRule::Unsigned,
        },
        FieldEntry {
            kind: StructKind::Str,
            name: FieldName::Length,
            offset: 16,
            width: 8,
            rule: DecodeRule::Signed,
        },
        FieldEntry {
            kind: StructKind::Str,
            name: FieldName::State,
            offset: 32,
            width: 4,
            rule: DecodeRule::Unsigned,
        },
        FieldEntry {
            kind: StructKind::Str,
            name: FieldName::WideData,
            offset: 40,
            width: 8,
            rule: DecodeRule::Unsigned,
        },
        FieldEntry {
            kind: StructKind::Str,
            name: FieldName::InlineAscii,
            offset: 48,
            width: 0,
            rule: DecodeRule::CharArray,
        },
        FieldEntry {
            kind: StructKind::Str,
            name: FieldName::InlineCompact,
            offset: 72,
            width: 0,
            rule: DecodeRule::CharArray,
        },
        FieldEntry {
            kind: StructKind::Str,
            name: FieldName::DataPointer,
            offset: 72,
            width: 8,
            rule: DecodeRule::Unsigned,
        },
        FieldEntry {
            kind: StructKind::Str,
            name: FieldName::Utf8Length,
            offset: 48,
            width: 8,
            rule: DecodeRule::Signed,
        },
        FieldEntry {
            kind: StructKind::Str,
            name: FieldName::Utf8Data,
            offset: 56,
            width: 8,
            rule: DecodeRule::Unsigned,
        },
        FieldEntry {
            kind: StructKind::Bytes,
            name: FieldName::Size,
            offset: 16,
            width: 8,
            rule: DecodeRule::Signed,
        },
        FieldEntry {
            kind: StructKind::Bytes,
            name: FieldName::Data,
            offset: 32,
            width: 0,
            rule: DecodeRule::CharArray,
        },
    ]
}

/// The layout of CPython 3.3 on a 64-bit target.
pub fn python_3_3_layout() -> (r: LayoutDescriptor)
    ensures
        r@ == python_3_3_entries(),
        r.wf(),
{
    let entries = vec![
        FieldEntry {
            kind: StructKind::Interpreter,
            name: FieldName::ThreadHead,
            offset: 8,
            width: 8,
            rule: DecodeRule::Unsigned,
        },
        FieldEntry {
            kind: StructKind::Thread,
            name: FieldName::Next,
            offset: 0,
            width: 8,
            rule: DecodeRule::Unsigned,
        },
        FieldEntry {
            kind: StructKind::Thread,
            name: FieldName::CurrentFrame,
            offset: 16,
            width: 8,
            rule: DecodeRule::Unsigned,
        },
        FieldEntry {
            kind: StructKind::Thread,
            name: FieldName::ThreadId,
            offset: 144,
            width: 8,
            rule: DecodeRule::Unsigned,
        },
        FieldEntry {
            kind: StructKind::Frame,
            name: FieldName::Back,
            offset: 24,
            width: 8,
            rule: DecodeRule::Unsigned,
        },
        FieldEntry {
            kind: StructKind::Frame,
            name: FieldName::Code,
            offset: 32,
            width: 8,
            rule: DecodeRule::Unsigned,
        },
        FieldEntry {
            kind: StructKind::Frame,
            name: FieldName::LastInstruction,
            offset: 120,
            width: 4,
            rule: DecodeRule::Signed,
        },
        FieldEntry {
            kind: StructKind::Code,
            name: FieldName::FileName,
            offset: 96,
            width: 8,
            rule: DecodeRule::Unsigned,
        },
        FieldEntry {
            kind: StructKind::Code,
            name: FieldName::Name,
            offset: 104,
            width: 8,
            rule: DecodeRule::Unsigned,
        },
        FieldEntry {
            kind: StructKind::Code,
            name: FieldName::FirstLine,
            offset: 112,
            width: 4,
            rule: DecodeRule::Signed,
        },
        FieldEntry {
            kind: StructKind::Code,
            name: FieldName::LineTable,
            offset: 120,
            width: 8,
            rule: DecodeRule::Unsigned,
        },
        FieldEntry {
            kind: StructKind::Str,
            name: FieldName::Length,
            offset: 16,
            width: 8,
            rule: DecodeRule::Signed,
        },
        FieldEntry {
            kind: StructKind::Str,
            name: FieldName::State,
            offset: 32,
            width: 4,
            rule: DecodeRule::Unsigned,
        },
        FieldEntry {
            kind: StructKind::Str,
            name: FieldName::WideData,
            offset: 40,
            width: 8,
            rule: DecodeRule::Unsigned,
        },
        FieldEntry {
            kind: StructKind::Str,
            name: FieldName::InlineAscii,
            offset: 48,
            width: 0,
            rule: DecodeRule::CharArray,
        },
        FieldEntry {
            kind: StructKind::Str,
            name: FieldName::InlineCompact,
            offset: 72,
            width: 0,
            rule: DecodeRule::CharArray,
        },
        FieldEntry {
            kind: StructKind::Str,
            name: FieldName::DataPointer,
            offset: 72,
            width: 8,
            rule: DecodeRule::Unsigned,
        },
        FieldEntry {
            kind: StructKind::Str,
            name: FieldName::Utf8Length,
            offset: 48,
            width: 8,
            rule: DecodeRule::Signed,
        },
        FieldEntry {
            kind: StructKind::Str,
            name: FieldName::Utf8Data,
            offset: 56,
            width: 8,
            rule: DecodeRule::Unsigned,
        },
        FieldEntry {
            kind: StructKind::Bytes,
            name: FieldName::Size,
            offset: 16,
            width: 8,
            rule: DecodeRule::Signed,
        },
        FieldEntry {
            kind: StructKind::Bytes,
            name: FieldName::Data,
            offset: 32,
            width: 0,
            rule: DecodeRule::CharArray,
        },
    ];
    assert(entries@ =~= python_3_3_entries());
    LayoutDescriptor { entries }
}

/// Where the CPython 3.3 table puts the storage that follows a header: the
/// inline data of a compact ASCII string, of another compact string, and of
/// a bytes object.
pub proof fn lemma_python_3_3_storage(addr: u64)
    requires
        addr + 72 <= u64::MAX,
    ensures
        storage_addr_spec(python_3_3_entries(), addr, StructKind::Str, FieldName::InlineAscii)
            == Ok::<u64, ReadError>((addr + 48) as u64),
        storage_addr_spec(python_3_3_entries(), addr, StructKind::Str, FieldName::InlineCompact)
            == Ok::<u64, ReadError>((addr + 72) as u64),
        storage_addr_spec(python_3_3_entries(), addr, StructKind::Bytes, FieldName::Data) == Ok::<
            u64,
            ReadError,
        >((addr + 32) as u64),
{
    reveal_with_fuel(lookup_spec, 25);
}

} // verus!
