use crate::ascii_state::PyASCIIObject__bindgen_ty_1;
use crate::bitfield::bits_value;
use crate::layout::{
    FieldEntry,
    FieldName,
    LayoutDescriptor,
    StructKind,
    address_spec,
    decode_unsigned,
    le_value,
    lemma_le_bound,
    read_address,
    read_signed,
    signed_spec,
    storage_addr_spec,
    storage_address,
};
use crate::memory::{ReadError, RemoteReader};
use crate::utf8::{decode_utf8, utf8_spec};
use vstd::arithmetic::div_mod::{lemma_div_denominator, lemma_mod_breakdown};
use vstd::arithmetic::power2::{lemma_pow2_adds, lemma_pow2_pos, pow2};
use vstd::prelude::*;

verus! {

/// The code points of `b` read as little-endian units of `w` bytes.
pub open spec fn units_of(b: Seq<u8>, w: nat) -> Seq<u32>
    recommends
        w > 0,
{
    Seq::new(b.len() / w, |i: int| le_value(b.subrange(i * w, i * w + w)) as u32)
}

/// Byte `k` of `v`, least significant first.
pub open spec fn byte_of(v: nat, k: nat) -> u8 {
    ((v / pow2(8 * k)) % 256) as u8
}

/// The text `t` laid out as little-endian units of `w` bytes.
pub open spec fn encode_spec(t: Seq<u32>, w: nat) -> Seq<u8>
    recommends
        w > 0,
{
    Seq::new(t.len() * w, |j: int| byte_of(t[j / w as int] as nat, (j % w as int) as nat))
}

/// Whether every code point of `t` fits in `w` bytes.
pub open spec fn fits_width(t: Seq<u32>, w: nat) -> bool {
    forall|i: int| 0 <= i < t.len() ==> (#[trigger] t[i] as nat) < pow2(8 * w)
}

/// The width in bytes of one unit of a string of the given kind: one, two or
/// four for the compact forms, and four for the wide characters of a string
/// that is not ready yet (kind zero).
pub open spec fn kind_width(kind: nat) -> Option<nat> {
    if kind == 1 {
        Some(1)
    } else if kind == 2 {
        Some(2)
    } else if kind == 4 || kind == 0 {
        Some(4)
    } else {
        None
    }
}

/// The state byte of a string header: the low byte of the state field.
pub open spec fn state_byte_spec<R: RemoteReader>(r: &R, l: Seq<FieldEntry>, addr: u64) -> Result<u8, ReadError> {
    match address_spec(r, l, addr, StructKind::Str, FieldName::State) {
        Err(x) => Err(x),
        Ok(s) => Ok((s % 256) as u8),
    }
}

/// Where the units of a string with state byte `b` begin.
pub open spec fn data_addr_spec<R: RemoteReader>(r: &R, l: Seq<FieldEntry>, addr: u64, b: u8) -> Result<u64, ReadError> {
    let s = seq![b];
    if bits_value(s, 2, 3) == 0 {
        address_spec(r, l, addr, StructKind::Str, FieldName::WideData)
    } else if bits_value(s, 5, 1) == 1 && bits_value(s, 6, 1) == 1 {
        storage_addr_spec(l, addr, StructKind::Str, FieldName::InlineAscii)
    } else if bits_value(s, 5, 1) == 1 {
        storage_addr_spec(l, addr, StructKind::Str, FieldName::InlineCompact)
    } else {
        address_spec(r, l, addr, StructKind::Str, FieldName::DataPointer)
    }
}

/// The text of a string object at `addr` with state byte `b` and `n` code
/// points, from its units: the state picks the form and the unit width, and
/// the units are read in one remote read of exactly `n` times that width.
pub open spec fn units_text_spec<R: RemoteReader>(r: &R, l: Seq<FieldEntry>, addr: u64, b: u8, n: int) -> Result<Seq<u32>, ReadError> {
    match kind_width(bits_value(seq![b], 2, 3)) {
        None => Err(ReadError::OutOfRange),
        Some(w) => if n * w > usize::MAX {
            Err(ReadError::OutOfRange)
        } else {
            match data_addr_spec(r, l, addr, b) {
                Err(x) => Err(x),
                Ok(d) => match r.read_spec(d, (n * w) as usize) {
                    Err(x) => Err(x),
                    Ok(bytes) => if bytes.len() != n * w {
                        Err(ReadError::OutOfRange)
                    } else {
                        Ok(units_of(bytes, w))
                    },
                },
            }
        },
    }
}

/// The text of a string object at `addr` from its cached UTF-8 form at `p`,
/// read in one remote read of exactly the cached length.
pub open spec fn cached_text_spec<R: RemoteReader>(r: &R, l: Seq<FieldEntry>, addr: u64, p: u64) -> Result<Seq<u32>, ReadError> {
    match signed_spec(r, l, addr, StructKind::Str, FieldName::Utf8Length) {
        Err(x) => Err(x),
        Ok(m) => if m < 0 || m > usize::MAX {
            Err(ReadError::OutOfRange)
        } else {
            match r.read_spec(p, m as usize) {
                Err(x) => Err(x),
                Ok(bytes) => if bytes.len() != m {
                    Err(ReadError::OutOfRange)
                } else {
                    match utf8_spec(bytes) {
                        None => Err(ReadError::OutOfRange),
                        Some(t) => Ok(t),
                    }
                },
            }
        },
    }
}

/// The text of the string object at `addr`. Its length field comes first: a
/// negative length is corrupt, and a length of zero is the empty text with
/// no further read. A string that is not ready yet (kind zero) is read from
/// its cached UTF-8 form where the pointer to it reads as non-null, and from
/// its wide characters otherwise (also where that pointer cannot be read);
/// any other string from its units.
pub open spec fn string_spec<R: RemoteReader>(r: &R, l: Seq<FieldEntry>, addr: u64) -> Result<Seq<u32>, ReadError> {
    match state_byte_spec(r, l, addr) {
        Err(x) => Err(x),
        Ok(b) => match signed_spec(r, l, addr, StructKind::Str, FieldName::Length) {
            Err(x) => Err(x),
            Ok(n) => if n < 0 {
                Err(ReadError::OutOfRange)
            } else if n == 0 {
                Ok(Seq::empty())
            } else if bits_value(seq![b], 2, 3) == 0 {
                match address_spec(r, l, addr, StructKind::Str, FieldName::Utf8Data) {
                    Ok(p) => if p != 0 {
                        cached_text_spec(r, l, addr, p)
                    } else {
                        units_text_spec(r, l, addr, b, n as int)
                    },
                    Err(_) => units_text_spec(r, l, addr, b, n as int),
                }
            } else {
                units_text_spec(r, l, addr, b, n as int)
            },
        },
    }
}

proof fn lemma_le_digits(s: Seq<u8>, v: nat)
    requires
        forall|k: int| 0 <= k < s.len() ==> #[trigger] s[k] == byte_of(v, k as nat),
    ensures
        le_value(s) == v % pow2(8 * s.len()),
    decreases s.len(),
{
    vstd::arithmetic::power2::lemma2_to64();
    if s.len() == 0 {
        assert(v % 1 == 0);
    } else {
        let t = s.drop_first();
        let v2 = v / 256;
        assert forall|k: int| 0 <= k < t.len() implies #[trigger] t[k] == byte_of(v2, k as nat) by {
            assert(s[k + 1] == byte_of(v, (k + 1) as nat));
            lemma_pow2_adds(8, 8 * k as nat);
            assert(8 * (k + 1) == 8 + 8 * k);
            lemma_pow2_pos(8 * k as nat);
            lemma_div_denominator(v as int, 256, pow2(8 * k as nat) as int);
        }
        lemma_le_digits(t, v2);
        assert(s[0] == byte_of(v, 0));
        assert(v / 1 == v);
        assert(s[0] as nat == v % 256);
        assert(le_value(s) == v % 256 + 256 * le_value(t));
        lemma_pow2_pos(8 * t.len());
        lemma_mod_breakdown(v as int, 256, pow2(8 * t.len()) as int);
        lemma_pow2_adds(8, 8 * t.len());
        assert(8 * s.len() == 8 + 8 * t.len());
    }
}

/// Decoding the units of an encoded text gives the text back, for every
/// unit width and every text whose code points fit that width.
pub proof fn lemma_units_round_trip(t: Seq<u32>, w: nat)
    requires
        w == 1 || w == 2 || w == 4,
        fits_width(t, w),
    ensures
        units_of(encode_spec(t, w), w) == t,
{
    let e = encode_spec(t, w);
    assert(e.len() as int / (w as int) == t.len()) by (nonlinear_arith)
        requires
            e.len() == t.len() * w,
            w > 0,
    ;
    assert forall|i: int| 0 <= i < t.len() implies #[trigger] units_of(e, w)[i] == t[i] by {
        let s = e.subrange(i * w, i * w + w);
        assert(0 <= i * w && i * w + w <= t.len() * w) by (nonlinear_arith)
            requires
                0 <= i < t.len(),
                w > 0,
        ;
        assert forall|k: int| 0 <= k < s.len() implies #[trigger] s[k] == byte_of(t[i] as nat, k as nat) by {
            let j = i * w + k;
            assert(j / (w as int) == i && j % (w as int) == k) by (nonlinear_arith)
                requires
                    j == i * w + k,
                    0 <= k < w,
            ;
        }
        lemma_le_digits(s, t[i] as nat);
        assert((t[i] as nat) < pow2(8 * w));
        vstd::arithmetic::div_mod::lemma_small_mod(t[i] as nat, pow2(8 * w));
        assert(le_value(s) == t[i] as nat);
        assert(units_of(e, w)[i] == le_value(s) as u32);
    }
    assert(units_of(e, w) =~= t);
}

/// A string object round trip: where the header of the string at `addr`
/// names a ready form of width `w` (one, two or four bytes), its length field
/// holds the number of code points of `t`, and its units, wherever the form
/// puts them, hold `t` encoded at that width, the string decodes to `t`, for
/// every `t` whose code points fit the width.
pub proof fn lemma_string_round_trip<R: RemoteReader>(
    r: &R,
    l: Seq<FieldEntry>,
    addr: u64,
    b: u8,
    d: u64,
    t: Seq<u32>,
)
    requires
        state_byte_spec(r, l, addr) == Ok::<u8, ReadError>(b),
        bits_value(seq![b], 2, 3) == 1 || bits_value(seq![b], 2, 3) == 2 || bits_value(seq![b], 2, 3) == 4,
        fits_width(t, kind_width(bits_value(seq![b], 2, 3))->Some_0),
        t.len() <= i64::MAX,
        t.len() * kind_width(bits_value(seq![b], 2, 3))->Some_0 <= usize::MAX,
        signed_spec(r, l, addr, StructKind::Str, FieldName::Length) == Ok::<i64, ReadError>(t.len() as i64),
        data_addr_spec(r, l, addr, b) == Ok::<u64, ReadError>(d),
        r.read_spec(d, (t.len() * kind_width(bits_value(seq![b], 2, 3))->Some_0) as usize) == Ok::<
            Seq<u8>,
            ReadError,
        >(encode_spec(t, kind_width(bits_value(seq![b], 2, 3))->Some_0)),
    ensures
        string_spec(r, l, addr) == Ok::<Seq<u32>, ReadError>(t),
{
    let w = kind_width(bits_value(seq![b], 2, 3))->Some_0;
    if t.len() == 0 {
        assert(t =~= Seq::<u32>::empty());
    } else {
        lemma_units_round_trip(t, w);
    }
}

/// A string decoded from its units has exactly as many code points as its
/// length field gives.
pub proof fn lemma_units_text_length<R: RemoteReader>(
    r: &R,
    l: Seq<FieldEntry>,
    addr: u64,
    b: u8,
    n: int,
)
    requires
        n > 0,
        units_text_spec(r, l, addr, b, n) is Ok,
    ensures
        units_text_spec(r, l, addr, b, n)->Ok_0.len() == n,
{
    let w = kind_width(bits_value(seq![b], 2, 3))->Some_0;
    assert((n * w) / (w as int) == n) by (nonlinear_arith)
        requires
            w > 0,
    ;
}

/// The unit at `start` of `b`, `w` bytes long.
fn unit_at(b: &Vec<u8>, start: usize, w: usize) -> (r: u32)
    requires
        w == 1 || w == 2 || w == 4,
        start + w <= b@.len(),
    ensures
        r == le_value(b@.subrange(start as int, start + w)) as u32,
{
    let mut bytes: Vec<u8> = Vec::new();
    let mut k: usize = 0;
    let blen: usize = b.len();
    while k < w
        invariant
            k <= w <= 4,
            blen == b@.len(),
            start + w <= b@.len(),
            bytes@ == b@.subrange(start as int, start + k),
        decreases w - k,
    {
        bytes.push(b[start + k]);
        k = k + 1;
        proof {
            assert(bytes@ =~= b@.subrange(start as int, start + k));
        }
    }
    proof {
        lemma_le_bound(bytes@);
        vstd::arithmetic::power2::lemma2_to64();
        if w < 4 {
            vstd::arithmetic::power2::lemma_pow2_strictly_increases(8 * w as nat, 32);
        }
    }
    decode_unsigned(&bytes) as u32
}

/// The code points of `b` read as little-endian units of `w` bytes.
pub fn decode_units(b: &Vec<u8>, w: usize) -> (r: Vec<u32>)
    requires
        w == 1 || w == 2 || w == 4,
    ensures
        r@ == units_of(b@, w as nat),
{
    let blen: usize = b.len();
    let n = blen / w;
    let mut out: Vec<u32> = Vec::new();
    let mut i: usize = 0;
    while i < n
        invariant
            w == 1 || w == 2 || w == 4,
            blen == b@.len(),
            n == b@.len() as int / (w as int),
            i <= n,
            out@ == units_of(b@, w as nat).subrange(0, i as int),
        decreases n - i,
    {
        assert(i * w + w <= b@.len()) by (nonlinear_arith)
            requires
                i < n,
                n == b@.len() as int / (w as int),
                w > 0,
        ;
        let u = unit_at(b, i * w, w);
        out.push(u);
        i = i + 1;
        proof {
            assert(out@ =~= units_of(b@, w as nat).subrange(0, i as int));
        }
    }
    proof {
        assert(out@ =~= units_of(b@, w as nat));
    }
    out
}

/// The text `t` as little-endian units of `w` bytes each.
pub fn encode_units(t: &Vec<u32>, w: usize) -> (r: Vec<u8>)
    requires
        w == 1 || w == 2 || w == 4,
        t@.len() * w <= usize::MAX,
    ensures
        r@ == encode_spec(t@, w as nat),
{
    let mut out: Vec<u8> = Vec::new();
    let mut i: usize = 0;
    while i < t.len()
        invariant
            w == 1 || w == 2 || w == 4,
            t@.len() * w <= usize::MAX,
            i <= t@.len(),
            out@ == encode_spec(t@, w as nat).subrange(0, i * w),
        decreases t@.len() - i,
    {
        let mut c: u32 = t[i];
        let mut k: usize = 0;
        assert(i * w + w <= t@.len() * w) by (nonlinear_arith)
            requires
                i < t@.len(),
                w > 0,
        ;
        assert((i + 1) * w == i * w + w) by (nonlinear_arith);
        proof {
            vstd::arithmetic::power2::lemma2_to64();
        }
        while k < w
            invariant
                w == 1 || w == 2 || w == 4,
                i < t@.len(),
                i * w + w <= t@.len() * w,
                k <= w,
                c as nat == t@[i as int] as nat / pow2(8 * k as nat),
                out@ == encode_spec(t@, w as nat).subrange(0, i * w + k),
            decreases w - k,
        {
            proof {
                let j = i * w + k;
                assert(j / (w as int) == i && j % (w as int) == k) by (nonlinear_arith)
                    requires
                        j == i * w + k,
                        0 <= k < w,
                ;
                vstd::arithmetic::power2::lemma2_to64();
                lemma_pow2_adds(8 * k as nat, 8);
                lemma_pow2_pos(8 * k as nat);
                lemma_div_denominator(t@[i as int] as int, pow2(8 * k as nat) as int, 256);
                assert(8 * (k + 1) == 8 * k + 8);
            }
            out.push((c % 256) as u8);
            c = c / 256;
            k = k + 1;
            proof {
                assert(out@ =~= encode_spec(t@, w as nat).subrange(0, i * w + k));
            }
        }
        i = i + 1;
    }
    proof {
        assert(out@ =~= encode_spec(t@, w as nat));
    }
    out
}

fn decode_units_form<R: RemoteReader>(
    r: &R,
    l: &LayoutDescriptor,
    addr: u64,
    b: u8,
    n: i64,
) -> (res: Result<Vec<u32>, ReadError>)
    requires
        l.wf(),
        n > 0,
    ensures
        match res {
            Ok(t) => units_text_spec(r, l@, addr, b, n as int) == Ok::<Seq<u32>, ReadError>(t@),
            Err(x) => units_text_spec(r, l@, addr, b, n as int) == Err::<Seq<u32>, ReadError>(x),
        },
{
    let hdr = PyASCIIObject__bindgen_ty_1::from_state_byte(b);
    let kind = hdr.kind();
    let w: usize = if kind == 1 {
        1
    } else if kind == 2 {
        2
    } else if kind == 4 || kind == 0 {
        4
    } else {
        return Err(ReadError::OutOfRange);
    };
    assert((n as int) * (w as int) <= 4 * 0x8000_0000_0000_0000) by (nonlinear_arith)
        requires
            0 < n <= i64::MAX,
            1 <= w <= 4,
    ;
    if (n as u128) * (w as u128) > usize::MAX as u128 {
        return Err(ReadError::OutOfRange);
    }
    assert(n <= (n as int) * (w as int)) by (nonlinear_arith)
        requires
            0 < n,
            1 <= w,
    ;
    let data = if kind == 0 {
        read_address(r, l, addr, StructKind::Str, FieldName::WideData)?
    } else if hdr.compact() == 1 && hdr.ascii() == 1 {
        storage_address(l, addr, StructKind::Str, FieldName::InlineAscii)?
    } else if hdr.compact() == 1 {
        storage_address(l, addr, StructKind::Str, FieldName::InlineCompact)?
    } else {
        read_address(r, l, addr, StructKind::Str, FieldName::DataPointer)?
    };
    let len = (n as usize) * w;
    let bytes = r.read(data, len)?;
    if bytes.len() != len {
        return Err(ReadError::OutOfRange);
    }
    Ok(decode_units(&bytes, w))
}

fn decode_cached<R: RemoteReader>(r: &R, l: &LayoutDescriptor, addr: u64, p: u64) -> (res: Result<
    Vec<u32>,
    ReadError,
>)
    requires
        l.wf(),
    ensures
        match res {
            Ok(t) => cached_text_spec(r, l@, addr, p) == Ok::<Seq<u32>, ReadError>(t@),
            Err(x) => cached_text_spec(r, l@, addr, p) == Err::<Seq<u32>, ReadError>(x),
        },
{
    let m = read_signed(r, l, addr, StructKind::Str, FieldName::Utf8Length)?;
    if m < 0 || (m as u128) > usize::MAX as u128 {
        return Err(ReadError::OutOfRange);
    }
    let bytes = r.read(p, m as usize)?;
    if bytes.len() as u128 != m as u128 {
        return Err(ReadError::OutOfRange);
    }
    match decode_utf8(&bytes) {
        None => Err(ReadError::OutOfRange),
        Some(t) => Ok(t),
    }
}

/// Decodes the string object at `addr` into its code points.
pub fn decode_string<R: RemoteReader>(r: &R, l: &LayoutDescriptor, addr: u64) -> (res: Result<Vec<u32>, ReadError>)
    requires
        l.wf(),
    ensures
        match res {
            Ok(t) => string_spec(r, l@, addr) == Ok::<Seq<u32>, ReadError>(t@),
            Err(x) => string_spec(r, l@, addr) == Err::<Seq<u32>, ReadError>(x),
        },
{
    let state = read_address(r, l, addr, StructKind::Str, FieldName::State)?;
    let b = (state % 256) as u8;
    let n = read_signed(r, l, addr, StructKind::Str, FieldName::Length)?;
    if n < 0 {
        return Err(ReadError::OutOfRange);
    }
    if n == 0 {
        return Ok(Vec::new());
    }
    let hdr = PyASCIIObject__bindgen_ty_1::from_state_byte(b);
    if hdr.kind() == 0 {
        if let Ok(p) = read_address(r, l, addr, StructKind::Str, FieldName::Utf8Data) {
            if p != 0 {
                return decode_cached(r, l, addr, p);
            }
        }
    }
    decode_units_form(r, l, addr, b, n)
}

} // verus!
