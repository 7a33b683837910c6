use vstd::prelude::*;

verus! {

pub open spec fn is_cont(b: u8) -> bool {
    0x80 <= b < 0xc0
}

/// The code point that starts at byte `i` of `b`, with its length in bytes,
/// if a well-formed UTF-8 sequence starts there: no overlong form, no
/// surrogate, nothing above U+10FFFF.
pub open spec fn utf8_at(b: Seq<u8>, i: int) -> Option<(u32, int)> {
    if i < 0 || i >= b.len() {
        None
    } else if b[i] < 0x80 {
        Some((b[i] as u32, 1))
    } else if 0xc2 <= b[i] < 0xe0 && i + 1 < b.len() && is_cont(b[i + 1]) {
        Some((((b[i] - 0xc0) * 64 + (b[i + 1] - 0x80)) as u32, 2))
    } else if 0xe0 <= b[i] < 0xf0 && i + 2 < b.len() && is_cont(b[i + 1]) && is_cont(b[i + 2]) {
        let c = (b[i] - 0xe0) * 4096 + (b[i + 1] - 0x80) * 64 + (b[i + 2] - 0x80);
        if c >= 0x800 && !(0xd800 <= c < 0xe000) {
            Some((c as u32, 3))
        } else {
            None
        }
    } else if 0xf0 <= b[i] < 0xf5 && i + 3 < b.len() && is_cont(b[i + 1]) && is_cont(b[i + 2])
        && is_cont(b[i + 3]) {
        let c = (b[i] - 0xf0) * 262144 + (b[i + 1] - 0x80) * 4096 + (b[i + 2] - 0x80) * 64 + (b[i
            + 3] - 0x80);
        if 0x10000 <= c < 0x110000 {
            Some((c as u32, 4))
        } else {
            None
        }
    } else {
        None
    }
}

/// The code points of `b` from byte `i` on, if those bytes are well-formed
/// UTF-8.
pub open spec fn utf8_from(b: Seq<u8>, i: int) -> Option<Seq<u32>>
    decreases b.len() - i,
{
    if i < 0 {
        None
    } else if i >= b.len() {
        Some(Seq::empty())
    } else {
        match utf8_at(b, i) {
            None => None,
            Some((c, n)) => if n <= 0 {
                None
            } else {
                match utf8_from(b, i + n) {
                    None => None,
                    Some(rest) => Some(seq![c] + rest),
                }
            },
        }
    }
}

/// The code points of `b`, if it is well-formed UTF-8.
pub open spec fn utf8_spec(b: Seq<u8>) -> Option<Seq<u32>> {
    utf8_from(b, 0)
}

fn decode_at(b: &Vec<u8>, i: usize) -> (r: Option<(u32, usize)>)
    requires
        i < b@.len(),
    ensures
        match r {
            None => utf8_at(b@, i as int) is None,
            Some((c, n)) => utf8_at(b@, i as int) == Some((c, n as int)),
        },
{
    let n = b.len();
    let b0 = b[i];
    if b0 < 0x80 {
        return Some((b0 as u32, 1));
    }
    if 0xc2 <= b0 && b0 < 0xe0 && n - i > 1 && 0x80 <= b[i + 1] && b[i + 1] < 0xc0 {
        let c = (b0 as u32 - 0xc0) * 64 + (b[i + 1] as u32 - 0x80);
        return Some((c, 2));
    }
    if 0xe0 <= b0 && b0 < 0xf0 && n - i > 2 && 0x80 <= b[i + 1] && b[i + 1] < 0xc0 && 0x80 <= b[i
        + 2] && b[i + 2] < 0xc0 {
        let c = (b0 as u32 - 0xe0) * 4096 + (b[i + 1] as u32 - 0x80) * 64 + (b[i + 2] as u32
            - 0x80);
        if c >= 0x800 && !(0xd800 <= c && c < 0xe000) {
            return Some((c, 3));
        }
        return None;
    }
    if 0xf0 <= b0 && b0 < 0xf5 && n - i > 3 && 0x80 <= b[i + 1] && b[i + 1] < 0xc0 && 0x80 <= b[i
        + 2] && b[i + 2] < 0xc0 && 0x80 <= b[i + 3] && b[i + 3] < 0xc0 {
        let c = (b0 as u32 - 0xf0) * 262144 + (b[i + 1] as u32 - 0x80) * 4096 + (b[i + 2] as u32
            - 0x80) * 64 + (b[i + 3] as u32 - 0x80);
        if 0x10000 <= c && c < 0x110000 {
            return Some((c, 4));
        }
        return None;
    }
    None
}

/// The code points of `b`, or `None` where it is not well-formed UTF-8.
pub fn decode_utf8(b: &Vec<u8>) -> (r: Option<Vec<u32>>)
    ensures
        match r {
            None => utf8_spec(b@) is None,
            Some(t) => utf8_spec(b@) == Some(t@),
        },
{
    let n = b.len();
    let mut out: Vec<u32> = Vec::new();
    let mut i: usize = 0;
    while i < n
        invariant
            n == b@.len(),
            i <= n,
            utf8_spec(b@) == match utf8_from(b@, i as int) {
                None => None,
                Some(rest) => Some(out@ + rest),
            },
        decreases n - i,
    {
        match decode_at(b, i) {
            None => {
                return None;
            },
            Some((c, k)) => {
                let ghost prev = out@;
                out.push(c);
                i = i + k;
                proof {
                    match utf8_from(b@, i as int) {
                        None => {},
                        Some(rest) => {
                            assert(prev + (seq![c] + rest) =~= out@ + rest);
                        },
                    }
                }
            },
        }
    }
    proof {
        assert(out@ + Seq::<u32>::empty() =~= out@);
    }
    Some(out)
}

} // verus!
