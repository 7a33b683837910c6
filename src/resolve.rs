use crate::layout::{
    FieldEntry,
    FieldName,
    LayoutDescriptor,
    StructKind,
    address_spec,
    c_int_spec,
    read_address,
    read_c_int,
    read_signed,
    signed_spec,
    storage_addr_spec,
    storage_address,
};
use crate::linetable::{MAX_LINE_TABLE_BYTES, decode_line, line_spec};
use crate::memory::{ReadError, RemoteReader};
use crate::strings::{decode_string, string_spec};
use vstd::prelude::*;

verus! {

/// The bytes of the line table of the code object at `code`: a bytes object
/// whose size field gives the number of bytes that follow its header. A read
/// cut short keeps the bytes it got, so that the pairs read still count.
pub open spec fn table_spec<R: RemoteReader>(r: &R, l: Seq<FieldEntry>, code: u64) -> Result<
    Seq<u8>,
    ReadError,
> {
    match address_spec(r, l, code, StructKind::Code, FieldName::LineTable) {
        Err(x) => Err(x),
        Ok(t) => match signed_spec(r, l, t, StructKind::Bytes, FieldName::Size) {
            Err(x) => Err(x),
            Ok(n) => if n < 0 || n > MAX_LINE_TABLE_BYTES {
                Err(ReadError::OutOfRange)
            } else {
                match storage_addr_spec(l, t, StructKind::Bytes, FieldName::Data) {
                    Err(x) => Err(x),
                    Ok(d) => r.read_spec(d, n as usize),
                }
            },
        },
    }
}

/// Function name, file name and line of the code object at `code` at
/// instruction offset `lasti`. Where the line table cannot be read the line
/// is the code object's first line, the best estimate there is.
#[verifier::opaque]
pub open spec fn location_spec<R: RemoteReader>(
    r: &R,
    l: Seq<FieldEntry>,
    code: u64,
    lasti: i32,
) -> Result<(Seq<u32>, Seq<u32>, int), ReadError> {
    match address_spec(r, l, code, StructKind::Code, FieldName::Name) {
        Err(x) => Err(x),
        Ok(na) => match string_spec(r, l, na) {
            Err(x) => Err(x),
            Ok(name) => match address_spec(r, l, code, StructKind::Code, FieldName::FileName) {
                Err(x) => Err(x),
                Ok(fa) => match string_spec(r, l, fa) {
                    Err(x) => Err(x),
                    Ok(file) => match c_int_spec(r, l, code, StructKind::Code, FieldName::FirstLine) {
                        Err(x) => Err(x),
                        Ok(first) => Ok(
                            (
                                name,
                                file,
                                match table_spec(r, l, code) {
                                    Ok(t) => line_spec(t, first as int, lasti as int),
                                    Err(_) => first as int,
                                },
                            ),
                        ),
                    },
                },
            },
        },
    }
}

/// Reads the line table of the code object at `code`.
pub fn read_line_table<R: RemoteReader>(r: &R, l: &LayoutDescriptor, code: u64) -> (res: Result<
    Vec<u8>,
    ReadError,
>)
    requires
        l.wf(),
    ensures
        match res {
            Ok(b) => table_spec(r, l@, code) == Ok::<Seq<u8>, ReadError>(b@),
            Err(x) => table_spec(r, l@, code) == Err::<Seq<u8>, ReadError>(x),
        },
        res is Ok ==> res->Ok_0@.len() <= MAX_LINE_TABLE_BYTES,
{
    let t = read_address(r, l, code, StructKind::Code, FieldName::LineTable)?;
    let n = read_signed(r, l, t, StructKind::Bytes, FieldName::Size)?;
    if n < 0 || n > MAX_LINE_TABLE_BYTES as i64 {
        return Err(ReadError::OutOfRange);
    }
    let d = storage_address(l, t, StructKind::Bytes, FieldName::Data)?;
    r.read(d, n as usize)
}

/// Resolves the code object at `code`, at instruction offset `lasti`, to its
/// function name, file name and line.
pub fn resolve_location<R: RemoteReader>(
    r: &R,
    l: &LayoutDescriptor,
    code: u64,
    lasti: i32,
) -> (res: Result<(Vec<u32>, Vec<u32>, i64), ReadError>)
    requires
        l.wf(),
    ensures
        match res {
            Ok((name, file, line)) => location_spec(r, l@, code, lasti) == Ok::<
                (Seq<u32>, Seq<u32>, int),
                ReadError,
            >((name@, file@, line as int)),
            Err(x) => location_spec(r, l@, code, lasti) == Err::<
                (Seq<u32>, Seq<u32>, int),
                ReadError,
            >(x),
        },
{
    proof {
        reveal(location_spec);
    }
    let na = read_address(r, l, code, StructKind::Code, FieldName::Name)?;
    let name = decode_string(r, l, na)?;
    let fa = read_address(r, l, code, StructKind::Code, FieldName::FileName)?;
    let file = decode_string(r, l, fa)?;
    let first = read_c_int(r, l, code, StructKind::Code, FieldName::FirstLine)?;
    let line = match read_line_table(r, l, code) {
        Ok(t) => decode_line(&t, first, lasti),
        Err(_) => first as i64,
    };
    Ok((name, file, line))
}

} // verus!
