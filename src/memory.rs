use vstd::prelude::*;

verus! {

/// Why a remote read or a typed field read failed.
#[derive(Clone, Copy, Debug, PartialEq, Eq, Structural)]
pub enum ReadError {
    /// The address is not backed by any mapped page of the target.
    Unmapped,
    /// The field needs more bytes than were available, or its value is out
    /// of the range its rule allows.
    OutOfRange,
    /// The active layout has no entry for the field.
    UnsupportedField,
}

/// What a byte read returned, as values.
pub open spec fn bytes_view(r: Result<Vec<u8>, ReadError>) -> Result<Seq<u8>, ReadError> {
    match r {
        Ok(b) => Ok(b@),
        Err(e) => Err(e),
    }
}

/// Access to the address space of the target process. `read_spec` is the
/// memory as this reader presents it: a read returns at most `len` bytes
/// starting at `addr`, or an error.
///
/// The contracts built on this trait take a read to depend on the reader,
/// the address and the length alone: they assume one frozen snapshot of the
/// target per sample. A reader of a process that runs during the sample does
/// not meet that; what the walker then keeps is its guards (cycle and depth
/// bounds, partial results), which hold whatever the reads return.
pub trait RemoteReader {
    spec fn read_spec(&self, addr: u64, len: usize) -> Result<Seq<u8>, ReadError>;

    fn read(&self, addr: u64, len: usize) -> (r: Result<Vec<u8>, ReadError>)
        ensures
            bytes_view(r) == self.read_spec(addr, len),
            r is Ok ==> r->Ok_0@.len() <= len,
    ;
}

/// A captured image of part of an address space: regions of bytes, each at a
/// base address. A read is served by the first region that holds its start
/// address, and is cut short at the end of that region.
pub struct MemoryImage {
    bases: Vec<u64>,
    contents: Vec<Vec<u8>>,
}

pub open spec fn region_holds(base: u64, size: nat, addr: u64) -> bool {
    base <= addr && addr < base + size
}

pub open spec fn min_nat(a: nat, b: nat) -> nat {
    if a <= b {
        a
    } else {
        b
    }
}

/// The read of `len` bytes at `addr`, served by the regions from index `i` on.
pub open spec fn read_regions(
    bases: Seq<u64>,
    contents: Seq<Seq<u8>>,
    i: int,
    addr: u64,
    len: nat,
) -> Result<Seq<u8>, ReadError>
    decreases bases.len() - i,
{
    if i < 0 || i >= bases.len() || i >= contents.len() {
        Err(ReadError::Unmapped)
    } else if region_holds(bases[i], contents[i].len(), addr) {
        let start = addr - bases[i];
        Ok(contents[i].subrange(start as int, min_nat((start + len) as nat, contents[i].len()) as int))
    } else {
        read_regions(bases, contents, i + 1, addr, len)
    }
}

impl MemoryImage {
    pub closed spec fn bases(&self) -> Seq<u64> {
        self.bases@
    }

    pub closed spec fn contents(&self) -> Seq<Seq<u8>> {
        self.contents@.map_values(|v: Vec<u8>| v@)
    }

    pub open spec fn wf(&self) -> bool {
        self.bases().len() == self.contents().len()
    }

    /// An image with nothing mapped.
    pub fn new() -> (r: Self)
        ensures
            r.wf(),
            r.bases().len() == 0,
    {
        MemoryImage { bases: Vec::new(), contents: Vec::new() }
    }

    /// Adds a region after those already there.
    pub fn map_region(&mut self, base: u64, bytes: Vec<u8>)
        requires
            old(self).wf(),
        ensures
            final(self).wf(),
            final(self).bases() == old(self).bases().push(base),
            final(self).contents() == old(self).contents().push(bytes@),
    {
        self.bases.push(base);
        self.contents.push(bytes);
        proof {
            assert(self.contents@.map_values(|v: Vec<u8>| v@) =~= old(self).contents@.map_values(
                |v: Vec<u8>| v@,
            ).push(bytes@));
        }
    }
}

impl RemoteReader for MemoryImage {
    open spec fn read_spec(&self, addr: u64, len: usize) -> Result<Seq<u8>, ReadError> {
        read_regions(self.bases(), self.contents(), 0, addr, len as nat)
    }

    fn read(&self, addr: u64, len: usize) -> (r: Result<Vec<u8>, ReadError>) {
        let n = if self.bases.len() < self.contents.len() {
            self.bases.len()
        } else {
            self.contents.len()
        };
        let mut i: usize = 0;
        while i < n
            invariant
                n <= self.bases@.len(),
                n <= self.contents@.len(),
                n == self.bases@.len() || n == self.contents@.len(),
                i <= n,
                read_regions(self.bases(), self.contents(), 0, addr, len as nat) == read_regions(
                    self.bases(),
                    self.contents(),
                    i as int,
                    addr,
                    len as nat,
                ),
            decreases n - i,
        {
            let base = self.bases[i];
            let region = &self.contents[i];
            if base <= addr && addr - base < region.len() as u64 {
                let start = (addr - base) as usize;
                let rlen: usize = region.len();
                let avail = rlen - start;
                let take = if len < avail {
                    len
                } else {
                    avail
                };
                let mut out: Vec<u8> = Vec::new();
                let mut k: usize = 0;
                while k < take
                    invariant
                        k <= take,
                        start + take <= region@.len(),
                        region@.len() == rlen,
                        out@ == region@.subrange(start as int, start + k),
                    decreases take - k,
                {
                    out.push(region[start + k]);
                    k = k + 1;
                    proof {
                        assert(out@ =~= region@.subrange(start as int, start + k));
                    }
                }
                proof {
                    assert(self.contents()[i as int] == region@);
                }
                return Ok(out);
            }
            proof {
                assert(self.contents()[i as int] == region@);
            }
            i = i + 1;
        }
        Err(ReadError::Unmapped)
    }
}

} // verus!
