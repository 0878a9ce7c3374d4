//! A fixed-capacity byte buffer with bounds-checked typed accessors: the
//! in-memory image of one disk block. Integers are stored big-endian, byte
//! strings and text are length-prefixed, so a page written on one platform
//! reads back identically on any other.

use vstd::prelude::*;

use crate::file::codec::{be_bytes, be_decode, be_encode, be_val, bytes_field, bytes_field_fits,
    len_prefixed, pow256, store, to_signed, to_unsigned};
use crate::file::codec::{lemma_be_bytes_len, lemma_be_val_bound, lemma_pow256_values};
use vstd::utf8::{encode_utf8, valid_utf8};

verus! {

/// Failure of a page accessor.
#[derive(Debug, Clone, Copy, PartialEq, Eq, Structural, Hash)]
pub enum PageError {
    /// The requested field would lie outside the buffer.
    BufferSizeExceeded,
    /// The bytes of a text field are not valid UTF-8.
    InvalidUtf8,
}

impl PageError {
    /// A human-readable description of the error.
    pub fn message(&self) -> (r: &'static str)
        ensures
            self is BufferSizeExceeded ==> r@ == "buffer size exceeded"@,
            self is InvalidUtf8 ==> r@ == "invalid utf-8"@,
    {
        match self {
            PageError::BufferSizeExceeded => "buffer size exceeded",
            PageError::InvalidUtf8 => "invalid utf-8",
        }
    }
}

/// One page: a byte buffer of the block size. Pages meant for disk I/O are
/// built with [`Page::with_capacity`], which fixes the length; the other
/// constructors exist for tests and bootstrapping and enforce nothing.
#[derive(Debug, Clone, Hash, PartialOrd, Ord)]
pub struct Page {
    pub bb: Vec<u8>,
}

impl View for Page {
    type V = Seq<u8>;

    open spec fn view(&self) -> Seq<u8> {
        self.bb@
    }
}

impl PartialEq for Page {
    fn eq(&self, other: &Page) -> (r: bool) {
        if self.bb.len() != other.bb.len() {
            return false;
        }
        let mut i: usize = 0;
        while i < self.bb.len()
            invariant
                0 <= i <= self.bb.len(),
                self.bb.len() == other.bb.len(),
                forall|j: int| 0 <= j < i ==> self.bb@[j] == other.bb@[j],
            decreases self.bb.len() - i,
        {
            if self.bb[i] != other.bb[i] {
                return false;
            }
            i += 1;
        }
        proof {
            assert(self.bb@ =~= other.bb@);
        }
        true
    }
}

impl vstd::std_specs::cmp::PartialEqSpecImpl for Page {
    open spec fn obeys_eq_spec() -> bool {
        true
    }

    open spec fn eq_spec(&self, other: &Page) -> bool {
        self.bb@ == other.bb@
    }
}

impl Eq for Page {}

impl Default for Page {
    /// A page with an empty buffer.
    fn default() -> (r: Page)
        ensures
            r@ == Seq::<u8>::empty(),
    {
        let r = Page { bb: Vec::new() };
        proof {
            assert(r@ =~= Seq::<u8>::empty());
        }
        r
    }
}

// Conversions from raw byte sequences, for tests and bootstrapping; none of
// them enforces the block-size invariant, so pages meant for disk I/O are
// built with `with_capacity` instead.
impl From<Vec<u8>> for Page {
    fn from(bb: Vec<u8>) -> (r: Page) {
        Page { bb }
    }
}

impl vstd::std_specs::convert::FromSpecImpl<Vec<u8>> for Page {
    open spec fn obeys_from_spec() -> bool {
        true
    }

    open spec fn from_spec(v: Vec<u8>) -> Page {
        Page { bb: v }
    }
}

impl<const N: usize> From<[u8; N]> for Page {
    fn from(bb: [u8; N]) -> (r: Page)
        ensures
            r@ == bb@,
    {
        Page { bb: vstd::slice::slice_to_vec(bb.as_slice()) }
    }
}

impl<const N: usize> vstd::std_specs::convert::FromSpecImpl<[u8; N]> for Page {
    open spec fn obeys_from_spec() -> bool {
        false
    }

    open spec fn from_spec(v: [u8; N]) -> Page {
        choose|p: Page| p@ == v@
    }
}

impl<const N: usize> From<&[u8; N]> for Page {
    fn from(bb: &[u8; N]) -> (r: Page)
        ensures
            r@ == bb@,
    {
        Page { bb: vstd::slice::slice_to_vec(bb.as_slice()) }
    }
}

impl<const N: usize> vstd::std_specs::convert::FromSpecImpl<&[u8; N]> for Page {
    open spec fn obeys_from_spec() -> bool {
        false
    }

    open spec fn from_spec(v: &[u8; N]) -> Page {
        choose|p: Page| p@ == v@
    }
}

impl Page {
    /// Gathers an iterator's bytes into a page buffer, in order; a conversion
    /// for tests and bootstrapping.
    ///
    /// Relies on Iterator::collect to gather the items into a vector.
    #[verifier::external_body]
    pub fn from_iter<I: core::iter::IntoIterator<Item = u8>>(iter: I) -> (r: Page) {
        Page { bb: iter.into_iter().collect() }
    }
}

impl Page {
    /// A zero-filled page of exactly `blocksize` bytes: the only constructor
    /// meant for pages that travel to and from disk.
    pub fn with_capacity(blocksize: usize) -> (r: Page)
        ensures
            r@.len() == blocksize,
            forall|i: int| 0 <= i < blocksize ==> r@[i] == 0u8,
    {
        let mut bb: Vec<u8> = Vec::new();
        let mut i: usize = 0;
        while i < blocksize
            invariant
                0 <= i <= blocksize,
                bb@.len() == i,
                forall|j: int| 0 <= j < i ==> bb@[j] == 0u8,
            decreases blocksize - i,
        {
            bb.push(0);
            i += 1;
        }
        Page { bb }
    }

    /// A copy of the full buffer, used for raw transfer to and from disk.
    pub fn contents(&self) -> (r: Vec<u8>)
        ensures
            r@ == self@,
    {
        vstd::slice::slice_to_vec(self.bb.as_slice())
    }

    /// The worst-case byte footprint of a length-prefixed field holding up
    /// to `size` single-byte units: the 4-byte length plus the payload.
    pub fn max_length(size: usize) -> (r: usize)
        requires
            size + 4 <= usize::MAX,
        ensures
            r == size + 4,
    {
        4 + size
    }

    /// Writes the `width`-byte big-endian field of `v` at `offset`, the
    /// bounds check shared by every fixed-width setter.
    fn put_be(&mut self, offset: usize, width: usize, v: u64) -> (r: Result<usize, PageError>)
        requires
            width <= 8,
            (v as nat) < pow256(width as nat),
        ensures
            match r {
                Ok(next) => offset + width <= old(self)@.len() && next == offset + width
                    && final(self)@ == store(
                    old(self)@,
                    offset as int,
                    be_bytes(v as nat, width as nat),
                ),
                Err(e) => offset + width > old(self)@.len() && final(self)@ == old(self)@ && e
                    == PageError::BufferSizeExceeded,
            },
    {
        if width <= self.bb.len() && offset <= self.bb.len() - width {
            let field = be_encode(v, width);
            proof {
                lemma_be_bytes_len(v as nat, width as nat);
            }
            self.put_field(offset, field.as_slice());
            Ok(offset + width)
        } else {
            Err(PageError::BufferSizeExceeded)
        }
    }

    /// Copies `data` over the bytes starting at `offset`; the write shared by
    /// every setter, after its bounds check has passed.
    fn put_field(&mut self, offset: usize, data: &[u8])
        requires
            offset + data@.len() <= old(self)@.len(),
        ensures
            final(self)@ == store(old(self)@, offset as int, data@),
    {
        let n = data.len();
        let m = self.bb.len();
        proof {
            assert(offset + n <= m);
        }
        let mut i: usize = 0;
        while i < n
            invariant
                0 <= i <= n,
                n == data@.len(),
                offset + n <= usize::MAX,
                offset + n <= self.bb@.len(),
                self.bb@.len() == old(self)@.len(),
                forall|j: int|
                    0 <= j < self.bb@.len() && !(offset <= j < offset + i) ==> self.bb@[j] == old(
                        self,
                    )@[j],
                forall|j: int| offset <= j < offset + i ==> self.bb@[j] == data@[j - offset],
            decreases n - i,
        {
            self.bb.set(offset + i, data[i]);
            i += 1;
        }
        proof {
            assert(self.bb@ =~= store(old(self)@, offset as int, data@));
        }
    }

    /// Reads the `width`-byte big-endian field at `offset`, the bounds check
    /// shared by every fixed-width getter.
    fn take_be(&self, offset: usize, width: usize) -> (r: Result<u64, PageError>)
        requires
            width <= 8,
        ensures
            match r {
                Ok(v) => offset + width <= self@.len() && v as nat == be_val(
                    self@.subrange(offset as int, offset + width),
                ),
                Err(e) => offset + width > self@.len() && e == PageError::BufferSizeExceeded,
            },
    {
        if width <= self.bb.len() && offset <= self.bb.len() - width {
            let s = vstd::slice::slice_subrange(self.bb.as_slice(), offset, offset + width);
            Ok(be_decode(s))
        } else {
            Err(PageError::BufferSizeExceeded)
        }
    }
}

// The typed integer accessors. Every getter returns the big-endian value of
// the field's bytes; every setter replaces exactly the field's bytes and
// returns the offset immediately after the field, so that callers can pack
// consecutive fields without recomputing offsets. A field that would not fit
// fails with `BufferSizeExceeded` and leaves the buffer untouched.
impl Page {
    pub fn get_u8(&self, offset: usize) -> (r: Result<u8, PageError>)
        ensures
            match r {
                Ok(v) => offset + 1 <= self@.len() && v as nat == be_val(
                    self@.subrange(offset as int, offset + 1),
                ),
                Err(e) => offset + 1 > self@.len() && e == PageError::BufferSizeExceeded,
            },
    {
        match self.take_be(offset, 1) {
            Ok(u) => {
                proof {
                    lemma_be_val_bound(self@.subrange(offset as int, offset + 1));
                    lemma_pow256_values();
                }
                Ok(u as u8)
            },
            Err(e) => Err(e),
        }
    }

    pub fn get_u16(&self, offset: usize) -> (r: Result<u16, PageError>)
        ensures
            match r {
                Ok(v) => offset + 2 <= self@.len() && v as nat == be_val(
                    self@.subrange(offset as int, offset + 2),
                ),
                Err(e) => offset + 2 > self@.len() && e == PageError::BufferSizeExceeded,
            },
    {
        match self.take_be(offset, 2) {
            Ok(u) => {
                proof {
                    lemma_be_val_bound(self@.subrange(offset as int, offset + 2));
                    lemma_pow256_values();
                }
                Ok(u as u16)
            },
            Err(e) => Err(e),
        }
    }

    pub fn get_u32(&self, offset: usize) -> (r: Result<u32, PageError>)
        ensures
            match r {
                Ok(v) => offset + 4 <= self@.len() && v as nat == be_val(
                    self@.subrange(offset as int, offset + 4),
                ),
                Err(e) => offset + 4 > self@.len() && e == PageError::BufferSizeExceeded,
            },
    {
        match self.take_be(offset, 4) {
            Ok(u) => {
                proof {
                    lemma_be_val_bound(self@.subrange(offset as int, offset + 4));
                    lemma_pow256_values();
                }
                Ok(u as u32)
            },
            Err(e) => Err(e),
        }
    }

    pub fn get_u64(&self, offset: usize) -> (r: Result<u64, PageError>)
        ensures
            match r {
                Ok(v) => offset + 8 <= self@.len() && v as nat == be_val(
                    self@.subrange(offset as int, offset + 8),
                ),
                Err(e) => offset + 8 > self@.len() && e == PageError::BufferSizeExceeded,
            },
    {
        self.take_be(offset, 8)
    }

    pub fn get_i8(&self, offset: usize) -> (r: Result<i8, PageError>)
        ensures
            match r {
                Ok(v) => offset + 1 <= self@.len() && v as int == to_signed(
                    be_val(self@.subrange(offset as int, offset + 1)),
                    1,
                ),
                Err(e) => offset + 1 > self@.len() && e == PageError::BufferSizeExceeded,
            },
    {
        match self.take_be(offset, 1) {
            Ok(u) => {
                proof {
                    lemma_be_val_bound(self@.subrange(offset as int, offset + 1));
                    lemma_pow256_values();
                }
                if u < 0x80 {
                    Ok(u as i8)
                } else {
                    Ok(((u as i16) - 0x100i16) as i8)
                }
            },
            Err(e) => Err(e),
        }
    }

    pub fn get_i16(&self, offset: usize) -> (r: Result<i16, PageError>)
        ensures
            match r {
                Ok(v) => offset + 2 <= self@.len() && v as int == to_signed(
                    be_val(self@.subrange(offset as int, offset + 2)),
                    2,
                ),
                Err(e) => offset + 2 > self@.len() && e == PageError::BufferSizeExceeded,
            },
    {
        match self.take_be(offset, 2) {
            Ok(u) => {
                proof {
                    lemma_be_val_bound(self@.subrange(offset as int, offset + 2));
                    lemma_pow256_values();
                }
                if u < 0x8000 {
                    Ok(u as i16)
                } else {
                    Ok(((u as i32) - 0x1_0000i32) as i16)
                }
            },
            Err(e) => Err(e),
        }
    }

    pub fn get_i32(&self, offset: usize) -> (r: Result<i32, PageError>)
        ensures
            match r {
                Ok(v) => offset + 4 <= self@.len() && v as int == to_signed(
                    be_val(self@.subrange(offset as int, offset + 4)),
                    4,
                ),
                Err(e) => offset + 4 > self@.len() && e == PageError::BufferSizeExceeded,
            },
    {
        match self.take_be(offset, 4) {
            Ok(u) => {
                proof {
                    lemma_be_val_bound(self@.subrange(offset as int, offset + 4));
                    lemma_pow256_values();
                }
                if u < 0x8000_0000 {
                    Ok(u as i32)
                } else {
                    Ok(((u as i64) - 0x1_0000_0000i64) as i32)
                }
            },
            Err(e) => Err(e),
        }
    }

    pub fn get_i64(&self, offset: usize) -> (r: Result<i64, PageError>)
        ensures
            match r {
                Ok(v) => offset + 8 <= self@.len() && v as int == to_signed(
                    be_val(self@.subrange(offset as int, offset + 8)),
                    8,
                ),
                Err(e) => offset + 8 > self@.len() && e == PageError::BufferSizeExceeded,
            },
    {
        match self.take_be(offset, 8) {
            Ok(u) => {
                proof {
                    lemma_be_val_bound(self@.subrange(offset as int, offset + 8));
                    lemma_pow256_values();
                }
                if u < 0x8000_0000_0000_0000 {
                    Ok(u as i64)
                } else {
                    Ok(((u as i128) - 0x1_0000_0000_0000_0000i128) as i64)
                }
            },
            Err(e) => Err(e),
        }
    }

    pub fn set_u8(&mut self, offset: usize, n: u8) -> (r: Result<usize, PageError>)
        ensures
            match r {
                Ok(next) => offset + 1 <= old(self)@.len() && next == offset + 1 && final(self)@
                    == store(old(self)@, offset as int, be_bytes(n as nat, 1)),
                Err(e) => offset + 1 > old(self)@.len() && final(self)@ == old(self)@ && e
                    == PageError::BufferSizeExceeded,
            },
    {
        proof {
            lemma_pow256_values();
        }
        self.put_be(offset, 1, n as u64)
    }

    pub fn set_u16(&mut self, offset: usize, n: u16) -> (r: Result<usize, PageError>)
        ensures
            match r {
                Ok(next) => offset + 2 <= old(self)@.len() && next == offset + 2 && final(self)@
                    == store(old(self)@, offset as int, be_bytes(n as nat, 2)),
                Err(e) => offset + 2 > old(self)@.len() && final(self)@ == old(self)@ && e
                    == PageError::BufferSizeExceeded,
            },
    {
        proof {
            lemma_pow256_values();
        }
        self.put_be(offset, 2, n as u64)
    }

    pub fn set_u32(&mut self, offset: usize, n: u32) -> (r: Result<usize, PageError>)
        ensures
            match r {
                Ok(next) => offset + 4 <= old(self)@.len() && next == offset + 4 && final(self)@
                    == store(old(self)@, offset as int, be_bytes(n as nat, 4)),
                Err(e) => offset + 4 > old(self)@.len() && final(self)@ == old(self)@ && e
                    == PageError::BufferSizeExceeded,
            },
    {
        proof {
            lemma_pow256_values();
        }
        self.put_be(offset, 4, n as u64)
    }

    pub fn set_u64(&mut self, offset: usize, n: u64) -> (r: Result<usize, PageError>)
        ensures
            match r {
                Ok(next) => offset + 8 <= old(self)@.len() && next == offset + 8 && final(self)@
                    == store(old(self)@, offset as int, be_bytes(n as nat, 8)),
                Err(e) => offset + 8 > old(self)@.len() && final(self)@ == old(self)@ && e
                    == PageError::BufferSizeExceeded,
            },
    {
        proof {
            lemma_pow256_values();
        }
        self.put_be(offset, 8, n)
    }

    pub fn set_i8(&mut self, offset: usize, n: i8) -> (r: Result<usize, PageError>)
        ensures
            match r {
                Ok(next) => offset + 1 <= old(self)@.len() && next == offset + 1 && final(self)@
                    == store(old(self)@, offset as int, be_bytes(to_unsigned(n as int, 1), 1)),
                Err(e) => offset + 1 > old(self)@.len() && final(self)@ == old(self)@ && e
                    == PageError::BufferSizeExceeded,
            },
    {
        proof {
            lemma_pow256_values();
        }
        let u: u64 = if n >= 0 {
            n as u64
        } else {
            (((n as i16) + 0x100i16) as u16) as u64
        };
        self.put_be(offset, 1, u)
    }

    pub fn set_i16(&mut self, offset: usize, n: i16) -> (r: Result<usize, PageError>)
        ensures
            match r {
                Ok(next) => offset + 2 <= old(self)@.len() && next == offset + 2 && final(self)@
                    == store(old(self)@, offset as int, be_bytes(to_unsigned(n as int, 2), 2)),
                Err(e) => offset + 2 > old(self)@.len() && final(self)@ == old(self)@ && e
                    == PageError::BufferSizeExceeded,
            },
    {
        proof {
            lemma_pow256_values();
        }
        let u: u64 = if n >= 0 {
            n as u64
        } else {
            (((n as i32) + 0x1_0000i32) as u32) as u64
        };
        self.put_be(offset, 2, u)
    }

    pub fn set_i32(&mut self, offset: usize, n: i32) -> (r: Result<usize, PageError>)
        ensures
            match r {
                Ok(next) => offset + 4 <= old(self)@.len() && next == offset + 4 && final(self)@
                    == store(old(self)@, offset as int, be_bytes(to_unsigned(n as int, 4), 4)),
                Err(e) => offset + 4 > old(self)@.len() && final(self)@ == old(self)@ && e
                    == PageError::BufferSizeExceeded,
            },
    {
        proof {
            lemma_pow256_values();
        }
        let u: u64 = if n >= 0 {
            n as u64
        } else {
            ((n as i64) + 0x1_0000_0000i64) as u64
        };
        self.put_be(offset, 4, u)
    }

    pub fn set_i64(&mut self, offset: usize, n: i64) -> (r: Result<usize, PageError>)
        ensures
            match r {
                Ok(next) => offset + 8 <= old(self)@.len() && next == offset + 8 && final(self)@
                    == store(old(self)@, offset as int, be_bytes(to_unsigned(n as int, 8), 8)),
                Err(e) => offset + 8 > old(self)@.len() && final(self)@ == old(self)@ && e
                    == PageError::BufferSizeExceeded,
            },
    {
        proof {
            lemma_pow256_values();
        }
        let u: u64 = if n >= 0 {
            n as u64
        } else {
            ((n as i128) + 0x1_0000_0000_0000_0000i128) as u64
        };
        self.put_be(offset, 8, u)
    }

    /// A boolean is stored as one byte: zero is false, anything else true.
    pub fn get_bool(&self, offset: usize) -> (r: Result<bool, PageError>)
        ensures
            match r {
                Ok(b) => offset + 1 <= self@.len() && b == (self@[offset as int] != 0),
                Err(e) => offset + 1 > self@.len() && e == PageError::BufferSizeExceeded,
            },
    {
        proof {
            if offset < self@.len() {
                crate::file::codec::lemma_be_val_single(self@, offset as int);
            }
        }
        match self.get_u8(offset) {
            Ok(v) => Ok(v != 0),
            Err(e) => Err(e),
        }
    }

    /// Stores `true` as the byte 1 and `false` as the byte 0.
    pub fn set_bool(&mut self, offset: usize, b: bool) -> (r: Result<usize, PageError>)
        ensures
            match r {
                Ok(next) => offset + 1 <= old(self)@.len() && next == offset + 1 && final(self)@
                    == store(
                    old(self)@,
                    offset as int,
                    be_bytes(if b { 1nat } else { 0nat }, 1),
                ),
                Err(e) => offset + 1 > old(self)@.len() && final(self)@ == old(self)@ && e
                    == PageError::BufferSizeExceeded,
            },
    {
        self.set_u8(offset, if b { 1 } else { 0 })
    }
}

// The variable-length accessors: byte strings and UTF-8 text, stored as a
// 4-byte big-endian signed length followed by that many payload bytes.
impl Page {
    /// The payload of the length-prefixed field at `offset`. Fails when no
    /// well-formed field lies there: length field out of bounds, negative
    /// recorded length, or payload reaching past the end of the buffer.
    pub fn get_bytes<'a>(&'a self, offset: usize) -> (r: Result<&'a [u8], PageError>)
        ensures
            match r {
                Ok(v) => bytes_field_fits(self@, offset as int) && v@ == bytes_field(
                    self@,
                    offset as int,
                ),
                Err(e) => !bytes_field_fits(self@, offset as int) && e
                    == PageError::BufferSizeExceeded,
            },
    {
        match self.get_i32(offset) {
            Ok(n) => {
                if n < 0 {
                    return Err(PageError::BufferSizeExceeded);
                }
                let len = n as usize;
                let m = self.bb.len();
                if len <= m - offset - 4 {
                    Ok(vstd::slice::slice_subrange(self.bb.as_slice(), offset + 4, offset + 4 + len))
                } else {
                    Err(PageError::BufferSizeExceeded)
                }
            },
            Err(e) => Err(e),
        }
    }

    /// Writes `b` at `offset` as a length-prefixed field and returns the
    /// offset immediately after the payload. Fails, leaving the buffer
    /// untouched, when the field would not fit, or when `b` is too long for
    /// its 4-byte signed length field.
    pub fn set_bytes(&mut self, offset: usize, b: &[u8]) -> (r: Result<usize, PageError>)
        ensures
            match r {
                Ok(next) => offset + 4 + b@.len() <= old(self)@.len() && b@.len() <= 0x7fff_ffff
                    && next == offset + 4 + b@.len() && final(self)@ == store(
                    old(self)@,
                    offset as int,
                    len_prefixed(b@),
                ),
                Err(e) => !(offset + 4 + b@.len() <= old(self)@.len() && b@.len() <= 0x7fff_ffff)
                    && final(self)@ == old(self)@ && e == PageError::BufferSizeExceeded,
            },
    {
        let m = self.bb.len();
        if b.len() <= 0x7fff_ffff && offset <= m && m - offset >= 4 && b.len() <= m - offset - 4 {
            let ghost before = self.bb@;
            proof {
                lemma_pow256_values();
                lemma_be_bytes_len(b@.len(), 4);
            }
            let prefix = be_encode(b.len() as u64, 4);
            self.put_field(offset, prefix.as_slice());
            self.put_field(offset + 4, b);
            proof {
                assert(self.bb@ =~= store(before, offset as int, len_prefixed(b@)));
            }
            Ok(offset + 4 + b.len())
        } else {
            Err(PageError::BufferSizeExceeded)
        }
    }

    /// The text of the length-prefixed field at `offset`: the payload bytes
    /// decoded as UTF-8. Fails with `BufferSizeExceeded` when no well-formed
    /// field lies there, and with `InvalidUtf8` when the payload is not
    /// valid UTF-8.
    pub fn get_string(&self, offset: usize) -> (r: Result<String, PageError>)
        ensures
            match r {
                Ok(s) => bytes_field_fits(self@, offset as int) && encode_utf8(s@) == bytes_field(
                    self@,
                    offset as int,
                ),
                Err(PageError::BufferSizeExceeded) => !bytes_field_fits(self@, offset as int),
                Err(PageError::InvalidUtf8) => bytes_field_fits(self@, offset as int)
                    && !valid_utf8(bytes_field(self@, offset as int)),
            },
    {
        match self.get_bytes(offset) {
            Ok(bytes) => {
                let v = vstd::slice::slice_to_vec(bytes);
                match string_from_utf8(v) {
                    Some(s) => Ok(s),
                    None => Err(PageError::InvalidUtf8),
                }
            },
            Err(e) => Err(e),
        }
    }

    /// Writes the UTF-8 bytes of `s` at `offset` as a length-prefixed field
    /// and returns the offset immediately after the payload.
    pub fn set_string(&mut self, offset: usize, s: String) -> (r: Result<usize, PageError>)
        ensures
            match r {
                Ok(next) => offset + 4 + encode_utf8(s@).len() <= old(self)@.len() && encode_utf8(
                    s@,
                ).len() <= 0x7fff_ffff && next == offset + 4 + encode_utf8(s@).len() && final(self)@
                    == store(old(self)@, offset as int, len_prefixed(encode_utf8(s@))),
                Err(e) => !(offset + 4 + encode_utf8(s@).len() <= old(self)@.len() && encode_utf8(
                    s@,
                ).len() <= 0x7fff_ffff) && final(self)@ == old(self)@ && e
                    == PageError::BufferSizeExceeded,
            },
    {
        self.set_bytes(offset, s.as_str().as_bytes())
    }
}

/// A calendar date as plain fields. This is the value a date field of a page
/// holds; converting to and from a richer calendar type is the caller's
/// business.
#[derive(Debug, Clone, Copy, PartialEq, Eq, Structural, Hash)]
pub struct Date {
    pub year: u16,
    pub month: u8,
    pub day: u8,
}

/// The 32-bit field value of a date: the year in the high 16 bits, the month
/// in the next 8, the day in the low 8.
pub open spec fn pack_date(d: Date) -> nat {
    d.year as nat * 0x1_0000 + d.month as nat * 0x100 + d.day as nat
}

/// The date recorded by a 32-bit field value.
pub open spec fn unpack_date(v: nat) -> Date
    recommends
        v < 0x1_0000_0000,
{
    Date {
        year: (v / 0x1_0000) as u16,
        month: ((v / 0x100) % 0x100) as u8,
        day: (v % 0x100) as u8,
    }
}

/// Law: a date packed into its 32-bit field and unpacked again is unchanged.
pub proof fn lemma_date_roundtrip(d: Date)
    ensures
        pack_date(d) < 0x1_0000_0000,
        unpack_date(pack_date(d)) == d,
{
    let v = pack_date(d) as int;
    let low = d.month as int * 0x100 + d.day as int;
    vstd::arithmetic::div_mod::lemma_fundamental_div_mod_converse(v, 0x1_0000, d.year as int, low);
    assert(v / 0x100 == d.year as int * 0x100 + d.month as int) by {
        vstd::arithmetic::div_mod::lemma_fundamental_div_mod_converse(
            v,
            0x100,
            d.year as int * 0x100 + d.month as int,
            d.day as int,
        );
    }
    vstd::arithmetic::div_mod::lemma_fundamental_div_mod_converse(
        d.year as int * 0x100 + d.month as int,
        0x100,
        d.year as int,
        d.month as int,
    );
    vstd::arithmetic::div_mod::lemma_fundamental_div_mod_converse(
        v,
        0x100,
        d.year as int * 0x100 + d.month as int,
        d.day as int,
    );
}

// The date accessors: a date is one 4-byte big-endian field holding its
// packed value.
impl Page {
    /// The date recorded by the 32-bit field at `offset`.
    pub fn get_date(&self, offset: usize) -> (r: Result<Date, PageError>)
        ensures
            match r {
                Ok(d) => offset + 4 <= self@.len() && d == unpack_date(
                    be_val(self@.subrange(offset as int, offset + 4)),
                ),
                Err(e) => offset + 4 > self@.len() && e == PageError::BufferSizeExceeded,
            },
    {
        match self.take_be(offset, 4) {
            Ok(u) => {
                proof {
                    lemma_be_val_bound(self@.subrange(offset as int, offset + 4));
                    lemma_pow256_values();
                }
                let year = (u / 0x1_0000) as u16;
                let month = ((u / 0x100) % 0x100) as u8;
                let day = (u % 0x100) as u8;
                Ok(Date { year, month, day })
            },
            Err(e) => Err(e),
        }
    }

    /// Writes `d` as one 32-bit field at `offset` and returns the offset
    /// immediately after the field.
    pub fn set_date(&mut self, offset: usize, d: Date) -> (r: Result<usize, PageError>)
        ensures
            match r {
                Ok(next) => offset + 4 <= old(self)@.len() && next == offset + 4 && final(self)@
                    == store(old(self)@, offset as int, be_bytes(pack_date(d), 4)),
                Err(e) => offset + 4 > old(self)@.len() && final(self)@ == old(self)@ && e
                    == PageError::BufferSizeExceeded,
            },
    {
        proof {
            lemma_pow256_values();
        }
        let u: u64 = (d.year as u64) * 0x1_0000 + (d.month as u64) * 0x100 + (d.day as u64);
        self.put_be(offset, 4, u)
    }
}

/// Relies on String::from_utf8: returns the string whose UTF-8 encoding is
/// the given bytes, and fails exactly when the bytes are not valid UTF-8.
#[verifier::external_body]
fn string_from_utf8(b: Vec<u8>) -> (r: Option<String>)
    ensures
        match r {
            Some(s) => encode_utf8(s@) == b@,
            None => !valid_utf8(b@),
        },
{
    String::from_utf8(b).ok()
}

} // verus!
