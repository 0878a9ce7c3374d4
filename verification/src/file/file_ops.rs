//! The pure decisions behind block-granular file management: byte offsets of
//! blocks, block counts of files, the scratch-file naming convention, and the
//! zero-fill rule for reads past end-of-file. The file I/O that carries these
//! decisions out lives outside the library and hands plain values in and out.

use vstd::prelude::*;
use vstd::string::StrSliceExecFns;

use crate::file::page::Page;

verus! {

/// The number of blocks covering `size` bytes: `size / blocksize`, rounded up.
pub open spec fn ceil_div(size: int, blocksize: int) -> int {
    (size + blocksize - 1) / blocksize
}

/// Whether a file of this name is uncommitted scratch state from a previous
/// run, to be deleted when the manager starts: its name begins with `temp`.
pub open spec fn has_temp_prefix(s: Seq<char>) -> bool {
    s.len() >= 4 && s[0] == 't' && s[1] == 'e' && s[2] == 'm' && s[3] == 'p'
}

/// A block's worth of bytes as a read leaves them in a page: the bytes the
/// file returned, zero-filled up to the page length `n`.
pub open spec fn padded_block(data: Seq<u8>, n: nat) -> Seq<u8>
    recommends
        data.len() <= n,
{
    data + Seq::new((n - data.len()) as nat, |i: int| 0u8)
}

/// Decides whether a directory entry is a scratch file to be deleted when
/// the manager starts.
pub fn is_temp_name(name: &str) -> (r: bool)
    ensures
        r == has_temp_prefix(name@),
{
    if name.unicode_len() < 4 {
        return false;
    }
    name.get_char(0) == 't' && name.get_char(1) == 'e' && name.get_char(2) == 'm' && name.get_char(
        3,
    ) == 'p'
}

/// The byte offset where a block starts: `blknum * blocksize`. Fails exactly
/// when either count is negative; the product of two 31-bit values always
/// fits the 64-bit offset.
pub fn block_offset(blknum: i32, blocksize: i32) -> (r: Option<u64>)
    ensures
        match r {
            Some(o) => blknum >= 0 && blocksize >= 0 && o == blknum as int * blocksize as int,
            None => blknum < 0 || blocksize < 0,
        },
{
    if blknum < 0 || blocksize < 0 {
        return None;
    }
    proof {
        let a = blknum as int;
        let b = blocksize as int;
        assert(0 <= a * b < 0x4000_0000_0000_0000) by (nonlinear_arith)
            requires
                0 <= a < 0x8000_0000,
                0 <= b < 0x8000_0000,
        ;
    }
    Some((blknum as i64 * blocksize as i64) as u64)
}

/// The number of blocks a file of `byte_size` bytes holds: `byte_size`
/// divided by `blocksize`, rounded up, a partial final block counting whole.
/// Fails exactly when the block size is not positive or the count overflows
/// the 32-bit result.
pub fn blocks_in(byte_size: u64, blocksize: i32) -> (r: Option<i32>)
    ensures
        match r {
            Some(n) => blocksize > 0 && n == ceil_div(byte_size as int, blocksize as int),
            None => blocksize <= 0 || ceil_div(byte_size as int, blocksize as int) > i32::MAX,
        },
{
    if blocksize <= 0 {
        return None;
    }
    let bs = blocksize as u64;
    let q = byte_size / bs;
    let rem = byte_size % bs;
    proof {
        vstd::arithmetic::div_mod::lemma_fundamental_div_mod(byte_size as int, bs as int);
        assert(byte_size as int == bs as int * (q as int) + rem as int);
        assert((q as int + 1) * bs as int == q as int * bs as int + bs as int)
            by (nonlinear_arith);
        if rem == 0 {
            vstd::arithmetic::div_mod::lemma_fundamental_div_mod_converse(
                byte_size as int + bs as int - 1,
                bs as int,
                q as int,
                bs as int - 1,
            );
        } else {
            assert(2 * q as int <= byte_size as int) by (nonlinear_arith)
                requires
                    bs as int >= 2,
                    q as int >= 0,
                    rem as int >= 0,
                    byte_size as int == bs as int * q as int + rem as int;
            vstd::arithmetic::div_mod::lemma_fundamental_div_mod_converse(
                byte_size as int + bs as int - 1,
                bs as int,
                q as int + 1,
                rem as int - 1,
            );
        }
    }
    let n: u64 = if rem == 0 {
        q
    } else {
        q + 1
    };
    if n <= 0x7fff_ffff {
        Some(n as i32)
    } else {
        None
    }
}

/// The in-memory half of a block read: the bytes the file returned fill the
/// front of the page and the shortfall — a block lying at or past
/// end-of-file — is zero-filled. Fails, leaving the page untouched, when
/// more bytes arrived than the page holds.
pub fn fill_page(p: &mut Page, data: &[u8]) -> (r: bool)
    ensures
        r == (data@.len() <= old(p)@.len()),
        r ==> final(p)@ == padded_block(data@, old(p)@.len()),
        !r ==> final(p)@ == old(p)@,
{
    let n = p.bb.len();
    if data.len() > n {
        return false;
    }
    let mut i: usize = 0;
    while i < n
        invariant
            0 <= i <= n,
            n == p.bb@.len(),
            n == old(p)@.len(),
            data@.len() <= n,
            forall|j: int| 0 <= j < i && j < data@.len() ==> p.bb@[j] == data@[j],
            forall|j: int| 0 <= j < i && data@.len() <= j ==> p.bb@[j] == 0u8,
        decreases n - i,
    {
        if i < data.len() {
            p.bb.set(i, data[i]);
        } else {
            p.bb.set(i, 0);
        }
        i += 1;
    }
    proof {
        assert(p.bb@ =~= padded_block(data@, old(p)@.len()));
    }
    true
}

/// Law: extending a file of `n` full blocks by one block of `bs` bytes makes
/// the block count `n + 1`. This is the arithmetic behind both `append` —
/// the returned block number `n` is the file's length before the call, and
/// the length afterwards is `n + 1` — and the zero-extending read, which
/// materializes block `n` the same way.
pub proof fn lemma_append_adds_block(n: int, bs: int)
    requires
        bs > 0,
        n >= 0,
    ensures
        ceil_div(n * bs + bs, bs) == n + 1,
{
    assert((n + 1) * bs == n * bs + bs) by (nonlinear_arith);
    vstd::arithmetic::div_mod::lemma_fundamental_div_mod_converse(
        n * bs + bs + bs - 1,
        bs,
        n + 1,
        bs - 1,
    );
}

} // verus!
