//! An immutable value naming one fixed-size block inside one named file.

use vstd::prelude::*;

verus! {

/// Identifies one block of a logical file. Block `i` occupies the byte range
/// `[i * blocksize, (i + 1) * blocksize)` of the file named here.
#[derive(Debug, Clone, Hash, PartialOrd, Ord)]
pub struct BlockId {
    filename: String,
    blknum: i32,
}

impl BlockId {
    /// The name of the file this block belongs to.
    pub closed spec fn spec_file_name(&self) -> Seq<char> {
        self.filename@
    }

    /// The block's index within its file.
    pub closed spec fn spec_number(&self) -> i32 {
        self.blknum
    }

    /// Builds the identifier; block numbers are expected to be nonnegative
    /// by the callers that allocate them, but no validation is done here.
    pub fn new(filename: &str, blknum: i32) -> (r: BlockId)
        ensures
            r.spec_file_name() == filename@,
            r.spec_number() == blknum,
    {
        BlockId { filename: filename.to_owned(), blknum }
    }

    /// The name of the file this block belongs to, as a fresh copy.
    pub fn file_name(&self) -> (r: String)
        ensures
            r@ == self.spec_file_name(),
    {
        self.filename.clone()
    }

    /// The block's index within its file.
    pub fn number(&self) -> (r: i32)
        ensures
            r == self.spec_number(),
    {
        self.blknum
    }
}

impl PartialEq for BlockId {
    fn eq(&self, other: &BlockId) -> (r: bool) {
        self.blknum == other.blknum && self.filename == other.filename
    }
}

impl vstd::std_specs::cmp::PartialEqSpecImpl for BlockId {
    open spec fn obeys_eq_spec() -> bool {
        true
    }

    open spec fn eq_spec(&self, other: &BlockId) -> bool {
        self.spec_file_name() == other.spec_file_name() && self.spec_number()
            == other.spec_number()
    }
}

impl Eq for BlockId {}

impl Default for BlockId {
    /// The identifier of block 0 of the file with the empty name.
    fn default() -> (r: BlockId)
        ensures
            r.spec_file_name() == Seq::<char>::empty(),
            r.spec_number() == 0,
    {
        BlockId { filename: String::new(), blknum: 0 }
    }
}

} // verus!
