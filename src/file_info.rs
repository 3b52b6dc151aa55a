use vstd::prelude::*;

verus! {

/// Bytes in one allocation block as counted by `stat`.
pub const BLOCK_BYTES: u64 = 512;

/// The attribute bit that marks a directory in a file's attribute word.
pub const FILE_ATTRIBUTE_DIRECTORY: u64 = 0x10;

/// What the metadata of a path says: a file with its size, or a directory,
/// each with the identifier of the volume it lies on.
#[derive(Debug, Clone, Copy, PartialEq, Eq, Structural)]
pub enum FileInfo {
    File { size: u64, volume_id: u64 },
    Directory { volume_id: u64 },
}

/// The bytes that `blocks` allocation blocks occupy, capped at `u64::MAX`.
pub open spec fn allocated_bytes(blocks: u64) -> int {
    if blocks * BLOCK_BYTES <= u64::MAX {
        blocks * BLOCK_BYTES
    } else {
        u64::MAX as int
    }
}

/// The size of a 64-bit quantity reported as two 32-bit words.
pub open spec fn joined_words(high: u32, low: u32) -> int {
    high * 0x1_0000_0000 + low
}

impl FileInfo {
    /// Classifies an entry from plain metadata: a directory keeps only its
    /// volume; a file's size is the allocated size of its blocks when
    /// `apparent` holds, else its logical length.
    pub fn from_metadata(is_dir: bool, len: u64, blocks: u64, volume_id: u64, apparent: bool) -> (r:
        FileInfo)
        ensures
            is_dir ==> r == (FileInfo::Directory { volume_id }),
            !is_dir && apparent ==> r == (FileInfo::File {
                size: allocated_bytes(blocks) as u64,
                volume_id,
            }),
            !is_dir && !apparent ==> r == (FileInfo::File { size: len, volume_id }),
    {
        if is_dir {
            FileInfo::Directory { volume_id }
        } else {
            let size = if apparent {
                allocated_size(blocks)
            } else {
                len
            };
            FileInfo::File { size, volume_id }
        }
    }

    /// The volume the entry lies on.
    pub fn volume_id(&self) -> (r: u64)
        ensures
            self matches FileInfo::File { volume_id, .. } ==> r == volume_id,
            self matches FileInfo::Directory { volume_id } ==> r == volume_id,
    {
        match self {
            FileInfo::File { volume_id, .. } => *volume_id,
            FileInfo::Directory { volume_id } => *volume_id,
        }
    }
}

/// Allocated bytes of a file of `blocks` blocks; saturates at `u64::MAX`.
pub fn allocated_size(blocks: u64) -> (r: u64)
    ensures
        r == allocated_bytes(blocks),
{
    if blocks <= u64::MAX / BLOCK_BYTES {
        blocks * BLOCK_BYTES
    } else {
        u64::MAX
    }
}

/// Joins the high and low words of a size reported in two halves.
pub fn join_size_words(high: u32, low: u32) -> (r: u64)
    ensures
        r == joined_words(high, low),
{
    let h: u64 = high as u64;
    let l: u64 = low as u64;
    assert((h << 32u64) | l == h * 0x1_0000_0000 + l) by (bit_vector)
        requires
            h < 0x1_0000_0000,
            l < 0x1_0000_0000,
    ;
    (h << 32u64) | l
}

/// Whether an attribute word marks a directory.
pub fn has_directory_attribute(attributes: u64) -> (r: bool)
    ensures
        r == (attributes & FILE_ATTRIBUTE_DIRECTORY != 0),
{
    attributes & FILE_ATTRIBUTE_DIRECTORY != 0
}

} // verus!
