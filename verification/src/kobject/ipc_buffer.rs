//! Kernel-resident IPC buffer: its byte layout and the rules by which the
//! kernel reads and writes it.
//!
//! Layout: the tag (8 bytes) at 0, four cap ids (4 bytes each) at 8, the
//! data (256 bytes) at 24, the badge (8 bytes) at 280. The tag, each cap id
//! and the badge are accessed whole; the data in any sub-range.

use vstd::prelude::*;
use super::errors::IpcError;

verus! {

/// Offset of the tag.
pub const TAG_OFFSET: usize = 0;
/// Size of the tag.
pub const TAG_SIZE: usize = 8;
/// Offset of the cap ids.
pub const CAPS_OFFSET: usize = 8;
/// Size of one cap id.
pub const CAP_SIZE: usize = 4;
/// Number of cap ids.
pub const IPC_BUFFER_MAX_CAPS: usize = 4;
/// Offset of the data.
pub const DATA_OFFSET: usize = 24;
/// Size of the data.
pub const IPC_BUFFER_DATA_MAX: usize = 256;
/// Offset of the badge.
pub const BADGE_OFFSET: usize = 280;
/// Size of the badge.
pub const BADGE_SIZE: usize = 8;
/// Size of the whole buffer.
pub const BUFFER_LEN: usize = 288;

/// Whether the kernel may access `len` bytes at `off`: inside the buffer,
/// and a whole field unless inside the data.
pub open spec fn access_ok(off: int, len: int) -> bool {
    &&& off + len <= BUFFER_LEN
    &&& if off >= BADGE_OFFSET {
        off == BADGE_OFFSET && len == BADGE_SIZE
    } else if off >= DATA_OFFSET {
        off + len <= BADGE_OFFSET
    } else if off >= CAPS_OFFSET {
        (off - CAPS_OFFSET) % (CAP_SIZE as int) == 0 && len == CAP_SIZE
    } else {
        off == TAG_OFFSET && len == TAG_SIZE
    }
}

/// A kernel-resident IPC buffer, as its bytes.
pub struct IpcBuffer {
    bytes: [u8; 288],
}

impl IpcBuffer {
    pub closed spec fn view(self) -> Seq<u8> {
        self.bytes@
    }

    /// A buffer always holds the whole layout.
    pub proof fn lemma_len(&self)
        ensures
            self@.len() == BUFFER_LEN,
    {
    }

    /// A zeroed buffer.
    pub fn new() -> (r: Self)
        ensures
            r@ == Seq::new(BUFFER_LEN as nat, |i: int| 0u8),
    {
        let r = IpcBuffer { bytes: [0u8; 288] };
        proof {
            assert(r@ =~= Seq::new(BUFFER_LEN as nat, |i: int| 0u8));
        }
        r
    }

    /// Reads `len` bytes at `off`; `BufferTooSmall` where the access breaks
    /// the layout's rules.
    pub fn kernel_read(&self, off: usize, len: usize) -> (r: Result<Vec<u8>, IpcError>)
        ensures
            r is Ok <==> access_ok(off as int, len as int),
            r matches Ok(v) ==> v@ == self@.subrange(off as int, off + len),
            r matches Err(e) ==> e == IpcError::BufferTooSmall,
    {
        if !Self::check_access(off, len) {
            return Err(IpcError::BufferTooSmall);
        }
        let mut out: Vec<u8> = Vec::new();
        let mut k: usize = 0;
        while k < len
            invariant
                off + len <= self.bytes@.len(),
                off + len <= BUFFER_LEN,
                k <= len,
                out@ == self@.subrange(off as int, off + k),
            decreases len - k,
        {
            out.push(self.bytes[off + k]);
            proof {
                assert(out@ =~= self@.subrange(off as int, off + k + 1));
            }
            k = k + 1;
        }
        Ok(out)
    }

    /// Writes `src` at `off`; `BufferTooSmall`, with the buffer unchanged,
    /// where the access breaks the layout's rules.
    pub fn kernel_write(&mut self, off: usize, src: &[u8]) -> (r: Result<(), IpcError>)
        ensures
            r is Ok <==> access_ok(off as int, src@.len() as int),
            r is Ok ==> final(self)@ == old(self)@.subrange(0, off as int) + src@ + old(
                self,
            )@.subrange(off + src@.len(), BUFFER_LEN as int),
            r matches Err(e) ==> e == IpcError::BufferTooSmall && final(self)@ == old(self)@,
    {
        let len = src.len();
        if !Self::check_access(off, len) {
            return Err(IpcError::BufferTooSmall);
        }
        let ghost before = self@;
        let mut k: usize = 0;
        while k < len
            invariant
                off + len <= BUFFER_LEN,
                len == src@.len(),
                k <= len,
                before.len() == BUFFER_LEN,
                self.bytes@.len() == BUFFER_LEN,
                forall|i: int|
                    0 <= i < BUFFER_LEN ==> #[trigger] self.bytes@[i] == if off <= i < off + k {
                        src@[i - off]
                    } else {
                        before[i]
                    },
            decreases len - k,
        {
            let b = src[k];
            self.bytes[off + k] = b;
            k = k + 1;
        }
        proof {
            assert(self@ =~= before.subrange(0, off as int) + src@ + before.subrange(
                off + len,
                BUFFER_LEN as int,
            ));
        }
        Ok(())
    }

    /// Whether `len` bytes at `off` may be accessed.
    fn check_access(off: usize, len: usize) -> (r: bool)
        ensures
            r == access_ok(off as int, len as int),
    {
        let end = match off.checked_add(len) {
            Some(e) => e,
            None => {
                return false;
            },
        };
        if end > BUFFER_LEN {
            return false;
        }
        if off >= BADGE_OFFSET {
            off == BADGE_OFFSET && len == BADGE_SIZE
        } else if off >= DATA_OFFSET {
            off - DATA_OFFSET + len <= IPC_BUFFER_DATA_MAX
        } else if off >= CAPS_OFFSET {
            (off - CAPS_OFFSET) % CAP_SIZE == 0 && len == CAP_SIZE
        } else {
            off == TAG_OFFSET && len == TAG_SIZE
        }
    }
}

/// What a read gives back of a write: after a successful write of `src` at
/// `off`, the bytes at `off` are `src`.
pub proof fn lemma_read_after_write(before: Seq<u8>, off: int, src: Seq<u8>)
    requires
        before.len() == BUFFER_LEN,
        access_ok(off, src.len() as int),
        0 <= off,
    ensures
        (before.subrange(0, off) + src + before.subrange(off + src.len(), BUFFER_LEN as int)).subrange(
            off,
            off + src.len(),
        ) == src,
{
    let after = before.subrange(0, off) + src + before.subrange(off + src.len(), BUFFER_LEN as int);
    assert(after.subrange(off, off + src.len()) =~= src);
}

} // verus!
