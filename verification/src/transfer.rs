//! Writing out a received block of bytes in pieces of at most the buffer size.

use vstd::prelude::*;

verus! {

/// `segs` cuts `len` bytes, in order, into pieces of `buffer_size` bytes,
/// the last of which may be shorter.
pub open spec fn is_segmentation(segs: Seq<(usize, usize)>, len: usize, buffer_size: usize) -> bool {
    &&& len == 0 ==> segs.len() == 0
    &&& len > 0 ==> {
        &&& segs.len() > 0
        &&& segs[0].0 == 0
        &&& segs[segs.len() - 1].1 == len
    }
    &&& forall|i: int| 0 <= i < segs.len() - 1 ==> #[trigger] segs[i].1 == segs[i + 1].0
    &&& forall|i: int|
        0 <= i < segs.len() ==> #[trigger] segs[i].0 < segs[i].1 && segs[i].1 - segs[i].0
            <= buffer_size
    &&& forall|i: int| 0 <= i < segs.len() - 1 ==> #[trigger] segs[i].1 - segs[i].0 == buffer_size
}

/// The pieces, as start and end offsets, in which a block of `len` bytes is
/// written with a buffer of `buffer_size` bytes.
pub fn write_segments(len: usize, buffer_size: usize) -> (segs: Vec<(usize, usize)>)
    requires
        buffer_size > 0 || len == 0,
    ensures
        is_segmentation(segs@, len, buffer_size),
{
    let mut segs: Vec<(usize, usize)> = Vec::new();
    let mut offset: usize = 0;
    while offset < len
        invariant
            offset <= len,
            buffer_size > 0 || len == 0,
            offset == 0 <==> segs@.len() == 0,
            segs@.len() > 0 ==> segs@[0].0 == 0 && segs@[segs@.len() - 1].1 == offset,
            forall|i: int| 0 <= i < segs@.len() - 1 ==> #[trigger] segs@[i].1 == segs@[i + 1].0,
            forall|i: int|
                0 <= i < segs@.len() ==> #[trigger] segs@[i].0 < segs@[i].1 && segs@[i].1
                    - segs@[i].0 <= buffer_size,
            forall|i: int|
                0 <= i < segs@.len() - 1 ==> #[trigger] segs@[i].1 - segs@[i].0 == buffer_size,
            segs@.len() > 0 && offset < len ==> segs@[segs@.len() - 1].1 - segs@[segs@.len()
                - 1].0 == buffer_size,
        decreases len - offset,
    {
        let end: usize = if len - offset <= buffer_size {
            len
        } else {
            offset + buffer_size
        };
        segs.push((offset, end));
        offset = end;
    }
    segs
}

} // verus!
