//! Byte-index to codepoint-count translation for text buffers.

use vstd::prelude::*;

use crate::slice::Slice;
use crate::slice::aligned;
use crate::slice::count_to;
use crate::vec_like::TextBuf;

verus! {

/// Count of complete codepoints preceding the byte index `byte_index`,
/// which must lie on a codepoint boundary.  This converts a byte-granular
/// offset into the codepoint count that abstract-tier operations work with.
pub fn transform_char_index(s: &TextBuf, byte_index: usize) -> (r: usize)
    requires
        aligned(s.elems(), <TextBuf as Slice>::widths(), byte_index as int),
    ensures
        r == count_to(s.elems(), <TextBuf as Slice>::widths(), byte_index as int),
{
    s.transform_index(byte_index)
}

} // verus!
