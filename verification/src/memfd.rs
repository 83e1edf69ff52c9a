//! Bodies in anonymous memory files: which are worth one, and how it is named.
use vstd::prelude::*;
use vstd::utf8;

verus! {

/// Smaller bodies stay where they are: making the file costs more than copying.
pub const MIN_MEMFD_THRESHOLD: usize = 65_536;

/// Whether a body of that size is worth a memory file.
pub fn worth_a_file(len: usize) -> (r: bool)
    ensures
        r == (len >= MIN_MEMFD_THRESHOLD),
{
    len >= MIN_MEMFD_THRESHOLD
}

/// A label as the kernel takes it: at most 63 bytes, then zeros.
pub open spec fn label_bytes(label: Seq<u8>) -> Seq<u8> {
    Seq::new(
        64,
        |i: int|
            if i < label.len() && i < 63 {
                label[i]
            } else {
                0u8
            },
    )
}

/// Makes a label ready for the kernel. It is cut where it is too long.
pub fn label_buf(label: &str) -> (r: [u8; 64])
    ensures
        r@ == label_bytes(utf8::encode_utf8(label@)),
        r@[63] == 0,
{
    let bytes: &[u8] = label.as_bytes();
    let mut buf = [0u8; 64];
    let mut i: usize = 0;
    while i < 63 && i < bytes.len()
        invariant
            i <= 63,
            i <= bytes@.len(),
            forall|j: int| 0 <= j < i ==> #[trigger] buf@[j] == bytes@[j],
            forall|j: int| i <= j < 64 ==> #[trigger] buf@[j] == 0,
        decreases 63 - i,
    {
        buf[i] = bytes[i];
        i += 1;
    }
    assert(buf@ =~= label_bytes(bytes@));
    buf
}

} // verus!
