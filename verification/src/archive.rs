//! Rows of the archive: encoded requests, compressed one by one.

use std::io::Write;
use vstd::prelude::*;
use snap::write::FrameEncoder;

verus! {

/// Some bytes in the Snappy frame format.
pub uninterp spec fn snappy_framed(data: Seq<u8>) -> Seq<u8>;

/// `snap::write::FrameEncoder` over a vector, given the bytes in one write and
/// then taken apart. What it wrote depends on the bytes alone.
#[verifier::external_body]
fn compress(data: &[u8]) -> (r: Vec<u8>)
    ensures
        r@ == snappy_framed(data@),
{
    let mut writer = FrameEncoder::new(Vec::new());
    writer.write_all(data).unwrap();
    writer.into_inner().unwrap()
}

/// The rows to write for some encoded requests, one for each and in their order.
pub fn archive_rows(encoded: &Vec<Vec<u8>>) -> (r: Vec<Vec<u8>>)
    ensures
        r@.len() == encoded@.len(),
        forall|i: int|
            0 <= i < r@.len() ==> (#[trigger] r@[i])@ == snappy_framed(encoded@[i]@),
{
    let mut r: Vec<Vec<u8>> = Vec::new();
    let mut i: usize = 0;
    while i < encoded.len()
        invariant
            i <= encoded@.len(),
            r@.len() == i,
            forall|j: int| 0 <= j < i ==> (#[trigger] r@[j])@ == snappy_framed(encoded@[j]@),
        decreases encoded@.len() - i,
    {
        r.push(compress(encoded[i].as_slice()));
        i += 1;
    }
    r
}

} // verus!
