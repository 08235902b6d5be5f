use vstd::prelude::*;

verus! {

/// The value of the four bytes at `at`, most significant first.
pub open spec fn be_u32(b: Seq<u8>, at: int) -> int {
    b[at] * 16777216 + b[at + 1] * 65536 + b[at + 2] * 256 + b[at + 3]
}

/// Width and height of an image from the first 24 bytes of its file: the two
/// big-endian 32-bit integers at offset 16. `None` where fewer than 24 bytes are given.
pub fn png_dimensions(header: &[u8]) -> (r: Option<(u32, u32)>)
    ensures
        match r {
            Some((w, h)) => header@.len() >= 24 && w == be_u32(header@, 16) && h == be_u32(header@, 20),
            None => header@.len() < 24,
        },
{
    if header.len() < 24 {
        return None;
    }
    let w = read_be_u32(header, 16);
    let h = read_be_u32(header, 20);
    Some((w, h))
}

fn read_be_u32(b: &[u8], at: usize) -> (r: u32)
    requires
        at + 4 <= b@.len(),
    ensures
        r == be_u32(b@, at as int),
{
    let b0 = b[at] as u32;
    let b1 = b[at + 1] as u32;
    let b2 = b[at + 2] as u32;
    let b3 = b[at + 3] as u32;
    b0 * 16777216 + b1 * 65536 + b2 * 256 + b3
}

/// How an archive entry is stored.
#[derive(Debug, Clone, Copy, PartialEq, Eq)]
pub enum Compression {
    Stored,
    Deflated,
}

/// Video files (extension `webm`) are stored as they are; everything else is deflated.
pub fn compression_for(extension: &String) -> (r: Compression)
    ensures
        r == (if extension@ == "webm"@ {
            Compression::Stored
        } else {
            Compression::Deflated
        }),
{
    if *extension == "webm".to_owned() {
        Compression::Stored
    } else {
        Compression::Deflated
    }
}

} // verus!
