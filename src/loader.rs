//! Decoding of the labelled image dataset files: a big-endian header and
//! then raw bytes.
use vstd::prelude::*;

verus! {

/// Width and height of every image, in pixels.
pub const IMAGE_SIZE: usize = 28;

/// Pixels in one image.
pub const IMAGE_PIXELS: usize = 784;

/// Header tag of a labels file.
pub const LABELS_MNUM: u32 = 0x0000_0801;

/// Header tag of an images file.
pub const IMAGES_MNUM: u32 = 0x0000_0803;

/// Length of a labels file's header: tag and count.
pub const LABELS_HEADER: usize = 8;

/// Length of an images file's header: tag, count, width and height.
pub const IMAGES_HEADER: usize = 16;

/// A square greyscale image, row by row, one byte per pixel.
#[derive(Clone, Copy, Debug, PartialEq, Eq)]
pub struct Image {
    pub pixels: [u8; IMAGE_PIXELS],
}

/// Why a dataset file was refused.
#[derive(Clone, Copy, Debug, PartialEq, Eq)]
pub enum LoadError {
    /// The file ends inside its header.
    Truncated,
    /// The header tag is not the one for this kind of file.
    BadMagic { found: u32, expected: u32 },
    /// The images are not of the expected size.
    BadSize { width: u32, height: u32 },
    /// The pixel data does not divide into whole images.
    PartialImage { extra: usize },
}

/// The big-endian 32-bit number in the four bytes from `at` on.
pub open spec fn be_u32(b: Seq<u8>, at: int) -> int {
    b[at] * 0x100_0000 + b[at + 1] * 0x1_0000 + b[at + 2] * 0x100 + b[at + 3]
}

/// Reads the big-endian 32-bit number in the four bytes from `at` on.
pub fn read_u32_be(b: &Vec<u8>, at: usize) -> (r: u32)
    requires
        at + 4 <= b@.len(),
    ensures
        r as int == be_u32(b@, at as int),
{
    let n = b.len();
    assert(at + 4 <= n);
    (b[at] as u32) * 0x100_0000 + (b[at + 1] as u32) * 0x1_0000 + (b[at + 2] as u32) * 0x100 + (
    b[at + 3] as u32)
}

/// What a labels file is refused for, if anything.
pub open spec fn labels_error(b: Seq<u8>) -> Option<LoadError> {
    if b.len() < 4 {
        Some(LoadError::Truncated)
    } else if be_u32(b, 0) != LABELS_MNUM {
        Some(LoadError::BadMagic { found: be_u32(b, 0) as u32, expected: LABELS_MNUM })
    } else if b.len() < LABELS_HEADER {
        Some(LoadError::Truncated)
    } else {
        None
    }
}

/// What an images file is refused for, if anything.
pub open spec fn images_error(b: Seq<u8>) -> Option<LoadError> {
    if b.len() < 4 {
        Some(LoadError::Truncated)
    } else if be_u32(b, 0) != IMAGES_MNUM {
        Some(LoadError::BadMagic { found: be_u32(b, 0) as u32, expected: IMAGES_MNUM })
    } else if b.len() < IMAGES_HEADER {
        Some(LoadError::Truncated)
    } else if be_u32(b, 8) != IMAGE_SIZE || be_u32(b, 12) != IMAGE_SIZE {
        Some(LoadError::BadSize { width: be_u32(b, 8) as u32, height: be_u32(b, 12) as u32 })
    } else if (b.len() - IMAGES_HEADER) % (IMAGE_PIXELS as int) != 0 {
        Some(LoadError::PartialImage {
            extra: ((b.len() - IMAGES_HEADER) % (IMAGE_PIXELS as int)) as usize,
        })
    } else {
        None
    }
}

/// The labels of a labels file: every byte after the header. The count in
/// the header is not checked against them.
pub fn parse_labels(bytes: &Vec<u8>) -> (r: Result<Vec<u8>, LoadError>)
    ensures
        match r {
            Ok(v) => labels_error(bytes@) is None && v@ == bytes@.skip(LABELS_HEADER as int),
            Err(e) => labels_error(bytes@) == Some(e),
        },
{
    if bytes.len() < 4 {
        return Err(LoadError::Truncated);
    }
    let mnum = read_u32_be(bytes, 0);
    if mnum != LABELS_MNUM {
        return Err(LoadError::BadMagic { found: mnum, expected: LABELS_MNUM });
    }
    if bytes.len() < LABELS_HEADER {
        return Err(LoadError::Truncated);
    }
    let mut labels: Vec<u8> = Vec::new();
    let mut i: usize = LABELS_HEADER;
    while i < bytes.len()
        invariant
            LABELS_HEADER <= i <= bytes@.len(),
            labels@ == bytes@.subrange(LABELS_HEADER as int, i as int),
        decreases bytes@.len() - i,
    {
        labels.push(bytes[i]);
        i = i + 1;
        assert(labels@ =~= bytes@.subrange(LABELS_HEADER as int, i as int));
    }
    assert(labels@ =~= bytes@.skip(LABELS_HEADER as int));
    Ok(labels)
}

/// The pixels of the `k`-th image of an images file.
pub open spec fn image_bytes(b: Seq<u8>, k: int) -> Seq<u8> {
    b.subrange(
        IMAGES_HEADER + k * IMAGE_PIXELS,
        IMAGES_HEADER + (k + 1) * IMAGE_PIXELS,
    )
}

/// Copies one image out of `b`, starting at `at`.
fn image_at(b: &Vec<u8>, at: usize) -> (r: Image)
    requires
        at + IMAGE_PIXELS <= b@.len(),
    ensures
        r.pixels@ == b@.subrange(at as int, at + IMAGE_PIXELS),
{
    let n = b.len();
    let mut pixels = [0u8; IMAGE_PIXELS];
    let mut j: usize = 0;
    while j < IMAGE_PIXELS
        invariant
            j <= IMAGE_PIXELS,
            at + IMAGE_PIXELS <= b@.len(),
            n == b@.len(),
            pixels@.len() == IMAGE_PIXELS,
            forall|k: int| 0 <= k < j ==> #[trigger] pixels@[k] == b@[at + k],
        decreases IMAGE_PIXELS - j,
    {
        pixels[j] = b[at + j];
        j = j + 1;
    }
    assert(pixels@ =~= b@.subrange(at as int, at + IMAGE_PIXELS));
    Image { pixels }
}

/// The images of an images file, in order. The count in the header is not
/// checked against them.
pub fn parse_images(bytes: &Vec<u8>) -> (r: Result<Vec<Image>, LoadError>)
    ensures
        match r {
            Ok(v) => {
                &&& images_error(bytes@) is None
                &&& v@.len() * IMAGE_PIXELS == bytes@.len() - IMAGES_HEADER
                &&& forall|k: int|
                    0 <= k < v@.len() ==> (#[trigger] v@[k]).pixels@ == image_bytes(bytes@, k)
            },
            Err(e) => images_error(bytes@) == Some(e),
        },
{
    if bytes.len() < 4 {
        return Err(LoadError::Truncated);
    }
    let mnum = read_u32_be(bytes, 0);
    if mnum != IMAGES_MNUM {
        return Err(LoadError::BadMagic { found: mnum, expected: IMAGES_MNUM });
    }
    if bytes.len() < IMAGES_HEADER {
        return Err(LoadError::Truncated);
    }
    let width = read_u32_be(bytes, 8);
    let height = read_u32_be(bytes, 12);
    if width as usize != IMAGE_SIZE || height as usize != IMAGE_SIZE {
        return Err(LoadError::BadSize { width, height });
    }
    let body = bytes.len() - IMAGES_HEADER;
    if body % IMAGE_PIXELS != 0 {
        return Err(LoadError::PartialImage { extra: body % IMAGE_PIXELS });
    }
    let count = body / IMAGE_PIXELS;
    let mut images: Vec<Image> = Vec::new();
    let mut k: usize = 0;
    while k < count
        invariant
            k <= count,
            count * IMAGE_PIXELS == bytes@.len() - IMAGES_HEADER,
            body == bytes@.len() - IMAGES_HEADER,
            images@.len() == k,
            forall|m: int|
                0 <= m < k ==> (#[trigger] images@[m]).pixels@ == image_bytes(bytes@, m),
        decreases count - k,
    {
        assert(k * IMAGE_PIXELS + IMAGE_PIXELS <= body) by (nonlinear_arith)
            requires
                k + 1 <= count,
                count * IMAGE_PIXELS == body,
        ;
        let at = IMAGES_HEADER + k * IMAGE_PIXELS;
        images.push(image_at(bytes, at));
        k = k + 1;
    }
    Ok(images)
}

} // verus!
