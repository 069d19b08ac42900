//! Recognising a blob as a picture.
//!
//! Both the extension and the signature have to agree; see [`image_format`].

use vstd::prelude::*;
use crate::text;
use crate::text::{lower_extension, text_eq};

verus! {

/// An image format the blob view shows as a picture.
#[derive(PartialEq, Eq, Structural, Clone, Copy, Debug)]
pub enum ImageFormat {
    Png,
    Jpeg,
    Gif,
    Svg,
}

/// The MIME type of a format.
pub open spec fn mime_of(format: ImageFormat) -> Seq<char> {
    match format {
        ImageFormat::Png => "image/png"@,
        ImageFormat::Jpeg => "image/jpeg"@,
        ImageFormat::Gif => "image/gif"@,
        ImageFormat::Svg => "image/svg+xml"@,
    }
}

/// The raster format that a file name's extension claims.
pub open spec fn claimed_format(name: Seq<char>) -> Option<ImageFormat> {
    match text::extension(name) {
        None => None,
        Some(ext) => {
            let ext = text::lower(ext);
            if ext == "png"@ {
                Some(ImageFormat::Png)
            } else if ext == "jpg"@ || ext == "jpeg"@ {
                Some(ImageFormat::Jpeg)
            } else if ext == "gif"@ {
                Some(ImageFormat::Gif)
            } else {
                None
            }
        },
    }
}

/// The bytes that a PNG begins with.
pub open spec fn png_magic() -> Seq<u8> {
    seq![0x89, 0x50, 0x4e, 0x47, 0x0d, 0x0a, 0x1a, 0x0a]
}

/// The bytes that a JPEG begins with: SOI, and the first marker's 0xFF.
pub open spec fn jpeg_magic() -> Seq<u8> {
    seq![0xff, 0xd8, 0xff]
}

/// The bytes that the two versions of GIF begin with: `GIF87a` and `GIF89a`.
pub open spec fn gif_magic(version: u8) -> Seq<u8> {
    seq![0x47, 0x49, 0x46, 0x38, version, 0x61]
}

/// Whether `data` opens with the signature of `format`.
pub open spec fn has_magic(format: ImageFormat, data: Seq<u8>) -> bool {
    match format {
        ImageFormat::Png => png_magic().is_prefix_of(data),
        ImageFormat::Jpeg => jpeg_magic().is_prefix_of(data),
        ImageFormat::Gif => gif_magic(0x37).is_prefix_of(data) || gif_magic(0x39).is_prefix_of(
            data,
        ),
        ImageFormat::Svg => false,
    }
}

/// The raster format to draw a file as unasked.
pub open spec fn drawn_format(name: Seq<char>, data: Seq<u8>) -> Option<ImageFormat> {
    match claimed_format(name) {
        Some(format) => if has_magic(format, data) {
            Some(format)
        } else {
            None
        },
        None => None,
    }
}

/// Whether `data` begins with `prefix`.
pub fn starts_with_bytes(data: &[u8], prefix: &[u8]) -> (r: bool)
    ensures
        r == prefix@.is_prefix_of(data@),
{
    let n: usize = prefix.len();
    if data.len() < n {
        return false;
    }
    let mut i: usize = 0;
    while i < n
        invariant
            n == prefix@.len(),
            n <= data@.len(),
            i <= n,
            forall|j: int| 0 <= j < i ==> data@[j] == prefix@[j],
        decreases n - i,
    {
        if data[i] != prefix[i] {
            assert(data@.subrange(0, n as int)[i as int] != prefix@[i as int]);
            return false;
        }
        i = i + 1;
    }
    assert(data@.subrange(0, n as int) =~= prefix@);
    true
}

impl ImageFormat {
    /// The MIME type given to the object URL. This, not the file name, is what
    /// the browser decodes by.
    pub fn mime(self) -> (r: &'static str)
        ensures
            r@ == mime_of(self),
    {
        match self {
            ImageFormat::Png => "image/png",
            ImageFormat::Jpeg => "image/jpeg",
            ImageFormat::Gif => "image/gif",
            ImageFormat::Svg => "image/svg+xml",
        }
    }

    /// The format `filename`'s extension claims (but not SVG).
    pub fn from_extension(filename: &str) -> (r: Option<Self>)
        ensures
            r == claimed_format(filename@),
    {
        match lower_extension(filename) {
            None => None,
            Some(ext) => {
                let ext = ext.as_str();
                if text_eq(ext, "png") {
                    Some(ImageFormat::Png)
                } else if text_eq(ext, "jpg") || text_eq(ext, "jpeg") {
                    Some(ImageFormat::Jpeg)
                } else if text_eq(ext, "gif") {
                    Some(ImageFormat::Gif)
                } else {
                    None
                }
            },
        }
    }

    /// Whether `data` opens with this format's signature. Only the leading
    /// bytes are examined. An SVG has no fixed opening bytes to be told apart
    /// by.
    pub fn matches_magic(self, data: &[u8]) -> (r: bool)
        ensures
            r == has_magic(self, data@),
    {
        match self {
            ImageFormat::Png => {
                let magic: [u8; 8] = [0x89, 0x50, 0x4e, 0x47, 0x0d, 0x0a, 0x1a, 0x0a];
                assert(magic@ =~= png_magic());
                starts_with_bytes(data, &magic)
            },
            ImageFormat::Jpeg => {
                let magic: [u8; 3] = [0xff, 0xd8, 0xff];
                assert(magic@ =~= jpeg_magic());
                starts_with_bytes(data, &magic)
            },
            ImageFormat::Gif => {
                let older: [u8; 6] = [0x47, 0x49, 0x46, 0x38, 0x37, 0x61];
                let newer: [u8; 6] = [0x47, 0x49, 0x46, 0x38, 0x39, 0x61];
                assert(older@ =~= gif_magic(0x37));
                assert(newer@ =~= gif_magic(0x39));
                starts_with_bytes(data, &older) || starts_with_bytes(data, &newer)
            },
            ImageFormat::Svg => false,
        }
    }
}

/// The raster format to draw `filename` as unasked, or `None` to fall through
/// to the normal text/binary handling.
///
/// Both the extension and the signature have to agree: a `.png` holding
/// something else is reported as binary rather than handed to the image
/// decoder, and a file that happens to start with a PNG signature is not
/// promoted out of the text view on the strength of its first eight bytes.
pub fn image_format(filename: &str, data: &[u8]) -> (r: Option<ImageFormat>)
    ensures
        r == drawn_format(filename@, data@),
{
    match ImageFormat::from_extension(filename) {
        Some(format) => if format.matches_magic(data) {
            Some(format)
        } else {
            None
        },
        None => None,
    }
}

/// A file is drawn where its name's ending and its first bytes name the same
/// format, and only there: whatever stands before the ending, in letters of
/// either size, and whatever follows those bytes.
pub proof fn endings_and_first_bytes_agree_on_a_format(
    stem: Seq<char>,
    ext: Seq<char>,
    rest: Seq<u8>,
    data: Seq<u8>,
)
    requires
        !ext.contains('.'),
    ensures
        ({
            let name = stem + seq!['.'] + ext;
            let small = text::lower(ext);
            let png = seq![137u8, 80, 78, 71, 13, 10, 26, 10];
            let jpeg = seq![255u8, 216, 255];
            let gif87 = seq![71u8, 73, 70, 56, 55, 97];
            let gif89 = seq![71u8, 73, 70, 56, 57, 97];
            &&& small == seq!['p', 'n', 'g'] ==> {
                &&& drawn_format(name, png + rest) == Some(ImageFormat::Png)
                &&& !png.is_prefix_of(data) ==> drawn_format(name, data) is None
            }
            &&& small == seq!['j', 'p', 'g'] || small == seq!['j', 'p', 'e', 'g'] ==> {
                &&& drawn_format(name, jpeg + rest) == Some(ImageFormat::Jpeg)
                &&& !jpeg.is_prefix_of(data) ==> drawn_format(name, data) is None
            }
            &&& small == seq!['g', 'i', 'f'] ==> {
                &&& drawn_format(name, gif87 + rest) == Some(ImageFormat::Gif)
                &&& drawn_format(name, gif89 + rest) == Some(ImageFormat::Gif)
                &&& !gif87.is_prefix_of(data) && !gif89.is_prefix_of(data) ==> drawn_format(
                    name,
                    data,
                ) is None
            }
            &&& small != seq!['p', 'n', 'g'] && small != seq!['j', 'p', 'g'] && small != seq![
                'j',
                'p',
                'e',
                'g',
            ] && small != seq!['g', 'i', 'f'] ==> claimed_format(name) is None && drawn_format(
                name,
                data,
            ) is None
        }),
        drawn_format(ext, data) is None,
        claimed_format(ext) is None,
{
    text::extensions_stand_behind_the_last_dot(stem, ext);
    reveal_strlit("png");
    reveal_strlit("jpg");
    reveal_strlit("jpeg");
    reveal_strlit("gif");
    assert("png"@ =~= seq!['p', 'n', 'g']);
    assert("jpg"@ =~= seq!['j', 'p', 'g']);
    assert("jpeg"@ =~= seq!['j', 'p', 'e', 'g']);
    assert("gif"@ =~= seq!['g', 'i', 'f']);
    assert("png"@[0] == 'p' && "jpg"@[0] == 'j' && "gif"@[0] == 'g' && "jpeg"@[0] == 'j');
    let png = seq![137u8, 80, 78, 71, 13, 10, 26, 10];
    let jpeg = seq![255u8, 216, 255];
    let gif87 = seq![71u8, 73, 70, 56, 55, 97];
    let gif89 = seq![71u8, 73, 70, 56, 57, 97];
    assert(png =~= png_magic());
    assert(jpeg =~= jpeg_magic());
    assert(gif87 =~= gif_magic(0x37));
    assert(gif89 =~= gif_magic(0x39));
    assert((png + rest).subrange(0, 8) =~= png);
    assert((jpeg + rest).subrange(0, 3) =~= jpeg);
    assert((gif87 + rest).subrange(0, 6) =~= gif87);
    assert((gif89 + rest).subrange(0, 6) =~= gif89);
}

/// Each format is served as an image, under its own name.
pub proof fn formats_are_served_under_their_names(format: ImageFormat)
    ensures
        mime_of(format) == seq!['i', 'm', 'a', 'g', 'e', '/'] + (match format {
            ImageFormat::Png => seq!['p', 'n', 'g'],
            ImageFormat::Jpeg => seq!['j', 'p', 'e', 'g'],
            ImageFormat::Gif => seq!['g', 'i', 'f'],
            ImageFormat::Svg => seq!['s', 'v', 'g', '+', 'x', 'm', 'l'],
        }),
{
    reveal_strlit("image/png");
    reveal_strlit("image/jpeg");
    reveal_strlit("image/gif");
    reveal_strlit("image/svg+xml");
    let image = seq!['i', 'm', 'a', 'g', 'e', '/'];
    assert("image/png"@ =~= image + seq!['p', 'n', 'g']);
    assert("image/jpeg"@ =~= image + seq!['j', 'p', 'e', 'g']);
    assert("image/gif"@ =~= image + seq!['g', 'i', 'f']);
    assert("image/svg+xml"@ =~= image + seq!['s', 'v', 'g', '+', 'x', 'm', 'l']);
}

/// Drawings are told by their ending alone: no first bytes are a drawing's.
pub proof fn drawings_have_no_first_bytes(data: Seq<u8>)
    ensures
        !has_magic(ImageFormat::Svg, data),
{
}

} // verus!
