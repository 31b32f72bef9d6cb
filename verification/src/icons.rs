//! Icons: the hash that tells whether an icon file changed since its last
//! upload, and the PNG bytes uploaded for it.
use vstd::prelude::*;
use crate::codegen::{file_stem, file_stem_of};
use crate::text::{chars_of, chars_of_string, push_str, string_from_chars, to_owned_string};

verus! {

// ---------------------------------------------------------------------------
// Hashing
// ---------------------------------------------------------------------------
/// What `blake3::hash(bytes).to_hex()` spells for these bytes.
pub uninterp spec fn blake3_hex_of(bytes: Seq<u8>) -> Seq<char>;

pub open spec fn is_lower_hex(c: char) -> bool {
    ('0' <= c && c <= '9') || ('a' <= c && c <= 'f')
}

/// `blake3::hash` of the bytes, in the lowercase hexadecimal of
/// `Hash::to_hex`: a function of the bytes alone, 64 characters from
/// `0-9a-f` (32 bytes, two digits each, from the table in `to_hex`).
#[verifier::external_body]
fn blake3_hex(bytes: &Vec<u8>) -> (r: String)
    ensures
        r@ == blake3_hex_of(bytes@),
        r@.len() == 64,
        forall|i: int| 0 <= i < r@.len() ==> is_lower_hex(#[trigger] r@[i]),
{
    blake3::hash(bytes.as_slice()).to_hex().to_string()
}

/// The hash recorded for an icon file: BLAKE3 of its raw bytes in hex, or
/// none when the file could not be read.
pub fn hash_icon_file(contents: &Option<Vec<u8>>) -> (r: Option<String>)
    ensures
        match contents {
            Some(b) => r matches Some(h) && h@ == blake3_hex_of(b@) && h@.len() == 64 && forall|i: int|
                0 <= i < h@.len() ==> is_lower_hex(#[trigger] h@[i]),
            None => r is None,
        },
{
    match contents {
        Some(b) => Some(blake3_hex(b)),
        None => None,
    }
}

// ---------------------------------------------------------------------------
// Upload bytes
// ---------------------------------------------------------------------------
/// Roblox rejects icons larger than this in either dimension.
pub const MAX_ICON_DIM: u32 = 512;

/// The bound a too large icon is resized to.
pub const RESIZE_TARGET_DIM: u32 = 256;

pub open spec fn needs_resize(width: u32, height: u32) -> bool {
    width > MAX_ICON_DIM || height > MAX_ICON_DIM
}

/// The file name an icon is uploaded under: the file stem of its path
/// (`icon` when there is none), then `.png`.
pub open spec fn icon_file_name(path: Seq<char>) -> Seq<char> {
    let stem = match file_stem_of(path) {
        Some(s) => s,
        None => "icon"@,
    };
    stem + ".png"@
}

/// Why an icon could not be prepared, with the text of the underlying
/// error.
#[derive(Debug)]
pub enum IconError {
    Format(String),
    Decode(String),
    Encode(String),
}

/// The message of an icon error for the icon at `path`.
pub open spec fn icon_error_text(path: Seq<char>, e: IconErrorV) -> Seq<char> {
    match e {
        IconErrorV::Format(m) => "guess icon format '"@ + path + "': "@ + m,
        IconErrorV::Decode(m) => "decode icon '"@ + path + "': "@ + m,
        IconErrorV::Encode(m) => "encode icon '"@ + path + "' as png: "@ + m,
    }
}

pub enum IconErrorV {
    Format(Seq<char>),
    Decode(Seq<char>),
    Encode(Seq<char>),
}

impl View for IconError {
    type V = IconErrorV;

    open spec fn view(&self) -> IconErrorV {
        match self {
            IconError::Format(m) => IconErrorV::Format(m@),
            IconError::Decode(m) => IconErrorV::Decode(m@),
            IconError::Encode(m) => IconErrorV::Encode(m@),
        }
    }
}

#[verifier::external_type_specification]
#[verifier::external_body]
pub struct ExDynamicImage(image::DynamicImage);

/// Whether `image` guesses a format for the bytes and decodes them (with
/// its default limits), and the width and height of the decoded image.
pub uninterp spec fn decoded_dims(raw: Seq<u8>) -> Option<(u32, u32)>;

/// The width and height of an image.
pub uninterp spec fn image_dims(img: image::DynamicImage) -> (u32, u32);

/// The width and height in the header of a PNG file: the first chunk
/// (`IHDR`, after the 8-byte signature and the chunk's length and type)
/// starts with the width, then the height, as big-endian 32-bit numbers.
pub open spec fn png_size(b: Seq<u8>) -> Option<(u32, u32)> {
    if b.len() >= 24 {
        Some((be_u32(b, 16), be_u32(b, 20)))
    } else {
        None
    }
}

pub open spec fn be_u32(b: Seq<u8>, i: int) -> u32 {
    (b[i] * 0x100_0000 + b[i + 1] * 0x1_0000 + b[i + 2] * 0x100 + b[i + 3]) as u32
}

/// `image::ImageReader::new` over the bytes, `with_guessed_format`, then
/// `decode`: it succeeds exactly when the bytes decode, and the image has
/// the decoded size. The failure of the format guess and of the decoding
/// are told apart, each carrying the error's text. The decoders report
/// malformed data as an `ImageError`; no input is known on which they
/// panic, and none is excluded here.
#[verifier::external_body]
fn decode_image(raw: &Vec<u8>) -> (r: Result<image::DynamicImage, IconError>)
    ensures
        r is Ok <==> decoded_dims(raw@) is Some,
        r matches Ok(img) ==> decoded_dims(raw@) == Some(image_dims(img)),
        r matches Err(e) ==> (e is Format || e is Decode),
{
    match image::ImageReader::new(std::io::Cursor::new(raw.as_slice())).with_guessed_format() {
        Err(e) => Err(IconError::Format(e.to_string())),
        Ok(reader) => match reader.decode() {
            Ok(img) => Ok(img),
            Err(e) => Err(IconError::Decode(e.to_string())),
        },
    }
}

/// `DynamicImage::width`.
#[verifier::external_body]
fn image_width(img: &image::DynamicImage) -> (r: u32)
    ensures
        r == image_dims(*img).0,
{
    img.width()
}

/// `DynamicImage::height`.
#[verifier::external_body]
fn image_height(img: &image::DynamicImage) -> (r: u32)
    ensures
        r == image_dims(*img).1,
{
    img.height()
}

/// `DynamicImage::resize_exact` with the Lanczos3 filter: the image
/// scaled to exactly `width` by `height` (`imageops::resize` returns a
/// buffer of the new size, also for an empty source). Nothing is stated
/// of the pixels.
#[verifier::external_body]
fn resize_exact_lanczos3(img: &image::DynamicImage, width: u32, height: u32) -> (r: image::DynamicImage)
    requires
        width > 0,
        height > 0,
    ensures
        image_dims(r) == (width, height),
{
    img.resize_exact(width, height, image::imageops::FilterType::Lanczos3)
}

/// The image converted to 8-bit RGBA (`to_rgba8`, which keeps its size)
/// and written as PNG (`write_to` with `ImageFormat::Png`); the encoder's
/// error text when that fails. The PNG encoder refuses only a zero width
/// or height (`png::Writer::init`; an RGBA8 buffer goes to it unchanged),
/// and writing into a `Vec` cannot fail, so an image of positive size
/// encodes. The PNG's header gives the image's size; nothing else is
/// stated of the bytes.
#[verifier::external_body]
fn encode_rgba_png(img: &image::DynamicImage) -> (r: Result<Vec<u8>, String>)
    ensures
        image_dims(*img).0 > 0 && image_dims(*img).1 > 0 ==> r is Ok,
        r matches Ok(b) ==> png_size(b@) == Some(image_dims(*img)),
{
    let rgba = image::DynamicImage::ImageRgba8(img.to_rgba8());
    let mut buf: Vec<u8> = Vec::new();
    match rgba.write_to(&mut std::io::Cursor::new(&mut buf), image::ImageFormat::Png) {
        Ok(()) => Ok(buf),
        Err(e) => Err(e.to_string()),
    }
}

/// An icon ready for upload.
#[derive(Debug)]
pub struct PreparedIcon {
    pub bytes: Vec<u8>,
    pub file_name: String,
    pub mime: String,
    /// The size of the image as decoded.
    pub width: u32,
    pub height: u32,
    /// Whether it was resized to `RESIZE_TARGET_DIM` square.
    pub resized: bool,
}

/// The size of the uploaded image: `RESIZE_TARGET_DIM` square when the
/// decoded image is larger than `MAX_ICON_DIM` in either dimension, else
/// the decoded size.
pub open spec fn upload_dims(width: u32, height: u32) -> (u32, u32) {
    if needs_resize(width, height) {
        (RESIZE_TARGET_DIM, RESIZE_TARGET_DIM)
    } else {
        (width, height)
    }
}

/// The bytes uploaded for the icon file at `icon_path` whose contents are
/// `raw`: decoded, resized to 256x256 when larger than `MAX_ICON_DIM` in
/// either dimension, re-encoded as an RGBA PNG named after the file's
/// stem. Bytes that do not decode give the format or decode error; bytes
/// that decode to an image of positive size give the icon; an empty image
/// gives the encoder's error.
pub fn prepare_icon_bytes(icon_path: &str, raw: &Vec<u8>) -> (r: Result<PreparedIcon, String>)
    ensures
        decoded_dims(raw@) matches Some((w, h)) && w > 0 && h > 0 ==> r is Ok,
        match r {
            Ok(p) => {
                &&& decoded_dims(raw@) == Some((p.width, p.height))
                &&& p.file_name@ == icon_file_name(icon_path@)
                &&& p.mime@ == "image/png"@
                &&& p.resized == needs_resize(p.width, p.height)
                &&& png_size(p.bytes@) == Some(upload_dims(p.width, p.height))
            },
            Err(msg) => match decoded_dims(raw@) {
                None => exists|m: Seq<char>|
                    msg@ == icon_error_text(icon_path@, IconErrorV::Format(m)) || msg@ == icon_error_text(
                        icon_path@,
                        IconErrorV::Decode(m),
                    ),
                Some(_) => exists|m: Seq<char>| msg@ == icon_error_text(icon_path@, IconErrorV::Encode(m)),
            },
        },
{
    let img = match decode_image(raw) {
        Ok(i) => i,
        Err(e) => {
            let msg = icon_error_message(icon_path, &e);
            proof {
                match e@ {
                    IconErrorV::Format(m) => assert(msg@ == icon_error_text(icon_path@, IconErrorV::Format(m))),
                    IconErrorV::Decode(m) => assert(msg@ == icon_error_text(icon_path@, IconErrorV::Decode(m))),
                    IconErrorV::Encode(m) => {},
                }
            }
            return Err(msg);
        },
    };
    let w = image_width(&img);
    let h = image_height(&img);
    let resize = w > MAX_ICON_DIM || h > MAX_ICON_DIM;
    let mut name: Vec<char> = match file_stem(icon_path) {
        Some(s) => chars_of_string(&s),
        None => chars_of("icon"),
    };
    push_str(&mut name, ".png");
    let processed = if resize {
        resize_exact_lanczos3(&img, RESIZE_TARGET_DIM, RESIZE_TARGET_DIM)
    } else {
        img
    };
    match encode_rgba_png(&processed) {
        Ok(bytes) => Ok(
            PreparedIcon {
                bytes,
                file_name: string_from_chars(&name),
                mime: to_owned_string("image/png"),
                width: w,
                height: h,
                resized: resize,
            },
        ),
        Err(m) => {
            let ghost mv = m@;
            let e = IconError::Encode(m);
            let msg = icon_error_message(icon_path, &e);
            assert(msg@ == icon_error_text(icon_path@, IconErrorV::Encode(mv)));
            Err(msg)
        },
    }
}

/// The message of an icon error (see `icon_error_text`).
pub fn icon_error_message(path: &str, e: &IconError) -> (r: String)
    ensures
        r@ == icon_error_text(path@, e@),
{
    let mut out: Vec<char> = Vec::new();
    match e {
        IconError::Format(m) => {
            push_str(&mut out, "guess icon format '");
            push_str(&mut out, path);
            push_str(&mut out, "': ");
            push_str(&mut out, m.as_str());
        },
        IconError::Decode(m) => {
            push_str(&mut out, "decode icon '");
            push_str(&mut out, path);
            push_str(&mut out, "': ");
            push_str(&mut out, m.as_str());
        },
        IconError::Encode(m) => {
            push_str(&mut out, "encode icon '");
            push_str(&mut out, path);
            push_str(&mut out, "' as png: ");
            push_str(&mut out, m.as_str());
        },
    }
    proof {
        assert(out@ =~= icon_error_text(path@, e@));
    }
    string_from_chars(&out)
}

} // verus!
