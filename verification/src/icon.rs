//! The icon that is published with a component.

use vstd::prelude::*;
use vstd::string::*;

use crate::inputs::check_bounded;
use crate::text::decimal;
use crate::tool::Error;

verus! {

/// The longest icon, in bytes.
pub const MAX_ICON_BYTES: usize = 256 * 1024;

/// The widest icon, in pixels.
pub const MAX_ICON_SIDE: u32 = 512;

/// What the header of a PNG says.
#[derive(Clone, Copy, Debug, PartialEq, Eq, Structural)]
pub struct PngHeader {
    pub width: u32,
    pub height: u32,
    /// The number of frames, where it is animated.
    pub animation: Option<u32>,
}

/// A `Reader` of png, which decodes a PNG frame by frame.
#[verifier::external_body]
pub struct PngReader {
    reader: png::Reader<std::io::Cursor<Vec<u8>>>,
}

/// How far a PNG is decoded.
pub ghost struct Decoding {
    pub bytes: Seq<u8>,
    /// How many bytes decoding may use.
    pub limit: usize,
    /// The number of frames that are decoded.
    pub frames: nat,
}

/// How far a reader has decoded its PNG.
pub uninterp spec fn decoding(reader: PngReader) -> Decoding;

/// The header of a PNG whose decoding keeps within `limit` bytes on a machine of this
/// address width; `None` where there is none.
pub uninterp spec fn png_header(bytes: Seq<u8>, limit: usize, address_bits: u32) -> Option<PngHeader>;

/// Reads the header of a PNG with `read_info` of png's `Decoder`, whose `set_limits`
/// bounds the bytes it may use. It refuses pictures that no address can span; beyond
/// that, whether there is a header depends on the bytes and the limit alone.
#[verifier::external_body]
fn open_png(bytes: &[u8], limit: usize) -> (reader: Option<PngReader>)
    ensures
        match reader {
            Some(reader) => png_header(bytes@, limit, usize::BITS) is Some && decoding(reader) == (Decoding {
                bytes: bytes@,
                limit,
                frames: 0,
            }),
            None => png_header(bytes@, limit, usize::BITS) is None,
        },
{
    let mut decoder = png::Decoder::new(std::io::Cursor::new(bytes.to_vec()));
    decoder.set_limits(png::Limits { bytes: limit });
    decoder.read_info().ok().map(|reader| PngReader { reader })
}

/// Asks `info` of png's `Reader` what the header says, before any frame is decoded.
#[verifier::external_body]
fn read_header(png: &PngReader) -> (header: PngHeader)
    requires
        decoding(*png).frames == 0,
    ensures
        png_header(decoding(*png).bytes, decoding(*png).limit, usize::BITS) == Some(header),
{
    let info = png.reader.info();
    let animation = info.animation_control.as_ref().map(|animation| animation.num_frames);
    PngHeader { width: info.width, height: info.height, animation }
}

/// The size of a decoded frame of a PNG, in bytes; `None` where it is too large to
/// count, or there is no header.
pub uninterp spec fn png_frame_size(bytes: Seq<u8>, limit: usize, address_bits: u32) -> Option<usize>;

/// Asks `output_buffer_size` of png's `Reader` how many bytes a frame takes, before any
/// frame is decoded. What comes back depends on the bytes, the limit and the address width
/// alone.
#[verifier::external_body]
fn frame_size(png: &PngReader) -> (size: Option<usize>)
    requires
        decoding(*png).frames == 0,
    ensures
        size == png_frame_size(decoding(*png).bytes, decoding(*png).limit, usize::BITS),
{
    png.reader.output_buffer_size()
}

/// The frame of a PNG at `index` decodes, once those before it are decoded.
pub uninterp spec fn png_frame_decodes(bytes: Seq<u8>, limit: usize, index: nat, address_bits: u32) -> bool;

/// Decodes a frame with `next_frame` of png's `Reader`, into a buffer of the size that a
/// frame takes. The verdict depends on the bytes, the limit, the frames decoded before and
/// the address width alone.
#[verifier::external_body]
fn decode_frame(png: &mut PngReader, pixels: &mut Vec<u8>) -> (decoded: bool)
    requires
        png_frame_size(decoding(*old(png)).bytes, decoding(*old(png)).limit, usize::BITS) == Some(
            old(pixels).len(),
        ),
    ensures
        final(pixels)@.len() == old(pixels)@.len(),
        decoded == png_frame_decodes(
            decoding(*old(png)).bytes,
            decoding(*old(png)).limit,
            decoding(*old(png)).frames,
            usize::BITS,
        ),
        decoded ==> decoding(*final(png)) == (Decoding {
            frames: decoding(*old(png)).frames + 1,
            ..decoding(*old(png))
        }),
{
    png.reader.next_frame(pixels).is_ok()
}

/// What stands behind the first frames of a PNG decodes.
pub uninterp spec fn png_ends(bytes: Seq<u8>, limit: usize, frames: nat, address_bits: u32) -> bool;

/// Decodes the rest of a PNG with `finish` of png's `Reader`. The verdict depends on the
/// bytes, the limit, the frames decoded before and the address width alone.
#[verifier::external_body]
fn decode_rest(png: &mut PngReader) -> (decoded: bool)
    ensures
        decoded == png_ends(
            decoding(*old(png)).bytes,
            decoding(*old(png)).limit,
            decoding(*old(png)).frames,
            usize::BITS,
        ),
{
    png.reader.finish().is_ok()
}

/// The first frames of a PNG decode, and so does what stands behind them.
pub open spec fn png_decodes(bytes: Seq<u8>, limit: usize, frames: u32) -> bool {
    &&& forall|index: nat| index < frames ==> #[trigger] png_frame_decodes(bytes, limit, index, usize::BITS)
    &&& png_ends(bytes, limit, frames as nat, usize::BITS)
}

/// How many bytes decoding an icon may use.
pub const DECODER_LIMIT: usize = 8 * 1024 * 1024;

/// A square of at least one pixel and at most the widest icon.
pub open spec fn is_icon_size(header: PngHeader) -> bool {
    header.width != 0 && header.width == header.height && header.width <= MAX_ICON_SIDE
}

/// The number of frames of a picture: one, unless it is animated.
pub open spec fn frames_of(header: PngHeader) -> u32 {
    match header.animation {
        Some(frames) => frames,
        None => 1,
    }
}

/// Returns how many frames an icon has whose header reads `header`.
pub fn icon_frames(header: PngHeader) -> (frames: Result<u32, Error>)
    ensures
        if is_icon_size(header) {
            frames == Ok::<_, Error>(frames_of(header))
        } else {
            frames matches Err(Error::Invalid(message)) && message@
                == "icon must be a square PNG between 1 and 512 pixels per side"@
        },
{
    if header.width == 0 || header.width != header.height || header.width > MAX_ICON_SIDE {
        return Err(Error::Invalid("icon must be a square PNG between 1 and 512 pixels per side".to_owned()));
    }
    match header.animation {
        Some(frames) => Ok(frames),
        None => Ok(1),
    }
}

/// Checks the bytes of an icon, read from `path`, before they are published: a square
/// PNG within its bounds that decodes completely.
pub fn check_icon(path: &str, bytes: &[u8]) -> (checked: Result<(), Error>)
    ensures
        if bytes@.len() > MAX_ICON_BYTES {
            checked matches Err(Error::Invalid(message)) && message@ == path@ + " exceeds its "@ + decimal(
                MAX_ICON_BYTES as nat,
            ) + "-byte limit"@
        } else {
            match png_header(bytes@, DECODER_LIMIT, usize::BITS) {
                None => checked == Err::<(), _>(Error::Png),
                Some(header) => if !is_icon_size(header) {
                    checked matches Err(Error::Invalid(message)) && message@
                        == "icon must be a square PNG between 1 and 512 pixels per side"@
                } else {
                    match png_frame_size(bytes@, DECODER_LIMIT, usize::BITS) {
                        None => checked matches Err(Error::Invalid(message)) && message@
                            == "icon decoded dimensions exceed their limit"@,
                        Some(_) => checked == if png_decodes(bytes@, DECODER_LIMIT, frames_of(header)) {
                            Ok::<(), Error>(())
                        } else {
                            Err::<(), _>(Error::Png)
                        },
                    }
                },
            }
        },
{
    match check_bounded(path, bytes.len(), MAX_ICON_BYTES as u64) {
        Ok(_) => {},
        Err(error) => return Err(error),
    }
    let mut reader = match open_png(bytes, DECODER_LIMIT) {
        Some(reader) => reader,
        None => return Err(Error::Png),
    };
    let frames = match icon_frames(read_header(&reader)) {
        Ok(frames) => frames,
        Err(error) => return Err(error),
    };
    let size = match frame_size(&reader) {
        Some(size) => size,
        None => return Err(Error::Invalid("icon decoded dimensions exceed their limit".to_owned())),
    };
    let mut pixels: Vec<u8> = vec![0;size];
    let mut index: u32 = 0;
    while index < frames
        invariant
            index <= frames,
            pixels@.len() == size,
            png_frame_size(bytes@, DECODER_LIMIT, usize::BITS) == Some(size),
            decoding(reader) == (Decoding { bytes: bytes@, limit: DECODER_LIMIT, frames: index as nat }),
            forall|earlier: nat| earlier < index ==> #[trigger] png_frame_decodes(bytes@, DECODER_LIMIT, earlier, usize::BITS),
            bytes@.len() <= MAX_ICON_BYTES,
            png_header(bytes@, DECODER_LIMIT, usize::BITS) matches Some(header) && is_icon_size(header) && frames_of(
                header,
            ) == frames,
        decreases frames - index,
    {
        if !decode_frame(&mut reader, &mut pixels) {
            return Err(Error::Png);
        }
        index += 1;
    }
    if decode_rest(&mut reader) {
        Ok(())
    } else {
        Err(Error::Png)
    }
}

/// An icon is a square of one through 512 pixels per side, and any such square is one.
pub proof fn law_icon_sizes(header: PngHeader)
    ensures
        is_icon_size(header) <==> 1 <= header.width <= 512 && header.height == header.width,
        header.animation is None ==> frames_of(header) == 1,
        header.animation matches Some(frames) ==> frames_of(header) == frames,
{
}

/// A picture decodes only where every one of its frames does, and so does what stands
/// behind them.
pub proof fn law_every_frame_decodes(bytes: Seq<u8>, limit: usize, frames: u32, index: nat)
    requires
        png_decodes(bytes, limit, frames),
        index < frames,
    ensures
        png_frame_decodes(bytes, limit, index, usize::BITS),
        png_ends(bytes, limit, frames as nat, usize::BITS),
{
}

} // verus!
