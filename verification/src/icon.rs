//! The tray icon: which variant to show, and the pixels of an icon file as
//! the tray wants them, four bytes (red, green, blue, alpha) per pixel.

use vstd::prelude::*;

verus! {

/// Which icon to show.
#[derive(Clone, Copy, Debug, PartialEq, Eq, Structural)]
pub enum IconVariant {
    /// Outline: nothing listens.
    Inactive,
    /// Filled: something listens.
    Active,
}

/// The icon for a number of listeners.
pub fn icon_for(listeners: usize) -> (variant: IconVariant)
    ensures
        variant == (if listeners == 0 {
            IconVariant::Inactive
        } else {
            IconVariant::Active
        }),
{
    if listeners == 0 {
        IconVariant::Inactive
    } else {
        IconVariant::Active
    }
}

/// The pictures that are shipped with the application.
#[derive(Clone, Copy, Debug, PartialEq, Eq, Structural)]
pub enum IconAsset {
    /// Dark and filled, for a light background.
    FilledDark,
    /// Dark outline, for a light background.
    OutlineDark,
    /// Light and filled, for a dark background.
    FilledLight,
    /// Light outline, for a dark background.
    OutlineLight,
}

/// The picture for a variant of the icon: filled while something listens,
/// light on a dark task bar.
pub fn icon_asset(variant: IconVariant, dark_background: bool) -> (asset: IconAsset)
    ensures
        asset == (match (variant, dark_background) {
            (IconVariant::Active, true) => IconAsset::FilledLight,
            (IconVariant::Inactive, true) => IconAsset::OutlineLight,
            (IconVariant::Active, false) => IconAsset::FilledDark,
            (IconVariant::Inactive, false) => IconAsset::OutlineDark,
        }),
{
    match variant {
        IconVariant::Active => if dark_background {
            IconAsset::FilledLight
        } else {
            IconAsset::FilledDark
        },
        IconVariant::Inactive => if dark_background {
            IconAsset::OutlineLight
        } else {
            IconAsset::OutlineDark
        },
    }
}

/// How the samples of a decoded image are laid out.
#[derive(Clone, Copy, Debug, PartialEq, Eq, Structural)]
pub enum ColorKind {
    Grayscale,
    Rgb,
    Indexed,
    GrayscaleAlpha,
    Rgba,
}

/// A frame as the decoder hands it out.
#[derive(Clone, Debug)]
pub struct DecodedFrame {
    /// The buffer the frame was decoded into; the frame is at its start.
    pub bytes: Vec<u8>,
    pub width: u32,
    pub height: u32,
    pub color: ColorKind,
    /// Bytes per line of the frame.
    pub line_size: usize,
}

/// The mathematical content of a [`DecodedFrame`].
pub struct Frame {
    pub bytes: Seq<u8>,
    pub width: u32,
    pub height: u32,
    pub color: ColorKind,
    pub line_size: usize,
}

impl View for DecodedFrame {
    type V = Frame;

    open spec fn view(&self) -> Frame {
        Frame {
            bytes: self.bytes@,
            width: self.width,
            height: self.height,
            color: self.color,
            line_size: self.line_size,
        }
    }
}

/// Why a PNG file could not be decoded, in the decoder's words.
#[derive(Clone, Debug)]
pub enum PngFailure {
    Header(String),
    Frame(String),
}

/// The mathematical content of a [`PngFailure`].
pub enum Failure {
    Header(Seq<char>),
    Frame(Seq<char>),
}

impl View for PngFailure {
    type V = Failure;

    open spec fn view(&self) -> Failure {
        match self {
            PngFailure::Header(words) => Failure::Header(words@),
            PngFailure::Frame(words) => Failure::Frame(words@),
        }
    }
}

/// What the decoder of the `png` crate makes of the bytes of a file: the
/// first frame, or the failure it reports. The decoder reads nothing but
/// the bytes it is given.
pub uninterp spec fn png_decoded(data: Seq<u8>) -> Result<Frame, Failure>;

/// Decodes the first frame of a PNG file held in memory.
///
/// Trusted: wraps `png::Decoder::new` and `read_info` on a
/// `std::io::Cursor` over the bytes, then `png::Reader::next_frame` into a
/// buffer of the size that `png::Reader::output_buffer_size` names. The
/// result depends on the bytes alone; the contract gives it its name and
/// says nothing more about it.
#[verifier::external_body]
fn read_png(data: &[u8]) -> (frame: Result<DecodedFrame, PngFailure>)
    ensures
        png_decoded(data@) == (match frame {
            Ok(decoded) => Ok(decoded@),
            Err(failure) => Err(failure@),
        }),
{
    let mut reader = png::Decoder::new(std::io::Cursor::new(data)).read_info().map_err(
        |e| PngFailure::Header(e.to_string()),
    )?;
    let mut bytes = vec![0; reader.output_buffer_size().unwrap_or_default()];
    let info = reader.next_frame(&mut bytes).map_err(|e| PngFailure::Frame(e.to_string()))?;
    let color = match info.color_type {
        png::ColorType::Grayscale => ColorKind::Grayscale,
        png::ColorType::Rgb => ColorKind::Rgb,
        png::ColorType::Indexed => ColorKind::Indexed,
        png::ColorType::GrayscaleAlpha => ColorKind::GrayscaleAlpha,
        png::ColorType::Rgba => ColorKind::Rgba,
    };
    Ok(DecodedFrame { bytes, width: info.width, height: info.height, color, line_size: info.line_size })
}

/// The pixels of an icon, four bytes per pixel.
#[derive(Clone, Debug)]
pub struct CachedIconData {
    pub rgba: Vec<u8>,
    pub width: u32,
    pub height: u32,
}

/// The mathematical content of a [`CachedIconData`].
pub struct Pixels {
    pub rgba: Seq<u8>,
    pub width: u32,
    pub height: u32,
}

impl View for CachedIconData {
    type V = Pixels;

    open spec fn view(&self) -> Pixels {
        Pixels { rgba: self.rgba@, width: self.width, height: self.height }
    }
}

/// Why an icon could not be made.
#[derive(Clone, Debug)]
pub enum IconError {
    /// The header of the file could not be read.
    Header(String),
    /// The picture could not be decoded.
    Decode(String),
    /// The picture uses a palette.
    Indexed,
    /// The decoded data is shorter than the frame it is said to hold, or
    /// ends in the middle of a pixel.
    Incomplete,
}

/// The mathematical content of an [`IconError`].
pub enum IconFault {
    Header(Seq<char>),
    Decode(Seq<char>),
    Indexed,
    Incomplete,
}

impl View for IconError {
    type V = IconFault;

    open spec fn view(&self) -> IconFault {
        match self {
            IconError::Header(words) => IconFault::Header(words@),
            IconError::Decode(words) => IconFault::Decode(words@),
            IconError::Indexed => IconFault::Indexed,
            IconError::Incomplete => IconFault::Incomplete,
        }
    }
}

/// Every gray sample as an opaque pixel.
pub open spec fn gray_to_rgba(samples: Seq<u8>) -> Seq<u8>
    decreases samples.len(),
{
    if samples.len() == 0 {
        Seq::<u8>::empty()
    } else {
        gray_to_rgba(samples.drop_last()) + seq![
            samples.last(),
            samples.last(),
            samples.last(),
            255u8,
        ]
    }
}

/// Every pair of a gray sample and an alpha sample as a pixel. The samples
/// must come in pairs.
pub open spec fn gray_alpha_to_rgba(samples: Seq<u8>) -> Seq<u8>
    decreases samples.len(),
{
    if samples.len() < 2 {
        Seq::<u8>::empty()
    } else {
        let rest = samples.subrange(0, samples.len() - 2);
        let gray = samples[samples.len() - 2];
        gray_alpha_to_rgba(rest) + seq![gray, gray, gray, samples.last()]
    }
}

/// Every run of three samples as an opaque pixel; a shorter run at the end
/// is kept and followed by an opaque alpha as well.
pub open spec fn rgb_to_rgba(samples: Seq<u8>) -> Seq<u8>
    decreases samples.len(),
{
    if samples.len() == 0 {
        Seq::<u8>::empty()
    } else if samples.len() <= 3 {
        samples.push(255u8)
    } else {
        samples.take(3).push(255u8) + rgb_to_rgba(samples.skip(3))
    }
}

/// The number of bytes that a frame takes: its lines, one after another.
pub open spec fn frame_len(frame: Frame) -> int {
    frame.line_size * frame.height
}

/// The pixels of a decoded frame, four bytes per pixel, or the reason why
/// there are none.
pub open spec fn converted(frame: Frame) -> Result<Pixels, IconFault> {
    let size = frame_len(frame);
    if size > frame.bytes.len() {
        Err(IconFault::Incomplete)
    } else {
        let samples = frame.bytes.take(size);
        let icon = |rgba: Seq<u8>| Pixels { rgba, width: frame.width, height: frame.height };
        match frame.color {
            ColorKind::Rgba => Ok(icon(samples)),
            ColorKind::Rgb => Ok(icon(rgb_to_rgba(samples))),
            ColorKind::GrayscaleAlpha => if size % 2 == 0 {
                Ok(icon(gray_alpha_to_rgba(samples)))
            } else {
                Err(IconFault::Incomplete)
            },
            ColorKind::Grayscale => Ok(icon(gray_to_rgba(samples))),
            ColorKind::Indexed => Err(IconFault::Indexed),
        }
    }
}

/// The icon that the bytes of a PNG file give: the pixels of the frame the
/// decoder hands out, or the reason why there is none. A failure of the
/// decoder keeps the decoder's words.
pub open spec fn decoded_icon(data: Seq<u8>) -> Result<Pixels, IconFault> {
    match png_decoded(data) {
        Ok(frame) => converted(frame),
        Err(Failure::Header(words)) => Err(IconFault::Header(words)),
        Err(Failure::Frame(words)) => Err(IconFault::Decode(words)),
    }
}

fn expand_gray(bytes: &Vec<u8>, size: usize) -> (rgba: Vec<u8>)
    requires
        size <= bytes.len(),
    ensures
        rgba@ == gray_to_rgba(bytes@.take(size as int)),
{
    let mut rgba: Vec<u8> = Vec::new();
    let mut i: usize = 0;
    assert(bytes@.take(0) =~= Seq::<u8>::empty());
    while i < size
        invariant
            i <= size <= bytes.len(),
            rgba@ == gray_to_rgba(bytes@.take(i as int)),
        decreases size - i,
    {
        let gray = bytes[i];
        proof {
            assert(bytes@.take(i + 1).drop_last() =~= bytes@.take(i as int));
            assert(bytes@.take(i + 1).last() == gray);
        }
        let ghost before = rgba@;
        rgba.push(gray);
        rgba.push(gray);
        rgba.push(gray);
        rgba.push(255);
        assert(rgba@ =~= before + seq![gray, gray, gray, 255u8]);
        i = i + 1;
    }
    rgba
}

fn expand_gray_alpha(bytes: &Vec<u8>, size: usize) -> (rgba: Vec<u8>)
    requires
        size <= bytes.len(),
        size % 2 == 0,
    ensures
        rgba@ == gray_alpha_to_rgba(bytes@.take(size as int)),
{
    let mut rgba: Vec<u8> = Vec::new();
    let mut i: usize = 0;
    assert(bytes@.take(0) =~= Seq::<u8>::empty());
    while i < size
        invariant
            i <= size <= bytes.len(),
            i % 2 == 0,
            size % 2 == 0,
            rgba@ == gray_alpha_to_rgba(bytes@.take(i as int)),
        decreases size - i,
    {
        let gray = bytes[i];
        let alpha = bytes[i + 1];
        proof {
            let next = bytes@.take(i + 2);
            assert(next.subrange(0, next.len() - 2) =~= bytes@.take(i as int));
            assert(next[next.len() - 2] == gray);
            assert(next.last() == alpha);
        }
        let ghost before = rgba@;
        rgba.push(gray);
        rgba.push(gray);
        rgba.push(gray);
        rgba.push(alpha);
        assert(rgba@ =~= before + seq![gray, gray, gray, alpha]);
        i = i + 2;
    }
    rgba
}

fn expand_rgb(bytes: &Vec<u8>, size: usize) -> (rgba: Vec<u8>)
    requires
        size <= bytes.len(),
    ensures
        rgba@ == rgb_to_rgba(bytes@.take(size as int)),
{
    let mut rgba: Vec<u8> = Vec::new();
    let mut i: usize = 0;
    let ghost all = bytes@.take(size as int);
    proof {
        assert(all.skip(0) =~= all);
        assert(rgba@ + rgb_to_rgba(all.skip(0)) =~= rgb_to_rgba(all));
    }
    while size - i > 3
        invariant
            i <= size <= bytes.len(),
            all == bytes@.take(size as int),
            rgb_to_rgba(all) == rgba@ + rgb_to_rgba(all.skip(i as int)),
        decreases size - i,
    {
        let ghost rest = all.skip(i as int);
        let ghost before = rgba@;
        proof {
            assert(rest[0] == bytes@[i as int]);
            assert(rest[1] == bytes@[i + 1]);
            assert(rest[2] == bytes@[i + 2]);
            assert(rest.skip(3) =~= all.skip(i + 3));
        }
        rgba.push(bytes[i]);
        rgba.push(bytes[i + 1]);
        rgba.push(bytes[i + 2]);
        rgba.push(255);
        proof {
            assert(rgba@ =~= before + rest.take(3).push(255u8));
            assert(before + (rest.take(3).push(255u8) + rgb_to_rgba(all.skip(i + 3))) =~= rgba@
                + rgb_to_rgba(all.skip(i + 3)));
        }
        i = i + 3;
    }
    if i < size {
        let ghost rest = all.skip(i as int);
        let ghost before = rgba@;
        let mut k: usize = i;
        while k < size
            invariant
                i <= k <= size <= bytes.len(),
                all == bytes@.take(size as int),
                rgba@ == before + all.subrange(i as int, k as int),
            decreases size - k,
        {
            rgba.push(bytes[k]);
            k = k + 1;
            assert(rgba@ =~= before + all.subrange(i as int, k as int));
        }
        rgba.push(255);
        proof {
            assert(all.subrange(i as int, size as int) =~= rest);
            assert(rgba@ =~= before + rest.push(255u8));
        }
    } else {
        proof {
            assert(all.skip(i as int) =~= Seq::<u8>::empty());
            assert(rgba@ + Seq::<u8>::empty() =~= rgba@);
        }
    }
    rgba
}

fn copy_samples(bytes: &Vec<u8>, size: usize) -> (out: Vec<u8>)
    requires
        size <= bytes.len(),
    ensures
        out@ == bytes@.take(size as int),
{
    let mut out: Vec<u8> = Vec::new();
    let mut i: usize = 0;
    while i < size
        invariant
            i <= size <= bytes.len(),
            out@ == bytes@.take(i as int),
        decreases size - i,
    {
        out.push(bytes[i]);
        i = i + 1;
        assert(out@ =~= bytes@.take(i as int));
    }
    out
}

/// Turns a decoded frame into the pixels of an icon: opaque pixels for gray
/// and for red, green and blue samples, the alpha that is there otherwise.
/// A frame with a palette gives [`IconError::Indexed`]; a buffer too short
/// for the frame, or gray and alpha samples that do not come in pairs, give
/// [`IconError::Incomplete`].
pub fn frame_to_rgba(frame: &DecodedFrame) -> (icon: Result<CachedIconData, IconError>)
    ensures
        converted(frame@) == (match icon {
            Ok(data) => Ok(data@),
            Err(error) => Err(error@),
        }),
{
    let height: usize = frame.height as usize;
    let available: usize = frame.bytes.len();
    let size = match frame.line_size.checked_mul(height) {
        Some(size) => size,
        None => {
            assert(frame.line_size * height > available);
            return Err(IconError::Incomplete);
        },
    };
    assert(size == frame_len(frame@));
    if size > available {
        return Err(IconError::Incomplete);
    }
    let rgba = match frame.color {
        ColorKind::Rgba => copy_samples(&frame.bytes, size),
        ColorKind::Rgb => expand_rgb(&frame.bytes, size),
        ColorKind::GrayscaleAlpha => {
            if size % 2 != 0 {
                return Err(IconError::Incomplete);
            }
            expand_gray_alpha(&frame.bytes, size)
        },
        ColorKind::Grayscale => expand_gray(&frame.bytes, size),
        ColorKind::Indexed => {
            return Err(IconError::Indexed);
        },
    };
    Ok(CachedIconData { rgba, width: frame.width, height: frame.height })
}

/// Decodes a PNG file held in memory into the pixels of an icon.
///
/// The frame that the decoder hands out is converted as [`frame_to_rgba`]
/// says; a failure of the decoder comes back with the decoder's words, as
/// [`IconError::Header`] when the header could not be read and as
/// [`IconError::Decode`] when the picture could not be decoded.
pub fn decode_png_to_rgba(png_data: &[u8]) -> (icon: Result<CachedIconData, IconError>)
    ensures
        decoded_icon(png_data@) == (match icon {
            Ok(data) => Ok(data@),
            Err(error) => Err(error@),
        }),
{
    match read_png(png_data) {
        Ok(frame) => frame_to_rgba(&frame),
        Err(PngFailure::Header(words)) => Err(IconError::Header(words)),
        Err(PngFailure::Frame(words)) => Err(IconError::Decode(words)),
    }
}

impl IconError {
    /// The words for this error.
    pub fn message(&self) -> (message: String)
        ensures
            message@ == (match self {
                IconError::Header(words) => "failed to read PNG header: "@ + words@,
                IconError::Decode(words) => "failed to decode PNG: "@ + words@,
                IconError::Indexed => "indexed PNG not supported for menu bar icon"@,
                IconError::Incomplete => "decoded PNG data is incomplete"@,
            }),
    {
        match self {
            IconError::Header(words) => {
                let mut message = String::from_str("failed to read PNG header: ");
                message.append(words.as_str());
                message
            },
            IconError::Decode(words) => {
                let mut message = String::from_str("failed to decode PNG: ");
                message.append(words.as_str());
                message
            },
            IconError::Indexed => String::from_str("indexed PNG not supported for menu bar icon"),
            IconError::Incomplete => String::from_str("decoded PNG data is incomplete"),
        }
    }
}

} // verus!
