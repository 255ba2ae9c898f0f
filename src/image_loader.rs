//! Decoding of image files into RGBA pixel buffers of bounded size.
use vstd::prelude::*;
use crate::image_format::{format_of_path, ImageFormat, VectorFormat};

verus! {

/// The widest image that decoding hands out.
pub const MAX_WIDTH: u32 = 1920;

/// The tallest image that decoding hands out.
pub const MAX_HEIGHT: u32 = 1080;

/// A decoded image: `width * height` pixels, row by row, four bytes each
/// (red, green, blue and straight, unmultiplied, alpha).
#[derive(Debug, Clone, PartialEq, Eq)]
pub struct DecodedImage {
    pub width: u32,
    pub height: u32,
    pub pixels: Vec<u8>,
}

impl DecodedImage {
    /// The buffer holds exactly the image's pixels.
    pub open spec fn wf(&self) -> bool {
        self.pixels@.len() == 4 * self.width * self.height
    }

    /// The image lies within [`MAX_WIDTH`] by [`MAX_HEIGHT`].
    pub open spec fn fits(&self) -> bool {
        self.width <= MAX_WIDTH && self.height <= MAX_HEIGHT
    }
}

/// Why an image could not be decoded.
#[derive(Debug, Clone, PartialEq, Eq)]
pub enum LoadError {
    /// The file could not be read; carries the system's message.
    IoError(String),
    /// The content could not be decoded; carries the decoder's message.
    DecodeError(String),
    /// The encoding could not be determined; carries the reader's message.
    FormatError(String),
    /// The path names no format that this viewer can decode.
    UnsupportedFormat,
}

impl LoadError {
    /// A sentence for the user that describes the error.
    pub fn message(&self) -> (r: String)
        ensures
            r@ == match self {
                LoadError::IoError(m) => "Error de E/S: "@ + m@,
                LoadError::DecodeError(m) => "Error de decodificación: "@ + m@,
                LoadError::FormatError(m) => "Error de formato: "@ + m@,
                LoadError::UnsupportedFormat => "Formato no soportado"@,
            },
    {
        match self {
            LoadError::IoError(m) => String::from_str("Error de E/S: ").concat(m.as_str()),
            LoadError::DecodeError(m) => String::from_str("Error de decodificación: ").concat(m.as_str()),
            LoadError::FormatError(m) => String::from_str("Error de formato: ").concat(m.as_str()),
            LoadError::UnsupportedFormat => String::from_str("Formato no soportado"),
        }
    }
}

/// Declares image::ImageError, a failure reported by the `image` crate; its
/// text comes from its `Display` implementation.
#[verifier::external_type_specification]
#[verifier::external_body]
pub struct ExImageError(image::ImageError);

// The width and height of the image that image::load_from_memory decodes
// from `bytes`, or `None` where it fails on them. Both depend on the bytes
// alone.
pub uninterp spec fn decoded_size(bytes: Seq<u8>) -> Option<(u32, u32)>;

/// Relies on image::load_from_memory, which recognises the encoding from the
/// leading bytes and decodes, and on DynamicImage::into_rgba8 and
/// ImageBuffer::into_raw, which hand out the result as 8-bit RGBA rows in a
/// buffer of at least width * height * 4 bytes.
#[verifier::external_body]
fn decode_rgba(bytes: &[u8]) -> (r: Result<DecodedImage, image::ImageError>)
    ensures
        r is Ok <==> decoded_size(bytes@) is Some,
        r matches Ok(img) ==> decoded_size(bytes@) == Some((img.width, img.height)),
        r matches Ok(img) ==> img.pixels@.len() >= 4 * img.width * img.height,
{
    image::load_from_memory(bytes).map(|img| {
        let rgba = img.into_rgba8();
        let (width, height) = rgba.dimensions();
        DecodedImage { width, height, pixels: rgba.into_raw() }
    })
}

/// Fitting a `w` by `h` image within [`MAX_WIDTH`] by [`MAX_HEIGHT`] gives
/// `rw` by `rh`: the same size when it fits; otherwise, for an image with
/// pixels, a size of at least 1 by 1 within the bounds, reaching one of them,
/// with the aspect ratio kept up to rounding; for an image without pixels,
/// its sides cut to the bounds.
pub open spec fn fitted_size(w: int, h: int, rw: int, rh: int) -> bool {
    if w <= MAX_WIDTH && h <= MAX_HEIGHT {
        rw == w && rh == h
    } else if w > 0 && h > 0 {
        &&& 1 <= rw <= MAX_WIDTH
        &&& 1 <= rh <= MAX_HEIGHT
        &&& (rw == MAX_WIDTH || rh == MAX_HEIGHT)
        &&& rw * h - rh * w <= w + h
        &&& rh * w - rw * h <= w + h
    } else {
        &&& rw == (if w <= MAX_WIDTH { w } else { MAX_WIDTH as int })
        &&& rh == (if h <= MAX_HEIGHT { h } else { MAX_HEIGHT as int })
    }
}

/// `img` is what decoding `bytes` and fitting the result within the bounds
/// gives: the decoder succeeds on `bytes`, and `img` is well formed, has the
/// size that fitting the decoded size gives, and fits.
pub open spec fn decoded_as(bytes: Seq<u8>, img: DecodedImage) -> bool {
    &&& decoded_size(bytes) matches Some((w, h))
    &&& fitted_size(w as int, h as int, img.width as int, img.height as int)
    &&& img.wf()
    &&& img.fits()
}

/// Relies on DynamicImage::resize with the triangle filter: the result keeps
/// the aspect ratio and is the largest that fits in `max_width` by
/// `max_height`, each side rounded to the nearest integer and at least 1.
/// The buffer is handed back as in [`decode_rgba`].
#[verifier::external_body]
fn resize_rgba(img: DecodedImage, max_width: u32, max_height: u32) -> (r: DecodedImage)
    requires
        img.pixels@.len() >= 4 * img.width * img.height,
        img.width >= 1,
        img.height >= 1,
        max_width >= 1,
        max_height >= 1,
    ensures
        1 <= r.width <= max_width,
        1 <= r.height <= max_height,
        r.width == max_width || r.height == max_height,
        r.width * img.height - r.height * img.width <= img.width + img.height,
        r.height * img.width - r.width * img.height <= img.width + img.height,
        r.pixels@.len() >= 4 * r.width * r.height,
{
    let buffer = image::RgbaImage::from_raw(img.width, img.height, img.pixels).unwrap();
    let resized = image::DynamicImage::ImageRgba8(buffer).resize(
        max_width,
        max_height,
        image::imageops::FilterType::Triangle,
    ).into_rgba8();
    let (width, height) = resized.dimensions();
    DecodedImage { width, height, pixels: resized.into_raw() }
}

/// The image at its native size when it fits in [`MAX_WIDTH`] by
/// [`MAX_HEIGHT`]; otherwise scaled down to fit, keeping its aspect ratio up
/// to rounding. An image without pixels (a side of 0) that does not fit has
/// its sides cut to the bounds. A buffer longer than the pixels is cut to
/// their length.
pub fn fit_within_bounds(img: DecodedImage) -> (r: DecodedImage)
    requires
        img.pixels@.len() >= 4 * img.width * img.height,
    ensures
        r.wf(),
        r.fits(),
        fitted_size(img.width as int, img.height as int, r.width as int, r.height as int),
        img.fits() ==> r.pixels@ == img.pixels@.take(4 * img.width * img.height),
{
    let fits = img.width <= MAX_WIDTH && img.height <= MAX_HEIGHT;
    let mut out = if fits || img.width == 0 || img.height == 0 {
        let width = if img.width <= MAX_WIDTH { img.width } else { MAX_WIDTH };
        let height = if img.height <= MAX_HEIGHT { img.height } else { MAX_HEIGHT };
        DecodedImage { width, height, pixels: img.pixels }
    } else {
        resize_rgba(img, MAX_WIDTH, MAX_HEIGHT)
    };
    let pixel_bytes = out.pixels.len();
    let ghost w = out.width as int;
    let ghost h = out.height as int;
    let ghost len = pixel_bytes as int;
    assert(w * h * 4 <= len) by (nonlinear_arith)
        requires
            len >= 4 * w * h,
    ;
    assert(w * h <= w * h * 4) by (nonlinear_arith)
        requires
            w >= 0,
            h >= 0,
    ;
    let area: usize = (out.width as usize) * (out.height as usize);
    let needed: usize = area * 4;
    assert(needed == 4 * w * h) by (nonlinear_arith)
        requires
            needed == w * h * 4,
    ;
    out.pixels.truncate(needed);
    assert(out.pixels@.len() == needed);
    out
}

/// Decodes an encoded raster image and fits it within [`MAX_WIDTH`] by
/// [`MAX_HEIGHT`]; a failure of the decoder comes back as `DecodeError` with
/// the decoder's message.
pub fn decode_raster(contents: &[u8]) -> (r: Result<DecodedImage, LoadError>)
    ensures
        r is Ok <==> decoded_size(contents@) is Some,
        r matches Ok(img) ==> decoded_as(contents@, img),
        r matches Err(e) ==> e is DecodeError,
{
    match decode_rgba(contents) {
        Ok(img) => Ok(fit_within_bounds(img)),
        Err(e) => Err(LoadError::DecodeError(e.to_string())),
    }
}

/// A decoder for one family of formats.
pub trait ImageLoader {
    /// The formats that this loader decodes.
    spec fn accepts(&self, format: ImageFormat) -> bool;

    /// Decodes the contents of a file; an image that comes back is well
    /// formed and fits within [`MAX_WIDTH`] by [`MAX_HEIGHT`].
    fn load(&self, contents: &[u8]) -> (r: Result<DecodedImage, LoadError>)
        ensures
            r matches Ok(img) ==> img.wf() && img.fits(),
    ;

    fn supports_format(&self, format: &ImageFormat) -> (r: bool)
        ensures
            r == self.accepts(*format),
    ;
}

/// Decodes the raster formats.
#[derive(Clone, Copy)]
pub struct RasterImageLoader;

impl ImageLoader for RasterImageLoader {
    open spec fn accepts(&self, format: ImageFormat) -> bool {
        format is Raster
    }

    fn load(&self, contents: &[u8]) -> (r: Result<DecodedImage, LoadError>)
        ensures
            r is Ok <==> decoded_size(contents@) is Some,
            r matches Ok(img) ==> decoded_as(contents@, img),
            r matches Err(e) ==> e is DecodeError,
    {
        decode_raster(contents)
    }

    fn supports_format(&self, format: &ImageFormat) -> (r: bool) {
        matches!(format, ImageFormat::Raster(_))
    }
}

/// Recognises SVG files, for which no decoder exists: loading one always
/// fails with `UnsupportedFormat`.
#[derive(Clone, Copy)]
pub struct SvgImageLoader;

impl ImageLoader for SvgImageLoader {
    open spec fn accepts(&self, format: ImageFormat) -> bool {
        format == ImageFormat::Vector(VectorFormat::Svg)
    }

    fn load(&self, contents: &[u8]) -> (r: Result<DecodedImage, LoadError>)
        ensures
            r == Err::<DecodedImage, LoadError>(LoadError::UnsupportedFormat),
    {
        Err(LoadError::UnsupportedFormat)
    }

    fn supports_format(&self, format: &ImageFormat) -> (r: bool) {
        matches!(format, ImageFormat::Vector(VectorFormat::Svg))
    }
}

/// Whether the file at `path` is decoded by the raster loader.
pub open spec fn is_raster_path(path: Seq<char>) -> bool {
    format_of_path(path) matches Some(ImageFormat::Raster(_))
}

/// Picks the loader for a file by the format of its path.
#[derive(Clone, Copy)]
pub struct ImageLoaderFactory {
    raster: RasterImageLoader,
    svg: SvgImageLoader,
}

impl ImageLoaderFactory {
    pub fn new() -> Self {
        ImageLoaderFactory { raster: RasterImageLoader, svg: SvgImageLoader }
    }

    /// Decodes the contents of the file at `path` with the loader for its
    /// format. Paths of no known format, and vector paths, give
    /// `UnsupportedFormat`; a raster path gives the decoded image fitted
    /// within [`MAX_WIDTH`] by [`MAX_HEIGHT`] where the decoder succeeds, and
    /// the decoder's `DecodeError` where it fails.
    pub fn decode(&self, path: &str, contents: &[u8]) -> (r: Result<DecodedImage, LoadError>)
        ensures
            is_raster_path(path@) ==> (r is Ok <==> decoded_size(contents@) is Some),
            is_raster_path(path@) ==> (r matches Ok(img) ==> decoded_as(contents@, img)),
            is_raster_path(path@) ==> (r matches Err(e) ==> e is DecodeError),
            !is_raster_path(path@) ==> r == Err::<DecodedImage, LoadError>(
                LoadError::UnsupportedFormat,
            ),
    {
        let format = match ImageFormat::from_path(path) {
            Some(f) => f,
            None => return Err(LoadError::UnsupportedFormat),
        };
        if self.raster.supports_format(&format) {
            self.raster.load(contents)
        } else if self.svg.supports_format(&format) {
            self.svg.load(contents)
        } else {
            Err(LoadError::UnsupportedFormat)
        }
    }

    /// The path with its decoded image, or `None` where [`Self::decode`]
    /// fails.
    pub fn load_image(&self, path: String, contents: &[u8]) -> (r: Option<(String, DecodedImage)>)
        ensures
            r matches Some(pair) ==> pair.0@ == path@ && is_raster_path(path@) && decoded_as(
                contents@,
                pair.1,
            ),
            is_raster_path(path@) ==> (r is Some <==> decoded_size(contents@) is Some),
            !is_raster_path(path@) ==> r is None,
    {
        match self.decode(path.as_str(), contents) {
            Ok(img) => Some((path, img)),
            Err(_) => None,
        }
    }
}

} // verus!
