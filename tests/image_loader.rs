use std::io::Cursor;
use visor_imagenes::image_loader::{decode_raster, fit_within_bounds, MAX_HEIGHT, MAX_WIDTH};
use visor_imagenes::{
    DecodedImage, ImageFormat, ImageLoader, ImageLoaderFactory, LoadError, RasterFormat,
    RasterImageLoader, SvgImageLoader, VectorFormat,
};

fn encoded(width: u32, height: u32, format: image::ImageFormat) -> Vec<u8> {
    let img = image::RgbaImage::from_pixel(width, height, image::Rgba([10, 20, 30, 255]));
    let mut bytes = Vec::new();
    image::DynamicImage::ImageRgba8(img)
        .write_to(&mut Cursor::new(&mut bytes), format)
        .unwrap();
    bytes
}

#[test]
fn large_raster_is_scaled_to_fit() {
    let img = DecodedImage { width: 4000, height: 3000, pixels: vec![0u8; 4000 * 3000 * 4] };
    let out = fit_within_bounds(img);
    assert!(out.width.max(out.height) <= 1920);
    assert!(out.width <= MAX_WIDTH && out.height <= MAX_HEIGHT);
    assert_eq!((out.width, out.height), (1440, 1080));
    let skew = (out.width as i64 * 3000 - out.height as i64 * 4000).abs();
    assert!(skew <= 4000 + 3000);
    assert_eq!(out.pixels.len(), 1440 * 1080 * 4);
}

#[test]
fn wide_raster_is_scaled_to_full_width() {
    let img = DecodedImage { width: 3840, height: 100, pixels: vec![7u8; 3840 * 100 * 4] };
    let out = fit_within_bounds(img);
    assert_eq!((out.width, out.height), (1920, 50));
    assert_eq!(out.pixels.len(), 1920 * 50 * 4);
}

#[test]
fn small_raster_keeps_its_size() {
    let mut pixels = vec![1u8; 3 * 2 * 4];
    pixels.extend_from_slice(&[9, 9, 9, 9]);
    let img = DecodedImage { width: 3, height: 2, pixels };
    let out = fit_within_bounds(img);
    assert_eq!((out.width, out.height), (3, 2));
    assert_eq!(out.pixels, vec![1u8; 24]);
}

#[test]
fn empty_raster_is_clamped() {
    let img = DecodedImage { width: 5000, height: 0, pixels: Vec::new() };
    let out = fit_within_bounds(img);
    assert_eq!((out.width, out.height), (1920, 0));
    assert!(out.pixels.is_empty());
}

#[test]
fn decode_png_gives_rgba() {
    let bytes = encoded(4, 3, image::ImageFormat::Png);
    let img = decode_raster(&bytes).unwrap();
    assert_eq!((img.width, img.height), (4, 3));
    assert_eq!(img.pixels.len(), 48);
    assert_eq!(&img.pixels[0..4], &[10, 20, 30, 255]);
}

#[test]
fn decode_large_png_is_scaled() {
    let bytes = encoded(2400, 600, image::ImageFormat::Png);
    let factory = ImageLoaderFactory::new();
    let img = factory.decode("wide.png", &bytes).unwrap();
    assert_eq!((img.width, img.height), (1920, 480));
    assert_eq!(img.pixels.len(), 1920 * 480 * 4);
}

#[test]
fn decode_garbage_is_a_decode_error() {
    let factory = ImageLoaderFactory::new();
    match factory.decode("broken.jpg", b"not an image") {
        Err(LoadError::DecodeError(msg)) => assert!(!msg.is_empty()),
        other => panic!("unexpected {:?}", other),
    }
}

#[test]
fn decode_svg_is_unsupported() {
    let factory = ImageLoaderFactory::new();
    let svg = b"<svg xmlns=\"http://www.w3.org/2000/svg\"/>";
    assert_eq!(factory.decode("drawing.svg", svg), Err(LoadError::UnsupportedFormat));
    assert_eq!(factory.load_image("drawing.svg".to_string(), svg), None);
}

#[test]
fn decode_unknown_extension_is_unsupported() {
    let factory = ImageLoaderFactory::new();
    let bytes = encoded(2, 2, image::ImageFormat::Png);
    assert_eq!(factory.decode("notes.txt", &bytes), Err(LoadError::UnsupportedFormat));
    assert_eq!(factory.load_image("notes.txt".to_string(), &bytes), None);
}

#[test]
fn load_image_pairs_path_and_image() {
    let factory = ImageLoaderFactory::new();
    let bytes = encoded(2, 5, image::ImageFormat::Bmp);
    let (path, img) = factory.load_image("tiny.BMP".to_string(), &bytes).unwrap();
    assert_eq!(path, "tiny.BMP");
    assert_eq!((img.width, img.height), (2, 5));
}

#[test]
fn loaders_claim_their_formats() {
    let raster = ImageFormat::Raster(RasterFormat::Png);
    let svg = ImageFormat::Vector(VectorFormat::Svg);
    assert!(RasterImageLoader.supports_format(&raster));
    assert!(!RasterImageLoader.supports_format(&svg));
    assert!(SvgImageLoader.supports_format(&svg));
    assert!(!SvgImageLoader.supports_format(&raster));
    assert_eq!(SvgImageLoader.load(b"<svg/>"), Err(LoadError::UnsupportedFormat));
}

#[test]
fn error_messages_name_the_cause() {
    assert_eq!(LoadError::IoError("gone".to_string()).message(), "Error de E/S: gone");
    assert_eq!(
        LoadError::DecodeError("bad".to_string()).message(),
        "Error de decodificación: bad"
    );
    assert_eq!(LoadError::FormatError("odd".to_string()).message(), "Error de formato: odd");
    assert_eq!(LoadError::UnsupportedFormat.message(), "Formato no soportado");
}

#[test]
fn raster_loader_scales_a_large_file() {
    let bytes = encoded(4000, 3000, image::ImageFormat::Bmp);
    let img = RasterImageLoader.load(&bytes).unwrap();
    assert_eq!((img.width, img.height), (1440, 1080));
    let skew = (img.width as i64 * 3000 - img.height as i64 * 4000).abs();
    assert!(skew <= 4000);
    assert_eq!(img.pixels.len(), 1440 * 1080 * 4);
}
