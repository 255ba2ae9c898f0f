use visor_imagenes::{ImageFormat, RasterFormat, VectorFormat};

#[test]
fn classify_upper_case_jpg_is_raster() {
    assert_eq!(
        ImageFormat::from_path("IMG.JPG"),
        Some(ImageFormat::Raster(RasterFormat::Jpeg))
    );
}

#[test]
fn classify_svg_is_vector() {
    assert_eq!(
        ImageFormat::from_path("x.svg"),
        Some(ImageFormat::Vector(VectorFormat::Svg))
    );
}

#[test]
fn classify_txt_is_none() {
    assert_eq!(ImageFormat::from_path("x.txt"), None);
    assert!(!ImageFormat::is_supported("x.txt"));
}

#[test]
fn from_extension_covers_the_allow_list() {
    let cases = [
        ("jpg", ImageFormat::Raster(RasterFormat::Jpeg)),
        ("JPEG", ImageFormat::Raster(RasterFormat::Jpeg)),
        ("png", ImageFormat::Raster(RasterFormat::Png)),
        ("Bmp", ImageFormat::Raster(RasterFormat::Bmp)),
        ("gif", ImageFormat::Raster(RasterFormat::Gif)),
        ("tiff", ImageFormat::Raster(RasterFormat::Tiff)),
        ("TIF", ImageFormat::Raster(RasterFormat::Tiff)),
        ("webp", ImageFormat::Raster(RasterFormat::Webp)),
        ("avif", ImageFormat::Raster(RasterFormat::Avif)),
        ("heic", ImageFormat::Raster(RasterFormat::Heic)),
        ("SVG", ImageFormat::Vector(VectorFormat::Svg)),
    ];
    for (ext, format) in cases {
        assert_eq!(ImageFormat::from_extension(ext), Some(format), "{}", ext);
    }
    assert_eq!(ImageFormat::from_extension(""), None);
    assert_eq!(ImageFormat::from_extension("jp"), None);
    assert_eq!(ImageFormat::from_extension("jpgx"), None);
}

#[test]
fn every_listed_extension_is_supported() {
    let exts = ImageFormat::get_supported_extensions();
    assert_eq!(
        exts,
        vec!["jpg", "jpeg", "png", "bmp", "gif", "tiff", "tif", "webp", "avif", "heic", "svg"]
    );
    for ext in exts {
        assert!(ImageFormat::from_extension(ext).is_some());
    }
}

#[test]
fn extension_follows_the_last_dot_of_the_file_name() {
    assert_eq!(ImageFormat::extension("/home/a/pic.tar.png"), Some("png"));
    assert_eq!(ImageFormat::extension("/home/a.d/readme"), None);
    assert_eq!(ImageFormat::extension("/home/a/.png"), None);
    assert_eq!(ImageFormat::extension(".png"), None);
    assert_eq!(ImageFormat::extension("name."), Some(""));
    assert_eq!(ImageFormat::extension(""), None);
    assert_eq!(ImageFormat::extension("/pics/b.png/"), Some("png"));
    assert_eq!(ImageFormat::extension("/pics/b.png/."), Some("png"));
    assert_eq!(ImageFormat::extension("/pics/b.png//./"), Some("png"));
    assert_eq!(ImageFormat::extension(".."), None);
    assert_eq!(ImageFormat::extension("/pics/.."), None);
    assert_eq!(ImageFormat::extension("/pics/..."), Some(""));
    assert_eq!(ImageFormat::extension("."), None);
    assert_eq!(ImageFormat::extension("/"), None);
    assert_eq!(ImageFormat::from_path("/photos/.hidden"), None);
    assert_eq!(
        ImageFormat::from_path("/photos/holiday.Png"),
        Some(ImageFormat::Raster(RasterFormat::Png))
    );
}
