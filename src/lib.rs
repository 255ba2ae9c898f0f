//! Core of a desktop image viewer: format classification, image decoding
//! with a bounded output size, a least-recently-used texture cache,
//! navigation over a directory's images, and the planning half of a
//! background preloader that never hands one path to two workers at once.

pub mod file_manager;
pub mod image_cache;
pub mod image_format;
pub mod image_loader;
pub mod in_flight;
pub mod navigation_manager;
pub mod path_order;
pub mod preload_manager;

pub use file_manager::FileManager;
pub use image_cache::ImageCache;
pub use image_format::{ImageFormat, RasterFormat, VectorFormat};
pub use image_loader::{
    DecodedImage, ImageLoader, ImageLoaderFactory, LoadError, RasterImageLoader, SvgImageLoader,
};
pub use in_flight::InFlightSet;
pub use navigation_manager::NavigationManager;
pub use preload_manager::PreloadManager;
