use egui::{Color32, ColorImage, Context, TextureHandle, TextureOptions};
use visor_imagenes::{ImageCache, PreloadManager};

fn paths(names: &[&str]) -> Vec<String> {
    names.iter().map(|n| n.to_string()).collect()
}

fn texture(ctx: &Context, name: &str) -> TextureHandle {
    ctx.load_texture(name, ColorImage::new([1, 1], Color32::WHITE), TextureOptions::default())
}

#[test]
fn window_puts_current_first() {
    let manager = PreloadManager::new(2);
    let cache = ImageCache::new(10);
    let list = paths(&["0", "1", "2", "3", "4", "5", "6"]);
    let todo = manager.preload_images_around_index(&list, 3, &cache);
    assert_eq!(todo, paths(&["3", "1", "2", "4", "5"]));
}

#[test]
fn window_is_clamped_at_the_edges() {
    let manager = PreloadManager::new(2);
    let cache = ImageCache::new(10);
    let list = paths(&["0", "1", "2", "3"]);
    assert_eq!(manager.preload_images_around_index(&list, 0, &cache), paths(&["0", "1", "2"]));
    assert_eq!(manager.preload_images_around_index(&list, 3, &cache), paths(&["3", "1", "2"]));
    assert!(manager.preload_images_around_index(&[], 0, &cache).is_empty());
}

#[test]
fn cached_paths_are_not_loaded_again() {
    let ctx = Context::default();
    let manager = PreloadManager::new(1);
    let mut cache = ImageCache::new(10);
    cache.insert("2".to_string(), texture(&ctx, "2"));
    cache.insert("1".to_string(), texture(&ctx, "1"));
    let list = paths(&["0", "1", "2", "3"]);
    assert_eq!(manager.preload_images_around_index(&list, 2, &cache), paths(&["3"]));
    assert_eq!(manager.preload_range(), 1);
}

#[test]
fn loaded_images_are_cached_in_order() {
    let ctx = Context::default();
    let manager = PreloadManager::new(1);
    let mut cache = ImageCache::new(2);
    let loaded = vec![
        ("a".to_string(), texture(&ctx, "a")),
        ("b".to_string(), texture(&ctx, "b")),
        ("c".to_string(), texture(&ctx, "c")),
    ];
    manager.process_loaded_images(loaded, &mut cache);
    assert_eq!(cache.len(), 2);
    assert!(!cache.contains("a"));
    assert!(cache.contains("b"));
    assert!(cache.contains("c"));
}
