use egui::{Color32, ColorImage, Context, TextureHandle, TextureOptions};
use visor_imagenes::ImageCache;

fn texture(ctx: &Context, name: &str) -> TextureHandle {
    ctx.load_texture(name, ColorImage::new([1, 1], Color32::WHITE), TextureOptions::default())
}

#[test]
fn third_insert_evicts_the_oldest() {
    let ctx = Context::default();
    let mut cache = ImageCache::new(2);
    cache.insert("A".to_string(), texture(&ctx, "A"));
    cache.insert("B".to_string(), texture(&ctx, "B"));
    cache.insert("C".to_string(), texture(&ctx, "C"));
    assert!(!cache.contains("A"));
    assert!(cache.contains("B"));
    assert!(cache.contains("C"));
    assert_eq!(cache.len(), 2);
}

#[test]
fn get_protects_an_entry_from_eviction() {
    let ctx = Context::default();
    let mut cache = ImageCache::new(2);
    let a = texture(&ctx, "A");
    let a_id = a.id();
    cache.insert("A".to_string(), a);
    cache.insert("B".to_string(), texture(&ctx, "B"));
    assert_eq!(cache.get("A").map(|t| t.id()), Some(a_id));
    cache.insert("C".to_string(), texture(&ctx, "C"));
    assert!(cache.contains("A"));
    assert!(!cache.contains("B"));
    assert!(cache.contains("C"));
}

#[test]
fn get_misses_without_change() {
    let ctx = Context::default();
    let mut cache = ImageCache::new(2);
    cache.insert("A".to_string(), texture(&ctx, "A"));
    assert!(cache.get("Z").is_none());
    assert_eq!(cache.len(), 1);
}

#[test]
fn reinsert_updates_without_duplicating() {
    let ctx = Context::default();
    let mut cache = ImageCache::new(2);
    cache.insert("A".to_string(), texture(&ctx, "A1"));
    cache.insert("B".to_string(), texture(&ctx, "B"));
    let newer = texture(&ctx, "A2");
    let newer_id = newer.id();
    cache.insert("A".to_string(), newer);
    assert_eq!(cache.len(), 2);
    assert!(cache.contains("B"));
    assert_eq!(cache.get("A").map(|t| t.id()), Some(newer_id));
    // A was refreshed, so B is now the oldest.
    cache.insert("C".to_string(), texture(&ctx, "C"));
    assert!(!cache.contains("B"));
    assert!(cache.contains("A"));
}

#[test]
fn zero_capacity_cache_holds_nothing() {
    let ctx = Context::default();
    let mut cache = ImageCache::new(0);
    cache.insert("A".to_string(), texture(&ctx, "A"));
    assert_eq!(cache.len(), 0);
    assert!(!cache.contains("A"));
    assert!(cache.get("A").is_none());
}

#[test]
fn size_never_exceeds_capacity() {
    let ctx = Context::default();
    let mut cache = ImageCache::new(3);
    for i in 0..20 {
        let key = format!("img{}", i % 7);
        cache.insert(key.clone(), texture(&ctx, &key));
        let _ = cache.get(&format!("img{}", i % 3));
        assert!(cache.len() <= 3);
    }
    assert_eq!(cache.max_size(), 3);
}

#[test]
fn clear_empties_the_cache() {
    let ctx = Context::default();
    let mut cache = ImageCache::new(2);
    cache.insert("A".to_string(), texture(&ctx, "A"));
    cache.clear();
    assert_eq!(cache.len(), 0);
    assert!(!cache.contains("A"));
    cache.insert("B".to_string(), texture(&ctx, "B"));
    assert!(cache.contains("B"));
}
