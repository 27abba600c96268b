use mdpreview::block::{Block, RenderedImage};
use mdpreview::markdown::parse;
use mdpreview::mermaid::{
    even_dimension, half_block_rows, hash_source, limited_columns, max_diagram_rows, pending_jobs,
    place_image, preferred_columns, MermaidCache, MAX_IMG_H, MAX_IMG_W, NODE_SPACING, RANK_SPACING,
};
use std::collections::hash_map::DefaultHasher;
use std::hash::{Hash, Hasher};

const DOCUMENT: &str = "a\n\n```mermaid\none\n```\n\n---\n\n```mermaid\ntwo\n```\n";

fn image(width: u32, height: u32, fill: u8) -> RenderedImage {
    RenderedImage { rgba: vec![fill; (width * height * 4) as usize], width, height }
}

#[test]
fn keys_are_the_hashes_of_the_sources() {
    for source in ["", "graph TD", "größe", "a\nb"] {
        let mut hasher = DefaultHasher::new();
        source.hash(&mut hasher);
        assert_eq!(hash_source(source), hasher.finish());
    }
}

#[test]
fn stored_images_are_found_again() {
    let mut cache = MermaidCache::new();
    assert!(cache.lookup("a").is_none());
    let stored = cache.store("a", Some(image(2, 1, 7))).unwrap();
    assert_eq!(stored.rgba, vec![7; 8]);
    let found = cache.lookup("a").unwrap();
    assert_eq!((found.rgba, found.width, found.height), (vec![7; 8], 2, 1));
    assert!(cache.lookup("b").is_none());
    cache.store("a", Some(image(1, 1, 9)));
    assert_eq!(cache.lookup("a").unwrap().rgba, vec![9; 4]);
}

#[test]
fn failed_drawings_are_not_stored() {
    let mut cache = MermaidCache::new();
    assert!(cache.store("a", None).is_none());
    let short = RenderedImage { rgba: vec![0; 7], width: 2, height: 1 };
    assert!(cache.store("a", Some(short)).is_none());
    let huge = RenderedImage { rgba: Vec::new(), width: u32::MAX, height: u32::MAX };
    assert!(cache.store("a", Some(huge)).is_none());
    assert!(cache.lookup("a").is_none());
}

#[test]
fn pending_diagrams_are_jobs() {
    let mut blocks = parse(DOCUMENT);
    assert_eq!(
        pending_jobs(&blocks),
        vec![(1, "one\n".to_string()), (3, "two\n".to_string())]
    );
    place_image(&mut blocks, 1, image(1, 1, 0));
    assert_eq!(pending_jobs(&blocks), vec![(3, "two\n".to_string())]);
    assert_eq!(pending_jobs(&[]), Vec::new());
}

#[test]
fn images_are_placed_on_diagrams_only() {
    let mut blocks = parse(DOCUMENT);
    let before = format!("{:?}", blocks);
    place_image(&mut blocks, 0, image(1, 1, 0));
    place_image(&mut blocks, 4, image(1, 1, 0));
    place_image(&mut blocks, usize::MAX, image(1, 1, 0));
    assert_eq!(format!("{:?}", blocks), before);
    place_image(&mut blocks, 3, image(1, 1, 5));
    match &blocks[3] {
        Block::Mermaid { source, image: Some(image) } => {
            assert_eq!(source, "two\n");
            assert_eq!(image.rgba, vec![5; 4]);
        }
        _ => panic!("no image"),
    }
}

#[test]
fn images_can_be_placed_in_either_order() {
    let mut one = parse(DOCUMENT);
    let mut two = parse(DOCUMENT);
    place_image(&mut one, 1, image(1, 1, 1));
    place_image(&mut one, 3, image(2, 2, 2));
    place_image(&mut two, 3, image(2, 2, 2));
    place_image(&mut two, 1, image(1, 1, 1));
    assert_eq!(format!("{:?}", one), format!("{:?}", two));
}

#[test]
fn dimensions_are_even() {
    assert_eq!(even_dimension(0), 16);
    assert_eq!(even_dimension(15), 16);
    assert_eq!(even_dimension(16), 16);
    assert_eq!(even_dimension(17), 16);
    assert_eq!(even_dimension(1599), 1598);
    assert_eq!(even_dimension(u32::MAX), u32::MAX - 1);
}

#[test]
fn diagrams_get_suitable_columns() {
    assert_eq!(preferred_columns(80, true, 1600), 63);
    assert_eq!(preferred_columns(80, false, 1600), 46);
    assert_eq!(preferred_columns(80, true, 300), 50);
    assert_eq!(preferred_columns(80, true, 60), 30);
    assert_eq!(preferred_columns(30, true, 1600), 22);
    assert_eq!(preferred_columns(8, true, 1600), 0);
    assert_eq!(preferred_columns(u16::MAX, true, u32::MAX), 58972);
}

#[test]
fn diagrams_fit_two_thirds_of_the_rows() {
    assert_eq!(max_diagram_rows(24), 16);
    assert_eq!(max_diagram_rows(25), 16);
    assert_eq!(max_diagram_rows(0), 0);
    assert_eq!(limited_columns(63, 16, 16, 40), 63);
    assert_eq!(limited_columns(63, 17, 16, 40), 40);
    assert_eq!(limited_columns(63, 17, 16, 3), 20);
    assert_eq!(half_block_rows(3), 4);
    assert_eq!(half_block_rows(9), 9);
}

#[test]
fn drawing_has_fixed_measures() {
    assert_eq!((NODE_SPACING, RANK_SPACING), (80, 60));
    assert_eq!((MAX_IMG_W, MAX_IMG_H), (1600, 1200));
}
