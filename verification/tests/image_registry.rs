use lore_core::image_manager::{
    BulkUpdateResult, HashedFile, ImageEntry, ImageError, ImageIndex, ImageProbe, ImageReference,
    ImageRegistry, IMAGE_INDEX_VERSION,
};

fn probe(hash: &str, size: u64) -> Option<ImageProbe> {
    Some(ImageProbe { hash: hash.to_string(), size_bytes: size })
}

fn strings(v: &[&str]) -> Vec<String> {
    v.iter().map(|s| s.to_string()).collect()
}

fn registry() -> ImageRegistry {
    ImageRegistry::new_at("/ws", None, "t0")
}

fn register(r: &mut ImageRegistry, path: &str, file: &str, now: &str) {
    r.register_image_at(path.to_string(), file.to_string(), probe("h", 10), now).unwrap();
}

#[test]
fn a_new_registry_is_empty() {
    let r = registry();
    assert_eq!(r.index().version, IMAGE_INDEX_VERSION);
    assert_eq!(r.index().last_indexed, "t0");
    assert!(r.index().images.is_empty());
    assert_eq!(r.workspace_path(), "/ws");
    let r = ImageRegistry::new("/ws", None);
    assert!(r.index().images.is_empty());
    assert!(!r.index().last_indexed.is_empty());
}

#[test]
fn a_stored_index_is_taken_as_it_is() {
    let stored = ImageIndex {
        version: 1,
        last_indexed: "then".to_string(),
        images: vec![ImageEntry {
            path: "img/a.png".to_string(),
            reference: ImageReference {
                hash: "h".to_string(),
                original_name: "a.png".to_string(),
                added_at: "then".to_string(),
                used_by: strings(&["doc.md"]),
                size_bytes: 3,
                last_verified: "then".to_string(),
            },
        }],
    };
    let r = ImageRegistry::new_at("/ws", Some(stored), "now");
    assert_eq!(r.index().last_indexed, "then");
    assert_eq!(r.users_of("img/a.png"), Some(strings(&["doc.md"])));
}

#[test]
fn registering_creates_an_entry() {
    let mut r = registry();
    r.register_image_at("img/a.png".to_string(), "doc1.md".to_string(), probe("abc", 77), "t1")
        .unwrap();
    let e = &r.index().images[0];
    assert_eq!(e.path, "img/a.png");
    assert_eq!(e.reference.hash, "abc");
    assert_eq!(e.reference.original_name, "a.png");
    assert_eq!(e.reference.added_at, "t1");
    assert_eq!(e.reference.last_verified, "t1");
    assert_eq!(e.reference.size_bytes, 77);
    assert_eq!(e.reference.used_by, strings(&["doc1.md"]));
}

#[test]
fn registering_twice_for_one_file_keeps_a_single_usage() {
    let mut r = registry();
    register(&mut r, "img/a.png", "doc1.md", "t1");
    r.register_image_at("img/a.png".to_string(), "doc1.md".to_string(), probe("other", 1), "t2")
        .unwrap();
    assert_eq!(r.index().images.len(), 1);
    let e = &r.index().images[0];
    assert_eq!(e.reference.used_by, strings(&["doc1.md"]));
    assert_eq!(e.reference.hash, "h");
    assert_eq!(e.reference.size_bytes, 10);
    assert_eq!(e.reference.added_at, "t1");
    assert_eq!(e.reference.last_verified, "t2");
}

#[test]
fn registering_for_another_file_adds_a_usage() {
    let mut r = registry();
    register(&mut r, "img/a.png", "doc1.md", "t1");
    register(&mut r, "img/a.png", "doc2.md", "t2");
    register(&mut r, "img/b.png", "doc2.md", "t3");
    assert_eq!(r.users_of("img/a.png"), Some(strings(&["doc1.md", "doc2.md"])));
    assert_eq!(r.users_of("img/b.png"), Some(strings(&["doc2.md"])));
    assert_eq!(r.users_of("img/c.png"), None);
    assert_eq!(r.registered_paths(), strings(&["img/a.png", "img/b.png"]));
}

#[test]
fn registering_a_missing_image_is_refused() {
    let mut r = registry();
    match r.register_image_at("img/a.png".to_string(), "doc1.md".to_string(), None, "t1") {
        Err(ImageError::ImageNotFound(p)) => assert_eq!(p, "/ws/img/a.png"),
        other => panic!("unexpected {:?}", other),
    }
    assert!(r.index().images.is_empty());
    let e = r.register_image("img/a.png".to_string(), "doc1.md".to_string(), None).unwrap_err();
    assert_eq!(e.message(), "Image file does not exist: /ws/img/a.png");
}

#[test]
fn registering_now_uses_one_moment_for_both_times() {
    let mut r = registry();
    r.register_image("img/a.png".to_string(), "doc1.md".to_string(), probe("h", 1)).unwrap();
    let e = &r.index().images[0];
    assert!(!e.reference.added_at.is_empty());
    assert_eq!(e.reference.added_at, e.reference.last_verified);
    assert_eq!(e.reference.used_by, strings(&["doc1.md"]));
}

#[test]
fn references_are_reconciled_by_path() {
    let mut r = registry();
    register(&mut r, "img/a.png", "doc1.md", "t1");
    register(&mut r, "img/b.png", "doc1.md", "t1");
    register(&mut r, "img/b.png", "doc2.md", "t1");
    register(&mut r, "img/c.png", "doc2.md", "t1");
    r.update_image_references_at(
        "doc1.md".to_string(),
        strings(&["img/b.png", "img/c.png", "img/unregistered.png"]),
        "t2",
    );
    assert_eq!(r.users_of("img/a.png"), Some(vec![]));
    assert_eq!(r.users_of("img/b.png"), Some(strings(&["doc1.md", "doc2.md"])));
    assert_eq!(r.users_of("img/c.png"), Some(strings(&["doc2.md", "doc1.md"])));
    assert_eq!(r.users_of("img/unregistered.png"), None);
    let images = &r.index().images;
    assert_eq!(images[0].reference.last_verified, "t1");
    assert_eq!(images[1].reference.last_verified, "t1");
    assert_eq!(images[2].reference.last_verified, "t2");
    r.update_image_references("doc2.md".to_string(), vec![]);
    assert_eq!(r.users_of("img/b.png"), Some(strings(&["doc1.md"])));
    assert_eq!(r.users_of("img/c.png"), Some(strings(&["doc1.md"])));
}

#[test]
fn validation_reports_missing_and_orphaned_and_refreshes_what_is_present() {
    let mut r = registry();
    register(&mut r, "img/a.png", "doc1.md", "t1");
    register(&mut r, "img/b.png", "doc2.md", "t1");
    let report = r.validate_index_at(
        &strings(&["img/a.png"]),
        &strings(&[".lore\\assets\\images\\x.png", "img/a.png"]),
        "t2",
    );
    assert_eq!(report.total_images, 2);
    assert_eq!(report.missing_images.len(), 1);
    assert_eq!(report.missing_images[0].path, "img/b.png");
    assert_eq!(report.missing_images[0].original_name, "b.png");
    assert_eq!(report.missing_images[0].used_by, strings(&["doc2.md"]));
    assert_eq!(report.orphaned_images, strings(&[".lore/assets/images/x.png"]));
    assert!(!report.is_clean());
    assert_eq!(r.index().images[0].reference.last_verified, "t2");
    assert_eq!(r.index().images[0].reference.added_at, "t1");
    assert_eq!(r.index().images[1].reference.last_verified, "t1");
    assert_eq!(r.index().images.len(), 2);
}

#[test]
fn orphans_alone_do_not_keep_present_images_from_being_refreshed() {
    let mut r = registry();
    register(&mut r, "img/a.png", "doc1.md", "t1");
    let report =
        r.validate_index_at(&strings(&["img/a.png"]), &strings(&["img/stray.png"]), "t2");
    assert!(!report.is_clean());
    assert!(report.missing_images.is_empty());
    assert_eq!(report.orphaned_images, strings(&["img/stray.png"]));
    assert_eq!(r.index().images[0].reference.last_verified, "t2");
}

#[test]
fn clean_validation_refreshes_every_image() {
    let mut r = registry();
    register(&mut r, "img/a.png", "doc1.md", "t1");
    register(&mut r, "img/b.png", "doc2.md", "t1");
    let report =
        r.validate_index_at(&strings(&["img/b.png", "img/a.png"]), &strings(&["img/a.png"]), "t2");
    assert!(report.is_clean());
    assert_eq!(report.total_images, 2);
    assert_eq!(r.index().images[0].reference.last_verified, "t2");
    assert_eq!(r.index().images[1].reference.last_verified, "t2");
    assert_eq!(r.index().images[0].reference.added_at, "t1");
    assert_eq!(r.users_of("img/a.png"), Some(strings(&["doc1.md"])));
    let report = r.validate_index(&strings(&["img/a.png"]), &vec![]);
    assert_eq!(report.missing_images.len(), 1);
    assert_eq!(r.find_orphaned_images(&strings(&["img/a.png", "img/z.png"])), strings(&["img/z.png"]));
}

#[test]
fn candidates_are_the_files_with_the_wanted_hash() {
    let listing = vec![
        HashedFile { path: ".lore/assets/images/a.png".to_string(), hash: "h1".to_string() },
        HashedFile { path: ".lore\\assets\\images\\b.png".to_string(), hash: "h2".to_string() },
        HashedFile { path: ".lore/assets/images/c.png".to_string(), hash: "h2".to_string() },
    ];
    assert_eq!(
        ImageRegistry::find_image_candidates(&listing, "h2"),
        strings(&[".lore/assets/images/b.png", ".lore/assets/images/c.png"])
    );
    assert!(ImageRegistry::find_image_candidates(&listing, "h3").is_empty());
}

#[test]
fn bulk_update_moves_the_entry_and_updates_the_users() {
    let mut r = registry();
    register(&mut r, "img/a.png", "doc1.md", "t1");
    register(&mut r, "img/other.png", "doc1.md", "t1");
    let files = r.bulk_update_image_path_at("img/a.png", "img/b.png", "t2").unwrap();
    assert_eq!(files, strings(&["doc1.md"]));
    assert_eq!(r.users_of("img/a.png"), None);
    assert_eq!(r.users_of("img/b.png"), Some(strings(&["doc1.md"])));
    assert_eq!(r.registered_paths(), strings(&["img/other.png", "img/b.png"]));
    let moved = &r.index().images[1];
    assert_eq!(moved.reference.added_at, "t1");
    assert_eq!(moved.reference.last_verified, "t2");
    assert_eq!(moved.reference.original_name, "a.png");
    let content = "---\nimage: img/a.png\n---\n![hero](img/a.png) and img/a.png.bak";
    let updated = ImageRegistry::update_file_frontmatter(content, "img/a.png", "img/b.png");
    assert_eq!(updated, "---\nimage: img/b.png\n---\n![hero](img/b.png) and img/b.png.bak");
    assert!(updated.contains("img/b.png"));
    assert!(!updated.contains("img/a.png"));
}

#[test]
fn bulk_update_onto_a_registered_path_takes_its_place() {
    let mut r = registry();
    register(&mut r, "img/a.png", "doc1.md", "t1");
    register(&mut r, "img/b.png", "doc2.md", "t1");
    r.bulk_update_image_path("img/a.png", "img/b.png").unwrap();
    assert_eq!(r.registered_paths(), strings(&["img/b.png"]));
    assert_eq!(r.users_of("img/b.png"), Some(strings(&["doc1.md"])));
}

#[test]
fn bulk_update_of_an_unregistered_path_is_refused() {
    let mut r = registry();
    register(&mut r, "img/a.png", "doc1.md", "t1");
    match r.bulk_update_image_path_at("img/zzz.png", "img/b.png", "t2") {
        Err(ImageError::NotInIndex(p)) => assert_eq!(p, "img/zzz.png"),
        other => panic!("unexpected {:?}", other),
    }
    assert_eq!(r.registered_paths(), strings(&["img/a.png"]));
    let e = r.bulk_update_image_path("nope", "x").unwrap_err();
    assert_eq!(e.message(), "Image not found in index: nope");
}

#[test]
fn replacement_is_literal_left_to_right_and_without_overlap() {
    let f = ImageRegistry::update_file_frontmatter;
    assert_eq!(f("aaaa", "aa", "b"), "bb");
    assert_eq!(f("aaa", "aa", "b"), "ba");
    assert_eq!(f("abcabc", "bc", ""), "aa");
    assert_eq!(f("nothing here", "img", "x"), "nothing here");
    assert_eq!(f("", "a", "b"), "");
    assert_eq!(f("keep", "", "x"), "keep");
    assert_eq!(f("xay", "a", "aa"), "xaay");
    assert_eq!(f("héllo wörld", "ö", "oe"), "héllo woerld");
}

#[test]
fn outcomes_part_the_files() {
    let r = BulkUpdateResult::from_outcomes(
        &strings(&["a.md", "b.md", "c.md", "d.md"]),
        &vec![true, false, true],
    );
    assert_eq!(r.updated_files, strings(&["a.md", "c.md"]));
    assert_eq!(r.failed_files, strings(&["b.md", "d.md"]));
}

#[test]
fn an_index_is_valid_unless_a_path_has_two_entries() {
    let entry = |path: &str| ImageEntry {
        path: path.to_string(),
        reference: ImageReference {
            hash: "h".to_string(),
            original_name: "n".to_string(),
            added_at: "t".to_string(),
            used_by: vec![],
            size_bytes: 0,
            last_verified: "t".to_string(),
        },
    };
    let mut index = ImageIndex { version: 1, last_indexed: "t".to_string(), images: vec![] };
    assert!(index.is_well_formed());
    index.images.push(entry("img/a.png"));
    index.images.push(entry("img/b.png"));
    assert!(index.is_well_formed());
    index.images.push(entry("img/a.png"));
    assert!(!index.is_well_formed());
    let mut r = registry();
    register(&mut r, "img/a.png", "doc1.md", "t1");
    register(&mut r, "img/b.png", "doc1.md", "t1");
    register(&mut r, "img/a.png", "doc2.md", "t1");
    r.update_image_references_at("doc1.md".to_string(), strings(&["img/b.png"]), "t2");
    r.bulk_update_image_path_at("img/a.png", "img/b.png", "t3").unwrap();
    assert!(r.index().is_well_formed());
}
