use lore_core::hashing::{hash_chunks, to_hex, ContentHasher};
use lore_core::image_manager::ImageRegistry;

#[test]
fn hex_is_lower_case_two_digits_per_byte() {
    assert_eq!(to_hex(&vec![]), "");
    assert_eq!(to_hex(&vec![0x00, 0x0f, 0xa0, 0xff, 0x7b]), "000fa0ff7b");
}

#[test]
fn hash_of_known_contents() {
    assert_eq!(
        hash_chunks(&vec![b"abc".to_vec()]),
        "ba7816bf8f01cfea414140de5dae2223b00361a396177a9cb410ff61f20015ad"
    );
    assert_eq!(
        hash_chunks(&vec![]),
        "e3b0c44298fc1c149afbf4c8996fb92427ae41e4649b934ca495991b7852b855"
    );
}

#[test]
fn hash_does_not_depend_on_how_the_content_is_cut() {
    let whole = hash_chunks(&vec![b"the quick brown fox".to_vec()]);
    let cut = hash_chunks(&vec![b"the qu".to_vec(), vec![], b"ick brown".to_vec(), b" fox".to_vec()]);
    assert_eq!(whole, cut);
    assert_eq!(ImageRegistry::calculate_file_hash(&vec![b"the quick brown fox".to_vec()]), whole);
    let mut h = ContentHasher::new();
    h.update(b"the quick ");
    h.update(b"brown fox");
    assert_eq!(h.finish(), whole);
    assert_ne!(hash_chunks(&vec![b"the quick brown foy".to_vec()]), whole);
}
