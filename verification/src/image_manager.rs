//! The image registry: which images a workspace holds, by path, and which
//! content files use each of them.

use vstd::prelude::*;
use crate::hashing::{content_hash, hash_chunks, joined};
use crate::paths::{file_name, name_of};
use crate::seqs::{
    distinct_by, has_key, lemma_filter_distinct, lemma_filter_drops_key, lemma_push_distinct,
    lemma_views_push, lemma_views_take_all, lemma_views_take_next, views,
};
use crate::text::{
    chars_of, clone_strings, concat, contains_text, owned, replace_all, replace_text, slashed,
    str_eq, texts, to_slashed,
};

verus! {

/// The name of the document that holds the registry.
pub const IMAGE_INDEX_FILE: &'static str = "image_references.json";

/// The version of the registry's layout.
pub const IMAGE_INDEX_VERSION: u32 = 1;

/// The directory, relative to the workspace, that holds the image files.
pub const ASSETS_DIR: &'static str = ".lore/assets/images";

/// Why an operation on the registry was refused.
#[derive(Debug)]
pub enum ImageError {
    /// There is no image file at this path.
    ImageNotFound(String),
    /// The registry has no entry for this path.
    NotInIndex(String),
}

impl ImageError {
    /// Whether the error says that there is no image file at `path`.
    pub open spec fn is_image_not_found(self, path: Seq<char>) -> bool {
        match self {
            ImageError::ImageNotFound(p) => p@ == path,
            _ => false,
        }
    }

    /// Whether the error says that the registry has no entry for `path`.
    pub open spec fn is_not_in_index(self, path: Seq<char>) -> bool {
        match self {
            ImageError::NotInIndex(p) => p@ == path,
            _ => false,
        }
    }

    /// The text that describes the error to a user.
    pub open spec fn message_of(self) -> Seq<char> {
        match self {
            ImageError::ImageNotFound(p) => "Image file does not exist: "@ + p@,
            ImageError::NotInIndex(p) => "Image not found in index: "@ + p@,
        }
    }

    /// The text that describes the error to a user.
    pub fn message(&self) -> (r: String)
        ensures
            r@ == self.message_of(),
    {
        match self {
            ImageError::ImageNotFound(p) => concat("Image file does not exist: ", p.as_str()),
            ImageError::NotInIndex(p) => concat("Image not found in index: ", p.as_str()),
        }
    }
}

/// What the registry knows of one image.
#[derive(Debug, PartialEq, Eq)]
pub struct ImageReference {
    /// Content hash of the image file.
    pub hash: String,
    /// File name of the image when it was registered.
    pub original_name: String,
    /// When the image was registered.
    pub added_at: String,
    /// The content files that use the image, each once.
    pub used_by: Vec<String>,
    /// Size of the image file in bytes.
    pub size_bytes: u64,
    /// When the image was last seen.
    pub last_verified: String,
}

/// What an `ImageReference` stands for.
pub struct ReferenceRecord {
    pub hash: Seq<char>,
    pub original_name: Seq<char>,
    pub added_at: Seq<char>,
    pub used_by: Seq<Seq<char>>,
    pub size_bytes: u64,
    pub last_verified: Seq<char>,
}

impl View for ImageReference {
    type V = ReferenceRecord;

    open spec fn view(&self) -> ReferenceRecord {
        ReferenceRecord {
            hash: self.hash@,
            original_name: self.original_name@,
            added_at: self.added_at@,
            used_by: texts(self.used_by@),
            size_bytes: self.size_bytes,
            last_verified: self.last_verified@,
        }
    }
}

impl Clone for ImageReference {
    fn clone(&self) -> (r: Self)
        ensures
            r@ == self@,
    {
        ImageReference {
            hash: self.hash.clone(),
            original_name: self.original_name.clone(),
            added_at: self.added_at.clone(),
            used_by: clone_strings(&self.used_by),
            size_bytes: self.size_bytes,
            last_verified: self.last_verified.clone(),
        }
    }
}

/// One image of the registry: its path and what is known of it.
#[derive(Debug, PartialEq, Eq)]
pub struct ImageEntry {
    /// Path of the image relative to the workspace.
    pub path: String,
    pub reference: ImageReference,
}

/// What an `ImageEntry` stands for.
pub struct ImageRecord {
    pub path: Seq<char>,
    pub reference: ReferenceRecord,
}

impl View for ImageEntry {
    type V = ImageRecord;

    open spec fn view(&self) -> ImageRecord {
        ImageRecord { path: self.path@, reference: self.reference@ }
    }
}

impl Clone for ImageEntry {
    fn clone(&self) -> (r: Self)
        ensures
            r@ == self@,
    {
        ImageEntry { path: self.path.clone(), reference: self.reference.clone() }
    }
}

/// The registry as it is stored: the images by path, in the order in which
/// they were registered.
#[derive(Debug, PartialEq, Eq)]
pub struct ImageIndex {
    pub version: u32,
    pub last_indexed: String,
    pub images: Vec<ImageEntry>,
}

/// What an `ImageIndex` stands for.
pub struct IndexRecord {
    pub version: u32,
    pub last_indexed: Seq<char>,
    pub images: Seq<ImageRecord>,
}

impl View for ImageIndex {
    type V = IndexRecord;

    open spec fn view(&self) -> IndexRecord {
        IndexRecord {
            version: self.version,
            last_indexed: self.last_indexed@,
            images: views(self.images@),
        }
    }
}

impl ImageIndex {
    /// Whether the index is valid: no path has two entries.
    pub fn is_well_formed(&self) -> (r: bool)
        ensures
            r == one_entry_per_path(self@.images),
    {
        let mut i: usize = 0;
        while i < self.images.len()
            invariant
                i <= self.images.len(),
                forall|a: int, b: int|
                    0 <= a < b < i ==> (#[trigger] self@.images[a]).path != (
                    #[trigger] self@.images[b]).path,
            decreases self.images.len() - i,
        {
            let mut j: usize = 0;
            while j < i
                invariant
                    j <= i < self.images.len(),
                    forall|k: int|
                        0 <= k < j ==> (#[trigger] self@.images[k]).path
                            != self@.images[i as int].path,
                decreases i - j,
            {
                if str_eq(self.images[j].path.as_str(), self.images[i].path.as_str()) {
                    proof {
                        let images = self@.images;
                        assert(image_key()(images[j as int]) == image_key()(images[i as int]));
                    }
                    return false;
                }
                j += 1;
            }
            i += 1;
        }
        proof {
            let images = self@.images;
            assert forall|a: int, b: int| 0 <= a < b < images.len() implies image_key()(
                images[a],
            ) != image_key()(images[b]) by {
                assert(images[a].path != images[b].path);
            }
        }
        true
    }
}

/// What was found of an image file on disk.
#[derive(Debug, PartialEq, Eq)]
pub struct ImageProbe {
    /// Content hash of the file.
    pub hash: String,
    /// Size of the file in bytes.
    pub size_bytes: u64,
}

/// A file of the assets directory with its content hash.
#[derive(Debug, PartialEq, Eq)]
pub struct HashedFile {
    /// Path of the file relative to the workspace.
    pub path: String,
    /// Content hash of the file.
    pub hash: String,
}

/// A registered image whose file is gone.
#[derive(Debug, PartialEq, Eq)]
pub struct MissingImageInfo {
    pub path: String,
    pub original_name: String,
    pub used_by: Vec<String>,
}

/// What a `MissingImageInfo` stands for.
pub struct MissingRecord {
    pub path: Seq<char>,
    pub original_name: Seq<char>,
    pub used_by: Seq<Seq<char>>,
}

impl View for MissingImageInfo {
    type V = MissingRecord;

    open spec fn view(&self) -> MissingRecord {
        MissingRecord {
            path: self.path@,
            original_name: self.original_name@,
            used_by: texts(self.used_by@),
        }
    }
}

/// What a validation found.
#[derive(Debug, PartialEq, Eq)]
pub struct ValidationReport {
    /// How many images are registered.
    pub total_images: usize,
    /// The registered images whose file is gone.
    pub missing_images: Vec<MissingImageInfo>,
    /// The files of the assets directory that are not registered.
    pub orphaned_images: Vec<String>,
}

impl ValidationReport {
    /// Whether the validation found nothing missing and nothing orphaned.
    pub fn is_clean(&self) -> (r: bool)
        ensures
            r == (self.missing_images@.len() == 0 && self.orphaned_images@.len() == 0),
    {
        self.missing_images.len() == 0 && self.orphaned_images.len() == 0
    }
}

/// How the rewriting of the files that use a moved image went.
#[derive(Debug, PartialEq, Eq)]
pub struct BulkUpdateResult {
    pub updated_files: Vec<String>,
    pub failed_files: Vec<String>,
}

/// The answer to a request to register an image.
#[derive(Debug, PartialEq, Eq)]
pub struct ImageRegistrationResponse {
    pub success: bool,
    pub message: String,
}

/// The key of an image record.
pub open spec fn image_key() -> spec_fn(ImageRecord) -> Seq<char> {
    |e: ImageRecord| e.path
}

/// Whether the images hold an entry for `key`.
pub open spec fn holds(images: Seq<ImageRecord>, key: Seq<char>) -> bool {
    has_key(images, image_key(), key)
}

/// Whether `i` is the index of the first entry for `key`.
pub open spec fn is_first(images: Seq<ImageRecord>, key: Seq<char>, i: int) -> bool {
    &&& 0 <= i < images.len()
    &&& images[i].path == key
    &&& forall|j: int| 0 <= j < i ==> (#[trigger] images[j]).path != key
}

/// The index of the first entry for `key`, where there is one.
pub open spec fn position(images: Seq<ImageRecord>, key: Seq<char>) -> int {
    choose|i: int| is_first(images, key, i)
}

/// The invariant of the registry: a path has at most one entry.
pub open spec fn one_entry_per_path(images: Seq<ImageRecord>) -> bool {
    distinct_by(images, image_key())
}

/// The first entry for a key is at `position`.
proof fn lemma_position(images: Seq<ImageRecord>, key: Seq<char>, i: int)
    requires
        is_first(images, key, i),
    ensures
        position(images, key) == i,
        holds(images, key),
{
    let p = position(images, key);
    assert(is_first(images, key, p));
    if p < i {
        assert(images[p].path != key);
    }
    if i < p {
        assert(images[i].path != key);
    }
    assert(image_key()(images[i]) == key);
}

/// The name under which an image is registered: the last segment of its
/// path, or `unknown` where that segment is empty.
pub open spec fn image_name(path: Seq<char>) -> Seq<char> {
    if name_of(path).len() == 0 {
        "unknown"@
    } else {
        name_of(path)
    }
}

/// What is known of an image after `file` was found to use it at `now`:
/// `file` is among its users, once more only if it was not yet.
pub open spec fn touched(r: ReferenceRecord, file: Seq<char>, now: Seq<char>) -> ReferenceRecord {
    ReferenceRecord {
        hash: r.hash,
        original_name: r.original_name,
        added_at: r.added_at,
        used_by: if r.used_by.contains(file) {
            r.used_by
        } else {
            r.used_by.push(file)
        },
        size_bytes: r.size_bytes,
        last_verified: now,
    }
}

/// What is known of an image that `file` is the first to use.
pub open spec fn first_use(
    path: Seq<char>,
    file: Seq<char>,
    hash: Seq<char>,
    size_bytes: u64,
    now: Seq<char>,
) -> ReferenceRecord {
    ReferenceRecord {
        hash,
        original_name: image_name(path),
        added_at: now,
        used_by: seq![file],
        size_bytes,
        last_verified: now,
    }
}

/// The images after `path` was registered as used by `file`: the entry of
/// `path` is touched where there is one, and a new entry stands last where
/// there is none.
pub open spec fn registered(
    images: Seq<ImageRecord>,
    path: Seq<char>,
    file: Seq<char>,
    hash: Seq<char>,
    size_bytes: u64,
    now: Seq<char>,
) -> Seq<ImageRecord> {
    if holds(images, path) {
        let i = position(images, path);
        images.update(i, ImageRecord { path, reference: touched(images[i].reference, file, now) })
    } else {
        images.push(ImageRecord { path, reference: first_use(path, file, hash, size_bytes, now) })
    }
}

/// The users that are not `file`.
pub open spec fn not_file(file: Seq<char>) -> spec_fn(Seq<char>) -> bool {
    |f: Seq<char>| f != file
}

/// One image after `file` was found to use exactly the images at `paths`:
/// an image among them has `file` as a user, once; any other has not.
pub open spec fn reconciled_one(
    e: ImageRecord,
    file: Seq<char>,
    paths: Seq<Seq<char>>,
    now: Seq<char>,
) -> ImageRecord {
    if paths.contains(e.path) {
        if e.reference.used_by.contains(file) {
            e
        } else {
            ImageRecord { path: e.path, reference: touched(e.reference, file, now) }
        }
    } else {
        ImageRecord {
            path: e.path,
            reference: ReferenceRecord {
                hash: e.reference.hash,
                original_name: e.reference.original_name,
                added_at: e.reference.added_at,
                used_by: e.reference.used_by.filter(not_file(file)),
                size_bytes: e.reference.size_bytes,
                last_verified: e.reference.last_verified,
            },
        }
    }
}

/// The images after `file` was found to use exactly the images at `paths`.
pub open spec fn reconciled(
    images: Seq<ImageRecord>,
    file: Seq<char>,
    paths: Seq<Seq<char>>,
    now: Seq<char>,
) -> Seq<ImageRecord> {
    Seq::new(images.len(), |i: int| reconciled_one(images[i], file, paths, now))
}

/// What the report says of a registered image whose file is gone.
pub open spec fn missing_info(e: ImageRecord) -> MissingRecord {
    MissingRecord {
        path: e.path,
        original_name: e.reference.original_name,
        used_by: e.reference.used_by,
    }
}

/// The registered images whose path is not among `present`, in the order of
/// the registry.
pub open spec fn missing_of(images: Seq<ImageRecord>, present: Seq<Seq<char>>) -> Seq<
    MissingRecord,
>
    decreases images.len(),
{
    if images.len() == 0 {
        Seq::empty()
    } else {
        let before = missing_of(images.drop_last(), present);
        if present.contains(images.last().path) {
            before
        } else {
            before.push(missing_info(images.last()))
        }
    }
}

/// The files among `assets` that are not registered, by their paths with
/// slashes, in the order of `assets`.
pub open spec fn orphans_of(images: Seq<ImageRecord>, assets: Seq<Seq<char>>) -> Seq<Seq<char>>
    decreases assets.len(),
{
    if assets.len() == 0 {
        Seq::empty()
    } else {
        let before = orphans_of(images, assets.drop_last());
        if holds(images, slashed(assets.last())) {
            before
        } else {
            before.push(slashed(assets.last()))
        }
    }
}

/// One image after a validation at `now`: seen at `now` where its file was
/// found, and as before where it was not.
pub open spec fn refreshed(e: ImageRecord, present: Seq<Seq<char>>, now: Seq<char>) -> ImageRecord {
    if present.contains(e.path) {
        ImageRecord {
            path: e.path,
            reference: ReferenceRecord {
                hash: e.reference.hash,
                original_name: e.reference.original_name,
                added_at: e.reference.added_at,
                used_by: e.reference.used_by,
                size_bytes: e.reference.size_bytes,
                last_verified: now,
            },
        }
    } else {
        e
    }
}

/// The images after a validation at `now`: every image whose path is among
/// `present` is seen at `now`, whatever else the validation found; an image
/// that is missing stays as it was. Whether the registry is then to be
/// stored is for the report to say.
pub open spec fn validated(
    images: Seq<ImageRecord>,
    present: Seq<Seq<char>>,
    now: Seq<char>,
) -> Seq<ImageRecord> {
    Seq::new(images.len(), |i: int| refreshed(images[i], present, now))
}

/// The entries whose path is neither `a` nor `b`.
pub open spec fn neither(a: Seq<char>, b: Seq<char>) -> spec_fn(ImageRecord) -> bool {
    |e: ImageRecord| e.path != a && e.path != b
}

/// The images after the entry of `old_path` was moved to `new_path` at
/// `now`: what was known of the image stands last under the new path, and
/// no other entry has the old or the new path.
pub open spec fn renamed(
    images: Seq<ImageRecord>,
    old_path: Seq<char>,
    new_path: Seq<char>,
    now: Seq<char>,
) -> Seq<ImageRecord> {
    let r = images[position(images, old_path)].reference;
    images.filter(neither(old_path, new_path)).push(
        ImageRecord {
            path: new_path,
            reference: ReferenceRecord {
                hash: r.hash,
                original_name: r.original_name,
                added_at: r.added_at,
                used_by: r.used_by,
                size_bytes: r.size_bytes,
                last_verified: now,
            },
        },
    )
}

/// The paths, with slashes, of the files whose content hash is `hash`, in
/// the order of the listing.
pub open spec fn candidates_of(listing: Seq<(Seq<char>, Seq<char>)>, hash: Seq<char>) -> Seq<
    Seq<char>,
>
    decreases listing.len(),
{
    if listing.len() == 0 {
        Seq::empty()
    } else {
        let before = candidates_of(listing.drop_last(), hash);
        if listing.last().1 == hash {
            before.push(slashed(listing.last().0))
        } else {
            before
        }
    }
}

/// The path and hash of each file of a listing.
pub open spec fn listing_of(files: Seq<HashedFile>) -> Seq<(Seq<char>, Seq<char>)> {
    Seq::new(files.len(), |i: int| (files[i].path@, files[i].hash@))
}

/// The files whose rewriting went well (`wanted` true) or failed (`wanted`
/// false), in the order of `files`. A file without an outcome counts as failed.
pub open spec fn files_with_outcome(
    files: Seq<Seq<char>>,
    outcomes: Seq<bool>,
    wanted: bool,
) -> Seq<Seq<char>>
    decreases files.len(),
{
    if files.len() == 0 {
        Seq::empty()
    } else {
        let before = files_with_outcome(files.drop_last(), outcomes, wanted);
        let i = files.len() - 1;
        let went_well = i < outcomes.len() && outcomes[i];
        if went_well == wanted {
            before.push(files.last())
        } else {
            before
        }
    }
}

/// Registering an image keeps the registry at one entry per path.
pub proof fn lemma_registered_keeps_paths(
    images: Seq<ImageRecord>,
    path: Seq<char>,
    file: Seq<char>,
    hash: Seq<char>,
    size_bytes: u64,
    now: Seq<char>,
)
    requires
        one_entry_per_path(images),
    ensures
        one_entry_per_path(registered(images, path, file, hash, size_bytes, now)),
        holds(registered(images, path, file, hash, size_bytes, now), path),
{
    let r = registered(images, path, file, hash, size_bytes, now);
    if holds(images, path) {
        let k = choose|k: int| 0 <= k < images.len() && image_key()(images[k]) == path;
        lemma_holds_has_first(images, path, k);
        let i = position(images, path);
        assert(is_first(images, path, i));
        assert forall|a: int, b: int| 0 <= a < b < r.len() implies image_key()(r[a])
            != image_key()(r[b]) by {
            assert(image_key()(r[a]) == image_key()(images[a]));
            assert(image_key()(r[b]) == image_key()(images[b]));
        }
        assert(image_key()(r[i]) == path);
    } else {
        let fresh = ImageRecord { path, reference: first_use(path, file, hash, size_bytes, now) };
        lemma_push_distinct(images, image_key(), fresh);
        assert(image_key()(r[images.len() as int]) == path);
    }
}

/// Where an entry has the key, some entry is the first to have it.
proof fn lemma_holds_has_first(images: Seq<ImageRecord>, key: Seq<char>, k: int)
    requires
        0 <= k < images.len(),
        images[k].path == key,
    ensures
        exists|i: int| is_first(images, key, i),
    decreases k,
{
    if exists|j: int| 0 <= j < k && (#[trigger] images[j]).path == key {
        let j = choose|j: int| 0 <= j < k && (#[trigger] images[j]).path == key;
        lemma_holds_has_first(images, key, j);
    } else {
        assert(is_first(images, key, k));
    }
}

/// Registering the same image for the same file a second time changes
/// nothing but the time at which the image was last seen: the file stays
/// one user, not two.
pub proof fn lemma_register_twice(
    images: Seq<ImageRecord>,
    path: Seq<char>,
    file: Seq<char>,
    hash: Seq<char>,
    size_bytes: u64,
    now: Seq<char>,
    hash2: Seq<char>,
    size_bytes2: u64,
    later: Seq<char>,
)
    ensures
        ({
            let once = registered(images, path, file, hash, size_bytes, now);
            let twice = registered(once, path, file, hash2, size_bytes2, later);
            let i = position(once, path);
            &&& holds(once, path)
            &&& twice.len() == once.len()
            &&& twice[i].reference.used_by == once[i].reference.used_by
            &&& once[i].reference.used_by.contains(file)
            &&& twice[i].reference == ReferenceRecord {
                last_verified: later,
                ..once[i].reference
            }
            &&& forall|j: int| 0 <= j < once.len() && j != i ==> twice[j] == once[j]
            &&& !holds(images, path) ==> once[i].reference.used_by == seq![file]
        }),
{
    let once = registered(images, path, file, hash, size_bytes, now);
    if holds(images, path) {
        let k = choose|k: int| 0 <= k < images.len() && image_key()(images[k]) == path;
        lemma_holds_has_first(images, path, k);
        let i0 = position(images, path);
        assert(is_first(images, path, i0));
        assert(is_first(once, path, i0)) by {
            assert forall|j: int| 0 <= j < i0 implies (#[trigger] once[j]).path != path by {
                assert(once[j] == images[j]);
            }
        }
        lemma_position(once, path, i0);
        let u = images[i0].reference.used_by;
        if !u.contains(file) {
            assert(u.push(file)[u.len() as int] == file);
        }
    } else {
        let n = images.len() as int;
        assert(is_first(once, path, n)) by {
            assert forall|j: int| 0 <= j < n implies (#[trigger] once[j]).path != path by {
                assert(once[j] == images[j]);
                assert(image_key()(images[j]) != path);
            }
        }
        lemma_position(once, path, n);
        assert(seq![file][0] == file);
    }
}

/// Images that have the paths of a registry with one entry per path, place
/// by place, have one entry per path.
pub proof fn lemma_same_paths(before: Seq<ImageRecord>, after: Seq<ImageRecord>)
    requires
        one_entry_per_path(before),
        after.len() == before.len(),
        forall|i: int| 0 <= i < before.len() ==> (#[trigger] after[i]).path == before[i].path,
    ensures
        one_entry_per_path(after),
        forall|key: Seq<char>| holds(after, key) <==> holds(before, key),
{
    assert forall|i: int, j: int| 0 <= i < j < after.len() implies image_key()(after[i])
        != image_key()(after[j]) by {
        assert(image_key()(before[i]) != image_key()(before[j]));
    }
    assert forall|key: Seq<char>| holds(after, key) <==> holds(before, key) by {
        if holds(after, key) {
            let i = choose|i: int| 0 <= i < after.len() && image_key()(after[i]) == key;
            assert(image_key()(before[i]) == key);
        }
        if holds(before, key) {
            let i = choose|i: int| 0 <= i < before.len() && image_key()(before[i]) == key;
            assert(image_key()(after[i]) == key);
        }
    }
}

/// After an image was moved, the registry has an entry at the new path and,
/// unless the two paths are the same, none at the old one; it still has at
/// most one entry per path.
pub proof fn lemma_renamed_moves_entry(
    images: Seq<ImageRecord>,
    old_path: Seq<char>,
    new_path: Seq<char>,
    now: Seq<char>,
)
    requires
        one_entry_per_path(images),
    ensures
        holds(renamed(images, old_path, new_path, now), new_path),
        old_path != new_path ==> !holds(renamed(images, old_path, new_path, now), old_path),
        one_entry_per_path(renamed(images, old_path, new_path, now)),
{
    let keep = neither(old_path, new_path);
    let rest = images.filter(keep);
    let r = renamed(images, old_path, new_path, now);
    assert(image_key()(r[rest.len() as int]) == new_path);
    lemma_filter_distinct(images, image_key(), keep);
    assert forall|x: ImageRecord| #[trigger] image_key()(x) == new_path implies !keep(x) by {}
    lemma_filter_drops_key(images, image_key(), keep, new_path);
    lemma_push_distinct(rest, image_key(), r[rest.len() as int]);
    if old_path != new_path {
        assert forall|x: ImageRecord| #[trigger] image_key()(x) == old_path implies !keep(x) by {}
        lemma_filter_drops_key(images, image_key(), keep, old_path);
        if holds(r, old_path) {
            let k = choose|k: int| 0 <= k < r.len() && image_key()(r[k]) == old_path;
            if k < rest.len() {
                assert(image_key()(rest[k]) == old_path);
            }
        }
    }
}

/// What an `ImageRegistry` stands for.
pub struct RegistryRecord {
    pub workspace: Seq<char>,
    pub index: IndexRecord,
}

/// The image registry of one workspace.
#[derive(Debug)]
pub struct ImageRegistry {
    index: ImageIndex,
    workspace_path: String,
}

impl View for ImageRegistry {
    type V = RegistryRecord;

    closed spec fn view(&self) -> RegistryRecord {
        RegistryRecord { workspace: self.workspace_path@, index: self.index@ }
    }
}

/// `Utc::now` and `DateTime::to_rfc3339` of chrono: the present moment as
/// text. Nothing is known of the text.
#[verifier::external_body]
fn timestamp_now() -> (r: String) {
    ::chrono::Utc::now().to_rfc3339()
}

fn shown_image_name(path: &str) -> (r: String)
    ensures
        r@ == image_name(path@),
{
    let name = file_name(path);
    if chars_of(name.as_str()).len() == 0 {
        owned("unknown")
    } else {
        name
    }
}

impl ImageRegistry {
    /// The registry of the workspace at `workspace_path`: with the stored
    /// index where there is one, and else with an empty index made at `now`.
    pub fn new_at(workspace_path: &str, stored: Option<ImageIndex>, now: &str) -> (r: ImageRegistry)
        ensures
            r@.workspace == workspace_path@,
            match stored {
                Some(index) => r@.index == index@,
                None => r@.index == (IndexRecord {
                    version: IMAGE_INDEX_VERSION,
                    last_indexed: now@,
                    images: Seq::empty(),
                }),
            },
    {
        let index = match stored {
            Some(index) => index,
            None => {
                let fresh = ImageIndex {
                    version: IMAGE_INDEX_VERSION,
                    last_indexed: owned(now),
                    images: Vec::new(),
                };
                assert(views(fresh.images@) =~= Seq::<ImageRecord>::empty());
                fresh
            },
        };
        ImageRegistry { index, workspace_path: owned(workspace_path) }
    }

    /// The registry of the workspace at `workspace_path`: with the stored
    /// index where there is one, and else with an empty index made now.
    pub fn new(workspace_path: &str, stored: Option<ImageIndex>) -> (r: ImageRegistry)
        ensures
            r@.workspace == workspace_path@,
            match stored {
                Some(index) => r@.index == index@,
                None => r@.index.version == IMAGE_INDEX_VERSION && r@.index.images
                    == Seq::<ImageRecord>::empty(),
            },
    {
        let now = timestamp_now();
        Self::new_at(workspace_path, stored, now.as_str())
    }

    /// The index, as it is to be stored.
    pub fn index(&self) -> (r: &ImageIndex)
        ensures
            r@ == self@.index,
    {
        &self.index
    }

    /// The path of the workspace.
    pub fn workspace_path(&self) -> (r: &String)
        ensures
            r@ == self@.workspace,
    {
        &self.workspace_path
    }

    /// The content hash of a file whose content comes in pieces.
    pub fn calculate_file_hash(chunks: &Vec<Vec<u8>>) -> (r: String)
        ensures
            r@ == content_hash(joined(chunks@)),
    {
        hash_chunks(chunks)
    }

    fn find(&self, key: &str) -> (r: Option<usize>)
        ensures
            match r {
                Some(i) => is_first(self@.index.images, key@, i as int) && position(
                    self@.index.images,
                    key@,
                ) == i && holds(self@.index.images, key@) && i < self.index.images.len(),
                None => !holds(self@.index.images, key@),
            },
    {
        let mut i: usize = 0;
        while i < self.index.images.len()
            invariant
                i <= self.index.images.len(),
                forall|k: int| 0 <= k < i ==> self.index.images@[k].path@ != key@,
            decreases self.index.images.len() - i,
        {
            if str_eq(self.index.images[i].path.as_str(), key) {
                proof {
                    let images = self@.index.images;
                    assert(images[i as int].path == key@);
                    assert forall|j: int| 0 <= j < i implies (#[trigger] images[j]).path
                        != key@ by {
                        assert(images[j] == self.index.images@[j]@);
                    }
                    lemma_position(images, key@, i as int);
                }
                return Some(i);
            }
            i += 1;
        }
        proof {
            let images = self@.index.images;
            if holds(images, key@) {
                let k = choose|k: int| 0 <= k < images.len() && image_key()(images[k]) == key@;
                assert(self.index.images@[k].path@ == key@);
            }
        }
        None
    }

    /// The content files that use the image at `path`, if it is registered.
    pub fn users_of(&self, path: &str) -> (r: Option<Vec<String>>)
        ensures
            match r {
                Some(files) => holds(self@.index.images, path@) && texts(files@)
                    == self@.index.images[position(self@.index.images, path@)].reference.used_by,
                None => !holds(self@.index.images, path@),
            },
    {
        match self.find(path) {
            Some(i) => Some(clone_strings(&self.index.images[i].reference.used_by)),
            None => None,
        }
    }

    /// The paths of the registered images, in the order of the registry.
    pub fn registered_paths(&self) -> (r: Vec<String>)
        ensures
            r@.len() == self@.index.images.len(),
            forall|i: int| 0 <= i < r@.len() ==> (#[trigger] r@[i])@ == self@.index.images[i].path,
    {
        let mut out: Vec<String> = Vec::new();
        let mut i: usize = 0;
        while i < self.index.images.len()
            invariant
                i <= self.index.images.len(),
                out@.len() == i,
                forall|k: int| 0 <= k < i ==> (#[trigger] out@[k])@ == self.index.images@[k].path@,
            decreases self.index.images.len() - i,
        {
            out.push(self.index.images[i].path.clone());
            i += 1;
        }
        out
    }

    /// Registers the image at `relative_path` as used by `used_by_file`, at
    /// the time `now`. `probe` is what was found of the image file, or
    /// nothing where there is no such file; the image is then refused.
    pub fn register_image_at(
        &mut self,
        relative_path: String,
        used_by_file: String,
        probe: Option<ImageProbe>,
        now: &str,
    ) -> (r: Result<(), ImageError>)
        ensures
            final(self)@.workspace == old(self)@.workspace,
            final(self)@.index.version == old(self)@.index.version,
            final(self)@.index.last_indexed == old(self)@.index.last_indexed,
            match r {
                Ok(_) => probe is Some && final(self)@.index.images == registered(
                    old(self)@.index.images,
                    relative_path@,
                    used_by_file@,
                    probe.unwrap().hash@,
                    probe.unwrap().size_bytes,
                    now@,
                ),
                Err(e) => probe is None && final(self)@ == old(self)@ && e.is_image_not_found(
                    old(self)@.workspace + "/"@ + relative_path@,
                ),
            },
            one_entry_per_path(old(self)@.index.images) ==> one_entry_per_path(
                final(self)@.index.images,
            ),
    {
        let found = match probe {
            None => {
                let prefix = concat(self.workspace_path.as_str(), "/");
                return Err(
                    ImageError::ImageNotFound(concat(prefix.as_str(), relative_path.as_str())),
                );
            },
            Some(found) => found,
        };
        proof {
            if one_entry_per_path(old(self)@.index.images) {
                lemma_registered_keeps_paths(
                    old(self)@.index.images,
                    relative_path@,
                    used_by_file@,
                    found.hash@,
                    found.size_bytes,
                    now@,
                );
            }
        }
        match self.find(relative_path.as_str()) {
            Some(i) => {
                let entry = &self.index.images[i];
                let mut used_by = clone_strings(&entry.reference.used_by);
                if !contains_text(&used_by, used_by_file.as_str()) {
                    used_by.push(used_by_file);
                }
                let touched_entry = ImageEntry {
                    path: relative_path,
                    reference: ImageReference {
                        hash: entry.reference.hash.clone(),
                        original_name: entry.reference.original_name.clone(),
                        added_at: entry.reference.added_at.clone(),
                        used_by,
                        size_bytes: entry.reference.size_bytes,
                        last_verified: owned(now),
                    },
                };
                proof {
                    let before = old(self)@.index.images;
                    assert(touched_entry@.reference.used_by =~= touched(
                        before[i as int].reference,
                        used_by_file@,
                        now@,
                    ).used_by);
                    assert(views(self.index.images@.update(i as int, touched_entry))
                        =~= before.update(i as int, touched_entry@));
                }
                self.index.images[i] = touched_entry;
            },
            None => {
                let mut used_by: Vec<String> = Vec::new();
                let name = shown_image_name(relative_path.as_str());
                used_by.push(used_by_file);
                let fresh = ImageEntry {
                    path: relative_path,
                    reference: ImageReference {
                        hash: found.hash,
                        original_name: name,
                        added_at: owned(now),
                        used_by,
                        size_bytes: found.size_bytes,
                        last_verified: owned(now),
                    },
                };
                proof {
                    assert(fresh@.reference.used_by =~= seq![used_by_file@]);
                    lemma_views_push(self.index.images@, fresh);
                }
                self.index.images.push(fresh);
            },
        }
        Ok(())
    }

    /// Registers the image at `relative_path` as used by `used_by_file`,
    /// now. See `register_image_at`.
    pub fn register_image(
        &mut self,
        relative_path: String,
        used_by_file: String,
        probe: Option<ImageProbe>,
    ) -> (r: Result<(), ImageError>)
        ensures
            final(self)@.workspace == old(self)@.workspace,
            final(self)@.index.version == old(self)@.index.version,
            final(self)@.index.last_indexed == old(self)@.index.last_indexed,
            match r {
                Ok(_) => probe is Some && exists|now: Seq<char>|
                    final(self)@.index.images == registered(
                        old(self)@.index.images,
                        relative_path@,
                        used_by_file@,
                        probe.unwrap().hash@,
                        probe.unwrap().size_bytes,
                        now,
                    ),
                Err(e) => probe is None && final(self)@ == old(self)@ && e.is_image_not_found(
                    old(self)@.workspace + "/"@ + relative_path@,
                ),
            },
            one_entry_per_path(old(self)@.index.images) ==> one_entry_per_path(
                final(self)@.index.images,
            ),
    {
        let now = timestamp_now();
        self.register_image_at(relative_path, used_by_file, probe, now.as_str())
    }

    /// Brings the registry up to date with the images that `file_path`
    /// uses, at the time `now`: the file becomes a user of each registered
    /// image at one of `image_paths`, and stops being a user of every other.
    pub fn update_image_references_at(
        &mut self,
        file_path: String,
        image_paths: Vec<String>,
        now: &str,
    )
        ensures
            final(self)@.workspace == old(self)@.workspace,
            final(self)@.index.version == old(self)@.index.version,
            final(self)@.index.last_indexed == old(self)@.index.last_indexed,
            final(self)@.index.images == reconciled(
                old(self)@.index.images,
                file_path@,
                texts(image_paths@),
                now@,
            ),
            one_entry_per_path(old(self)@.index.images) ==> one_entry_per_path(
                final(self)@.index.images,
            ),
    {
        let mut out: Vec<ImageEntry> = Vec::new();
        let mut i: usize = 0;
        let ghost before = self@.index.images;
        let ghost after = reconciled(before, file_path@, texts(image_paths@), now@);
        proof {
            if one_entry_per_path(before) {
                lemma_same_paths(before, after);
            }
        }
        while i < self.index.images.len()
            invariant
                i <= self.index.images.len(),
                before == views(self.index.images@),
                after == reconciled(before, file_path@, texts(image_paths@), now@),
                out@.len() == i,
                forall|k: int| 0 <= k < i ==> (#[trigger] out@[k])@ == after[k],
            decreases self.index.images.len() - i,
        {
            let entry = &self.index.images[i];
            assert(before[i as int] == entry@);
            let referenced = contains_text(&image_paths, entry.path.as_str());
            let uses = contains_text(&entry.reference.used_by, file_path.as_str());
            let next = if referenced {
                if uses {
                    entry.clone()
                } else {
                    let mut used_by = clone_strings(&entry.reference.used_by);
                    used_by.push(file_path.clone());
                    let e = ImageEntry {
                        path: entry.path.clone(),
                        reference: ImageReference {
                            hash: entry.reference.hash.clone(),
                            original_name: entry.reference.original_name.clone(),
                            added_at: entry.reference.added_at.clone(),
                            used_by,
                            size_bytes: entry.reference.size_bytes,
                            last_verified: owned(now),
                        },
                    };
                    assert(e@.reference.used_by =~= entry@.reference.used_by.push(file_path@));
                    e
                }
            } else {
                let used_by = Self::users_without(&entry.reference.used_by, file_path.as_str());
                ImageEntry {
                    path: entry.path.clone(),
                    reference: ImageReference {
                        hash: entry.reference.hash.clone(),
                        original_name: entry.reference.original_name.clone(),
                        added_at: entry.reference.added_at.clone(),
                        used_by,
                        size_bytes: entry.reference.size_bytes,
                        last_verified: entry.reference.last_verified.clone(),
                    },
                }
            };
            out.push(next);
            i += 1;
        }
        proof {
            assert(views(out@) =~= after);
        }
        self.index.images = out;
    }

    /// Brings the registry up to date with the images that `file_path`
    /// uses, now. See `update_image_references_at`.
    pub fn update_image_references(&mut self, file_path: String, image_paths: Vec<String>)
        ensures
            final(self)@.workspace == old(self)@.workspace,
            final(self)@.index.version == old(self)@.index.version,
            final(self)@.index.last_indexed == old(self)@.index.last_indexed,
            exists|now: Seq<char>|
                final(self)@.index.images == reconciled(
                    old(self)@.index.images,
                    file_path@,
                    texts(image_paths@),
                    now,
                ),
            one_entry_per_path(old(self)@.index.images) ==> one_entry_per_path(
                final(self)@.index.images,
            ),
    {
        let now = timestamp_now();
        self.update_image_references_at(file_path, image_paths, now.as_str());
    }

    fn users_without(users: &Vec<String>, file: &str) -> (r: Vec<String>)
        ensures
            texts(r@) == texts(users@).filter(not_file(file@)),
    {
        let mut out: Vec<String> = Vec::new();
        let mut i: usize = 0;
        let ghost keep = not_file(file@);
        proof {
            reveal(Seq::filter);
            assert(texts(users@.take(0)) =~= Seq::<Seq<char>>::empty());
            assert(texts(out@) =~= Seq::<Seq<char>>::empty());
        }
        while i < users.len()
            invariant
                i <= users.len(),
                keep == not_file(file@),
                texts(out@) == texts(users@.take(i as int)).filter(keep),
            decreases users.len() - i,
        {
            let u = &users[i];
            proof {
                assert(texts(users@.take(i + 1)) =~= texts(users@.take(i as int)).push(u@));
                texts(users@.take(i as int)).lemma_filter_push(u@, keep);
                assert(texts(out@.push(*u)) =~= texts(out@).push(u@));
            }
            if !str_eq(u.as_str(), file) {
                out.push(u.clone());
            }
            i += 1;
        }
        proof {
            assert(users@.take(users.len() as int) =~= users@);
        }
        out
    }

    fn missing_images(&self, present: &Vec<String>) -> (r: Vec<MissingImageInfo>)
        ensures
            views(r@) == missing_of(self@.index.images, texts(present@)),
    {
        let mut out: Vec<MissingImageInfo> = Vec::new();
        let mut i: usize = 0;
        proof {
            lemma_views_take_all(self.index.images@);
            assert(views(out@) =~= Seq::<MissingRecord>::empty());
        }
        while i < self.index.images.len()
            invariant
                i <= self.index.images.len(),
                views(out@) == missing_of(
                    views(self.index.images@.take(i as int)),
                    texts(present@),
                ),
            decreases self.index.images.len() - i,
        {
            let entry = &self.index.images[i];
            proof {
                lemma_views_take_next(self.index.images@, i as int);
                assert(views(self.index.images@.take(i + 1)).drop_last() =~= views(
                    self.index.images@.take(i as int),
                ));
            }
            if !contains_text(present, entry.path.as_str()) {
                let info = MissingImageInfo {
                    path: entry.path.clone(),
                    original_name: entry.reference.original_name.clone(),
                    used_by: clone_strings(&entry.reference.used_by),
                };
                proof {
                    assert(info@ == missing_info(entry@));
                    lemma_views_push(out@, info);
                }
                out.push(info);
            }
            i += 1;
        }
        proof {
            lemma_views_take_all(self.index.images@);
        }
        out
    }

    /// The files among `assets` that are not registered, by their paths
    /// with slashes.
    pub fn find_orphaned_images(&self, assets: &Vec<String>) -> (r: Vec<String>)
        ensures
            texts(r@) == orphans_of(self@.index.images, texts(assets@)),
    {
        let mut out: Vec<String> = Vec::new();
        let mut i: usize = 0;
        proof {
            assert(texts(assets@.take(0)) =~= Seq::<Seq<char>>::empty());
            assert(texts(out@) =~= Seq::<Seq<char>>::empty());
        }
        while i < assets.len()
            invariant
                i <= assets.len(),
                texts(out@) == orphans_of(self@.index.images, texts(assets@.take(i as int))),
            decreases assets.len() - i,
        {
            let path = to_slashed(assets[i].as_str());
            proof {
                assert(texts(assets@.take(i + 1)).drop_last() =~= texts(assets@.take(i as int)));
                assert(texts(assets@.take(i + 1)).last() == assets@[i as int]@);
                assert(texts(out@.push(path)) =~= texts(out@).push(path@));
            }
            if self.find(path.as_str()).is_none() {
                out.push(path);
            }
            i += 1;
        }
        proof {
            assert(assets@.take(assets.len() as int) =~= assets@);
        }
        out
    }

    /// Holds the registry against the disk, at the time `now`. `present`
    /// holds the paths of the registered images whose file exists, `assets`
    /// the paths of the files in the assets directory.
    ///
    /// The report lists the registered images that are not present and the
    /// asset files that are not registered. Every image that is present is
    /// marked as seen at `now`, whatever the report lists; an image that is
    /// missing stays as it was. The registry is to be stored only where the
    /// report is clean (`ValidationReport::is_clean`), so that what is
    /// stored stays as it was while something is missing or orphaned.
    pub fn validate_index_at(&mut self, present: &Vec<String>, assets: &Vec<String>, now: &str) -> (r:
        ValidationReport)
        ensures
            final(self)@.workspace == old(self)@.workspace,
            final(self)@.index.version == old(self)@.index.version,
            final(self)@.index.last_indexed == old(self)@.index.last_indexed,
            r.total_images == old(self)@.index.images.len(),
            views(r.missing_images@) == missing_of(old(self)@.index.images, texts(present@)),
            texts(r.orphaned_images@) == orphans_of(old(self)@.index.images, texts(assets@)),
            final(self)@.index.images == validated(
                old(self)@.index.images,
                texts(present@),
                now@,
            ),
            one_entry_per_path(old(self)@.index.images) ==> one_entry_per_path(
                final(self)@.index.images,
            ),
    {
        proof {
            if one_entry_per_path(self@.index.images) {
                lemma_same_paths(
                    self@.index.images,
                    validated(self@.index.images, texts(present@), now@),
                );
            }
        }
        let total_images = self.index.images.len();
        let missing_images = self.missing_images(present);
        let orphaned_images = self.find_orphaned_images(assets);
        let mut out: Vec<ImageEntry> = Vec::new();
        let mut i: usize = 0;
        let ghost before = self@.index.images;
        let ghost after = validated(before, texts(present@), now@);
        while i < self.index.images.len()
            invariant
                i <= self.index.images.len(),
                before == views(self.index.images@),
                after == validated(before, texts(present@), now@),
                out@.len() == i,
                forall|k: int| 0 <= k < i ==> (#[trigger] out@[k])@ == after[k],
            decreases self.index.images.len() - i,
        {
            let entry = &self.index.images[i];
            assert(before[i as int] == entry@);
            let seen = if contains_text(present, entry.path.as_str()) {
                ImageEntry {
                    path: entry.path.clone(),
                    reference: ImageReference {
                        hash: entry.reference.hash.clone(),
                        original_name: entry.reference.original_name.clone(),
                        added_at: entry.reference.added_at.clone(),
                        used_by: clone_strings(&entry.reference.used_by),
                        size_bytes: entry.reference.size_bytes,
                        last_verified: owned(now),
                    },
                }
            } else {
                entry.clone()
            };
            out.push(seen);
            i += 1;
        }
        proof {
            assert(views(out@) =~= after);
        }
        self.index.images = out;
        ValidationReport { total_images, missing_images, orphaned_images }
    }

    /// Holds the registry against the disk, now. See `validate_index_at`.
    pub fn validate_index(&mut self, present: &Vec<String>, assets: &Vec<String>) -> (r:
        ValidationReport)
        ensures
            final(self)@.workspace == old(self)@.workspace,
            final(self)@.index.version == old(self)@.index.version,
            final(self)@.index.last_indexed == old(self)@.index.last_indexed,
            r.total_images == old(self)@.index.images.len(),
            views(r.missing_images@) == missing_of(old(self)@.index.images, texts(present@)),
            texts(r.orphaned_images@) == orphans_of(old(self)@.index.images, texts(assets@)),
            exists|now: Seq<char>|
                final(self)@.index.images == validated(
                    old(self)@.index.images,
                    texts(present@),
                    now,
                ),
            one_entry_per_path(old(self)@.index.images) ==> one_entry_per_path(
                final(self)@.index.images,
            ),
    {
        let now = timestamp_now();
        self.validate_index_at(present, assets, now.as_str())
    }

    /// The paths, with slashes, of the files of `listing` whose content
    /// hash is `missing_hash`: where an image that is gone may now be.
    pub fn find_image_candidates(listing: &Vec<HashedFile>, missing_hash: &str) -> (r: Vec<String>)
        ensures
            texts(r@) == candidates_of(listing_of(listing@), missing_hash@),
    {
        let mut out: Vec<String> = Vec::new();
        let mut i: usize = 0;
        proof {
            assert(listing_of(listing@.take(0)) =~= Seq::<(Seq<char>, Seq<char>)>::empty());
            assert(texts(out@) =~= Seq::<Seq<char>>::empty());
        }
        while i < listing.len()
            invariant
                i <= listing.len(),
                texts(out@) == candidates_of(listing_of(listing@.take(i as int)), missing_hash@),
            decreases listing.len() - i,
        {
            let file = &listing[i];
            proof {
                assert(listing_of(listing@.take(i + 1)).drop_last() =~= listing_of(
                    listing@.take(i as int),
                ));
                assert(listing_of(listing@.take(i + 1)).last() == (file.path@, file.hash@));
            }
            if str_eq(file.hash.as_str(), missing_hash) {
                let path = to_slashed(file.path.as_str());
                proof {
                    assert(texts(out@.push(path)) =~= texts(out@).push(path@));
                }
                out.push(path);
            }
            i += 1;
        }
        proof {
            assert(listing@.take(listing.len() as int) =~= listing@);
        }
        out
    }

    /// Moves the entry of `old_path` to `new_path`, at the time `now`, and
    /// hands out the content files that use the image: in each of them the
    /// old path is to be replaced by the new one (`update_file_frontmatter`).
    /// Fails, and changes nothing, where `old_path` is not registered.
    pub fn bulk_update_image_path_at(&mut self, old_path: &str, new_path: &str, now: &str) -> (r:
        Result<Vec<String>, ImageError>)
        ensures
            final(self)@.workspace == old(self)@.workspace,
            final(self)@.index.version == old(self)@.index.version,
            final(self)@.index.last_indexed == old(self)@.index.last_indexed,
            match r {
                Ok(files) => holds(old(self)@.index.images, old_path@) && texts(files@) == old(
                    self,
                )@.index.images[position(old(self)@.index.images, old_path@)].reference.used_by
                    && final(self)@.index.images == renamed(
                    old(self)@.index.images,
                    old_path@,
                    new_path@,
                    now@,
                ),
                Err(e) => !holds(old(self)@.index.images, old_path@) && final(self)@ == old(
                    self,
                )@ && e.is_not_in_index(old_path@),
            },
            one_entry_per_path(old(self)@.index.images) ==> one_entry_per_path(
                final(self)@.index.images,
            ),
    {
        let at = match self.find(old_path) {
            None => {
                return Err(ImageError::NotInIndex(owned(old_path)));
            },
            Some(at) => at,
        };
        let ghost before = self@.index.images;
        let ghost keep = neither(old_path@, new_path@);
        proof {
            if one_entry_per_path(before) {
                lemma_renamed_moves_entry(before, old_path@, new_path@, now@);
            }
        }
        let source = &self.index.images[at];
        assert(before[at as int] == source@);
        let files = clone_strings(&source.reference.used_by);
        let moved = ImageEntry {
            path: owned(new_path),
            reference: ImageReference {
                hash: source.reference.hash.clone(),
                original_name: source.reference.original_name.clone(),
                added_at: source.reference.added_at.clone(),
                used_by: clone_strings(&source.reference.used_by),
                size_bytes: source.reference.size_bytes,
                last_verified: owned(now),
            },
        };
        let mut out: Vec<ImageEntry> = Vec::new();
        let mut i: usize = 0;
        proof {
            lemma_views_take_all(self.index.images@);
            reveal(Seq::filter);
            assert(views(out@) =~= Seq::<ImageRecord>::empty());
        }
        while i < self.index.images.len()
            invariant
                i <= self.index.images.len(),
                before == views(self.index.images@),
                keep == neither(old_path@, new_path@),
                views(out@) == views(self.index.images@.take(i as int)).filter(keep),
            decreases self.index.images.len() - i,
        {
            let entry = &self.index.images[i];
            proof {
                lemma_views_take_next(self.index.images@, i as int);
                views(self.index.images@.take(i as int)).lemma_filter_push(entry@, keep);
            }
            if !str_eq(entry.path.as_str(), old_path) && !str_eq(entry.path.as_str(), new_path) {
                let kept = entry.clone();
                proof {
                    lemma_views_push(out@, kept);
                }
                out.push(kept);
            }
            i += 1;
        }
        proof {
            lemma_views_take_all(self.index.images@);
            lemma_views_push(out@, moved);
        }
        out.push(moved);
        self.index.images = out;
        Ok(files)
    }

    /// Moves the entry of `old_path` to `new_path`, now. See
    /// `bulk_update_image_path_at`.
    pub fn bulk_update_image_path(&mut self, old_path: &str, new_path: &str) -> (r: Result<
        Vec<String>,
        ImageError,
    >)
        ensures
            final(self)@.workspace == old(self)@.workspace,
            final(self)@.index.version == old(self)@.index.version,
            final(self)@.index.last_indexed == old(self)@.index.last_indexed,
            match r {
                Ok(files) => holds(old(self)@.index.images, old_path@) && texts(files@) == old(
                    self,
                )@.index.images[position(old(self)@.index.images, old_path@)].reference.used_by
                    && exists|now: Seq<char>|
                    final(self)@.index.images == renamed(
                        old(self)@.index.images,
                        old_path@,
                        new_path@,
                        now,
                    ),
                Err(e) => !holds(old(self)@.index.images, old_path@) && final(self)@ == old(
                    self,
                )@ && e.is_not_in_index(old_path@),
            },
            one_entry_per_path(old(self)@.index.images) ==> one_entry_per_path(
                final(self)@.index.images,
            ),
    {
        let now = timestamp_now();
        self.bulk_update_image_path_at(old_path, new_path, now.as_str())
    }

    /// The content of a file that used the image at `old_path`, with every
    /// occurrence of the old path replaced by `new_path`. An empty old path
    /// occurs nowhere: the content then stays as it is.
    pub fn update_file_frontmatter(content: &str, old_path: &str, new_path: &str) -> (r: String)
        ensures
            r@ == replace_all(content@, old_path@, new_path@),
    {
        replace_text(content, old_path, new_path)
    }
}

impl BulkUpdateResult {
    /// The result of rewriting `files`, where `outcomes` says of each file,
    /// by its place in the list, whether its rewriting went well.
    pub fn from_outcomes(files: &Vec<String>, outcomes: &Vec<bool>) -> (r: BulkUpdateResult)
        ensures
            texts(r.updated_files@) == files_with_outcome(texts(files@), outcomes@, true),
            texts(r.failed_files@) == files_with_outcome(texts(files@), outcomes@, false),
    {
        let mut updated: Vec<String> = Vec::new();
        let mut failed: Vec<String> = Vec::new();
        let mut i: usize = 0;
        proof {
            assert(texts(files@.take(0)) =~= Seq::<Seq<char>>::empty());
            assert(texts(updated@) =~= Seq::<Seq<char>>::empty());
            assert(texts(failed@) =~= Seq::<Seq<char>>::empty());
        }
        while i < files.len()
            invariant
                i <= files.len(),
                texts(updated@) == files_with_outcome(
                    texts(files@.take(i as int)),
                    outcomes@,
                    true,
                ),
                texts(failed@) == files_with_outcome(
                    texts(files@.take(i as int)),
                    outcomes@,
                    false,
                ),
            decreases files.len() - i,
        {
            let went_well = i < outcomes.len() && outcomes[i];
            let file = files[i].clone();
            proof {
                assert(texts(files@.take(i + 1)).drop_last() =~= texts(files@.take(i as int)));
                assert(texts(files@.take(i + 1)).last() == file@);
                assert(texts(updated@.push(file)) =~= texts(updated@).push(file@));
                assert(texts(failed@.push(file)) =~= texts(failed@).push(file@));
            }
            if went_well {
                updated.push(file);
            } else {
                failed.push(file);
            }
            i += 1;
        }
        proof {
            assert(files@.take(files.len() as int) =~= files@);
        }
        BulkUpdateResult { updated_files: updated, failed_files: failed }
    }
}

} // verus!
