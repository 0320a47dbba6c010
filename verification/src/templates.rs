//! The text that a new file starts with, by the type of the file.

use vstd::prelude::*;
use crate::model::FileType;
use crate::text::concat;

verus! {

/// A character: what stands before the name.
pub const CHARACTER_HEAD: &'static str = "---\nname: ";

/// A character: the fields between the name and the time of creation.
pub const CHARACTER_FIELDS: &'static str =
    "\nalias:\nrole:\nstatus: active\nage:\ngender:\nspecies: human\noccupation:\n\n# Physical attributes\nappearance:\nheight:\nweight:\ndistinguishing_features:\n\n# Metadata\ncreated: ";

/// A character: what follows the time of the last change.
pub const CHARACTER_BODY: &'static str =
    "\nversion: 1.0\ntags: []\n---\n\n## Biography\n\nWrite character biography here...\n\n## Personality\n\nDescribe personality traits...\n\n## Motivations\n\nWhat drives this character...\n\n## Arc\n\nCharacter development throughout the story...";

/// A location: what stands before the name.
pub const LOCATION_HEAD: &'static str = "---\nname: ";

/// A location: the fields between the name and the time of creation.
pub const LOCATION_FIELDS: &'static str =
    "\ntype:\nregion:\nclimate:\npopulation:\ngoverning_entity:\ntags: []\ncoordinates:\nconnections: []\n\n# Metadata\ncreated: ";

/// A location: what follows the time of the last change.
pub const LOCATION_BODY: &'static str =
    "\n---\n\n## Description\n\nDetailed description of the location...\n\n## Notable Features\n\nList and describe notable features...\n\n## History\n\nHistorical information about this location...";

/// A lore entry: what stands before the title.
pub const LORE_HEAD: &'static str = "---\ntitle: ";

/// A lore entry: the fields between the title and the time of creation.
pub const LORE_FIELDS: &'static str =
    "\ncategory:\nera:\nimportance: medium\nrelated_entities: []\ntags: []\ncreated: ";

/// A lore entry: what follows the time of the last change.
pub const LORE_BODY: &'static str =
    "\n---\n\n## Overview\n\nGeneral overview of this lore element...\n\n## Details\n\nMore detailed information...\n\n## Significance\n\nWhy this matters in the world...";

/// What stands between the time of creation and the time of the last change.
pub const UPDATED_FIELD: &'static str = "\nupdated: ";

/// Any other file: what stands before the name.
pub const PLAIN_HEAD: &'static str = "# ";

/// Any other file: what follows the name.
pub const PLAIN_BODY: &'static str = "\n\nContent goes here...";

/// A template with front matter: the name in its field, the time of
/// creation in the fields `created` and `updated`, and the body.
pub open spec fn with_frontmatter(
    head: Seq<char>,
    fields: Seq<char>,
    body: Seq<char>,
    name: Seq<char>,
    now: Seq<char>,
) -> Seq<char> {
    head + name + fields + now + UPDATED_FIELD@ + now + body
}

/// The text that a new file of the given type and name starts with when it
/// is made at `now`. A character, a location and a lore entry start with
/// front matter; any other file starts with its name as a heading.
pub open spec fn template_of(file_type: FileType, name: Seq<char>, now: Seq<char>) -> Seq<char> {
    match file_type {
        FileType::Character => with_frontmatter(
            CHARACTER_HEAD@,
            CHARACTER_FIELDS@,
            CHARACTER_BODY@,
            name,
            now,
        ),
        FileType::Location => with_frontmatter(
            LOCATION_HEAD@,
            LOCATION_FIELDS@,
            LOCATION_BODY@,
            name,
            now,
        ),
        FileType::Lore => with_frontmatter(LORE_HEAD@, LORE_FIELDS@, LORE_BODY@, name, now),
        _ => PLAIN_HEAD@ + name + PLAIN_BODY@,
    }
}

fn fill(head: &str, fields: &str, body: &str, name: &str, now: &str) -> (r: String)
    ensures
        r@ == with_frontmatter(head@, fields@, body@, name@, now@),
{
    let a = concat(head, name);
    let b = concat(a.as_str(), fields);
    let c = concat(b.as_str(), now);
    let d = concat(c.as_str(), UPDATED_FIELD);
    let e = concat(d.as_str(), now);
    concat(e.as_str(), body)
}

/// `Local::now` and `DateTime::to_rfc3339` of chrono: the present moment
/// in the local time zone, as text. Nothing is known of the text.
#[verifier::external_body]
fn local_timestamp() -> (r: String) {
    ::chrono::Local::now().to_rfc3339()
}

/// The text that a new file of the given type and name starts with when it
/// is made at `now`.
pub fn get_template_content_at(file_type: &FileType, name: &str, now: &str) -> (r: String)
    ensures
        r@ == template_of(*file_type, name@, now@),
{
    match file_type {
        FileType::Character => fill(CHARACTER_HEAD, CHARACTER_FIELDS, CHARACTER_BODY, name, now),
        FileType::Location => fill(LOCATION_HEAD, LOCATION_FIELDS, LOCATION_BODY, name, now),
        FileType::Lore => fill(LORE_HEAD, LORE_FIELDS, LORE_BODY, name, now),
        _ => {
            let a = concat(PLAIN_HEAD, name);
            concat(a.as_str(), PLAIN_BODY)
        },
    }
}

/// The text that a new file of the given type and name starts with when it
/// is made now.
pub fn get_template_content(file_type: &FileType, name: &str) -> (r: String)
    ensures
        exists|now: Seq<char>| r@ == template_of(*file_type, name@, now),
{
    let now = local_timestamp();
    get_template_content_at(file_type, name, now.as_str())
}

} // verus!
