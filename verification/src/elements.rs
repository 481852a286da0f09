//! The catalog of element types a datapack can hold: their names, their
//! file extensions, and the starter content written for a new element.

use vstd::prelude::*;

verus! {

use vstd::string::StringExecFns;
use crate::strings::str_eq;

/// The element type names the tool accepts, in catalog order.
pub open spec fn spec_element_names() -> Seq<Seq<char>> {
    seq![
        "function"@,
        "tag"@,
        "advancement"@,
        "banner_pattern"@,
        "chat_type"@,
        "damage_type"@,
        "enchantment"@,
        "enchantment_provider"@,
        "instrument"@,
        "item_modifier"@,
        "jukebox_song"@,
        "loot_table"@,
        "painting_variant"@,
        "predicate"@,
        "recipe"@,
        "trim_material"@,
        "trim_pattern"@,
        "walk_variant"@,
    ]
}

/// The file extension for an element type: functions are plain command
/// files, every other catalog entry is a JSON file.
pub open spec fn spec_extension_of(name: Seq<char>) -> Seq<char> {
    if name == "function"@ {
        ".mcfunction"@
    } else {
        ".json"@
    }
}

/// The catalog's names, in order.
pub fn element_type_names() -> (r: Vec<String>)
    ensures
        r.deep_view() == spec_element_names(),
{
    let r: Vec<String> = vec![
        String::from_str("function"),
        String::from_str("tag"),
        String::from_str("advancement"),
        String::from_str("banner_pattern"),
        String::from_str("chat_type"),
        String::from_str("damage_type"),
        String::from_str("enchantment"),
        String::from_str("enchantment_provider"),
        String::from_str("instrument"),
        String::from_str("item_modifier"),
        String::from_str("jukebox_song"),
        String::from_str("loot_table"),
        String::from_str("painting_variant"),
        String::from_str("predicate"),
        String::from_str("recipe"),
        String::from_str("trim_material"),
        String::from_str("trim_pattern"),
        String::from_str("walk_variant"),
    ];
    assert(r.deep_view() =~~= spec_element_names());
    r
}

/// Whether a name is one of the catalog's element types.
pub fn is_valid_element_type(element_type: &str) -> (r: bool)
    ensures
        r == spec_element_names().contains(element_type@),
{
    let names = element_type_names();
    let mut i: usize = 0;
    while i < names.len()
        invariant
            i <= names@.len(),
            names.deep_view() == spec_element_names(),
            names@.len() == spec_element_names().len(),
            forall|j: int| 0 <= j < i ==> spec_element_names()[j] != element_type@,
        decreases names@.len() - i,
    {
        proof {
            assert(names.deep_view()[i as int] =~= names@[i as int]@);
        }
        if str_eq(names[i].as_str(), element_type) {
            assert(spec_element_names().contains(element_type@)) by {
                assert(spec_element_names()[i as int] == element_type@);
            }
            return true;
        }
        i = i + 1;
    }
    assert(!spec_element_names().contains(element_type@)) by {
        if spec_element_names().contains(element_type@) {
            let j = choose|j: int|
                0 <= j < spec_element_names().len() && spec_element_names()[j] == element_type@;
        }
    }
    false
}

/// The file extension for an element type.
pub fn extension_for(element_type: &str) -> (r: String)
    ensures
        r@ == spec_extension_of(element_type@),
{
    if str_eq(element_type, "function") {
        String::from_str(".mcfunction")
    } else {
        String::from_str(".json")
    }
}

/// The starter content written for a freshly added element of each type:
/// a minimal JSON skeleton, or nothing at all for a function.
pub open spec fn spec_sample_content(name: Seq<char>) -> Seq<char> {
    if name == "function"@ {
        Seq::empty()
    } else if name == "advancement"@ {
        "{\n  \"criteria\": {}\n}"@
    } else if name == "banner_pattern"@ {
        "{\n  \"asset_id\": \"\",\n  \"translation_key\": \"\"\n}"@
    } else if name == "chat_type"@ {
        "{\n  \"chat\": {\n    \"parameters\": [],\n    \"translation_key\": \"\"\n  },\n  \"narration\": {\n    \"parameters\": [],\n    \"translation_key\": \"\"\n  }\n}"@
    } else if name == "damage_type"@ {
        "{\n  \"exhaustion\": 0,\n  \"message_id\": \"\",\n  \"scaling\": \"never\"\n}"@
    } else if name == "enchantment"@ {
        "{\n  \"anvil_cost\": 0,\n  \"description\": \"\",\n  \"max_cost\": {\n    \"base\": 0,\n    \"per_level_above_first\": 0\n  },\n  \"max_level\": 1,\n  \"min_cost\": {\n    \"base\": 0,\n    \"per_level_above_first\": 0\n  },\n  \"slots\": [],\n  \"supported_items\": \"\",\n  \"weight\": 1\n}"@
    } else if name == "enchantment_provider"@ {
        "{\n  \"enchantment\": \"\",\n  \"type\": \"minecraft:single\"\n}"@
    } else if name == "instrument"@ {
        "{\n  \"description\": \"\",\n  \"range\": 1,\n  \"sound_event\": \"\",\n  \"use_duration\": 1\n}"@
    } else if name == "item_modifier"@ {
        "{\n  \"function\": \"\"\n}"@
    } else if name == "jukebox_song"@ {
        "{\n  \"comparator_output\": 0,\n  \"description\": \"\",\n  \"length_in_seconds\": 1,\n  \"sound_event\": \"\"\n}"@
    } else if name == "loot_table"@ {
        "{\n  \"type\": \"\"\n}"@
    } else if name == "painting_variant"@ {
        "{\n  \"asset_id\": \"\",\n  \"author\": \"\",\n  \"height\": 1,\n  \"title\": \"\",\n  \"width\": 1\n}"@
    } else if name == "predicate"@ {
        "{\n  \"condition\": \"\"\n}"@
    } else if name == "recipe"@ {
        "{\n  \"type\": \"\"\n}"@
    } else if name == "tag"@ {
        "{\n  \"values\": [\n    \"minecraft:stone\"\n  ]\n}"@
    } else if name == "trim_material"@ {
        "{\n  \"asset_name\": \"\",\n  \"description\": \"\",\n  \"ingredient\": \"\",\n  \"item_model_index\": 0\n}"@
    } else if name == "trim_pattern"@ {
        "{\n  \"asset_id\": \"\",\n  \"description\": \"\",\n  \"template_item\": \"\"\n}"@
    } else if name == "wolf_variant"@ {
        "{\n  \"angry_texture\": \"\",\n  \"biomes\": \"\",\n  \"tame_texture\": \"\",\n  \"wild_texture\": \"\"\n}"@
    } else {
        "{}"@
    }
}

/// The starter content for an element type.
pub fn get_sample_content(element_type: &str) -> (r: String)
    ensures
        r@ == spec_sample_content(element_type@),
{
    if str_eq(element_type, "function") {
        String::new()
    } else if str_eq(element_type, "advancement") {
        String::from_str("{\n  \"criteria\": {}\n}")
    } else if str_eq(element_type, "banner_pattern") {
        String::from_str("{\n  \"asset_id\": \"\",\n  \"translation_key\": \"\"\n}")
    } else if str_eq(element_type, "chat_type") {
        String::from_str(
            "{\n  \"chat\": {\n    \"parameters\": [],\n    \"translation_key\": \"\"\n  },\n  \"narration\": {\n    \"parameters\": [],\n    \"translation_key\": \"\"\n  }\n}",
        )
    } else if str_eq(element_type, "damage_type") {
        String::from_str("{\n  \"exhaustion\": 0,\n  \"message_id\": \"\",\n  \"scaling\": \"never\"\n}")
    } else if str_eq(element_type, "enchantment") {
        String::from_str(
            "{\n  \"anvil_cost\": 0,\n  \"description\": \"\",\n  \"max_cost\": {\n    \"base\": 0,\n    \"per_level_above_first\": 0\n  },\n  \"max_level\": 1,\n  \"min_cost\": {\n    \"base\": 0,\n    \"per_level_above_first\": 0\n  },\n  \"slots\": [],\n  \"supported_items\": \"\",\n  \"weight\": 1\n}",
        )
    } else if str_eq(element_type, "enchantment_provider") {
        String::from_str("{\n  \"enchantment\": \"\",\n  \"type\": \"minecraft:single\"\n}")
    } else if str_eq(element_type, "instrument") {
        String::from_str(
            "{\n  \"description\": \"\",\n  \"range\": 1,\n  \"sound_event\": \"\",\n  \"use_duration\": 1\n}",
        )
    } else if str_eq(element_type, "item_modifier") {
        String::from_str("{\n  \"function\": \"\"\n}")
    } else if str_eq(element_type, "jukebox_song") {
        String::from_str(
            "{\n  \"comparator_output\": 0,\n  \"description\": \"\",\n  \"length_in_seconds\": 1,\n  \"sound_event\": \"\"\n}",
        )
    } else if str_eq(element_type, "loot_table") {
        String::from_str("{\n  \"type\": \"\"\n}")
    } else if str_eq(element_type, "painting_variant") {
        String::from_str(
            "{\n  \"asset_id\": \"\",\n  \"author\": \"\",\n  \"height\": 1,\n  \"title\": \"\",\n  \"width\": 1\n}",
        )
    } else if str_eq(element_type, "predicate") {
        String::from_str("{\n  \"condition\": \"\"\n}")
    } else if str_eq(element_type, "recipe") {
        String::from_str("{\n  \"type\": \"\"\n}")
    } else if str_eq(element_type, "tag") {
        String::from_str("{\n  \"values\": [\n    \"minecraft:stone\"\n  ]\n}")
    } else if str_eq(element_type, "trim_material") {
        String::from_str(
            "{\n  \"asset_name\": \"\",\n  \"description\": \"\",\n  \"ingredient\": \"\",\n  \"item_model_index\": 0\n}",
        )
    } else if str_eq(element_type, "trim_pattern") {
        String::from_str(
            "{\n  \"asset_id\": \"\",\n  \"description\": \"\",\n  \"template_item\": \"\"\n}",
        )
    } else if str_eq(element_type, "wolf_variant") {
        String::from_str(
            "{\n  \"angry_texture\": \"\",\n  \"biomes\": \"\",\n  \"tame_texture\": \"\",\n  \"wild_texture\": \"\"\n}",
        )
    } else {
        String::from_str("{}")
    }
}

} // verus!
