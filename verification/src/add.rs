//! Planning the addition of one element to an existing datapack: the
//! target path, the starter content, and the overwrite policy.

use vstd::prelude::*;

verus! {

use vstd::string::StringExecFns;
use crate::elements::extension_for;
use crate::elements::get_sample_content;
use crate::elements::is_valid_element_type;
use crate::elements::spec_element_names;
use crate::elements::spec_extension_of;
use crate::elements::spec_sample_content;

/// Why an add request is refused.
#[derive(Debug)]
pub enum AddError {
    InvalidElementType,
}

impl AddError {
    /// The line reported for this failure.
    pub fn message(&self) -> (r: String)
        ensures
            r@ == "Invalid element type. Supported types are: function, tag, advancement, banner_pattern, chat_type, damage_type, enchantment, enchantment_provider, instrument, item_modifier, jukebox_song, loot_table, painting_variant, predicate, recipe, trim_material, trim_pattern, walk_variant"@,
    {
        String::from_str(
            "Invalid element type. Supported types are: function, tag, advancement, banner_pattern, chat_type, damage_type, enchantment, enchantment_provider, instrument, item_modifier, jukebox_song, loot_table, painting_variant, predicate, recipe, trim_material, trim_pattern, walk_variant",
        )
    }
}

/// What an add request comes to: one file to write, or a deliberate no-op
/// when the target exists and overwriting was declined.
pub enum AddOutcome {
    Write(String, String),
    Skipped,
}

/// The path of the element file, relative to the pack root.
pub open spec fn spec_add_path(
    element_type: Seq<char>,
    namespace: Seq<char>,
    name: Seq<char>,
) -> Seq<char> {
    "data/"@ + namespace + "/"@ + element_type + "/"@ + name + spec_extension_of(element_type)
}

/// Decide an add request. The caller reports whether the target file is
/// already there and whether overwriting was forced or confirmed; writing
/// the file is its work afterwards.
pub fn plan_add(
    element_type: &str,
    namespace: &str,
    name: &str,
    file_exists: bool,
    force: bool,
    confirmed: bool,
) -> (r: Result<AddOutcome, AddError>)
    ensures
        match r {
            Ok(outcome) => spec_element_names().contains(element_type@) && match outcome {
                AddOutcome::Write(path, content) => (!file_exists || force || confirmed)
                    && path@ == spec_add_path(element_type@, namespace@, name@) && content@
                    == spec_sample_content(element_type@),
                AddOutcome::Skipped => file_exists && !force && !confirmed,
            },
            Err(e) => !spec_element_names().contains(element_type@) && e
                is InvalidElementType,
        },
{
    if !is_valid_element_type(element_type) {
        return Err(AddError::InvalidElementType);
    }
    if file_exists && !force && !confirmed {
        return Ok(AddOutcome::Skipped);
    }
    let mut path = String::from_str("data/");
    path.append(namespace);
    path.append("/");
    path.append(element_type);
    path.append("/");
    path.append(name);
    let ext = extension_for(element_type);
    path.append(ext.as_str());
    let content = get_sample_content(element_type);
    Ok(AddOutcome::Write(path, content))
}

} // verus!
