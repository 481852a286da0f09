//! Building the report the `info` command shows: the manifest's fields
//! plus the per-namespace tallies, for a datapack scanned as a directory
//! or from an archive's entry list.

use vstd::prelude::*;

verus! {

use crate::json::Json;
use crate::json::parse_json_text;
use crate::json::spec_as_u64;
use crate::json::spec_get;
use crate::json::spec_json_of;
use crate::manifest::FilterInfo;
use crate::manifest::InfoError;
use crate::manifest::OverlayInfo;
use crate::manifest::parse_description;
use crate::manifest::parse_features;
use crate::manifest::parse_filter;
use crate::manifest::parse_overlays;
use crate::manifest::parse_supported_formats;
use crate::manifest::spec_description;
use crate::manifest::spec_features;
use crate::manifest::spec_filter;
use crate::manifest::spec_overlays;
use crate::manifest::spec_pattern_rep;
use crate::manifest::spec_overlay_rep;
use crate::manifest::spec_supported_formats;
use crate::manifest::spec_u8_trunc;
use crate::scanner::NamespaceInfo;
use crate::scanner::spec_dir_namespaces;
use crate::scanner::spec_ns_rep;
use crate::scanner::spec_zip_namespaces;
use crate::scanner::collect_dir_namespaces;
use crate::scanner::collect_zip_namespaces;
use crate::strings::spec_ends_with;
use crate::strings::ends_with_lit;
use crate::strings::to_chars;
use crate::strings::chars_eq_str;

/// Everything the `info` command reports about one datapack.
pub struct DatapackInfo {
    pub name: String,
    pub description: String,
    pub pack_format: u8,
    pub supported_formats: Vec<u8>,
    pub namespaces: Vec<(String, NamespaceInfo)>,
    pub features: Vec<(String, bool)>,
    pub filter: Option<FilterInfo>,
    pub overlays: Vec<OverlayInfo>,
}

/// Why reading a manifest document fails, when it does: no `pack` object,
/// no `pack_format` under it, or one that is not an unsigned integer.
pub open spec fn spec_manifest_err(j: Json) -> Option<InfoError> {
    match spec_get(j, "pack"@) {
        None => Some(InfoError::MissingPack),
        Some(p) => match spec_get(p, "pack_format"@) {
            None => Some(InfoError::MissingPackFormat),
            Some(pf) => match spec_as_u64(pf) {
                None => Some(InfoError::InvalidPackFormat),
                Some(_) => None,
            },
        },
    }
}

/// The raw `pack_format` value of a readable manifest; 0 elsewhere.
pub open spec fn spec_manifest_pack_format(j: Json) -> u64 {
    match spec_get(j, "pack"@) {
        Some(p) => match spec_get(p, "pack_format"@) {
            Some(pf) => match spec_as_u64(pf) {
                Some(x) => x,
                None => 0,
            },
            None => 0,
        },
        None => 0,
    }
}

/// The description of a manifest; a missing field reads as an empty string.
pub open spec fn spec_manifest_description(j: Json) -> Seq<char> {
    match spec_get(j, "pack"@) {
        Some(p) => match spec_get(p, "description"@) {
            Some(d) => spec_description(d),
            None => Seq::empty(),
        },
        None => Seq::empty(),
    }
}

/// The supported formats of a manifest.
pub open spec fn spec_manifest_supported(j: Json) -> Seq<u8> {
    match spec_get(j, "pack"@) {
        Some(p) => spec_supported_formats(
            spec_u8_trunc(spec_manifest_pack_format(j)),
            spec_get(p, "supported_formats"@),
        ),
        None => Seq::empty(),
    }
}

/// What the manifest part of a report must hold for document `j` with the
/// given pack name.
pub open spec fn spec_info_matches(info: DatapackInfo, j: Json, name: Seq<char>) -> bool {
    &&& info.name@ == name
    &&& info.pack_format == spec_u8_trunc(spec_manifest_pack_format(j))
    &&& info.description@ == spec_manifest_description(j)
    &&& info.supported_formats@ == spec_manifest_supported(j)
    &&& info.features.deep_view() == spec_features(j)
    &&& (match info.filter {
        Some(f) => spec_filter(j) == Some(f.block@.map_values(spec_pattern_rep())),
        None => spec_filter(j) is None,
    })
    &&& info.overlays@.map_values(spec_overlay_rep()) == spec_overlays(j)
}

/// Read the manifest fields of a parsed document into a report whose
/// namespace list is still empty.
fn info_from_json(j: &Json, name: String) -> (r: Result<DatapackInfo, InfoError>)
    ensures
        match r {
            Ok(info) => spec_manifest_err(*j) is None && spec_info_matches(info, *j, name@)
                && info.namespaces@.len() == 0,
            Err(e) => spec_manifest_err(*j) == Some(e),
        },
{
    let pack = match j.get("pack") {
        Some(p) => p,
        None => {
            return Err(InfoError::MissingPack);
        },
    };
    let pf_field = match pack.get("pack_format") {
        Some(pf) => pf,
        None => {
            return Err(InfoError::MissingPackFormat);
        },
    };
    let pf_raw = match pf_field.as_u64_opt() {
        Some(x) => x,
        None => {
            return Err(InfoError::InvalidPackFormat);
        },
    };
    let pack_format: u8 = ((pf_raw % 256) as u8);
    let supported_formats = parse_supported_formats(pack_format, pack.get("supported_formats"));
    let description = match pack.get("description") {
        Some(d) => parse_description(d),
        None => String::new(),
    };
    let features = parse_features(j);
    let filter = parse_filter(j);
    let overlays = parse_overlays(j);
    Ok(
        DatapackInfo {
            name,
            description,
            pack_format,
            supported_formats,
            namespaces: Vec::new(),
            features,
            filter,
            overlays,
        },
    )
}

/// The report for a datapack scanned as a directory: the manifest text, the
/// pack's name, and for each namespace directory the relative paths of its
/// files.
pub fn collect_info(manifest_text: &str, name: String, namespaces: &Vec<(String, Vec<String>)>)
    -> (r: Result<DatapackInfo, InfoError>)
    ensures
        match r {
            Ok(info) => match spec_json_of(manifest_text@) {
                Some(j) => spec_manifest_err(j) is None && spec_info_matches(info, j, name@)
                    && info.namespaces@.map_values(spec_ns_rep()) == spec_dir_namespaces(
                    namespaces.deep_view(),
                ),
                None => false,
            },
            Err(e) => match spec_json_of(manifest_text@) {
                Some(j) => spec_manifest_err(j) == Some(e),
                None => e is MalformedJson,
            },
        },
{
    let j = match parse_json_text(manifest_text) {
        Some(j) => j,
        None => {
            return Err(InfoError::MalformedJson);
        },
    };
    let mut info = info_from_json(&j, name)?;
    info.namespaces = collect_dir_namespaces(namespaces);
    Ok(info)
}

/// The report for a datapack scanned from an archive's entry list.
pub fn collect_info_from_zip(manifest_text: &str, name: String, entries: &Vec<String>) -> (r:
    Result<DatapackInfo, InfoError>)
    ensures
        match r {
            Ok(info) => match spec_json_of(manifest_text@) {
                Some(j) => spec_manifest_err(j) is None && spec_info_matches(info, j, name@)
                    && info.namespaces@.map_values(spec_ns_rep()) == spec_zip_namespaces(
                    entries.deep_view(),
                ),
                None => false,
            },
            Err(e) => match spec_json_of(manifest_text@) {
                Some(j) => spec_manifest_err(j) == Some(e),
                None => e is MalformedJson,
            },
        },
{
    let j = match parse_json_text(manifest_text) {
        Some(j) => j,
        None => {
            return Err(InfoError::MalformedJson);
        },
    };
    let mut info = info_from_json(&j, name)?;
    info.namespaces = collect_zip_namespaces(entries);
    Ok(info)
}

/// The name that makes an archive entry the pack manifest: the well-known
/// name itself, or any path ending in it.
pub open spec fn spec_is_manifest_name(name: Seq<char>) -> bool {
    name == "pack.mcmeta"@ || spec_ends_with(name, "/pack.mcmeta"@)
}

/// The first archive entry that is the pack manifest, by entry order.
pub fn find_pack_mcmeta_index(names: &Vec<String>) -> (r: Option<usize>)
    ensures
        match r {
            Some(i) => i < names@.len() && spec_is_manifest_name(names.deep_view()[i as int])
                && forall|k: int|
                0 <= k < i ==> !spec_is_manifest_name(#[trigger] names.deep_view()[k]),
            None => forall|k: int|
                0 <= k < names@.len() ==> !spec_is_manifest_name(#[trigger] names.deep_view()[k]),
        },
{
    let mut i: usize = 0;
    while i < names.len()
        invariant
            i <= names@.len(),
            names@.len() == names.deep_view().len(),
            forall|k: int| 0 <= k < i ==> !spec_is_manifest_name(#[trigger] names.deep_view()[k]),
        decreases names@.len() - i,
    {
        proof {
            assert(names.deep_view()[i as int] =~= names@[i as int]@);
        }
        let cs = to_chars(names[i].as_str());
        if chars_eq_str(&cs, "pack.mcmeta") || ends_with_lit(&cs, "/pack.mcmeta") {
            return Some(i);
        }
        i = i + 1;
    }
    None
}

} // verus!
