//! Reading a datapack manifest out of a parsed JSON document: the pack
//! format, the supported-format list, the description, and the optional
//! feature, filter and overlay sections.

use vstd::prelude::*;

verus! {

use vstd::string::StringExecFns;
use crate::json::Json;
use crate::json::spec_get;
use crate::json::spec_obj_get;

/// One entry of a manifest filter's block list.
pub struct BlockPattern {
    pub namespace: Option<String>,
    pub path: Option<String>,
}

/// The manifest's filter section: patterns for files the pack blocks.
pub struct FilterInfo {
    pub block: Vec<BlockPattern>,
}

/// One overlay entry: the formats it applies to and its directory.
pub struct OverlayInfo {
    pub formats: Vec<u8>,
    pub directory: String,
}

/// Why a manifest could not be read.
#[derive(Debug)]
pub enum InfoError {
    MalformedJson,
    MissingPack,
    MissingPackFormat,
    InvalidPackFormat,
}

impl InfoError {
    /// The line reported for this failure.
    pub fn message(&self) -> (r: String)
        ensures
            r@ == spec_info_error_message(*self),
    {
        match self {
            InfoError::MalformedJson => String::from_str("Failed to parse pack.mcmeta"),
            InfoError::MissingPack => String::from_str(
                "Invalid pack.mcmeta: missing 'pack' object",
            ),
            InfoError::MissingPackFormat => String::from_str("Missing pack_format"),
            InfoError::InvalidPackFormat => String::from_str("Invalid pack_format"),
        }
    }
}

pub open spec fn spec_info_error_message(e: InfoError) -> Seq<char> {
    match e {
        InfoError::MalformedJson => "Failed to parse pack.mcmeta"@,
        InfoError::MissingPack => "Invalid pack.mcmeta: missing 'pack' object"@,
        InfoError::MissingPackFormat => "Missing pack_format"@,
        InfoError::InvalidPackFormat => "Invalid pack_format"@,
    }
}

/// The plain text of one rich-text component: a string is itself, an object
/// contributes its `text` field, anything else contributes nothing.
pub open spec fn spec_text_component(c: Json) -> Seq<char> {
    match c {
        Json::Str(s) => s@,
        Json::Obj(entries) => match spec_obj_get(entries@, "text"@) {
            Some(Json::Str(t)) => t@,
            _ => Seq::empty(),
        },
        _ => Seq::empty(),
    }
}

/// The plain text of a rich-text component.
pub fn parse_text_component(component: &Json) -> (r: String)
    ensures
        r@ == spec_text_component(*component),
{
    match component {
        Json::Str(s) => s.clone(),
        Json::Obj(_) => {
            match component.get("text") {
                Some(t) => match t.as_string() {
                    Some(s) => s.clone(),
                    None => String::new(),
                },
                None => String::new(),
            }
        },
        _ => String::new(),
    }
}

pub open spec fn spec_concat_components(items: Seq<Json>) -> Seq<char>
    decreases items.len(),
{
    if items.len() == 0 {
        Seq::empty()
    } else {
        spec_concat_components(items.drop_last()) + spec_text_component(items.last())
    }
}

/// The description shown for a pack: a plain string as it is, an array as
/// its components' texts joined, an object as its own text, and any other
/// shape as a placeholder.
pub open spec fn spec_description(desc: Json) -> Seq<char> {
    match desc {
        Json::Str(s) => s@,
        Json::Arr(items) => spec_concat_components(items@),
        Json::Obj(_) => spec_text_component(desc),
        _ => "Invalid description"@,
    }
}

/// Extract the description text from its manifest value.
pub fn parse_description(desc: &Json) -> (r: String)
    ensures
        r@ == spec_description(*desc),
{
    match desc {
        Json::Str(s) => s.clone(),
        Json::Arr(items) => {
            let mut acc = String::new();
            let mut i: usize = 0;
            assert(items@.take(0) =~= Seq::<Json>::empty());
            while i < items.len()
                invariant
                    i <= items@.len(),
                    acc@ == spec_concat_components(items@.take(i as int)),
                decreases items@.len() - i,
            {
                let piece = parse_text_component(&items[i]);
                acc.append(piece.as_str());
                i = i + 1;
                proof {
                    assert(items@.take(i as int).drop_last() =~= items@.take(i - 1));
                    assert(items@.take(i as int).last() == items@[i - 1]);
                }
            }
            assert(items@.take(items@.len() as int) =~= items@);
            acc
        },
        Json::Obj(_) => parse_text_component(desc),
        _ => String::from_str("Invalid description"),
    }
}

/// A `u64` taken into a byte the way an `as` cast takes it.
pub open spec fn spec_u8_trunc(x: u64) -> u8 {
    (x % 256) as u8
}

/// One entry of an explicit supported-formats array: its numeric value, or
/// 0 when it is not an integer, taken into a byte.
pub open spec fn spec_format_entry() -> spec_fn(Json) -> u8 {
    |j: Json|
        spec_u8_trunc(
            match j {
                Json::Num(Some(x)) => x,
                _ => 0,
            },
        )
}

/// The inclusive run of bytes from `lo` to `hi`; empty when `lo > hi`.
pub open spec fn spec_u8_range(lo: u8, hi: u8) -> Seq<u8>
    decreases hi - lo,
{
    if lo > hi {
        Seq::empty()
    } else if lo == hi {
        seq![lo]
    } else {
        seq![lo] + spec_u8_range((lo + 1) as u8, hi)
    }
}

/// The supported formats of a manifest: the pack format alone when the field
/// is absent or unusable, an explicit array entry for entry, or the full
/// inclusive range between `min_inclusive` and `max_inclusive`.
pub open spec fn spec_supported_formats(pack_format: u8, formats: Option<Json>) -> Seq<u8> {
    match formats {
        Some(f) => match f {
            Json::Arr(items) => items@.map_values(spec_format_entry()),
            Json::Obj(entries) => {
                let mn = spec_obj_get(entries@, "min_inclusive"@);
                let mx = spec_obj_get(entries@, "max_inclusive"@);
                match (mn, mx) {
                    (Some(Json::Num(Some(lo))), Some(Json::Num(Some(hi)))) => spec_u8_range(
                        spec_u8_trunc(lo),
                        spec_u8_trunc(hi),
                    ),
                    _ => seq![pack_format],
                }
            },
            _ => seq![pack_format],
        },
        None => seq![pack_format],
    }
}

fn u8_range(lo: u8, hi: u8) -> (r: Vec<u8>)
    ensures
        r@ == spec_u8_range(lo, hi),
{
    let mut r: Vec<u8> = Vec::new();
    if lo > hi {
        return r;
    }
    let mut f = lo;
    loop
        invariant
            lo <= f <= hi,
            spec_u8_range(lo, hi) == r@ + spec_u8_range(f, hi),
        decreases hi - f,
    {
        r.push(f);
        if f == hi {
            assert(spec_u8_range(lo, hi) =~= r@);
            return r;
        }
        assert(spec_u8_range(f, hi) =~= seq![f] + spec_u8_range((f + 1) as u8, hi));
        assert(spec_u8_range(lo, hi) =~= r@ + spec_u8_range((f + 1) as u8, hi));
        f = f + 1;
    }
}

/// The supported-formats list for a manifest whose `pack_format` is given.
pub fn parse_supported_formats(pack_format: u8, formats: Option<&Json>) -> (r: Vec<u8>)
    ensures
        r@ == spec_supported_formats(
            pack_format,
            match formats {
                Some(f) => Some(*f),
                None => None,
            },
        ),
{
    match formats {
        Some(f) => match f {
            Json::Arr(items) => {
                let mut r: Vec<u8> = Vec::new();
                let mut i: usize = 0;
                assert(r@ =~= items@.take(0).map_values(spec_format_entry()));
                while i < items.len()
                    invariant
                        i <= items@.len(),
                        *f == Json::Arr(*items),
                        r@ == items@.take(i as int).map_values(spec_format_entry()),
                    decreases items@.len() - i,
                {
                    let x: u64 = match items[i].as_u64_opt() {
                        Some(x) => x,
                        None => 0,
                    };
                    let b: u8 = ((x % 256) as u8);
                    r.push(b);
                    i = i + 1;
                    assert(r@ =~= items@.take(i as int).map_values(spec_format_entry()));
                }
                assert(items@.take(items@.len() as int) =~= items@);
                r
            },
            Json::Obj(_) => {
                let mn = f.get("min_inclusive");
                let mx = f.get("max_inclusive");
                let mn_val = match mn {
                    Some(v) => v.as_u64_opt(),
                    None => None,
                };
                let mx_val = match mx {
                    Some(v) => v.as_u64_opt(),
                    None => None,
                };
                match (mn_val, mx_val) {
                    (Some(lo), Some(hi)) => {
                        let lo8: u8 = ((lo % 256) as u8);
                        let hi8: u8 = ((hi % 256) as u8);
                        u8_range(lo8, hi8)
                    },
                    _ => {
                        let mut r: Vec<u8> = Vec::new();
                        r.push(pack_format);
                        assert(r@ =~= seq![pack_format]);
                        r
                    },
                }
            },
            _ => {
                let mut r: Vec<u8> = Vec::new();
                r.push(pack_format);
                assert(r@ =~= seq![pack_format]);
                r
            },
        },
        None => {
            let mut r: Vec<u8> = Vec::new();
            r.push(pack_format);
            assert(r@ =~= seq![pack_format]);
            r
        },
    }
}

/// The feature names the game knows.
pub open spec fn spec_is_valid_feature(s: Seq<char>) -> bool {
    s == "minecraft:redstone_experiments"@ || s == "minecraft:minecart_improvements"@ || s
        == "minecraft:trade_rebalance"@
}

pub open spec fn spec_feature_list(items: Seq<Json>) -> Seq<(Seq<char>, bool)>
    decreases items.len(),
{
    if items.len() == 0 {
        Seq::empty()
    } else {
        spec_feature_list(items.drop_last()) + (match items.last() {
            Json::Str(s) => seq![(s@, spec_is_valid_feature(s@))],
            _ => Seq::empty(),
        })
    }
}

/// The enabled features of a manifest, each marked valid or not.
pub open spec fn spec_features(j: Json) -> Seq<(Seq<char>, bool)> {
    match spec_get(j, "features"@) {
        Some(f) => match spec_get(f, "enabled"@) {
            Some(Json::Arr(items)) => spec_feature_list(items@),
            _ => Seq::empty(),
        },
        None => Seq::empty(),
    }
}

fn is_valid_feature(s: &str) -> (r: bool)
    ensures
        r == spec_is_valid_feature(s@),
{
    crate::strings::str_eq(s, "minecraft:redstone_experiments") || crate::strings::str_eq(
        s,
        "minecraft:minecart_improvements",
    ) || crate::strings::str_eq(s, "minecraft:trade_rebalance")
}

/// The feature names under `features.enabled`, each with whether the game
/// knows it.
pub fn parse_features(mcmeta: &Json) -> (r: Vec<(String, bool)>)
    ensures
        r.deep_view() == spec_features(*mcmeta),
{
    let mut r: Vec<(String, bool)> = Vec::new();
    let features = match mcmeta.get("features") {
        Some(f) => f,
        None => {
            assert(r.deep_view() =~~= spec_features(*mcmeta));
            return r;
        },
    };
    let enabled = match features.get("enabled") {
        Some(e) => e,
        None => {
            assert(r.deep_view() =~~= spec_features(*mcmeta));
            return r;
        },
    };
    let items = match enabled {
        Json::Arr(items) => items,
        _ => {
            assert(r.deep_view() =~~= spec_features(*mcmeta));
            return r;
        },
    };
    let mut i: usize = 0;
    assert(items@.take(0) =~= Seq::<Json>::empty());
    assert(r.deep_view() =~~= spec_feature_list(items@.take(0)));
    while i < items.len()
        invariant
            i <= items@.len(),
            spec_features(*mcmeta) == spec_feature_list(items@),
            r.deep_view() == spec_feature_list(items@.take(i as int)),
        decreases items@.len() - i,
    {
        let ghost old_r = r.deep_view();
        match &items[i] {
            Json::Str(s) => {
                let valid = is_valid_feature(s.as_str());
                r.push((s.clone(), valid));
            },
            _ => {},
        }
        i = i + 1;
        proof {
            assert(items@.take(i as int).drop_last() =~= items@.take(i - 1));
            assert(items@.take(i as int).last() == items@[i - 1]);
            assert(r.deep_view() =~~= spec_feature_list(items@.take(i as int)));
        }
    }
    assert(items@.take(items@.len() as int) =~= items@);
    r
}

pub open spec fn spec_opt_str(o: Option<String>) -> Option<Seq<char>> {
    match o {
        Some(s) => Some(s@),
        None => None,
    }
}

/// The string under `key`, when the entry is there and is a string.
pub open spec fn spec_str_field(j: Json, key: Seq<char>) -> Option<Seq<char>> {
    match spec_get(j, key) {
        Some(Json::Str(s)) => Some(s@),
        _ => None,
    }
}

fn str_field(j: &Json, key: &str) -> (r: Option<String>)
    ensures
        spec_opt_str(r) == spec_str_field(*j, key@),
{
    match j.get(key) {
        Some(v) => match v.as_string() {
            Some(s) => Some(s.clone()),
            None => None,
        },
        None => None,
    }
}

/// What one block pattern holds.
pub open spec fn spec_pattern_rep() -> spec_fn(BlockPattern) -> (Option<Seq<char>>, Option<
    Seq<char>,
>) {
    |p: BlockPattern| (spec_opt_str(p.namespace), spec_opt_str(p.path))
}

pub open spec fn spec_block_patterns(items: Seq<Json>) -> Seq<
    (Option<Seq<char>>, Option<Seq<char>>),
>
    decreases items.len(),
{
    if items.len() == 0 {
        Seq::empty()
    } else {
        spec_block_patterns(items.drop_last()) + (match items.last() {
            Json::Obj(_) => seq![
                (
                    spec_str_field(items.last(), "namespace"@),
                    spec_str_field(items.last(), "path"@),
                ),
            ],
            _ => Seq::empty(),
        })
    }
}

/// The filter section: the patterns under `filter.block` that are objects,
/// or nothing when there are none.
pub open spec fn spec_filter(j: Json) -> Option<Seq<(Option<Seq<char>>, Option<Seq<char>>)>> {
    match spec_get(j, "filter"@) {
        Some(f) => match spec_get(f, "block"@) {
            Some(Json::Arr(items)) => {
                let pats = spec_block_patterns(items@);
                if pats.len() == 0 {
                    None
                } else {
                    Some(pats)
                }
            },
            _ => None,
        },
        None => None,
    }
}

/// The filter section of a manifest.
pub fn parse_filter(mcmeta: &Json) -> (r: Option<FilterInfo>)
    ensures
        match r {
            Some(f) => spec_filter(*mcmeta) == Some(f.block@.map_values(spec_pattern_rep())),
            None => spec_filter(*mcmeta) is None,
        },
{
    let filter = match mcmeta.get("filter") {
        Some(f) => f,
        None => {
            return None;
        },
    };
    let block = match filter.get("block") {
        Some(b) => b,
        None => {
            return None;
        },
    };
    let items = match block {
        Json::Arr(items) => items,
        _ => {
            return None;
        },
    };
    let mut pats: Vec<BlockPattern> = Vec::new();
    let mut i: usize = 0;
    assert(items@.take(0) =~= Seq::<Json>::empty());
    assert(pats@.map_values(spec_pattern_rep()) =~= spec_block_patterns(items@.take(0)));
    while i < items.len()
        invariant
            i <= items@.len(),
            pats@.map_values(spec_pattern_rep()) == spec_block_patterns(items@.take(i as int)),
        decreases items@.len() - i,
    {
        let item = &items[i];
        match item {
            Json::Obj(_) => {
                let namespace = str_field(item, "namespace");
                let path = str_field(item, "path");
                pats.push(BlockPattern { namespace, path });
            },
            _ => {},
        }
        i = i + 1;
        proof {
            assert(items@.take(i as int).drop_last() =~= items@.take(i - 1));
            assert(items@.take(i as int).last() == items@[i - 1]);
            assert(pats@.map_values(spec_pattern_rep()) =~= spec_block_patterns(
                items@.take(i as int),
            ));
        }
    }
    assert(items@.take(items@.len() as int) =~= items@);
    if pats.len() == 0 {
        None
    } else {
        Some(FilterInfo { block: pats })
    }
}

/// What one overlay entry holds.
pub open spec fn spec_overlay_rep() -> spec_fn(OverlayInfo) -> (Seq<u8>, Seq<char>) {
    |o: OverlayInfo| (o.formats@, o.directory@)
}

pub open spec fn spec_overlay_formats(items: Seq<Json>) -> Seq<u8>
    decreases items.len(),
{
    if items.len() == 0 {
        Seq::empty()
    } else {
        spec_overlay_formats(items.drop_last()) + (match items.last() {
            Json::Num(Some(x)) => seq![spec_u8_trunc(x)],
            _ => Seq::empty(),
        })
    }
}

/// The formats named by one overlay entry: an array keeps its integer
/// members, a single number stands alone (0 when it is no integer).
pub open spec fn spec_overlay_entry_formats(e: Json) -> Seq<u8> {
    match spec_get(e, "formats"@) {
        Some(Json::Arr(items)) => spec_overlay_formats(items@),
        Some(Json::Num(n)) => seq![
            spec_u8_trunc(
                match n {
                    Some(x) => x,
                    None => 0,
                },
            ),
        ],
        _ => Seq::empty(),
    }
}

/// The directory one overlay entry names, empty when absent.
pub open spec fn spec_overlay_entry_directory(e: Json) -> Seq<char> {
    match spec_str_field(e, "directory"@) {
        Some(s) => s,
        None => Seq::empty(),
    }
}

pub open spec fn spec_overlay_list(items: Seq<Json>) -> Seq<(Seq<u8>, Seq<char>)>
    decreases items.len(),
{
    if items.len() == 0 {
        Seq::empty()
    } else {
        spec_overlay_list(items.drop_last()) + (match items.last() {
            Json::Obj(_) => {
                let formats = spec_overlay_entry_formats(items.last());
                let directory = spec_overlay_entry_directory(items.last());
                if formats.len() > 0 && directory.len() > 0 {
                    seq![(formats, directory)]
                } else {
                    Seq::empty()
                }
            },
            _ => Seq::empty(),
        })
    }
}

/// The overlay entries of a manifest: each object under `overlays.entries`
/// that names at least one format and a directory.
pub open spec fn spec_overlays(j: Json) -> Seq<(Seq<u8>, Seq<char>)> {
    match spec_get(j, "overlays"@) {
        Some(o) => match spec_get(o, "entries"@) {
            Some(Json::Arr(items)) => spec_overlay_list(items@),
            _ => Seq::empty(),
        },
        None => Seq::empty(),
    }
}

fn overlay_entry_formats(e: &Json) -> (r: Vec<u8>)
    ensures
        r@ == spec_overlay_entry_formats(*e),
{
    let formats = match e.get("formats") {
        Some(f) => f,
        None => {
            let r: Vec<u8> = Vec::new();
            assert(r@ =~= spec_overlay_entry_formats(*e));
            return r;
        },
    };
    match formats {
        Json::Arr(items) => {
            let mut r: Vec<u8> = Vec::new();
            let mut i: usize = 0;
            assert(items@.take(0) =~= Seq::<Json>::empty());
            assert(r@ =~= spec_overlay_formats(items@.take(0)));
            while i < items.len()
                invariant
                    i <= items@.len(),
                    spec_overlay_entry_formats(*e) == spec_overlay_formats(items@),
                    r@ == spec_overlay_formats(items@.take(i as int)),
                decreases items@.len() - i,
            {
                match items[i].as_u64_opt() {
                    Some(x) => {
                        let b: u8 = ((x % 256) as u8);
                        r.push(b);
                    },
                    None => {},
                }
                i = i + 1;
                proof {
                    assert(items@.take(i as int).drop_last() =~= items@.take(i - 1));
                    assert(items@.take(i as int).last() == items@[i - 1]);
                    assert(r@ =~= spec_overlay_formats(items@.take(i as int)));
                }
            }
            assert(items@.take(items@.len() as int) =~= items@);
            r
        },
        Json::Num(n) => {
            let x: u64 = match n {
                Some(x) => *x,
                None => 0,
            };
            let b: u8 = ((x % 256) as u8);
            let mut r: Vec<u8> = Vec::new();
            r.push(b);
            assert(r@ =~= spec_overlay_entry_formats(*e));
            r
        },
        _ => {
            let r: Vec<u8> = Vec::new();
            assert(r@ =~= spec_overlay_entry_formats(*e));
            r
        },
    }
}

/// The overlay entries of a manifest.
pub fn parse_overlays(mcmeta: &Json) -> (r: Vec<OverlayInfo>)
    ensures
        r@.map_values(spec_overlay_rep()) == spec_overlays(*mcmeta),
{
    let mut r: Vec<OverlayInfo> = Vec::new();
    let overlays = match mcmeta.get("overlays") {
        Some(o) => o,
        None => {
            assert(r@.map_values(spec_overlay_rep()) =~= spec_overlays(*mcmeta));
            return r;
        },
    };
    let entries = match overlays.get("entries") {
        Some(e) => e,
        None => {
            assert(r@.map_values(spec_overlay_rep()) =~= spec_overlays(*mcmeta));
            return r;
        },
    };
    let items = match entries {
        Json::Arr(items) => items,
        _ => {
            assert(r@.map_values(spec_overlay_rep()) =~= spec_overlays(*mcmeta));
            return r;
        },
    };
    let mut i: usize = 0;
    assert(items@.take(0) =~= Seq::<Json>::empty());
    assert(r@.map_values(spec_overlay_rep()) =~= spec_overlay_list(items@.take(0)));
    while i < items.len()
        invariant
            i <= items@.len(),
            spec_overlays(*mcmeta) == spec_overlay_list(items@),
            r@.map_values(spec_overlay_rep()) == spec_overlay_list(items@.take(i as int)),
        decreases items@.len() - i,
    {
        let item = &items[i];
        match item {
            Json::Obj(_) => {
                let formats = overlay_entry_formats(item);
                let directory = match str_field(item, "directory") {
                    Some(s) => s,
                    None => String::new(),
                };
                if formats.len() > 0 && directory.as_str().unicode_len() > 0 {
                    r.push(OverlayInfo { formats, directory });
                }
            },
            _ => {},
        }
        i = i + 1;
        proof {
            assert(items@.take(i as int).drop_last() =~= items@.take(i - 1));
            assert(items@.take(i as int).last() == items@[i - 1]);
            assert(r@.map_values(spec_overlay_rep()) =~= spec_overlay_list(items@.take(i as int)));
        }
    }
    assert(items@.take(items@.len() as int) =~= items@);
    r
}

} // verus!
