//! Planning the creation of a new datapack: validating the settings,
//! rendering the manifest, and listing every directory and file to put on
//! disk. Writing them is the caller's work; the plan is pure.

use vstd::prelude::*;

verus! {

use vstd::string::StrSliceExecFns;
use vstd::string::StringExecFns;
use crate::elements::spec_element_names;
use crate::elements::is_valid_element_type;
use crate::elements::spec_sample_content;
use crate::elements::get_sample_content;
use crate::pack_formats::spec_formats_in_range;
use crate::pack_formats::spec_is_valid_format;
use crate::pack_formats::get_formats_in_range;
use crate::pack_formats::is_valid_format;
use crate::strings::spec_dec_str;
use crate::strings::spec_ends_with;
use crate::strings::spec_split;
use crate::strings::split_char;
use crate::strings::to_chars;
use crate::strings::chars_to_string;
use crate::strings::chars_eq_str;
use crate::strings::ends_with_lit;
use crate::strings::u8_to_string;

/// Why a create request is refused before anything is written.
#[derive(Debug)]
pub enum CreateError {
    InvalidFormat(u8),
    InvalidFolder(String),
    NoFormats,
    IconMissing(String),
    IconNotPng,
}

pub open spec fn spec_create_error_message(e: CreateError) -> Seq<char> {
    match e {
        CreateError::InvalidFormat(f) => "Invalid pack format: "@ + spec_dec_str(f as nat)
            + ". Valid formats are: 48, 57, 61"@,
        CreateError::InvalidFolder(f) => "Invalid starter folder name: '"@ + f@
            + "'. Valid options are: [\"function\", \"tag\", \"advancement\", \"banner_pattern\", \"chat_type\", \"damage_type\", \"enchantment\", \"enchantment_provider\", \"instrument\", \"item_modifier\", \"jukebox_song\", \"loot_table\", \"painting_variant\", \"predicate\", \"recipe\", \"trim_material\", \"trim_pattern\", \"walk_variant\"]"@,
        CreateError::NoFormats => "No pack formats selected"@,
        CreateError::IconMissing(p) => "Selected icon file does not exist: "@ + p@,
        CreateError::IconNotPng => "Icon must be a PNG file"@,
    }
}

impl CreateError {
    /// The line reported for this failure.
    pub fn message(&self) -> (r: String)
        ensures
            r@ == spec_create_error_message(*self),
    {
        match self {
            CreateError::InvalidFormat(f) => {
                let mut s = String::from_str("Invalid pack format: ");
                let d = u8_to_string(*f);
                s.append(d.as_str());
                s.append(". Valid formats are: 48, 57, 61");
                s
            },
            CreateError::InvalidFolder(f) => {
                let mut s = String::from_str("Invalid starter folder name: '");
                s.append(f.as_str());
                s.append(
                    "'. Valid options are: [\"function\", \"tag\", \"advancement\", \"banner_pattern\", \"chat_type\", \"damage_type\", \"enchantment\", \"enchantment_provider\", \"instrument\", \"item_modifier\", \"jukebox_song\", \"loot_table\", \"painting_variant\", \"predicate\", \"recipe\", \"trim_material\", \"trim_pattern\", \"walk_variant\"]",
                );
                s
            },
            CreateError::NoFormats => String::from_str("No pack formats selected"),
            CreateError::IconMissing(p) => {
                let mut s = String::from_str("Selected icon file does not exist: ");
                s.append(p.as_str());
                s
            },
            CreateError::IconNotPng => String::from_str("Icon must be a PNG file"),
        }
    }
}

/// The validated inputs of a create request.
pub struct PackSettings {
    pub name: String,
    pub description: String,
    pub icon_path: Option<String>,
    pub pack_formats: Vec<u8>,
    pub include_minecraft_namespace: bool,
    pub minecraft_tags: Vec<String>,
    pub custom_namespace: Option<String>,
    pub custom_namespace_folders: Vec<String>,
}

/// Everything to put on disk for one new pack, in order: the icon copy,
/// the manifest text, the directories, then the starter files.
pub struct PackPlan {
    pub icon_from: Option<String>,
    pub manifest: String,
    pub dirs: Vec<String>,
    pub files: Vec<(String, String)>,
}

/// What one character becomes inside a JSON string literal: quotes and
/// backslashes take an escape, the five short control escapes their
/// letter, every other control character a `\u00..` form, and the rest
/// stand as they are.
pub open spec fn spec_escape_char(c: char) -> Seq<char> {
    if c == '"' {
        seq!['\\', '"']
    } else if c == '\\' {
        seq!['\\', '\\']
    } else if c == '\u{8}' {
        seq!['\\', 'b']
    } else if c == '\u{c}' {
        seq!['\\', 'f']
    } else if c == '\n' {
        seq!['\\', 'n']
    } else if c == '\r' {
        seq!['\\', 'r']
    } else if c == '\t' {
        seq!['\\', 't']
    } else if (c as u32) < 32 {
        seq!['\\', 'u', '0', '0', spec_hex_digit((c as u32) / 16), spec_hex_digit((c as u32) % 16)]
    } else {
        seq![c]
    }
}

/// The lowercase hex digit for a value below 16.
pub open spec fn spec_hex_digit(d: u32) -> char {
    if d < 10 {
        ((48 + d) as u8) as char
    } else {
        ((87 + d) as u8) as char
    }
}

/// A string's characters escaped for a JSON string literal.
pub open spec fn spec_json_escaped(s: Seq<char>) -> Seq<char>
    decreases s.len(),
{
    if s.len() == 0 {
        Seq::empty()
    } else {
        spec_json_escaped(s.drop_last()) + spec_escape_char(s.last())
    }
}

fn hex_digit(d: u32) -> (c: char)
    requires
        d < 16,
    ensures
        c == spec_hex_digit(d),
{
    if d < 10 {
        ((48 + d) as u8) as char
    } else {
        ((87 + d) as u8) as char
    }
}

fn escaped_of(c: char) -> (r: Vec<char>)
    ensures
        r@ == spec_escape_char(c),
{
    let mut v: Vec<char> = Vec::new();
    if c == '"' {
        v.push('\\');
        v.push('"');
        assert(v@ =~= spec_escape_char(c));
    } else if c == '\\' {
        v.push('\\');
        v.push('\\');
        assert(v@ =~= spec_escape_char(c));
    } else if c == '\u{8}' {
        v.push('\\');
        v.push('b');
        assert(v@ =~= spec_escape_char(c));
    } else if c == '\u{c}' {
        v.push('\\');
        v.push('f');
        assert(v@ =~= spec_escape_char(c));
    } else if c == '\n' {
        v.push('\\');
        v.push('n');
        assert(v@ =~= spec_escape_char(c));
    } else if c == '\r' {
        v.push('\\');
        v.push('r');
        assert(v@ =~= spec_escape_char(c));
    } else if c == '\t' {
        v.push('\\');
        v.push('t');
        assert(v@ =~= spec_escape_char(c));
    } else {
        let u = c as u32;
        if u < 32 {
            v.push('\\');
            v.push('u');
            v.push('0');
            v.push('0');
            v.push(hex_digit(u / 16));
            v.push(hex_digit(u % 16));
            assert(v@ =~= spec_escape_char(c));
        } else {
            v.push(c);
            assert(v@ =~= spec_escape_char(c));
        }
    }
    v
}

/// Escape a string for embedding in a JSON text.
pub fn json_escape(s: &str) -> (r: String)
    ensures
        r@ == spec_json_escaped(s@),
{
    let cs = to_chars(s);
    let mut out: Vec<char> = Vec::new();
    let mut i: usize = 0;
    assert(out@ =~= spec_json_escaped(cs@.take(0)));
    while i < cs.len()
        invariant
            i <= cs@.len(),
            out@ == spec_json_escaped(cs@.take(i as int)),
        decreases cs@.len() - i,
    {
        let mut e = escaped_of(cs[i]);
        out.append(&mut e);
        i = i + 1;
        proof {
            assert(cs@.take(i as int).drop_last() =~= cs@.take(i - 1));
            assert(cs@.take(i as int).last() == cs@[i - 1]);
        }
    }
    assert(cs@.take(cs@.len() as int) =~= cs@);
    chars_to_string(&out)
}

/// The largest entry of a format list; meaningful only when it is nonempty.
pub open spec fn spec_seq_max(s: Seq<u8>) -> u8
    decreases s.len(),
{
    if s.len() <= 1 {
        if s.len() == 1 {
            s[0]
        } else {
            0
        }
    } else {
        let m = spec_seq_max(s.drop_last());
        if s.last() > m {
            s.last()
        } else {
            m
        }
    }
}

/// The smallest entry of a format list; meaningful only when it is nonempty.
pub open spec fn spec_seq_min(s: Seq<u8>) -> u8
    decreases s.len(),
{
    if s.len() <= 1 {
        if s.len() == 1 {
            s[0]
        } else {
            0
        }
    } else {
        let m = spec_seq_min(s.drop_last());
        if s.last() < m {
            s.last()
        } else {
            m
        }
    }
}

fn seq_max(s: &Vec<u8>) -> (r: u8)
    requires
        s@.len() > 0,
    ensures
        r == spec_seq_max(s@),
{
    let mut m = s[0];
    let mut i: usize = 1;
    assert(s@.take(1) =~= seq![s@[0]]);
    while i < s.len()
        invariant
            1 <= i <= s@.len(),
            m == spec_seq_max(s@.take(i as int)),
        decreases s@.len() - i,
    {
        if s[i] > m {
            m = s[i];
        }
        i = i + 1;
        proof {
            assert(s@.take(i as int).drop_last() =~= s@.take(i - 1));
            assert(s@.take(i as int).last() == s@[i - 1]);
        }
    }
    assert(s@.take(s@.len() as int) =~= s@);
    m
}

fn seq_min(s: &Vec<u8>) -> (r: u8)
    requires
        s@.len() > 0,
    ensures
        r == spec_seq_min(s@),
{
    let mut m = s[0];
    let mut i: usize = 1;
    assert(s@.take(1) =~= seq![s@[0]]);
    while i < s.len()
        invariant
            1 <= i <= s@.len(),
            m == spec_seq_min(s@.take(i as int)),
        decreases s@.len() - i,
    {
        if s[i] < m {
            m = s[i];
        }
        i = i + 1;
        proof {
            assert(s@.take(i as int).drop_last() =~= s@.take(i - 1));
            assert(s@.take(i as int).last() == s@[i - 1]);
        }
    }
    assert(s@.take(s@.len() as int) =~= s@);
    m
}

/// Two format lists name the same set of numbers.
pub open spec fn spec_same_set(a: Seq<u8>, b: Seq<u8>) -> bool {
    forall|x: u8| a.contains(x) <==> b.contains(x)
}

fn vec_contains_u8(s: &Vec<u8>, x: u8) -> (r: bool)
    ensures
        r == s@.contains(x),
{
    let mut i: usize = 0;
    while i < s.len()
        invariant
            i <= s@.len(),
            forall|j: int| 0 <= j < i ==> s@[j] != x,
        decreases s@.len() - i,
    {
        if s[i] == x {
            return true;
        }
        i = i + 1;
    }
    false
}

fn same_set(a: &Vec<u8>, b: &Vec<u8>) -> (r: bool)
    ensures
        r == spec_same_set(a@, b@),
{
    let mut i: usize = 0;
    while i < a.len()
        invariant
            i <= a@.len(),
            forall|j: int| 0 <= j < i ==> b@.contains(#[trigger] a@[j]),
        decreases a@.len() - i,
    {
        if !vec_contains_u8(b, a[i]) {
            assert(a@.contains(a@[i as int]));
            return false;
        }
        i = i + 1;
    }
    let mut k: usize = 0;
    while k < b.len()
        invariant
            k <= b@.len(),
            forall|j: int| 0 <= j < a@.len() ==> b@.contains(#[trigger] a@[j]),
            forall|j: int| 0 <= j < k ==> a@.contains(#[trigger] b@[j]),
        decreases b@.len() - k,
    {
        if !vec_contains_u8(a, b[k]) {
            assert(b@.contains(b@[k as int]));
            return false;
        }
        k = k + 1;
    }
    assert forall|x: u8| a@.contains(x) implies b@.contains(x) by {
        let j = choose|j: int| 0 <= j < a@.len() && a@[j] == x;
    }
    assert forall|x: u8| b@.contains(x) implies a@.contains(x) by {
        let j = choose|j: int| 0 <= j < b@.len() && b@[j] == x;
    }
    true
}

/// How the chosen formats are written into the manifest: a single format is
/// not written at all, the full contiguous known range of three or more is
/// written as its bounds, anything else as an explicit list.
pub enum FormatsEncoding {
    Omitted,
    Range(u8, u8),
    List(Seq<u8>),
}

pub open spec fn spec_formats_encoding(formats: Seq<u8>) -> FormatsEncoding {
    if formats.len() <= 1 {
        FormatsEncoding::Omitted
    } else {
        let mn = spec_seq_min(formats);
        let mx = spec_seq_max(formats);
        let range = spec_formats_in_range(mn, mx);
        if spec_same_set(formats, range) && range.len() >= 3 {
            FormatsEncoding::Range(mn, mx)
        } else {
            FormatsEncoding::List(formats)
        }
    }
}

/// Format numbers joined for a pretty-printed JSON array.
pub open spec fn spec_dec_list(formats: Seq<u8>) -> Seq<char>
    decreases formats.len(),
{
    if formats.len() == 0 {
        Seq::empty()
    } else if formats.len() == 1 {
        spec_dec_str(formats[0] as nat)
    } else {
        spec_dec_list(formats.drop_last()) + ",\n      "@ + spec_dec_str(formats.last() as nat)
    }
}

/// The `supported_formats` member of the manifest text, comma included;
/// empty when the field is omitted.
pub open spec fn spec_supported_formats_json(formats: Seq<u8>) -> Seq<char> {
    match spec_formats_encoding(formats) {
        FormatsEncoding::Omitted => Seq::empty(),
        FormatsEncoding::Range(mn, mx) => ",\n    \"supported_formats\": {\n      \"min_inclusive\": "@
            + spec_dec_str(mn as nat) + ",\n      \"max_inclusive\": "@ + spec_dec_str(mx as nat)
            + "\n    }"@,
        FormatsEncoding::List(fs) => ",\n    \"supported_formats\": [\n      "@ + spec_dec_list(fs)
            + "\n    ]"@,
    }
}

/// The manifest text written for a new pack: the description escaped, the
/// pack format the largest chosen number, the supported formats as their
/// encoding asks.
pub open spec fn spec_manifest_text(description: Seq<char>, formats: Seq<u8>) -> Seq<char> {
    "{\n  \"pack\": {\n    \"description\": \""@ + spec_json_escaped(description)
        + "\",\n    \"pack_format\": "@ + spec_dec_str(spec_seq_max(formats) as nat)
        + spec_supported_formats_json(formats) + "\n  }\n}"@
}

fn dec_list(formats: &Vec<u8>) -> (r: String)
    ensures
        r@ == spec_dec_list(formats@),
{
    let mut out = String::new();
    let mut i: usize = 0;
    assert(formats@.take(0) =~= Seq::<u8>::empty());
    while i < formats.len()
        invariant
            i <= formats@.len(),
            out@ == spec_dec_list(formats@.take(i as int)),
        decreases formats@.len() - i,
    {
        if i > 0 {
            out.append(",\n      ");
        }
        let d = u8_to_string(formats[i]);
        out.append(d.as_str());
        i = i + 1;
        proof {
            assert(formats@.take(i as int).drop_last() =~= formats@.take(i - 1));
            assert(formats@.take(i as int).last() == formats@[i - 1]);
            if i == 1 {
                assert(formats@.take(1) =~= seq![formats@[0]]);
            }
        }
    }
    assert(formats@.take(formats@.len() as int) =~= formats@);
    out
}

/// Render the manifest for the chosen description and formats.
pub fn render_manifest(description: &str, formats: &Vec<u8>) -> (r: String)
    requires
        formats@.len() > 0,
    ensures
        r@ == spec_manifest_text(description@, formats@),
{
    let mut out = String::from_str("{\n  \"pack\": {\n    \"description\": \"");
    let esc = json_escape(description);
    out.append(esc.as_str());
    out.append("\",\n    \"pack_format\": ");
    let latest = seq_max(formats);
    let latest_s = u8_to_string(latest);
    out.append(latest_s.as_str());
    if formats.len() > 1 {
        let mn = seq_min(formats);
        let mx = seq_max(formats);
        let range = get_formats_in_range(mn, mx);
        if same_set(formats, &range) && range.len() >= 3 {
            out.append(",\n    \"supported_formats\": {\n      \"min_inclusive\": ");
            let s = u8_to_string(mn);
            out.append(s.as_str());
            out.append(",\n      \"max_inclusive\": ");
            let s = u8_to_string(mx);
            out.append(s.as_str());
            out.append("\n    }");
        } else {
            out.append(",\n    \"supported_formats\": [\n      ");
            let s = dec_list(formats);
            out.append(s.as_str());
            out.append("\n    ]");
        }
    }
    out.append("\n  }\n}");
    out
}

/// ASCII lowering of one character; other characters stand as they are.
pub open spec fn spec_ascii_lower() -> spec_fn(char) -> char {
    |c: char|
        if 65 <= c as u32 && c as u32 <= 90 {
            ((c as u32 + 32) as u8) as char
        } else {
            c
        }
}

/// A usable icon path: its file name carries an extension that reads `png`
/// regardless of letter case.
pub open spec fn spec_icon_ok(path: Seq<char>) -> bool {
    match crate::scanner::spec_extension(spec_split(path, '/').last()) {
        Some(e) => e.map_values(spec_ascii_lower()) == "png"@,
        None => false,
    }
}

/// Whether a path names a PNG file by its extension, letter case aside.
pub fn icon_path_ok(path: &str) -> (r: bool)
    ensures
        r == spec_icon_ok(path@),
{
    let cs = to_chars(path);
    let segs = split_char(&cs, '/');
    proof {
        crate::strings::lemma_split_len(cs@, '/');
    }
    let name = &segs[segs.len() - 1];
    proof {
        assert(segs.deep_view()[segs@.len() - 1] =~= segs@[segs@.len() - 1]@);
        assert(name@ == spec_split(path@, '/').last());
    }
    let dots = split_char(name, '.');
    proof {
        crate::strings::lemma_split_len(name@, '.');
        if dots.len() == 2 {
            assert(dots.deep_view()[0] =~= dots@[0]@);
        }
    }
    let has_ext = dots.len() >= 3 || (dots.len() == 2 && dots[0].len() > 0);
    if !has_ext {
        return false;
    }
    let ext = &dots[dots.len() - 1];
    proof {
        assert(dots.deep_view()[dots@.len() - 1] =~= dots@[dots@.len() - 1]@);
        assert(ext@ == spec_split(name@, '.').last());
        assert(crate::scanner::spec_extension(name@) == Some(ext@));
    }
    let mut low: Vec<char> = Vec::new();
    let mut i: usize = 0;
    assert(low@ =~= ext@.take(0).map_values(spec_ascii_lower()));
    while i < ext.len()
        invariant
            i <= ext@.len(),
            low@ == ext@.take(i as int).map_values(spec_ascii_lower()),
        decreases ext@.len() - i,
    {
        let c = ext[i];
        let u = c as u32;
        if 65 <= u && u <= 90 {
            low.push(((u + 32) as u8) as char);
        } else {
            low.push(c);
        }
        i = i + 1;
        assert(low@ =~= ext@.take(i as int).map_values(spec_ascii_lower()));
    }
    assert(ext@.take(ext@.len() as int) =~= ext@);
    chars_eq_str(&low, "png")
}

pub open spec fn spec_folder_dir(ns: Seq<char>) -> spec_fn(String) -> Seq<char> {
    |f: String| "data/"@ + ns + "/"@ + f@
}

/// The directories a create request asks for, in creation order.
pub open spec fn spec_plan_dirs(s: PackSettings) -> Seq<Seq<char>> {
    seq!["data"@] + (if s.include_minecraft_namespace {
        seq!["data/minecraft/tags/function"@]
    } else {
        Seq::empty()
    }) + (match s.custom_namespace {
        Some(ns) => seq!["data/"@ + ns@] + s.custom_namespace_folders@.map_values(
            spec_folder_dir(ns@),
        ),
        None => Seq::empty(),
    })
}

/// A chosen tag's base name: its `.mcfunction` suffix dropped when present.
pub open spec fn spec_tag_name(tag: Seq<char>) -> Seq<char> {
    if spec_ends_with(tag, ".mcfunction"@) {
        tag.take(tag.len() - ".mcfunction"@.len())
    } else {
        tag
    }
}

/// The tag file one chosen tag produces: an empty values list.
pub open spec fn spec_tag_file(tag: Seq<char>) -> (Seq<char>, Seq<char>) {
    (
        "data/minecraft/tags/function/"@ + spec_tag_name(tag) + ".json"@,
        "{\n  \"values\": []\n}"@,
    )
}

pub open spec fn spec_tag_files(tags: Seq<String>) -> Seq<(Seq<char>, Seq<char>)>
    decreases tags.len(),
{
    if tags.len() == 0 {
        Seq::empty()
    } else {
        spec_tag_files(tags.drop_last()) + seq![spec_tag_file(tags.last()@)]
    }
}

/// The starter file one selected folder produces, if its category defines
/// one.
pub open spec fn spec_starter_file(ns: Seq<char>, folder: Seq<char>) -> Seq<
    (Seq<char>, Seq<char>),
> {
    let base = "data/"@ + ns + "/"@ + folder;
    if folder == "function"@ {
        seq![(base + "/main.mcfunction"@, spec_sample_content("function"@))]
    } else if folder == "advancement"@ {
        seq![(base + "/advancement.json"@, spec_sample_content("advancement"@))]
    } else if folder == "recipe"@ {
        seq![(base + "/recipe.json"@, spec_sample_content("recipe"@))]
    } else if folder == "loot_table"@ {
        seq![(base + "/loot_table.json"@, spec_sample_content("loot_table"@))]
    } else if folder == "predicate"@ {
        seq![(base + "/predicate.json"@, spec_sample_content("predicate"@))]
    } else {
        Seq::empty()
    }
}

pub open spec fn spec_starter_files(ns: Seq<char>, folders: Seq<String>) -> Seq<
    (Seq<char>, Seq<char>),
>
    decreases folders.len(),
{
    if folders.len() == 0 {
        Seq::empty()
    } else {
        spec_starter_files(ns, folders.drop_last()) + spec_starter_file(ns, folders.last()@)
    }
}

/// The files a create request asks for, in writing order.
pub open spec fn spec_plan_files(s: PackSettings) -> Seq<(Seq<char>, Seq<char>)> {
    (if s.include_minecraft_namespace {
        spec_tag_files(s.minecraft_tags@)
    } else {
        Seq::empty()
    }) + (match s.custom_namespace {
        Some(ns) => spec_starter_files(ns@, s.custom_namespace_folders@),
        None => Seq::empty(),
    })
}

fn tag_file_path(tag: &str) -> (r: String)
    ensures
        r@ == "data/minecraft/tags/function/"@ + spec_tag_name(tag@) + ".json"@,
{
    let mut cs = to_chars(tag);
    if ends_with_lit(&cs, ".mcfunction") {
        let n = ".mcfunction".unicode_len();
        let ghost before = cs@;
        cs.truncate(cs.len() - n);
        assert(cs@ =~= before.take(before.len() - ".mcfunction"@.len()));
    }
    assert(cs@ == spec_tag_name(tag@));
    let mut p = String::from_str("data/minecraft/tags/function/");
    let name = chars_to_string(&cs);
    p.append(name.as_str());
    p.append(".json");
    p
}

/// Lay out everything a create request puts on disk. Nothing is written
/// here: an icon that does not exist or is no PNG is refused before any
/// part of the plan is made.
pub fn plan_pack(settings: &PackSettings, icon_exists: bool) -> (r: Result<PackPlan, CreateError>)
    requires
        settings.pack_formats@.len() > 0,
    ensures
        match r {
            Ok(p) => {
                &&& (match settings.icon_path {
                    Some(ip) => icon_exists && spec_icon_ok(ip@),
                    None => true,
                })
                &&& p.icon_from == settings.icon_path
                &&& p.manifest@ == spec_manifest_text(
                    settings.description@,
                    settings.pack_formats@,
                )
                &&& p.dirs.deep_view() == spec_plan_dirs(*settings)
                &&& p.files.deep_view() == spec_plan_files(*settings)
            },
            Err(e) => match e {
                CreateError::IconMissing(pth) => !icon_exists && (match settings.icon_path {
                    Some(ip) => pth@ == ip@,
                    None => false,
                }),
                CreateError::IconNotPng => icon_exists && (match settings.icon_path {
                    Some(ip) => !spec_icon_ok(ip@),
                    None => false,
                }),
                _ => false,
            },
        },
{
    let icon_from: Option<String> = match &settings.icon_path {
        Some(ip) => {
            if !icon_exists {
                return Err(CreateError::IconMissing(ip.clone()));
            }
            if !icon_path_ok(ip.as_str()) {
                return Err(CreateError::IconNotPng);
            }
            Some(ip.clone())
        },
        None => None,
    };
    let manifest = render_manifest(settings.description.as_str(), &settings.pack_formats);
    let mut dirs: Vec<String> = Vec::new();
    dirs.push(String::from_str("data"));
    if settings.include_minecraft_namespace {
        dirs.push(String::from_str("data/minecraft/tags/function"));
    }
    let mut files: Vec<(String, String)> = Vec::new();
    if settings.include_minecraft_namespace {
        let tags = &settings.minecraft_tags;
        let mut i: usize = 0;
        assert(tags@.take(0) =~= Seq::<String>::empty());
        assert(files.deep_view() =~~= spec_tag_files(tags@.take(0)));
        while i < tags.len()
            invariant
                i <= tags@.len(),
                files.deep_view() == spec_tag_files(tags@.take(i as int)),
            decreases tags@.len() - i,
        {
            let path = tag_file_path(tags[i].as_str());
            files.push((path, String::from_str("{\n  \"values\": []\n}")));
            i = i + 1;
            proof {
                assert(tags@.take(i as int).drop_last() =~= tags@.take(i - 1));
                assert(tags@.take(i as int).last() == tags@[i - 1]);
                assert(files.deep_view() =~~= spec_tag_files(tags@.take(i as int)));
            }
        }
        assert(tags@.take(tags@.len() as int) =~= tags@);
    }
    let ghost tag_part = files.deep_view();
    let ghost dir_prefix = dirs.deep_view();
    match &settings.custom_namespace {
        Some(ns) => {
            let mut nsdir = String::from_str("data/");
            nsdir.append(ns.as_str());
            dirs.push(nsdir);
            let ghost dir_prefix2 = dirs.deep_view();
            let folders = &settings.custom_namespace_folders;
            let mut i: usize = 0;
            proof {
                assert(folders@.take(0) =~= Seq::<String>::empty());
                assert(folders@.take(0).map_values(spec_folder_dir(ns@)) =~= Seq::<
                    Seq<char>,
                >::empty());
                assert(dirs.deep_view() =~~= dir_prefix2 + folders@.take(0).map_values(
                    spec_folder_dir(ns@),
                ));
                assert(files.deep_view() =~~= tag_part + spec_starter_files(
                    ns@,
                    folders@.take(0),
                ));
            }
            while i < folders.len()
                invariant
                    i <= folders@.len(),
                    dirs.deep_view() == dir_prefix2 + folders@.take(i as int).map_values(
                        spec_folder_dir(ns@),
                    ),
                    files.deep_view() == tag_part + spec_starter_files(
                        ns@,
                        folders@.take(i as int),
                    ),
                    settings.custom_namespace matches Some(n) && n@ == ns@,
                decreases folders@.len() - i,
            {
                let ghost od = dirs.deep_view();
                let ghost ofl = files.deep_view();
                let folder = &folders[i];
                let mut base = String::from_str("data/");
                base.append(ns.as_str());
                base.append("/");
                base.append(folder.as_str());
                assert(base@ == "data/"@ + ns@ + "/"@ + folder@);
                dirs.push(base.clone());
                proof {
                    assert(dirs.deep_view() =~~= od.push(base@));
                }
                let mut fp = base;
                if crate::strings::str_eq(folder.as_str(), "function") {
                    fp.append("/main.mcfunction");
                    files.push((fp, get_sample_content("function")));
                } else if crate::strings::str_eq(folder.as_str(), "advancement") {
                    fp.append("/advancement.json");
                    files.push((fp, get_sample_content("advancement")));
                } else if crate::strings::str_eq(folder.as_str(), "recipe") {
                    fp.append("/recipe.json");
                    files.push((fp, get_sample_content("recipe")));
                } else if crate::strings::str_eq(folder.as_str(), "loot_table") {
                    fp.append("/loot_table.json");
                    files.push((fp, get_sample_content("loot_table")));
                } else if crate::strings::str_eq(folder.as_str(), "predicate") {
                    fp.append("/predicate.json");
                    files.push((fp, get_sample_content("predicate")));
                }
                i = i + 1;
                proof {
                    assert(folders@.take(i as int).drop_last() =~= folders@.take(i - 1));
                    assert(folders@.take(i as int).last() == folders@[i - 1]);
                    assert(spec_folder_dir(ns@)(folders@[i - 1]) == "data/"@ + ns@ + "/"@
                        + folders@[i - 1]@);
                    assert(dirs.deep_view() =~~= dir_prefix2 + folders@.take(i as int).map_values(
                        spec_folder_dir(ns@),
                    ));
                    assert(files.deep_view() =~~= ofl + spec_starter_file(ns@, folders@[i - 1]@));
                    assert(files.deep_view() =~~= tag_part + spec_starter_files(
                        ns@,
                        folders@.take(i as int),
                    ));
                }
            }
            proof {
                assert(folders@.take(folders@.len() as int) =~= folders@);
                assert(dirs.deep_view() =~~= spec_plan_dirs(*settings));
                assert(files.deep_view() =~~= spec_plan_files(*settings));
            }
        },
        None => {
            proof {
                assert(dirs.deep_view() =~~= spec_plan_dirs(*settings));
                assert(files.deep_view() =~~= spec_plan_files(*settings));
            }
        },
    }
    Ok(PackPlan { icon_from, manifest, dirs, files })
}

/// Refuse the first pack format the table does not know.
pub fn validate_formats(formats: &Vec<u8>) -> (r: Result<(), CreateError>)
    ensures
        match r {
            Ok(_) => forall|i: int|
                0 <= i < formats@.len() ==> spec_is_valid_format(#[trigger] formats@[i]),
            Err(e) => match e {
                CreateError::InvalidFormat(f) => exists|i: int|
                    0 <= i < formats@.len() && formats@[i] == f && !spec_is_valid_format(f)
                        && forall|j: int|
                        0 <= j < i ==> spec_is_valid_format(#[trigger] formats@[j]),
                _ => false,
            },
        },
{
    let mut i: usize = 0;
    while i < formats.len()
        invariant
            i <= formats@.len(),
            forall|j: int| 0 <= j < i ==> spec_is_valid_format(#[trigger] formats@[j]),
        decreases formats@.len() - i,
    {
        if !is_valid_format(formats[i]) {
            return Err(CreateError::InvalidFormat(formats[i]));
        }
        i = i + 1;
    }
    Ok(())
}

/// Refuse the first starter folder name outside the element catalog.
pub fn validate_folder_names(folders: &Vec<String>) -> (r: Result<(), CreateError>)
    ensures
        match r {
            Ok(_) => forall|i: int|
                0 <= i < folders@.len() ==> spec_element_names().contains(
                    (#[trigger] folders@[i])@,
                ),
            Err(e) => match e {
                CreateError::InvalidFolder(f) => exists|i: int|
                    0 <= i < folders@.len() && folders@[i]@ == f@ && !spec_element_names().contains(
                        f@,
                    ) && forall|j: int|
                        0 <= j < i ==> spec_element_names().contains((#[trigger] folders@[j])@),
                _ => false,
            },
        },
{
    let mut i: usize = 0;
    while i < folders.len()
        invariant
            i <= folders@.len(),
            forall|j: int| 0 <= j < i ==> spec_element_names().contains((#[trigger] folders@[j])@),
        decreases folders@.len() - i,
    {
        if !is_valid_element_type(folders[i].as_str()) {
            return Err(CreateError::InvalidFolder(folders[i].clone()));
        }
        i = i + 1;
    }
    Ok(())
}

} // verus!
