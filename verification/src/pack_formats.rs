//! The table of supported pack formats, lookups into it, and the
//! rendering of version lists as compact textual ranges.

use vstd::prelude::*;

verus! {

use vstd::string::StrSliceExecFns;
use vstd::string::StringExecFns;
use crate::strings::parse_u32_or_zero;
use crate::strings::spec_parse_u32_or_zero;
use crate::strings::spec_split;
use crate::strings::split_char;
use crate::strings::str_eq;
use crate::strings::to_chars;
use crate::strings::chars_to_string;
use crate::strings::spec_dec_str;
use crate::strings::u8_to_string;

/// The format numbers the tool knows, in ascending order.
pub open spec fn spec_pack_formats() -> Seq<u8> {
    seq![48u8, 57u8, 61u8]
}

/// The version strings a format number stands for, in release order;
/// empty for a number outside the table.
pub open spec fn spec_versions_of(format: u8) -> Seq<Seq<char>> {
    if format == 48 {
        seq!["1.21"@, "1.21.1"@]
    } else if format == 57 {
        seq!["1.21.2"@, "1.21.3"@]
    } else if format == 61 {
        seq!["1.21.4"@]
    } else {
        Seq::empty()
    }
}

pub open spec fn spec_is_valid_format(format: u8) -> bool {
    format == 48 || format == 57 || format == 61
}

/// Every format number in the table carries at least one version string,
/// and a number outside the table carries none.
pub proof fn lemma_format_table_versions(f: u8)
    ensures
        spec_is_valid_format(f) <==> spec_versions_of(f).len() > 0,
        spec_is_valid_format(f) <==> spec_pack_formats().contains(f),
{
    if spec_is_valid_format(f) {
        if f == 48 {
            assert(spec_pack_formats()[0] == 48u8);
        } else if f == 57 {
            assert(spec_pack_formats()[1] == 57u8);
        } else {
            assert(spec_pack_formats()[2] == 61u8);
        }
    }
}

/// The version strings for a pack format, or nothing for an unknown number.
pub fn get_version_info(format: u8) -> (r: Option<Vec<String>>)
    ensures
        r is Some <==> spec_is_valid_format(format),
        r matches Some(v) ==> v.deep_view() == spec_versions_of(format),
{
    if format == 48 {
        let v: Vec<String> = vec![String::from_str("1.21"), String::from_str("1.21.1")];
        assert(v.deep_view() =~~= spec_versions_of(format));
        Some(v)
    } else if format == 57 {
        let v: Vec<String> = vec![String::from_str("1.21.2"), String::from_str("1.21.3")];
        assert(v.deep_view() =~~= spec_versions_of(format));
        Some(v)
    } else if format == 61 {
        let v: Vec<String> = vec![String::from_str("1.21.4")];
        assert(v.deep_view() =~~= spec_versions_of(format));
        Some(v)
    } else {
        None
    }
}

/// Whether a pack format number is one the table knows.
pub fn is_valid_format(format: u8) -> (r: bool)
    ensures
        r == spec_is_valid_format(format),
{
    format == 48 || format == 57 || format == 61
}

/// The table's format numbers joined with a comma and a space.
pub fn get_formats_string() -> (r: String)
    ensures
        r@ == "48, 57, 61"@,
{
    let mut s = u8_to_string(48);
    s.append(", ");
    let s57 = u8_to_string(57);
    s.append(s57.as_str());
    s.append(", ");
    let s61 = u8_to_string(61);
    s.append(s61.as_str());
    proof {
        reveal_strlit("48, 57, 61");
        reveal_strlit(", ");
        assert(spec_dec_str(4) =~= seq!['4']);
        assert(spec_dec_str(48) =~= seq!['4', '8']);
        assert(spec_dec_str(5) =~= seq!['5']);
        assert(spec_dec_str(57) =~= seq!['5', '7']);
        assert(spec_dec_str(6) =~= seq!['6']);
        assert(spec_dec_str(61) =~= seq!['6', '1']);
        assert(s@ =~= "48, 57, 61"@);
    }
    s
}

/// Pad a component list on the right with zeros up to three entries.
pub open spec fn spec_pad3(parts: Seq<u32>) -> Seq<u32> {
    if parts.len() >= 3 {
        parts
    } else if parts.len() == 2 {
        parts.push(0)
    } else if parts.len() == 1 {
        parts + seq![0u32, 0u32]
    } else {
        seq![0u32, 0u32, 0u32]
    }
}

/// Reading one piece of a version as a number.
pub open spec fn spec_piece_value() -> spec_fn(Seq<char>) -> u32 {
    |p: Seq<char>| spec_parse_u32_or_zero(p)
}

/// The numeric components of a version string: pieces cut at `.`, each read
/// as a decimal number (0 when unreadable), padded to at least three.
pub open spec fn spec_parse_version(s: Seq<char>) -> Seq<u32> {
    spec_pad3(spec_split(s, '.').map_values(spec_piece_value()))
}

/// Split a version string into numeric components, right-padded with zeros
/// to at least three entries so that versions compare componentwise.
pub fn parse_version(version: &str) -> (r: Vec<u32>)
    ensures
        r@ == spec_parse_version(version@),
{
    let cs = to_chars(version);
    let parts = split_char(&cs, '.');
    let mut r: Vec<u32> = Vec::new();
    let mut i: usize = 0;
    assert(r@ =~= parts.deep_view().take(0).map_values(spec_piece_value()));
    while i < parts.len()
        invariant
            i <= parts@.len(),
            parts@.len() == parts.deep_view().len(),
            r@ == parts.deep_view().take(i as int).map_values(spec_piece_value()),
        decreases parts@.len() - i,
    {
        proof {
            assert(parts.deep_view()[i as int] =~= parts@[i as int]@);
        }
        let x = parse_u32_or_zero(&parts[i]);
        r.push(x);
        i = i + 1;
        assert(r@ =~= parts.deep_view().take(i as int).map_values(spec_piece_value()));
    }
    assert(parts.deep_view().take(parts@.len() as int) =~= parts.deep_view());
    while r.len() < 3
        invariant
            spec_pad3(parts.deep_view().map_values(spec_piece_value())) == spec_pad3(r@),
        decreases 3 - r.len(),
    {
        r.push(0);
        assert(spec_pad3(r@.drop_last()) =~= spec_pad3(r@));
    }
    assert(spec_pad3(r@) =~= r@);
    r
}

/// The range predicate used by `spec_formats_in_range`.
pub open spec fn spec_in_range_pred(min: u8, max: u8) -> spec_fn(u8) -> bool {
    |f: u8| min <= f && f <= max
}

/// The table entries that fall inside `[min, max]`, in table (ascending) order.
pub open spec fn spec_formats_in_range(min: u8, max: u8) -> Seq<u8> {
    spec_pack_formats().filter(spec_in_range_pred(min, max))
}

/// All valid pack formats between `min` and `max` inclusive, ascending.
pub fn get_formats_in_range(min: u8, max: u8) -> (r: Vec<u8>)
    ensures
        r@ == spec_formats_in_range(min, max),
{
    let mut r: Vec<u8> = Vec::new();
    if min <= 48 && 48 <= max {
        r.push(48);
    }
    if min <= 57 && 57 <= max {
        r.push(57);
    }
    if min <= 61 && 61 <= max {
        r.push(61);
    }
    proof {
        reveal_with_fuel(Seq::<_>::filter, 5);
        assert(spec_pack_formats().drop_last() =~= seq![48u8, 57u8]);
        assert(seq![48u8, 57u8].drop_last() =~= seq![48u8]);
        assert(seq![48u8].drop_last() =~= Seq::<u8>::empty());
        assert(r@ =~= spec_formats_in_range(min, max));
    }
    r
}

/// A number is in the selected range exactly when it is a table entry
/// between the bounds, and the selection is strictly ascending.
pub proof fn lemma_formats_in_range_exact(min: u8, max: u8, f: u8)
    ensures
        spec_formats_in_range(min, max).contains(f) <==> (spec_pack_formats().contains(f) && min
            <= f && f <= max),
        forall|i: int, j: int|
            0 <= i < j < spec_formats_in_range(min, max).len() ==> spec_formats_in_range(
                min,
                max,
            )[i] < spec_formats_in_range(min, max)[j],
{
    reveal_with_fuel(Seq::<_>::filter, 5);
    assert(spec_pack_formats().drop_last() =~= seq![48u8, 57u8]);
    assert(seq![48u8, 57u8].drop_last() =~= seq![48u8]);
    assert(seq![48u8].drop_last() =~= Seq::<u8>::empty());
    if spec_pack_formats().contains(f) {
        assert(f == 48 || f == 57 || f == 61) by {
            let i = choose|i: int| 0 <= i < spec_pack_formats().len() && spec_pack_formats()[i] == f;
        }
    }
    if spec_formats_in_range(min, max).contains(f) {
        let i = choose|i: int|
            0 <= i < spec_formats_in_range(min, max).len() && spec_formats_in_range(min, max)[i]
                == f;
    }
    if spec_pack_formats().contains(f) && min <= f && f <= max {
        let r = spec_formats_in_range(min, max);
        assert(r.contains(f)) by {
            if f == 48 {
                assert(r[0] == f);
            } else if f == 57 {
                if min <= 48 && 48 <= max {
                    assert(r[1] == f);
                } else {
                    assert(r[0] == f);
                }
            } else {
                assert(r[r.len() - 1] == f);
            }
        }
    }
}

/// The version strings supported by any of the given formats: those of every
/// valid format present, in table order, which is ascending and without
/// duplicates.
pub open spec fn spec_format_versions(formats: Seq<u8>) -> Seq<Seq<char>> {
    (if formats.contains(48u8) {
        spec_versions_of(48)
    } else {
        Seq::empty()
    }) + (if formats.contains(57u8) {
        spec_versions_of(57)
    } else {
        Seq::empty()
    }) + (if formats.contains(61u8) {
        spec_versions_of(61)
    } else {
        Seq::empty()
    })
}

fn slice_contains_u8(s: &[u8], x: u8) -> (r: bool)
    ensures
        r == s@.contains(x),
{
    let mut i: usize = 0;
    while i < s.len()
        invariant
            i <= s@.len(),
            forall|j: int| 0 <= j < i ==> s@[j] != x,
        decreases s@.len() - i,
    {
        if s[i] == x {
            return true;
        }
        i = i + 1;
    }
    false
}

/// All versions supported by a sequence of pack formats, ascending, deduplicated.
pub fn get_format_versions(formats: &[u8]) -> (r: Vec<String>)
    ensures
        r.deep_view() == spec_format_versions(formats@),
{
    let mut r: Vec<String> = Vec::new();
    if slice_contains_u8(formats, 48) {
        r.push(String::from_str("1.21"));
        r.push(String::from_str("1.21.1"));
    }
    if slice_contains_u8(formats, 57) {
        r.push(String::from_str("1.21.2"));
        r.push(String::from_str("1.21.3"));
    }
    if slice_contains_u8(formats, 61) {
        r.push(String::from_str("1.21.4"));
    }
    assert(r.deep_view() =~~= spec_format_versions(formats@));
    r
}

pub open spec fn spec_valid_format_pred() -> spec_fn(u8) -> bool {
    |f: u8| spec_is_valid_format(f)
}

/// The members of a format list that the table knows, in their given order.
pub fn valid_formats_of(formats: &Vec<u8>) -> (r: Vec<u8>)
    ensures
        r@ == formats@.filter(spec_valid_format_pred()),
{
    let mut r: Vec<u8> = Vec::new();
    let mut i: usize = 0;
    proof {
        reveal_with_fuel(Seq::<_>::filter, 1);
        assert(formats@.take(0) =~= Seq::<u8>::empty());
        assert(r@ =~= formats@.take(0).filter(spec_valid_format_pred()));
    }
    while i < formats.len()
        invariant
            i <= formats@.len(),
            r@ == formats@.take(i as int).filter(spec_valid_format_pred()),
        decreases formats@.len() - i,
    {
        if is_valid_format(formats[i]) {
            r.push(formats[i]);
        }
        i = i + 1;
        proof {
            reveal_with_fuel(Seq::<_>::filter, 1);
            assert(formats@.take(i as int).drop_last() =~= formats@.take(i - 1));
            assert(formats@.take(i as int).last() == formats@[i - 1]);
            assert(r@ =~= formats@.take(i as int).filter(spec_valid_format_pred()));
        }
    }
    assert(formats@.take(formats@.len() as int) =~= formats@);
    r
}

/// Whether the components at positions below `n` make `pb` the immediate
/// successor of `pa`: at the rightmost position where they differ, `pb` is
/// exactly one more than `pa`.
pub open spec fn spec_consec_at(pa: Seq<u32>, pb: Seq<u32>, n: int) -> bool
    decreases n,
{
    if n <= 0 {
        false
    } else if pa[n - 1] != pb[n - 1] {
        pa[n - 1] < u32::MAX && pb[n - 1] == pa[n - 1] + 1
    } else {
        spec_consec_at(pa, pb, n - 1)
    }
}

/// Two versions are consecutive when, comparing their components, the
/// rightmost differing component of the second is larger by exactly one.
pub open spec fn spec_consecutive(a: Seq<char>, b: Seq<char>) -> bool {
    let pa = spec_parse_version(a);
    let pb = spec_parse_version(b);
    spec_consec_at(
        pa,
        pb,
        if pa.len() <= pb.len() {
            pa.len() as int
        } else {
            pb.len() as int
        },
    )
}

fn consecutive_parts(pa: &Vec<u32>, pb: &Vec<u32>) -> (r: bool)
    ensures
        r == spec_consec_at(
            pa@,
            pb@,
            if pa@.len() <= pb@.len() {
                pa@.len() as int
            } else {
                pb@.len() as int
            },
        ),
{
    let n = if pa.len() <= pb.len() {
        pa.len()
    } else {
        pb.len()
    };
    let mut k = n;
    while k > 0
        invariant
            k <= n,
            n <= pa@.len(),
            n <= pb@.len(),
            n == (if pa@.len() <= pb@.len() {
                pa@.len() as int
            } else {
                pb@.len() as int
            }),
            spec_consec_at(pa@, pb@, n as int) == spec_consec_at(pa@, pb@, k as int),
        decreases k,
    {
        let x = pa[k - 1];
        let y = pb[k - 1];
        if x != y {
            return x < u32::MAX && y == x + 1;
        }
        k = k - 1;
    }
    false
}

/// Strip every trailing `.0` component from a rendered version.
pub open spec fn spec_trim_zeros(s: Seq<char>) -> Seq<char>
    decreases s.len(),
{
    if s.len() >= 2 && s[s.len() - 2] == '.' && s[s.len() - 1] == '0' {
        spec_trim_zeros(s.take(s.len() - 2))
    } else {
        s
    }
}

fn trim_zeros(s: &str) -> (r: Vec<char>)
    ensures
        r@ == spec_trim_zeros(s@),
{
    let mut v = to_chars(s);
    loop
        invariant
            spec_trim_zeros(v@) == spec_trim_zeros(s@),
        decreases v@.len(),
    {
        let n = v.len();
        if n >= 2 && v[n - 2] == '.' && v[n - 1] == '0' {
            let ghost before = v@;
            v.pop();
            v.pop();
            assert(v@ =~= before.take(before.len() - 2));
        } else {
            assert(spec_trim_zeros(v@) == v@);
            return v;
        }
    }
}

/// The rendering of one group: the single trimmed version when the group
/// holds one entry, else the trimmed first and last joined with `-`.
pub open spec fn spec_render_group(start: Seq<char>, prev: Seq<char>) -> Seq<char> {
    if prev == start {
        spec_trim_zeros(start)
    } else {
        spec_trim_zeros(start) + "-"@ + spec_trim_zeros(prev)
    }
}

fn render_group(start: &str, prev: &str) -> (r: String)
    ensures
        r@ == spec_render_group(start@, prev@),
{
    let ts = trim_zeros(start);
    let mut s = chars_to_string(&ts);
    if str_eq(prev, start) {
        s
    } else {
        s.append("-");
        let tp = trim_zeros(prev);
        let sp = chars_to_string(&tp);
        s.append(sp.as_str());
        s
    }
}

/// The rendered groups of `vs` from position `i` on, given the first and the
/// latest member of the group currently open.
pub open spec fn spec_groups_from(
    vs: Seq<Seq<char>>,
    start: Seq<char>,
    prev: Seq<char>,
    i: int,
) -> Seq<Seq<char>>
    decreases vs.len() - i,
{
    if i >= vs.len() {
        seq![spec_render_group(start, prev)]
    } else if spec_consecutive(prev, vs[i]) {
        spec_groups_from(vs, start, vs[i], i + 1)
    } else {
        seq![spec_render_group(start, prev)] + spec_groups_from(vs, vs[i], vs[i], i + 1)
    }
}

/// Groups joined with a comma and a space.
pub open spec fn spec_join_comma(gs: Seq<Seq<char>>) -> Seq<char>
    decreases gs.len(),
{
    if gs.len() == 0 {
        Seq::empty()
    } else if gs.len() == 1 {
        gs[0]
    } else {
        spec_join_comma(gs.drop_last()) + ", "@ + gs.last()
    }
}

/// What `format_version_range` returns: consecutive runs collapsed to
/// `start-end` spans, single versions on their own, groups joined by `, `.
pub open spec fn spec_collapse(vs: Seq<Seq<char>>) -> Seq<char> {
    if vs.len() == 0 {
        Seq::empty()
    } else {
        spec_join_comma(spec_groups_from(vs, vs[0], vs[0], 1))
    }
}

fn join_comma(gs: &Vec<String>) -> (r: String)
    ensures
        r@ == spec_join_comma(gs.deep_view()),
{
    let mut acc = String::new();
    let mut i: usize = 0;
    assert(gs.deep_view().take(0) =~= Seq::<Seq<char>>::empty());
    while i < gs.len()
        invariant
            i <= gs@.len(),
            gs@.len() == gs.deep_view().len(),
            acc@ == spec_join_comma(gs.deep_view().take(i as int)),
        decreases gs@.len() - i,
    {
        if i > 0 {
            acc.append(", ");
        }
        let piece = &gs[i];
        acc.append(piece.as_str());
        i = i + 1;
        proof {
            let d = gs.deep_view();
            assert(d.take(i as int).drop_last() =~= d.take(i - 1));
            assert(d.take(i as int).last() == d[i - 1]);
            if i == 1 {
                assert(acc@ == spec_join_comma(d.take(1)));
            }
        }
    }
    assert(gs.deep_view().take(gs.deep_view().len() as int) =~= gs.deep_view());
    acc
}

/// Format a list of versions into a compact range string: consecutive
/// versions collapse into `start-end`, groups join with `, `, and trailing
/// `.0` components are stripped from what is rendered.
pub fn format_version_range(versions: &[&str]) -> (r: String)
    ensures
        r@ == spec_collapse(versions.deep_view()),
{
    let ghost vs = versions.deep_view();
    if versions.len() == 0 {
        return String::new();
    }
    let mut groups: Vec<String> = Vec::new();
    let mut range_start: usize = 0;
    let mut prev: usize = 0;
    let mut i: usize = 1;
    while i < versions.len()
        invariant
            1 <= i <= vs.len(),
            vs.len() == versions@.len(),
            vs.len() == versions.deep_view().len(),
            vs == versions.deep_view(),
            range_start <= prev,
            prev == i - 1,
            spec_groups_from(vs, vs[0], vs[0], 1) == groups.deep_view() + spec_groups_from(
                vs,
                vs[range_start as int],
                vs[prev as int],
                i as int,
            ),
        decreases vs.len() - i,
    {
        let pa = parse_version(versions[prev]);
        let pb = parse_version(versions[i]);
        let consec = consecutive_parts(&pa, &pb);
        assert(consec == spec_consecutive(vs[prev as int], vs[i as int]));
        if !consec {
            let ghost old_groups = groups.deep_view();
            let g = render_group(versions[range_start], versions[prev]);
            groups.push(g);
            proof {
                assert(groups.deep_view() =~~= old_groups.push(
                    spec_render_group(vs[range_start as int], vs[prev as int]),
                ));
                assert(groups.deep_view() + spec_groups_from(vs, vs[i as int], vs[i as int], i + 1)
                    =~~= old_groups + (seq![
                    spec_render_group(vs[range_start as int], vs[prev as int]),
                ] + spec_groups_from(vs, vs[i as int], vs[i as int], i + 1)));
            }
            range_start = i;
        }
        prev = i;
        i = i + 1;
    }
    let g = render_group(versions[range_start], versions[prev]);
    groups.push(g);
    proof {
        assert(groups.deep_view() =~~= spec_groups_from(vs, vs[0], vs[0], 1));
    }
    let r = join_comma(&groups);
    r
}

} // verus!
