//! Tallying a datapack's contents: for every namespace, how many elements
//! of each category its files hold, whether it is scanned as a directory
//! tree or as the entry list of an archive.

use vstd::prelude::*;

verus! {

use vstd::string::StrSliceExecFns;
use crate::strings::spec_starts_with;
use crate::strings::spec_ends_with;
use crate::strings::spec_contains;
use crate::strings::spec_split;
use crate::strings::split_char;
use crate::strings::starts_with_lit;
use crate::strings::ends_with_lit;
use crate::strings::contains_lit;
use crate::strings::to_chars;
use crate::strings::chars_eq_str;
use crate::strings::lemma_split_len;

/// The per-namespace counts of one scan.
#[derive(PartialEq, Eq, Structural, Clone, Copy, Debug)]
pub struct NamespaceInfo {
    pub functions: usize,
    pub advancements: usize,
    pub recipes: usize,
    pub loot_tables: usize,
    pub predicates: usize,
    pub tags: usize,
    pub world_gen: bool,
}

/// The mathematical shadow of `NamespaceInfo`, with unbounded counts.
pub struct Tally {
    pub functions: nat,
    pub advancements: nat,
    pub recipes: nat,
    pub loot_tables: nat,
    pub predicates: nat,
    pub tags: nat,
    pub world_gen: bool,
}

impl View for NamespaceInfo {
    type V = Tally;

    open spec fn view(&self) -> Tally {
        Tally {
            functions: self.functions as nat,
            advancements: self.advancements as nat,
            recipes: self.recipes as nat,
            loot_tables: self.loot_tables as nat,
            predicates: self.predicates as nat,
            tags: self.tags as nat,
            world_gen: self.world_gen,
        }
    }
}

pub open spec fn spec_empty_tally() -> Tally {
    Tally {
        functions: 0,
        advancements: 0,
        recipes: 0,
        loot_tables: 0,
        predicates: 0,
        tags: 0,
        world_gen: false,
    }
}

/// A namespace is worth reporting when any count is nonzero or it touches
/// world generation.
pub open spec fn spec_has_content(t: Tally) -> bool {
    t.functions > 0 || t.advancements > 0 || t.recipes > 0 || t.loot_tables > 0 || t.predicates
        > 0 || t.tags > 0 || t.world_gen
}

impl NamespaceInfo {
    pub fn new() -> (r: NamespaceInfo)
        ensures
            r@ == spec_empty_tally(),
    {
        NamespaceInfo {
            functions: 0,
            advancements: 0,
            recipes: 0,
            loot_tables: 0,
            predicates: 0,
            tags: 0,
            world_gen: false,
        }
    }

    /// Whether this namespace holds anything worth reporting.
    pub fn has_content(&self) -> (r: bool)
        ensures
            r == spec_has_content(self@),
    {
        self.functions > 0 || self.advancements > 0 || self.recipes > 0 || self.loot_tables > 0
            || self.predicates > 0 || self.tags > 0 || self.world_gen
    }
}

/// The file category a path counts toward.
pub enum FileKind {
    Mcfunction,
    Advancement,
    Recipe,
    LootTable,
    Predicate,
    TagJson,
}

/// The extension of a file name, as a path would give it: the run after the
/// last dot, unless the only dot starts the name.
pub open spec fn spec_extension(name: Seq<char>) -> Option<Seq<char>> {
    let parts = spec_split(name, '.');
    if parts.len() >= 3 || (parts.len() == 2 && parts[0].len() > 0) {
        Some(parts.last())
    } else {
        None
    }
}

/// How a file counts when its path is read relative to its namespace: the
/// world-generation flag comes from a leading `worldgen/`, functions from
/// the extension, and each JSON category from its leading directory.
pub open spec fn spec_dir_cat(rel: Seq<char>) -> (bool, Option<FileKind>) {
    let worldgen = spec_starts_with(rel, "worldgen/"@);
    let name = spec_split(rel, '/').last();
    let kind = match spec_extension(name) {
        Some(e) => if e == "mcfunction"@ {
            Some(FileKind::Mcfunction)
        } else if e == "json"@ {
            if spec_starts_with(rel, "advancement/"@) {
                Some(FileKind::Advancement)
            } else if spec_starts_with(rel, "recipe/"@) {
                Some(FileKind::Recipe)
            } else if spec_starts_with(rel, "loot_table/"@) {
                Some(FileKind::LootTable)
            } else if spec_starts_with(rel, "predicate/"@) {
                Some(FileKind::Predicate)
            } else if spec_starts_with(rel, "tags/"@) {
                Some(FileKind::TagJson)
            } else {
                None
            }
        } else {
            None
        },
        None => None,
    };
    (worldgen, kind)
}

/// How an archive entry counts when its full path is read: the flag and the
/// categories come from substrings of the whole path, and the extension
/// from the end of its last segment.
pub open spec fn spec_zip_cat(full: Seq<char>) -> (bool, Option<FileKind>) {
    let worldgen = spec_contains(full, "/worldgen/"@);
    let name = spec_split(full, '/').last();
    let kind = if spec_ends_with(name, ".mcfunction"@) {
        Some(FileKind::Mcfunction)
    } else if spec_ends_with(name, ".json"@) {
        if spec_contains(full, "/advancement/"@) {
            Some(FileKind::Advancement)
        } else if spec_contains(full, "/recipe/"@) {
            Some(FileKind::Recipe)
        } else if spec_contains(full, "/loot_table/"@) {
            Some(FileKind::LootTable)
        } else if spec_contains(full, "/predicate/"@) {
            Some(FileKind::Predicate)
        } else if spec_contains(full, "/tags/"@) {
            Some(FileKind::TagJson)
        } else {
            None
        }
    } else {
        None
    };
    (worldgen, kind)
}

/// Count one classified file into a tally.
pub open spec fn spec_apply_cat(t: Tally, c: (bool, Option<FileKind>)) -> Tally {
    let t1 = Tally { world_gen: t.world_gen || c.0, ..t };
    match c.1 {
        Some(FileKind::Mcfunction) => Tally { functions: t1.functions + 1, ..t1 },
        Some(FileKind::Advancement) => Tally { advancements: t1.advancements + 1, ..t1 },
        Some(FileKind::Recipe) => Tally { recipes: t1.recipes + 1, ..t1 },
        Some(FileKind::LootTable) => Tally { loot_tables: t1.loot_tables + 1, ..t1 },
        Some(FileKind::Predicate) => Tally { predicates: t1.predicates + 1, ..t1 },
        Some(FileKind::TagJson) => Tally { tags: t1.tags + 1, ..t1 },
        None => t1,
    }
}

/// One directory-scan step.
pub open spec fn spec_tally_step(t: Tally, rel: Seq<char>) -> Tally {
    spec_apply_cat(t, spec_dir_cat(rel))
}

/// The tally of a namespace's files, each given relative to the namespace.
pub open spec fn spec_tally(rels: Seq<Seq<char>>) -> Tally
    decreases rels.len(),
{
    if rels.len() == 0 {
        spec_empty_tally()
    } else {
        spec_tally_step(spec_tally(rels.drop_last()), rels.last())
    }
}

proof fn lemma_tally_bound(rels: Seq<Seq<char>>)
    ensures
        spec_tally(rels).functions <= rels.len(),
        spec_tally(rels).advancements <= rels.len(),
        spec_tally(rels).recipes <= rels.len(),
        spec_tally(rels).loot_tables <= rels.len(),
        spec_tally(rels).predicates <= rels.len(),
        spec_tally(rels).tags <= rels.len(),
    decreases rels.len(),
{
    if rels.len() > 0 {
        lemma_tally_bound(rels.drop_last());
    }
}

/// Classify one relative path the way the directory scanner does.
fn dir_cat_of(rel: &str) -> (r: (bool, Option<FileKind>))
    ensures
        r == spec_dir_cat(rel@),
{
    let cs = to_chars(rel);
    let worldgen = starts_with_lit(&cs, "worldgen/");
    let segs = split_char(&cs, '/');
    proof {
        lemma_split_len(cs@, '/');
    }
    let name = &segs[segs.len() - 1];
    proof {
        assert(segs.deep_view()[segs@.len() - 1] =~= segs@[segs@.len() - 1]@);
        assert(name@ == spec_split(rel@, '/').last());
    }
    let dots = split_char(name, '.');
    proof {
        lemma_split_len(name@, '.');
    }
    let has_ext = dots.len() >= 3 || (dots.len() == 2 && dots[0].len() > 0);
    if !has_ext {
        proof {
            assert(dots.deep_view().len() == spec_split(name@, '.').len());
            if dots.len() == 2 {
                assert(dots.deep_view()[0] =~= dots@[0]@);
            }
        }
        return (worldgen, None);
    }
    let ext = &dots[dots.len() - 1];
    proof {
        assert(dots.deep_view()[dots@.len() - 1] =~= dots@[dots@.len() - 1]@);
        if dots.len() == 2 {
            assert(dots.deep_view()[0] =~= dots@[0]@);
        }
        assert(ext@ == spec_split(name@, '.').last());
        assert(spec_extension(name@) == Some(ext@));
    }
    let kind: Option<FileKind> = if chars_eq_str(ext, "mcfunction") {
        Some(FileKind::Mcfunction)
    } else if chars_eq_str(ext, "json") {
        if starts_with_lit(&cs, "advancement/") {
            Some(FileKind::Advancement)
        } else if starts_with_lit(&cs, "recipe/") {
            Some(FileKind::Recipe)
        } else if starts_with_lit(&cs, "loot_table/") {
            Some(FileKind::LootTable)
        } else if starts_with_lit(&cs, "predicate/") {
            Some(FileKind::Predicate)
        } else if starts_with_lit(&cs, "tags/") {
            Some(FileKind::TagJson)
        } else {
            None
        }
    } else {
        None
    };
    (worldgen, kind)
}

/// Count one classified file into the running info.
fn apply_cat(info: &mut NamespaceInfo, c: (bool, Option<FileKind>))
    requires
        old(info).functions < usize::MAX,
        old(info).advancements < usize::MAX,
        old(info).recipes < usize::MAX,
        old(info).loot_tables < usize::MAX,
        old(info).predicates < usize::MAX,
        old(info).tags < usize::MAX,
    ensures
        final(info)@ == spec_apply_cat(old(info)@, c),
{
    if c.0 {
        info.world_gen = true;
    }
    match c.1 {
        Some(FileKind::Mcfunction) => {
            info.functions = info.functions + 1;
        },
        Some(FileKind::Advancement) => {
            info.advancements = info.advancements + 1;
        },
        Some(FileKind::Recipe) => {
            info.recipes = info.recipes + 1;
        },
        Some(FileKind::LootTable) => {
            info.loot_tables = info.loot_tables + 1;
        },
        Some(FileKind::Predicate) => {
            info.predicates = info.predicates + 1;
        },
        Some(FileKind::TagJson) => {
            info.tags = info.tags + 1;
        },
        None => {},
    }
}

/// Tally every file of one namespace, each path relative to the namespace
/// root.
pub fn collect_namespace_info(rel_paths: &Vec<String>) -> (info: NamespaceInfo)
    ensures
        info@ == spec_tally(rel_paths.deep_view()),
{
    let mut info = NamespaceInfo::new();
    let mut i: usize = 0;
    assert(rel_paths.deep_view().take(0) =~= Seq::<Seq<char>>::empty());
    while i < rel_paths.len()
        invariant
            i <= rel_paths@.len(),
            rel_paths@.len() == rel_paths.deep_view().len(),
            info@ == spec_tally(rel_paths.deep_view().take(i as int)),
        decreases rel_paths@.len() - i,
    {
        proof {
            lemma_tally_bound(rel_paths.deep_view().take(i as int));
            assert(rel_paths.deep_view()[i as int] =~= rel_paths@[i as int]@);
        }
        let c = dir_cat_of(rel_paths[i].as_str());
        apply_cat(&mut info, c);
        i = i + 1;
        proof {
            let d = rel_paths.deep_view();
            assert(d.take(i as int).drop_last() =~= d.take(i - 1));
            assert(d.take(i as int).last() == d[i - 1]);
        }
    }
    assert(rel_paths.deep_view().take(rel_paths.deep_view().len() as int) =~= rel_paths.deep_view());
    info
}

/// What one reported namespace holds.
pub open spec fn spec_ns_rep() -> spec_fn((String, NamespaceInfo)) -> (Seq<char>, Tally) {
    |p: (String, NamespaceInfo)| (p.0@, p.1@)
}

/// Store a namespace's tally, replacing an earlier entry of the same name.
pub open spec fn spec_upsert(acc: Seq<(Seq<char>, Tally)>, ns: Seq<char>, t: Tally) -> Seq<
    (Seq<char>, Tally),
>
    decreases acc.len(),
{
    if acc.len() == 0 {
        seq![(ns, t)]
    } else if acc.first().0 == ns {
        seq![(ns, t)] + acc.drop_first()
    } else {
        seq![acc.first()] + spec_upsert(acc.drop_first(), ns, t)
    }
}

proof fn lemma_upsert_found(rep: Seq<(Seq<char>, Tally)>, ns: Seq<char>, t: Tally, i: int)
    requires
        0 <= i < rep.len(),
        rep[i].0 == ns,
        forall|j: int| 0 <= j < i ==> (#[trigger] rep[j]).0 != ns,
    ensures
        spec_upsert(rep, ns, t) =~= rep.update(i, (ns, t)),
    decreases i,
{
    if i == 0 {
        assert(spec_upsert(rep, ns, t) =~= rep.update(0, (ns, t)));
    } else {
        assert(rep.first().0 != ns);
        lemma_upsert_found(rep.drop_first(), ns, t, i - 1);
        assert(spec_upsert(rep, ns, t) =~= seq![rep.first()] + rep.drop_first().update(
            i - 1,
            (ns, t),
        ));
        assert(seq![rep.first()] + rep.drop_first().update(i - 1, (ns, t)) =~= rep.update(
            i,
            (ns, t),
        ));
    }
}

proof fn lemma_upsert_absent(rep: Seq<(Seq<char>, Tally)>, ns: Seq<char>, t: Tally)
    requires
        forall|j: int| 0 <= j < rep.len() ==> (#[trigger] rep[j]).0 != ns,
    ensures
        spec_upsert(rep, ns, t) =~= rep.push((ns, t)),
    decreases rep.len(),
{
    if rep.len() > 0 {
        lemma_upsert_absent(rep.drop_first(), ns, t);
        assert(spec_upsert(rep, ns, t) =~= seq![rep.first()] + rep.drop_first().push((ns, t)));
        assert(seq![rep.first()] + rep.drop_first().push((ns, t)) =~= rep.push((ns, t)));
    }
}

/// The running state of an archive scan: the namespace whose run of entries
/// is open, its partial tally, and the namespaces already closed.
pub struct ZipState {
    pub cur_ns: Seq<char>,
    pub cur: Tally,
    pub acc: Seq<(Seq<char>, Tally)>,
}

/// One archive-scan step. An entry counts only when it sits under `data/`
/// with a namespace and at least one further segment; a change of namespace
/// closes the previous run, keeping it only when it has content.
pub open spec fn spec_zip_step_state(s: ZipState, full: Seq<char>) -> ZipState {
    if spec_starts_with(full, "data/"@) {
        let parts = spec_split(full.skip(5), '/');
        if parts.len() >= 2 {
            let ns = parts.first();
            let s1 = if s.cur_ns.len() > 0 && ns != s.cur_ns {
                ZipState {
                    cur_ns: s.cur_ns,
                    cur: spec_empty_tally(),
                    acc: if spec_has_content(s.cur) {
                        spec_upsert(s.acc, s.cur_ns, s.cur)
                    } else {
                        s.acc
                    },
                }
            } else {
                s
            };
            ZipState {
                cur_ns: ns,
                cur: spec_apply_cat(s1.cur, spec_zip_cat(full)),
                acc: s1.acc,
            }
        } else {
            s
        }
    } else {
        s
    }
}

pub open spec fn spec_zip_fold(entries: Seq<Seq<char>>) -> ZipState
    decreases entries.len(),
{
    if entries.len() == 0 {
        ZipState { cur_ns: Seq::empty(), cur: spec_empty_tally(), acc: Seq::empty() }
    } else {
        spec_zip_step_state(spec_zip_fold(entries.drop_last()), entries.last())
    }
}

/// Close the last open run when the scan ends.
pub open spec fn spec_finalize(s: ZipState) -> Seq<(Seq<char>, Tally)> {
    if s.cur_ns.len() > 0 && spec_has_content(s.cur) {
        spec_upsert(s.acc, s.cur_ns, s.cur)
    } else {
        s.acc
    }
}

/// The namespaces an archive scan reports, in the order their runs close.
pub open spec fn spec_zip_namespaces(entries: Seq<Seq<char>>) -> Seq<(Seq<char>, Tally)> {
    spec_finalize(spec_zip_fold(entries))
}

proof fn lemma_zip_cur_bound(entries: Seq<Seq<char>>)
    ensures
        spec_zip_fold(entries).cur.functions <= entries.len(),
        spec_zip_fold(entries).cur.advancements <= entries.len(),
        spec_zip_fold(entries).cur.recipes <= entries.len(),
        spec_zip_fold(entries).cur.loot_tables <= entries.len(),
        spec_zip_fold(entries).cur.predicates <= entries.len(),
        spec_zip_fold(entries).cur.tags <= entries.len(),
    decreases entries.len(),
{
    if entries.len() > 0 {
        lemma_zip_cur_bound(entries.drop_last());
    }
}

fn vec_skip(v: &Vec<char>, n: usize) -> (r: Vec<char>)
    requires
        n <= v@.len(),
    ensures
        r@ == v@.skip(n as int),
{
    let mut r: Vec<char> = Vec::new();
    let mut i: usize = n;
    while i < v.len()
        invariant
            n <= i <= v@.len(),
            r@ == v@.subrange(n as int, i as int),
        decreases v@.len() - i,
    {
        r.push(v[i]);
        i = i + 1;
        assert(r@ =~= v@.subrange(n as int, i as int));
    }
    assert(r@ =~= v@.skip(n as int));
    r
}

/// Classify one archive entry the way the archive scanner does.
fn zip_cat_of(cs: &Vec<char>) -> (r: (bool, Option<FileKind>))
    ensures
        r == spec_zip_cat(cs@),
{
    let worldgen = contains_lit(cs, "/worldgen/");
    let segs = split_char(cs, '/');
    proof {
        lemma_split_len(cs@, '/');
    }
    let name = &segs[segs.len() - 1];
    proof {
        assert(segs.deep_view()[segs@.len() - 1] =~= segs@[segs@.len() - 1]@);
        assert(name@ == spec_split(cs@, '/').last());
    }
    let kind: Option<FileKind> = if ends_with_lit(name, ".mcfunction") {
        Some(FileKind::Mcfunction)
    } else if ends_with_lit(name, ".json") {
        if contains_lit(cs, "/advancement/") {
            Some(FileKind::Advancement)
        } else if contains_lit(cs, "/recipe/") {
            Some(FileKind::Recipe)
        } else if contains_lit(cs, "/loot_table/") {
            Some(FileKind::LootTable)
        } else if contains_lit(cs, "/predicate/") {
            Some(FileKind::Predicate)
        } else if contains_lit(cs, "/tags/") {
            Some(FileKind::TagJson)
        } else {
            None
        }
    } else {
        None
    };
    (worldgen, kind)
}

/// Store a namespace's counts, replacing an earlier entry of the same name.
fn upsert_namespace(acc: &mut Vec<(String, NamespaceInfo)>, ns: String, info: NamespaceInfo)
    ensures
        final(acc)@.map_values(spec_ns_rep()) == spec_upsert(
            old(acc)@.map_values(spec_ns_rep()),
            ns@,
            info@,
        ),
{
    let mut i: usize = 0;
    while i < acc.len()
        invariant
            i <= acc@.len(),
            acc@ == old(acc)@,
            forall|j: int| 0 <= j < i ==> (#[trigger] acc@[j]).0@ != ns@,
        decreases acc@.len() - i,
    {
        if crate::strings::str_eq(acc[i].0.as_str(), ns.as_str()) {
            let ghost rep = acc@.map_values(spec_ns_rep());
            let ghost ii = i as int;
            acc.remove(i);
            acc.insert(i, (ns, info));
            proof {
                assert(acc@ =~= old(acc)@.update(ii, acc@[ii]));
                assert(acc@.map_values(spec_ns_rep()) =~= rep.update(ii, (acc@[ii].0@, acc@[ii].1@)));
                lemma_upsert_found(rep, acc@[ii].0@, acc@[ii].1@, ii);
                assert(forall|j: int|
                    0 <= j < ii ==> (#[trigger] rep[j]).0 == old(acc)@[j].0@);
            }
            return;
        }
        i = i + 1;
    }
    let ghost rep = acc@.map_values(spec_ns_rep());
    acc.push((ns, info));
    proof {
        assert(acc@.map_values(spec_ns_rep()) =~= rep.push((ns@, info@)));
        lemma_upsert_absent(rep, ns@, info@);
        assert(forall|j: int| 0 <= j < rep.len() ==> (#[trigger] rep[j]).0 == old(acc)@[j].0@);
    }
}

/// Tally an archive's entries into per-namespace counts, grouping the runs
/// of consecutive entries that share a namespace.
pub fn collect_zip_namespaces(entries: &Vec<String>) -> (r: Vec<(String, NamespaceInfo)>)
    ensures
        r@.map_values(spec_ns_rep()) == spec_zip_namespaces(entries.deep_view()),
{
    let mut acc: Vec<(String, NamespaceInfo)> = Vec::new();
    let mut cur_ns = String::new();
    let mut cur = NamespaceInfo::new();
    let mut i: usize = 0;
    proof {
        assert(entries.deep_view().take(0) =~= Seq::<Seq<char>>::empty());
        assert(acc@.map_values(spec_ns_rep()) =~= Seq::<(Seq<char>, Tally)>::empty());
    }
    while i < entries.len()
        invariant
            i <= entries@.len(),
            entries@.len() == entries.deep_view().len(),
            spec_zip_fold(entries.deep_view().take(i as int)).cur_ns == cur_ns@,
            spec_zip_fold(entries.deep_view().take(i as int)).cur == cur@,
            spec_zip_fold(entries.deep_view().take(i as int)).acc == acc@.map_values(
                spec_ns_rep(),
            ),
        decreases entries@.len() - i,
    {
        let ghost d = entries.deep_view();
        let ghost s_before = spec_zip_fold(d.take(i as int));
        proof {
            assert(d[i as int] =~= entries@[i as int]@);
            assert(d.take(i + 1).drop_last() =~= d.take(i as int));
            assert(d.take(i + 1).last() == d[i as int]);
            lemma_zip_cur_bound(d.take(i as int));
        }
        let e = &entries[i];
        let cs = to_chars(e.as_str());
        if starts_with_lit(&cs, "data/") {
            proof {
                reveal_strlit("data/");
            }
            let dp = vec_skip(&cs, 5);
            let parts = split_char(&dp, '/');
            if parts.len() >= 2 {
                let ns_chars = &parts[0];
                proof {
                    assert(parts.deep_view()[0] =~= parts@[0]@);
                    assert(ns_chars@ == spec_split(d[i as int].skip(5), '/').first());
                }
                if cur_ns.as_str().unicode_len() > 0 && !chars_eq_str(ns_chars, cur_ns.as_str()) {
                    if cur.has_content() {
                        upsert_namespace(&mut acc, cur_ns, cur);
                    }
                    cur = NamespaceInfo::new();
                }
                cur_ns = crate::strings::chars_to_string(ns_chars);
                let c = zip_cat_of(&cs);
                apply_cat(&mut cur, c);
            }
        }
        i = i + 1;
        proof {
            let s_after = spec_zip_step_state(s_before, d[i - 1]);
            assert(spec_zip_fold(d.take(i as int)) == s_after);
            assert(s_after.cur_ns == cur_ns@);
            assert(s_after.cur == cur@);
            assert(s_after.acc == acc@.map_values(spec_ns_rep()));
        }
    }
    proof {
        assert(entries.deep_view().take(entries.deep_view().len() as int) =~= entries.deep_view());
    }
    if cur_ns.as_str().unicode_len() > 0 && cur.has_content() {
        upsert_namespace(&mut acc, cur_ns, cur);
    }
    assert(acc@.map_values(spec_ns_rep()) =~= spec_zip_namespaces(entries.deep_view()));
    acc
}

/// The namespaces a directory scan reports: each namespace with its tally,
/// in directory order, keeping only those with content.
pub open spec fn spec_dir_namespaces(groups: Seq<(Seq<char>, Seq<Seq<char>>)>) -> Seq<
    (Seq<char>, Tally),
>
    decreases groups.len(),
{
    if groups.len() == 0 {
        Seq::empty()
    } else {
        let prev = spec_dir_namespaces(groups.drop_last());
        let g = groups.last();
        if spec_has_content(spec_tally(g.1)) {
            prev.push((g.0, spec_tally(g.1)))
        } else {
            prev
        }
    }
}

/// Tally a directory tree: for each namespace, the relative paths of its
/// files; namespaces without content are left out.
pub fn collect_dir_namespaces(groups: &Vec<(String, Vec<String>)>) -> (r: Vec<
    (String, NamespaceInfo),
>)
    ensures
        r@.map_values(spec_ns_rep()) == spec_dir_namespaces(groups.deep_view()),
{
    let mut r: Vec<(String, NamespaceInfo)> = Vec::new();
    let mut i: usize = 0;
    proof {
        assert(groups.deep_view().take(0) =~= Seq::<(Seq<char>, Seq<Seq<char>>)>::empty());
        assert(r@.map_values(spec_ns_rep()) =~= Seq::<(Seq<char>, Tally)>::empty());
    }
    while i < groups.len()
        invariant
            i <= groups@.len(),
            groups@.len() == groups.deep_view().len(),
            r@.map_values(spec_ns_rep()) == spec_dir_namespaces(groups.deep_view().take(i as int)),
        decreases groups@.len() - i,
    {
        let ghost d = groups.deep_view();
        proof {
            assert(d[i as int].0 =~= groups@[i as int].0@);
            assert(d[i as int].1 =~~= groups@[i as int].1.deep_view());
        }
        let g = &groups[i];
        let info = collect_namespace_info(&g.1);
        let ghost old_rep = r@.map_values(spec_ns_rep());
        if info.has_content() {
            r.push((g.0.clone(), info));
            assert(r@.map_values(spec_ns_rep()) =~= old_rep.push((g.0@, info@)));
        }
        i = i + 1;
        proof {
            assert(d.take(i as int).drop_last() =~= d.take(i - 1));
            assert(d.take(i as int).last() == d[i - 1]);
        }
    }
    proof {
        assert(groups.deep_view().take(groups.deep_view().len() as int) =~= groups.deep_view());
    }
    r
}

proof fn lemma_split_no_sep(s: Seq<char>, sep: char)
    requires
        forall|i: int| 0 <= i < s.len() ==> s[i] != sep,
    ensures
        spec_split(s, sep) =~= seq![s],
    decreases s.len(),
{
    if s.len() == 0 {
        assert(s =~= Seq::<char>::empty());
    } else {
        lemma_split_no_sep(s.drop_last(), sep);
        assert(s.drop_last().push(s.last()) =~= s);
        assert(spec_split(s, sep) =~= seq![s.drop_last().push(s.last())]);
    }
}

proof fn lemma_split_concat(a: Seq<char>, b: Seq<char>, sep: char)
    requires
        forall|i: int| 0 <= i < a.len() ==> a[i] != sep,
    ensures
        spec_split(a + seq![sep] + b, sep) =~= seq![a] + spec_split(b, sep),
    decreases b.len(),
{
    let s = a + seq![sep] + b;
    if b.len() == 0 {
        assert(s.len() == a.len() + 1);
        assert(s.drop_last() =~= a);
        assert(s.last() == sep);
        lemma_split_no_sep(a, sep);
        assert(spec_split(s, sep) =~= seq![a].push(Seq::<char>::empty()));
        assert(seq![a].push(Seq::<char>::empty()) =~= seq![a] + spec_split(b, sep));
    } else {
        lemma_split_concat(a, b.drop_last(), sep);
        let s0 = a + seq![sep] + b.drop_last();
        assert(s.drop_last() =~= s0);
        assert(s.last() == b.last());
        lemma_split_len(b.drop_last(), sep);
        let x = spec_split(b.drop_last(), sep);
        if b.last() == sep {
            assert(spec_split(s, sep) =~= (seq![a] + x).push(Seq::<char>::empty()));
            assert((seq![a] + x).push(Seq::<char>::empty()) =~= seq![a] + x.push(
                Seq::<char>::empty(),
            ));
        } else {
            let prev = seq![a] + x;
            assert(spec_split(s, sep) =~= prev.update(
                prev.len() - 1,
                prev.last().push(b.last()),
            ));
            assert(prev.update(prev.len() - 1, prev.last().push(b.last())) =~= seq![a] + x.update(
                x.len() - 1,
                x.last().push(b.last()),
            ));
        }
    }
}

/// The archive path of one file of a namespace.
pub open spec fn spec_entry_path(ns: Seq<char>, rel: Seq<char>) -> Seq<char> {
    "data/"@ + ns + "/"@ + rel
}

pub open spec fn spec_entry_fn(ns: Seq<char>) -> spec_fn(Seq<char>) -> Seq<char> {
    |rel: Seq<char>| spec_entry_path(ns, rel)
}

/// The run of archive entries one namespace contributes.
pub open spec fn spec_group_entries(ns: Seq<char>, rels: Seq<Seq<char>>) -> Seq<Seq<char>> {
    rels.map_values(spec_entry_fn(ns))
}

/// The entry list of an archive built from a directory tree: every
/// namespace's files in directory order, runs grouped by namespace.
pub open spec fn spec_archive_entries(groups: Seq<(Seq<char>, Seq<Seq<char>>)>) -> Seq<Seq<char>>
    decreases groups.len(),
{
    if groups.len() == 0 {
        Seq::empty()
    } else {
        spec_archive_entries(groups.drop_last()) + spec_group_entries(
            groups.last().0,
            groups.last().1,
        )
    }
}

/// A namespace name as the file system yields it: nonempty, without path
/// separators.
pub open spec fn spec_plain_ns(ns: Seq<char>) -> bool {
    ns.len() > 0 && forall|i: int| 0 <= i < ns.len() ==> ns[i] != '/'
}

/// Both scanners read this file of this namespace the same way.
pub open spec fn spec_class_agree(ns: Seq<char>, rel: Seq<char>) -> bool {
    spec_zip_cat(spec_entry_path(ns, rel)) == spec_dir_cat(rel)
}

proof fn lemma_entry_path_parts(ns: Seq<char>, rel: Seq<char>)
    requires
        spec_plain_ns(ns),
    ensures
        spec_starts_with(spec_entry_path(ns, rel), "data/"@),
        spec_split(spec_entry_path(ns, rel).skip(5), '/') =~= seq![ns] + spec_split(rel, '/'),
        spec_split(spec_entry_path(ns, rel).skip(5), '/').len() >= 2,
        spec_split(spec_entry_path(ns, rel).skip(5), '/').first() == ns,
{
    reveal_strlit("data/");
    reveal_strlit("/");
    let full = spec_entry_path(ns, rel);
    assert("data/"@.len() == 5);
    assert(full.subrange(0, 5) =~= "data/"@);
    assert("/"@ =~= seq!['/']);
    assert(full.skip(5) =~= ns + seq!['/'] + rel);
    lemma_split_concat(ns, rel, '/');
    lemma_split_len(rel, '/');
    assert(spec_split(full.skip(5), '/') =~= seq![ns] + spec_split(rel, '/'));
    assert((seq![ns] + spec_split(rel, '/')).first() == ns);
}

proof fn lemma_zip_group(entries: Seq<Seq<char>>, ns: Seq<char>, rels: Seq<Seq<char>>)
    requires
        spec_plain_ns(ns),
        forall|j: int| 0 <= j < rels.len() ==> spec_class_agree(ns, #[trigger] rels[j]),
        rels.len() > 0,
        spec_zip_fold(entries).cur_ns != ns,
        spec_zip_fold(entries).cur_ns.len() == 0 ==> spec_zip_fold(entries).cur
            == spec_empty_tally(),
    ensures
        spec_zip_fold(entries + spec_group_entries(ns, rels)).cur_ns == ns,
        spec_zip_fold(entries + spec_group_entries(ns, rels)).cur == spec_tally(rels),
        spec_zip_fold(entries + spec_group_entries(ns, rels)).acc == spec_finalize(
            spec_zip_fold(entries),
        ),
    decreases rels.len(),
{
    let s = spec_zip_fold(entries);
    if rels.len() == 1 {
        let r0 = rels[0];
        let full = spec_entry_path(ns, r0);
        let whole = entries + spec_group_entries(ns, rels);
        assert(spec_group_entries(ns, rels) =~= seq![full]);
        assert(whole.drop_last() =~= entries);
        assert(whole.last() == full);
        assert(whole.len() > 0);
        assert(spec_zip_fold(whole) == spec_zip_step_state(s, full));
        lemma_entry_path_parts(ns, r0);
        assert(spec_class_agree(ns, r0));
        assert(rels.drop_last() =~= Seq::<Seq<char>>::empty());
        assert(spec_tally(Seq::<Seq<char>>::empty()) == spec_empty_tally());
        assert(spec_tally(rels) == spec_tally_step(spec_empty_tally(), r0));
    } else {
        let rs = rels.drop_last();
        let r = rels.last();
        lemma_zip_group(entries, ns, rs);
        let prefix = entries + spec_group_entries(ns, rs);
        let full = spec_entry_path(ns, r);
        let whole = entries + spec_group_entries(ns, rels);
        assert(spec_group_entries(ns, rels) =~= spec_group_entries(ns, rs).push(full));
        assert(whole.drop_last() =~= prefix);
        assert(whole.last() == full);
        assert(whole.len() > 0);
        assert(spec_zip_fold(whole) == spec_zip_step_state(spec_zip_fold(prefix), full));
        lemma_entry_path_parts(ns, r);
        assert(spec_class_agree(ns, rels[rels.len() - 1]));
        assert(spec_zip_fold(prefix).cur_ns == ns);
        assert(spec_zip_fold(whole).cur == spec_apply_cat(spec_tally(rs), spec_zip_cat(full)));
        assert(spec_zip_fold(whole).cur == spec_tally_step(spec_tally(rs), r));
        assert(spec_tally(rels) == spec_tally_step(spec_tally(rels.drop_last()), rels.last()));
    }
}

pub open spec fn spec_group_name() -> spec_fn((Seq<char>, Seq<Seq<char>>)) -> Seq<char> {
    |g: (Seq<char>, Seq<Seq<char>>)| g.0
}

/// The names of a directory scan's groups, in order.
pub open spec fn spec_group_names(groups: Seq<(Seq<char>, Seq<Seq<char>>)>) -> Seq<Seq<char>> {
    groups.map_values(spec_group_name())
}

proof fn lemma_dir_names(groups: Seq<(Seq<char>, Seq<Seq<char>>)>, k: int)
    requires
        0 <= k < spec_dir_namespaces(groups).len(),
    ensures
        spec_group_names(groups).contains(spec_dir_namespaces(groups)[k].0),
    decreases groups.len(),
{
    if groups.len() > 0 {
        let prev = spec_dir_namespaces(groups.drop_last());
        let g = groups.last();
        if k < prev.len() {
            lemma_dir_names(groups.drop_last(), k);
            let j = choose|j: int|
                0 <= j < spec_group_names(groups.drop_last()).len() && spec_group_names(
                    groups.drop_last(),
                )[j] == prev[k].0;
            assert(spec_group_names(groups)[j] == prev[k].0);
        } else {
            assert(spec_dir_namespaces(groups)[k].0 == g.0);
            assert(spec_group_names(groups)[groups.len() - 1] == g.0);
        }
    }
}

proof fn lemma_scan_equiv_aux(groups: Seq<(Seq<char>, Seq<Seq<char>>)>)
    requires
        forall|g: int| 0 <= g < groups.len() ==> spec_plain_ns((#[trigger] groups[g]).0),
        forall|g1: int, g2: int|
            0 <= g1 < g2 < groups.len() ==> (#[trigger] groups[g1]).0 != (#[trigger] groups[g2]).0,
        forall|g: int, j: int|
            0 <= g < groups.len() && 0 <= j < groups[g].1.len() ==> spec_class_agree(
                (#[trigger] groups[g]).0,
                #[trigger] groups[g].1[j],
            ),
    ensures
        spec_finalize(spec_zip_fold(spec_archive_entries(groups))) =~= spec_dir_namespaces(groups),
        spec_zip_fold(spec_archive_entries(groups)).cur_ns.len() == 0 ==> spec_zip_fold(
            spec_archive_entries(groups),
        ).cur == spec_empty_tally(),
        spec_zip_fold(spec_archive_entries(groups)).cur_ns.len() > 0 ==> spec_group_names(
            groups,
        ).contains(spec_zip_fold(spec_archive_entries(groups)).cur_ns),
    decreases groups.len(),
{
    if groups.len() == 0 {
        assert(spec_archive_entries(groups).len() == 0);
    } else {
        let prev_groups = groups.drop_last();
        let g = groups.last();
        lemma_scan_equiv_aux(prev_groups);
        let prev_entries = spec_archive_entries(prev_groups);
        let s = spec_zip_fold(prev_entries);
        let whole = spec_archive_entries(groups);
        assert(whole == prev_entries + spec_group_entries(g.0, g.1));
        if g.1.len() == 0 {
            assert(spec_group_entries(g.0, g.1) =~= Seq::<Seq<char>>::empty());
            assert(whole =~= prev_entries);
            assert(spec_tally(g.1) == spec_empty_tally());
            assert(!spec_has_content(spec_tally(g.1)));
            assert(spec_dir_namespaces(groups) == spec_dir_namespaces(prev_groups));
            if s.cur_ns.len() > 0 {
                let j = choose|j: int|
                    0 <= j < spec_group_names(prev_groups).len() && spec_group_names(
                        prev_groups,
                    )[j] == s.cur_ns;
                assert(spec_group_names(groups)[j] == s.cur_ns);
            }
        } else {
            assert(spec_plain_ns(g.0)) by {
                assert(groups[groups.len() - 1] == g);
            }
            if s.cur_ns.len() > 0 {
                let j = choose|j: int|
                    0 <= j < spec_group_names(prev_groups).len() && spec_group_names(
                        prev_groups,
                    )[j] == s.cur_ns;
                assert(groups[j] == prev_groups[j]);
                assert(s.cur_ns == groups[j].0);
                assert(groups[j].0 != g.0);
            }
            assert(s.cur_ns != g.0);
            assert forall|j: int| 0 <= j < g.1.len() implies spec_class_agree(
                g.0,
                #[trigger] g.1[j],
            ) by {
                assert(groups[groups.len() - 1] == g);
            }
            lemma_zip_group(prev_entries, g.0, g.1);
            let s2 = spec_zip_fold(whole);
            assert(s2.cur_ns == g.0);
            assert(s2.cur == spec_tally(g.1));
            assert(s2.acc == spec_finalize(s));
            assert(s2.acc =~= spec_dir_namespaces(prev_groups));
            if spec_has_content(spec_tally(g.1)) {
                assert forall|k: int| 0 <= k < s2.acc.len() implies (#[trigger] s2.acc[k]).0
                    != g.0 by {
                    lemma_dir_names(prev_groups, k);
                    let j = choose|j: int|
                        0 <= j < spec_group_names(prev_groups).len() && spec_group_names(
                            prev_groups,
                        )[j] == spec_dir_namespaces(prev_groups)[k].0;
                    assert(groups[j] == prev_groups[j]);
                    assert(groups[j].0 != g.0);
                }
                lemma_upsert_absent(s2.acc, g.0, spec_tally(g.1));
                assert(spec_finalize(s2) =~= s2.acc.push((g.0, spec_tally(g.1))));
                assert(spec_dir_namespaces(groups) == spec_dir_namespaces(prev_groups).push(
                    (g.0, spec_tally(g.1)),
                ));
            } else {
                assert(spec_finalize(s2) == s2.acc);
                assert(spec_dir_namespaces(groups) == spec_dir_namespaces(prev_groups));
            }
            assert(spec_group_names(groups)[groups.len() - 1] == g.0);
        }
    }
}

/// Scanner equivalence: scanning a file set laid out as a directory tree
/// and scanning the archive built from it entry by entry report the same
/// namespaces with the same tallies, in the same order — provided every
/// namespace name is plain (nonempty, no separator), namespaces are
/// distinct, and both scanners classify each file the same way.
pub proof fn lemma_scan_equivalence(groups: Seq<(Seq<char>, Seq<Seq<char>>)>)
    requires
        forall|g: int| 0 <= g < groups.len() ==> spec_plain_ns((#[trigger] groups[g]).0),
        forall|g1: int, g2: int|
            0 <= g1 < g2 < groups.len() ==> (#[trigger] groups[g1]).0 != (#[trigger] groups[g2]).0,
        forall|g: int, j: int|
            0 <= g < groups.len() && 0 <= j < groups[g].1.len() ==> spec_class_agree(
                (#[trigger] groups[g]).0,
                #[trigger] groups[g].1[j],
            ),
    ensures
        spec_zip_namespaces(spec_archive_entries(groups)) == spec_dir_namespaces(groups),
{
    lemma_scan_equiv_aux(groups);
}

} // verus!
