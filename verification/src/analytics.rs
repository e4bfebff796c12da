//! Aggregate analytics over the discovered resources of the selected projects:
//! totals, per-key counts and coverage, per project and over the whole archive.
use vstd::prelude::*;
use crate::archive::{kind_label, metadata_views, ArchiveInspection, ProjectMetadata, ProjectMetadataView};
use crate::error::{AppError, AppErrorView};
use crate::archive::ArchiveInspectionView;
use crate::resource::{
    inventory_views, resource_views, InventoryView, ProjectResourceInventory, Resource,
    ResourceFileView, ResourceView,
};
use crate::text::{
    compare_text, lemma_text_lt_irreflexive, lemma_text_lt_transitive, strictly_sorted, text_eq,
    text_lt, texts, TextOrder,
};

verus! {

/// How many times `key` occurs in `keys`.
pub open spec fn occurrences(keys: Seq<Seq<char>>, key: Seq<char>) -> nat
    decreases keys.len(),
{
    if keys.len() == 0 {
        0
    } else {
        occurrences(keys.drop_last(), key) + if keys.last() == key {
            1nat
        } else {
            0nat
        }
    }
}

/// A key occurs at most as often as there are keys.
proof fn lemma_occurrences_bound(keys: Seq<Seq<char>>, key: Seq<char>)
    ensures
        occurrences(keys, key) <= keys.len(),
    decreases keys.len(),
{
    if keys.len() > 0 {
        lemma_occurrences_bound(keys.drop_last(), key);
    }
}

/// A key occurs exactly when it is one of the keys.
proof fn lemma_occurrences_positive(keys: Seq<Seq<char>>, key: Seq<char>)
    ensures
        occurrences(keys, key) > 0 <==> keys.contains(key),
    decreases keys.len(),
{
    if keys.len() > 0 {
        let rest = keys.drop_last();
        lemma_occurrences_positive(rest, key);
        if rest.contains(key) {
            let j = choose|j: int| 0 <= j < rest.len() && rest[j] == key;
            assert(keys[j] == key);
        }
        if keys.contains(key) {
            let j = choose|j: int| 0 <= j < keys.len() && keys[j] == key;
            if j < keys.len() - 1 {
                assert(rest[j] == key);
            }
        }
    }
}

/// The keys of a count map, in order.
pub open spec fn count_keys(m: Seq<(String, usize)>) -> Seq<Seq<char>> {
    m.map_values(|e: (String, usize)| e.0@)
}

/// `m` counts `keys`: one entry per distinct key, in increasing key order,
/// each with the number of times its key occurs.
pub open spec fn counts(m: Seq<(String, usize)>, keys: Seq<Seq<char>>) -> bool {
    &&& strictly_sorted(count_keys(m))
    &&& forall|i: int|
        0 <= i < m.len() ==> (#[trigger] m[i]).1 == occurrences(keys, m[i].0@) && m[i].1 > 0
    &&& forall|k: Seq<char>| #[trigger] keys.contains(k) ==> count_keys(m).contains(k)
}

/// Counts one more occurrence of `key`.
fn add_count(m: &mut Vec<(String, usize)>, key: &str, Ghost(keys): Ghost<Seq<Seq<char>>>)
    requires
        counts(old(m)@, keys),
        keys.len() < usize::MAX,
    ensures
        counts(final(m)@, keys.push(key@)),
{
    let ghost old_m = m@;
    let ghost nk = keys.push(key@);
    assert(nk.drop_last() =~= keys);
    assert forall|x: Seq<char>| x != key@ implies occurrences(nk, x) == occurrences(keys, x) by {}
    assert(occurrences(nk, key@) == occurrences(keys, key@) + 1);
    proof {
        lemma_occurrences_bound(keys, key@);
        lemma_occurrences_positive(keys, key@);
    }
    let mut i: usize = 0;
    while i < m.len()
        invariant
            m@ == old_m,
            counts(old_m, keys),
            0 <= i <= m@.len(),
            forall|j: int| 0 <= j < i ==> text_lt(#[trigger] m@[j].0@, key@),
        ensures
            m@ == old_m,
            0 <= i <= m@.len(),
            forall|j: int| 0 <= j < i ==> text_lt(#[trigger] m@[j].0@, key@),
            i < m@.len() ==> !text_lt(m@[i as int].0@, key@),
        decreases m@.len() - i,
    {
        match compare_text(m[i].0.as_str(), key) {
            TextOrder::Less => {
                i = i + 1;
            },
            _ => {
                break;
            },
        }
    }
    let ghost ck = count_keys(old_m);
    if i < m.len() && text_eq(m[i].0.as_str(), key) {
        let entry = m.remove(i);
        assert(entry == old_m[i as int]);
        assert(entry.1 == occurrences(keys, key@));
        let bumped = entry.1 + 1;
        m.insert(i, (entry.0, bumped));
        assert(m@ =~= old_m.update(i as int, (entry.0, bumped)));
        assert(count_keys(m@) =~= ck);
        assert forall|j: int| 0 <= j < m@.len() implies (#[trigger] m@[j]).1 == occurrences(
            nk,
            m@[j].0@,
        ) && m@[j].1 > 0 by {
            if j != i {
                assert(m@[j] == old_m[j]);
                assert(ck[j] != ck[i as int]) by {
                    if j < i {
                        assert(text_lt(ck[j], ck[i as int]));
                    } else {
                        assert(text_lt(ck[i as int], ck[j]));
                    }
                    lemma_text_lt_irreflexive(ck[j]);
                }
            }
        }
        assert forall|k: Seq<char>| #[trigger] nk.contains(k) implies count_keys(m@).contains(k) by {
            if k == key@ {
                assert(count_keys(m@)[i as int] == k);
            } else {
                let j = choose|j: int| 0 <= j < nk.len() && nk[j] == k;
                assert(keys[j] == k);
                assert(keys.contains(k));
            }
        }
    } else {
        proof {
            if i < old_m.len() {
                lemma_text_lt_irreflexive(key@);
            }
        }
        assert(!ck.contains(key@)) by {
            if ck.contains(key@) {
                let j = choose|j: int| 0 <= j < ck.len() && ck[j] == key@;
                if j < i {
                    assert(text_lt(ck[j], key@));
                    lemma_text_lt_irreflexive(key@);
                } else {
                    assert(!text_lt(ck[i as int], key@));
                    if j > i {
                        assert(text_lt(ck[i as int], ck[j]));
                    }
                    assert(ck[i as int] != key@);
                    crate::text::lemma_text_lt_total(ck[i as int], key@);
                }
            }
        }
        assert(!keys.contains(key@));
        m.insert(i, (String::from_str(key), 1));
        let ghost nck = count_keys(m@);
        assert(nck =~= ck.insert(i as int, key@));
        assert forall|a: int, b: int| 0 <= a < b < nck.len() implies text_lt(
            #[trigger] nck[a],
            #[trigger] nck[b],
        ) by {
            if b < i {
            } else if b == i {
                assert(nck[a] == ck[a]);
            } else if a == i {
                assert(nck[b] == ck[b - 1]);
                if b - 1 > i {
                    assert(text_lt(ck[i as int], ck[b - 1]));
                    crate::text::lemma_text_lt_total(ck[i as int], key@);
                    lemma_text_lt_transitive(key@, ck[i as int], ck[b - 1]);
                } else {
                    crate::text::lemma_text_lt_total(ck[i as int], key@);
                }
            } else if a < i {
                assert(nck[a] == ck[a]);
                assert(nck[b] == ck[b - 1]);
                if b - 1 > a {
                } else {
                }
            } else {
                assert(nck[a] == ck[a - 1]);
                assert(nck[b] == ck[b - 1]);
            }
        }
        assert forall|j: int| 0 <= j < m@.len() implies (#[trigger] m@[j]).1 == occurrences(
            nk,
            m@[j].0@,
        ) && m@[j].1 > 0 by {
            if j < i {
                assert(m@[j] == old_m[j]);
                assert(ck[j] != key@);
            } else if j > i {
                assert(m@[j] == old_m[j - 1]);
                assert(ck[j - 1] != key@);
            }
        }
        assert forall|k: Seq<char>| #[trigger] nk.contains(k) implies nck.contains(k) by {
            if k == key@ {
                assert(nck[i as int] == k);
            } else {
                let j = choose|j: int| 0 <= j < nk.len() && nk[j] == k;
                assert(keys[j] == k);
                assert(keys.contains(k));
                assert(ck.contains(k));
                let c = choose|c: int| 0 <= c < ck.len() && ck[c] == k;
                if c < i {
                    assert(nck[c] == k);
                } else {
                    assert(nck[c + 1] == k);
                }
            }
        }
    }
}

/// The sections of a list of resources, in order.
pub open spec fn sections_of(rs: Seq<ResourceView>) -> Seq<Seq<char>> {
    rs.map_values(|r: ResourceView| r.section)
}

/// The type keys of a list of resources, in order.
pub open spec fn types_of(rs: Seq<ResourceView>) -> Seq<Seq<char>> {
    rs.map_values(|r: ResourceView| r.type_key)
}

/// The kinds of the files of one resource, in order.
pub open spec fn kinds_in(r: ResourceView) -> Seq<Seq<char>> {
    r.files.map_values(|f: ResourceFileView| f.file_kind)
}

/// The kinds of every file of a list of resources, resource by resource.
pub open spec fn file_kinds_of(rs: Seq<ResourceView>) -> Seq<Seq<char>>
    decreases rs.len(),
{
    if rs.len() == 0 {
        Seq::empty()
    } else {
        file_kinds_of(rs.drop_last()) + kinds_in(rs.last())
    }
}

/// How many of a list of resources are binary-only.
pub open spec fn binary_only_total(rs: Seq<ResourceView>) -> nat
    decreases rs.len(),
{
    if rs.len() == 0 {
        0
    } else {
        binary_only_total(rs.drop_last()) + if rs.last().binary_only {
            1nat
        } else {
            0nat
        }
    }
}

/// How many of a list of resources have the type key `unknown`.
pub open spec fn unknown_total(rs: Seq<ResourceView>) -> nat
    decreases rs.len(),
{
    if rs.len() == 0 {
        0
    } else {
        unknown_total(rs.drop_last()) + if rs.last().type_key == "unknown"@ {
            1nat
        } else {
            0nat
        }
    }
}

/// The file kinds of two lists one after the other are those of each.
pub proof fn lemma_file_kinds_concat(a: Seq<ResourceView>, b: Seq<ResourceView>)
    ensures
        file_kinds_of(a + b) == file_kinds_of(a) + file_kinds_of(b),
    decreases b.len(),
{
    if b.len() == 0 {
        assert(a + b =~= a);
        assert(file_kinds_of(a) + file_kinds_of(b) =~= file_kinds_of(a));
    } else {
        lemma_file_kinds_concat(a, b.drop_last());
        assert((a + b).drop_last() =~= a + b.drop_last());
        assert((a + b).last() == b.last());
        assert(file_kinds_of(a + b) =~= file_kinds_of(a) + file_kinds_of(b));
    }
}

/// Running totals and per-key counts over the resources seen so far.
struct Tally {
    resources_total: usize,
    files_total: usize,
    binary_only_resources: usize,
    unknown_resources: usize,
    by_section: Vec<(String, usize)>,
    by_type: Vec<(String, usize)>,
    by_kind: Vec<(String, usize)>,
}

/// The tally holds the totals and counts of `seen`.
spec fn tally_matches(t: Tally, seen: Seq<ResourceView>) -> bool {
    &&& t.resources_total == seen.len()
    &&& t.files_total == file_kinds_of(seen).len()
    &&& t.binary_only_resources == binary_only_total(seen)
    &&& t.unknown_resources == unknown_total(seen)
    &&& counts(t.by_section@, sections_of(seen))
    &&& counts(t.by_type@, types_of(seen))
    &&& counts(t.by_kind@, file_kinds_of(seen))
}

/// A tally of no resources.
fn empty_tally() -> (t: Tally)
    ensures
        tally_matches(t, Seq::empty()),
{
    let t = Tally {
        resources_total: 0,
        files_total: 0,
        binary_only_resources: 0,
        unknown_resources: 0,
        by_section: Vec::new(),
        by_type: Vec::new(),
        by_kind: Vec::new(),
    };
    assert(sections_of(Seq::<ResourceView>::empty()) =~= Seq::<Seq<char>>::empty());
    assert(types_of(Seq::<ResourceView>::empty()) =~= Seq::<Seq<char>>::empty());
    t
}

/// Adds one resource to a tally.
fn tally_resource(t: &mut Tally, r: &Resource, Ghost(seen): Ghost<Seq<ResourceView>>)
    requires
        tally_matches(*old(t), seen),
        seen.len() + 1 <= usize::MAX,
        file_kinds_of(seen.push(r@)).len() <= usize::MAX,
    ensures
        tally_matches(*final(t), seen.push(r@)),
{
    let ghost next = seen.push(r@);
    assert(next.drop_last() =~= seen);
    assert(sections_of(next) =~= sections_of(seen).push(r@.section));
    assert(types_of(next) =~= types_of(seen).push(r@.type_key));
    assert(file_kinds_of(next) == file_kinds_of(seen) + kinds_in(r@));
    add_count(&mut t.by_section, r.section.as_str(), Ghost(sections_of(seen)));
    add_count(&mut t.by_type, r.type_key.as_str(), Ghost(types_of(seen)));
    let ghost base = file_kinds_of(seen);
    let mut j: usize = 0;
    while j < r.files.len()
        invariant
            base == file_kinds_of(seen),
            file_kinds_of(next) == base + kinds_in(r@),
            file_kinds_of(next).len() <= usize::MAX,
            kinds_in(r@).len() == r.files@.len(),
            j <= r.files@.len(),
            counts(t.by_kind@, base + kinds_in(r@).take(j as int)),
            t.resources_total == seen.len(),
            t.files_total == base.len(),
            t.binary_only_resources == binary_only_total(seen),
            t.unknown_resources == unknown_total(seen),
            counts(t.by_section@, sections_of(next)),
            counts(t.by_type@, types_of(next)),
        decreases r.files@.len() - j,
    {
        let ghost before = base + kinds_in(r@).take(j as int);
        assert(kinds_in(r@)[j as int] == r.files@[j as int].file_kind@);
        add_count(&mut t.by_kind, r.files[j].file_kind.as_str(), Ghost(before));
        assert(before.push(r.files@[j as int].file_kind@) =~= base + kinds_in(r@).take(j + 1));
        j = j + 1;
    }
    assert(kinds_in(r@).take(r.files@.len() as int) =~= kinds_in(r@));
    proof {
        lemma_unknown_total_bound(seen);
        lemma_binary_only_total_bound(seen);
    }
    t.resources_total = t.resources_total + 1;
    t.files_total = t.files_total + r.files.len();
    if r.binary_only {
        t.binary_only_resources = t.binary_only_resources + 1;
    }
    if text_eq(r.type_key.as_str(), "unknown") {
        t.unknown_resources = t.unknown_resources + 1;
    }
}

proof fn lemma_unknown_total_bound(rs: Seq<ResourceView>)
    ensures
        unknown_total(rs) <= rs.len(),
    decreases rs.len(),
{
    if rs.len() > 0 {
        lemma_unknown_total_bound(rs.drop_last());
    }
}

proof fn lemma_binary_only_total_bound(rs: Seq<ResourceView>)
    ensures
        binary_only_total(rs) <= rs.len(),
    decreases rs.len(),
{
    if rs.len() > 0 {
        lemma_binary_only_total_bound(rs.drop_last());
    }
}

/// Adds a list of resources to a tally, in order.
fn tally_resources(t: &mut Tally, rs: &Vec<Resource>, Ghost(seen): Ghost<Seq<ResourceView>>)
    requires
        tally_matches(*old(t), seen),
        seen.len() + rs@.len() <= usize::MAX,
        file_kinds_of(seen + resource_views(rs@)).len() <= usize::MAX,
    ensures
        tally_matches(*final(t), seen + resource_views(rs@)),
{
    let ghost all = resource_views(rs@);
    let mut i: usize = 0;
    assert(seen + all.take(0) =~= seen);
    while i < rs.len()
        invariant
            all == resource_views(rs@),
            i <= rs@.len(),
            seen.len() + rs@.len() <= usize::MAX,
            file_kinds_of(seen + all).len() <= usize::MAX,
            tally_matches(*t, seen + all.take(i as int)),
        decreases rs@.len() - i,
    {
        let ghost sofar = seen + all.take(i as int);
        assert(sofar.push(rs@[i as int]@) =~= seen + all.take(i + 1));
        proof {
            lemma_file_kinds_concat(seen + all.take(i + 1), all.skip(i + 1));
            assert(seen + all.take(i + 1) + all.skip(i + 1) =~= seen + all);
        }
        tally_resource(t, &rs[i], Ghost(sofar));
        i = i + 1;
    }
    assert(all.take(rs@.len() as int) =~= all);
}

/// A fraction of two counts: `numerator / denominator`, read as zero when
/// the denominator is zero.
#[derive(Debug, Clone, Copy, PartialEq, Eq, Structural)]
pub struct Ratio {
    pub numerator: usize,
    pub denominator: usize,
}

/// What was analyzed: the archive, its kind and its project roots.
#[derive(Debug, Clone, PartialEq, Eq)]
pub struct AnalyticsInput {
    pub archive_path: String,
    pub archive_kind: String,
    pub detected_project_roots: Vec<String>,
    pub selected_project_roots: Vec<String>,
}

/// Totals and per-key counts over every selected project. Each count list
/// holds one entry per distinct key, in increasing key order.
#[derive(Debug, Clone, PartialEq, Eq)]
pub struct AnalyticsSummary {
    pub projects_total: usize,
    pub resources_total: usize,
    pub files_total: usize,
    pub binary_only_resources: usize,
    pub resources_by_section: Vec<(String, usize)>,
    pub resources_by_type: Vec<(String, usize)>,
    pub files_by_kind: Vec<(String, usize)>,
    pub unknown_resources: usize,
    pub unknown_ratio: Ratio,
}

/// Totals and per-key counts over the resources of one project.
#[derive(Debug, Clone, PartialEq, Eq)]
pub struct ProjectCounts {
    pub resources_total: usize,
    pub files_total: usize,
    pub binary_only_resources: usize,
    pub resources_by_section: Vec<(String, usize)>,
    pub resources_by_type: Vec<(String, usize)>,
    pub files_by_kind: Vec<(String, usize)>,
}

/// How many resources have no known type, and what share of all they are.
#[derive(Debug, Clone, PartialEq, Eq)]
pub struct CoverageMetrics {
    pub unknown_resources: usize,
    pub unknown_ratio: Ratio,
}

/// The analytics of one selected project.
#[derive(Debug, Clone, PartialEq, Eq)]
pub struct ProjectAnalytics {
    pub project_root: String,
    pub project: ProjectMetadata,
    pub counts: ProjectCounts,
    pub coverage: CoverageMetrics,
    pub issues: Vec<String>,
}

/// The complete analytics of one archive.
#[derive(Debug, Clone, PartialEq, Eq)]
pub struct AnalyticsBundle {
    pub schema_version: String,
    pub generated_at: String,
    pub input: AnalyticsInput,
    pub summary: AnalyticsSummary,
    pub projects: Vec<ProjectAnalytics>,
    pub issues: Vec<String>,
    pub gateway_meta: Option<String>,
}

/// The resources of every inventory, inventory by inventory.
pub open spec fn all_resources_of(invs: Seq<InventoryView>) -> Seq<ResourceView>
    decreases invs.len(),
{
    if invs.len() == 0 {
        Seq::empty()
    } else {
        all_resources_of(invs.drop_last()) + invs.last().resources
    }
}

/// The resources of two lists of inventories one after the other are those of each.
pub proof fn lemma_all_resources_concat(a: Seq<InventoryView>, b: Seq<InventoryView>)
    ensures
        all_resources_of(a + b) == all_resources_of(a) + all_resources_of(b),
    decreases b.len(),
{
    if b.len() == 0 {
        assert(a + b =~= a);
        assert(all_resources_of(a) + all_resources_of(b) =~= all_resources_of(a));
    } else {
        lemma_all_resources_concat(a, b.drop_last());
        assert((a + b).drop_last() =~= a + b.drop_last());
        assert((a + b).last() == b.last());
        assert(all_resources_of(a + b) =~= all_resources_of(a) + all_resources_of(b));
    }
}

/// The counts of a project hold the totals and per-key counts of its resources.
pub open spec fn project_counts_match(c: ProjectCounts, rs: Seq<ResourceView>) -> bool {
    &&& c.resources_total == rs.len()
    &&& c.files_total == file_kinds_of(rs).len()
    &&& c.binary_only_resources == binary_only_total(rs)
    &&& counts(c.resources_by_section@, sections_of(rs))
    &&& counts(c.resources_by_type@, types_of(rs))
    &&& counts(c.files_by_kind@, file_kinds_of(rs))
}

/// The coverage of a list of resources: the unknown ones, and their share.
pub open spec fn coverage_matches(c: CoverageMetrics, rs: Seq<ResourceView>) -> bool {
    &&& c.unknown_resources == unknown_total(rs)
    &&& c.unknown_ratio.numerator == unknown_total(rs)
    &&& c.unknown_ratio.denominator == rs.len()
}

/// The analytics of one project: its root, its metadata, and the counts and
/// coverage of its resources, with no issues.
pub open spec fn project_analytics_matches(
    p: ProjectAnalytics,
    root: Seq<char>,
    meta: ProjectMetadataView,
    rs: Seq<ResourceView>,
) -> bool {
    &&& p.project_root@ == root
    &&& p.project@ == meta
    &&& project_counts_match(p.counts, rs)
    &&& coverage_matches(p.coverage, rs)
    &&& p.issues@.len() == 0
}

/// The summary over `projects` projects whose resources, together, are `rs`.
pub open spec fn summary_matches(s: AnalyticsSummary, projects: nat, rs: Seq<ResourceView>) -> bool {
    &&& s.projects_total == projects
    &&& s.resources_total == rs.len()
    &&& s.files_total == file_kinds_of(rs).len()
    &&& s.binary_only_resources == binary_only_total(rs)
    &&& counts(s.resources_by_section@, sections_of(rs))
    &&& counts(s.resources_by_type@, types_of(rs))
    &&& counts(s.files_by_kind@, file_kinds_of(rs))
    &&& s.unknown_resources == unknown_total(rs)
    &&& s.unknown_ratio.numerator == unknown_total(rs)
    &&& s.unknown_ratio.denominator == rs.len()
}

/// The metadata and the inventories belong, one each and in order, to the
/// selected roots.
pub open spec fn roots_consistent(
    selected: Seq<Seq<char>>,
    metas: Seq<ProjectMetadataView>,
    invs: Seq<InventoryView>,
) -> bool {
    &&& metas.len() == selected.len()
    &&& invs.len() == selected.len()
    &&& forall|k: int|
        0 <= k < selected.len() ==> (#[trigger] metas[k]).project_root == selected[k]
            && invs[k].project_root == selected[k]
}

/// The details of the error for metadata or inventories that do not belong
/// to the selected roots.
pub open spec fn mismatch_details() -> Seq<char> {
    "project metadata and resource inventories do not match the selected project roots"@
}

/// The analytics bundle owed for an inspection, its metadata and its inventories.
pub open spec fn bundle_matches(
    b: AnalyticsBundle,
    archive_path: Seq<char>,
    generated_at: Seq<char>,
    inspection: ArchiveInspectionView,
    metas: Seq<ProjectMetadataView>,
    invs: Seq<InventoryView>,
) -> bool {
    let selected = inspection.selected_project_roots;
    &&& b.schema_version@ == "0.1.0"@
    &&& b.generated_at@ == generated_at
    &&& b.input.archive_path@ == archive_path
    &&& b.input.archive_kind@ == kind_label(inspection.archive_kind)
    &&& texts(b.input.detected_project_roots@) == inspection.detected_project_roots
    &&& texts(b.input.selected_project_roots@) == selected
    &&& b.projects@.len() == selected.len()
    &&& forall|k: int|
        0 <= k < selected.len() ==> project_analytics_matches(
            #[trigger] b.projects@[k],
            selected[k],
            metas[k],
            invs[k].resources,
        )
    &&& summary_matches(b.summary, selected.len(), all_resources_of(invs))
    &&& b.issues@.len() == 0
    &&& b.gateway_meta is None
}

/// A copy of optional text.
fn copy_opt(o: &Option<String>) -> (c: Option<String>)
    ensures
        crate::text::opt_text(c) == crate::text::opt_text(*o),
{
    match o {
        Some(s) => Some(s.clone()),
        None => None,
    }
}

/// A copy of project metadata.
fn copy_metadata(m: &ProjectMetadata) -> (c: ProjectMetadata)
    ensures
        c@ == m@,
{
    ProjectMetadata {
        project_root: m.project_root.clone(),
        title: m.title.clone(),
        description: copy_opt(&m.description),
        parent: copy_opt(&m.parent),
        enabled: m.enabled,
        inheritable: m.inheritable,
    }
}

/// Builds the analytics of an archive from its inspection, the metadata of
/// each selected project and the resource inventory of each, all in root order.
pub fn build_analytics_bundle(
    archive_path: &str,
    generated_at: &str,
    inspection: &ArchiveInspection,
    project_metadata: &Vec<ProjectMetadata>,
    resource_inventories: &Vec<ProjectResourceInventory>,
) -> (r: Result<AnalyticsBundle, AppError>)
    requires
        all_resources_of(inventory_views(resource_inventories@)).len() <= usize::MAX,
        file_kinds_of(all_resources_of(inventory_views(resource_inventories@))).len()
            <= usize::MAX,
    ensures
        ({
            let selected = texts(inspection.selected_project_roots@);
            let metas = metadata_views(project_metadata@);
            let invs = inventory_views(resource_inventories@);
            &&& roots_consistent(selected, metas, invs) <==> r is Ok
            &&& r matches Ok(b) ==> bundle_matches(
                b,
                archive_path@,
                generated_at@,
                inspection@,
                metas,
                invs,
            )
            &&& r matches Err(e) ==> e@ == AppErrorView::Internal { details: mismatch_details() }
        }),
{
    let ghost selected = texts(inspection.selected_project_roots@);
    let ghost metas = metadata_views(project_metadata@);
    let ghost invs = inventory_views(resource_inventories@);
    let n = inspection.selected_project_roots.len();
    let consistent = if project_metadata.len() != n || resource_inventories.len() != n {
        false
    } else {
        let mut k: usize = 0;
        let mut ok = true;
        while k < n
            invariant
                n == selected.len(),
                metas.len() == n,
                invs.len() == n,
                selected == texts(inspection.selected_project_roots@),
                metas == metadata_views(project_metadata@),
                invs == inventory_views(resource_inventories@),
                k <= n,
                ok == forall|j: int|
                    0 <= j < k ==> (#[trigger] metas[j]).project_root == selected[j]
                        && invs[j].project_root == selected[j],
            decreases n - k,
        {
            let root = inspection.selected_project_roots[k].as_str();
            let same = text_eq(project_metadata[k].project_root.as_str(), root) && text_eq(
                resource_inventories[k].project_root.as_str(),
                root,
            );
            assert(metas[k as int] == project_metadata@[k as int]@);
            assert(invs[k as int] == resource_inventories@[k as int]@);
            if !same {
                assert(!((metas[k as int]).project_root == selected[k as int]
                    && invs[k as int].project_root == selected[k as int]));
            }
            ok = ok && same;
            k = k + 1;
        }
        ok
    };
    if !consistent {
        return Err(AppError::internal(
            "project metadata and resource inventories do not match the selected project roots",
        ));
    }
    let mut total = empty_tally();
    let mut projects: Vec<ProjectAnalytics> = Vec::new();
    let mut k: usize = 0;
    assert(invs.take(0) =~= Seq::<InventoryView>::empty());
    assert(all_resources_of(invs.take(0)) =~= Seq::<ResourceView>::empty());
    while k < n
        invariant
            n == selected.len(),
            roots_consistent(selected, metas, invs),
            selected == texts(inspection.selected_project_roots@),
            metas == metadata_views(project_metadata@),
            invs == inventory_views(resource_inventories@),
            all_resources_of(invs).len() <= usize::MAX,
            file_kinds_of(all_resources_of(invs)).len() <= usize::MAX,
            k <= n,
            tally_matches(total, all_resources_of(invs.take(k as int))),
            projects@.len() == k,
            forall|j: int|
                0 <= j < k ==> project_analytics_matches(
                    #[trigger] projects@[j],
                    selected[j],
                    metas[j],
                    invs[j].resources,
                ),
        decreases n - k,
    {
        let inventory = &resource_inventories[k];
        let ghost rs = invs[k as int].resources;
        let ghost before = all_resources_of(invs.take(k as int));
        proof {
            assert(rs == resource_views(inventory.resources@));
            assert(invs.take(k + 1).drop_last() =~= invs.take(k as int));
            assert(invs.take(k + 1).last() == invs[k as int]);
            let upto = invs.take(k + 1);
            let rest = invs.skip(k + 1);
            assert(upto + rest =~= invs);
            lemma_all_resources_concat(upto, rest);
            lemma_file_kinds_concat(all_resources_of(upto), all_resources_of(rest));
            lemma_file_kinds_concat(before, rs);
            let empty = Seq::<ResourceView>::empty();
            assert(empty + rs =~= rs);
        }
        let mut t = empty_tally();
        proof {
            assert(Seq::<ResourceView>::empty() + rs =~= rs);
        }
        tally_resources(&mut t, &inventory.resources, Ghost(Seq::empty()));
        tally_resources(&mut total, &inventory.resources, Ghost(before));
        let ghost prev = projects@;
        let project = ProjectAnalytics {
            project_root: inspection.selected_project_roots[k].clone(),
            project: copy_metadata(&project_metadata[k]),
            counts: ProjectCounts {
                resources_total: t.resources_total,
                files_total: t.files_total,
                binary_only_resources: t.binary_only_resources,
                resources_by_section: t.by_section,
                resources_by_type: t.by_type,
                files_by_kind: t.by_kind,
            },
            coverage: CoverageMetrics {
                unknown_resources: t.unknown_resources,
                unknown_ratio: Ratio {
                    numerator: t.unknown_resources,
                    denominator: t.resources_total,
                },
            },
            issues: Vec::new(),
        };
        assert(metas[k as int] == project_metadata@[k as int]@);
        assert(selected[k as int] == inspection.selected_project_roots@[k as int]@);
        projects.push(project);
        proof {
            assert forall|j: int| 0 <= j < k + 1 implies project_analytics_matches(
                #[trigger] projects@[j],
                selected[j],
                metas[j],
                invs[j].resources,
            ) by {
                if j < k {
                    assert(projects@[j] == prev[j]);
                }
            }
        }
        k = k + 1;
    }
    assert(invs.take(n as int) =~= invs);
    let detected = inspection.detected_project_roots.clone();
    assert(texts(detected@) =~= texts(inspection.detected_project_roots@));
    let selected_copy = inspection.selected_project_roots.clone();
    assert(texts(selected_copy@) =~= texts(inspection.selected_project_roots@));
    let bundle = AnalyticsBundle {
        schema_version: String::from_str("0.1.0"),
        generated_at: String::from_str(generated_at),
        input: AnalyticsInput {
            archive_path: String::from_str(archive_path),
            archive_kind: String::from_str(inspection.archive_kind.as_str()),
            detected_project_roots: detected,
            selected_project_roots: selected_copy,
        },
        summary: AnalyticsSummary {
            projects_total: n,
            resources_total: total.resources_total,
            files_total: total.files_total,
            binary_only_resources: total.binary_only_resources,
            resources_by_section: total.by_section,
            resources_by_type: total.by_type,
            files_by_kind: total.by_kind,
            unknown_resources: total.unknown_resources,
            unknown_ratio: Ratio {
                numerator: total.unknown_resources,
                denominator: total.resources_total,
            },
        },
        projects,
        issues: Vec::new(),
        gateway_meta: None,
    };
    Ok(bundle)
}

/// The binary-only count of two lists one after the other is the sum of theirs.
proof fn lemma_binary_only_concat(a: Seq<ResourceView>, b: Seq<ResourceView>)
    ensures
        binary_only_total(a + b) == binary_only_total(a) + binary_only_total(b),
    decreases b.len(),
{
    if b.len() == 0 {
        assert(a + b =~= a);
    } else {
        lemma_binary_only_concat(a, b.drop_last());
        assert((a + b).drop_last() =~= a + b.drop_last());
        assert((a + b).last() == b.last());
    }
}

/// The unknown count of two lists one after the other is the sum of theirs.
proof fn lemma_unknown_concat(a: Seq<ResourceView>, b: Seq<ResourceView>)
    ensures
        unknown_total(a + b) == unknown_total(a) + unknown_total(b),
    decreases b.len(),
{
    if b.len() == 0 {
        assert(a + b =~= a);
    } else {
        lemma_unknown_concat(a, b.drop_last());
        assert((a + b).drop_last() =~= a + b.drop_last());
        assert((a + b).last() == b.last());
    }
}

/// The sum of the resource totals of the projects.
pub open spec fn projects_resources(ps: Seq<ProjectAnalytics>) -> nat
    decreases ps.len(),
{
    if ps.len() == 0 {
        0
    } else {
        projects_resources(ps.drop_last()) + (ps.last().counts.resources_total as nat)
    }
}

/// The sum of the file totals of the projects.
pub open spec fn projects_files(ps: Seq<ProjectAnalytics>) -> nat
    decreases ps.len(),
{
    if ps.len() == 0 {
        0
    } else {
        projects_files(ps.drop_last()) + (ps.last().counts.files_total as nat)
    }
}

/// The sum of the binary-only totals of the projects.
pub open spec fn projects_binary_only(ps: Seq<ProjectAnalytics>) -> nat
    decreases ps.len(),
{
    if ps.len() == 0 {
        0
    } else {
        projects_binary_only(ps.drop_last()) + (ps.last().counts.binary_only_resources as nat)
    }
}

/// The sum of the unknown-resource totals of the projects.
pub open spec fn projects_unknown(ps: Seq<ProjectAnalytics>) -> nat
    decreases ps.len(),
{
    if ps.len() == 0 {
        0
    } else {
        projects_unknown(ps.drop_last()) + (ps.last().coverage.unknown_resources as nat)
    }
}

/// The sums over the first `k` projects are the totals of their resources.
proof fn lemma_prefix_sums(
    b: AnalyticsBundle,
    selected: Seq<Seq<char>>,
    metas: Seq<ProjectMetadataView>,
    invs: Seq<InventoryView>,
    k: int,
)
    requires
        roots_consistent(selected, metas, invs),
        b.projects@.len() == selected.len(),
        forall|j: int|
            0 <= j < selected.len() ==> project_analytics_matches(
                #[trigger] b.projects@[j],
                selected[j],
                metas[j],
                invs[j].resources,
            ),
        0 <= k <= selected.len(),
    ensures
        projects_resources(b.projects@.take(k)) == all_resources_of(invs.take(k)).len(),
        projects_files(b.projects@.take(k)) == file_kinds_of(all_resources_of(invs.take(k))).len(),
        projects_binary_only(b.projects@.take(k)) == binary_only_total(
            all_resources_of(invs.take(k)),
        ),
        projects_unknown(b.projects@.take(k)) == unknown_total(all_resources_of(invs.take(k))),
    decreases k,
{
    let ps = b.projects@;
    if k == 0 {
        assert(ps.take(0) =~= Seq::<ProjectAnalytics>::empty());
        assert(invs.take(0) =~= Seq::<InventoryView>::empty());
    } else {
        lemma_prefix_sums(b, selected, metas, invs, k - 1);
        assert(ps.take(k).drop_last() =~= ps.take(k - 1));
        assert(ps.take(k).last() == ps[k - 1]);
        assert(invs.take(k).drop_last() =~= invs.take(k - 1));
        assert(invs.take(k).last() == invs[k - 1]);
        let before = all_resources_of(invs.take(k - 1));
        let rs = invs[k - 1].resources;
        assert(project_analytics_matches(ps[k - 1], selected[k - 1], metas[k - 1], rs));
        lemma_file_kinds_concat(before, rs);
        lemma_binary_only_concat(before, rs);
        lemma_unknown_concat(before, rs);
    }
}

/// The summary adds up the projects: its resource, file, binary-only and
/// unknown totals are the sums of the per-project ones.
pub proof fn lemma_summary_adds_up(
    b: AnalyticsBundle,
    archive_path: Seq<char>,
    generated_at: Seq<char>,
    inspection: ArchiveInspectionView,
    metas: Seq<ProjectMetadataView>,
    invs: Seq<InventoryView>,
)
    requires
        roots_consistent(inspection.selected_project_roots, metas, invs),
        bundle_matches(b, archive_path, generated_at, inspection, metas, invs),
    ensures
        b.summary.projects_total == b.projects@.len(),
        b.summary.resources_total == projects_resources(b.projects@),
        b.summary.files_total == projects_files(b.projects@),
        b.summary.binary_only_resources == projects_binary_only(b.projects@),
        b.summary.unknown_resources == projects_unknown(b.projects@),
{
    let n = inspection.selected_project_roots.len() as int;
    lemma_prefix_sums(b, inspection.selected_project_roots, metas, invs, n);
    assert(b.projects@.take(n) =~= b.projects@);
    assert(invs.take(n) =~= invs);
}

proof fn lemma_type_occurrences(rs: Seq<ResourceView>, t: Seq<char>)
    ensures
        occurrences(types_of(rs), t) == rs.filter(|r: ResourceView| r.type_key == t).len(),
    decreases rs.len(),
{
    reveal(Seq::filter);
    if rs.len() > 0 {
        lemma_type_occurrences(rs.drop_last(), t);
        assert(types_of(rs).drop_last() =~= types_of(rs.drop_last()));
    }
}

proof fn lemma_section_occurrences(rs: Seq<ResourceView>, t: Seq<char>)
    ensures
        occurrences(sections_of(rs), t) == rs.filter(|r: ResourceView| r.section == t).len(),
    decreases rs.len(),
{
    reveal(Seq::filter);
    if rs.len() > 0 {
        lemma_section_occurrences(rs.drop_last(), t);
        assert(sections_of(rs).drop_last() =~= sections_of(rs.drop_last()));
    }
}

/// A count list has an entry for the key `t`.
pub open spec fn lists_key(m: Seq<(String, usize)>, t: Seq<char>) -> bool {
    exists|i: int| 0 <= i < m.len() && #[trigger] m[i].0@ == t
}

/// What `counts` says of a list of keys drawn from resources, in terms of
/// the resources: a key is listed exactly when a key of some resource equals it.
proof fn lemma_counted_keys(m: Seq<(String, usize)>, keys: Seq<Seq<char>>, t: Seq<char>)
    requires
        counts(m, keys),
    ensures
        lists_key(m, t) <==> keys.contains(t),
{
    if lists_key(m, t) {
        let i = choose|i: int| 0 <= i < m.len() && #[trigger] m[i].0@ == t;
        assert(m[i].1 > 0);
        lemma_occurrences_positive(keys, t);
    }
    if keys.contains(t) {
        assert(count_keys(m).contains(t));
        let i = choose|i: int| 0 <= i < count_keys(m).len() && count_keys(m)[i] == t;
        assert(m[i].0@ == t);
    }
}

/// Each project counts the sections and the type keys of its own resources,
/// each independently of the other: a type key (a section) is listed exactly
/// when some resource of the project has it, and its count is the number of
/// the project's resources that have it.
pub proof fn lemma_project_key_counts(
    b: AnalyticsBundle,
    archive_path: Seq<char>,
    generated_at: Seq<char>,
    inspection: ArchiveInspectionView,
    metas: Seq<ProjectMetadataView>,
    invs: Seq<InventoryView>,
    k: int,
)
    requires
        bundle_matches(b, archive_path, generated_at, inspection, metas, invs),
        0 <= k < inspection.selected_project_roots.len(),
    ensures
        ({
            let by_type = b.projects@[k].counts.resources_by_type@;
            let by_section = b.projects@[k].counts.resources_by_section@;
            let rs = invs[k].resources;
            &&& forall|t: Seq<char>|
                #[trigger] lists_key(by_type, t) <==> (exists|j: int|
                    0 <= j < rs.len() && #[trigger] rs[j].type_key == t)
            &&& forall|i: int|
                0 <= i < by_type.len() ==> (#[trigger] by_type[i]).1 == rs.filter(
                    |r: ResourceView| r.type_key == by_type[i].0@,
                ).len()
            &&& forall|t: Seq<char>|
                #[trigger] lists_key(by_section, t) <==> (exists|j: int|
                    0 <= j < rs.len() && #[trigger] rs[j].section == t)
            &&& forall|i: int|
                0 <= i < by_section.len() ==> (#[trigger] by_section[i]).1 == rs.filter(
                    |r: ResourceView| r.section == by_section[i].0@,
                ).len()
        }),
{
    let c = b.projects@[k].counts;
    let rs = invs[k].resources;
    assert(project_analytics_matches(
        b.projects@[k],
        inspection.selected_project_roots[k],
        metas[k],
        rs,
    ));
    let by_type = c.resources_by_type@;
    let by_section = c.resources_by_section@;
    assert forall|t: Seq<char>|
        #[trigger] lists_key(by_type, t) <==> (exists|j: int|
            0 <= j < rs.len() && #[trigger] rs[j].type_key == t) by {
        lemma_counted_keys(by_type, types_of(rs), t);
        if types_of(rs).contains(t) {
            let j = choose|j: int| 0 <= j < types_of(rs).len() && types_of(rs)[j] == t;
            assert(rs[j].type_key == t);
        }
        if exists|j: int| 0 <= j < rs.len() && #[trigger] rs[j].type_key == t {
            let j = choose|j: int| 0 <= j < rs.len() && #[trigger] rs[j].type_key == t;
            assert(types_of(rs)[j] == t);
        }
    }
    assert forall|i: int| 0 <= i < by_type.len() implies (#[trigger] by_type[i]).1 == rs.filter(
        |r: ResourceView| r.type_key == by_type[i].0@,
    ).len() by {
        lemma_type_occurrences(rs, by_type[i].0@);
    }
    assert forall|t: Seq<char>|
        #[trigger] lists_key(by_section, t) <==> (exists|j: int|
            0 <= j < rs.len() && #[trigger] rs[j].section == t) by {
        lemma_counted_keys(by_section, sections_of(rs), t);
        if sections_of(rs).contains(t) {
            let j = choose|j: int| 0 <= j < sections_of(rs).len() && sections_of(rs)[j] == t;
            assert(rs[j].section == t);
        }
        if exists|j: int| 0 <= j < rs.len() && #[trigger] rs[j].section == t {
            let j = choose|j: int| 0 <= j < rs.len() && #[trigger] rs[j].section == t;
            assert(sections_of(rs)[j] == t);
        }
    }
    assert forall|i: int| 0 <= i < by_section.len() implies (#[trigger] by_section[i]).1
        == rs.filter(|r: ResourceView| r.section == by_section[i].0@).len() by {
        lemma_section_occurrences(rs, by_section[i].0@);
    }
}

} // verus!
