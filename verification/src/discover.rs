//! Resource discovery: every `resource.json` under a project root becomes one
//! validated resource record, and records are listed in a fixed order.
use std::io::Cursor;
use vstd::prelude::*;
use zip::ZipArchive;
use crate::error::{AppError, AppErrorView};
use crate::json::{lemma_resource_outcome_unique, parse_resource, resource_outcome, resource_view};
use crate::resource::{
    bad_manifest_path_details, binary_only_of, build_resource_files, declared_missing,
    lemma_resource_files_exist,
    file_views, is_binary_only_resource, is_resource_json_for, is_resource_json_for_root,
    missing_file_details, resource_files_of, resource_folder_of, resource_path_for_project_root,
    resource_path_of, resource_views, inventory_views, InventoryView, ProjectResourceInventory, Resource,
    ResourceFileView, ResourceView,
};
use crate::sorted::{enumerates, lemma_enumeration_unique};
use crate::text::{
    compare_text, lemma_text_lt_irreflexive, lemma_text_lt_total, lemma_text_lt_transitive,
    strictly_sorted, text_lt, texts, TextOrder,
};
use crate::zipread::{
    listing_fails, listing_matches, listing_view, list_archive_entries, listed_names,
    member_read_details, open_archive, read_member, zip_entry_count, zip_member_content,
    zip_source,
};

verus! {

/// The `resource.json` entries under a project root, in entry order.
pub open spec fn resource_candidates(entries: Seq<Seq<char>>, root: Seq<char>) -> Seq<Seq<char>>
    decreases entries.len(),
{
    if entries.len() == 0 {
        entries
    } else if is_resource_json_for(entries.last(), root) {
        resource_candidates(entries.drop_last(), root).push(entries.last())
    } else {
        resource_candidates(entries.drop_last(), root)
    }
}

/// Every candidate is one of the entries.
pub proof fn lemma_candidates_are_entries(entries: Seq<Seq<char>>, root: Seq<char>, k: int)
    requires
        0 <= k < resource_candidates(entries, root).len(),
    ensures
        entries.contains(resource_candidates(entries, root)[k]),
        is_resource_json_for(resource_candidates(entries, root)[k], root),
    decreases entries.len(),
{
    if entries.len() > 0 {
        let rest = entries.drop_last();
        let c = resource_candidates(rest, root);
        if k < c.len() {
            lemma_candidates_are_entries(rest, root, k);
            let j = choose|j: int| 0 <= j < rest.len() && rest[j] == c[k];
            assert(entries[j] == rest[j]);
        } else {
            assert(entries[entries.len() - 1] == entries.last());
        }
    }
}

/// The file list owed for a manifest declaring `declared`: the first declared
/// file missing from the entries is an error, else the ordered file list.
pub open spec fn files_outcome(
    archive_path: Seq<char>,
    json_path: Seq<char>,
    declared: Seq<Seq<char>>,
    entries: Seq<Seq<char>>,
) -> Result<Seq<ResourceFileView>, AppErrorView> {
    match resource_folder_of(json_path) {
        None => Err(AppErrorView::Internal { details: bad_manifest_path_details(json_path) }),
        Some(folder) => if exists|k: int|
            0 <= k < declared.len() && #[trigger] declared_missing(folder, declared, entries, k) {
            let k = choose|k: int|
                0 <= k < declared.len() && #[trigger] declared_missing(folder, declared, entries, k)
                    && forall|j: int| 0 <= j < k ==> !declared_missing(folder, declared, entries, j);
            Err(
                AppErrorView::ResourceIntegrity {
                    details: missing_file_details(archive_path, json_path, declared[k]),
                },
            )
        } else {
            Ok(resource_files_of(json_path, folder, declared, entries))
        },
    }
}

/// The resource record of a valid manifest.
pub open spec fn resource_record(
    root: Seq<char>,
    json_path: Seq<char>,
    files: Seq<ResourceFileView>,
    attributes: Seq<(Seq<char>, Seq<char>)>,
) -> ResourceView {
    ResourceView {
        section: "Other"@,
        type_key: "unknown"@,
        path: resource_path_of(json_path, root),
        resource_json_path: json_path,
        binary_only: binary_only_of(files),
        attributes,
        files,
    }
}

/// The outcome owed for one manifest of the archive in `bytes`: read it,
/// validate it, check its declared files, and build its record.
pub open spec fn manifest_matches(
    archive_path: Seq<char>,
    root: Seq<char>,
    entries: Seq<Seq<char>>,
    bytes: Seq<u8>,
    json_path: Seq<char>,
    r: Result<ResourceView, AppErrorView>,
) -> bool {
    match zip_member_content(bytes, json_path) {
        None => r == Err::<ResourceView, AppErrorView>(
            AppErrorView::ArchiveRead {
                archive_path,
                details: member_read_details(bytes, json_path),
            },
        ),
        Some(manifest) => exists|pr: Result<(Seq<Seq<char>>, Seq<(Seq<char>, Seq<char>)>), AppErrorView>|
            #[trigger] resource_outcome(archive_path, json_path, manifest, pr) && parsed_matches(
                archive_path,
                root,
                entries,
                json_path,
                pr,
                r,
            ),
    }
}

/// The outcome owed for a manifest once validated (`pr`): its error, else
/// the outcome of checking its declared files, else its record.
pub open spec fn parsed_matches(
    archive_path: Seq<char>,
    root: Seq<char>,
    entries: Seq<Seq<char>>,
    json_path: Seq<char>,
    pr: Result<(Seq<Seq<char>>, Seq<(Seq<char>, Seq<char>)>), AppErrorView>,
    r: Result<ResourceView, AppErrorView>,
) -> bool {
    match pr {
        Err(e) => r == Err::<ResourceView, AppErrorView>(e),
        Ok(parsed) => match files_outcome(archive_path, json_path, parsed.0, entries) {
            Err(e) => r == Err::<ResourceView, AppErrorView>(e),
            Ok(files) => r == Ok::<ResourceView, AppErrorView>(
                resource_record(root, json_path, files, parsed.1),
            ),
        },
    }
}

/// The manifest gives a record.
pub open spec fn manifest_ok(
    archive_path: Seq<char>,
    root: Seq<char>,
    entries: Seq<Seq<char>>,
    bytes: Seq<u8>,
    json_path: Seq<char>,
) -> bool {
    exists|x: ResourceView|
        #[trigger] manifest_matches(
            archive_path,
            root,
            entries,
            bytes,
            json_path,
            Ok::<ResourceView, AppErrorView>(x),
        )
}

/// The view of one build result.
pub open spec fn build_view(r: Result<Resource, AppError>) -> Result<ResourceView, AppErrorView> {
    match r {
        Ok(v) => Ok(v@),
        Err(e) => Err(e@),
    }
}

/// Reads, validates and records the resource of one manifest.
fn build_resource(
    archive: &mut ZipArchive<Cursor<Vec<u8>>>,
    archive_path: &str,
    project_root: &str,
    resource_json_path: &str,
    entries: &Vec<String>,
) -> (r: Result<Resource, AppError>)
    requires
        strictly_sorted(texts(entries@)),
    ensures
        zip_source(*final(archive)) == zip_source(*old(archive)),
        manifest_matches(
            archive_path@,
            project_root@,
            texts(entries@),
            zip_source(*old(archive)),
            resource_json_path@,
            build_view(r),
        ),
{
    let ghost bytes = zip_source(*archive);
    let manifest = match read_member(archive, archive_path, resource_json_path) {
        Ok(m) => m,
        Err(e) => {
            return Err(e);
        },
    };
    assert(zip_member_content(bytes, resource_json_path@)->0 == manifest@);
    let raw = parse_resource(archive_path, resource_json_path, manifest.as_slice());
    let ghost pr = resource_view(raw);
    let raw = match raw {
        Ok(raw) => raw,
        Err(e) => {
            assert(resource_outcome(archive_path@, resource_json_path@, manifest@, pr));
            return Err(e);
        },
    };
    let files = build_resource_files(archive_path, resource_json_path, &raw.files, entries);
    let ghost declared = texts(raw.files@);
    let ghost fo = files_outcome(archive_path@, resource_json_path@, declared, texts(entries@));
    let files = match files {
        Ok(files) => files,
        Err(e) => {
            assert(fo == Err::<Seq<ResourceFileView>, AppErrorView>(e@));
            assert(resource_outcome(archive_path@, resource_json_path@, manifest@, pr));
            return Err(e);
        },
    };
    assert(fo == Ok::<Seq<ResourceFileView>, AppErrorView>(file_views(files@)));
    let path = resource_path_for_project_root(resource_json_path, project_root);
    let binary_only = is_binary_only_resource(&files);
    let resource = Resource {
        section: String::from_str("Other"),
        type_key: String::from_str("unknown"),
        path,
        resource_json_path: String::from_str(resource_json_path),
        binary_only,
        attributes: raw.attributes,
        files,
    };
    assert(resource_outcome(archive_path@, resource_json_path@, manifest@, pr));
    Ok(resource)
}

/// The sort key of a resource: section, then path, then manifest path.
pub open spec fn key_lt(a: ResourceView, b: ResourceView) -> bool {
    ||| text_lt(a.section, b.section)
    ||| (a.section == b.section && text_lt(a.path, b.path))
    ||| (a.section == b.section && a.path == b.path && text_lt(
        a.resource_json_path,
        b.resource_json_path,
    ))
}

/// Resources in strictly increasing key order.
pub open spec fn key_sorted(s: Seq<ResourceView>) -> bool {
    forall|i: int, j: int| 0 <= i < j < s.len() ==> key_lt(#[trigger] s[i], #[trigger] s[j])
}

proof fn lemma_key_lt_transitive(a: ResourceView, b: ResourceView, c: ResourceView)
    requires
        key_lt(a, b),
        key_lt(b, c),
    ensures
        key_lt(a, c),
{
    lemma_text_lt_irreflexive(a.section);
    lemma_text_lt_irreflexive(b.section);
    lemma_text_lt_irreflexive(a.path);
    lemma_text_lt_irreflexive(b.path);
    if text_lt(a.section, b.section) && text_lt(b.section, c.section) {
        lemma_text_lt_transitive(a.section, b.section, c.section);
    }
    if a.section == b.section && b.section == c.section {
        if text_lt(a.path, b.path) && text_lt(b.path, c.path) {
            lemma_text_lt_transitive(a.path, b.path, c.path);
        }
        if a.path == b.path && b.path == c.path {
            lemma_text_lt_transitive(a.resource_json_path, b.resource_json_path, c.resource_json_path);
        }
    }
}

proof fn lemma_key_lt_irreflexive(a: ResourceView)
    ensures
        !key_lt(a, a),
{
    lemma_text_lt_irreflexive(a.section);
    lemma_text_lt_irreflexive(a.path);
    lemma_text_lt_irreflexive(a.resource_json_path);
}

/// Compares the sort keys of two resources.
fn compare_keys(a: &Resource, b: &Resource) -> (r: TextOrder)
    ensures
        (r == TextOrder::Less) == key_lt(a@, b@),
        (r == TextOrder::Greater) == key_lt(b@, a@),
        (r == TextOrder::Equal) == (a.section@ == b.section@ && a.path@ == b.path@
            && a.resource_json_path@ == b.resource_json_path@),
{
    proof {
        lemma_text_lt_total(a.section@, b.section@);
        lemma_text_lt_total(a.path@, b.path@);
        lemma_text_lt_total(a.resource_json_path@, b.resource_json_path@);
    }
    match compare_text(a.section.as_str(), b.section.as_str()) {
        TextOrder::Equal => {},
        other => return other,
    }
    match compare_text(a.path.as_str(), b.path.as_str()) {
        TextOrder::Equal => {},
        other => return other,
    }
    compare_text(a.resource_json_path.as_str(), b.resource_json_path.as_str())
}

/// Inserts a resource whose manifest path is new into a key-sorted list.
fn insert_by_key(v: &mut Vec<Resource>, r: Resource)
    requires
        key_sorted(resource_views(old(v)@)),
        forall|i: int|
            0 <= i < old(v)@.len() ==> (#[trigger] old(v)@[i]).resource_json_path@
                != r.resource_json_path@,
    ensures
        key_sorted(resource_views(final(v)@)),
        forall|x: ResourceView| #[trigger]
            resource_views(final(v)@).contains(x) <==> (resource_views(old(v)@).contains(x) || x
                == r@),
{
    let ghost old_t = resource_views(v@);
    let ghost rv = r@;
    let mut lo: usize = 0;
    let mut hi: usize = v.len();
    while lo < hi
        invariant
            resource_views(v@) == old_t,
            key_sorted(old_t),
            rv == r@,
            old_t.len() == v@.len(),
            forall|i: int| 0 <= i < v@.len() ==> (#[trigger] v@[i]).resource_json_path@
                != r.resource_json_path@,
            0 <= lo <= hi <= v@.len(),
            forall|k: int| 0 <= k < lo ==> key_lt(#[trigger] old_t[k], rv),
            forall|k: int| hi <= k < v@.len() ==> key_lt(rv, #[trigger] old_t[k]),
        decreases hi - lo,
    {
        let mid = lo + (hi - lo) / 2;
        assert(old_t[mid as int] == v@[mid as int]@);
        match compare_keys(&v[mid], &r) {
            TextOrder::Equal => {
                assert(v@[mid as int].resource_json_path@ != r.resource_json_path@);
                assert(false);
            },
            TextOrder::Less => {
                assert forall|k: int| 0 <= k < mid + 1 implies key_lt(#[trigger] old_t[k], rv) by {
                    if k < mid {
                        lemma_key_lt_transitive(old_t[k], old_t[mid as int], rv);
                    }
                }
                lo = mid + 1;
            },
            TextOrder::Greater => {
                assert forall|k: int| mid <= k < v@.len() implies key_lt(rv, #[trigger] old_t[k]) by {
                    if k > mid {
                        lemma_key_lt_transitive(rv, old_t[mid as int], old_t[k]);
                    }
                }
                hi = mid;
            },
        }
    }
    v.insert(lo, r);
    let ghost new_t = resource_views(v@);
    assert(new_t =~= old_t.insert(lo as int, rv));
    assert forall|i: int, j: int| 0 <= i < j < new_t.len() implies key_lt(
        #[trigger] new_t[i],
        #[trigger] new_t[j],
    ) by {
        if j < lo {
        } else if j == lo {
            assert(new_t[i] == old_t[i]);
        } else if i == lo {
            assert(new_t[j] == old_t[j - 1]);
        } else if i < lo {
            assert(new_t[j] == old_t[j - 1]);
            lemma_key_lt_transitive(old_t[i], rv, old_t[j - 1]);
        } else {
            assert(new_t[i] == old_t[i - 1]);
            assert(new_t[j] == old_t[j - 1]);
        }
    }
    assert forall|x: ResourceView| #[trigger] new_t.contains(x) <==> (old_t.contains(x) || x == rv) by {
        if new_t.contains(x) {
            let k = choose|k: int| 0 <= k < new_t.len() && new_t[k] == x;
            if k < lo {
                assert(old_t[k] == x);
            } else if k > lo {
                assert(old_t[k - 1] == x);
            }
        }
        if old_t.contains(x) {
            let k = choose|k: int| 0 <= k < old_t.len() && old_t[k] == x;
            if k < lo {
                assert(new_t[k] == x);
            } else {
                assert(new_t[k + 1] == x);
            }
        }
        if x == rv {
            assert(new_t[lo as int] == x);
        }
    }
}

/// The outcome owed by discovering the resources of one root: the first
/// manifest (in entry order) that fails gives the error; otherwise every
/// manifest gives one record, and the records come in key order.
pub open spec fn discovery_matches(
    archive_path: Seq<char>,
    root: Seq<char>,
    entries: Seq<Seq<char>>,
    bytes: Seq<u8>,
    r: Result<Seq<ResourceView>, AppErrorView>,
) -> bool {
    let cands = resource_candidates(entries, root);
    match r {
        Ok(v) => exists|built: Seq<ResourceView>|
            #![trigger built.len()]
            built.len() == cands.len() && (forall|k: int|
                0 <= k < cands.len() ==> manifest_matches(
                    archive_path,
                    root,
                    entries,
                    bytes,
                    cands[k],
                    Ok::<ResourceView, AppErrorView>(#[trigger] built[k]),
                )) && key_sorted(v) && (forall|x: ResourceView| #[trigger]
                v.contains(x) <==> built.contains(x)),
        Err(e) => exists|k: int|
            0 <= k < cands.len() && (forall|j: int|
                0 <= j < k ==> #[trigger] manifest_ok(archive_path, root, entries, bytes, cands[j]))
                && #[trigger] manifest_matches(
                archive_path,
                root,
                entries,
                bytes,
                cands[k],
                Err(e),
            ),
    }
}

/// The view of a discovery result.
pub open spec fn discovery_view(r: Result<Vec<Resource>, AppError>) -> Result<
    Seq<ResourceView>,
    AppErrorView,
> {
    match r {
        Ok(v) => Ok(resource_views(v@)),
        Err(e) => Err(e@),
    }
}

/// Discovers and validates root-scoped resources from an opened archive.
fn discover_resources_for_root_in_archive(
    archive: &mut ZipArchive<Cursor<Vec<u8>>>,
    archive_path: &str,
    project_root: &str,
    entries: &Vec<String>,
) -> (r: Result<Vec<Resource>, AppError>)
    requires
        strictly_sorted(texts(entries@)),
    ensures
        zip_source(*final(archive)) == zip_source(*old(archive)),
        discovery_matches(
            archive_path@,
            project_root@,
            texts(entries@),
            zip_source(*old(archive)),
            discovery_view(r),
        ),
{
    let ghost bytes = zip_source(*archive);
    let ghost es = texts(entries@);
    let ghost root = project_root@;
    let ghost mut built: Seq<ResourceView> = Seq::empty();
    let mut resources: Vec<Resource> = Vec::new();
    let mut i: usize = 0;
    assert(es.take(0) =~= Seq::<Seq<char>>::empty());
    while i < entries.len()
        invariant
            es == texts(entries@),
            strictly_sorted(es),
            root == project_root@,
            zip_source(*archive) == bytes,
            zip_source(*old(archive)) == bytes,
            i <= es.len(),
            built.len() == resource_candidates(es.take(i as int), root).len(),
            forall|k: int|
                0 <= k < built.len() ==> manifest_matches(
                    archive_path@,
                    root,
                    es,
                    bytes,
                    resource_candidates(es.take(i as int), root)[k],
                    Ok::<ResourceView, AppErrorView>(#[trigger] built[k]),
                ),
            forall|k: int|
                0 <= k < built.len() ==> (#[trigger] built[k]).resource_json_path
                    == resource_candidates(es.take(i as int), root)[k],
            key_sorted(resource_views(resources@)),
            forall|x: ResourceView| #[trigger]
                resource_views(resources@).contains(x) <==> built.contains(x),
        decreases es.len() - i,
    {
        let ghost cands = resource_candidates(es.take(i as int), root);
        assert(es.take(i + 1).drop_last() =~= es.take(i as int));
        assert(es.take(i + 1).last() == es[i as int]);
        if is_resource_json_for_root(entries[i].as_str(), project_root) {
            let ghost json = es[i as int];
            assert(resource_candidates(es.take(i + 1), root) == cands.push(json));
            let made = build_resource(archive, archive_path, project_root, entries[i].as_str(), entries);
            match made {
                Err(e) => {
                    proof {
                        let k = cands.len() as int;
                        let c1 = cands.push(json);
                        assert(c1[k] == json);
                        assert forall|j: int| 0 <= j < k implies #[trigger] manifest_ok(
                            archive_path@,
                            root,
                            es,
                            bytes,
                            c1[j],
                        ) by {
                            assert(c1[j] == cands[j]);
                            assert(manifest_matches(
                                archive_path@,
                                root,
                                es,
                                bytes,
                                cands[j],
                                Ok::<ResourceView, AppErrorView>(built[j]),
                            ));
                        }
                        lemma_candidates_prefix(es, root, i + 1);
                        let all = resource_candidates(es, root);
                        assert(all[k] == json);
                        assert forall|j: int| 0 <= j < k implies #[trigger] manifest_ok(
                            archive_path@,
                            root,
                            es,
                            bytes,
                            all[j],
                        ) by {
                            assert(all[j] == c1[j]);
                            assert(manifest_ok(archive_path@, root, es, bytes, c1[j]));
                        }
                        assert(manifest_matches(archive_path@, root, es, bytes, all[k], Err(e@)));
                    }
                    return Err(e);
                },
                Ok(resource) => {
                    let ghost rv = resource@;
                    proof {
                        assert forall|k: int| 0 <= k < resources@.len() implies (
                        #[trigger] resources@[k]).resource_json_path@ != resource.resource_json_path@ by {
                            assert(resource_views(resources@)[k] == resources@[k]@);
                            assert(resource_views(resources@).contains(resources@[k]@));
                            assert(built.contains(resources@[k]@));
                            let m = choose|m: int| 0 <= m < built.len() && built[m] == resources@[k]@;
                            lemma_candidates_are_entries(es.take(i as int), root, m);
                            let t = cands[m];
                            let j = choose|j: int| 0 <= j < es.take(i as int).len() && es.take(i as int)[j] == t;
                            assert(es[j] == t);
                            assert(text_lt(es[j], es[i as int]));
                            lemma_text_lt_irreflexive(es[i as int]);
                        }
                    }
                    let ghost before = resource_views(resources@);
                    insert_by_key(&mut resources, resource);
                    proof {
                        let nb = built.push(rv);
                        assert(forall|x: ResourceView| #[trigger] before.contains(x) <==> built.contains(x));
                        assert forall|x: ResourceView| #[trigger]
                            resource_views(resources@).contains(x) <==> nb.contains(x) by {
                            if built.contains(x) {
                                let m = choose|m: int| 0 <= m < built.len() && built[m] == x;
                                assert(nb[m] == x);
                            }
                            if x == rv {
                                assert(nb[built.len() as int] == x);
                            }
                            if nb.contains(x) {
                                let m = choose|m: int| 0 <= m < nb.len() && nb[m] == x;
                                if m < built.len() {
                                    assert(built[m] == x);
                                }
                            }
                        }
                        built = nb;
                    }
                },
            }
        } else {
            assert(resource_candidates(es.take(i + 1), root) == cands);
        }
        i = i + 1;
    }
    proof {
        assert(es.take(es.len() as int) =~= es);
    }
    Ok(resources)
}

/// Discovering the resources of one root succeeds.
pub open spec fn discovery_ok(
    archive_path: Seq<char>,
    root: Seq<char>,
    entries: Seq<Seq<char>>,
    bytes: Seq<u8>,
) -> bool {
    exists|v: Seq<ResourceView>|
        #[trigger] discovery_matches(
            archive_path,
            root,
            entries,
            bytes,
            Ok::<Seq<ResourceView>, AppErrorView>(v),
        )
}

/// The view of the result of discovering the resources of several roots.
pub open spec fn inventories_view(r: Result<Vec<ProjectResourceInventory>, AppError>) -> Result<
    Seq<InventoryView>,
    AppErrorView,
> {
    match r {
        Ok(v) => Ok(inventory_views(v@)),
        Err(e) => Err(e@),
    }
}

/// The outcome owed by discovering the resources of each selected root of
/// the archive in `bytes`: the listing's error; else, over the listed names,
/// one inventory per root in root order, or the error of the first root
/// whose discovery fails.
pub open spec fn inventories_match(
    archive_path: Seq<char>,
    bytes: Seq<u8>,
    roots: Seq<Seq<char>>,
    r: Result<Seq<InventoryView>, AppErrorView>,
) -> bool {
    if listing_fails(bytes) {
        r is Err && listing_matches(archive_path, bytes, Err(r->Err_0))
    } else {
        exists|names: Seq<Seq<char>>|
            #[trigger] enumerates(names, listed_names(bytes, zip_entry_count(bytes) as int))
                && inventories_over(archive_path, bytes, roots, names, r)
    }
}

/// Discovers and validates resources for all selected project roots of the
/// archive held in `archive_bytes`, one inventory per root in root order.
///
/// A resource exists only where `<folder>/resource.json` exists; its
/// `files` must be an array of non-empty strings; every declared file must
/// exist in the archive; an undeclared `data.bin` is appended once at the end.
pub fn discover_resources_for_roots(
    archive_path: &str,
    archive_bytes: &[u8],
    selected_project_roots: &Vec<String>,
) -> (r: Result<Vec<ProjectResourceInventory>, AppError>)
    ensures
        inventories_match(
            archive_path@,
            archive_bytes@,
            texts(selected_project_roots@),
            inventories_view(r),
        ),
{
    let ghost bytes = archive_bytes@;
    let ghost roots = texts(selected_project_roots@);
    let entries = match list_archive_entries(archive_path, archive_bytes) {
        Ok(entries) => entries,
        Err(e) => {
            assert(listing_view(Err(e)) == Err::<Seq<Seq<char>>, AppErrorView>(e@));
            return Err(e);
        },
    };
    let ghost names = texts(entries@);
    assert(enumerates(names, listed_names(bytes, zip_entry_count(bytes) as int)));
    let mut archive = match open_archive(archive_path, archive_bytes) {
        Ok(a) => a,
        Err(e) => {
            assert(false);
            return Err(e);
        },
    };
    let mut inventories: Vec<ProjectResourceInventory> = Vec::new();
    let mut k: usize = 0;
    while k < selected_project_roots.len()
        invariant
            bytes == archive_bytes@,
            roots == texts(selected_project_roots@),
            names == texts(entries@),
            strictly_sorted(names),
            !listing_fails(bytes),
            enumerates(names, listed_names(bytes, zip_entry_count(bytes) as int)),
            zip_source(archive) == bytes,
            k <= selected_project_roots.len(),
            inventories@.len() == k,
            forall|j: int|
                0 <= j < k ==> (#[trigger] inventory_views(inventories@)[j]).project_root
                    == roots[j] && discovery_matches(
                    archive_path@,
                    roots[j],
                    names,
                    bytes,
                    Ok::<Seq<ResourceView>, AppErrorView>(inventory_views(inventories@)[j].resources),
                ),
        decreases selected_project_roots.len() - k,
    {
        let root = &selected_project_roots[k];
        let found = discover_resources_for_root_in_archive(
            &mut archive,
            archive_path,
            root.as_str(),
            &entries,
        );
        let resources = match found {
            Ok(resources) => resources,
            Err(e) => {
                proof {
                    assert forall|j: int| 0 <= j < k implies #[trigger] discovery_ok(
                        archive_path@,
                        roots[j],
                        names,
                        bytes,
                    ) by {
                        assert(discovery_matches(
                            archive_path@,
                            roots[j],
                            names,
                            bytes,
                            Ok::<Seq<ResourceView>, AppErrorView>(inventory_views(inventories@)[j].resources),
                        ));
                    }
                    assert(roots[k as int] == root@);
                    assert(discovery_matches(archive_path@, roots[k as int], names, bytes, Err(e@)));
                    assert(inventories_view(Err(e)) == Err::<Seq<InventoryView>, AppErrorView>(e@));
                }
                return Err(e);
            },
        };
        let ghost prev = inventory_views(inventories@);
        inventories.push(ProjectResourceInventory { project_root: root.clone(), resources });
        proof {
            assert forall|j: int| 0 <= j < k + 1 implies (#[trigger] inventory_views(inventories@)[j]).project_root
                    == roots[j] && discovery_matches(
                    archive_path@,
                    roots[j],
                    names,
                    bytes,
                    Ok::<Seq<ResourceView>, AppErrorView>(inventory_views(inventories@)[j].resources),
                ) by {
                if j < k {
                    assert(inventory_views(inventories@)[j] == prev[j]);
                }
            }
        }
        k = k + 1;
    }
    proof {
        let r = inventories_view(Ok::<Vec<ProjectResourceInventory>, AppError>(inventories));
        assert(r == Ok::<Seq<InventoryView>, AppErrorView>(inventory_views(inventories@)));
    }
    Ok(inventories)
}

/// The outcome owed by discovering the resources of one root of the archive
/// in `bytes`: the listing's error, else the discovery over the listed names.
pub open spec fn root_discovery_matches(
    archive_path: Seq<char>,
    bytes: Seq<u8>,
    root: Seq<char>,
    r: Result<Seq<ResourceView>, AppErrorView>,
) -> bool {
    if listing_fails(bytes) {
        r is Err && listing_matches(archive_path, bytes, Err(r->Err_0))
    } else {
        exists|names: Seq<Seq<char>>|
            #[trigger] enumerates(names, listed_names(bytes, zip_entry_count(bytes) as int))
                && discovery_matches(archive_path, root, names, bytes, r)
    }
}

/// Discovers and validates resources for a single project root of the
/// archive held in `archive_bytes`.
pub fn discover_resources_for_root(
    archive_path: &str,
    archive_bytes: &[u8],
    project_root: &str,
) -> (r: Result<Vec<Resource>, AppError>)
    ensures
        root_discovery_matches(archive_path@, archive_bytes@, project_root@, discovery_view(r)),
{
    let mut roots: Vec<String> = Vec::new();
    roots.push(String::from_str(project_root));
    assert(texts(roots@) =~= seq![project_root@]);
    let mut inventories = match discover_resources_for_roots(archive_path, archive_bytes, &roots) {
        Ok(v) => v,
        Err(e) => {
            assert(discovery_view(Err(e)) == Err::<Seq<ResourceView>, AppErrorView>(e@));
            return Err(e);
        },
    };
    if inventories.len() == 0 {
        return Ok(Vec::new());
    }
    let ghost views = inventory_views(inventories@);
    let first = inventories.remove(0);
    assert(views[0] == first@);
    let resources = first.resources;
    assert(discovery_view(Ok::<Vec<Resource>, AppError>(resources)) == Ok::<Seq<ResourceView>, AppErrorView>(views[0].resources));
    Ok(resources)
}

/// The candidates of a prefix of the entries begin the candidates of all entries.
proof fn lemma_candidates_prefix(es: Seq<Seq<char>>, root: Seq<char>, m: int)
    requires
        0 <= m <= es.len(),
    ensures
        resource_candidates(es.take(m), root).len() <= resource_candidates(es, root).len(),
        forall|j: int|
            0 <= j < resource_candidates(es.take(m), root).len() ==> #[trigger] resource_candidates(
                es,
                root,
            )[j] == resource_candidates(es.take(m), root)[j],
    decreases es.len(),
{
    if m == es.len() {
        assert(es.take(m) =~= es);
    } else {
        let rest = es.drop_last();
        assert(rest.take(m) =~= es.take(m));
        lemma_candidates_prefix(rest, root, m);
    }
}


/// A manifest has exactly one outcome: the same error or the same record.
proof fn lemma_manifest_unique(
    archive_path: Seq<char>,
    root: Seq<char>,
    entries: Seq<Seq<char>>,
    bytes: Seq<u8>,
    json_path: Seq<char>,
    x: Result<ResourceView, AppErrorView>,
    y: Result<ResourceView, AppErrorView>,
)
    requires
        manifest_matches(archive_path, root, entries, bytes, json_path, x),
        manifest_matches(archive_path, root, entries, bytes, json_path, y),
    ensures
        x == y,
{
    if zip_member_content(bytes, json_path) is Some {
        let manifest = zip_member_content(bytes, json_path)->0;
        let px = choose|pr: Result<(Seq<Seq<char>>, Seq<(Seq<char>, Seq<char>)>), AppErrorView>|
            #[trigger] resource_outcome(archive_path, json_path, manifest, pr) && parsed_matches(
                archive_path,
                root,
                entries,
                json_path,
                pr,
                x,
            );
        let py = choose|pr: Result<(Seq<Seq<char>>, Seq<(Seq<char>, Seq<char>)>), AppErrorView>|
            #[trigger] resource_outcome(archive_path, json_path, manifest, pr) && parsed_matches(
                archive_path,
                root,
                entries,
                json_path,
                pr,
                y,
            );
        lemma_resource_outcome_unique(archive_path, json_path, manifest, px, py);
    }
}

/// Two strictly key-ordered lists of the same resources are the same list.
proof fn lemma_key_sorted_unique(a: Seq<ResourceView>, b: Seq<ResourceView>)
    requires
        key_sorted(a),
        key_sorted(b),
        forall|x: ResourceView| #[trigger] a.contains(x) <==> b.contains(x),
    ensures
        a == b,
    decreases a.len(),
{
    if a.len() == 0 {
        if b.len() > 0 {
            assert(b.contains(b[0]));
            assert(a.contains(b[0]));
        }
        assert(a =~= b);
    } else if b.len() == 0 {
        assert(a.contains(a[0]));
    } else {
        assert(a.contains(a[0]));
        assert(b.contains(b[0]));
        assert(a.contains(b[0]));
        if a[0] != b[0] {
            let i = choose|i: int| 0 <= i < a.len() && a[i] == b[0];
            let j = choose|j: int| 0 <= j < b.len() && b[j] == a[0];
            assert(i > 0 && j > 0);
            assert(key_lt(a[0], a[i]));
            assert(key_lt(b[0], b[j]));
            lemma_key_lt_transitive(a[0], b[0], a[0]);
            lemma_key_lt_irreflexive(a[0]);
        }
        let ra = a.drop_first();
        let rb = b.drop_first();
        assert forall|x: ResourceView| #[trigger] ra.contains(x) <==> rb.contains(x) by {
            if ra.contains(x) {
                let i = choose|i: int| 0 <= i < ra.len() && ra[i] == x;
                assert(a[i + 1] == x);
                assert(key_lt(a[0], x));
                lemma_key_lt_irreflexive(x);
                assert(a.contains(x));
                assert(b.contains(x));
                let j = choose|j: int| 0 <= j < b.len() && b[j] == x;
                assert(j != 0);
                assert(rb[j - 1] == x);
            }
            if rb.contains(x) {
                let j = choose|j: int| 0 <= j < rb.len() && rb[j] == x;
                assert(b[j + 1] == x);
                assert(key_lt(b[0], x));
                lemma_key_lt_irreflexive(x);
                assert(a.contains(x));
                let i = choose|i: int| 0 <= i < a.len() && a[i] == x;
                assert(i != 0);
                assert(ra[i - 1] == x);
            }
        }
        lemma_key_sorted_unique(ra, rb);
        assert(a =~= seq![a[0]] + ra);
        assert(b =~= seq![b[0]] + rb);
    }
}

/// Two successful discoveries over the same entries and archive agree.
proof fn lemma_discovery_ok_unique(
    archive_path: Seq<char>,
    root: Seq<char>,
    entries: Seq<Seq<char>>,
    bytes: Seq<u8>,
    v1: Seq<ResourceView>,
    v2: Seq<ResourceView>,
)
    requires
        discovery_matches(
            archive_path,
            root,
            entries,
            bytes,
            Ok::<Seq<ResourceView>, AppErrorView>(v1),
        ),
        discovery_matches(
            archive_path,
            root,
            entries,
            bytes,
            Ok::<Seq<ResourceView>, AppErrorView>(v2),
        ),
    ensures
        v1 == v2,
{
    let cands = resource_candidates(entries, root);
    let b1 = choose|built: Seq<ResourceView>|
        #![trigger built.len()]
        built.len() == cands.len() && (forall|k: int|
            0 <= k < cands.len() ==> manifest_matches(
                archive_path,
                root,
                entries,
                bytes,
                cands[k],
                Ok::<ResourceView, AppErrorView>(#[trigger] built[k]),
            )) && key_sorted(v1) && (forall|x: ResourceView| #[trigger]
            v1.contains(x) <==> built.contains(x));
    let b2 = choose|built: Seq<ResourceView>|
        #![trigger built.len()]
        built.len() == cands.len() && (forall|k: int|
            0 <= k < cands.len() ==> manifest_matches(
                archive_path,
                root,
                entries,
                bytes,
                cands[k],
                Ok::<ResourceView, AppErrorView>(#[trigger] built[k]),
            )) && key_sorted(v2) && (forall|x: ResourceView| #[trigger]
            v2.contains(x) <==> built.contains(x));
    assert forall|k: int| 0 <= k < cands.len() implies b1[k] == b2[k] by {
        lemma_manifest_unique(
            archive_path,
            root,
            entries,
            bytes,
            cands[k],
            Ok::<ResourceView, AppErrorView>(b1[k]),
            Ok::<ResourceView, AppErrorView>(b2[k]),
        );
    }
    assert(b1 =~= b2);
    lemma_key_sorted_unique(v1, v2);
}

/// A failing manifest is the first one that fails: no manifest before it
/// gives a record, and the one that fails gives no record.
proof fn lemma_first_failure(
    archive_path: Seq<char>,
    root: Seq<char>,
    entries: Seq<Seq<char>>,
    bytes: Seq<u8>,
    json_path: Seq<char>,
    e: AppErrorView,
)
    requires
        manifest_matches(archive_path, root, entries, bytes, json_path, Err(e)),
    ensures
        !manifest_ok(archive_path, root, entries, bytes, json_path),
{
    if manifest_ok(archive_path, root, entries, bytes, json_path) {
        let x = choose|x: ResourceView|
            #[trigger] manifest_matches(
                archive_path,
                root,
                entries,
                bytes,
                json_path,
                Ok::<ResourceView, AppErrorView>(x),
            );
        lemma_manifest_unique(
            archive_path,
            root,
            entries,
            bytes,
            json_path,
            Ok::<ResourceView, AppErrorView>(x),
            Err(e),
        );
    }
}

/// Discovering the resources of a root is deterministic: over the same
/// entries and archive, two discoveries give the same error, or the same
/// records in the same order.
pub proof fn lemma_discovery_deterministic(
    archive_path: Seq<char>,
    root: Seq<char>,
    entries: Seq<Seq<char>>,
    bytes: Seq<u8>,
    r1: Result<Seq<ResourceView>, AppErrorView>,
    r2: Result<Seq<ResourceView>, AppErrorView>,
)
    requires
        discovery_matches(archive_path, root, entries, bytes, r1),
        discovery_matches(archive_path, root, entries, bytes, r2),
    ensures
        r1 == r2,
{
    if r2 is Err {
        lemma_discovery_one_way(archive_path, root, entries, bytes, r1, r2);
    } else if r1 is Err {
        lemma_discovery_one_way(archive_path, root, entries, bytes, r2, r1);
    } else {
        lemma_discovery_ok_unique(archive_path, root, entries, bytes, r1->Ok_0, r2->Ok_0);
    }
}

/// A success and a failure of the same discovery cannot both be owed, and
/// two failures fail at the same manifest with the same error.
proof fn lemma_discovery_one_way(
    archive_path: Seq<char>,
    root: Seq<char>,
    entries: Seq<Seq<char>>,
    bytes: Seq<u8>,
    r1: Result<Seq<ResourceView>, AppErrorView>,
    r2: Result<Seq<ResourceView>, AppErrorView>,
)
    requires
        discovery_matches(archive_path, root, entries, bytes, r1),
        discovery_matches(archive_path, root, entries, bytes, r2),
        r2 is Err,
    ensures
        r1 is Err && r1 == r2,
{
    let cands = resource_candidates(entries, root);
    let e2 = r2->Err_0;
    let k2 = choose|k: int|
        0 <= k < cands.len() && (forall|j: int|
            0 <= j < k ==> #[trigger] manifest_ok(archive_path, root, entries, bytes, cands[j]))
            && #[trigger] manifest_matches(archive_path, root, entries, bytes, cands[k], Err(e2));
    lemma_first_failure(archive_path, root, entries, bytes, cands[k2], e2);
    match r1 {
        Ok(v) => {
            let built = choose|built: Seq<ResourceView>|
                #![trigger built.len()]
                built.len() == cands.len() && (forall|k: int|
                    0 <= k < cands.len() ==> manifest_matches(
                        archive_path,
                        root,
                        entries,
                        bytes,
                        cands[k],
                        Ok::<ResourceView, AppErrorView>(#[trigger] built[k]),
                    )) && key_sorted(v) && (forall|x: ResourceView| #[trigger]
                    v.contains(x) <==> built.contains(x));
            assert(manifest_matches(
                archive_path,
                root,
                entries,
                bytes,
                cands[k2],
                Ok::<ResourceView, AppErrorView>(built[k2]),
            ));
        },
        Err(e1) => {
            let k1 = choose|k: int|
                0 <= k < cands.len() && (forall|j: int|
                    0 <= j < k ==> #[trigger] manifest_ok(archive_path, root, entries, bytes, cands[j]))
                    && #[trigger] manifest_matches(archive_path, root, entries, bytes, cands[k], Err(e1));
            lemma_first_failure(archive_path, root, entries, bytes, cands[k1], e1);
            if k1 < k2 {
                assert(manifest_ok(archive_path, root, entries, bytes, cands[k1]));
            } else if k2 < k1 {
                assert(manifest_ok(archive_path, root, entries, bytes, cands[k2]));
            }
            lemma_manifest_unique(archive_path, root, entries, bytes, cands[k1], Err(e1), Err(e2));
        },
    }
}

/// Discovering the resources of one root of an archive is deterministic:
/// two runs on the same bytes give the same error or the same records.
pub proof fn lemma_root_discovery_deterministic(
    archive_path: Seq<char>,
    bytes: Seq<u8>,
    root: Seq<char>,
    r1: Result<Seq<ResourceView>, AppErrorView>,
    r2: Result<Seq<ResourceView>, AppErrorView>,
)
    requires
        root_discovery_matches(archive_path, bytes, root, r1),
        root_discovery_matches(archive_path, bytes, root, r2),
    ensures
        r1 == r2,
{
    if !listing_fails(bytes) {
        let items = listed_names(bytes, zip_entry_count(bytes) as int);
        let n1 = choose|names: Seq<Seq<char>>|
            #[trigger] enumerates(names, items) && discovery_matches(
                archive_path,
                root,
                names,
                bytes,
                r1,
            );
        let n2 = choose|names: Seq<Seq<char>>|
            #[trigger] enumerates(names, items) && discovery_matches(
                archive_path,
                root,
                names,
                bytes,
                r2,
            );
        lemma_enumeration_unique(n1, n2, items);
        lemma_discovery_deterministic(archive_path, root, n1, bytes, r1, r2);
    }
}

/// Every record of a successful discovery comes from a `resource.json` entry
/// under the root, lists that manifest as its first file, and lists only
/// files that the archive holds.
pub proof fn lemma_discovered_records(
    archive_path: Seq<char>,
    root: Seq<char>,
    entries: Seq<Seq<char>>,
    bytes: Seq<u8>,
    v: Seq<ResourceView>,
    x: ResourceView,
)
    requires
        discovery_matches(
            archive_path,
            root,
            entries,
            bytes,
            Ok::<Seq<ResourceView>, AppErrorView>(v),
        ),
        v.contains(x),
    ensures
        entries.contains(x.resource_json_path),
        is_resource_json_for(x.resource_json_path, root),
        x.files.len() >= 1,
        x.files[0] == (ResourceFileView {
            file_kind: "resource.json"@,
            file_zip_path: x.resource_json_path,
        }),
        forall|i: int| 1 <= i < x.files.len() ==> entries.contains(#[trigger] x.files[i].file_zip_path),
{
    let cands = resource_candidates(entries, root);
    let built = choose|built: Seq<ResourceView>|
        #![trigger built.len()]
        built.len() == cands.len() && (forall|k: int|
            0 <= k < cands.len() ==> manifest_matches(
                archive_path,
                root,
                entries,
                bytes,
                cands[k],
                Ok::<ResourceView, AppErrorView>(#[trigger] built[k]),
            )) && key_sorted(v) && (forall|x: ResourceView| #[trigger]
            v.contains(x) <==> built.contains(x));
    assert(built.contains(x));
    let m = choose|m: int| 0 <= m < built.len() && built[m] == x;
    let json = cands[m];
    assert(manifest_matches(archive_path, root, entries, bytes, json, Ok::<ResourceView, AppErrorView>(built[m])));
    lemma_candidates_are_entries(entries, root, m);
    let manifest = zip_member_content(bytes, json)->0;
    let pr = choose|pr: Result<(Seq<Seq<char>>, Seq<(Seq<char>, Seq<char>)>), AppErrorView>|
        #[trigger] resource_outcome(archive_path, json, manifest, pr) && parsed_matches(
            archive_path,
            root,
            entries,
            json,
            pr,
            Ok::<ResourceView, AppErrorView>(x),
        );
    let declared = pr->Ok_0.0;
    let folder = resource_folder_of(json)->0;
    assert(!(exists|k: int|
        0 <= k < declared.len() && #[trigger] declared_missing(folder, declared, entries, k)));
    lemma_resource_files_exist(json, folder, declared, entries);
}

/// The outcome owed for each root over the listed names, in root order.
pub open spec fn inventories_over(
    archive_path: Seq<char>,
    bytes: Seq<u8>,
    roots: Seq<Seq<char>>,
    names: Seq<Seq<char>>,
    r: Result<Seq<InventoryView>, AppErrorView>,
) -> bool {
    match r {
        Ok(invs) => invs.len() == roots.len() && forall|k: int|
            0 <= k < roots.len() ==> (#[trigger] invs[k]).project_root == roots[k]
                && discovery_matches(
                archive_path,
                roots[k],
                names,
                bytes,
                Ok::<Seq<ResourceView>, AppErrorView>(invs[k].resources),
            ),
        Err(e) => exists|k: int|
            0 <= k < roots.len() && (forall|j: int|
                0 <= j < k ==> #[trigger] discovery_ok(archive_path, roots[j], names, bytes))
                && #[trigger] discovery_matches(archive_path, roots[k], names, bytes, Err(e)),
    }
}

/// A failing root's discovery gives no records.
proof fn lemma_failing_root(
    archive_path: Seq<char>,
    root: Seq<char>,
    names: Seq<Seq<char>>,
    bytes: Seq<u8>,
    e: AppErrorView,
)
    requires
        discovery_matches(archive_path, root, names, bytes, Err(e)),
    ensures
        !discovery_ok(archive_path, root, names, bytes),
{
    if discovery_ok(archive_path, root, names, bytes) {
        let v = choose|v: Seq<ResourceView>|
            #[trigger] discovery_matches(
                archive_path,
                root,
                names,
                bytes,
                Ok::<Seq<ResourceView>, AppErrorView>(v),
            );
        lemma_discovery_deterministic(
            archive_path,
            root,
            names,
            bytes,
            Ok::<Seq<ResourceView>, AppErrorView>(v),
            Err(e),
        );
    }
}

/// Over the same listed names, the outcome for several roots is unique.
proof fn lemma_inventories_over_unique(
    archive_path: Seq<char>,
    bytes: Seq<u8>,
    roots: Seq<Seq<char>>,
    names: Seq<Seq<char>>,
    a: Result<Seq<InventoryView>, AppErrorView>,
    b: Result<Seq<InventoryView>, AppErrorView>,
)
    requires
        inventories_over(archive_path, bytes, roots, names, a),
        inventories_over(archive_path, bytes, roots, names, b),
    ensures
        a == b,
{
    match (a, b) {
        (Ok(x), Ok(y)) => {
            assert forall|k: int| 0 <= k < roots.len() implies x[k] == y[k] by {
                lemma_discovery_deterministic(
                    archive_path,
                    roots[k],
                    names,
                    bytes,
                    Ok::<Seq<ResourceView>, AppErrorView>(x[k].resources),
                    Ok::<Seq<ResourceView>, AppErrorView>(y[k].resources),
                );
            }
            assert(x =~= y);
        },
        (Ok(x), Err(e)) => {
            let k = choose|k: int|
                0 <= k < roots.len() && (forall|j: int|
                    0 <= j < k ==> #[trigger] discovery_ok(archive_path, roots[j], names, bytes))
                    && #[trigger] discovery_matches(archive_path, roots[k], names, bytes, Err(e));
            assert(x[k].project_root == roots[k]);
            lemma_discovery_deterministic(
                archive_path,
                roots[k],
                names,
                bytes,
                Ok::<Seq<ResourceView>, AppErrorView>(x[k].resources),
                Err(e),
            );
        },
        (Err(e), Ok(y)) => {
            let k = choose|k: int|
                0 <= k < roots.len() && (forall|j: int|
                    0 <= j < k ==> #[trigger] discovery_ok(archive_path, roots[j], names, bytes))
                    && #[trigger] discovery_matches(archive_path, roots[k], names, bytes, Err(e));
            assert(y[k].project_root == roots[k]);
            lemma_discovery_deterministic(
                archive_path,
                roots[k],
                names,
                bytes,
                Ok::<Seq<ResourceView>, AppErrorView>(y[k].resources),
                Err(e),
            );
        },
        (Err(e1), Err(e2)) => {
            let k1 = choose|k: int|
                0 <= k < roots.len() && (forall|j: int|
                    0 <= j < k ==> #[trigger] discovery_ok(archive_path, roots[j], names, bytes))
                    && #[trigger] discovery_matches(archive_path, roots[k], names, bytes, Err(e1));
            let k2 = choose|k: int|
                0 <= k < roots.len() && (forall|j: int|
                    0 <= j < k ==> #[trigger] discovery_ok(archive_path, roots[j], names, bytes))
                    && #[trigger] discovery_matches(archive_path, roots[k], names, bytes, Err(e2));
            lemma_failing_root(archive_path, roots[k1], names, bytes, e1);
            lemma_failing_root(archive_path, roots[k2], names, bytes, e2);
            if k1 < k2 {
                assert(discovery_ok(archive_path, roots[k1], names, bytes));
            } else if k2 < k1 {
                assert(discovery_ok(archive_path, roots[k2], names, bytes));
            }
            lemma_discovery_deterministic(archive_path, roots[k1], names, bytes, Err(e1), Err(e2));
        },
    }
}

/// Discovering the resources of several roots is deterministic: two runs on
/// the same bytes and roots give the same error or the same inventories.
pub proof fn lemma_inventories_deterministic(
    archive_path: Seq<char>,
    bytes: Seq<u8>,
    roots: Seq<Seq<char>>,
    a: Result<Seq<InventoryView>, AppErrorView>,
    b: Result<Seq<InventoryView>, AppErrorView>,
)
    requires
        inventories_match(archive_path, bytes, roots, a),
        inventories_match(archive_path, bytes, roots, b),
    ensures
        a == b,
{
    if !listing_fails(bytes) {
        let items = listed_names(bytes, zip_entry_count(bytes) as int);
        let na = choose|names: Seq<Seq<char>>|
            #[trigger] enumerates(names, items) && inventories_over(
                archive_path,
                bytes,
                roots,
                names,
                a,
            );
        let nb = choose|names: Seq<Seq<char>>|
            #[trigger] enumerates(names, items) && inventories_over(
                archive_path,
                bytes,
                roots,
                names,
                b,
            );
        lemma_enumeration_unique(na, nb, items);
        lemma_inventories_over_unique(archive_path, bytes, roots, na, a, b);
    }
}

/// Every `resource.json` entry under the root is a candidate.
proof fn lemma_candidates_complete(entries: Seq<Seq<char>>, root: Seq<char>, i: int)
    requires
        0 <= i < entries.len(),
        is_resource_json_for(entries[i], root),
    ensures
        resource_candidates(entries, root).contains(entries[i]),
    decreases entries.len(),
{
    let rest = entries.drop_last();
    let c = resource_candidates(rest, root);
    if i < entries.len() - 1 {
        assert(rest[i] == entries[i]);
        lemma_candidates_complete(rest, root, i);
        let j = choose|j: int| 0 <= j < c.len() && c[j] == entries[i];
        if is_resource_json_for(entries.last(), root) {
            assert(c.push(entries.last())[j] == entries[i]);
        }
    } else {
        assert(c.push(entries.last())[c.len() as int] == entries[i]);
    }
}

/// A successful discovery misses no resource: every `resource.json` entry
/// under the root is the manifest of one of the records.
pub proof fn lemma_discovery_covers_manifests(
    archive_path: Seq<char>,
    root: Seq<char>,
    entries: Seq<Seq<char>>,
    bytes: Seq<u8>,
    v: Seq<ResourceView>,
    json_path: Seq<char>,
)
    requires
        discovery_matches(
            archive_path,
            root,
            entries,
            bytes,
            Ok::<Seq<ResourceView>, AppErrorView>(v),
        ),
        entries.contains(json_path),
        is_resource_json_for(json_path, root),
    ensures
        exists|x: ResourceView| #[trigger] v.contains(x) && x.resource_json_path == json_path,
{
    let cands = resource_candidates(entries, root);
    let i = choose|i: int| 0 <= i < entries.len() && entries[i] == json_path;
    lemma_candidates_complete(entries, root, i);
    let k = choose|k: int| 0 <= k < cands.len() && cands[k] == json_path;
    let built = choose|built: Seq<ResourceView>|
        #![trigger built.len()]
        built.len() == cands.len() && (forall|k: int|
            0 <= k < cands.len() ==> manifest_matches(
                archive_path,
                root,
                entries,
                bytes,
                cands[k],
                Ok::<ResourceView, AppErrorView>(#[trigger] built[k]),
            )) && key_sorted(v) && (forall|x: ResourceView| #[trigger]
            v.contains(x) <==> built.contains(x));
    let x = built[k];
    assert(manifest_matches(archive_path, root, entries, bytes, cands[k], Ok::<ResourceView, AppErrorView>(x)));
    let manifest = zip_member_content(bytes, json_path)->0;
    let pr = choose|pr: Result<(Seq<Seq<char>>, Seq<(Seq<char>, Seq<char>)>), AppErrorView>|
        #[trigger] resource_outcome(archive_path, json_path, manifest, pr) && parsed_matches(
            archive_path,
            root,
            entries,
            json_path,
            pr,
            Ok::<ResourceView, AppErrorView>(x),
        );
    assert(x.resource_json_path == json_path);
    assert(built.contains(x));
    assert(v.contains(x));
}

} // verus!
