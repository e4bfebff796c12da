//! Project resources: the folders that hold a `resource.json` manifest, and
//! the files such a manifest declares.
use vstd::prelude::*;
use crate::error::{AppError, AppErrorView};
use crate::sorted::sorted_contains;
use crate::text::{
    chars_of, concat, ends_with, starts_with, string_of_range, strictly_sorted, strip_prefix,
    strip_suffix, text_eq, texts, trailing_keep, trim_trailing,
};

verus! {

/// A single file that belongs to a discovered resource.
#[derive(Debug, Clone, PartialEq, Eq)]
pub struct ResourceFile {
    pub file_kind: String,
    pub file_zip_path: String,
}

/// The content of a resource file record.
pub struct ResourceFileView {
    pub file_kind: Seq<char>,
    pub file_zip_path: Seq<char>,
}

impl View for ResourceFile {
    type V = ResourceFileView;

    open spec fn view(&self) -> ResourceFileView {
        ResourceFileView { file_kind: self.file_kind@, file_zip_path: self.file_zip_path@ }
    }
}

/// The contents of a list of resource file records.
pub open spec fn file_views(files: Seq<ResourceFile>) -> Seq<ResourceFileView> {
    files.map_values(|f: ResourceFile| f@)
}

/// A discovered project resource and its normalized metadata. Each attribute
/// is a top-level member of `resource.json` other than `files`: its key and
/// its value written as compact JSON, in increasing key order.
#[derive(Debug, Clone, PartialEq, Eq)]
pub struct Resource {
    pub section: String,
    pub type_key: String,
    pub path: String,
    pub resource_json_path: String,
    pub binary_only: bool,
    pub attributes: Vec<(String, String)>,
    pub files: Vec<ResourceFile>,
}

/// The content of a resource record.
pub struct ResourceView {
    pub section: Seq<char>,
    pub type_key: Seq<char>,
    pub path: Seq<char>,
    pub resource_json_path: Seq<char>,
    pub binary_only: bool,
    pub attributes: Seq<(Seq<char>, Seq<char>)>,
    pub files: Seq<ResourceFileView>,
}

/// The texts of a list of key/value pairs.
pub open spec fn pair_views(m: Seq<(String, String)>) -> Seq<(Seq<char>, Seq<char>)> {
    m.map_values(|p: (String, String)| (p.0@, p.1@))
}

impl View for Resource {
    type V = ResourceView;

    open spec fn view(&self) -> ResourceView {
        ResourceView {
            section: self.section@,
            type_key: self.type_key@,
            path: self.path@,
            resource_json_path: self.resource_json_path@,
            binary_only: self.binary_only,
            attributes: pair_views(self.attributes@),
            files: file_views(self.files@),
        }
    }
}

/// The contents of a list of resources.
pub open spec fn resource_views(rs: Seq<Resource>) -> Seq<ResourceView> {
    rs.map_values(|r: Resource| r@)
}

/// Resource inventory for a single selected project root.
#[derive(Debug, Clone, PartialEq, Eq)]
pub struct ProjectResourceInventory {
    pub project_root: String,
    pub resources: Vec<Resource>,
}

/// The contents of a resource inventory.
pub struct InventoryView {
    pub project_root: Seq<char>,
    pub resources: Seq<ResourceView>,
}

impl View for ProjectResourceInventory {
    type V = InventoryView;

    open spec fn view(&self) -> InventoryView {
        InventoryView { project_root: self.project_root@, resources: resource_views(self.resources@) }
    }
}

/// The contents of a list of inventories.
pub open spec fn inventory_views(invs: Seq<ProjectResourceInventory>) -> Seq<InventoryView> {
    invs.map_values(|v: ProjectResourceInventory| v@)
}

/// Whether an entry is a `resource.json` under a project root (the empty
/// root holds every entry).
pub open spec fn is_resource_json_for(entry: Seq<char>, root: Seq<char>) -> bool {
    "/resource.json"@.is_suffix_of(entry) && root.is_prefix_of(entry)
}

/// Determines whether an entry path is a `resource.json` under a project root.
pub fn is_resource_json_for_root(entry: &str, project_root: &str) -> (r: bool)
    ensures
        r == is_resource_json_for(entry@, project_root@),
{
    if !ends_with(entry, "/resource.json") {
        return false;
    }
    if project_root.is_empty() {
        assert(project_root@ =~= entry@.subrange(0, 0));
        return true;
    }
    starts_with(entry, project_root)
}

/// The folder prefix of a `.../resource.json` path.
pub open spec fn resource_folder_of(json_path: Seq<char>) -> Option<Seq<char>> {
    if "resource.json"@.is_suffix_of(json_path) {
        Some(json_path.take(json_path.len() - "resource.json"@.len()))
    } else {
        None
    }
}

/// Returns the folder prefix for a `.../resource.json` path.
pub fn resource_folder_path(resource_json_path: &str) -> (r: Option<String>)
    ensures
        match r {
            Some(f) => resource_folder_of(resource_json_path@) == Some(f@),
            None => resource_folder_of(resource_json_path@) is None,
        },
{
    strip_suffix(resource_json_path, "resource.json")
}

/// The path of a resource relative to its project root: its folder without
/// trailing slashes, less the root when the root begins it.
pub open spec fn resource_path_of(json_path: Seq<char>, root: Seq<char>) -> Seq<char> {
    let folder = trim_trailing(
        match resource_folder_of(json_path) {
            Some(f) => f,
            None => json_path,
        },
        '/',
    );
    if root.len() == 0 {
        folder
    } else if root.is_prefix_of(folder) {
        folder.skip(root.len() as int)
    } else {
        folder
    }
}

/// Returns the normalized resource path relative to a project root.
pub fn resource_path_for_project_root(resource_json_path: &str, project_root: &str) -> (r: String)
    ensures
        r@ == resource_path_of(resource_json_path@, project_root@),
{
    let base = match resource_folder_path(resource_json_path) {
        Some(f) => f,
        None => String::from_str(resource_json_path),
    };
    let cs = chars_of(base.as_str());
    let n = trailing_keep(&cs, '/');
    let folder = string_of_range(&cs, 0, n);
    assert(folder@ =~= cs@.take(n as int));
    if project_root.is_empty() {
        return folder;
    }
    match strip_prefix(folder.as_str(), project_root) {
        Some(rest) => rest,
        None => folder,
    }
}

/// The part of a path after its last slash (the whole path when it has none).
pub open spec fn last_segment(s: Seq<char>) -> Seq<char>
    decreases s.len(),
{
    if s.len() == 0 {
        s
    } else if s.last() == '/' {
        Seq::empty()
    } else {
        last_segment(s.drop_last()).push(s.last())
    }
}

/// The kind label of a declared file: `script` for Python files, else its file name.
pub open spec fn file_kind_of(declared: Seq<char>) -> Seq<char> {
    let name = last_segment(declared);
    if ".py"@.is_suffix_of(name) {
        "script"@
    } else {
        name
    }
}

/// Returns the part of a path after its last slash.
fn file_name_of(path: &str) -> (r: String)
    ensures
        r@ == last_segment(path@),
{
    let cs = chars_of(path);
    let len = cs.len();
    let mut n: usize = len;
    assert(cs@.subrange(len as int, len as int) =~= Seq::<char>::empty());
    assert(cs@.take(len as int) =~= cs@);
    while n > 0 && cs[n - 1] != '/'
        invariant
            n <= len == cs@.len(),
            last_segment(cs@) == last_segment(cs@.take(n as int)) + cs@.subrange(
                n as int,
                len as int,
            ),
        decreases n,
    {
        let ghost t = cs@.take(n as int);
        assert(t.drop_last() =~= cs@.take(n - 1));
        assert(last_segment(t) == last_segment(cs@.take(n - 1)).push(cs@[n - 1]));
        assert(last_segment(cs@.take(n - 1)).push(cs@[n - 1]) + cs@.subrange(n as int, len as int)
            =~= last_segment(cs@.take(n - 1)) + cs@.subrange(n - 1, len as int));
        n = n - 1;
    }
    let r = string_of_range(&cs, n, len);
    proof {
        if n == 0 {
            assert(cs@.take(0) =~= Seq::<char>::empty());
        } else {
            assert(cs@.take(n as int).last() == '/');
        }
        assert(last_segment(cs@.take(n as int)) + cs@.subrange(n as int, len as int)
            =~= cs@.subrange(n as int, len as int));
    }
    r
}

/// Maps a declared resource filename to a normalized file-kind label.
pub fn file_kind_from_declared_name(declared_file_name: &str) -> (r: String)
    ensures
        r@ == file_kind_of(declared_file_name@),
{
    let file_name = file_name_of(declared_file_name);
    if ends_with(file_name.as_str(), ".py") {
        String::from_str("script")
    } else {
        file_name
    }
}

/// A list of file records whose payload (every record but `resource.json`
/// ones) is present and made of `data.bin` records only.
pub open spec fn binary_only_of(files: Seq<ResourceFileView>) -> bool {
    &&& exists|i: int| 0 <= i < files.len() && #[trigger] files[i].file_kind != "resource.json"@
    &&& forall|i: int|
        0 <= i < files.len() && #[trigger] files[i].file_kind != "resource.json"@
            ==> files[i].file_kind == "data.bin"@
}

/// Returns `true` when all payload files are binary-only (`data.bin`) entries.
pub fn is_binary_only_resource(files: &Vec<ResourceFile>) -> (r: bool)
    ensures
        r == binary_only_of(file_views(files@)),
{
    let ghost fs = file_views(files@);
    let mut payload_count: usize = 0;
    let mut i: usize = 0;
    while i < files.len()
        invariant
            fs == file_views(files@),
            i <= files@.len(),
            payload_count <= i,
            (payload_count > 0) == exists|k: int|
                0 <= k < i && #[trigger] fs[k].file_kind != "resource.json"@,
            forall|k: int|
                0 <= k < i && #[trigger] fs[k].file_kind != "resource.json"@ ==> fs[k].file_kind
                    == "data.bin"@,
        decreases files@.len() - i,
    {
        assert(fs[i as int] == files@[i as int]@);
        if text_eq(files[i].file_kind.as_str(), "resource.json") {
            assert((exists|k: int| 0 <= k < i + 1 && #[trigger] fs[k].file_kind != "resource.json"@)
                == (exists|k: int| 0 <= k < i && #[trigger] fs[k].file_kind != "resource.json"@));
            i = i + 1;
            continue;
        }
        assert(fs[i as int].file_kind != "resource.json"@);
        payload_count = payload_count + 1;
        if !text_eq(files[i].file_kind.as_str(), "data.bin") {
            assert(fs[i as int].file_kind != "data.bin"@);
            return false;
        }
        i = i + 1;
    }
    payload_count > 0
}

/// The record of a declared file, stored under the resource folder.
pub open spec fn declared_file(folder: Seq<char>, declared: Seq<char>) -> ResourceFileView {
    ResourceFileView { file_kind: file_kind_of(declared), file_zip_path: folder + declared }
}

/// Whether the `k`-th declared file is absent from the archive entries.
pub open spec fn declared_missing(
    folder: Seq<char>,
    declared: Seq<Seq<char>>,
    entries: Seq<Seq<char>>,
    k: int,
) -> bool {
    !entries.contains(folder + declared[k])
}

/// The details of the error for a declared file that the archive lacks.
pub open spec fn missing_file_details(
    archive_path: Seq<char>,
    json_path: Seq<char>,
    declared: Seq<char>,
) -> Seq<char> {
    "Declared file `"@ + declared + "` is missing for `"@ + json_path + "` in `"@ + archive_path
        + "`"@
}

/// The details of the error for a manifest path without the `resource.json` suffix.
pub open spec fn bad_manifest_path_details(json_path: Seq<char>) -> Seq<char> {
    "invalid resource json path without suffix: "@ + json_path
}

/// The file list of a resource whose declared files are all present: the
/// manifest first, then each declared file in order, then an undeclared
/// `data.bin` of the folder when the archive holds one.
pub open spec fn resource_files_of(
    json_path: Seq<char>,
    folder: Seq<char>,
    declared: Seq<Seq<char>>,
    entries: Seq<Seq<char>>,
) -> Seq<ResourceFileView> {
    let head = seq![ResourceFileView { file_kind: "resource.json"@, file_zip_path: json_path }];
    let body = declared.map_values(|d: Seq<char>| declared_file(folder, d));
    let data_bin = folder + "data.bin"@;
    if !declared.contains("data.bin"@) && entries.contains(data_bin) {
        head + body + seq![ResourceFileView { file_kind: "data.bin"@, file_zip_path: data_bin }]
    } else {
        head + body
    }
}

/// Builds a deterministically ordered file list for a resource, checking that
/// every declared file exists in the archive.
pub fn build_resource_files(
    archive_path: &str,
    resource_json_path: &str,
    resource_files: &Vec<String>,
    entry_set: &Vec<String>,
) -> (r: Result<Vec<ResourceFile>, AppError>)
    requires
        strictly_sorted(texts(entry_set@)),
    ensures
        resource_folder_of(resource_json_path@) is None ==> r is Err && r->Err_0@ == (
        AppErrorView::Internal { details: bad_manifest_path_details(resource_json_path@) }),
        resource_folder_of(resource_json_path@) matches Some(folder) ==> {
            let declared = texts(resource_files@);
            let entries = texts(entry_set@);
            &&& r is Err <==> exists|k: int|
                0 <= k < declared.len() && #[trigger] declared_missing(folder, declared, entries, k)
            &&& r matches Ok(files) ==> file_views(files@) == resource_files_of(
                resource_json_path@,
                folder,
                declared,
                entries,
            )
            &&& r matches Err(e) ==> exists|k: int|
                0 <= k < declared.len() && #[trigger] declared_missing(folder, declared, entries, k)
                    && (forall|j: int| 0 <= j < k ==> !declared_missing(folder, declared, entries, j))
                    && e@ == (AppErrorView::ResourceIntegrity {
                    details: missing_file_details(archive_path@, resource_json_path@, declared[k]),
                })
        },
{
    let folder = match resource_folder_path(resource_json_path) {
        Some(f) => f,
        None => {
            let details = concat("invalid resource json path without suffix: ", resource_json_path);
            return Err(AppError::internal(details.as_str()));
        },
    };
    let ghost declared = texts(resource_files@);
    let ghost entries = texts(entry_set@);
    let ghost body = declared.map_values(|d: Seq<char>| declared_file(folder@, d));
    let mut files: Vec<ResourceFile> = Vec::new();
    files.push(
        ResourceFile {
            file_kind: String::from_str("resource.json"),
            file_zip_path: String::from_str(resource_json_path),
        },
    );
    let ghost head = seq![ResourceFileView { file_kind: "resource.json"@, file_zip_path: resource_json_path@ }];
    assert(file_views(files@) =~= head);
    let mut has_data_bin_declared = false;
    let mut i: usize = 0;
    while i < resource_files.len()
        invariant
            resource_folder_of(resource_json_path@) == Some(folder@),
            declared == texts(resource_files@),
            entries == texts(entry_set@),
            strictly_sorted(entries),
            body == declared.map_values(|d: Seq<char>| declared_file(folder@, d)),
            i <= declared.len(),
            file_views(files@) == head + body.take(i as int),
            has_data_bin_declared == declared.take(i as int).contains("data.bin"@),
            forall|j: int| 0 <= j < i ==> !declared_missing(folder@, declared, entries, j),
        decreases declared.len() - i,
    {
        let declared_name = &resource_files[i];
        let file_zip_path = concat(folder.as_str(), declared_name.as_str());
        assert(declared[i as int] == declared_name@);
        if !sorted_contains(entry_set, file_zip_path.as_str()) {
            assert(declared_missing(folder@, declared, entries, i as int));
            let m = concat("Declared file `", declared_name.as_str());
            let m = concat(m.as_str(), "` is missing for `");
            let m = concat(m.as_str(), resource_json_path);
            let m = concat(m.as_str(), "` in `");
            let m = concat(m.as_str(), archive_path);
            let m = concat(m.as_str(), "`");
            let e = AppError::resource_integrity(m.as_str());
            assert(e@ == (AppErrorView::ResourceIntegrity {
                details: missing_file_details(archive_path@, resource_json_path@, declared[i as int]),
            }));
            let ghost f = resource_folder_of(resource_json_path@)->0;
            assert(f == folder@);
            assert(0 <= i < declared.len() && declared_missing(f, declared, entries, i as int)
                && (forall|j: int| 0 <= j < i ==> !declared_missing(f, declared, entries, j)));
            assert(exists|k: int|
                0 <= k < declared.len() && #[trigger] declared_missing(f, declared, entries, k)
                    && (forall|j: int| 0 <= j < k ==> !declared_missing(f, declared, entries, j))
                    && e@ == (AppErrorView::ResourceIntegrity {
                    details: missing_file_details(archive_path@, resource_json_path@, declared[k]),
                }));
            return Err(e);
        }
        let is_data_bin = text_eq(declared_name.as_str(), "data.bin");
        if is_data_bin {
            has_data_bin_declared = true;
        }
        proof {
            let t0 = declared.take(i as int);
            let t1 = declared.take(i + 1);
            assert(t1 =~= t0.push(declared[i as int]));
            if t1.contains("data.bin"@) {
                let k = choose|k: int| 0 <= k < t1.len() && t1[k] == "data.bin"@;
                if k < i {
                    assert(t0[k] == "data.bin"@);
                }
            }
            if t0.contains("data.bin"@) {
                let k = choose|k: int| 0 <= k < t0.len() && t0[k] == "data.bin"@;
                assert(t1[k] == "data.bin"@);
            }
            if is_data_bin {
                assert(t1[i as int] == "data.bin"@);
            }
        }
        let kind = file_kind_from_declared_name(declared_name.as_str());
        let ghost before = file_views(files@);
        let record = ResourceFile { file_kind: kind, file_zip_path };
        assert(record@ == body[i as int]);
        files.push(record);
        proof {
            assert(file_views(files@) =~= before.push(body[i as int]));
            assert(declared.take(i + 1) =~= declared.take(i as int).push(declared[i as int]));
            assert(body.take(i + 1) =~= body.take(i as int).push(body[i as int]));
            assert(file_views(files@) =~= head + body.take(i + 1));
        }
        i = i + 1;
    }
    proof {
        assert(body.take(declared.len() as int) =~= body);
        assert(declared.take(declared.len() as int) =~= declared);
    }
    let data_bin_path = concat(folder.as_str(), "data.bin");
    if !has_data_bin_declared && sorted_contains(entry_set, data_bin_path.as_str()) {
        files.push(
            ResourceFile { file_kind: String::from_str("data.bin"), file_zip_path: data_bin_path },
        );
        assert(file_views(files@) =~= head + body + seq![ResourceFileView { file_kind: "data.bin"@, file_zip_path: folder@ + "data.bin"@ }]);
    }
    Ok(files)
}

/// Every file of a resource whose declared files are all present is in the
/// archive: the list opens with the manifest itself, and each later file is
/// one of the entries.
pub proof fn lemma_resource_files_exist(
    json_path: Seq<char>,
    folder: Seq<char>,
    declared: Seq<Seq<char>>,
    entries: Seq<Seq<char>>,
)
    requires
        forall|k: int| 0 <= k < declared.len() ==> !#[trigger] declared_missing(folder, declared, entries, k),
    ensures
        resource_files_of(json_path, folder, declared, entries).len() >= 1,
        resource_files_of(json_path, folder, declared, entries)[0] == (ResourceFileView {
            file_kind: "resource.json"@,
            file_zip_path: json_path,
        }),
        forall|i: int|
            1 <= i < resource_files_of(json_path, folder, declared, entries).len()
                ==> entries.contains(
                #[trigger] resource_files_of(json_path, folder, declared, entries)[i].file_zip_path,
            ),
{
    let fs = resource_files_of(json_path, folder, declared, entries);
    let body = declared.map_values(|d: Seq<char>| declared_file(folder, d));
    assert forall|i: int| 1 <= i < fs.len() implies entries.contains(#[trigger] fs[i].file_zip_path) by {
        if i <= declared.len() {
            assert(fs[i] == body[i - 1]);
            assert(!declared_missing(folder, declared, entries, i - 1));
        }
    }
}

/// An undeclared `data.bin` of the resource folder is listed once, at the
/// end; a declared one is not listed again.
pub proof fn lemma_data_bin_once(
    json_path: Seq<char>,
    folder: Seq<char>,
    declared: Seq<Seq<char>>,
    entries: Seq<Seq<char>>,
)
    requires
        resource_folder_of(json_path) == Some(folder),
    ensures
        ({
            let fs = resource_files_of(json_path, folder, declared, entries);
            let data_bin = folder + "data.bin"@;
            &&& declared.contains("data.bin"@) ==> fs.len() == declared.len() + 1
            &&& (!declared.contains("data.bin"@) && entries.contains(data_bin)) ==> {
                &&& fs.len() == declared.len() + 2
                &&& fs.last() == (ResourceFileView { file_kind: "data.bin"@, file_zip_path: data_bin })
                &&& forall|i: int| 0 <= i < fs.len() - 1 ==> (#[trigger] fs[i]).file_zip_path != data_bin
            }
        }),
{
    let fs = resource_files_of(json_path, folder, declared, entries);
    let data_bin = folder + "data.bin"@;
    let body = declared.map_values(|d: Seq<char>| declared_file(folder, d));
    if !declared.contains("data.bin"@) && entries.contains(data_bin) {
        assert forall|i: int| 0 <= i < fs.len() - 1 implies (#[trigger] fs[i]).file_zip_path != data_bin by {
            if i == 0 {
                assert(json_path =~= folder + "resource.json"@);
                assert(json_path[folder.len() as int] != data_bin[folder.len() as int]) by {
                    reveal_strlit("resource.json");
                    reveal_strlit("data.bin");
                }
            } else {
                let d = declared[i - 1];
                assert(fs[i] == body[i - 1]);
                if folder + d == data_bin {
                    assert(d =~= (folder + d).skip(folder.len() as int));
                    assert("data.bin"@ =~= data_bin.skip(folder.len() as int));
                    assert(declared.contains(d));
                }
            }
        }
    }
}

} // verus!
