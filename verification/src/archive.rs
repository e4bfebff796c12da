//! Archive shapes: what kind of archive a list of entry names describes and
//! which project roots it holds.
use std::io::Cursor;
use vstd::prelude::*;
use zip::ZipArchive;
use crate::error::{AppError, AppErrorView};
use crate::zipread::{member_read_details, read_member, zip_member_content, zip_source};
use crate::sorted::{enumerates, insert_sorted_unique};
use crate::text::{
    chars_of, concat, contains_char, leading_run, opt_text, replace_char, replace_chars,
    string_of_range, strictly_sorted, strip_prefix, strip_suffix, text_eq, texts, trim_leading,
};

verus! {

/// What an archive holds: a single project export, a gateway backup, or neither.
#[derive(Debug, Clone, Copy, PartialEq, Eq, Structural)]
pub enum ArchiveKind {
    ProjectExport,
    GatewayBackup,
    Unknown,
}

/// The stable label of each archive kind.
pub open spec fn kind_label(kind: ArchiveKind) -> Seq<char> {
    match kind {
        ArchiveKind::ProjectExport => "project_export"@,
        ArchiveKind::GatewayBackup => "gateway_backup"@,
        ArchiveKind::Unknown => "unknown"@,
    }
}

impl ArchiveKind {
    /// Returns the stable label of the kind.
    pub fn as_str(self) -> (label: &'static str)
        ensures
            label@ == kind_label(self),
    {
        match self {
            ArchiveKind::ProjectExport => "project_export",
            ArchiveKind::GatewayBackup => "gateway_backup",
            ArchiveKind::Unknown => "unknown",
        }
    }
}

/// Which project roots were selected for analysis.
#[derive(Debug, Clone, PartialEq, Eq)]
pub enum ProjectSelection {
    Single { root: String },
    Multiple { roots: Vec<String> },
    NoRoots,
}

/// The content of a project selection.
pub enum ProjectSelectionView {
    Single { root: Seq<char> },
    Multiple { roots: Seq<Seq<char>> },
    NoRoots,
}

impl View for ProjectSelection {
    type V = ProjectSelectionView;

    open spec fn view(&self) -> ProjectSelectionView {
        match self {
            ProjectSelection::Single { root } => ProjectSelectionView::Single { root: root@ },
            ProjectSelection::Multiple { roots } => ProjectSelectionView::Multiple {
                roots: texts(roots@),
            },
            ProjectSelection::NoRoots => ProjectSelectionView::NoRoots,
        }
    }
}

/// The kind of an archive and the project roots found in it.
#[derive(Debug, Clone, PartialEq, Eq)]
pub struct ArchiveInspection {
    pub archive_kind: ArchiveKind,
    pub project_selection: ProjectSelection,
    pub detected_project_roots: Vec<String>,
    pub selected_project_roots: Vec<String>,
}

/// The content of an inspection.
pub struct ArchiveInspectionView {
    pub archive_kind: ArchiveKind,
    pub project_selection: ProjectSelectionView,
    pub detected_project_roots: Seq<Seq<char>>,
    pub selected_project_roots: Seq<Seq<char>>,
}

impl View for ArchiveInspection {
    type V = ArchiveInspectionView;

    open spec fn view(&self) -> ArchiveInspectionView {
        ArchiveInspectionView {
            archive_kind: self.archive_kind,
            project_selection: self.project_selection@,
            detected_project_roots: texts(self.detected_project_roots@),
            selected_project_roots: texts(self.selected_project_roots@),
        }
    }
}

/// Metadata extracted from a `project.json` document.
#[derive(Debug, Clone, PartialEq, Eq)]
pub struct ProjectMetadata {
    pub project_root: String,
    pub title: String,
    pub description: Option<String>,
    pub parent: Option<String>,
    pub enabled: bool,
    pub inheritable: bool,
}

/// The content of project metadata.
pub struct ProjectMetadataView {
    pub project_root: Seq<char>,
    pub title: Seq<char>,
    pub description: Option<Seq<char>>,
    pub parent: Option<Seq<char>>,
    pub enabled: bool,
    pub inheritable: bool,
}

impl View for ProjectMetadata {
    type V = ProjectMetadataView;

    open spec fn view(&self) -> ProjectMetadataView {
        ProjectMetadataView {
            project_root: self.project_root@,
            title: self.title@,
            description: opt_text(self.description),
            parent: opt_text(self.parent),
            enabled: self.enabled,
            inheritable: self.inheritable,
        }
    }
}

/// The contents of a list of project metadata.
pub open spec fn metadata_views(ms: Seq<ProjectMetadata>) -> Seq<ProjectMetadataView> {
    ms.map_values(|m: ProjectMetadata| m@)
}

/// The fields of a `project.json` document, before the root they belong to is known.
#[derive(Debug, Clone, PartialEq, Eq)]
pub struct RawProjectParsed {
    pub title: String,
    pub description: Option<String>,
    pub parent: Option<String>,
    pub enabled: bool,
    pub inheritable: bool,
}

impl RawProjectParsed {
    /// Attaches a project root to parsed `project.json` fields.
    pub fn with_root(self, project_root: String) -> (m: ProjectMetadata)
        ensures
            m.project_root@ == project_root@,
            m.title@ == self.title@,
            opt_text(m.description) == opt_text(self.description),
            opt_text(m.parent) == opt_text(self.parent),
            m.enabled == self.enabled,
            m.inheritable == self.inheritable,
    {
        ProjectMetadata {
            project_root,
            title: self.title,
            description: self.description,
            parent: self.parent,
            enabled: self.enabled,
            inheritable: self.inheritable,
        }
    }
}

/// An entry name with backslashes turned into slashes and leading slashes removed.
pub open spec fn normalized_entry_name(name: Seq<char>) -> Seq<char> {
    trim_leading(replace_char(name, '\\', '/'), '/')
}

/// Normalizes entry names to forward slashes and strips leading separators.
pub fn normalize_zip_entry_name(name: &str) -> (r: String)
    ensures
        r@ == normalized_entry_name(name@),
{
    let cs = chars_of(name);
    let slashed = replace_chars(&cs, '\\', '/');
    let n = leading_run(&slashed, '/');
    let r = string_of_range(&slashed, n, slashed.len());
    assert(r@ =~= slashed@.skip(n as int));
    r
}

/// The project name of an entry shaped `projects/<name>/project.json`, where
/// the name is not empty and holds no slash.
pub open spec fn gateway_project_name_of(entry: Seq<char>) -> Option<Seq<char>> {
    if "projects/"@.is_prefix_of(entry) {
        let rest = entry.skip("projects/"@.len() as int);
        if "/project.json"@.is_suffix_of(rest) {
            let name = rest.take(rest.len() - "/project.json"@.len());
            if name.len() == 0 || name.contains('/') {
                None
            } else {
                Some(name)
            }
        } else {
            None
        }
    } else {
        None
    }
}

/// The project root `projects/<name>/` that a gateway project entry stands for.
pub open spec fn gateway_root_of(entry: Seq<char>) -> Option<Seq<char>> {
    match gateway_project_name_of(entry) {
        Some(name) => Some("projects/"@ + name + "/"@),
        None => None,
    }
}

/// All gateway project roots named by a list of entries.
pub open spec fn gateway_roots_of(entries: Seq<Seq<char>>) -> Set<Seq<char>> {
    Set::new(
        |r: Seq<char>|
            exists|i: int| 0 <= i < entries.len() && #[trigger] gateway_root_of(entries[i]) == Some(r),
    )
}

/// Whether some entry is a gateway project's `project.json`.
pub open spec fn has_gateway_project(entries: Seq<Seq<char>>) -> bool {
    exists|i: int| 0 <= i < entries.len() && (#[trigger] gateway_project_name_of(entries[i])) is Some
}

/// The kind of archive a list of normalized entry names describes: a root
/// `project.json` makes a project export, even when gateway projects are there too.
pub open spec fn archive_kind_of(entries: Seq<Seq<char>>) -> ArchiveKind {
    if entries.contains("project.json"@) {
        ArchiveKind::ProjectExport
    } else if has_gateway_project(entries) {
        ArchiveKind::GatewayBackup
    } else {
        ArchiveKind::Unknown
    }
}

/// Returns a gateway project name when entry matches `projects/<name>/project.json`.
pub fn gateway_project_name(entry: &str) -> (r: Option<String>)
    ensures
        opt_text(r) == gateway_project_name_of(entry@),
{
    let rest = match strip_prefix(entry, "projects/") {
        Some(rest) => rest,
        None => return None,
    };
    let name = match strip_suffix(rest.as_str(), "/project.json") {
        Some(name) => name,
        None => return None,
    };
    if name.as_str().is_empty() || contains_char(name.as_str(), '/') {
        return None;
    }
    Some(name)
}

/// Extracts gateway project roots from entry names, sorted and without repeats.
pub fn detect_gateway_project_roots(entries: &Vec<String>) -> (roots: Vec<String>)
    ensures
        enumerates(texts(roots@), gateway_roots_of(texts(entries@))),
{
    let ghost es = texts(entries@);
    let mut roots: Vec<String> = Vec::new();
    let mut i: usize = 0;
    while i < entries.len()
        invariant
            es == texts(entries@),
            i <= entries@.len(),
            strictly_sorted(texts(roots@)),
            forall|t: Seq<char>| #[trigger]
                texts(roots@).contains(t) <==> exists|k: int|
                    0 <= k < i && #[trigger] gateway_root_of(es[k]) == Some(t),
        decreases entries@.len() - i,
    {
        let ghost before = texts(roots@);
        if let Some(name) = gateway_project_name(entries[i].as_str()) {
            let root = concat("projects/", name.as_str());
            let root = concat(root.as_str(), "/");
            let ghost r = root@;
            assert(gateway_root_of(es[i as int]) == Some(r));
            insert_sorted_unique(&mut roots, root);
            assert forall|t: Seq<char>| #[trigger] texts(roots@).contains(t) <==> exists|k: int|
                0 <= k < i + 1 && #[trigger] gateway_root_of(es[k]) == Some(t) by {
                if texts(roots@).contains(t) && t != r {
                    assert(before.contains(t));
                }
                if exists|k: int| 0 <= k < i + 1 && #[trigger] gateway_root_of(es[k]) == Some(t) {
                    let k = choose|k: int| 0 <= k < i + 1 && #[trigger] gateway_root_of(es[k]) == Some(t);
                    if k < i {
                        assert(before.contains(t));
                    }
                }
            }
        } else {
            assert forall|t: Seq<char>| #[trigger] texts(roots@).contains(t) <==> exists|k: int|
                0 <= k < i + 1 && #[trigger] gateway_root_of(es[k]) == Some(t) by {
                if exists|k: int| 0 <= k < i + 1 && #[trigger] gateway_root_of(es[k]) == Some(t) {
                    let k = choose|k: int| 0 <= k < i + 1 && #[trigger] gateway_root_of(es[k]) == Some(t);
                    assert(k < i);
                }
            }
        }
        i = i + 1;
    }
    assert forall|t: Seq<char>| #[trigger]
        texts(roots@).contains(t) <==> gateway_roots_of(es).contains(t) by {
    }
    roots
}

/// Whether a root project is present: some entry equals `project.json`.
fn has_root_project(entries: &Vec<String>) -> (r: bool)
    ensures
        r == texts(entries@).contains("project.json"@),
{
    let ghost es = texts(entries@);
    let mut i: usize = 0;
    while i < entries.len()
        invariant
            es == texts(entries@),
            i <= entries@.len(),
            forall|k: int| 0 <= k < i ==> es[k] != "project.json"@,
        decreases entries@.len() - i,
    {
        if text_eq(entries[i].as_str(), "project.json") {
            assert(es[i as int] == "project.json"@);
            return true;
        }
        i = i + 1;
    }
    false
}

/// Detects archive kind from normalized entry names.
pub fn detect_archive_kind(entries: &Vec<String>) -> (kind: ArchiveKind)
    ensures
        kind == archive_kind_of(texts(entries@)),
{
    if has_root_project(entries) {
        return ArchiveKind::ProjectExport;
    }
    let roots = detect_gateway_project_roots(entries);
    proof {
        let es = texts(entries@);
        if has_gateway_project(es) {
            let k = choose|k: int| 0 <= k < es.len() && (#[trigger] gateway_project_name_of(es[k])) is Some;
            let r = gateway_root_of(es[k])->0;
            assert(gateway_roots_of(es).contains(r));
            assert(texts(roots@).contains(r));
        }
        if roots@.len() > 0 {
            assert(texts(roots@).contains(texts(roots@)[0]));
        }
    }
    if roots.len() == 0 {
        ArchiveKind::Unknown
    } else {
        ArchiveKind::GatewayBackup
    }
}

/// How a list of selected roots is presented: none, one, or several.
pub open spec fn selection_of(roots: Seq<Seq<char>>) -> ProjectSelectionView {
    if roots.len() == 0 {
        ProjectSelectionView::NoRoots
    } else if roots.len() == 1 {
        ProjectSelectionView::Single { root: roots[0] }
    } else {
        ProjectSelectionView::Multiple { roots }
    }
}

/// The details of the error given for an archive of unknown shape.
pub open spec fn unknown_shape_details() -> Seq<char> {
    "expected `project.json` at archive root or one/more `projects/<name>/project.json` roots"@
}

/// The inspection owed for a list of normalized entry names, when the archive
/// has a known shape: a project export has the single root `""`, a gateway
/// backup every gateway root in increasing order.
pub open spec fn inspection_matches(entries: Seq<Seq<char>>, v: ArchiveInspectionView) -> bool {
    &&& v.archive_kind == archive_kind_of(entries)
    &&& v.selected_project_roots == v.detected_project_roots
    &&& v.project_selection == selection_of(v.selected_project_roots)
    &&& match v.archive_kind {
        ArchiveKind::ProjectExport => v.detected_project_roots == seq![Seq::<char>::empty()],
        ArchiveKind::GatewayBackup => enumerates(
            v.detected_project_roots,
            gateway_roots_of(entries),
        ),
        ArchiveKind::Unknown => false,
    }
}

/// Derives the archive kind and the selected project roots from entry names.
pub fn inspect_entries(archive_path: &str, entries: &Vec<String>) -> (r: Result<
    ArchiveInspection,
    AppError,
>)
    ensures
        r is Err <==> archive_kind_of(texts(entries@)) == ArchiveKind::Unknown,
        r matches Ok(v) ==> inspection_matches(texts(entries@), v@),
        r matches Err(e) ==> e@ == (AppErrorView::ProjectRootDetection {
            archive_path: archive_path@,
            details: unknown_shape_details(),
        }),
{
    let kind = detect_archive_kind(entries);
    let gateway_roots = detect_gateway_project_roots(entries);
    let (detected, selected) = match kind {
        ArchiveKind::ProjectExport => {
            let mut d: Vec<String> = Vec::new();
            d.push(String::new());
            let mut s: Vec<String> = Vec::new();
            s.push(String::new());
            assert(texts(d@) =~= seq![Seq::<char>::empty()]);
            assert(texts(s@) =~= seq![Seq::<char>::empty()]);
            (d, s)
        },
        ArchiveKind::GatewayBackup => {
            let d = gateway_roots.clone();
            assert(texts(d@) =~= texts(gateway_roots@));
            (d, gateway_roots)
        },
        ArchiveKind::Unknown => {
            return Err(
                AppError::project_root_detection(
                    archive_path,
                    "expected `project.json` at archive root or one/more `projects/<name>/project.json` roots",
                ),
            );
        },
    };
    let selection = if selected.len() == 0 {
        ProjectSelection::NoRoots
    } else if selected.len() == 1 {
        ProjectSelection::Single { root: selected[0].clone() }
    } else {
        let roots = selected.clone();
        assert(texts(roots@) =~= texts(selected@));
        ProjectSelection::Multiple { roots }
    };
    let inspection = ArchiveInspection {
        archive_kind: kind,
        project_selection: selection,
        detected_project_roots: detected,
        selected_project_roots: selected,
    };
    Ok(inspection)
}

/// Builds the path leading to a project's `project.json` file.
pub fn project_json_member_path(project_root: &str) -> (p: String)
    ensures
        p@ == project_root@ + "project.json"@,
{
    concat(project_root, "project.json")
}

/// The bytes of the `project.json` of a project root in an open archive;
/// the error says whether the member is missing or could not be read.
pub fn read_project_manifest(
    archive: &mut ZipArchive<Cursor<Vec<u8>>>,
    archive_path: &str,
    project_root: &str,
) -> (r: Result<Vec<u8>, AppError>)
    ensures
        ({
            let bytes = zip_source(*old(archive));
            let member = project_root@ + "project.json"@;
            &&& zip_source(*final(archive)) == bytes
            &&& r is Ok <==> zip_member_content(bytes, member) is Some
            &&& r matches Ok(b) ==> zip_member_content(bytes, member) == Some(b@)
            &&& r matches Err(e) ==> e@ == (AppErrorView::ArchiveRead {
                archive_path: archive_path@,
                details: member_read_details(bytes, member),
            })
        }),
{
    let member = project_json_member_path(project_root);
    read_member(archive, archive_path, member.as_str())
}

/// A normalized entry name is the name with its leading run of slashes and
/// backslashes dropped and every other backslash turned into a slash, every
/// other character kept in place: it uses forward slashes only and never
/// starts with a slash.
pub proof fn lemma_normalized_name_form(name: Seq<char>)
    ensures
        !normalized_entry_name(name).contains('\\'),
        normalized_entry_name(name).len() > 0 ==> normalized_entry_name(name)[0] != '/',
        exists|j: int|
            #![trigger name.skip(j)]
            0 <= j <= name.len() && (forall|i: int| 0 <= i < j ==> name[i] == '/' || name[i] == '\\')
                && normalized_entry_name(name) == name.skip(j).map_values(
                |ch: char|
                    if ch == '\\' {
                        '/'
                    } else {
                        ch
                    },
            ),
{
    let slashed = replace_char(name, '\\', '/');
    lemma_trim_leading_form(slashed, '/');
    let r = normalized_entry_name(name);
    let j = choose|j: int|
        0 <= j <= slashed.len() && r == slashed.skip(j) && forall|i: int|
            0 <= i < j ==> slashed[i] == '/';
    if r.contains('\\') {
        let i = choose|i: int| 0 <= i < r.len() && r[i] == '\\';
        assert(slashed[i + j] == '\\');
    }
    assert forall|i: int| 0 <= i < j implies name[i] == '/' || name[i] == '\\' by {
        assert(slashed[i] == '/');
    }
    assert(r =~= name.skip(j).map_values(|ch: char| if ch == '\\' { '/' } else { ch }));
}

/// Trimming a character from the front drops a leading run of it and leaves
/// a suffix that does not start with it.
proof fn lemma_trim_leading_form(s: Seq<char>, c: char)
    ensures
        exists|j: int|
            0 <= j <= s.len() && trim_leading(s, c) == s.skip(j) && forall|i: int|
                0 <= i < j ==> s[i] == c,
        trim_leading(s, c).len() > 0 ==> trim_leading(s, c)[0] != c,
    decreases s.len(),
{
    if s.len() > 0 && s[0] == c {
        lemma_trim_leading_form(s.drop_first(), c);
        let j = choose|j: int|
            0 <= j <= s.drop_first().len() && trim_leading(s.drop_first(), c) == s.drop_first().skip(
                j,
            ) && forall|i: int| 0 <= i < j ==> s.drop_first()[i] == c;
        assert(s.drop_first().skip(j) =~= s.skip(j + 1));
        assert forall|i: int| 0 <= i < j + 1 implies s[i] == c by {
            if i > 0 {
                assert(s.drop_first()[i - 1] == c);
            }
        }
    } else {
        assert(s.skip(0) =~= s);
    }
}

/// A root `project.json` makes a project export, whatever gateway projects
/// the archive also holds.
pub proof fn lemma_root_project_wins(entries: Seq<Seq<char>>)
    requires
        entries.contains("project.json"@),
    ensures
        archive_kind_of(entries) == ArchiveKind::ProjectExport,
{
}

/// Every detected gateway root is `projects/<name>/` for a non-empty name
/// without slashes, taken from a `projects/<name>/project.json` entry.
pub proof fn lemma_gateway_roots_form(entries: Seq<Seq<char>>, r: Seq<char>)
    requires
        gateway_roots_of(entries).contains(r),
    ensures
        exists|name: Seq<char>|
            name.len() > 0 && !name.contains('/') && r == "projects/"@ + name + "/"@
                && entries.contains("projects/"@ + name + "/project.json"@),
{
    let i = choose|i: int| 0 <= i < entries.len() && #[trigger] gateway_root_of(entries[i]) == Some(r);
    let e = entries[i];
    let name = gateway_project_name_of(e)->0;
    let rest = e.skip("projects/"@.len() as int);
    assert(e =~= "projects/"@ + rest);
    assert(rest =~= name + "/project.json"@);
    assert(e =~= "projects/"@ + name + "/project.json"@);
    assert(entries.contains(e));
}

/// Every entry `projects/<name>/project.json` whose name is not empty and
/// holds no slash names a gateway project: the name is read back from the
/// entry, the root `projects/<name>/` is among the detected gateway roots,
/// and without a root `project.json` the archive is a gateway backup whose
/// inspection selects that root.
pub proof fn lemma_gateway_entry_detected(entries: Seq<Seq<char>>, name: Seq<char>)
    requires
        name.len() > 0,
        !name.contains('/'),
        entries.contains("projects/"@ + name + "/project.json"@),
    ensures
        gateway_project_name_of("projects/"@ + name + "/project.json"@) == Some(name),
        gateway_roots_of(entries).contains("projects/"@ + name + "/"@),
        !entries.contains("project.json"@) ==> archive_kind_of(entries)
            == ArchiveKind::GatewayBackup,
        forall|v: ArchiveInspectionView|
            #![trigger inspection_matches(entries, v)]
            inspection_matches(entries, v) && !entries.contains("project.json"@)
                ==> v.selected_project_roots.contains("projects/"@ + name + "/"@),
{
    let p = "projects/"@;
    let sfx = "/project.json"@;
    let e = p + name + sfx;
    assert(e.subrange(0, p.len() as int) =~= p);
    let rest = e.skip(p.len() as int);
    assert(rest =~= name + sfx);
    assert(rest.subrange(rest.len() - sfx.len(), rest.len() as int) =~= sfx);
    assert(rest.take(rest.len() - sfx.len()) =~= name);
    assert(gateway_project_name_of(e) == Some(name));
    let i = choose|i: int| 0 <= i < entries.len() && entries[i] == e;
    assert(gateway_root_of(entries[i]) == Some(p + name + "/"@));
    assert(gateway_roots_of(entries).contains(p + name + "/"@));
    if !entries.contains("project.json"@) {
        assert(gateway_project_name_of(entries[i]) is Some);
        assert(has_gateway_project(entries));
    }
}

} // verus!
