//! Reading zip archives held in memory: the entry listing, the archive
//! inspection built on it, and the bytes of single members.
use std::io::Cursor;
use std::io::Read;
use vstd::prelude::*;
use zip::ZipArchive;
use crate::archive::{
    archive_kind_of, gateway_roots_of, inspect_entries, inspection_matches, normalize_zip_entry_name,
    normalized_entry_name, unknown_shape_details, ArchiveInspection, ArchiveInspectionView,
    ArchiveKind,
};
use crate::error::{AppError, AppErrorView};
use crate::sorted::{enumerates, insert_sorted_unique, lemma_enumeration_unique};
use crate::text::{concat, decimal, decimal_text, strictly_sorted, texts};

verus! {

#[verifier::external_type_specification]
#[verifier::external_body]
#[verifier::reject_recursive_types(R)]
pub struct ExZipArchive<R>(ZipArchive<R>);

#[verifier::external_type_specification]
#[verifier::external_body]
#[verifier::reject_recursive_types(T)]
pub struct ExCursor<T>(Cursor<T>);

/// The bytes an open archive reads from.
pub uninterp spec fn zip_source(archive: ZipArchive<Cursor<Vec<u8>>>) -> Seq<u8>;

/// What `ZipArchive::new` makes of the bytes: `None` when it opens them as a
/// zip archive, else the `Display` text of its error.
pub uninterp spec fn zip_open_failure(bytes: Seq<u8>) -> Option<Seq<char>>;

/// Whether `ZipArchive::new` accepts these bytes as a zip archive.
pub open spec fn zip_opens(bytes: Seq<u8>) -> bool {
    zip_open_failure(bytes) is None
}

/// The number of entries in the central directory of the archive in `bytes`.
pub uninterp spec fn zip_entry_count(bytes: Seq<u8>) -> nat;

/// What `ZipArchive::by_index` and then `ZipFile::name` give for the entry at
/// `index` of the archive in `bytes`: its name, or the `Display` text of the error.
pub uninterp spec fn zip_entry_at(bytes: Seq<u8>, index: int) -> Result<Seq<char>, Seq<char>>;

/// The name of the entry at `index`, when it can be opened and its name decoded.
pub open spec fn zip_entry_name_at(bytes: Seq<u8>, index: int) -> Option<Seq<char>> {
    match zip_entry_at(bytes, index) {
        Ok(name) => Some(name),
        Err(_) => None,
    }
}

/// What reading the member of this name gives (`ZipArchive::by_name`, then
/// `Read::read_to_end` on the member): its content; else whether `by_name`
/// opened the member, and the `Display` text of the error.
pub uninterp spec fn zip_member_read(bytes: Seq<u8>, name: Seq<char>) -> Result<
    Seq<u8>,
    (bool, Seq<char>),
>;

/// Whether `ZipArchive::by_name` opens a member of this name in the archive in `bytes`.
pub open spec fn zip_member_found(bytes: Seq<u8>, name: Seq<char>) -> bool {
    match zip_member_read(bytes, name) {
        Ok(_) => true,
        Err(failure) => failure.0,
    }
}

/// The decompressed content of the member of this name, when it can be opened and read to its end.
pub open spec fn zip_member_content(bytes: Seq<u8>, name: Seq<char>) -> Option<Seq<u8>> {
    match zip_member_read(bytes, name) {
        Ok(content) => Some(content),
        Err(_) => None,
    }
}

/// The text view of a result whose both sides are strings.
pub open spec fn text_result(r: Result<String, String>) -> Result<Seq<char>, Seq<char>> {
    match r {
        Ok(t) => Ok(t@),
        Err(t) => Err(t@),
    }
}

/// Opens the zip archive held in `bytes` (`zip::ZipArchive::new` over a
/// cursor on a copy of the bytes; an error is kept as its `Display` text).
/// Claims: the outcome is the one named by `zip_open_failure`, and an open
/// archive reads from those bytes.
#[verifier::external_body]
fn zip_open(bytes: &[u8]) -> (r: Result<ZipArchive<Cursor<Vec<u8>>>, String>)
    ensures
        match r {
            Ok(a) => zip_open_failure(bytes@) is None && zip_source(a) == bytes@,
            Err(t) => zip_open_failure(bytes@) == Some(t@),
        },
{
    match ZipArchive::new(Cursor::new(bytes.to_vec())) {
        Ok(a) => Ok(a),
        Err(e) => Err(e.to_string()),
    }
}

/// The number of entries (`ZipArchive::len`). Claims: it is the count named
/// `zip_entry_count` of the archive's bytes.
#[verifier::external_body]
fn zip_len(archive: &ZipArchive<Cursor<Vec<u8>>>) -> (n: usize)
    ensures
        n == zip_entry_count(zip_source(*archive)),
{
    archive.len()
}

/// The name of the entry at `index` (`ZipArchive::by_index`, then
/// `ZipFile::name`, which borrows the opened entry; an error is kept as its
/// `Display` text). Claims: the outcome is the one named by `zip_entry_at`,
/// and the archive keeps reading the same bytes.
#[verifier::external_body]
fn zip_entry_name(archive: &mut ZipArchive<Cursor<Vec<u8>>>, index: usize) -> (r: Result<
    String,
    String,
>)
    ensures
        zip_source(*final(archive)) == zip_source(*old(archive)),
        zip_entry_at(zip_source(*old(archive)), index as int) == text_result(r),
{
    match archive.by_index(index).and_then(|file| file.name().map(|n| n.into_owned())) {
        Ok(name) => Ok(name),
        Err(e) => Err(e.to_string()),
    }
}

/// Why a member could not be read, with the `Display` text of the error: it
/// is not in the archive, or reading it failed.
pub enum MemberFailure {
    Missing(String),
    Unreadable(String),
}

/// The view of the result of reading a member.
pub open spec fn member_result(r: Result<Vec<u8>, MemberFailure>) -> Result<
    Seq<u8>,
    (bool, Seq<char>),
> {
    match r {
        Ok(b) => Ok(b@),
        Err(MemberFailure::Missing(t)) => Err((false, t@)),
        Err(MemberFailure::Unreadable(t)) => Err((true, t@)),
    }
}

/// The content of the member `name` (`ZipArchive::by_name`, then
/// `Read::read_to_end` on the member, which borrows the archive; an error is
/// kept as its `Display` text). Claims: the outcome is the one named by
/// `zip_member_read`, and the archive keeps reading the same bytes.
#[verifier::external_body]
fn zip_member_bytes(archive: &mut ZipArchive<Cursor<Vec<u8>>>, name: &str) -> (r: Result<
    Vec<u8>,
    MemberFailure,
>)
    ensures
        zip_source(*final(archive)) == zip_source(*old(archive)),
        zip_member_read(zip_source(*old(archive)), name@) == member_result(r),
{
    let mut file = match archive.by_name(name) {
        Ok(file) => file,
        Err(e) => return Err(MemberFailure::Missing(e.to_string())),
    };
    let mut bytes = Vec::new();
    match file.read_to_end(&mut bytes) {
        Ok(_) => Ok(bytes),
        Err(e) => Err(MemberFailure::Unreadable(e.to_string())),
    }
}

/// The set of normalized, non-empty entry names among the first `n` entries.
pub open spec fn listed_names(bytes: Seq<u8>, n: int) -> Set<Seq<char>> {
    Set::new(
        |t: Seq<char>|
            t.len() > 0 && exists|i: int|
                0 <= i < n && #[trigger] zip_entry_name_at(bytes, i) is Some
                    && normalized_entry_name(zip_entry_name_at(bytes, i)->0) == t,
    )
}

/// The entry at `index` cannot be listed.
pub open spec fn entry_unreadable(bytes: Seq<u8>, index: int) -> bool {
    zip_entry_name_at(bytes, index) is None
}

/// The details of an error for bytes that are not a zip archive begin so.
pub open spec fn not_a_zip_prefix() -> Seq<char> {
    "not a valid zip archive: "@
}

/// The details of an error for an entry that cannot be listed begin so.
pub open spec fn unreadable_entry_prefix(index: nat) -> Seq<char> {
    "could not read zip entry at index "@ + decimal_text(index) + ": "@
}

/// Listing the entries of the archive in `bytes` fails: the bytes are not a
/// zip archive, or some entry cannot be listed.
pub open spec fn listing_fails(bytes: Seq<u8>) -> bool {
    !zip_opens(bytes) || exists|i: int|
        0 <= i < zip_entry_count(bytes) && #[trigger] entry_unreadable(bytes, i)
}

/// The first entry of the archive in `bytes` that cannot be listed.
pub open spec fn first_unreadable(bytes: Seq<u8>) -> int {
    choose|i: int|
        0 <= i < zip_entry_count(bytes) && #[trigger] entry_unreadable(bytes, i) && forall|j: int|
            0 <= j < i ==> !entry_unreadable(bytes, j)
}

/// The error given when listing the archive in `bytes` fails: the bytes are
/// not a zip archive, or (at the first one) an entry cannot be listed; the
/// details end with the text of the zip error.
pub open spec fn listing_error(archive_path: Seq<char>, bytes: Seq<u8>) -> AppErrorView {
    if !zip_opens(bytes) {
        AppErrorView::ArchiveRead {
            archive_path,
            details: not_a_zip_prefix() + zip_open_failure(bytes)->0,
        }
    } else {
        let i = first_unreadable(bytes);
        AppErrorView::ArchiveRead {
            archive_path,
            details: unreadable_entry_prefix(i as nat) + zip_entry_at(bytes, i)->Err_0,
        }
    }
}

/// The outcome owed by listing the archive in `bytes`: its error, else the
/// normalized, non-empty entry names in strictly increasing order.
pub open spec fn listing_matches(
    archive_path: Seq<char>,
    bytes: Seq<u8>,
    r: Result<Seq<Seq<char>>, AppErrorView>,
) -> bool {
    if listing_fails(bytes) {
        r == Err::<Seq<Seq<char>>, AppErrorView>(listing_error(archive_path, bytes))
    } else {
        r matches Ok(names) && enumerates(
            names,
            listed_names(bytes, zip_entry_count(bytes) as int),
        )
    }
}

/// The view of a listing result.
pub open spec fn listing_view(r: Result<Vec<String>, AppError>) -> Result<
    Seq<Seq<char>>,
    AppErrorView,
> {
    match r {
        Ok(v) => Ok(texts(v@)),
        Err(e) => Err(e@),
    }
}

/// Lists archive entries in deterministic order: the normalized, non-empty
/// entry names, sorted and without repeats.
pub fn list_archive_entries(archive_path: &str, archive_bytes: &[u8]) -> (r: Result<
    Vec<String>,
    AppError,
>)
    ensures
        listing_matches(archive_path@, archive_bytes@, listing_view(r)),
        r matches Ok(v) ==> strictly_sorted(texts(v@)),
{
    let ghost bytes = archive_bytes@;
    let mut archive = match zip_open(archive_bytes) {
        Ok(a) => a,
        Err(e) => {
            let details = concat("not a valid zip archive: ", e.as_str());
            return Err(AppError::archive_read(archive_path, details.as_str()));
        },
    };
    let count = zip_len(&archive);
    let mut entries: Vec<String> = Vec::new();
    let mut index: usize = 0;
    while index < count
        invariant
            bytes == archive_bytes@,
            zip_source(archive) == bytes,
            zip_opens(bytes),
            count == zip_entry_count(bytes),
            index <= count,
            strictly_sorted(texts(entries@)),
            forall|j: int| 0 <= j < index ==> !entry_unreadable(bytes, j),
            forall|t: Seq<char>| #[trigger]
                texts(entries@).contains(t) <==> listed_names(bytes, index as int).contains(t),
        decreases count - index,
    {
        let name = match zip_entry_name(&mut archive, index) {
            Ok(name) => name,
            Err(e) => {
                let head = concat("could not read zip entry at index ", decimal(index as u64).as_str());
                let head = concat(head.as_str(), ": ");
                let details = concat(head.as_str(), e.as_str());
                let err = AppError::archive_read(archive_path, details.as_str());
                proof {
                    assert(entry_unreadable(bytes, index as int));
                    let f = first_unreadable(bytes);
                    assert(entry_unreadable(bytes, f) && forall|j: int|
                        0 <= j < f ==> !entry_unreadable(bytes, j));
                    if f < index {
                    } else if f > index {
                        assert(!entry_unreadable(bytes, index as int));
                    }
                    assert(f == index);
                    assert(details@ =~= unreadable_entry_prefix(index as nat) + zip_entry_at(bytes, f)->Err_0);
                }
                return Err(err);
            },
        };
        assert(zip_entry_name_at(bytes, index as int) == Some(name@));
        let normalized = normalize_zip_entry_name(name.as_str());
        let ghost before = texts(entries@);
        let ghost t_new = normalized@;
        if !normalized.as_str().is_empty() {
            insert_sorted_unique(&mut entries, normalized);
        }
        assert forall|t: Seq<char>| #[trigger]
            texts(entries@).contains(t) <==> listed_names(bytes, index + 1).contains(t) by {
            if listed_names(bytes, index + 1).contains(t) {
                let i = choose|i: int|
                    0 <= i < index + 1 && #[trigger] zip_entry_name_at(bytes, i) is Some
                        && normalized_entry_name(zip_entry_name_at(bytes, i)->0) == t;
                if i < index {
                    assert(listed_names(bytes, index as int).contains(t));
                    assert(before.contains(t));
                }
            }
            if texts(entries@).contains(t) {
                if t != t_new || t_new.len() == 0 {
                    assert(before.contains(t));
                    assert(listed_names(bytes, index as int).contains(t));
                }
            }
        }
        index = index + 1;
    }
    proof {
        let n = zip_entry_count(bytes) as int;
        assert(!exists|i: int| 0 <= i < n && #[trigger] entry_unreadable(bytes, i));
        assert forall|t: Seq<char>| #[trigger] texts(entries@).contains(t) <==> listed_names(
            bytes,
            n,
        ).contains(t) by {}
    }
    Ok(entries)
}

/// The view of an inspection result.
pub open spec fn inspection_view(r: Result<ArchiveInspection, AppError>) -> Result<
    ArchiveInspectionView,
    AppErrorView,
> {
    match r {
        Ok(v) => Ok(v@),
        Err(e) => Err(e@),
    }
}

/// The outcome owed by inspecting the archive in `bytes`: the listing's
/// error, else the inspection of the listed names.
pub open spec fn inspection_outcome_matches(
    archive_path: Seq<char>,
    bytes: Seq<u8>,
    r: Result<ArchiveInspection, AppError>,
) -> bool {
    if listing_fails(bytes) {
        inspection_view(r) == Err::<ArchiveInspectionView, AppErrorView>(
            listing_error(archive_path, bytes),
        )
    } else {
        let n = zip_entry_count(bytes) as int;
        exists|names: Seq<Seq<char>>|
            enumerates(names, listed_names(bytes, n)) && if archive_kind_of(names)
                == ArchiveKind::Unknown {
                r matches Err(e) && e@ == (AppErrorView::ProjectRootDetection {
                    archive_path,
                    details: unknown_shape_details(),
                })
            } else {
                r matches Ok(v) && inspection_matches(names, v@)
            }
    }
}

/// Inspects an archive held in memory and returns its kind plus selected projects.
pub fn inspect_archive(archive_path: &str, archive_bytes: &[u8]) -> (r: Result<
    ArchiveInspection,
    AppError,
>)
    ensures
        inspection_outcome_matches(archive_path@, archive_bytes@, r),
{
    let entries = match list_archive_entries(archive_path, archive_bytes) {
        Ok(entries) => entries,
        Err(e) => {
            assert(listing_view(Err(e)) == Err::<Seq<Seq<char>>, AppErrorView>(e@));
            return Err(e);
        },
    };
    let r = inspect_entries(archive_path, &entries);
    assert(enumerates(texts(entries@), listed_names(archive_bytes@, zip_entry_count(archive_bytes@) as int)));
    r
}

/// Why reading one member failed, as the text the error details carry: the
/// `Display` text of the zip or I/O error.
fn member_failure_text(f: &MemberFailure) -> (s: String)
    ensures
        s@ == match f {
            MemberFailure::Missing(t) => t@,
            MemberFailure::Unreadable(t) => t@,
        },
{
    match f {
        MemberFailure::Missing(t) => t.clone(),
        MemberFailure::Unreadable(t) => t.clone(),
    }
}

/// The details of the error for a member that cannot be read: whether it is
/// missing or its reading failed, its name, and the text of the zip error.
pub open spec fn member_read_details(bytes: Seq<u8>, name: Seq<char>) -> Seq<char> {
    let failure = zip_member_read(bytes, name)->Err_0;
    (if failure.0 {
        "could not read `"@
    } else {
        "missing expected `"@
    }) + name + "`: "@ + failure.1
}

/// The bytes of the member `member_path` of an open archive; the error says
/// whether the member is missing or could not be read.
pub fn read_member(
    archive: &mut ZipArchive<Cursor<Vec<u8>>>,
    archive_path: &str,
    member_path: &str,
) -> (r: Result<Vec<u8>, AppError>)
    ensures
        zip_source(*final(archive)) == zip_source(*old(archive)),
        r is Ok <==> zip_member_content(zip_source(*old(archive)), member_path@) is Some,
        r matches Ok(b) ==> zip_member_content(zip_source(*old(archive)), member_path@) == Some(
            b@,
        ),
        r matches Err(e) ==> e@ == (AppErrorView::ArchiveRead {
            archive_path: archive_path@,
            details: member_read_details(zip_source(*old(archive)), member_path@),
        }),
{
    let ghost bytes = zip_source(*archive);
    match zip_member_bytes(archive, member_path) {
        Ok(bytes) => Ok(bytes),
        Err(f) => {
            let found = match &f {
                MemberFailure::Missing(_) => false,
                MemberFailure::Unreadable(_) => true,
            };
            let head = if found {
                concat("could not read `", member_path)
            } else {
                concat("missing expected `", member_path)
            };
            let head = concat(head.as_str(), "`: ");
            let details = concat(head.as_str(), member_failure_text(&f).as_str());
            assert(details@ =~= member_read_details(bytes, member_path@));
            Err(AppError::archive_read(archive_path, details.as_str()))
        },
    }
}

/// Opens the archive held in `bytes`, as an archive read error when it is not one.
pub fn open_archive(archive_path: &str, archive_bytes: &[u8]) -> (r: Result<
    ZipArchive<Cursor<Vec<u8>>>,
    AppError,
>)
    ensures
        r is Ok <==> zip_opens(archive_bytes@),
        r matches Ok(a) ==> zip_source(a) == archive_bytes@,
        r matches Err(e) ==> e@ == (AppErrorView::ArchiveRead {
            archive_path: archive_path@,
            details: not_a_zip_prefix() + zip_open_failure(archive_bytes@)->0,
        }),
{
    match zip_open(archive_bytes) {
        Ok(a) => Ok(a),
        Err(e) => {
            let details = concat("not a valid zip archive: ", e.as_str());
            Err(AppError::archive_read(archive_path, details.as_str()))
        },
    }
}

/// Listing is deterministic: two listings of the same bytes give the same
/// outcome, the same error or the same names in the same order; the names
/// are sorted and without repeats.
pub proof fn lemma_listing_deterministic(
    archive_path: Seq<char>,
    bytes: Seq<u8>,
    a: Result<Seq<Seq<char>>, AppErrorView>,
    b: Result<Seq<Seq<char>>, AppErrorView>,
)
    requires
        listing_matches(archive_path, bytes, a),
        listing_matches(archive_path, bytes, b),
    ensures
        a == b,
        a matches Ok(names) ==> strictly_sorted(names),
{
    if !listing_fails(bytes) {
        lemma_enumeration_unique(
            a->Ok_0,
            b->Ok_0,
            listed_names(bytes, zip_entry_count(bytes) as int),
        );
    }
}

/// Inspection is deterministic: two inspections of the same bytes give the
/// same outcome, the same error or the same kind and roots.
pub proof fn lemma_inspection_deterministic(
    archive_path: Seq<char>,
    bytes: Seq<u8>,
    a: Result<ArchiveInspection, AppError>,
    b: Result<ArchiveInspection, AppError>,
)
    requires
        inspection_outcome_matches(archive_path, bytes, a),
        inspection_outcome_matches(archive_path, bytes, b),
    ensures
        inspection_view(a) == inspection_view(b),
{
    if !listing_fails(bytes) {
        let items = listed_names(bytes, zip_entry_count(bytes) as int);
        let na = choose|names: Seq<Seq<char>>|
            enumerates(names, items) && if archive_kind_of(names) == ArchiveKind::Unknown {
                a matches Err(e) && e@ == (AppErrorView::ProjectRootDetection {
                    archive_path,
                    details: unknown_shape_details(),
                })
            } else {
                a matches Ok(v) && inspection_matches(names, v@)
            };
        let nb = choose|names: Seq<Seq<char>>|
            enumerates(names, items) && if archive_kind_of(names) == ArchiveKind::Unknown {
                b matches Err(e) && e@ == (AppErrorView::ProjectRootDetection {
                    archive_path,
                    details: unknown_shape_details(),
                })
            } else {
                b matches Ok(v) && inspection_matches(names, v@)
            };
        lemma_enumeration_unique(na, nb, items);
        if archive_kind_of(na) == ArchiveKind::GatewayBackup {
            lemma_enumeration_unique(
                a->Ok_0@.detected_project_roots,
                b->Ok_0@.detected_project_roots,
                gateway_roots_of(na),
            );
        }
    }
}

/// Inspection passes a listing error on unchanged, and otherwise inspects
/// the listed names: its error for an archive of unknown shape, else the
/// kind and roots of those names.
pub proof fn lemma_inspection_follows_listing(
    archive_path: Seq<char>,
    bytes: Seq<u8>,
    listing: Result<Seq<Seq<char>>, AppErrorView>,
    inspection: Result<ArchiveInspection, AppError>,
)
    requires
        listing_matches(archive_path, bytes, listing),
        inspection_outcome_matches(archive_path, bytes, inspection),
    ensures
        listing matches Err(e) ==> inspection_view(inspection) == Err::<
            ArchiveInspectionView,
            AppErrorView,
        >(e),
        listing matches Ok(names) ==> if archive_kind_of(names) == ArchiveKind::Unknown {
            inspection_view(inspection) == Err::<ArchiveInspectionView, AppErrorView>(
                AppErrorView::ProjectRootDetection {
                    archive_path,
                    details: unknown_shape_details(),
                },
            )
        } else {
            inspection matches Ok(v) && inspection_matches(names, v@)
        },
{
    if !listing_fails(bytes) {
        let items = listed_names(bytes, zip_entry_count(bytes) as int);
        let n = choose|names: Seq<Seq<char>>|
            enumerates(names, items) && if archive_kind_of(names) == ArchiveKind::Unknown {
                inspection matches Err(e) && e@ == (AppErrorView::ProjectRootDetection {
                    archive_path,
                    details: unknown_shape_details(),
                })
            } else {
                inspection matches Ok(v) && inspection_matches(names, v@)
            };
        lemma_enumeration_unique(n, listing->Ok_0, items);
    }
}

/// A successful listing holds exactly the normalized names of the archive's
/// entries, leaving out only empty ones: every entry can be read, the
/// normalized name of each entry is listed when it is not empty (whatever
/// else it looks like, directory entries included), and every listed name
/// is the normalized name of some entry.
pub proof fn lemma_listing_complete(
    archive_path: Seq<char>,
    bytes: Seq<u8>,
    names: Seq<Seq<char>>,
)
    requires
        listing_matches(archive_path, bytes, Ok::<Seq<Seq<char>>, AppErrorView>(names)),
    ensures
        zip_opens(bytes),
        forall|i: int| 0 <= i < zip_entry_count(bytes) ==> (#[trigger] zip_entry_at(bytes, i)) is Ok,
        forall|i: int|
            0 <= i < zip_entry_count(bytes) && normalized_entry_name(
                #[trigger] zip_entry_at(bytes, i)->Ok_0,
            ).len() > 0 ==> names.contains(normalized_entry_name(zip_entry_at(bytes, i)->Ok_0)),
        forall|t: Seq<char>|
            #[trigger] names.contains(t) ==> t.len() > 0 && exists|i: int|
                0 <= i < zip_entry_count(bytes) && #[trigger] zip_entry_at(bytes, i) is Ok
                    && normalized_entry_name(zip_entry_at(bytes, i)->Ok_0) == t,
{
    let n = zip_entry_count(bytes) as int;
    assert forall|i: int| 0 <= i < n implies (#[trigger] zip_entry_at(bytes, i)) is Ok by {
        if zip_entry_at(bytes, i) is Err {
            assert(entry_unreadable(bytes, i));
        }
    }
    assert forall|i: int|
        0 <= i < n && normalized_entry_name(#[trigger] zip_entry_at(bytes, i)->Ok_0).len() > 0
            implies names.contains(normalized_entry_name(zip_entry_at(bytes, i)->Ok_0)) by {
        assert(zip_entry_name_at(bytes, i) is Some);
        assert(listed_names(bytes, n).contains(normalized_entry_name(zip_entry_at(bytes, i)->Ok_0)));
    }
    assert forall|t: Seq<char>| #[trigger] names.contains(t) implies t.len() > 0 && exists|i: int|
        0 <= i < n && #[trigger] zip_entry_at(bytes, i) is Ok && normalized_entry_name(
            zip_entry_at(bytes, i)->Ok_0,
        ) == t by {
        assert(listed_names(bytes, n).contains(t));
        let i = choose|i: int|
            0 <= i < n && #[trigger] zip_entry_name_at(bytes, i) is Some
                && normalized_entry_name(zip_entry_name_at(bytes, i)->0) == t;
        assert(zip_entry_at(bytes, i) is Ok);
    }
}

} // verus!
