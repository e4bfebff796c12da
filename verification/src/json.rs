//! The JSON documents of a project: reading a document's top level and
//! checking the shape of `resource.json` manifests.
use serde_json::Value;
use vstd::prelude::*;
use vstd::utf8::encode_utf8;
use crate::error::{AppError, AppErrorView};
use crate::resource::pair_views;
use crate::text::{
    concat, decimal, decimal_text, strictly_sorted, text_eq, text_lt,
    texts,
};

verus! {

/// The top level of a JSON document. The members of an object and the items
/// of an array are kept as their compact JSON text.
#[derive(Debug, Clone, PartialEq, Eq)]
pub enum JsonNode {
    Null,
    Bool(bool),
    Number(String),
    Text(String),
    Array(Vec<String>),
    Object(Vec<(String, String)>),
}

/// The content of a top-level JSON node.
pub enum JsonNodeView {
    Null,
    Bool(bool),
    Number(Seq<char>),
    Text(Seq<char>),
    Array(Seq<Seq<char>>),
    Object(Seq<(Seq<char>, Seq<char>)>),
}


impl View for JsonNode {
    type V = JsonNodeView;

    open spec fn view(&self) -> JsonNodeView {
        match self {
            JsonNode::Null => JsonNodeView::Null,
            JsonNode::Bool(b) => JsonNodeView::Bool(*b),
            JsonNode::Number(n) => JsonNodeView::Number(n@),
            JsonNode::Text(s) => JsonNodeView::Text(s@),
            JsonNode::Array(items) => JsonNodeView::Array(
                texts(items@),
            ),
            JsonNode::Object(members) => JsonNodeView::Object(pair_views(members@)),
        }
    }
}

/// What `serde_json::from_slice` makes of `bytes`: the top level of the JSON
/// document they encode, or the `Display` text of its error.
pub uninterp spec fn json_parse_of(bytes: Seq<u8>) -> Result<JsonNodeView, Seq<char>>;

/// The top level of the JSON document encoded by `bytes`, when it is one.
pub open spec fn json_node_of(bytes: Seq<u8>) -> Option<JsonNodeView> {
    match json_parse_of(bytes) {
        Ok(node) => Some(node),
        Err(_) => None,
    }
}

/// The view of the result of reading a JSON document.
pub open spec fn node_result(r: Result<JsonNode, String>) -> Result<JsonNodeView, Seq<char>> {
    match r {
        Ok(n) => Ok(n@),
        Err(t) => Err(t@),
    }
}

/// The keys of a list of object members, in order.
pub open spec fn member_keys(members: Seq<(Seq<char>, Seq<char>)>) -> Seq<Seq<char>> {
    members.map_values(|m: (Seq<char>, Seq<char>)| m.0)
}

/// Reads the top level of a JSON document (`serde_json::from_slice` into a
/// `serde_json::Value`, then one arm per variant: numbers and the children of
/// arrays and objects are written back with `Display`, which is compact JSON;
/// an error is kept as its `Display` text). Claims: the outcome is the one
/// named by `json_parse_of`; the members of an object come in increasing key
/// order without repeats, since `serde_json::Map` is a `BTreeMap` when the
/// `preserve_order` feature is off.
#[verifier::external_body]
fn json_top(bytes: &[u8]) -> (r: Result<JsonNode, String>)
    ensures
        json_parse_of(bytes@) == node_result(r),
        r matches Ok(JsonNode::Object(ms)) ==> strictly_sorted(member_keys(pair_views(ms@))),
{
    let value = match serde_json::from_slice::<Value>(bytes) {
        Ok(value) => value,
        Err(e) => return Err(e.to_string()),
    };
    Ok(match value {
        Value::Null => JsonNode::Null,
        Value::Bool(b) => JsonNode::Bool(b),
        Value::Number(n) => JsonNode::Number(n.to_string()),
        Value::String(s) => JsonNode::Text(s),
        Value::Array(a) => JsonNode::Array(a.iter().map(|x| x.to_string()).collect()),
        Value::Object(m) => JsonNode::Object(m.iter().map(|(k, x)| (k.clone(), x.to_string())).collect()),
    })
}

/// The string a JSON text stands for, when it is a JSON string.
pub open spec fn json_string_of(text: Seq<char>) -> Option<Seq<char>> {
    match json_node_of(encode_utf8(text)) {
        Some(JsonNodeView::Text(s)) => Some(s),
        _ => None,
    }
}

/// The strings a list of JSON texts stand for.
pub open spec fn json_strings(ts: Seq<Seq<char>>) -> Seq<Seq<char>> {
    ts.map_values(|t: Seq<char>| json_string_of(t)->0)
}

/// Reads one JSON text and gives the string it stands for, if it is a string.
fn json_string(text: &str) -> (r: Option<String>)
    ensures
        match r {
            Some(s) => json_string_of(text@) == Some(s@),
            None => json_string_of(text@) is None,
        },
{
    match json_top(text.as_bytes()) {
        Ok(JsonNode::Text(s)) => Some(s),
        _ => None,
    }
}

/// The validated fields of a `resource.json` manifest: its declared files and
/// its other top-level members.
#[derive(Debug, Clone, PartialEq, Eq)]
pub struct RawResource {
    pub files: Vec<String>,
    pub attributes: Vec<(String, String)>,
}

/// The first member with this key, if any.
pub open spec fn first_member_with(members: Seq<(Seq<char>, Seq<char>)>, key: Seq<char>, i: int) -> bool {
    0 <= i < members.len() && members[i].0 == key && forall|j: int| 0 <= j < i ==> members[j].0 != key
}

/// What is wrong with the `k`-th item of the `files` array, if anything.
pub open spec fn item_bad(items: Seq<Seq<char>>, k: int) -> bool {
    json_string_of(items[k]) is None || json_string_of(items[k])->0.len() == 0
}

/// The message text for a manifest, naming it and its archive.
pub open spec fn manifest_place(json_path: Seq<char>, archive_path: Seq<char>) -> Seq<char> {
    " in `"@ + json_path + "` of `"@ + archive_path + "`"@
}

/// The error owed for a bad item of the `files` array.
pub open spec fn item_error(
    items: Seq<Seq<char>>,
    k: int,
    json_path: Seq<char>,
    archive_path: Seq<char>,
) -> AppErrorView {
    if json_string_of(items[k]) is None {
        AppErrorView::ResourceIntegrity {
            details: "Expected string at `files["@ + decimal_text(k as nat) + "]`"@ + manifest_place(
                json_path,
                archive_path,
            ),
        }
    } else {
        AppErrorView::ResourceIntegrity {
            details: "Found empty file name at `files["@ + decimal_text(k as nat) + "]`"@
                + manifest_place(json_path, archive_path),
        }
    }
}

/// The members of an object other than `files`, in order.
pub open spec fn attributes_of(members: Seq<(Seq<char>, Seq<char>)>) -> Seq<(Seq<char>, Seq<char>)>
    decreases members.len(),
{
    if members.len() == 0 {
        members
    } else if members.last().0 != "files"@ {
        attributes_of(members.drop_last()).push(members.last())
    } else {
        attributes_of(members.drop_last())
    }
}

/// The index of the first member with this key.
fn find_member(members: &Vec<(String, String)>, key: &str) -> (r: Option<usize>)
    ensures
        match r {
            Some(i) => first_member_with(pair_views(members@), key@, i as int),
            None => forall|i: int|
                0 <= i < members@.len() ==> #[trigger] pair_views(members@)[i].0 != key@,
        },
{
    let ghost ms = pair_views(members@);
    let mut idx: usize = 0;
    while idx < members.len()
        invariant
            ms == pair_views(members@),
            idx <= members@.len(),
            forall|j: int| 0 <= j < idx ==> ms[j].0 != key@,
        decreases members@.len() - idx,
    {
        if text_eq(members[idx].0.as_str(), key) {
            return Some(idx);
        }
        idx = idx + 1;
    }
    None
}

/// The outcome owed for a manifest object whose `files` member is the `i`-th
/// member: an error when it is not an array or (at its first bad item) when
/// an item is not a non-empty string; otherwise the file names and the other
/// members.
pub open spec fn files_member_outcome(
    members: Seq<(Seq<char>, Seq<char>)>,
    i: int,
    json_path: Seq<char>,
    archive_path: Seq<char>,
    r: Result<(Seq<Seq<char>>, Seq<(Seq<char>, Seq<char>)>), AppErrorView>,
) -> bool {
    match json_node_of(
                        encode_utf8(members[i].1),
                    ) {
                        Some(JsonNodeView::Array(items)) => {
                            if exists|k: int| 0 <= k < items.len() && #[trigger] item_bad(items, k) {
                                exists|k: int|
                                    0 <= k < items.len() && #[trigger] item_bad(items, k) && (forall|
                                        j: int,
                                    | 0 <= j < k ==> !item_bad(items, j)) && r == Err::<
                                        (Seq<Seq<char>>, Seq<(Seq<char>, Seq<char>)>),
                                        AppErrorView,
                                    >(item_error(items, k, json_path, archive_path))
                            } else {
                                r == Ok::<
                                    (Seq<Seq<char>>, Seq<(Seq<char>, Seq<char>)>),
                                    AppErrorView,
                                >(
                                    (
                                        json_strings(items),
                                        attributes_of(members),
                                    ),
                                )
                            }
                        },
                        _ => r == Err::<(Seq<Seq<char>>, Seq<(Seq<char>, Seq<char>)>), AppErrorView>(
                            AppErrorView::ResourceIntegrity {
                                details: "Expected `files` array"@ + manifest_place(
                                    json_path,
                                    archive_path,
                                ),
                            },
                        ),
                    }
}

/// The outcome owed by validating a `resource.json` document: an error for a
/// document that is not JSON, not an object, has no `files` member, has a
/// `files` member that is not an array, or (at its first bad item) a `files`
/// item that is not a non-empty string; otherwise the file names and the
/// other members.
pub open spec fn resource_outcome(
    archive_path: Seq<char>,
    json_path: Seq<char>,
    bytes: Seq<u8>,
    r: Result<(Seq<Seq<char>>, Seq<(Seq<char>, Seq<char>)>), AppErrorView>,
) -> bool {
    match json_node_of(bytes) {
        None => r == Err::<(Seq<Seq<char>>, Seq<(Seq<char>, Seq<char>)>), AppErrorView>(
            AppErrorView::JsonParse {
                archive_path,
                json_path,
                details: "invalid JSON payload: "@ + json_parse_of(bytes)->Err_0,
            },
        ),
        Some(JsonNodeView::Object(members)) => {
            if !(exists|i: int| 0 <= i < members.len() && #[trigger] members[i].0 == "files"@) {
                r == Err::<(Seq<Seq<char>>, Seq<(Seq<char>, Seq<char>)>), AppErrorView>(
                    AppErrorView::ResourceIntegrity {
                        details: "Missing required `files` key"@ + manifest_place(
                            json_path,
                            archive_path,
                        ),
                    },
                )
            } else {
                exists|i: int|
                    #[trigger] first_member_with(members, "files"@, i) && files_member_outcome(
                        members,
                        i,
                        json_path,
                        archive_path,
                        r,
                    )
            }
        },
        Some(_) => r == Err::<(Seq<Seq<char>>, Seq<(Seq<char>, Seq<char>)>), AppErrorView>(
            AppErrorView::JsonParse {
                archive_path,
                json_path,
                details: "expected JSON object at resource root"@,
            },
        ),
    }
}

/// The outcome owed for a manifest object follows from the outcome owed for
/// its first `files` member.
proof fn lemma_outcome_from_files_member(
    archive_path: Seq<char>,
    json_path: Seq<char>,
    bytes: Seq<u8>,
    members: Seq<(Seq<char>, Seq<char>)>,
    i: int,
    r: Result<(Seq<Seq<char>>, Seq<(Seq<char>, Seq<char>)>), AppErrorView>,
)
    requires
        json_node_of(bytes) == Some(JsonNodeView::Object(members)),
        first_member_with(members, "files"@, i),
        files_member_outcome(members, i, json_path, archive_path, r),
    ensures
        resource_outcome(archive_path, json_path, bytes, r),
{
    assert(members[i].0 == "files"@);
}

/// The view of a manifest validation result.
pub open spec fn resource_view(r: Result<RawResource, AppError>) -> Result<
    (Seq<Seq<char>>, Seq<(Seq<char>, Seq<char>)>),
    AppErrorView,
> {
    match r {
        Ok(raw) => Ok((texts(raw.files@), pair_views(raw.attributes@))),
        Err(e) => Err(e@),
    }
}

/// " in `<json>` of `<archive>`" as a string.
fn manifest_place_text(json_path: &str, archive_path: &str) -> (s: String)
    ensures
        s@ == manifest_place(json_path@, archive_path@),
{
    let s = concat(" in `", json_path);
    let s = concat(s.as_str(), "` of `");
    let s = concat(s.as_str(), archive_path);
    concat(s.as_str(), "`")
}

/// Parses `resource.json` and validates its shape.
pub fn parse_resource(archive_path: &str, resource_json_path: &str, bytes: &[u8]) -> (r: Result<
    RawResource,
    AppError,
>)
    ensures
        resource_outcome(archive_path@, resource_json_path@, bytes@, resource_view(r)),
        r matches Ok(raw) ==> strictly_sorted(member_keys(pair_views(raw.attributes@))),
{
    let node = match json_top(bytes) {
        Ok(node) => node,
        Err(e) => {
            let details = concat("invalid JSON payload: ", e.as_str());
            return Err(AppError::json_parse(archive_path, resource_json_path, details.as_str()));
        },
    };
    let members = match node {
        JsonNode::Object(members) => members,
        _ => {
            return Err(
                AppError::json_parse(
                    archive_path,
                    resource_json_path,
                    "expected JSON object at resource root",
                ),
            );
        },
    };
    let ghost ms = pair_views(members@);
    let idx = match find_member(&members, "files") {
        Some(idx) => idx,
        None => {
            let d = concat("Missing required `files` key", manifest_place_text(resource_json_path, archive_path).as_str());
            return Err(AppError::resource_integrity(d.as_str()));
        },
    };
    let files_text = &members[idx].1;
    let items = match json_top(files_text.as_str().as_bytes()) {
        Ok(JsonNode::Array(items)) => items,
        _ => {
            let d = concat("Expected `files` array", manifest_place_text(resource_json_path, archive_path).as_str());
            let e = AppError::resource_integrity(d.as_str());
            proof {
        lemma_outcome_from_files_member(archive_path@, resource_json_path@, bytes@, ms, idx as int, resource_view(Err(e)));
    }
            return Err(e);
        },
    };
    let ghost its = texts(items@);
    assert(json_node_of(encode_utf8(ms[idx as int].1)) == Some(JsonNodeView::Array(its)));
    let mut files: Vec<String> = Vec::new();
    let mut k: usize = 0;
    while k < items.len()
        invariant
            json_node_of(bytes@) == Some(JsonNodeView::Object(ms)),
            first_member_with(ms, "files"@, idx as int),
            json_node_of(encode_utf8(ms[idx as int].1)) == Some(JsonNodeView::Array(its)),
            its == texts(items@),
            k <= its.len(),
            forall|j: int| 0 <= j < k ==> !item_bad(its, j),
            texts(files@) == json_strings(its.take(k as int)),
        decreases its.len() - k,
    {
        let name = match json_string(items[k].as_str()) {
            Some(name) => name,
            None => {
                let d = concat("Expected string at `files[", decimal(k as u64).as_str());
                let d = concat(d.as_str(), "]`");
                let d = concat(d.as_str(), manifest_place_text(resource_json_path, archive_path).as_str());
                let e = AppError::resource_integrity(d.as_str());
                assert(item_bad(its, k as int));
                assert(e@ == item_error(its, k as int, resource_json_path@, archive_path@));
                assert(exists|k2: int|
                    0 <= k2 < its.len() && #[trigger] item_bad(its, k2) && (forall|j: int|
                        0 <= j < k2 ==> !item_bad(its, j)) && resource_view(Err(e)) == Err::<
                        (Seq<Seq<char>>, Seq<(Seq<char>, Seq<char>)>),
                        AppErrorView,
                    >(item_error(its, k2, resource_json_path@, archive_path@)));
                proof {
        lemma_outcome_from_files_member(archive_path@, resource_json_path@, bytes@, ms, idx as int, resource_view(Err(e)));
    }
                return Err(e);
            },
        };
        if name.as_str().is_empty() {
            let d = concat("Found empty file name at `files[", decimal(k as u64).as_str());
            let d = concat(d.as_str(), "]`");
            let d = concat(d.as_str(), manifest_place_text(resource_json_path, archive_path).as_str());
            let e = AppError::resource_integrity(d.as_str());
            assert(item_bad(its, k as int));
            assert(e@ == item_error(its, k as int, resource_json_path@, archive_path@));
            assert(exists|k2: int|
                0 <= k2 < its.len() && #[trigger] item_bad(its, k2) && (forall|j: int|
                    0 <= j < k2 ==> !item_bad(its, j)) && resource_view(Err(e)) == Err::<
                    (Seq<Seq<char>>, Seq<(Seq<char>, Seq<char>)>),
                    AppErrorView,
                >(item_error(its, k2, resource_json_path@, archive_path@)));
            proof {
        lemma_outcome_from_files_member(archive_path@, resource_json_path@, bytes@, ms, idx as int, resource_view(Err(e)));
    }
            return Err(e);
        }
        assert(its[k as int] == items@[k as int]@);
        assert(json_string_of(its[k as int]) == Some(name@));
        let ghost before = texts(files@);
        files.push(name);
        proof {
            assert(its.take(k + 1) =~= its.take(k as int).push(its[k as int]));
            assert(texts(files@) =~= before.push(json_string_of(its[k as int])->0));
            assert(json_strings(its.take(k + 1)) =~= json_strings(its.take(k as int)).push(json_string_of(its[k as int])->0));
        }
        k = k + 1;
    }
    assert(its.take(its.len() as int) =~= its);
    let mut attributes: Vec<(String, String)> = Vec::new();
    let mut a: usize = 0;
    while a < members.len()
        invariant
            json_node_of(bytes@) == Some(JsonNodeView::Object(ms)),
            first_member_with(ms, "files"@, idx as int),
            json_node_of(encode_utf8(ms[idx as int].1)) == Some(JsonNodeView::Array(its)),
            forall|j: int| 0 <= j < its.len() ==> !item_bad(its, j),
            texts(files@) == json_strings(its),
            ms == pair_views(members@),
            strictly_sorted(member_keys(ms)),
            a <= ms.len(),
            pair_views(attributes@) == attributes_of(ms.take(a as int)),
            strictly_sorted(member_keys(pair_views(attributes@))),
            forall|i: int|
                0 <= i < attributes@.len() ==> exists|j: int|
                    0 <= j < a && #[trigger] member_keys(pair_views(attributes@))[i] == ms[j].0,
        decreases ms.len() - a,
    {
        let ghost before = pair_views(attributes@);
        if !text_eq(members[a].0.as_str(), "files") {
            attributes.push((members[a].0.clone(), members[a].1.clone()));
            proof {
                let keys = member_keys(pair_views(attributes@));
                let old_keys = member_keys(before);
                assert(keys =~= old_keys.push(ms[a as int].0));
                assert forall|i: int| 0 <= i < old_keys.len() implies text_lt(
                    #[trigger] old_keys[i],
                    ms[a as int].0,
                ) by {
                    assert(member_keys(pair_views(attributes@))[i] == old_keys[i]);
                    let j = choose|j: int| 0 <= j < a && old_keys[i] == ms[j].0;
                    assert(member_keys(ms)[j] == ms[j].0);
                    assert(member_keys(ms)[a as int] == ms[a as int].0);
                }
                assert forall|i: int| 0 <= i < attributes@.len() implies exists|j: int|
                    0 <= j < a + 1 && #[trigger] member_keys(pair_views(attributes@))[i] == ms[j].0 by {
                    if i < old_keys.len() {
                        assert(keys[i] == old_keys[i]);
                    } else {
                        assert(keys[i] == ms[a as int].0);
                    }
                }
            }
        }
        proof {
            assert(ms.take(a + 1).drop_last() =~= ms.take(a as int));
        }
        a = a + 1;
    }
    proof {
        assert(ms.take(ms.len() as int) =~= ms);
        assert(its.take(its.len() as int) =~= its);
    }
    let raw = RawResource { files, attributes };
    proof {
        lemma_outcome_from_files_member(archive_path@, resource_json_path@, bytes@, ms, idx as int, resource_view(Ok(raw)));
    }
    Ok(raw)
}

/// A manifest has exactly one validation outcome: two validations of the
/// same document give the same error, or the same files and attributes.
pub proof fn lemma_resource_outcome_unique(
    archive_path: Seq<char>,
    json_path: Seq<char>,
    bytes: Seq<u8>,
    a: Result<(Seq<Seq<char>>, Seq<(Seq<char>, Seq<char>)>), AppErrorView>,
    b: Result<(Seq<Seq<char>>, Seq<(Seq<char>, Seq<char>)>), AppErrorView>,
)
    requires
        resource_outcome(archive_path, json_path, bytes, a),
        resource_outcome(archive_path, json_path, bytes, b),
    ensures
        a == b,
{
    match json_node_of(bytes) {
        Some(JsonNodeView::Object(members)) => {
            if exists|i: int| 0 <= i < members.len() && #[trigger] members[i].0 == "files"@ {
                let i = choose|i: int|
                    #[trigger] first_member_with(members, "files"@, i) && files_member_outcome(
                        members,
                        i,
                        json_path,
                        archive_path,
                        a,
                    );
                let i2 = choose|i: int|
                    #[trigger] first_member_with(members, "files"@, i) && files_member_outcome(
                        members,
                        i,
                        json_path,
                        archive_path,
                        b,
                    );
                if i < i2 {
                    assert(members[i].0 != "files"@);
                } else if i2 < i {
                    assert(members[i2].0 != "files"@);
                }
                match json_node_of(encode_utf8(members[i].1)) {
                    Some(JsonNodeView::Array(items)) => {
                        if exists|k: int| 0 <= k < items.len() && #[trigger] item_bad(items, k) {
                            let k = choose|k: int|
                                0 <= k < items.len() && #[trigger] item_bad(items, k) && (forall|
                                    j: int,
                                | 0 <= j < k ==> !item_bad(items, j)) && a == Err::<
                                    (Seq<Seq<char>>, Seq<(Seq<char>, Seq<char>)>),
                                    AppErrorView,
                                >(item_error(items, k, json_path, archive_path));
                            let k2 = choose|k: int|
                                0 <= k < items.len() && #[trigger] item_bad(items, k) && (forall|
                                    j: int,
                                | 0 <= j < k ==> !item_bad(items, j)) && b == Err::<
                                    (Seq<Seq<char>>, Seq<(Seq<char>, Seq<char>)>),
                                    AppErrorView,
                                >(item_error(items, k, json_path, archive_path));
                            if k < k2 {
                                assert(!item_bad(items, k));
                            } else if k2 < k {
                                assert(!item_bad(items, k2));
                            }
                        }
                    },
                    _ => {},
                }
            }
        },
        _ => {},
    }
}

/// The attributes of a manifest are exactly its members other than `files`.
pub proof fn lemma_attributes_without_files(members: Seq<(Seq<char>, Seq<char>)>)
    ensures
        forall|x: (Seq<char>, Seq<char>)| #[trigger]
            attributes_of(members).contains(x) <==> (members.contains(x) && x.0 != "files"@),
    decreases members.len(),
{
    if members.len() > 0 {
        let rest = members.drop_last();
        lemma_attributes_without_files(rest);
        assert forall|x: (Seq<char>, Seq<char>)| #[trigger]
            attributes_of(members).contains(x) <==> (members.contains(x) && x.0 != "files"@) by {
            let a = attributes_of(rest);
            if members.contains(x) && x.0 != "files"@ {
                let i = choose|i: int| 0 <= i < members.len() && members[i] == x;
                if i < members.len() - 1 {
                    assert(rest[i] == x);
                    assert(rest.contains(x));
                    assert(a.contains(x));
                    let j = choose|j: int| 0 <= j < a.len() && a[j] == x;
                    if members.last().0 != "files"@ {
                        assert(a.push(members.last())[j] == x);
                    }
                } else {
                    assert(a.push(members.last())[a.len() as int] == x);
                }
            }
            if attributes_of(members).contains(x) {
                let t = attributes_of(members);
                let j = choose|j: int| 0 <= j < t.len() && t[j] == x;
                if members.last().0 != "files"@ && j == a.len() {
                    assert(members[members.len() - 1] == x);
                } else {
                    assert(a[j] == x);
                    assert(a.contains(x));
                    let i = choose|i: int| 0 <= i < rest.len() && rest[i] == x;
                    assert(members[i] == x);
                }
            }
        }
    }
}

} // verus!
