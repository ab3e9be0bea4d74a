//! The text form of a manifest: one JSON object whose keys are paths and
//! whose values are fingerprints.

use vstd::prelude::*;
use crate::manifest::{Manifest, entries_view, upsert};

verus! {

#[verifier::external_type_specification]
#[verifier::external_body]
pub struct ExJsonError(serde_json::Error);

/// The members of the JSON object that a text holds, in the order in which
/// the parser keeps them, with each value as a string where it is one;
/// `None` where the text is not one JSON object.
pub uninterp spec fn json_object_members(text: Seq<char>) -> Option<
    Seq<(Seq<char>, Option<Seq<char>>)>,
>;

/// The compact JSON text of an object whose members are the given paths,
/// each with its fingerprint as a string value.
pub uninterp spec fn json_object_text(entries: Seq<(Seq<char>, Seq<char>)>) -> Seq<char>;

/// The text form of parsed members.
pub open spec fn members_view(v: Seq<(String, Option<String>)>) -> Seq<
    (Seq<char>, Option<Seq<char>>),
> {
    v.map_values(
        |e: (String, Option<String>)|
            (
                e.0@,
                match e.1 {
                    Some(s) => Some(s@),
                    None => None,
                },
            ),
    )
}

/// Relies on `serde_json::from_str` into a `serde_json::Map<String, serde_json::Value>`:
/// it succeeds exactly when the text is one JSON object, and gives its
/// members. Each value is handed on as a string where it is a JSON string.
#[verifier::external_body]
fn parse_json_object(text: &str) -> (r: Result<Vec<(String, Option<String>)>, serde_json::Error>)
    ensures
        r is Ok <==> json_object_members(text@) is Some,
        r matches Ok(v) ==> json_object_members(text@) == Some(members_view(v@)),
{
    serde_json::from_str::<serde_json::Map<String, serde_json::Value>>(text).map(|m| m.into_iter().map(|(k, v)| {
        let s = match v {
            serde_json::Value::String(s) => Some(s),
            serde_json::Value::Null => None,
            serde_json::Value::Bool(_) => None,
            serde_json::Value::Number(_) => None,
            serde_json::Value::Array(_) => None,
            serde_json::Value::Object(_) => None,
        };
        (k, s)
    }).collect())
}

/// Relies on the `Display` impl of `serde_json::Value` for an object of
/// string values, which writes compact JSON and cannot fail.
#[verifier::external_body]
fn write_json_object(entries: &Vec<(String, String)>) -> (r: String)
    ensures
        r@ == json_object_text(entries_view(entries@)),
{
    let m: serde_json::Map<String, serde_json::Value> = entries.iter().map(|(k, v)| (k.clone(), serde_json::Value::String(v.clone()))).collect();
    serde_json::Value::Object(m).to_string()
}

/// Why a text is not a manifest.
pub enum ManifestError {
    /// The text is not one JSON object.
    Malformed,
    /// The value of this path is not a string.
    NotAFingerprint(String),
}

/// Every member has a string value.
pub open spec fn all_strings(e: Seq<(Seq<char>, Option<Seq<char>>)>) -> bool {
    forall|i: int| 0 <= i < e.len() ==> (#[trigger] e[i]).1 is Some
}

/// The manifest of members that all have string values, set in order.
pub open spec fn members_manifest(e: Seq<(Seq<char>, Option<Seq<char>>)>) -> Seq<
    (Seq<char>, Seq<char>),
>
    decreases e.len(),
{
    if e.len() == 0 {
        Seq::empty()
    } else {
        upsert(members_manifest(e.drop_last()), e.last().0, e.last().1->0)
    }
}

/// What becomes of parsed members: a manifest where every value is a
/// string, else the error that names the first member whose value is not.
pub open spec fn members_outcome(
    e: Seq<(Seq<char>, Option<Seq<char>>)>,
    r: Result<Manifest, ManifestError>,
) -> bool {
    &&& r is Ok <==> all_strings(e)
    &&& r matches Ok(m) ==> m.wf() && m@ == members_manifest(e)
    &&& r matches Err(err) ==> err matches ManifestError::NotAFingerprint(p) && exists|i: int|
        0 <= i < e.len() && e[i].1 is None && e[i].0 == p@ && forall|j: int|
            0 <= j < i ==> (#[trigger] e[j]).1 is Some
}

/// The manifest of parsed members, or the first member that has no
/// fingerprint.
pub fn manifest_from_members(members: Vec<(String, Option<String>)>) -> (r: Result<
    Manifest,
    ManifestError,
>)
    ensures
        members_outcome(members_view(members@), r),
{
    let ghost e = members_view(members@);
    let mut m = Manifest::new();
    let mut i: usize = 0;
    while i < members.len()
        invariant
            i <= members@.len(),
            e == members_view(members@),
            m.wf(),
            forall|j: int| 0 <= j < i ==> (#[trigger] e[j]).1 is Some,
            m@ == members_manifest(e.subrange(0, i as int)),
        decreases members@.len() - i,
    {
        assert(e.subrange(0, i + 1).drop_last() =~= e.subrange(0, i as int));
        assert(e[i as int] == (members@[i as int].0@, match members@[i as int].1 {
            Some(s) => Some(s@),
            None => None::<Seq<char>>,
        }));
        match &members[i].1 {
            Some(f) => {
                m.insert(members[i].0.clone(), f.clone());
            },
            None => {
                assert(e[i as int].1 is None);
                return Err(ManifestError::NotAFingerprint(members[i].0.clone()));
            },
        }
        i += 1;
    }
    assert(e.subrange(0, i as int) =~= e);
    Ok(m)
}

/// Reads a manifest from its JSON text.
pub fn parse_manifest(text: &str) -> (r: Result<Manifest, ManifestError>)
    ensures
        match json_object_members(text@) {
            None => r matches Err(ManifestError::Malformed),
            Some(e) => members_outcome(e, r),
        },
{
    match parse_json_object(text) {
        Ok(members) => manifest_from_members(members),
        Err(_) => Err(ManifestError::Malformed),
    }
}

/// The JSON text of a manifest.
pub fn manifest_to_json(m: &Manifest) -> (r: String)
    ensures
        r@ == json_object_text(m@),
{
    let entries = m.entries();
    write_json_object(&entries)
}

} // verus!
