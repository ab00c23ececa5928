use vstd::prelude::*;

use crate::MainError;
use vstd::string::StringExecFns;

verus! {

/// What parsing the manifest text and reading its version field yields:
/// `None` when the text is not a well-formed document; `Some(None)` when it
/// is, but holds no top-level string field under the version key;
/// `Some(Some(v))` when that field holds the string `v`.
pub uninterp spec fn manifest_version(s: Seq<char>) -> Option<Option<Seq<char>>>;

/// Relies on `serde_json::from_str` and `serde_json::Value::get`: whether the
/// text parses, and what its top-level `__version__` field holds, depend on
/// the text alone.
#[verifier::external_body]
fn manifest_version_field(text: &str) -> (r: Option<Option<String>>)
    ensures
        r is None <==> manifest_version(text@) is None,
        r matches Some(None) ==> manifest_version(text@) == Some(Option::<Seq<char>>::None),
        r matches Some(Some(v)) ==> manifest_version(text@) == Some(Some(v@)),
{
    match serde_json::from_str::<serde_json::Value>(text) {
        Err(_) => None,
        Ok(doc) => match doc.get("__version__") {
            Some(serde_json::Value::String(v)) => Some(Some(v.clone())),
            _ => Some(None),
        },
    }
}

/// The name under which one run's audit output is dropped: the manifest's
/// version field, or a fixed sentinel when the field is absent or not a
/// string. A manifest text that does not parse is an error.
pub fn drop_name(manifest_text: &str) -> (r: Result<String, MainError>)
    ensures
        r is Ok <==> manifest_version(manifest_text@) is Some,
        manifest_version(manifest_text@) is None ==> (r matches Err(e) && e
            == MainError::ManifestParseError),
        manifest_version(manifest_text@) matches Some(Some(v)) ==> (r matches Ok(s) && s@ == v),
        manifest_version(manifest_text@) == Some(Option::<Seq<char>>::None) ==> (r matches Ok(s)
            && s@ == "DROP-UNKNOWN"@),
{
    match manifest_version_field(manifest_text) {
        None => Err(MainError::ManifestParseError),
        Some(None) => Ok(String::from_str("DROP-UNKNOWN")),
        Some(Some(v)) => Ok(v),
    }
}

} // verus!
