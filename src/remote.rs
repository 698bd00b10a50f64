//! The latest available driver, as the vendor's lookup service describes it.
//!
//! The service answers with a JSON document; the version and download URL of the
//! newest driver stand at `IDS[0].downloadInfo.Version` and
//! `IDS[0].downloadInfo.DownloadURL`.
use vstd::prelude::*;

use crate::error::CheckError;

verus! {

/// Driver lookup for a GeForce GTX 1070 Ti on 64-bit Windows 10, US English,
/// WHQL-certified DCH drivers; other recent GeForce cards use the same driver.
pub const NVIDIA_URL: &'static str = "https://gfwsl.geforce.com/services_toolkit/services/com/nvidia/services/AjaxDriverService.php?func=DriverManualLookup&psid=101&pfid=859&osID=57&languageCode=1033&beta=0&isWHQL=0&dltype=-1&dch=1&upCRD=0&qnf=0&sort1=0&numberOfResults=10";

#[verifier::external_type_specification]
#[verifier::external_body]
pub struct ExJsonValue(json::JsonValue);

#[verifier::external_type_specification]
#[verifier::external_body]
pub struct ExJsonError(json::Error);

/// A JSON document as plain values. Numbers are not told apart, since nothing
/// here reads them.
pub enum Json {
    Null,
    Boolean(bool),
    Number,
    Str(Seq<char>),
    Array(Seq<Json>),
    Object(Map<Seq<char>, Json>),
}

/// What a parsed document holds.
pub uninterp spec fn json_view(v: json::JsonValue) -> Json;

/// The document that a text denotes, if it is JSON.
pub uninterp spec fn parsed_json(text: Seq<char>) -> Option<Json>;

/// The value stored under `key` in an object; null for a missing key or a
/// value that is not an object.
pub open spec fn member_of(v: Json, key: Seq<char>) -> Json {
    match v {
        Json::Object(m) => if m.contains_key(key) {
            m[key]
        } else {
            Json::Null
        },
        _ => Json::Null,
    }
}

/// The element at `i` of an array; null past its end or for a value that is
/// not an array.
pub open spec fn element_of(v: Json, i: int) -> Json {
    match v {
        Json::Array(s) => if 0 <= i < s.len() {
            s[i]
        } else {
            Json::Null
        },
        _ => Json::Null,
    }
}

/// Relies on json::parse: `Ok` with the document that the text denotes, or
/// `Err` where the text is not JSON.
#[verifier::external_body]
fn parse_document(text: &str) -> (r: Result<json::JsonValue, json::Error>)
    ensures
        match r {
            Ok(v) => parsed_json(text@) == Some(json_view(v)),
            Err(_) => parsed_json(text@) is None,
        },
{
    json::parse(text)
}

/// Relies on `Index<&str>` of json::JsonValue: the object's value for `key`,
/// or null.
#[verifier::external_body]
fn member<'a>(v: &'a json::JsonValue, key: &str) -> (r: &'a json::JsonValue)
    ensures
        json_view(*r) == member_of(json_view(*v), key@),
{
    &v[key]
}

/// Relies on `Index<usize>` of json::JsonValue: the array's element at `i`,
/// or null.
#[verifier::external_body]
fn element<'a>(v: &'a json::JsonValue, i: usize) -> (r: &'a json::JsonValue)
    ensures
        json_view(*r) == element_of(json_view(*v), i as int),
{
    &v[i]
}

/// Relies on json::JsonValue::as_str: the text of a string value, `None` for
/// any other value.
#[verifier::external_body]
fn string_of<'a>(v: &'a json::JsonValue) -> (r: Option<&'a str>)
    ensures
        match json_view(*v) {
            Json::Str(t) => r matches Some(s) && s@ == t,
            _ => r is None,
        },
{
    v.as_str()
}

/// The object that describes the newest driver.
pub open spec fn download_info(doc: Json) -> Json {
    member_of(element_of(member_of(doc, "IDS"@), 0), "downloadInfo"@)
}

/// The version and download URL of the newest driver, where both are strings.
pub open spec fn download_fields(doc: Json) -> Option<(Seq<char>, Seq<char>)> {
    match (member_of(download_info(doc), "Version"@), member_of(download_info(doc), "DownloadURL"@)) {
        (Json::Str(v), Json::Str(u)) => Some((v, u)),
        _ => None,
    }
}

/// What the lookup service's answer `text` says of the newest driver.
pub open spec fn extraction(text: Seq<char>) -> Result<(Seq<char>, Seq<char>), CheckError> {
    match parsed_json(text) {
        None => Err(CheckError::MalformedJson),
        Some(doc) => match download_fields(doc) {
            Some(f) => Ok(f),
            None => Err(CheckError::SchemaMismatch),
        },
    }
}

pub open spec fn info_view(r: Result<(String, String), CheckError>) -> Result<(Seq<char>, Seq<char>), CheckError> {
    match r {
        Ok((v, u)) => Ok((v@, u@)),
        Err(e) => Err(e),
    }
}

/// `doc` has the shape that the lookup service promises: an array `IDS` whose
/// first element holds an object `downloadInfo` with the string fields
/// `Version`, here `version`, and `DownloadURL`, here `url`.
pub open spec fn follows_schema(doc: Json, version: Seq<char>, url: Seq<char>) -> bool {
    match doc {
        Json::Object(top) => top.contains_key("IDS"@) && match top["IDS"@] {
            Json::Array(ids) => ids.len() > 0 && match ids[0] {
                Json::Object(entry) => entry.contains_key("downloadInfo"@) && match entry["downloadInfo"@] {
                    Json::Object(info) => {
                        &&& info.contains_key("Version"@)
                        &&& info["Version"@] == Json::Str(version)
                        &&& info.contains_key("DownloadURL"@)
                        &&& info["DownloadURL"@] == Json::Str(url)
                    },
                    _ => false,
                },
                _ => false,
            },
            _ => false,
        },
        _ => false,
    }
}

/// An answer whose document follows the service's schema yields exactly the
/// version and URL that the document holds.
pub proof fn lemma_schema_gives_fields(text: Seq<char>, version: Seq<char>, url: Seq<char>)
    requires
        parsed_json(text) matches Some(doc) && follows_schema(doc, version, url),
    ensures
        extraction(text) == Ok::<(Seq<char>, Seq<char>), CheckError>((version, url)),
{
}

/// An answer that is not JSON fails as malformed; a JSON answer that does not
/// follow the service's schema, whatever its fields hold, fails as a schema
/// mismatch.
pub proof fn lemma_extraction_errors(text: Seq<char>)
    ensures
        parsed_json(text) is None ==> extraction(text) == Err::<(Seq<char>, Seq<char>), CheckError>(
            CheckError::MalformedJson,
        ),
        parsed_json(text) matches Some(doc) && (forall|v: Seq<char>, u: Seq<char>|
            !follows_schema(doc, v, u)) ==> extraction(text) == Err::<
            (Seq<char>, Seq<char>),
            CheckError,
        >(CheckError::SchemaMismatch),
{
    if let Some(doc) = parsed_json(text) {
        if let Some((v, u)) = download_fields(doc) {
            assert(follows_schema(doc, v, u));
        }
    }
}

/// Reads the newest driver's version and download URL out of the lookup
/// service's answer.
///
/// Fails with `MalformedJson` where `payload` is not JSON, and with
/// `SchemaMismatch` where either field is missing or not a string.
pub fn extract_version_information(payload: &str) -> (r: Result<(String, String), CheckError>)
    ensures
        info_view(r) == extraction(payload@),
{
    let doc = match parse_document(payload) {
        Ok(d) => d,
        Err(_) => return Err(CheckError::MalformedJson),
    };
    let info = member(element(member(&doc, "IDS"), 0), "downloadInfo");
    let version = string_of(member(info, "Version"));
    let url = string_of(member(info, "DownloadURL"));
    match (version, url) {
        (Some(v), Some(u)) => Ok((v.to_owned(), u.to_owned())),
        _ => Err(CheckError::SchemaMismatch),
    }
}

/// Retrieves the newest driver's version and download URL, fetching the
/// lookup service's answer from `NVIDIA_URL` with `get_page`.
///
/// A failed fetch is passed on as it came; a fetched answer is read as
/// `extract_version_information` reads it.
pub fn get_available_version_information<F: Fn(&str) -> Result<String, CheckError>>(get_page: F) -> (r: Result<(String, String), CheckError>)
    requires
        get_page.requires((NVIDIA_URL,)),
    ensures
        exists|page: Result<String, CheckError>|
            get_page.ensures((NVIDIA_URL,), page) && info_view(r) == match page {
                Ok(text) => extraction(text@),
                Err(e) => Err(e),
            },
{
    let page = get_page(NVIDIA_URL);
    match page {
        Ok(text) => extract_version_information(text.as_str()),
        Err(e) => Err(e),
    }
}

} // verus!
