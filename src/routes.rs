use vstd::prelude::*;

use crate::models::{views, Case, CaseUpload, DicomMetadata};
use crate::series::create_series_info;
use crate::text::{
    contains_str, has_infix, is_prefix, split_char, split_on, starts_with, str_eq, strip_all,
    trim_start_matches,
};

verus! {

/// What a request asks for.
#[derive(Debug, Clone, Copy, PartialEq, Eq, Structural)]
pub enum Route {
    /// A cross-origin pre-flight request.
    Preflight,
    /// A file of the web front end.
    Frontend,
    ListCases,
    GetCase,
    CreateCase,
    AddImages,
    GetDicom,
    NotFound,
}

/// The route of a request with `method` and `path`.
pub open spec fn route_of(method: Seq<char>, path: Seq<char>) -> Route {
    if method == "OPTIONS"@ {
        Route::Preflight
    } else if !is_prefix("/api"@, path) {
        Route::Frontend
    } else if method == "GET"@ && path == "/api/cases"@ {
        Route::ListCases
    } else if method == "GET"@ && is_prefix("/api/cases/"@, path) {
        Route::GetCase
    } else if method == "POST"@ && path == "/api/cases"@ {
        Route::CreateCase
    } else if method == "POST"@ && is_prefix("/api/cases/"@, path) && has_infix(path, "/images"@) {
        Route::AddImages
    } else if method == "GET"@ && is_prefix("/api/dicom/"@, path) {
        Route::GetDicom
    } else {
        Route::NotFound
    }
}

/// Decides which handler serves a request with `method` and `path`.
pub fn route_request(method: &str, path: &str) -> (r: Route)
    ensures
        r == route_of(method@, path@),
{
    if str_eq(method, "OPTIONS") {
        Route::Preflight
    } else if !starts_with(path, "/api") {
        Route::Frontend
    } else if str_eq(method, "GET") && str_eq(path, "/api/cases") {
        Route::ListCases
    } else if str_eq(method, "GET") && starts_with(path, "/api/cases/") {
        Route::GetCase
    } else if str_eq(method, "POST") && str_eq(path, "/api/cases") {
        Route::CreateCase
    } else if str_eq(method, "POST") && starts_with(path, "/api/cases/") && contains_str(
        path,
        "/images",
    ) {
        Route::AddImages
    } else if str_eq(method, "GET") && starts_with(path, "/api/dicom/") {
        Route::GetDicom
    } else {
        Route::NotFound
    }
}

/// The content type of a front-end file with extension `ext`.
pub open spec fn content_type_of(ext: Seq<char>) -> Seq<char> {
    if ext == "html"@ {
        "text/html; charset=utf-8"@
    } else if ext == "js"@ {
        "application/javascript; charset=utf-8"@
    } else if ext == "css"@ {
        "text/css; charset=utf-8"@
    } else if ext == "png"@ {
        "image/png"@
    } else if ext == "jpg"@ || ext == "jpeg"@ {
        "image/jpeg"@
    } else if ext == "svg"@ {
        "image/svg+xml"@
    } else if ext == "json"@ {
        "application/json; charset=utf-8"@
    } else {
        "text/plain; charset=utf-8"@
    }
}

/// The content type of the front-end file at `path`, chosen by what follows
/// its last dot.
pub fn content_type_for(path: &str) -> (r: &'static str)
    ensures
        r@ == content_type_of(split_on(path@, '.').last()),
{
    let parts = split_char(path, '.');
    let ext = parts[parts.len() - 1].as_str();
    if str_eq(ext, "html") {
        "text/html; charset=utf-8"
    } else if str_eq(ext, "js") {
        "application/javascript; charset=utf-8"
    } else if str_eq(ext, "css") {
        "text/css; charset=utf-8"
    } else if str_eq(ext, "png") {
        "image/png"
    } else if str_eq(ext, "jpg") || str_eq(ext, "jpeg") {
        "image/jpeg"
    } else if str_eq(ext, "svg") {
        "image/svg+xml"
    } else if str_eq(ext, "json") {
        "application/json; charset=utf-8"
    } else {
        "text/plain; charset=utf-8"
    }
}

/// The storage key of the front-end file at `path`.
pub fn frontend_key(path: &str) -> (r: String)
    ensures
        r@ == "frontend/"@ + strip_all(path@, "/"@),
{
    let mut r = "frontend/".to_owned();
    let rest = trim_start_matches(path, "/");
    r.append(rest.as_str());
    r
}

/// The case id in a `/api/cases/{id}` path.
pub fn case_id_from_path(path: &str) -> (r: String)
    ensures
        r@ == strip_all(path@, "/api/cases/"@),
{
    trim_start_matches(path, "/api/cases/")
}

/// The case id in a `/api/cases/{id}/images` path: its fourth piece between
/// slashes, where it has at least five.
pub fn images_case_id(path: &str) -> (r: Option<String>)
    ensures
        split_on(path@, '/').len() < 5 ==> r is None,
        split_on(path@, '/').len() >= 5 ==> (r matches Some(id) && id@ == split_on(path@, '/')[3]),
{
    let parts = split_char(path, '/');
    if parts.len() < 5 {
        None
    } else {
        Some(parts[3].clone())
    }
}

/// The case id and SOP instance UID in a `/api/dicom/{case}/{sop}` path:
/// its fourth and fifth pieces between slashes, the fifth empty where
/// missing; `None` where it has fewer than four pieces.
pub fn dicom_path_ids(path: &str) -> (r: Option<(String, String)>)
    ensures
        split_on(path@, '/').len() < 4 ==> r is None,
        split_on(path@, '/').len() >= 4 ==> (r matches Some(ids) && ids.0@ == split_on(
            path@,
            '/',
        )[3] && ids.1@ == (if split_on(path@, '/').len() >= 5 {
            split_on(path@, '/')[4]
        } else {
            Seq::empty()
        })),
{
    let parts = split_char(path, '/');
    if parts.len() < 4 {
        None
    } else {
        let sop = if parts.len() >= 5 {
            parts[4].clone()
        } else {
            String::new()
        };
        Some((parts[3].clone(), sop))
    }
}

/// The storage key `dicom/{case_id}/{rest}`.
fn dicom_key_of(case_id: &str, rest: &str) -> (r: String)
    ensures
        r@ == "dicom/"@ + case_id@ + "/"@ + rest@,
{
    let mut r = "dicom/".to_owned();
    r.append(case_id);
    r.append("/");
    r.append(rest);
    r
}

/// The storage key of the file uploaded with a case, kept as received.
pub fn original_key(case_id: &str) -> (r: String)
    ensures
        r@ == "dicom/"@ + case_id@ + "/original.dcm"@,
{
    let r = dicom_key_of(case_id, "original.dcm");
    assert(r@ =~= "dicom/"@ + case_id@ + "/original.dcm"@) by {
        reveal_strlit("/");
        reveal_strlit("original.dcm");
        reveal_strlit("/original.dcm");
    }
    r
}

/// The storage key of one instance of a case.
pub fn instance_key(case_id: &str, study_instance_uid: &str, sop_instance_uid: &str) -> (r: String)
    ensures
        r@ == "dicom/"@ + case_id@ + "/"@ + study_instance_uid@ + "/"@ + sop_instance_uid@
            + ".dcm"@,
{
    let mut rest = study_instance_uid.to_owned();
    rest.append("/");
    rest.append(sop_instance_uid);
    rest.append(".dcm");
    let r = dicom_key_of(case_id, rest.as_str());
    assert(r@ =~= "dicom/"@ + case_id@ + "/"@ + study_instance_uid@ + "/"@ + sop_instance_uid@
        + ".dcm"@);
    r
}

/// The storage key of one instance of a case stored without its study.
pub fn simple_instance_key(case_id: &str, sop_instance_uid: &str) -> (r: String)
    ensures
        r@ == "dicom/"@ + case_id@ + "/"@ + sop_instance_uid@ + ".dcm"@,
{
    let mut rest = sop_instance_uid.to_owned();
    rest.append(".dcm");
    let r = dicom_key_of(case_id, rest.as_str());
    assert(r@ =~= "dicom/"@ + case_id@ + "/"@ + sop_instance_uid@ + ".dcm"@);
    r
}

/// The storage key under which an instance of a case is looked up: under
/// its study where the case names one, else directly under the case.
pub fn dicom_key(case_id: &str, study_instance_uid: &str, sop_instance_uid: &str) -> (r: String)
    ensures
        study_instance_uid@.len() > 0 ==> r@ == "dicom/"@ + case_id@ + "/"@ + study_instance_uid@
            + "/"@ + sop_instance_uid@ + ".dcm"@,
        study_instance_uid@.len() == 0 ==> r@ == "dicom/"@ + case_id@ + "/"@ + sop_instance_uid@
            + ".dcm"@,
{
    if !study_instance_uid.is_empty() {
        instance_key(case_id, study_instance_uid, sop_instance_uid)
    } else {
        simple_instance_key(case_id, sop_instance_uid)
    }
}

/// Whether an uploaded file is the marker of a test upload; with
/// `zero_prefix` a file that begins with `AA` counts as one too.
pub fn is_test_upload(dicom_file: &str, zero_prefix: bool) -> (r: bool)
    ensures
        r == (dicom_file@ == "QVRFTVBJT1JSVEVS="@ || is_prefix("QVRFTVBJT1JSVEVS"@, dicom_file@)
            || (zero_prefix && is_prefix("AA"@, dicom_file@))),
{
    str_eq(dicom_file, "QVRFTVBJT1JSVEVS=") || starts_with(dicom_file, "QVRFTVBJT1JSVEVS") || (
    zero_prefix && starts_with(dicom_file, "AA"))
}

/// The modality of a new case: the one uploaded, else that of the first
/// record, else `Unknown`.
pub open spec fn case_modality_of(upload_modality: Seq<char>, records: Seq<DicomMetadata>) -> Seq<
    char,
> {
    if upload_modality.len() > 0 {
        upload_modality
    } else if records.len() > 0 && records[0].modality@.len() > 0 {
        records[0].modality@
    } else {
        "Unknown"@
    }
}

/// Chooses the modality of a new case.
pub fn case_modality(upload_modality: &str, records: &[DicomMetadata]) -> (r: String)
    ensures
        r@ == case_modality_of(upload_modality@, records@),
{
    if !upload_modality.is_empty() {
        upload_modality.to_owned()
    } else if records.len() > 0 && !records[0].modality.as_str().is_empty() {
        records[0].modality.clone()
    } else {
        "Unknown".to_owned()
    }
}

/// Assembles a new case from its upload and the records of its DICOM file:
/// the author's fields, the chosen modality, the study attributes of the
/// first record, and the series and instances of all records.
pub fn new_case(case_id: String, upload: CaseUpload, records: &[DicomMetadata], created_at: String)
    -> (r: Case)
    requires
        records@.len() > 0,
    ensures
        r.case_id == case_id,
        r.title == upload.title,
        r.description == upload.description,
        r.anatomy == upload.anatomy,
        r.diagnosis == upload.diagnosis,
        r.findings == upload.findings,
        r.tags == upload.tags,
        r.created_at == created_at,
        r.modality@ == case_modality_of(upload.modality@, records@),
        r.study_instance_uid == records@[0].study_instance_uid,
        r.series_instance_uid == records@[0].series_instance_uid,
        r.study_date == records@[0].study_date,
        r.study_description == records@[0].study_description,
        r.patient_id == records@[0].patient_id,
        r.patient_name == records@[0].patient_name,
        (crate::models::series_views(r.series@), crate::text::string_views(r.image_ids@))
            == crate::series::aggregate(
            Seq::empty(),
            Seq::empty(),
            crate::series::grouped(views(records@)),
        ),
{
    let modality = case_modality(upload.modality.as_str(), records);
    let (series, image_ids) = create_series_info(records);
    let first = &records[0];
    Case {
        case_id,
        title: upload.title,
        description: upload.description,
        modality,
        anatomy: upload.anatomy,
        diagnosis: upload.diagnosis,
        findings: upload.findings,
        tags: upload.tags,
        image_ids,
        created_at,
        study_instance_uid: first.study_instance_uid.clone(),
        series_instance_uid: first.series_instance_uid.clone(),
        study_date: first.study_date.clone(),
        study_description: first.study_description.clone(),
        patient_id: first.patient_id.clone(),
        patient_name: first.patient_name.clone(),
        series,
    }
}

/// The record that stands for a test image added to `case`: fixed test
/// attributes, the study and series of the case, and a SOP instance UID
/// made unique by `unique_id`.
pub fn test_image_record(case: &Case, unique_id: &str) -> (r: DicomMetadata)
    ensures
        r.sop_instance_uid@ == "1.2.3.4.5.6.7.8.9."@ + unique_id@,
        r.study_instance_uid == case.study_instance_uid,
        r.series_instance_uid == case.series_instance_uid,
        r.modality@ == "CT"@,
        r.instance_number == 1,
{
    let mut sop_instance_uid = "1.2.3.4.5.6.7.8.9.".to_owned();
    sop_instance_uid.append(unique_id);
    DicomMetadata {
        sop_instance_uid,
        study_instance_uid: case.study_instance_uid.clone(),
        series_instance_uid: case.series_instance_uid.clone(),
        modality: "CT".to_owned(),
        patient_name: "TEST PATIENT".to_owned(),
        patient_id: "TEST123".to_owned(),
        study_date: "20250228".to_owned(),
        study_description: "TEST STUDY".to_owned(),
        series_description: "TEST SERIES".to_owned(),
        instance_number: 1,
    }
}

} // verus!
