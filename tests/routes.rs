use radiology_teaching_files::models::{CaseUpload, DicomMetadata};
use radiology_teaching_files::provision::{
    reports_missing_table, reports_not_found, table_poll_step, TableWait,
};
use radiology_teaching_files::routes::{
    case_id_from_path, case_modality, content_type_for, dicom_key, dicom_path_ids, frontend_key,
    images_case_id, instance_key, is_test_upload, new_case, original_key, route_request, Route,
};

fn record(sop: &str, series: &str, modality: &str) -> DicomMetadata {
    DicomMetadata {
        sop_instance_uid: sop.to_string(),
        study_instance_uid: "ST".to_string(),
        series_instance_uid: series.to_string(),
        modality: modality.to_string(),
        patient_name: "PN".to_string(),
        patient_id: "PID".to_string(),
        study_date: "20240101".to_string(),
        study_description: "SD".to_string(),
        series_description: "SED".to_string(),
        instance_number: 1,
    }
}

#[test]
fn routes_by_method_and_path() {
    assert_eq!(route_request("OPTIONS", "/api/cases"), Route::Preflight);
    assert_eq!(route_request("GET", "/index.html"), Route::Frontend);
    assert_eq!(route_request("GET", "/api/cases"), Route::ListCases);
    assert_eq!(route_request("GET", "/api/cases/abc"), Route::GetCase);
    assert_eq!(route_request("POST", "/api/cases"), Route::CreateCase);
    assert_eq!(route_request("POST", "/api/cases/abc/images"), Route::AddImages);
    assert_eq!(route_request("POST", "/api/cases/abc"), Route::NotFound);
    assert_eq!(route_request("GET", "/api/dicom/c/s"), Route::GetDicom);
    assert_eq!(route_request("DELETE", "/api/cases"), Route::NotFound);
}

#[test]
fn content_types_by_extension() {
    assert_eq!(content_type_for("/index.html"), "text/html; charset=utf-8");
    assert_eq!(content_type_for("app.min.js"), "application/javascript; charset=utf-8");
    assert_eq!(content_type_for("a.jpeg"), "image/jpeg");
    assert_eq!(content_type_for("a.jpg"), "image/jpeg");
    assert_eq!(content_type_for("logo.svg"), "image/svg+xml");
    assert_eq!(content_type_for("README"), "text/plain; charset=utf-8");
}

#[test]
fn storage_keys() {
    assert_eq!(frontend_key("//index.html"), "frontend/index.html");
    assert_eq!(original_key("c1"), "dicom/c1/original.dcm");
    assert_eq!(instance_key("c1", "st", "sop"), "dicom/c1/st/sop.dcm");
    assert_eq!(dicom_key("c1", "st", "sop"), "dicom/c1/st/sop.dcm");
    assert_eq!(dicom_key("c1", "", "sop"), "dicom/c1/sop.dcm");
}

#[test]
fn ids_from_paths() {
    assert_eq!(case_id_from_path("/api/cases/abc"), "abc");
    assert_eq!(images_case_id("/api/cases/abc/images"), Some("abc".to_string()));
    assert_eq!(images_case_id("/api/cases/abc"), None);
    assert_eq!(dicom_path_ids("/api/dicom/c1/1.2.3"), Some(("c1".to_string(), "1.2.3".to_string())));
    assert_eq!(dicom_path_ids("/api/dicom/c1"), Some(("c1".to_string(), String::new())));
    assert_eq!(dicom_path_ids("/api/dicom"), None);
}

#[test]
fn test_upload_markers() {
    assert!(is_test_upload("QVRFTVBJT1JSVEVS=", false));
    assert!(is_test_upload("QVRFTVBJT1JSVEVSxyz", false));
    assert!(!is_test_upload("AAAA", false));
    assert!(is_test_upload("AAAA", true));
    assert!(!is_test_upload("RElDTQ==", true));
}

#[test]
fn modality_of_new_case() {
    let records = vec![record("A", "S1", "MR")];
    assert_eq!(case_modality("CT", &records), "CT");
    assert_eq!(case_modality("", &records), "MR");
    assert_eq!(case_modality("", &[record("A", "S1", "")]), "Unknown");
    assert_eq!(case_modality("", &[]), "Unknown");
}

#[test]
fn new_case_from_upload() {
    let upload = CaseUpload {
        title: "T".to_string(),
        description: "D".to_string(),
        modality: String::new(),
        anatomy: "Chest".to_string(),
        diagnosis: "Dx".to_string(),
        findings: "F".to_string(),
        tags: vec!["a".to_string()],
        dicom_file: String::new(),
    };
    let records = vec![record("A", "S1", "MR"), record("C", "S2", "MR"), record("B", "S1", "MR")];
    let case = new_case("id1".to_string(), upload, &records, "now".to_string());
    assert_eq!(case.case_id, "id1");
    assert_eq!(case.modality, "MR");
    assert_eq!(case.image_ids, vec!["A", "B", "C"]);
    assert_eq!(case.series.len(), 2);
    assert_eq!(case.study_instance_uid, "ST");
    assert_eq!(case.series_instance_uid, "S1");
    assert_eq!(case.created_at, "now");
}

#[test]
fn table_wait_steps() {
    assert_eq!(table_poll_step(0, Some("ACTIVE")), TableWait::Ready);
    assert_eq!(table_poll_step(0, Some("CREATING")), TableWait::Retry);
    assert_eq!(table_poll_step(8, None), TableWait::Retry);
    assert_eq!(table_poll_step(9, None), TableWait::GiveUp);
    assert_eq!(table_poll_step(9, Some("ACTIVE")), TableWait::Ready);
}

#[test]
fn missing_resource_errors() {
    assert!(reports_missing_table("service error: ResourceNotFoundException: no table"));
    assert!(!reports_missing_table("AccessDenied"));
    assert!(reports_not_found("NotFound"));
    assert!(!reports_not_found("Forbidden"));
}
