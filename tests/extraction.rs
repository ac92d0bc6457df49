use dicom_core::VR;
use dicom_object::{FileMetaTableBuilder, InMemDicomObject, Tag};
use radiology_teaching_files::dicom::{
    expand_frames, extract_metadata, number_of_frames, ExtractError, RequiredTag,
};
use radiology_teaching_files::models::DicomMetadata;
use radiology_teaching_files::study::{detect_instances, process_dicom_data, process_study_with_date};

struct Attrs<'a> {
    sop: Option<&'a str>,
    study: Option<&'a str>,
    series: Option<&'a str>,
    modality: &'a str,
    patient_name: &'a str,
    frames: Option<&'a str>,
    instance_number: Option<&'a str>,
}

fn attrs(sop: &str) -> Attrs<'_> {
    Attrs {
        sop: Some(sop),
        study: Some("1.2.840.99.1"),
        series: Some("1.2.840.99.2"),
        modality: "CT",
        patient_name: "DOE^JANE",
        frames: None,
        instance_number: Some("7"),
    }
}

fn dicom_bytes(a: &Attrs) -> Vec<u8> {
    let mut obj = InMemDicomObject::new_empty();
    obj.put_str(Tag(0x0008, 0x0016), VR::UI, "1.2.840.10008.5.1.4.1.1.2");
    if let Some(s) = a.sop {
        obj.put_str(Tag(0x0008, 0x0018), VR::UI, s);
    }
    if let Some(s) = a.study {
        obj.put_str(Tag(0x0020, 0x000D), VR::UI, s);
    }
    if let Some(s) = a.series {
        obj.put_str(Tag(0x0020, 0x000E), VR::UI, s);
    }
    obj.put_str(Tag(0x0008, 0x0060), VR::CS, a.modality);
    if !a.patient_name.is_empty() {
        obj.put_str(Tag(0x0010, 0x0010), VR::PN, a.patient_name);
    }
    obj.put_str(Tag(0x0008, 0x0020), VR::DA, "20240102");
    obj.put_str(Tag(0x0008, 0x1030), VR::LO, "HEAD");
    obj.put_str(Tag(0x0008, 0x103E), VR::LO, "AXIAL");
    if let Some(n) = a.instance_number {
        obj.put_str(Tag(0x0020, 0x0013), VR::IS, n);
    }
    if let Some(n) = a.frames {
        obj.put_str(Tag(0x0028, 0x0008), VR::IS, n);
    }
    let meta = FileMetaTableBuilder::new()
        .transfer_syntax("1.2.840.10008.1.2.1")
        .media_storage_sop_class_uid("1.2.840.10008.5.1.4.1.1.2")
        .media_storage_sop_instance_uid(a.sop.unwrap_or("1.2.840.99.0"));
    let file = obj.with_meta(meta).unwrap();
    let mut out = Vec::new();
    file.write_all(&mut out).unwrap();
    out
}

fn sample(sop: &str) -> DicomMetadata {
    DicomMetadata {
        sop_instance_uid: sop.to_string(),
        study_instance_uid: "S".to_string(),
        series_instance_uid: "SE".to_string(),
        modality: "MR".to_string(),
        patient_name: "P".to_string(),
        patient_id: "ID".to_string(),
        study_date: "20200101".to_string(),
        study_description: "SD".to_string(),
        series_description: "SED".to_string(),
        instance_number: 4,
    }
}

#[test]
fn extraction_copies_source_tags() {
    let data = dicom_bytes(&attrs("1.2.840.99.3"));
    let m = extract_metadata(&data).unwrap();
    assert_eq!(m.sop_instance_uid, "1.2.840.99.3");
    assert_eq!(m.study_instance_uid, "1.2.840.99.1");
    assert_eq!(m.series_instance_uid, "1.2.840.99.2");
    assert_eq!(m.modality, "CT");
    assert_eq!(m.patient_name, "DOE^JANE");
    assert_eq!(m.patient_id, "Unknown");
    assert_eq!(m.study_date, "20240102");
    assert_eq!(m.study_description, "HEAD");
    assert_eq!(m.series_description, "AXIAL");
    assert_eq!(m.instance_number, 7);
}

#[test]
fn extraction_defaults_optional_tags() {
    let mut a = attrs("1.2.840.99.4");
    a.patient_name = "";
    a.instance_number = None;
    let m = extract_metadata(&dicom_bytes(&a)).unwrap();
    assert_eq!(m.patient_name, "Anonymous");
    assert_eq!(m.patient_id, "Unknown");
    assert_eq!(m.instance_number, 0);
}

#[test]
fn extraction_missing_sop_uid() {
    let mut a = attrs("1.2.840.99.5");
    a.sop = None;
    let r = extract_metadata(&dicom_bytes(&a));
    assert_eq!(r.unwrap_err(), ExtractError::MissingRequiredField(RequiredTag::SopInstanceUid));
}

#[test]
fn extraction_missing_study_uid() {
    let mut a = attrs("1.2.840.99.6");
    a.study = None;
    let r = extract_metadata(&dicom_bytes(&a));
    assert_eq!(r.unwrap_err(), ExtractError::MissingRequiredField(RequiredTag::StudyInstanceUid));
}

#[test]
fn extraction_missing_series_uid() {
    let mut a = attrs("1.2.840.99.7");
    a.series = None;
    let r = extract_metadata(&dicom_bytes(&a));
    assert_eq!(r.unwrap_err(), ExtractError::MissingRequiredField(RequiredTag::SeriesInstanceUid));
}

#[test]
fn extraction_rejects_non_dicom() {
    let r = extract_metadata(b"plainly not a medical image at all");
    assert_eq!(r.unwrap_err(), ExtractError::MalformedStream);
    assert_eq!(extract_metadata(&[]).unwrap_err(), ExtractError::MalformedStream);
}

#[test]
fn frame_count_read_or_defaulted() {
    let mut a = attrs("1.2.840.99.8");
    assert_eq!(number_of_frames(&dicom_bytes(&a)), 1);
    a.frames = Some("12");
    assert_eq!(number_of_frames(&dicom_bytes(&a)), 12);
}

#[test]
fn expansion_numbers_frames() {
    let base = sample("1.2.3");
    let frames = expand_frames(&base, 3);
    assert_eq!(frames.len(), 3);
    for (k, f) in frames.iter().enumerate() {
        assert_eq!(f.sop_instance_uid, format!("1.2.3.{}", k + 1));
        assert_eq!(f.instance_number, k as i32 + 1);
        assert_eq!(f.study_instance_uid, "S");
        assert_eq!(f.series_instance_uid, "SE");
        assert_eq!(f.modality, "MR");
        assert_eq!(f.series_description, "SED");
    }
}

#[test]
fn expansion_of_twelve_frames_uses_two_digits() {
    let frames = expand_frames(&sample("9.8"), 12);
    assert_eq!(frames.len(), 12);
    assert_eq!(frames[9].sop_instance_uid, "9.8.10");
    assert_eq!(frames[11].sop_instance_uid, "9.8.12");
    assert_eq!(frames[11].instance_number, 12);
}

#[test]
fn expansion_single_frame_passthrough() {
    for n in [1, 0, -3] {
        let frames = expand_frames(&sample("1.2.3"), n);
        assert_eq!(frames.len(), 1);
        assert_eq!(frames[0].sop_instance_uid, "1.2.3");
        assert_eq!(frames[0].instance_number, 4);
    }
}

#[test]
fn study_of_single_instance() {
    let data = dicom_bytes(&attrs("1.2.840.99.9"));
    let r = process_study_with_date(&data, "MR", &"20250101".to_string());
    assert_eq!(r.len(), 1);
    assert_eq!(r[0].sop_instance_uid, "1.2.840.99.9");
    assert_eq!(r[0].modality, "CT");
}

#[test]
fn study_of_multi_frame_instance() {
    let mut a = attrs("1.2.840.99.10");
    a.frames = Some("4");
    let r = process_study_with_date(&dicom_bytes(&a), "", &"20250101".to_string());
    let uids: Vec<&str> = r.iter().map(|m| m.sop_instance_uid.as_str()).collect();
    assert_eq!(uids, vec!["1.2.840.99.10.1", "1.2.840.99.10.2", "1.2.840.99.10.3", "1.2.840.99.10.4"]);
    let numbers: Vec<i32> = r.iter().map(|m| m.instance_number).collect();
    assert_eq!(numbers, vec![1, 2, 3, 4]);
    assert!(r.iter().all(|m| m.series_instance_uid == "1.2.840.99.2"));
}

#[test]
fn study_of_concatenated_streams() {
    let mut data = dicom_bytes(&attrs("1.2.840.99.11"));
    data.extend(dicom_bytes(&attrs("1.2.840.99.12")));
    data.extend(dicom_bytes(&attrs("1.2.840.99.11")));
    let r = process_study_with_date(&data, "", &"20250101".to_string());
    let uids: Vec<&str> = r.iter().map(|m| m.sop_instance_uid.as_str()).collect();
    assert_eq!(uids, vec!["1.2.840.99.11", "1.2.840.99.12"]);
}

#[test]
fn study_of_concatenated_multi_frame_part() {
    let mut data = dicom_bytes(&attrs("1.2.840.99.13"));
    let mut a = attrs("1.2.840.99.14");
    a.frames = Some("2");
    data.extend(dicom_bytes(&a));
    let r = process_study_with_date(&data, "", &"20250101".to_string());
    let uids: Vec<&str> = r.iter().map(|m| m.sop_instance_uid.as_str()).collect();
    assert_eq!(uids, vec!["1.2.840.99.13", "1.2.840.99.14", "1.2.840.99.14.1", "1.2.840.99.14.2"]);
}

#[test]
fn study_falls_back_with_hint() {
    let r = process_study_with_date(b"no marker in here", "MR", &"20250101".to_string());
    assert_eq!(r.len(), 1);
    assert_eq!(r[0].sop_instance_uid, "unknown.1.2.3.4.5");
    assert_eq!(r[0].study_instance_uid, "unknown.1.2.3");
    assert_eq!(r[0].series_instance_uid, "unknown.1.2.3.4");
    assert_eq!(r[0].modality, "MR");
    assert_eq!(r[0].study_date, "20250101");
    assert_eq!(r[0].patient_name, "Unknown Patient");
}

#[test]
fn study_falls_back_without_hint() {
    let r = process_study_with_date(&[], "", &"20250101".to_string());
    assert_eq!(r.len(), 1);
    assert!(!r[0].sop_instance_uid.is_empty());
    assert_eq!(r[0].modality, "CT");
}

#[test]
fn study_falls_back_when_no_part_extracts() {
    let mut data = vec![0u8; 128];
    data.extend_from_slice(b"DICMgarbage that is not a meta group");
    let r = process_study_with_date(&data, "", &"20250101".to_string());
    assert_eq!(r.len(), 1);
    assert_eq!(r[0].sop_instance_uid, "unknown.1.2.3.4.5");
}

#[test]
fn test_upload_yields_test_record() {
    let r = process_dicom_data(&[0u8; 10], true, "");
    assert_eq!(r.len(), 1);
    assert_eq!(r[0].sop_instance_uid, "1.2.3.4.5.6.7.8.9.0");
    assert_eq!(r[0].modality, "CT");
    let r = process_dicom_data(&[0u8; 10], true, "US");
    assert_eq!(r[0].modality, "US");
}

#[test]
fn refusing_variant_makes_no_placeholder() {
    assert!(detect_instances(b"nothing to see").is_none());
    let data = dicom_bytes(&attrs("1.2.840.99.15"));
    let r = detect_instances(&data).unwrap();
    assert_eq!(r.len(), 1);
    assert_eq!(r[0].sop_instance_uid, "1.2.840.99.15");
}
