use radiology_teaching_files::models::{Case, DicomMetadata, SeriesInfo};
use radiology_teaching_files::series::{
    create_series_info, dedup_by_sop_uid, group_by_series, update_case_with_new_instances,
};

fn record(sop: &str, series: &str, number: i32) -> DicomMetadata {
    DicomMetadata {
        sop_instance_uid: sop.to_string(),
        study_instance_uid: "ST".to_string(),
        series_instance_uid: series.to_string(),
        modality: format!("M-{}", sop),
        patient_name: "P".to_string(),
        patient_id: "I".to_string(),
        study_date: String::new(),
        study_description: String::new(),
        series_description: format!("D-{}", sop),
        instance_number: number,
    }
}

fn empty_case() -> Case {
    Case {
        case_id: "c1".to_string(),
        title: "t".to_string(),
        description: String::new(),
        modality: "CT".to_string(),
        anatomy: "Head".to_string(),
        diagnosis: String::new(),
        findings: String::new(),
        tags: vec!["x".to_string()],
        image_ids: Vec::new(),
        created_at: "2025-01-01T00:00:00Z".to_string(),
        study_instance_uid: "ST".to_string(),
        series_instance_uid: "S1".to_string(),
        study_date: String::new(),
        study_description: String::new(),
        patient_id: String::new(),
        patient_name: String::new(),
        series: Vec::new(),
    }
}

#[test]
fn grouping_in_first_seen_order() {
    let records = vec![record("A", "S1", 1), record("B", "S1", 2), record("C", "S2", 3)];
    let (series, ids) = create_series_info(&records);
    assert_eq!(series.len(), 2);
    assert_eq!(series[0].series_instance_uid, "S1");
    assert_eq!(series[0].image_ids, vec!["A", "B"]);
    assert_eq!(series[1].series_instance_uid, "S2");
    assert_eq!(series[1].image_ids, vec!["C"]);
    assert_eq!(ids, vec!["A", "B", "C"]);
}

#[test]
fn series_fields_from_first_instance() {
    let records = vec![record("B", "S1", 5), record("A", "S1", 1)];
    let (series, _) = create_series_info(&records);
    assert_eq!(series[0].series_number, 5);
    assert_eq!(series[0].series_description, "D-B");
    assert_eq!(series[0].modality, "M-B");
}

#[test]
fn grouping_lists_each_uid_once() {
    let records = vec![record("A", "S1", 1), record("A", "S1", 1), record("B", "S2", 2), record("A", "S1", 1)];
    let (series, ids) = create_series_info(&records);
    assert_eq!(series[0].image_ids, vec!["A"]);
    assert_eq!(series[1].image_ids, vec!["B"]);
    assert_eq!(ids, vec!["A", "B"]);
}

#[test]
fn grouping_of_nothing() {
    let (series, ids) = create_series_info(&[]);
    assert!(series.is_empty());
    assert!(ids.is_empty());
}

#[test]
fn dedup_keeps_first_seen() {
    let records = vec![record("A", "S1", 1), record("B", "S1", 2), record("A", "S9", 3)];
    let r = dedup_by_sop_uid(&records);
    assert_eq!(r.len(), 2);
    assert_eq!(r[0].sop_instance_uid, "A");
    assert_eq!(r[0].series_instance_uid, "S1");
    assert_eq!(r[1].sop_instance_uid, "B");
}

#[test]
fn uid_from_two_strategies_kept_once() {
    let mut merged = vec![record("X", "S1", 1), record("Y", "S1", 2)];
    merged.extend(vec![record("Y", "S1", 1), record("Z", "S1", 2)]);
    let r = dedup_by_sop_uid(&merged);
    let uids: Vec<&str> = r.iter().map(|m| m.sop_instance_uid.as_str()).collect();
    assert_eq!(uids, vec!["X", "Y", "Z"]);
}

#[test]
fn update_case_extends_and_adds_series() {
    let mut case = empty_case();
    case.series.push(SeriesInfo {
        series_instance_uid: "S1".to_string(),
        series_number: 1,
        series_description: "old".to_string(),
        modality: "CT".to_string(),
        image_ids: vec!["A".to_string()],
    });
    case.image_ids.push("A".to_string());
    let records = vec![record("A", "S1", 1), record("B", "S1", 2), record("C", "S2", 3)];
    update_case_with_new_instances(&mut case, &records);
    assert_eq!(case.series.len(), 2);
    assert_eq!(case.series[0].image_ids, vec!["A", "B"]);
    assert_eq!(case.series[0].series_description, "old");
    assert_eq!(case.series[1].series_instance_uid, "S2");
    assert_eq!(case.series[1].series_number, 3);
    assert_eq!(case.series[1].image_ids, vec!["C"]);
    assert_eq!(case.image_ids, vec!["A", "B", "C"]);
    assert_eq!(case.case_id, "c1");
    assert_eq!(case.tags, vec!["x"]);
}

#[test]
fn flat_list_follows_series_order() {
    let records = vec![record("A", "S1", 1), record("C", "S2", 2), record("B", "S1", 3)];
    let (series, ids) = create_series_info(&records);
    assert_eq!(series[0].image_ids, vec!["A", "B"]);
    assert_eq!(series[1].image_ids, vec!["C"]);
    assert_eq!(ids, vec!["A", "B", "C"]);
}

#[test]
fn records_grouped_by_series() {
    let records = vec![record("A", "S1", 1), record("C", "S2", 2), record("B", "S1", 3), record("D", "S3", 4), record("E", "S2", 5)];
    let uids: Vec<String> = group_by_series(&records).into_iter().map(|m| m.sop_instance_uid).collect();
    assert_eq!(uids, vec!["A", "B", "C", "E", "D"]);
}

#[test]
fn update_case_appends_series_by_series() {
    let mut case = empty_case();
    let records = vec![record("A", "S1", 1), record("C", "S2", 2), record("B", "S1", 3)];
    update_case_with_new_instances(&mut case, &records);
    assert_eq!(case.image_ids, vec!["A", "B", "C"]);
    assert_eq!(case.series[0].image_ids, vec!["A", "B"]);
    assert_eq!(case.series[1].image_ids, vec!["C"]);
}
