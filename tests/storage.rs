use radiology_teaching_files::db::{case_to_item, convert_item_at, convert_item_to_case, AttrValue, ConvertError};
use radiology_teaching_files::models::{Case, SeriesInfo};

fn s(key: &str, v: &str) -> (String, AttrValue) {
    (key.to_string(), AttrValue::S(v.to_string()))
}

fn sample_case() -> Case {
    Case {
        case_id: "c9".to_string(),
        title: "Title".to_string(),
        description: "Desc".to_string(),
        modality: "MR".to_string(),
        anatomy: "Knee".to_string(),
        diagnosis: "Tear".to_string(),
        findings: "F".to_string(),
        tags: vec!["a".to_string(), "b".to_string()],
        image_ids: vec!["1.1".to_string()],
        created_at: "2024-05-05T00:00:00+00:00".to_string(),
        study_instance_uid: "ST".to_string(),
        series_instance_uid: "SE".to_string(),
        study_date: "20240505".to_string(),
        study_description: "SD".to_string(),
        patient_id: "PID".to_string(),
        patient_name: "PN".to_string(),
        series: vec![SeriesInfo {
            series_instance_uid: "SE".to_string(),
            series_number: -42,
            series_description: "AX".to_string(),
            modality: "MR".to_string(),
            image_ids: vec!["1.1".to_string()],
        }],
    }
}

#[test]
fn item_requires_case_id_and_title() {
    let item = vec![s("title", "T")];
    assert_eq!(convert_item_at(&item, "now").unwrap_err(), ConvertError::MissingCaseId);
    let item = vec![s("case_id", "c1"), (String::from("title"), AttrValue::N("3".to_string()))];
    assert_eq!(convert_item_at(&item, "now").unwrap_err(), ConvertError::MissingTitle);
    assert_eq!(convert_item_to_case(&vec![]).unwrap_err(), ConvertError::MissingCaseId);
}

#[test]
fn item_fields_default() {
    let item = vec![s("case_id", "c1"), s("title", "T")];
    let c = convert_item_at(&item, "2025-01-01T00:00:00Z").unwrap();
    assert_eq!(c.case_id, "c1");
    assert_eq!(c.title, "T");
    assert_eq!(c.description, "");
    assert_eq!(c.modality, "Unknown");
    assert_eq!(c.anatomy, "Unknown");
    assert_eq!(c.created_at, "2025-01-01T00:00:00Z");
    assert!(c.tags.is_empty());
    assert!(c.series.is_empty());
}

#[test]
fn item_lists_and_series_read() {
    let series_map = vec![
        s("series_instance_uid", "SE"),
        ("series_number".to_string(), AttrValue::N("12".to_string())),
        ("image_ids".to_string(), AttrValue::L(vec![AttrValue::S("x".to_string()), AttrValue::Other])),
    ];
    let item = vec![
        s("case_id", "c1"),
        s("title", "T"),
        ("tags".to_string(), AttrValue::L(vec![AttrValue::S("t1".to_string()), AttrValue::N("5".to_string()), AttrValue::S("t2".to_string())])),
        ("series".to_string(), AttrValue::L(vec![AttrValue::M(series_map), AttrValue::S("skip".to_string())])),
    ];
    let c = convert_item_at(&item, "now").unwrap();
    assert_eq!(c.tags, vec!["t1", "t2"]);
    assert_eq!(c.series.len(), 1);
    assert_eq!(c.series[0].series_number, 12);
    assert_eq!(c.series[0].modality, "Unknown");
    assert_eq!(c.series[0].image_ids, vec!["x"]);
}

#[test]
fn bad_series_number_reads_as_zero() {
    for text in ["", "+", "-", "1e3", "2147483648", " 7"] {
        let m = vec![("series_number".to_string(), AttrValue::N(text.to_string()))];
        let item = vec![s("case_id", "c"), s("title", "t"), ("series".to_string(), AttrValue::L(vec![AttrValue::M(m)]))];
        assert_eq!(convert_item_at(&item, "now").unwrap().series[0].series_number, 0, "{}", text);
    }
    for (text, n) in [("-2147483648", i32::MIN), ("+17", 17), ("007", 7), ("2147483647", i32::MAX)] {
        let m = vec![("series_number".to_string(), AttrValue::N(text.to_string()))];
        let item = vec![s("case_id", "c"), s("title", "t"), ("series".to_string(), AttrValue::L(vec![AttrValue::M(m)]))];
        assert_eq!(convert_item_at(&item, "now").unwrap().series[0].series_number, n);
    }
}

#[test]
fn case_stored_and_read_back() {
    let c = sample_case();
    let item = case_to_item(&c);
    assert_eq!(item.len(), 17);
    assert_eq!(item[0].0, "case_id");
    match &item[16].1 {
        AttrValue::L(l) => match &l[0] {
            AttrValue::M(m) => match &m[1].1 {
                AttrValue::N(n) => assert_eq!(n, "-42"),
                other => panic!("unexpected {:?}", other),
            },
            other => panic!("unexpected {:?}", other),
        },
        other => panic!("unexpected {:?}", other),
    }
    let back = convert_item_at(&item, "later").unwrap();
    assert_eq!(back.case_id, c.case_id);
    assert_eq!(back.created_at, c.created_at);
    assert_eq!(back.tags, c.tags);
    assert_eq!(back.series[0].series_number, -42);
    assert_eq!(back.series[0].image_ids, c.series[0].image_ids);
    assert_eq!(back.patient_name, "PN");
}
