use vstd::prelude::*;

use crate::models::{views, DicomMetadata, InstanceView};
use crate::text::{decimal, non_empty_or, non_empty_or_else, push_decimal};

verus! {

// Whether dicom_object reads `data` as one DICOM object: the file meta group
// followed by the data set, with or without the 128-byte preamble.
pub uninterp spec fn dicom_parses(data: Seq<u8>) -> bool;

// The text value of the attribute called `name` in the object that
// dicom_object reads from `data`; `None` where `data` does not read as an
// object, the object lacks the attribute, or its value is not text.
pub uninterp spec fn dicom_attr_text(data: Seq<u8>, name: Seq<char>) -> Option<Seq<char>>;

// The integer value of the attribute called `name` in the object that
// dicom_object reads from `data`; `None` where there is no such object,
// attribute or integer.
pub uninterp spec fn dicom_attr_int(data: Seq<u8>, name: Seq<char>) -> Option<i32>;

/// The view of an optional string.
pub open spec fn text_view(o: Option<String>) -> Option<Seq<char>> {
    match o {
        Some(s) => Some(s@),
        None => None,
    }
}

/// What reading one attribute of a DICOM byte stream gives: whether the
/// bytes read as an object at all, and the attribute's value as text and
/// as an integer, where it has one.
struct AttributeRead {
    parsed: bool,
    text: Option<String>,
    integer: Option<i32>,
}

/// Relies on `dicom_object::from_reader` (reading the bytes as one object),
/// `InMemDicomObject::element_by_name`, and `InMemElement::to_str` and
/// `to_int`: each result depends on the bytes and the name alone, and an
/// object that does not read has no attributes.
#[verifier::external_body]
fn read_attribute(data: &[u8], name: &str) -> (r: AttributeRead)
    ensures
        r.parsed == dicom_parses(data@),
        text_view(r.text) == dicom_attr_text(data@, name@),
        r.integer == dicom_attr_int(data@, name@),
        !r.parsed ==> r.text is None && r.integer is None,
{
    let object = match dicom_object::from_reader(data) {
        Ok(object) => object,
        Err(_) => return AttributeRead { parsed: false, text: None, integer: None },
    };
    let element = match object.element_by_name(name) {
        Ok(element) => element,
        Err(_) => return AttributeRead { parsed: true, text: None, integer: None },
    };
    let text = element.to_str().ok().map(|v| v.into_owned());
    AttributeRead { parsed: true, text, integer: element.to_int::<i32>().ok() }
}

/// Whether the bytes read as one DICOM object.
fn reads_as_dicom(data: &[u8]) -> (r: bool)
    ensures
        r == dicom_parses(data@),
{
    read_attribute(data, "SOPInstanceUID").parsed
}

/// The text value of one attribute.
fn attribute_text(data: &[u8], name: &str) -> (r: Option<String>)
    ensures
        text_view(r) == dicom_attr_text(data@, name@),
{
    read_attribute(data, name).text
}

/// The integer value of one attribute.
fn attribute_int(data: &[u8], name: &str) -> (r: Option<i32>)
    ensures
        r == dicom_attr_int(data@, name@),
{
    read_attribute(data, name).integer
}

/// The text of attribute `name`, empty where it cannot be read.
pub open spec fn attr_text(d: Seq<u8>, name: Seq<char>) -> Seq<char> {
    match dicom_attr_text(d, name) {
        Some(t) => t,
        None => Seq::empty(),
    }
}

/// The integer value of attribute `name`, or `fallback` where it cannot be read.
pub open spec fn attr_int_or(d: Seq<u8>, name: Seq<char>, fallback: i32) -> i32 {
    match dicom_attr_int(d, name) {
        Some(n) => n,
        None => fallback,
    }
}

/// One of the three attributes without which no record is made.
#[derive(Debug, Clone, Copy, PartialEq, Eq, Structural)]
pub enum RequiredTag {
    SopInstanceUid,
    StudyInstanceUid,
    SeriesInstanceUid,
}

/// Why one extraction attempt made no record.
#[derive(Debug, Clone, Copy, PartialEq, Eq, Structural)]
pub enum ExtractError {
    /// The bytes do not read as a DICOM object at all.
    MalformedStream,
    /// A required UID attribute is absent, unreadable or empty.
    MissingRequiredField(RequiredTag),
}

/// The error that extraction from `d` ends in, if any.
pub open spec fn extraction_error(d: Seq<u8>) -> Option<ExtractError> {
    if !dicom_parses(d) {
        Some(ExtractError::MalformedStream)
    } else if attr_text(d, "SOPInstanceUID"@).len() == 0 {
        Some(ExtractError::MissingRequiredField(RequiredTag::SopInstanceUid))
    } else if attr_text(d, "StudyInstanceUID"@).len() == 0 {
        Some(ExtractError::MissingRequiredField(RequiredTag::StudyInstanceUid))
    } else if attr_text(d, "SeriesInstanceUID"@).len() == 0 {
        Some(ExtractError::MissingRequiredField(RequiredTag::SeriesInstanceUid))
    } else {
        None
    }
}

/// Whether a record is extracted from `d`.
pub open spec fn extracts(d: Seq<u8>) -> bool {
    extraction_error(d) is None
}

/// The record extracted from `d`, where `extracts(d)`.
pub open spec fn extracted_view(d: Seq<u8>) -> InstanceView {
    InstanceView {
        sop_instance_uid: attr_text(d, "SOPInstanceUID"@),
        study_instance_uid: attr_text(d, "StudyInstanceUID"@),
        series_instance_uid: attr_text(d, "SeriesInstanceUID"@),
        modality: attr_text(d, "Modality"@),
        patient_name: non_empty_or(attr_text(d, "PatientName"@), "Anonymous"@),
        patient_id: non_empty_or(attr_text(d, "PatientID"@), "Unknown"@),
        study_date: attr_text(d, "StudyDate"@),
        study_description: attr_text(d, "StudyDescription"@),
        series_description: attr_text(d, "SeriesDescription"@),
        instance_number: attr_int_or(d, "InstanceNumber"@, 0),
    }
}

/// The frame count that `d` declares, 1 where it declares none.
pub open spec fn frame_count(d: Seq<u8>) -> i32 {
    attr_int_or(d, "NumberOfFrames"@, 1)
}

fn text_or_empty(data: &[u8], name: &str) -> (r: String)
    ensures
        r@ == attr_text(data@, name@),
{
    match attribute_text(data, name) {
        Some(t) => t,
        None => String::new(),
    }
}

/// Extracts the identifying attributes of the one DICOM object that `data`
/// encodes. The three UIDs are required; the other attributes fall back to
/// their defaults.
pub fn extract_metadata(data: &[u8]) -> (r: Result<DicomMetadata, ExtractError>)
    ensures
        match r {
            Ok(m) => extracts(data@) && m@ == extracted_view(data@),
            Err(e) => extraction_error(data@) == Some(e),
        },
{
    if !reads_as_dicom(data) {
        return Err(ExtractError::MalformedStream);
    }
    let sop_instance_uid = text_or_empty(data, "SOPInstanceUID");
    if sop_instance_uid.as_str().is_empty() {
        return Err(ExtractError::MissingRequiredField(RequiredTag::SopInstanceUid));
    }
    let study_instance_uid = text_or_empty(data, "StudyInstanceUID");
    if study_instance_uid.as_str().is_empty() {
        return Err(ExtractError::MissingRequiredField(RequiredTag::StudyInstanceUid));
    }
    let series_instance_uid = text_or_empty(data, "SeriesInstanceUID");
    if series_instance_uid.as_str().is_empty() {
        return Err(ExtractError::MissingRequiredField(RequiredTag::SeriesInstanceUid));
    }
    let modality = text_or_empty(data, "Modality");
    let patient_name = non_empty_or_else(text_or_empty(data, "PatientName"), "Anonymous");
    let patient_id = non_empty_or_else(text_or_empty(data, "PatientID"), "Unknown");
    let study_date = text_or_empty(data, "StudyDate");
    let study_description = text_or_empty(data, "StudyDescription");
    let series_description = text_or_empty(data, "SeriesDescription");
    let instance_number = match attribute_int(data, "InstanceNumber") {
        Some(n) => n,
        None => 0,
    };
    Ok(DicomMetadata {
        sop_instance_uid,
        study_instance_uid,
        series_instance_uid,
        modality,
        patient_name,
        patient_id,
        study_date,
        study_description,
        series_description,
        instance_number,
    })
}

/// The number of frames that `data` declares, 1 where it declares none.
pub fn number_of_frames(data: &[u8]) -> (r: i32)
    ensures
        r == frame_count(data@),
{
    match attribute_int(data, "NumberOfFrames") {
        Some(n) => n,
        None => 1,
    }
}

/// Frame `k` (counted from 0) of the multi-frame object described by `b`.
pub open spec fn frame_view(b: InstanceView, k: nat) -> InstanceView {
    InstanceView {
        sop_instance_uid: b.sop_instance_uid + "."@ + decimal(k + 1),
        study_instance_uid: b.study_instance_uid,
        series_instance_uid: b.series_instance_uid,
        modality: b.modality,
        patient_name: b.patient_name,
        patient_id: b.patient_id,
        study_date: b.study_date,
        study_description: b.study_description,
        series_description: b.series_description,
        instance_number: (k + 1) as i32,
    }
}

/// The records for an object described by `b` that declares `frames` frames:
/// one per frame where there are several, else `b` alone.
pub open spec fn expanded(b: InstanceView, frames: i32) -> Seq<InstanceView> {
    if frames <= 1 {
        seq![b]
    } else {
        Seq::new(frames as nat, |k: int| frame_view(b, k as nat))
    }
}

/// Turns one multi-frame record into one record per frame. Each copies the
/// study, series and patient attributes of `base`; frame `k` (from 0) gets
/// the UID `base.k+1` and the instance number `k+1`. With one frame or
/// fewer the result is `base` alone.
pub fn expand_frames(base: &DicomMetadata, number_of_frames: i32) -> (r: Vec<DicomMetadata>)
    ensures
        views(r@) == expanded(base@, number_of_frames),
{
    if number_of_frames <= 1 {
        let r = vec![base.clone()];
        assert(views(r@) =~= expanded(base@, number_of_frames));
        return r;
    }
    let mut r: Vec<DicomMetadata> = Vec::new();
    let mut k: i32 = 0;
    while k < number_of_frames
        invariant
            0 <= k <= number_of_frames,
            views(r@) =~= Seq::new(k as nat, |j: int| frame_view(base@, j as nat)),
        decreases number_of_frames - k,
    {
        let mut sop_instance_uid = base.sop_instance_uid.clone();
        sop_instance_uid.append(".");
        push_decimal(&mut sop_instance_uid, (k + 1) as u32);
        let frame = DicomMetadata {
            sop_instance_uid,
            study_instance_uid: base.study_instance_uid.clone(),
            series_instance_uid: base.series_instance_uid.clone(),
            modality: base.modality.clone(),
            patient_name: base.patient_name.clone(),
            patient_id: base.patient_id.clone(),
            study_date: base.study_date.clone(),
            study_description: base.study_description.clone(),
            series_description: base.series_description.clone(),
            instance_number: k + 1,
        };
        assert(frame@ == frame_view(base@, k as nat));
        let ghost prev = r@;
        r.push(frame);
        assert(views(r@) =~= views(prev).push(frame_view(base@, k as nat)));
        k = k + 1;
    }
    r
}

/// An object that reads as DICOM but lacks one of the three required UIDs
/// is refused as missing that field.
pub proof fn lemma_missing_uid_refused(d: Seq<u8>)
    requires
        dicom_parses(d),
        attr_text(d, "SOPInstanceUID"@).len() == 0 || attr_text(d, "StudyInstanceUID"@).len()
            == 0 || attr_text(d, "SeriesInstanceUID"@).len() == 0,
    ensures
        extraction_error(d) matches Some(ExtractError::MissingRequiredField(_)),
{
}

/// Expanding a record over `n > 1` frames yields `n` records numbered 1 to
/// `n`, whose UIDs are the base UID, a dot and the number, and which keep
/// the study and series UIDs of the base.
pub proof fn lemma_frames_numbered(b: InstanceView, n: i32)
    requires
        n > 1,
    ensures
        expanded(b, n).len() == n,
        forall|k: int|
            0 <= k < n ==> {
                let f = #[trigger] expanded(b, n)[k];
                &&& f.instance_number == k + 1
                &&& f.sop_instance_uid == b.sop_instance_uid + "."@ + decimal(
                    f.instance_number as nat,
                )
                &&& f.study_instance_uid == b.study_instance_uid
                &&& f.series_instance_uid == b.series_instance_uid
            },
{
}

} // verus!
