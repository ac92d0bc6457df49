use vstd::prelude::*;

use crate::text::string_views;

verus! {

/// Identifying attributes of one DICOM image instance.
#[derive(Debug)]
pub struct DicomMetadata {
    pub sop_instance_uid: String,
    pub study_instance_uid: String,
    pub series_instance_uid: String,
    pub modality: String,
    pub patient_name: String,
    pub patient_id: String,
    pub study_date: String,
    pub study_description: String,
    pub series_description: String,
    pub instance_number: i32,
}

/// What a [`DicomMetadata`] record says, as mathematical values.
pub struct InstanceView {
    pub sop_instance_uid: Seq<char>,
    pub study_instance_uid: Seq<char>,
    pub series_instance_uid: Seq<char>,
    pub modality: Seq<char>,
    pub patient_name: Seq<char>,
    pub patient_id: Seq<char>,
    pub study_date: Seq<char>,
    pub study_description: Seq<char>,
    pub series_description: Seq<char>,
    pub instance_number: i32,
}

impl View for DicomMetadata {
    type V = InstanceView;

    open spec fn view(&self) -> InstanceView {
        InstanceView {
            sop_instance_uid: self.sop_instance_uid@,
            study_instance_uid: self.study_instance_uid@,
            series_instance_uid: self.series_instance_uid@,
            modality: self.modality@,
            patient_name: self.patient_name@,
            patient_id: self.patient_id@,
            study_date: self.study_date@,
            study_description: self.study_description@,
            series_description: self.series_description@,
            instance_number: self.instance_number,
        }
    }
}

/// The views of a sequence of records.
pub open spec fn views(s: Seq<DicomMetadata>) -> Seq<InstanceView> {
    s.map_values(|m: DicomMetadata| m@)
}

/// The SOP instance UIDs of a sequence of record views, in order.
pub open spec fn sop_uids(s: Seq<InstanceView>) -> Seq<Seq<char>> {
    s.map_values(|m: InstanceView| m.sop_instance_uid)
}

impl Clone for DicomMetadata {
    fn clone(&self) -> (r: Self)
        ensures
            r == *self,
    {
        DicomMetadata {
            sop_instance_uid: self.sop_instance_uid.clone(),
            study_instance_uid: self.study_instance_uid.clone(),
            series_instance_uid: self.series_instance_uid.clone(),
            modality: self.modality.clone(),
            patient_name: self.patient_name.clone(),
            patient_id: self.patient_id.clone(),
            study_date: self.study_date.clone(),
            study_description: self.study_description.clone(),
            series_description: self.series_description.clone(),
            instance_number: self.instance_number,
        }
    }
}

/// One series of a case: its descriptive attributes, taken from the first
/// instance seen in it, and the UIDs of its instances.
#[derive(Debug)]
pub struct SeriesInfo {
    pub series_instance_uid: String,
    pub series_number: i32,
    pub series_description: String,
    pub modality: String,
    pub image_ids: Vec<String>,
}

/// What a [`SeriesInfo`] says, as mathematical values.
pub struct SeriesView {
    pub series_instance_uid: Seq<char>,
    pub series_number: i32,
    pub series_description: Seq<char>,
    pub modality: Seq<char>,
    pub image_ids: Seq<Seq<char>>,
}

impl View for SeriesInfo {
    type V = SeriesView;

    open spec fn view(&self) -> SeriesView {
        SeriesView {
            series_instance_uid: self.series_instance_uid@,
            series_number: self.series_number,
            series_description: self.series_description@,
            modality: self.modality@,
            image_ids: string_views(self.image_ids@),
        }
    }
}

/// The views of a sequence of series.
pub open spec fn series_views(s: Seq<SeriesInfo>) -> Seq<SeriesView> {
    s.map_values(|x: SeriesInfo| x@)
}

/// A teaching case: what its author wrote, the attributes of its study and
/// the series and instances that it holds.
#[derive(Debug)]
pub struct Case {
    pub case_id: String,
    pub title: String,
    pub description: String,
    pub modality: String,
    pub anatomy: String,
    pub diagnosis: String,
    pub findings: String,
    pub tags: Vec<String>,
    pub image_ids: Vec<String>,
    pub created_at: String,
    pub study_instance_uid: String,
    pub series_instance_uid: String,
    pub study_date: String,
    pub study_description: String,
    pub patient_id: String,
    pub patient_name: String,
    pub series: Vec<SeriesInfo>,
}

/// A new case as its author submits it, with the DICOM file base64-encoded.
#[derive(Debug)]
pub struct CaseUpload {
    pub title: String,
    pub description: String,
    pub modality: String,
    pub anatomy: String,
    pub diagnosis: String,
    pub findings: String,
    pub tags: Vec<String>,
    pub dicom_file: String,
}

/// The summary of a case shown in listings.
#[derive(Debug)]
pub struct CaseMetadata {
    pub case_id: String,
    pub title: String,
    pub modality: String,
    pub anatomy: String,
}

/// The envelope of a successful API answer.
#[derive(Debug)]
pub struct ApiResponse<T> {
    pub success: bool,
    pub data: T,
    pub error: Option<String>,
}

impl<T> ApiResponse<T> {
    /// A successful answer carrying `data`.
    pub fn success(data: T) -> (r: Self)
        ensures
            r.success,
            r.data == data,
            r.error is None,
    {
        ApiResponse { success: true, data, error: None }
    }
}

/// The envelope of a failed API answer: a message and a machine-readable code.
#[derive(Debug)]
pub struct ErrorResponse {
    pub success: bool,
    pub error: String,
    pub error_code: String,
}

impl ErrorResponse {
    /// A failure with `message` and code `NOT_FOUND`.
    pub fn not_found(message: &str) -> (r: Self)
        ensures
            !r.success,
            r.error@ == message@,
            r.error_code@ == "NOT_FOUND"@,
    {
        ErrorResponse {
            success: false,
            error: message.to_owned(),
            error_code: "NOT_FOUND".to_owned(),
        }
    }

    /// A failure with `message` and code `BAD_REQUEST`.
    pub fn bad_request(message: &str) -> (r: Self)
        ensures
            !r.success,
            r.error@ == message@,
            r.error_code@ == "BAD_REQUEST"@,
    {
        ErrorResponse {
            success: false,
            error: message.to_owned(),
            error_code: "BAD_REQUEST".to_owned(),
        }
    }

    /// A failure with `message` and code `SERVER_ERROR`.
    pub fn server_error(message: String) -> (r: Self)
        ensures
            !r.success,
            r.error == message,
            r.error_code@ == "SERVER_ERROR"@,
    {
        ErrorResponse { success: false, error: message, error_code: "SERVER_ERROR".to_owned() }
    }

    /// A failure with `message` and code `NOT_IMPLEMENTED`.
    pub fn not_implemented(message: &str) -> (r: Self)
        ensures
            !r.success,
            r.error@ == message@,
            r.error_code@ == "NOT_IMPLEMENTED"@,
    {
        ErrorResponse {
            success: false,
            error: message.to_owned(),
            error_code: "NOT_IMPLEMENTED".to_owned(),
        }
    }
}

} // verus!
