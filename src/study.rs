use vstd::prelude::*;
use vstd::slice::slice_subrange;

use crate::clock::utc_now;
use crate::dicom::{
    expand_frames, expanded, extract_metadata, extracted_view, extracts, frame_count,
    number_of_frames,
};
use crate::models::{sop_uids, views, DicomMetadata, InstanceView};
use crate::probe::{
    boundaries_before, lemma_concatenated_streams, marker_at, opens_part, part_boundaries, part_end,
    part_ranges, part_ranges_of, range_seq, ranges_upto,
};
use crate::series::{
    dedup_by_sop, dedup_by_sop_uid, lemma_dedup_keeps_input_records, lemma_dedup_of_unique,
    lemma_dedup_unique,
};
use crate::text::{non_empty_or, non_empty_or_else};

verus! {

/// The bytes of part `r` of `d`.
pub open spec fn part_bytes(d: Seq<u8>, r: (int, int)) -> Seq<u8> {
    d.subrange(r.0, r.1)
}

/// The records extracted from the first `k` parts `rs` of `d`, in part
/// order, leaving out the parts that do not extract.
pub open spec fn probed_upto(d: Seq<u8>, rs: Seq<(int, int)>, k: int) -> Seq<InstanceView>
    decreases k,
{
    if k <= 0 {
        Seq::empty()
    } else {
        let part = part_bytes(d, rs[k - 1]);
        let prev = probed_upto(d, rs, k - 1);
        if extracts(part) {
            prev.push(extracted_view(part))
        } else {
            prev
        }
    }
}

/// The per-frame records of those among the first `k` parts `rs` of `d`
/// that extract and declare several frames, in part order.
pub open spec fn frames_upto(d: Seq<u8>, rs: Seq<(int, int)>, k: int) -> Seq<InstanceView>
    decreases k,
{
    if k <= 0 {
        Seq::empty()
    } else {
        let part = part_bytes(d, rs[k - 1]);
        let prev = frames_upto(d, rs, k - 1);
        if extracts(part) && frame_count(part) > 1 {
            prev + expanded(extracted_view(part), frame_count(part))
        } else {
            prev
        }
    }
}

/// The records that the parts of `d` yield.
pub open spec fn probed_records(d: Seq<u8>) -> Seq<InstanceView> {
    let rs = part_ranges_of(d);
    probed_upto(d, rs, rs.len() as int)
}

/// The per-frame records of the multi-frame parts of `d`.
pub open spec fn part_frame_records(d: Seq<u8>) -> Seq<InstanceView> {
    let rs = part_ranges_of(d);
    frames_upto(d, rs, rs.len() as int)
}

/// The placeholder record that stands for a buffer from which nothing can
/// be extracted, dated `today`.
pub open spec fn fallback_view(modality_hint: Seq<char>, today: Seq<char>) -> InstanceView {
    InstanceView {
        sop_instance_uid: "unknown.1.2.3.4.5"@,
        study_instance_uid: "unknown.1.2.3"@,
        series_instance_uid: "unknown.1.2.3.4"@,
        modality: non_empty_or(modality_hint, "CT"@),
        patient_name: "Unknown Patient"@,
        patient_id: "Unknown ID"@,
        study_date: today,
        study_description: "Unknown Study"@,
        series_description: "Unknown Series"@,
        instance_number: 1,
    }
}

/// The records that the study processor yields for `d`: the direct
/// extraction, expanded per frame; else the records of the embedded parts
/// merged with the frames of their multi-frame parts, first UID seen kept;
/// else the placeholder record.
pub open spec fn study_records(d: Seq<u8>, modality_hint: Seq<char>, today: Seq<char>) -> Seq<
    InstanceView,
> {
    if extracts(d) {
        expanded(extracted_view(d), frame_count(d))
    } else if probed_records(d).len() > 0 {
        dedup_by_sop(probed_records(d) + part_frame_records(d))
    } else {
        seq![fallback_view(modality_hint, today)]
    }
}

/// Builds the placeholder record for a buffer from which nothing can be
/// extracted: placeholder UIDs, the hinted modality or `CT`, dated `today`.
pub fn fallback_metadata(modality_hint: &str, today: String) -> (r: DicomMetadata)
    ensures
        r@ == fallback_view(modality_hint@, today@),
{
    DicomMetadata {
        sop_instance_uid: "unknown.1.2.3.4.5".to_owned(),
        study_instance_uid: "unknown.1.2.3".to_owned(),
        series_instance_uid: "unknown.1.2.3.4".to_owned(),
        modality: non_empty_or_else(modality_hint.to_owned(), "CT"),
        patient_name: "Unknown Patient".to_owned(),
        patient_id: "Unknown ID".to_owned(),
        study_date: today,
        study_description: "Unknown Study".to_owned(),
        series_description: "Unknown Series".to_owned(),
        instance_number: 1,
    }
}

/// Extracts a record from each of the parts `parts` of `data`, in order,
/// dropping the parts that do not extract.
pub fn probe_parts(data: &[u8], parts: &Vec<(usize, usize)>) -> (r: Vec<DicomMetadata>)
    requires
        forall|k: int| 0 <= k < parts@.len() ==> #[trigger] parts@[k].0 <= parts@[k].1 <= data@.len(),
    ensures
        views(r@) == probed_upto(data@, range_seq(parts@), parts@.len() as int),
{
    let ghost rs = range_seq(parts@);
    let mut r: Vec<DicomMetadata> = Vec::new();
    let mut k: usize = 0;
    while k < parts.len()
        invariant
            k <= parts@.len(),
            rs == range_seq(parts@),
            forall|j: int| 0 <= j < parts@.len() ==> #[trigger] parts@[j].0 <= parts@[j].1 <= data@.len(),
            views(r@) == probed_upto(data@, rs, k as int),
        decreases parts@.len() - k,
    {
        let (start, end) = parts[k];
        let part = slice_subrange(data, start, end);
        assert(part@ == part_bytes(data@, rs[k as int]));
        match extract_metadata(part) {
            Ok(m) => {
                let ghost prev = r@;
                r.push(m);
                assert(views(r@) =~= views(prev).push(extracted_view(part@)));
            },
            Err(_) => {},
        }
        k = k + 1;
    }
    r
}

/// The records of the frames of `data` where it extracts and declares
/// several frames; `None` otherwise.
pub fn try_multi_frame_approach(data: &[u8]) -> (r: Option<Vec<DicomMetadata>>)
    ensures
        match r {
            Some(frames) => extracts(data@) && frame_count(data@) > 1 && views(frames@)
                == expanded(extracted_view(data@), frame_count(data@)),
            None => !(extracts(data@) && frame_count(data@) > 1),
        },
{
    match extract_metadata(data) {
        Ok(base) => {
            let frames = number_of_frames(data);
            if frames > 1 {
                Some(expand_frames(&base, frames))
            } else {
                None
            }
        },
        Err(_) => None,
    }
}

/// The per-frame records of the multi-frame parts among `parts` of `data`.
fn multi_frame_parts(data: &[u8], parts: &Vec<(usize, usize)>) -> (r: Vec<DicomMetadata>)
    requires
        forall|k: int| 0 <= k < parts@.len() ==> #[trigger] parts@[k].0 <= parts@[k].1 <= data@.len(),
    ensures
        views(r@) == frames_upto(data@, range_seq(parts@), parts@.len() as int),
{
    let ghost rs = range_seq(parts@);
    let mut r: Vec<DicomMetadata> = Vec::new();
    let mut k: usize = 0;
    while k < parts.len()
        invariant
            k <= parts@.len(),
            rs == range_seq(parts@),
            forall|j: int| 0 <= j < parts@.len() ==> #[trigger] parts@[j].0 <= parts@[j].1 <= data@.len(),
            views(r@) == frames_upto(data@, rs, k as int),
        decreases parts@.len() - k,
    {
        let (start, end) = parts[k];
        let part = slice_subrange(data, start, end);
        assert(part@ == part_bytes(data@, rs[k as int]));
        match try_multi_frame_approach(part) {
            Some(mut frames) => {
                let ghost prev = r@;
                let ghost added = frames@;
                r.append(&mut frames);
                assert(views(r@) =~= views(prev) + views(added));
            },
            None => {},
        }
        k = k + 1;
    }
    r
}

/// Merges the records found in the parts `parts` of `data` with the frames
/// of their multi-frame parts, keeping the first record of each SOP
/// instance UID.
pub fn perform_enhanced_detection(
    data: &[u8],
    probed: Vec<DicomMetadata>,
    parts: &Vec<(usize, usize)>,
) -> (r: Vec<DicomMetadata>)
    requires
        forall|k: int| 0 <= k < parts@.len() ==> #[trigger] parts@[k].0 <= parts@[k].1 <= data@.len(),
    ensures
        views(r@) == dedup_by_sop(
            views(probed@) + frames_upto(data@, range_seq(parts@), parts@.len() as int),
        ),
{
    let mut all = probed;
    let mut frames = multi_frame_parts(data, parts);
    let ghost first = all@;
    let ghost added = frames@;
    all.append(&mut frames);
    assert(views(all@) =~= views(first) + views(added));
    dedup_by_sop_uid(&all)
}

/// Where the study processor stands.
pub enum StudyStage {
    /// About to read the whole buffer as one object.
    DirectParse,
    /// The whole buffer did not extract: about to look for embedded parts.
    PartProbe,
    /// Parts were found and yielded records: about to merge in the frames
    /// of their multi-frame parts.
    EnhancedDetectionMerge { probed: Vec<DicomMetadata>, parts: Vec<(usize, usize)> },
    /// Nothing could be extracted: about to make the placeholder record.
    Fallback,
    /// Finished, with these records.
    Done(Vec<DicomMetadata>),
}

/// How many transitions at most remain from `st`.
pub open spec fn stage_rank(st: StudyStage) -> nat {
    match st {
        StudyStage::DirectParse => 3,
        StudyStage::PartProbe => 2,
        StudyStage::EnhancedDetectionMerge { .. } => 1,
        StudyStage::Fallback => 1,
        StudyStage::Done(_) => 0,
    }
}

/// Whether stage `st` is one that processing `d` reaches.
pub open spec fn stage_reached(st: StudyStage, d: Seq<u8>) -> bool {
    match st {
        StudyStage::DirectParse => true,
        StudyStage::PartProbe => !extracts(d),
        StudyStage::EnhancedDetectionMerge { probed, parts } => {
            &&& !extracts(d)
            &&& range_seq(parts@) == part_ranges_of(d)
            &&& views(probed@) == probed_records(d)
            &&& probed@.len() > 0
            &&& forall|k: int|
                0 <= k < parts@.len() ==> #[trigger] parts@[k].0 <= parts@[k].1 <= d.len()
        },
        StudyStage::Fallback => !extracts(d) && probed_records(d).len() == 0,
        StudyStage::Done(_) => true,
    }
}

/// The records that processing ends with from stage `st`.
pub open spec fn stage_outcome(
    st: StudyStage,
    d: Seq<u8>,
    modality_hint: Seq<char>,
    today: Seq<char>,
) -> Seq<InstanceView> {
    match st {
        StudyStage::Done(r) => views(r@),
        _ => study_records(d, modality_hint, today),
    }
}

/// Takes one transition of the study processor.
pub fn advance(stage: StudyStage, data: &[u8], modality_hint: &str, today: &String) -> (r:
    StudyStage)
    requires
        !(stage is Done),
        stage_reached(stage, data@),
    ensures
        stage_reached(r, data@),
        stage_rank(r) < stage_rank(stage),
        (r is Done && !(stage is Fallback)) ==> !falls_back(data@),
        stage_outcome(r, data@, modality_hint@, today@) == study_records(
            data@,
            modality_hint@,
            today@,
        ),
{
    match stage {
        StudyStage::DirectParse => {
            match extract_metadata(data) {
                Ok(base) => StudyStage::Done(expand_frames(&base, number_of_frames(data))),
                Err(_) => StudyStage::PartProbe,
            }
        },
        StudyStage::PartProbe => {
            let parts = part_ranges(data);
            let probed = probe_parts(data, &parts);
            if probed.len() > 0 {
                StudyStage::EnhancedDetectionMerge { probed, parts }
            } else {
                StudyStage::Fallback
            }
        },
        StudyStage::EnhancedDetectionMerge { probed, parts } => {
            StudyStage::Done(perform_enhanced_detection(data, probed, &parts))
        },
        StudyStage::Fallback => {
            StudyStage::Done(vec![fallback_metadata(modality_hint, today.clone())])
        },
        StudyStage::Done(records) => StudyStage::Done(records),
    }
}

/// Processes an uploaded buffer into a non-empty list of records, dating a
/// placeholder record `today`: the whole buffer as one object, expanded per
/// frame; failing that, its embedded parts merged with the frames of their
/// multi-frame parts; failing that, one placeholder record.
pub fn process_study_with_date(data: &[u8], modality_hint: &str, today: &String) -> (r: Vec<
    DicomMetadata,
>)
    ensures
        views(r@) == study_records(data@, modality_hint@, today@),
{
    let mut stage = StudyStage::DirectParse;
    loop
        invariant
            stage_reached(stage, data@),
            stage_outcome(stage, data@, modality_hint@, today@) == study_records(
                data@,
                modality_hint@,
                today@,
            ),
        decreases stage_rank(stage),
    {
        match stage {
            StudyStage::Done(records) => {
                return records;
            },
            _ => {},
        }
        stage = advance(stage, data, modality_hint, today);
    }
}

/// Whether processing `d` ends in the placeholder record: the whole buffer
/// does not extract, and no embedded part does either.
pub open spec fn falls_back(d: Seq<u8>) -> bool {
    !extracts(d) && probed_records(d).len() == 0
}

/// Processes an uploaded buffer like [`process_study_with_date`], but
/// refuses, with `None`, a buffer from which nothing can be extracted
/// instead of making a placeholder record for it.
pub fn detect_instances(data: &[u8]) -> (r: Option<Vec<DicomMetadata>>)
    ensures
        match r {
            Some(records) => !falls_back(data@) && forall|hint: Seq<char>, today: Seq<char>|
                views(records@) == #[trigger] study_records(data@, hint, today),
            None => falls_back(data@),
        },
{
    let no_date = String::new();
    let mut stage = StudyStage::DirectParse;
    loop
        invariant
            stage_reached(stage, data@),
            stage_outcome(stage, data@, ""@, no_date@) == study_records(data@, ""@, no_date@),
            stage is Done ==> !falls_back(data@),
        decreases stage_rank(stage),
    {
        match stage {
            StudyStage::Done(records) => {
                assert forall|hint: Seq<char>, today: Seq<char>|
                    views(records@) == #[trigger] study_records(data@, hint, today) by {
                    assert(study_records(data@, hint, today) == study_records(
                        data@,
                        ""@,
                        no_date@,
                    ));
                }
                return Some(records);
            },
            StudyStage::Fallback => {
                return None;
            },
            _ => {},
        }
        stage = advance(stage, data, "", &no_date);
    }
}

/// Processes an uploaded buffer into a non-empty list of records (see
/// [`process_study_with_date`]); a placeholder record is dated today.
pub fn process_study_data(data: &[u8], modality_hint: &str) -> (r: Vec<DicomMetadata>)
    ensures
        exists|today: Seq<char>| views(r@) == study_records(data@, modality_hint@, today),
{
    let now = utc_now();
    process_study_with_date(data, modality_hint, &now.date)
}

/// The record that stands for a test upload: fixed test attributes, the
/// hinted modality or `CT`.
pub open spec fn test_upload_view(modality_hint: Seq<char>) -> InstanceView {
    InstanceView {
        sop_instance_uid: "1.2.3.4.5.6.7.8.9.0"@,
        study_instance_uid: "1.2.3.4.5.6.7.8.9.1"@,
        series_instance_uid: "1.2.3.4.5.6.7.8.9.2"@,
        modality: non_empty_or(modality_hint, "CT"@),
        patient_name: "TEST PATIENT"@,
        patient_id: "TEST123"@,
        study_date: "20250228"@,
        study_description: "TEST STUDY"@,
        series_description: "TEST SERIES"@,
        instance_number: 1,
    }
}

/// The records of a case upload: for a test upload the one test record,
/// else those of [`process_study_data`].
pub fn process_dicom_data(dicom_data: &[u8], is_test_data: bool, modality: &str) -> (r: Vec<
    DicomMetadata,
>)
    ensures
        is_test_data ==> views(r@) == seq![test_upload_view(modality@)],
        !is_test_data ==> exists|today: Seq<char>|
            views(r@) == study_records(dicom_data@, modality@, today),
{
    if is_test_data {
        let r = vec![
            DicomMetadata {
                sop_instance_uid: "1.2.3.4.5.6.7.8.9.0".to_owned(),
                study_instance_uid: "1.2.3.4.5.6.7.8.9.1".to_owned(),
                series_instance_uid: "1.2.3.4.5.6.7.8.9.2".to_owned(),
                modality: non_empty_or_else(modality.to_owned(), "CT"),
                patient_name: "TEST PATIENT".to_owned(),
                patient_id: "TEST123".to_owned(),
                study_date: "20250228".to_owned(),
                study_description: "TEST STUDY".to_owned(),
                series_description: "TEST SERIES".to_owned(),
                instance_number: 1,
            },
        ];
        assert(views(r@) =~= seq![test_upload_view(modality@)]);
        r
    } else {
        process_study_data(dicom_data, modality)
    }
}

proof fn lemma_no_marker_no_boundary(d: Seq<u8>, n: int)
    requires
        forall|i: int| !marker_at(d, i),
    ensures
        boundaries_before(d, n) == Seq::<int>::empty(),
    decreases n,
{
    if n > 0 {
        lemma_no_marker_no_boundary(d, n - 1);
    }
}

/// A buffer that holds no `DICM` marker and does not extract as a whole
/// yields exactly one record: the placeholder, with a non-empty UID and the
/// hinted modality, or `CT` where no modality is hinted.
pub proof fn lemma_unreadable_buffer_falls_back(
    d: Seq<u8>,
    modality_hint: Seq<char>,
    today: Seq<char>,
)
    requires
        forall|i: int| !marker_at(d, i),
        !extracts(d),
    ensures
        study_records(d, modality_hint, today) == seq![fallback_view(modality_hint, today)],
        fallback_view(modality_hint, today).sop_instance_uid.len() > 0,
        modality_hint.len() > 0 ==> fallback_view(modality_hint, today).modality == modality_hint,
        modality_hint.len() == 0 ==> fallback_view(modality_hint, today).modality == "CT"@,
{
    reveal_strlit("unknown.1.2.3.4.5");
    lemma_no_marker_no_boundary(d, d.len() as int);
    assert(part_ranges_of(d) == Seq::<(int, int)>::empty());
}

/// Where the buffer does not extract as a whole but its parts yield records,
/// the merged result lists no SOP instance UID twice and keeps the UID of
/// every part that extracted.
pub proof fn lemma_probed_parts_unique(d: Seq<u8>, modality_hint: Seq<char>, today: Seq<char>)
    requires
        !extracts(d),
        probed_records(d).len() > 0,
    ensures
        sop_uids(study_records(d, modality_hint, today)).no_duplicates(),
        forall|x: Seq<char>|
            sop_uids(probed_records(d)).contains(x) ==> sop_uids(
                study_records(d, modality_hint, today),
            ).contains(x),
{
    let a = probed_records(d);
    let b = part_frame_records(d);
    lemma_dedup_unique(a + b);
    assert forall|x: Seq<char>| sop_uids(a).contains(x) implies sop_uids(a + b).contains(x) by {
        let i = choose|i: int| 0 <= i < a.len() && sop_uids(a)[i] == x;
        assert((a + b)[i] == a[i]);
        assert(sop_uids(a + b)[i] == x);
    }
}

/// Whether every record of `s` has a non-empty SOP instance UID.
pub open spec fn all_identified(s: Seq<InstanceView>) -> bool {
    forall|i: int| 0 <= i < s.len() ==> (#[trigger] s[i]).sop_instance_uid.len() > 0
}

proof fn lemma_expanded_identified(b: InstanceView, frames: i32)
    requires
        b.sop_instance_uid.len() > 0,
    ensures
        all_identified(expanded(b, frames)),
        expanded(b, frames).len() >= 1,
{
    let e = expanded(b, frames);
    assert forall|i: int| 0 <= i < e.len() implies (#[trigger] e[i]).sop_instance_uid.len() > 0 by {
        if frames > 1 {
            assert(e[i].sop_instance_uid.len() >= b.sop_instance_uid.len());
        }
    }
}

proof fn lemma_probed_identified(d: Seq<u8>, rs: Seq<(int, int)>, k: int)
    ensures
        all_identified(probed_upto(d, rs, k)),
        all_identified(frames_upto(d, rs, k)),
    decreases k,
{
    if k > 0 {
        lemma_probed_identified(d, rs, k - 1);
        let part = part_bytes(d, rs[k - 1]);
        let p = probed_upto(d, rs, k - 1);
        let f = frames_upto(d, rs, k - 1);
        if extracts(part) {
            let q = p.push(extracted_view(part));
            assert forall|i: int| 0 <= i < q.len() implies (#[trigger] q[i]).sop_instance_uid.len()
                > 0 by {
                if i < p.len() {
                    assert(q[i] == p[i]);
                }
            }
            if frame_count(part) > 1 {
                lemma_expanded_identified(extracted_view(part), frame_count(part));
                let e = expanded(extracted_view(part), frame_count(part));
                let g = f + e;
                assert forall|i: int| 0 <= i < g.len() implies (#[trigger] g[i]).sop_instance_uid.len()
                    > 0 by {
                    if i < f.len() {
                        assert(g[i] == f[i]);
                    } else {
                        assert(g[i] == e[i - f.len()]);
                    }
                }
            }
        }
    }
}

/// The study processor always yields at least one record, and every record
/// it yields has a non-empty SOP instance UID.
pub proof fn lemma_study_records_identified(
    d: Seq<u8>,
    modality_hint: Seq<char>,
    today: Seq<char>,
)
    ensures
        study_records(d, modality_hint, today).len() >= 1,
        all_identified(study_records(d, modality_hint, today)),
{
    reveal_strlit("unknown.1.2.3.4.5");
    if extracts(d) {
        lemma_expanded_identified(extracted_view(d), frame_count(d));
    } else if probed_records(d).len() > 0 {
        let rs = part_ranges_of(d);
        lemma_probed_identified(d, rs, rs.len() as int);
        let a = probed_records(d) + part_frame_records(d);
        assert(all_identified(a)) by {
            assert forall|i: int| 0 <= i < a.len() implies (#[trigger] a[i]).sop_instance_uid.len()
                > 0 by {
                if i < probed_records(d).len() {
                    assert(a[i] == probed_records(d)[i]);
                } else {
                    assert(a[i] == part_frame_records(d)[i - probed_records(d).len()]);
                }
            }
        }
        lemma_dedup_keeps_input_records(a);
        let m = dedup_by_sop(a);
        assert forall|i: int| 0 <= i < m.len() implies (#[trigger] m[i]).sop_instance_uid.len() > 0 by {
            assert(a.contains(m[i]));
            let j = choose|j: int| 0 <= j < a.len() && a[j] == m[i];
            assert(a[j].sop_instance_uid.len() > 0);
        }
    } else {
        let f = seq![fallback_view(modality_hint, today)];
        assert(f[0].sop_instance_uid.len() > 0);
    }
}

/// The streams laid end to end in a buffer of length `len`, starting at
/// `starts`: each runs to the next start, the last to the end.
pub open spec fn stream_ranges(starts: Seq<int>, len: int) -> Seq<(int, int)> {
    Seq::new(starts.len(), |k: int| (starts[k], part_end(starts, k, len)))
}

proof fn lemma_ranges_of_streams(starts: Seq<int>, len: int, k: int)
    requires
        0 <= k <= starts.len(),
        forall|j: int, i: int| 0 <= j < i < starts.len() ==> starts[j] < starts[i],
        forall|j: int| 0 <= j < starts.len() ==> #[trigger] starts[j] < len,
    ensures
        ranges_upto(starts, len, k) == stream_ranges(starts, len).take(k),
    decreases k,
{
    if k == 0 {
        assert(stream_ranges(starts, len).take(0) =~= Seq::<(int, int)>::empty());
    } else {
        lemma_ranges_of_streams(starts, len, k - 1);
        assert(stream_ranges(starts, len).take(k) =~= stream_ranges(starts, len).take(k - 1).push(
            (starts[k - 1], part_end(starts, k - 1, len)),
        ));
        if k < starts.len() {
            assert(starts[k - 1] < starts[k]);
        }
    }
}

proof fn lemma_single_frames_add_none(d: Seq<u8>, rs: Seq<(int, int)>, k: int)
    requires
        0 <= k <= rs.len(),
        forall|j: int|
            0 <= j < rs.len() && extracts(#[trigger] part_bytes(d, rs[j])) ==> frame_count(
                part_bytes(d, rs[j]),
            ) <= 1,
    ensures
        frames_upto(d, rs, k) == Seq::<InstanceView>::empty(),
    decreases k,
{
    if k > 0 {
        lemma_single_frames_add_none(d, rs, k - 1);
    }
}

/// A buffer of single-frame DICOM streams laid end to end, each starting at
/// an even offset with its `DICM` marker one preamble in, with no other
/// marker that opens a part, which does not extract as a whole: its part
/// boundaries are exactly the starts of the streams, and where the streams
/// that extract carry distinct SOP instance UIDs and at least one extracts,
/// the processor yields one record per stream that extracts, in order.
pub proof fn lemma_concatenated_single_frames(
    d: Seq<u8>,
    starts: Seq<int>,
    modality_hint: Seq<char>,
    today: Seq<char>,
)
    requires
        forall|j: int, k: int| 0 <= j < k < starts.len() ==> starts[j] < starts[k],
        forall|j: int|
            0 <= j < starts.len() ==> #[trigger] starts[j] >= 0 && starts[j] % 2 == 0 && marker_at(
                d,
                starts[j] + 128,
            ),
        forall|i: int| opens_part(d, i) ==> exists|j: int| 0 <= j < starts.len() && i == starts[j] + 128,
        !extracts(d),
        forall|j: int|
            0 <= j < starts.len() && extracts(
                #[trigger] part_bytes(d, stream_ranges(starts, d.len() as int)[j]),
            ) ==> frame_count(part_bytes(d, stream_ranges(starts, d.len() as int)[j])) <= 1,
        sop_uids(probed_upto(d, stream_ranges(starts, d.len() as int), starts.len() as int)).no_duplicates(),
        probed_upto(d, stream_ranges(starts, d.len() as int), starts.len() as int).len() > 0,
    ensures
        part_boundaries(d) == starts,
        part_ranges_of(d) == stream_ranges(starts, d.len() as int),
        study_records(d, modality_hint, today) == probed_upto(
            d,
            stream_ranges(starts, d.len() as int),
            starts.len() as int,
        ),
{
    let len = d.len() as int;
    let rs = stream_ranges(starts, len);
    lemma_concatenated_streams(d, starts);
    assert forall|j: int| 0 <= j < starts.len() implies #[trigger] starts[j] < len by {
        assert(marker_at(d, starts[j] + 128));
    }
    lemma_ranges_of_streams(starts, len, starts.len() as int);
    assert(rs.take(starts.len() as int) =~= rs);
    lemma_single_frames_add_none(d, rs, rs.len() as int);
    let probed = probed_upto(d, rs, rs.len() as int);
    assert(probed + Seq::<InstanceView>::empty() =~= probed);
    lemma_dedup_of_unique(probed);
}

} // verus!
