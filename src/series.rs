use vstd::prelude::*;

use crate::models::{
    series_views, sop_uids, views, Case, DicomMetadata, InstanceView, SeriesInfo, SeriesView,
};
use crate::text::string_views;

verus! {

/// `s` with every record whose SOP instance UID was seen earlier left out.
pub open spec fn dedup_by_sop(s: Seq<InstanceView>) -> Seq<InstanceView>
    decreases s.len(),
{
    if s.len() == 0 {
        s
    } else {
        let prev = dedup_by_sop(s.drop_last());
        if sop_uids(prev).contains(s.last().sop_instance_uid) {
            prev
        } else {
            prev.push(s.last())
        }
    }
}

/// The index of the first series of `gs` with UID `uid`, or -1.
pub open spec fn first_series(gs: Seq<SeriesView>, uid: Seq<char>) -> int
    decreases gs.len(),
{
    if gs.len() == 0 {
        -1
    } else {
        let i = first_series(gs.drop_last(), uid);
        if i >= 0 {
            i
        } else if gs.last().series_instance_uid == uid {
            gs.len() - 1
        } else {
            -1
        }
    }
}

/// The series that a record opens where its series is not yet known.
pub open spec fn new_series(m: InstanceView) -> SeriesView {
    SeriesView {
        series_instance_uid: m.series_instance_uid,
        series_number: m.instance_number,
        series_description: m.series_description,
        modality: m.modality,
        image_ids: seq![m.sop_instance_uid],
    }
}

/// `gs` with record `m` filed under its series: appended to the first series
/// of its UID unless already there, or opening a new series at the end.
pub open spec fn file_instance(gs: Seq<SeriesView>, m: InstanceView) -> Seq<SeriesView> {
    let i = first_series(gs, m.series_instance_uid);
    if i < 0 {
        gs.push(new_series(m))
    } else if gs[i].image_ids.contains(m.sop_instance_uid) {
        gs
    } else {
        gs.update(
            i,
            SeriesView { image_ids: gs[i].image_ids.push(m.sop_instance_uid), ..gs[i] },
        )
    }
}

/// `ids` with `uid` appended unless already there.
pub open spec fn add_id(ids: Seq<Seq<char>>, uid: Seq<char>) -> Seq<Seq<char>> {
    if ids.contains(uid) {
        ids
    } else {
        ids.push(uid)
    }
}

/// The records of `s` in series `uid`, in order.
pub open spec fn of_series(s: Seq<InstanceView>, uid: Seq<char>) -> Seq<InstanceView>
    decreases s.len(),
{
    if s.len() == 0 {
        Seq::empty()
    } else {
        let prev = of_series(s.drop_last(), uid);
        if s.last().series_instance_uid == uid {
            prev.push(s.last())
        } else {
            prev
        }
    }
}

/// The series UIDs of `s`, each once, in order of first appearance.
pub open spec fn series_uids_in(s: Seq<InstanceView>) -> Seq<Seq<char>>
    decreases s.len(),
{
    if s.len() == 0 {
        Seq::empty()
    } else {
        let prev = series_uids_in(s.drop_last());
        if prev.contains(s.last().series_instance_uid) {
            prev
        } else {
            prev.push(s.last().series_instance_uid)
        }
    }
}

/// The records of `s` in the series `us`, series after series.
pub open spec fn grouped_from(s: Seq<InstanceView>, us: Seq<Seq<char>>) -> Seq<InstanceView>
    decreases us.len(),
{
    if us.len() == 0 {
        Seq::empty()
    } else {
        grouped_from(s, us.drop_last()) + of_series(s, us.last())
    }
}

/// `s` reordered series by series: the series in order of first
/// appearance, the records of each in their order in `s`.
pub open spec fn grouped(s: Seq<InstanceView>) -> Seq<InstanceView> {
    grouped_from(s, series_uids_in(s))
}

/// The series and the flat instance list that result from filing `records`,
/// in order, into the series `gs` and the flat list `ids`.
pub open spec fn aggregate(
    gs: Seq<SeriesView>,
    ids: Seq<Seq<char>>,
    records: Seq<InstanceView>,
) -> (Seq<SeriesView>, Seq<Seq<char>>)
    decreases records.len(),
{
    if records.len() == 0 {
        (gs, ids)
    } else {
        let prev = aggregate(gs, ids, records.drop_last());
        (
            file_instance(prev.0, records.last()),
            add_id(prev.1, records.last().sop_instance_uid),
        )
    }
}

proof fn lemma_first_series(gs: Seq<SeriesView>, uid: Seq<char>, k: int)
    requires
        0 <= k <= gs.len(),
        forall|j: int| 0 <= j < k ==> (#[trigger] gs[j]).series_instance_uid != uid,
        k < gs.len() ==> gs[k].series_instance_uid == uid,
    ensures
        first_series(gs, uid) == if k < gs.len() { k } else { -1 },
    decreases gs.len(),
{
    if gs.len() > 0 {
        let p = gs.drop_last();
        if k < gs.len() - 1 {
            lemma_first_series(p, uid, k);
        } else {
            lemma_first_series(p, uid, p.len() as int);
        }
    }
}

/// Whether `ids` holds a string equal to `x`.
fn holds_string(ids: &Vec<String>, x: &String) -> (r: bool)
    ensures
        r == string_views(ids@).contains(x@),
{
    let mut k: usize = 0;
    while k < ids.len()
        invariant
            k <= ids@.len(),
            forall|j: int| 0 <= j < k ==> (#[trigger] ids@[j])@ != x@,
        decreases ids@.len() - k,
    {
        if ids[k] == *x {
            assert(string_views(ids@)[k as int] == x@);
            return true;
        }
        k = k + 1;
    }
    assert(!string_views(ids@).contains(x@)) by {
        if string_views(ids@).contains(x@) {
            let j = choose|j: int| 0 <= j < ids@.len() && string_views(ids@)[j] == x@;
            assert(ids@[j]@ == x@);
        }
    }
    false
}

/// Whether a record in `records` has SOP instance UID `uid`.
fn contains_sop(records: &Vec<DicomMetadata>, uid: &String) -> (r: bool)
    ensures
        r == sop_uids(views(records@)).contains(uid@),
{
    let mut k: usize = 0;
    while k < records.len()
        invariant
            k <= records@.len(),
            forall|j: int| 0 <= j < k ==> (#[trigger] records@[j]).sop_instance_uid@ != uid@,
        decreases records@.len() - k,
    {
        if records[k].sop_instance_uid == *uid {
            assert(sop_uids(views(records@))[k as int] == uid@);
            return true;
        }
        k = k + 1;
    }
    assert(!sop_uids(views(records@)).contains(uid@)) by {
        if sop_uids(views(records@)).contains(uid@) {
            let j = choose|j: int|
                0 <= j < records@.len() && sop_uids(views(records@))[j] == uid@;
            assert(records@[j].sop_instance_uid@ == uid@);
        }
    }
    false
}

/// Keeps the first record of each SOP instance UID, in order.
pub fn dedup_by_sop_uid(records: &Vec<DicomMetadata>) -> (r: Vec<DicomMetadata>)
    ensures
        views(r@) == dedup_by_sop(views(records@)),
{
    let mut r: Vec<DicomMetadata> = Vec::new();
    let mut k: usize = 0;
    while k < records.len()
        invariant
            k <= records@.len(),
            views(r@) == dedup_by_sop(views(records@).subrange(0, k as int)),
        decreases records@.len() - k,
    {
        let ghost before = views(records@).subrange(0, k as int);
        let ghost after = views(records@).subrange(0, k as int + 1);
        assert(after.drop_last() =~= before);
        assert(after.last() == records@[k as int]@);
        if !contains_sop(&r, &records[k].sop_instance_uid) {
            let ghost prev = r@;
            r.push(records[k].clone());
            assert(views(r@) =~= views(prev).push(records@[k as int]@));
        }
        k = k + 1;
    }
    assert(views(records@).subrange(0, records@.len() as int) =~= views(records@));
    r
}

/// Files record `m` under its series in `series` and adds its UID to the
/// flat list `image_ids`, each unless already there.
fn file_into(series: &mut Vec<SeriesInfo>, image_ids: &mut Vec<String>, m: &DicomMetadata)
    ensures
        series_views(final(series)@) == file_instance(series_views(old(series)@), m@),
        string_views(final(image_ids)@) == add_id(string_views(old(image_ids)@), m.sop_instance_uid@),
{
    let ghost gs = series_views(series@);
    let mut k: usize = 0;
    while k < series.len()
        invariant
            k <= series@.len(),
            gs == series_views(series@),
            forall|j: int| 0 <= j < k ==> (#[trigger] gs[j]).series_instance_uid
                != m.series_instance_uid@,
        ensures
            k <= series@.len(),
            forall|j: int| 0 <= j < k ==> (#[trigger] gs[j]).series_instance_uid
                != m.series_instance_uid@,
            k < series@.len() ==> gs[k as int].series_instance_uid == m.series_instance_uid@,
        decreases series@.len() - k,
    {
        if series[k].series_instance_uid == m.series_instance_uid {
            break;
        }
        k = k + 1;
    }
    proof {
        lemma_first_series(gs, m.series_instance_uid@, k as int);
    }
    if k < series.len() {
        if !holds_string(&series[k].image_ids, &m.sop_instance_uid) {
            let ghost before = series@;
            series[k].image_ids.push(m.sop_instance_uid.clone());
            assert(string_views(series@[k as int].image_ids@) =~= string_views(
                before[k as int].image_ids@,
            ).push(m.sop_instance_uid@));
            assert(series_views(series@) =~= gs.update(
                k as int,
                SeriesView {
                    image_ids: gs[k as int].image_ids.push(m.sop_instance_uid@),
                    ..gs[k as int]
                },
            ));
        }
    } else {
        let ids = vec![m.sop_instance_uid.clone()];
        assert(string_views(ids@) =~= seq![m.sop_instance_uid@]);
        series.push(
            SeriesInfo {
                series_instance_uid: m.series_instance_uid.clone(),
                series_number: m.instance_number,
                series_description: m.series_description.clone(),
                modality: m.modality.clone(),
                image_ids: ids,
            },
        );
        assert(series_views(series@) =~= gs.push(new_series(m@)));
    }
    if !holds_string(image_ids, &m.sop_instance_uid) {
        let ghost before = image_ids@;
        image_ids.push(m.sop_instance_uid.clone());
        assert(string_views(image_ids@) =~= string_views(before).push(m.sop_instance_uid@));
    }
}

/// Files `records`, in order, into `series` and `image_ids`.
fn file_all(series: &mut Vec<SeriesInfo>, image_ids: &mut Vec<String>, records: &[DicomMetadata])
    ensures
        (series_views(final(series)@), string_views(final(image_ids)@)) == aggregate(
            series_views(old(series)@),
            string_views(old(image_ids)@),
            views(records@),
        ),
{
    let ghost gs0 = series_views(series@);
    let ghost ids0 = string_views(image_ids@);
    let mut k: usize = 0;
    while k < records.len()
        invariant
            k <= records@.len(),
            (series_views(series@), string_views(image_ids@)) == aggregate(
                gs0,
                ids0,
                views(records@).subrange(0, k as int),
            ),
        decreases records@.len() - k,
    {
        let ghost after = views(records@).subrange(0, k as int + 1);
        assert(after.drop_last() =~= views(records@).subrange(0, k as int));
        assert(after.last() == records@[k as int]@);
        file_into(series, image_ids, &records[k]);
        k = k + 1;
    }
    assert(views(records@).subrange(0, records@.len() as int) =~= views(records@));
}

/// Reorders `records` series by series: the series in order of first
/// appearance, the records of each in their given order.
pub fn group_by_series(records: &[DicomMetadata]) -> (r: Vec<DicomMetadata>)
    ensures
        views(r@) == grouped(views(records@)),
{
    let ghost v = views(records@);
    let mut uids: Vec<String> = Vec::new();
    let mut k: usize = 0;
    while k < records.len()
        invariant
            k <= records@.len(),
            v == views(records@),
            string_views(uids@) == series_uids_in(v.subrange(0, k as int)),
        decreases records@.len() - k,
    {
        let ghost pre = v.subrange(0, k as int + 1);
        assert(pre.drop_last() =~= v.subrange(0, k as int));
        assert(pre.last() == records@[k as int]@);
        if !holds_string(&uids, &records[k].series_instance_uid) {
            let ghost before = uids@;
            uids.push(records[k].series_instance_uid.clone());
            assert(string_views(uids@) =~= string_views(before).push(
                records@[k as int].series_instance_uid@,
            ));
        }
        k = k + 1;
    }
    assert(v.subrange(0, v.len() as int) =~= v);
    let ghost us = string_views(uids@);
    let mut r: Vec<DicomMetadata> = Vec::new();
    let mut j: usize = 0;
    assert(grouped_from(v, us.subrange(0, 0)) =~= Seq::<InstanceView>::empty()) by {
        assert(us.subrange(0, 0).len() == 0);
    }
    assert(views(r@) =~= Seq::<InstanceView>::empty());
    while j < uids.len()
        invariant
            j <= uids@.len(),
            us == string_views(uids@),
            us == series_uids_in(v),
            v == views(records@),
            views(r@) == grouped_from(v, us.subrange(0, j as int)),
        decreases uids@.len() - j,
    {
        let ghost head = grouped_from(v, us.subrange(0, j as int));
        let mut k: usize = 0;
        assert(head + of_series(v.subrange(0, 0), us[j as int]) =~= head);
        while k < records.len()
            invariant
                j < uids@.len(),
                k <= records@.len(),
                us == string_views(uids@),
                v == views(records@),
                head == grouped_from(v, us.subrange(0, j as int)),
                views(r@) == head + of_series(v.subrange(0, k as int), us[j as int]),
            decreases records@.len() - k,
        {
            let ghost pre = v.subrange(0, k as int + 1);
            assert(pre.drop_last() =~= v.subrange(0, k as int));
            assert(pre.last() == records@[k as int]@);
            assert(us[j as int] == uids@[j as int]@);
            if records[k].series_instance_uid == uids[j] {
                let ghost before = r@;
                r.push(records[k].clone());
                assert(views(r@) =~= views(before).push(records@[k as int]@));
                assert(views(r@) =~= head + of_series(pre, us[j as int]));
            }
            k = k + 1;
        }
        assert(v.subrange(0, v.len() as int) =~= v);
        assert(us.subrange(0, j as int + 1).drop_last() =~= us.subrange(0, j as int));
        assert(us.subrange(0, j as int + 1).last() == us[j as int]);
        j = j + 1;
    }
    assert(us.subrange(0, us.len() as int) =~= us);
    r
}

/// Groups `records` into series by series UID, in order of first
/// appearance, and lists their instance UIDs once each, series by series.
/// A series takes its number, description and modality from its first
/// record and lists each instance UID once.
pub fn create_series_info(records: &[DicomMetadata]) -> (r: (Vec<SeriesInfo>, Vec<String>))
    ensures
        (series_views(r.0@), string_views(r.1@)) == aggregate(
            Seq::empty(),
            Seq::empty(),
            grouped(views(records@)),
        ),
{
    let mut series: Vec<SeriesInfo> = Vec::new();
    let mut image_ids: Vec<String> = Vec::new();
    assert(series_views(series@) =~= Seq::empty());
    assert(string_views(image_ids@) =~= Seq::empty());
    let in_series_order = group_by_series(records);
    file_all(&mut series, &mut image_ids, in_series_order.as_slice());
    (series, image_ids)
}

/// Whether two cases agree on everything but their series and flat
/// instance list.
pub open spec fn same_case_fields(a: Case, b: Case) -> bool {
    &&& a.case_id == b.case_id
    &&& a.title == b.title
    &&& a.description == b.description
    &&& a.modality == b.modality
    &&& a.anatomy == b.anatomy
    &&& a.diagnosis == b.diagnosis
    &&& a.findings == b.findings
    &&& a.tags == b.tags
    &&& a.created_at == b.created_at
    &&& a.study_instance_uid == b.study_instance_uid
    &&& a.series_instance_uid == b.series_instance_uid
    &&& a.study_date == b.study_date
    &&& a.study_description == b.study_description
    &&& a.patient_id == b.patient_id
    &&& a.patient_name == b.patient_name
}

/// Adds `records` to an existing case, series by series in order of first
/// appearance: each instance joins the first series of the case with its
/// series UID unless it is already listed there, or opens a new series; each
/// instance UID joins the flat list unless already there. Nothing else of
/// the case changes.
pub fn update_case_with_new_instances(existing_case: &mut Case, records: &[DicomMetadata])
    ensures
        same_case_fields(*final(existing_case), *old(existing_case)),
        (series_views(final(existing_case).series@), string_views(final(existing_case).image_ids@))
            == aggregate(
            series_views(old(existing_case).series@),
            string_views(old(existing_case).image_ids@),
            grouped(views(records@)),
        ),
{
    let in_series_order = group_by_series(records);
    file_all(&mut existing_case.series, &mut existing_case.image_ids, in_series_order.as_slice());
}

proof fn lemma_push_contains<A>(s: Seq<A>, u: A, x: A)
    ensures
        s.push(u).contains(x) <==> (s.contains(x) || x == u),
{
    if s.push(u).contains(x) {
        let j = choose|j: int| 0 <= j < s.len() + 1 && s.push(u)[j] == x;
        if j < s.len() {
            assert(s[j] == x);
        }
    }
    if s.contains(x) {
        let j = choose|j: int| 0 <= j < s.len() && s[j] == x;
        assert(s.push(u)[j] == x);
    }
    if x == u {
        assert(s.push(u)[s.len() as int] == x);
    }
}

/// Keeping the first record of each SOP instance UID leaves every UID
/// exactly once: no UID twice, and each UID of the input still there.
pub proof fn lemma_dedup_unique(s: Seq<InstanceView>)
    ensures
        sop_uids(dedup_by_sop(s)).no_duplicates(),
        forall|x: Seq<char>| sop_uids(dedup_by_sop(s)).contains(x) <==> sop_uids(s).contains(x),
    decreases s.len(),
{
    if s.len() > 0 {
        let init = s.drop_last();
        lemma_dedup_unique(init);
        let p = dedup_by_sop(init);
        let u = s.last().sop_instance_uid;
        assert(sop_uids(s) =~= sop_uids(init).push(u));
        if !sop_uids(p).contains(u) {
            assert(sop_uids(p.push(s.last())) =~= sop_uids(p).push(u));
        }
        assert forall|x: Seq<char>| sop_uids(dedup_by_sop(s)).contains(x) <==> sop_uids(
            s,
        ).contains(x) by {
            lemma_push_contains(sop_uids(init), u, x);
            lemma_push_contains(sop_uids(p), u, x);
        }
    }
}

/// Keeping the first record of each SOP instance UID keeps only records of
/// the input, and at least one where the input has any.
pub proof fn lemma_dedup_keeps_input_records(s: Seq<InstanceView>)
    ensures
        forall|i: int| 0 <= i < dedup_by_sop(s).len() ==> s.contains(#[trigger] dedup_by_sop(s)[i]),
        s.len() > 0 ==> dedup_by_sop(s).len() > 0,
    decreases s.len(),
{
    if s.len() > 0 {
        let init = s.drop_last();
        lemma_dedup_keeps_input_records(init);
        let p = dedup_by_sop(init);
        let q = dedup_by_sop(s);
        assert forall|i: int| 0 <= i < q.len() implies s.contains(#[trigger] q[i]) by {
            if i < p.len() {
                assert(q[i] == p[i]);
                let j = choose|j: int| 0 <= j < init.len() && init[j] == p[i];
                assert(s[j] == init[j]);
            } else {
                assert(q[i] == s.last());
                assert(s[s.len() - 1] == s.last());
            }
        }
        if init.len() == 0 {
            assert(!sop_uids(p).contains(s.last().sop_instance_uid));
        }
    }
}

/// Where no SOP instance UID occurs twice, de-duplication keeps every record.
pub proof fn lemma_dedup_of_unique(s: Seq<InstanceView>)
    requires
        sop_uids(s).no_duplicates(),
    ensures
        dedup_by_sop(s) == s,
    decreases s.len(),
{
    if s.len() > 0 {
        let init = s.drop_last();
        assert(sop_uids(init) =~= sop_uids(s).drop_last());
        assert(sop_uids(init).no_duplicates()) by {
            assert forall|i: int, j: int|
                0 <= i < sop_uids(init).len() && 0 <= j < sop_uids(init).len() && i != j implies sop_uids(
                init,
            )[i] != sop_uids(init)[j] by {
                assert(sop_uids(init)[i] == sop_uids(s)[i]);
                assert(sop_uids(init)[j] == sop_uids(s)[j]);
            }
        }
        lemma_dedup_of_unique(init);
        assert(!sop_uids(init).contains(s.last().sop_instance_uid)) by {
            if sop_uids(init).contains(s.last().sop_instance_uid) {
                let j = choose|j: int|
                    0 <= j < sop_uids(init).len() && sop_uids(init)[j] == s.last().sop_instance_uid;
                assert(sop_uids(s)[j] == sop_uids(s)[s.len() - 1]);
            }
        }
        assert(init.push(s.last()) =~= s);
    }
}

/// Filing records never lists an instance UID twice in the flat list.
pub proof fn lemma_flat_list_unique(
    gs: Seq<SeriesView>,
    ids: Seq<Seq<char>>,
    records: Seq<InstanceView>,
)
    requires
        ids.no_duplicates(),
    ensures
        aggregate(gs, ids, records).1.no_duplicates(),
    decreases records.len(),
{
    if records.len() > 0 {
        lemma_flat_list_unique(gs, ids, records.drop_last());
        let p = aggregate(gs, ids, records.drop_last()).1;
        let u = records.last().sop_instance_uid;
        if !p.contains(u) {
            let q = p.push(u);
            assert forall|i: int, j: int| 0 <= i < q.len() && 0 <= j < q.len() && i != j implies q[i]
                != q[j] by {
                if i < p.len() && j < p.len() {
                    assert(q[i] == p[i] && q[j] == p[j]);
                } else if i < p.len() {
                    assert(q[i] == p[i]);
                } else if j < p.len() {
                    assert(q[j] == p[j]);
                }
            }
        }
    }
}

/// Where two detection strategies both report a SOP instance UID, their
/// merged and de-duplicated output holds it exactly once.
pub proof fn lemma_merge_reports_once(a: Seq<InstanceView>, b: Seq<InstanceView>, uid: Seq<char>)
    requires
        sop_uids(a).contains(uid),
        sop_uids(b).contains(uid),
    ensures
        exists|i: int|
            0 <= i < dedup_by_sop(a + b).len() && (#[trigger] dedup_by_sop(a + b)[i]).sop_instance_uid
                == uid && forall|j: int|
                0 <= j < dedup_by_sop(a + b).len() && j != i ==> (#[trigger] dedup_by_sop(
                    a + b,
                )[j]).sop_instance_uid != uid,
{
    let m = dedup_by_sop(a + b);
    lemma_dedup_unique(a + b);
    let i = choose|i: int| 0 <= i < a.len() && sop_uids(a)[i] == uid;
    assert((a + b)[i] == a[i]);
    assert(sop_uids(a + b)[i] == uid);
    assert(sop_uids(a + b).contains(uid));
    assert(sop_uids(m).contains(uid));
    let k = choose|k: int| 0 <= k < m.len() && sop_uids(m)[k] == uid;
    assert(m[k].sop_instance_uid == uid);
    assert forall|j: int| 0 <= j < m.len() && j != k implies (#[trigger] m[j]).sop_instance_uid
        != uid by {
        assert(sop_uids(m)[j] == m[j].sop_instance_uid);
    }
}

} // verus!
