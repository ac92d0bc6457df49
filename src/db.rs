use vstd::prelude::*;

use crate::clock::utc_now;
use crate::models::{series_views, Case, SeriesInfo, SeriesView};
use crate::text::{i32_to_text, int_text, lemma_int_text_parses, parse_i32, parsed_i32, string_views};

verus! {

/// A stored attribute value: a string, a number in decimal text, a list, a
/// map, or any other kind, which the case record does not use.
#[derive(Debug)]
pub enum AttrValue {
    S(String),
    N(String),
    L(Vec<AttrValue>),
    M(Vec<(String, AttrValue)>),
    Other,
}

/// The value stored under `key`: the first entry of `item` with that name.
pub open spec fn lookup(item: Seq<(String, AttrValue)>, key: Seq<char>) -> Option<AttrValue>
    decreases item.len(),
{
    if item.len() == 0 {
        None
    } else if item[0].0@ == key {
        Some(item[0].1)
    } else {
        lookup(item.subrange(1, item.len() as int), key)
    }
}

/// The string held by `v`, where it is a string.
pub open spec fn as_text(v: Option<AttrValue>) -> Option<Seq<char>> {
    match v {
        Some(AttrValue::S(s)) => Some(s@),
        _ => None,
    }
}

/// The string stored under `key`, or `fallback`.
pub open spec fn text_or(item: Seq<(String, AttrValue)>, key: Seq<char>, fallback: Seq<char>) -> Seq<
    char,
> {
    match as_text(lookup(item, key)) {
        Some(t) => t,
        None => fallback,
    }
}

/// The strings among `l`, in order.
pub open spec fn texts_in(l: Seq<AttrValue>) -> Seq<Seq<char>>
    decreases l.len(),
{
    if l.len() == 0 {
        Seq::empty()
    } else {
        let prev = texts_in(l.drop_last());
        match l.last() {
            AttrValue::S(s) => prev.push(s@),
            _ => prev,
        }
    }
}

/// The strings of the list `v`; none where `v` is no list.
pub open spec fn text_list(v: Option<AttrValue>) -> Seq<Seq<char>> {
    match v {
        Some(AttrValue::L(l)) => texts_in(l@),
        _ => Seq::empty(),
    }
}

/// The `i32` that the number `v` writes, 0 where there is none.
pub open spec fn number_or_zero(v: Option<AttrValue>) -> i32 {
    match v {
        Some(AttrValue::N(n)) => match parsed_i32(n@) {
            Some(x) => x,
            None => 0,
        },
        _ => 0,
    }
}

/// The series that a stored map describes.
pub open spec fn series_from_map(m: Seq<(String, AttrValue)>) -> SeriesView {
    SeriesView {
        series_instance_uid: text_or(m, "series_instance_uid"@, Seq::empty()),
        series_number: number_or_zero(lookup(m, "series_number"@)),
        series_description: text_or(m, "series_description"@, Seq::empty()),
        modality: text_or(m, "modality"@, "Unknown"@),
        image_ids: text_list(lookup(m, "image_ids"@)),
    }
}

/// The series described by the maps among `l`, in order.
pub open spec fn series_in(l: Seq<AttrValue>) -> Seq<SeriesView>
    decreases l.len(),
{
    if l.len() == 0 {
        Seq::empty()
    } else {
        let prev = series_in(l.drop_last());
        match l.last() {
            AttrValue::M(m) => prev.push(series_from_map(m@)),
            _ => prev,
        }
    }
}

/// The series of the list `v`; none where `v` is no list.
pub open spec fn series_list(v: Option<AttrValue>) -> Seq<SeriesView> {
    match v {
        Some(AttrValue::L(l)) => series_in(l@),
        _ => Seq::empty(),
    }
}

/// Why a stored item is no case.
#[derive(Debug, Clone, Copy, PartialEq, Eq, Structural)]
pub enum ConvertError {
    /// No string is stored under `case_id`.
    MissingCaseId,
    /// No string is stored under `title`.
    MissingTitle,
}

/// The value stored under `key` in `item`.
pub fn lookup_attr<'a>(item: &'a Vec<(String, AttrValue)>, key: &str) -> (r: Option<&'a AttrValue>)
    ensures
        match r {
            Some(v) => lookup(item@, key@) == Some(*v),
            None => lookup(item@, key@) is None,
        },
{
    let name = key.to_owned();
    let mut k: usize = 0;
    assert(item@.subrange(0, item@.len() as int) =~= item@);
    while k < item.len()
        invariant
            k <= item@.len(),
            name@ == key@,
            lookup(item@, key@) == lookup(item@.subrange(k as int, item@.len() as int), key@),
        decreases item@.len() - k,
    {
        let ghost rest = item@.subrange(k as int, item@.len() as int);
        assert(rest[0] == item@[k as int]);
        assert(rest.subrange(1, rest.len() as int) =~= item@.subrange(
            k as int + 1,
            item@.len() as int,
        ));
        if item[k].0 == name {
            return Some(&item[k].1);
        }
        k = k + 1;
    }
    None
}

fn text_of(v: Option<&AttrValue>) -> (r: Option<String>)
    ensures
        match v {
            Some(a) => match r {
                Some(s) => as_text(Some(*a)) == Some(s@),
                None => as_text(Some(*a)) is None,
            },
            None => r is None,
        },
{
    match v {
        Some(AttrValue::S(s)) => Some(s.clone()),
        _ => None,
    }
}

/// The string stored under `key`, or `fallback`.
fn text_or_default(item: &Vec<(String, AttrValue)>, key: &str, fallback: &str) -> (r: String)
    ensures
        r@ == text_or(item@, key@, fallback@),
{
    match text_of(lookup_attr(item, key)) {
        Some(s) => s,
        None => fallback.to_owned(),
    }
}

/// The strings among `l`, in order.
fn texts_of(l: &Vec<AttrValue>) -> (r: Vec<String>)
    ensures
        string_views(r@) == texts_in(l@),
{
    let mut r: Vec<String> = Vec::new();
    let mut k: usize = 0;
    while k < l.len()
        invariant
            k <= l@.len(),
            string_views(r@) == texts_in(l@.subrange(0, k as int)),
        decreases l@.len() - k,
    {
        let ghost pre = l@.subrange(0, k as int + 1);
        assert(pre.drop_last() =~= l@.subrange(0, k as int));
        assert(pre.last() == l@[k as int]);
        match &l[k] {
            AttrValue::S(s) => {
                let ghost prev = r@;
                r.push(s.clone());
                assert(string_views(r@) =~= string_views(prev).push(s@));
            },
            _ => {},
        }
        k = k + 1;
    }
    assert(l@.subrange(0, l@.len() as int) =~= l@);
    r
}

fn text_list_of(v: Option<&AttrValue>) -> (r: Vec<String>)
    ensures
        match v {
            Some(a) => string_views(r@) == text_list(Some(*a)),
            None => string_views(r@) == Seq::<Seq<char>>::empty(),
        },
{
    match v {
        Some(AttrValue::L(l)) => texts_of(l),
        _ => {
            let r: Vec<String> = Vec::new();
            assert(string_views(r@) =~= Seq::<Seq<char>>::empty());
            r
        },
    }
}

fn number_of(v: Option<&AttrValue>) -> (r: i32)
    ensures
        match v {
            Some(a) => r == number_or_zero(Some(*a)),
            None => r == 0,
        },
{
    match v {
        Some(AttrValue::N(n)) => match parse_i32(n.as_str()) {
            Some(x) => x,
            None => 0,
        },
        _ => 0,
    }
}

/// The series that the stored map `m` describes.
fn series_of_map(m: &Vec<(String, AttrValue)>) -> (r: SeriesInfo)
    ensures
        r@ == series_from_map(m@),
{
    proof {
        reveal_strlit("");
        assert(""@ =~= Seq::<char>::empty());
    }
    SeriesInfo {
        series_instance_uid: text_or_default(m, "series_instance_uid", ""),
        series_number: number_of(lookup_attr(m, "series_number")),
        series_description: text_or_default(m, "series_description", ""),
        modality: text_or_default(m, "modality", "Unknown"),
        image_ids: text_list_of(lookup_attr(m, "image_ids")),
    }
}

/// The series described by the maps among `l`, in order.
fn series_of(l: &Vec<AttrValue>) -> (r: Vec<SeriesInfo>)
    ensures
        series_views(r@) == series_in(l@),
{
    let mut r: Vec<SeriesInfo> = Vec::new();
    let mut k: usize = 0;
    while k < l.len()
        invariant
            k <= l@.len(),
            series_views(r@) == series_in(l@.subrange(0, k as int)),
        decreases l@.len() - k,
    {
        let ghost pre = l@.subrange(0, k as int + 1);
        assert(pre.drop_last() =~= l@.subrange(0, k as int));
        assert(pre.last() == l@[k as int]);
        match &l[k] {
            AttrValue::M(m) => {
                let ghost prev = r@;
                let s = series_of_map(m);
                r.push(s);
                assert(series_views(r@) =~= series_views(prev).push(series_from_map(m@)));
            },
            _ => {},
        }
        k = k + 1;
    }
    assert(l@.subrange(0, l@.len() as int) =~= l@);
    r
}

fn series_list_of(v: Option<&AttrValue>) -> (r: Vec<SeriesInfo>)
    ensures
        match v {
            Some(a) => series_views(r@) == series_list(Some(*a)),
            None => series_views(r@) == Seq::<SeriesView>::empty(),
        },
{
    match v {
        Some(AttrValue::L(l)) => series_of(l),
        _ => {
            let r: Vec<SeriesInfo> = Vec::new();
            assert(series_views(r@) =~= Seq::<SeriesView>::empty());
            r
        },
    }
}

/// Whether `c` is the case that the stored item `item` describes, with
/// `now` as its creation time where the item records none.
pub open spec fn case_matches_item(c: Case, item: Seq<(String, AttrValue)>, now: Seq<char>) -> bool {
    &&& as_text(lookup(item, "case_id"@)) == Some(c.case_id@)
    &&& as_text(lookup(item, "title"@)) == Some(c.title@)
    &&& c.description@ == text_or(item, "description"@, Seq::empty())
    &&& c.modality@ == text_or(item, "modality"@, "Unknown"@)
    &&& c.anatomy@ == text_or(item, "anatomy"@, "Unknown"@)
    &&& c.diagnosis@ == text_or(item, "diagnosis"@, Seq::empty())
    &&& c.findings@ == text_or(item, "findings"@, Seq::empty())
    &&& string_views(c.tags@) == text_list(lookup(item, "tags"@))
    &&& string_views(c.image_ids@) == text_list(lookup(item, "image_ids"@))
    &&& c.created_at@ == text_or(item, "created_at"@, now)
    &&& c.study_instance_uid@ == text_or(item, "study_instance_uid"@, Seq::empty())
    &&& c.series_instance_uid@ == text_or(item, "series_instance_uid"@, Seq::empty())
    &&& c.study_date@ == text_or(item, "study_date"@, Seq::empty())
    &&& c.study_description@ == text_or(item, "study_description"@, Seq::empty())
    &&& c.patient_id@ == text_or(item, "patient_id"@, Seq::empty())
    &&& c.patient_name@ == text_or(item, "patient_name"@, Seq::empty())
    &&& series_views(c.series@) == series_list(lookup(item, "series"@))
}

/// Reads a case from a stored item, taking `now` as its creation time
/// where the item records none. The id and the title are required; every
/// other field falls back to its default.
pub fn convert_item_at(item: &Vec<(String, AttrValue)>, now: &str) -> (r: Result<Case, ConvertError>)
    ensures
        match r {
            Ok(c) => case_matches_item(c, item@, now@),
            Err(ConvertError::MissingCaseId) => as_text(lookup(item@, "case_id"@)) is None,
            Err(ConvertError::MissingTitle) => as_text(lookup(item@, "case_id"@)) is Some && as_text(
                lookup(item@, "title"@),
            ) is None,
        },
{
    proof {
        reveal_strlit("");
        assert(""@ =~= Seq::<char>::empty());
    }
    let case_id = match text_of(lookup_attr(item, "case_id")) {
        Some(s) => s,
        None => {
            return Err(ConvertError::MissingCaseId);
        },
    };
    let title = match text_of(lookup_attr(item, "title")) {
        Some(s) => s,
        None => {
            return Err(ConvertError::MissingTitle);
        },
    };
    Ok(
        Case {
            case_id,
            title,
            description: text_or_default(item, "description", ""),
            modality: text_or_default(item, "modality", "Unknown"),
            anatomy: text_or_default(item, "anatomy", "Unknown"),
            diagnosis: text_or_default(item, "diagnosis", ""),
            findings: text_or_default(item, "findings", ""),
            tags: text_list_of(lookup_attr(item, "tags")),
            image_ids: text_list_of(lookup_attr(item, "image_ids")),
            created_at: text_or_default(item, "created_at", now),
            study_instance_uid: text_or_default(item, "study_instance_uid", ""),
            series_instance_uid: text_or_default(item, "series_instance_uid", ""),
            study_date: text_or_default(item, "study_date", ""),
            study_description: text_or_default(item, "study_description", ""),
            patient_id: text_or_default(item, "patient_id", ""),
            patient_name: text_or_default(item, "patient_name", ""),
            series: series_list_of(lookup_attr(item, "series")),
        },
    )
}

/// Reads a case from a stored item (see [`convert_item_at`]), dated now
/// where the item records no creation time.
pub fn convert_item_to_case(item: &Vec<(String, AttrValue)>) -> (r: Result<Case, ConvertError>)
    ensures
        match r {
            Ok(c) => exists|now: Seq<char>| case_matches_item(c, item@, now),
            Err(ConvertError::MissingCaseId) => as_text(lookup(item@, "case_id"@)) is None,
            Err(ConvertError::MissingTitle) => as_text(lookup(item@, "case_id"@)) is Some && as_text(
                lookup(item@, "title"@),
            ) is None,
        },
{
    let now = utc_now();
    convert_item_at(item, now.rfc3339.as_str())
}

/// Whether `l` holds, in order, the strings `s`.
pub open spec fn holds_texts(l: Seq<AttrValue>, s: Seq<String>) -> bool {
    l.len() == s.len() && forall|i: int| 0 <= i < l.len() ==> #[trigger] l[i] == AttrValue::S(s[i])
}

/// Whether `m` is the stored map of the series `si`.
pub open spec fn stores_series(m: Seq<(String, AttrValue)>, si: SeriesInfo) -> bool {
    &&& m.len() == 5
    &&& m[0].0@ == "series_instance_uid"@ && m[0].1 == AttrValue::S(si.series_instance_uid)
    &&& m[1].0@ == "series_number"@ && (m[1].1 matches AttrValue::N(n) && n@ == int_text(
        si.series_number,
    ))
    &&& m[2].0@ == "series_description"@ && m[2].1 == AttrValue::S(si.series_description)
    &&& m[3].0@ == "modality"@ && m[3].1 == AttrValue::S(si.modality)
    &&& m[4].0@ == "image_ids"@ && (m[4].1 matches AttrValue::L(l) && holds_texts(
        l@,
        si.image_ids@,
    ))
}

/// Whether `l` holds, in order, the stored maps of the series `s`.
pub open spec fn holds_series(l: Seq<AttrValue>, s: Seq<SeriesInfo>) -> bool {
    l.len() == s.len() && forall|i: int|
        0 <= i < l.len() ==> (#[trigger] l[i] matches AttrValue::M(m) && stores_series(m@, s[i]))
}

/// Whether `item` is the stored item of case `c`: one entry per field, in
/// the order of the fields.
pub open spec fn stores_case(item: Seq<(String, AttrValue)>, c: Case) -> bool {
    &&& item.len() == 17
    &&& item[0].0@ == "case_id"@ && item[0].1 == AttrValue::S(c.case_id)
    &&& item[1].0@ == "title"@ && item[1].1 == AttrValue::S(c.title)
    &&& item[2].0@ == "description"@ && item[2].1 == AttrValue::S(c.description)
    &&& item[3].0@ == "modality"@ && item[3].1 == AttrValue::S(c.modality)
    &&& item[4].0@ == "anatomy"@ && item[4].1 == AttrValue::S(c.anatomy)
    &&& item[5].0@ == "diagnosis"@ && item[5].1 == AttrValue::S(c.diagnosis)
    &&& item[6].0@ == "findings"@ && item[6].1 == AttrValue::S(c.findings)
    &&& item[7].0@ == "tags"@ && (item[7].1 matches AttrValue::L(l) && holds_texts(l@, c.tags@))
    &&& item[8].0@ == "image_ids"@ && (item[8].1 matches AttrValue::L(l) && holds_texts(
        l@,
        c.image_ids@,
    ))
    &&& item[9].0@ == "created_at"@ && item[9].1 == AttrValue::S(c.created_at)
    &&& item[10].0@ == "study_instance_uid"@ && item[10].1 == AttrValue::S(c.study_instance_uid)
    &&& item[11].0@ == "series_instance_uid"@ && item[11].1 == AttrValue::S(c.series_instance_uid)
    &&& item[12].0@ == "study_date"@ && item[12].1 == AttrValue::S(c.study_date)
    &&& item[13].0@ == "study_description"@ && item[13].1 == AttrValue::S(c.study_description)
    &&& item[14].0@ == "patient_id"@ && item[14].1 == AttrValue::S(c.patient_id)
    &&& item[15].0@ == "patient_name"@ && item[15].1 == AttrValue::S(c.patient_name)
    &&& item[16].0@ == "series"@ && (item[16].1 matches AttrValue::L(l) && holds_series(
        l@,
        c.series@,
    ))
}

fn texts_attr(s: &Vec<String>) -> (r: AttrValue)
    ensures
        r matches AttrValue::L(l) && holds_texts(l@, s@),
{
    let mut l: Vec<AttrValue> = Vec::new();
    let mut k: usize = 0;
    while k < s.len()
        invariant
            k <= s@.len(),
            l@.len() == k,
            forall|i: int| 0 <= i < k ==> #[trigger] l@[i] == AttrValue::S(s@[i]),
        decreases s@.len() - k,
    {
        l.push(AttrValue::S(s[k].clone()));
        k = k + 1;
    }
    AttrValue::L(l)
}

fn entry(key: &str, value: AttrValue) -> (r: (String, AttrValue))
    ensures
        r.0@ == key@,
        r.1 == value,
{
    (key.to_owned(), value)
}

fn series_attr(si: &SeriesInfo) -> (r: AttrValue)
    ensures
        r matches AttrValue::M(m) && stores_series(m@, *si),
{
    let m = vec![
        entry("series_instance_uid", AttrValue::S(si.series_instance_uid.clone())),
        entry("series_number", AttrValue::N(i32_to_text(si.series_number))),
        entry("series_description", AttrValue::S(si.series_description.clone())),
        entry("modality", AttrValue::S(si.modality.clone())),
        entry("image_ids", texts_attr(&si.image_ids)),
    ];
    AttrValue::M(m)
}

/// The stored item of case `c`: one entry per field, strings as strings,
/// lists as lists and each series as a map with its number in decimal.
pub fn case_to_item(c: &Case) -> (r: Vec<(String, AttrValue)>)
    ensures
        stores_case(r@, *c),
{
    let mut series: Vec<AttrValue> = Vec::new();
    let mut k: usize = 0;
    while k < c.series.len()
        invariant
            k <= c.series@.len(),
            series@.len() == k,
            forall|i: int|
                0 <= i < k ==> (#[trigger] series@[i] matches AttrValue::M(m) && stores_series(
                    m@,
                    c.series@[i],
                )),
        decreases c.series@.len() - k,
    {
        series.push(series_attr(&c.series[k]));
        k = k + 1;
    }
    vec![
        entry("case_id", AttrValue::S(c.case_id.clone())),
        entry("title", AttrValue::S(c.title.clone())),
        entry("description", AttrValue::S(c.description.clone())),
        entry("modality", AttrValue::S(c.modality.clone())),
        entry("anatomy", AttrValue::S(c.anatomy.clone())),
        entry("diagnosis", AttrValue::S(c.diagnosis.clone())),
        entry("findings", AttrValue::S(c.findings.clone())),
        entry("tags", texts_attr(&c.tags)),
        entry("image_ids", texts_attr(&c.image_ids)),
        entry("created_at", AttrValue::S(c.created_at.clone())),
        entry("study_instance_uid", AttrValue::S(c.study_instance_uid.clone())),
        entry("series_instance_uid", AttrValue::S(c.series_instance_uid.clone())),
        entry("study_date", AttrValue::S(c.study_date.clone())),
        entry("study_description", AttrValue::S(c.study_description.clone())),
        entry("patient_id", AttrValue::S(c.patient_id.clone())),
        entry("patient_name", AttrValue::S(c.patient_name.clone())),
        entry("series", AttrValue::L(series)),
    ]
}

proof fn lemma_lookup_at(item: Seq<(String, AttrValue)>, k: int, key: Seq<char>)
    requires
        0 <= k < item.len(),
        item[k].0@ == key,
        forall|j: int| 0 <= j < k ==> (#[trigger] item[j]).0@ != key,
    ensures
        lookup(item, key) == Some(item[k].1),
    decreases k,
{
    if k > 0 {
        let rest = item.subrange(1, item.len() as int);
        assert forall|j: int| 0 <= j < k - 1 implies (#[trigger] rest[j]).0@ != key by {
            assert(rest[j] == item[j + 1]);
        }
        assert(rest[k - 1] == item[k]);
        lemma_lookup_at(rest, k - 1, key);
    }
}

proof fn lemma_texts_held(l: Seq<AttrValue>, s: Seq<String>)
    requires
        holds_texts(l, s),
    ensures
        texts_in(l) == string_views(s),
    decreases l.len(),
{
    if l.len() > 0 {
        assert(holds_texts(l.drop_last(), s.drop_last())) by {
            assert forall|i: int| 0 <= i < l.drop_last().len() implies #[trigger] l.drop_last()[i]
                == AttrValue::S(s.drop_last()[i]) by {
                assert(l.drop_last()[i] == l[i]);
            }
        }
        lemma_texts_held(l.drop_last(), s.drop_last());
        assert(l.last() == AttrValue::S(s.last()));
        assert(string_views(s) =~= string_views(s.drop_last()).push(s.last()@));
    }
}

proof fn lemma_series_map_read(m: Seq<(String, AttrValue)>, si: SeriesInfo)
    requires
        stores_series(m, si),
    ensures
        series_from_map(m) == si@,
{
    reveal_strlit("series_instance_uid");
    reveal_strlit("series_number");
    reveal_strlit("series_description");
    reveal_strlit("modality");
    reveal_strlit("image_ids");
    assert("series_instance_uid"@.len() == 19);
    assert("series_number"@.len() == 13);
    assert("series_description"@.len() == 18);
    assert("modality"@.len() == 8);
    assert("image_ids"@.len() == 9);
    lemma_lookup_at(m, 0, "series_instance_uid"@);
    lemma_lookup_at(m, 1, "series_number"@);
    lemma_lookup_at(m, 2, "series_description"@);
    lemma_lookup_at(m, 3, "modality"@);
    lemma_lookup_at(m, 4, "image_ids"@);
    lemma_int_text_parses(si.series_number);
    if let AttrValue::L(l) = m[4].1 {
        lemma_texts_held(l@, si.image_ids@);
    }
}

proof fn lemma_series_held(l: Seq<AttrValue>, s: Seq<SeriesInfo>)
    requires
        holds_series(l, s),
    ensures
        series_in(l) == series_views(s),
    decreases l.len(),
{
    if l.len() > 0 {
        assert(holds_series(l.drop_last(), s.drop_last())) by {
            assert forall|i: int| 0 <= i < l.drop_last().len() implies (
            #[trigger] l.drop_last()[i] matches AttrValue::M(m) && stores_series(
                m@,
                s.drop_last()[i],
            )) by {
                assert(l.drop_last()[i] == l[i]);
            }
        }
        lemma_series_held(l.drop_last(), s.drop_last());
        let last = l[l.len() - 1];
        assert(last matches AttrValue::M(m) && stores_series(m@, s[s.len() - 1]));
        if let AttrValue::M(m) = last {
            lemma_series_map_read(m@, s.last());
        }
        assert(series_views(s) =~= series_views(s.drop_last()).push(s.last()@));
    }
}

/// Whether two cases hold the same values in every field.
pub open spec fn same_case(a: Case, b: Case) -> bool {
    &&& a.case_id@ == b.case_id@
    &&& a.title@ == b.title@
    &&& a.description@ == b.description@
    &&& a.modality@ == b.modality@
    &&& a.anatomy@ == b.anatomy@
    &&& a.diagnosis@ == b.diagnosis@
    &&& a.findings@ == b.findings@
    &&& string_views(a.tags@) == string_views(b.tags@)
    &&& string_views(a.image_ids@) == string_views(b.image_ids@)
    &&& a.created_at@ == b.created_at@
    &&& a.study_instance_uid@ == b.study_instance_uid@
    &&& a.series_instance_uid@ == b.series_instance_uid@
    &&& a.study_date@ == b.study_date@
    &&& a.study_description@ == b.study_description@
    &&& a.patient_id@ == b.patient_id@
    &&& a.patient_name@ == b.patient_name@
    &&& series_views(a.series@) == series_views(b.series@)
}

/// The stored item of a case reads back as that case: it has the required
/// id and title, and any case read from it holds the same values.
pub proof fn lemma_stored_case_reads_back(
    c: Case,
    item: Seq<(String, AttrValue)>,
    read: Case,
    now: Seq<char>,
)
    requires
        stores_case(item, c),
    ensures
        as_text(lookup(item, "case_id"@)) == Some(c.case_id@),
        as_text(lookup(item, "title"@)) == Some(c.title@),
        case_matches_item(read, item, now) ==> same_case(read, c),
{
    reveal_strlit("case_id");
    reveal_strlit("title");
    reveal_strlit("description");
    reveal_strlit("modality");
    reveal_strlit("anatomy");
    reveal_strlit("diagnosis");
    reveal_strlit("findings");
    reveal_strlit("tags");
    reveal_strlit("image_ids");
    reveal_strlit("created_at");
    reveal_strlit("study_instance_uid");
    reveal_strlit("series_instance_uid");
    reveal_strlit("study_date");
    reveal_strlit("study_description");
    reveal_strlit("patient_id");
    reveal_strlit("patient_name");
    reveal_strlit("series");
    assert("case_id"@.len() == 7);
    assert("title"@.len() == 5);
    assert("description"@.len() == 11);
    assert("modality"@.len() == 8);
    assert("anatomy"@.len() == 7);
    assert("diagnosis"@.len() == 9);
    assert("findings"@.len() == 8);
    assert("tags"@.len() == 4);
    assert("image_ids"@.len() == 9);
    assert("created_at"@.len() == 10);
    assert("study_instance_uid"@.len() == 18);
    assert("series_instance_uid"@.len() == 19);
    assert("study_date"@.len() == 10);
    assert("study_description"@.len() == 17);
    assert("patient_id"@.len() == 10);
    assert("patient_name"@.len() == 12);
    assert("series"@.len() == 6);
    assert("case_id"@[0] != "anatomy"@[0]);
    assert("modality"@[0] != "findings"@[0]);
    assert("diagnosis"@[0] != "image_ids"@[0]);
    assert("created_at"@[0] != "study_date"@[0]);
    assert("created_at"@[0] != "patient_id"@[0]);
    assert("study_date"@[0] != "patient_id"@[0]);
    lemma_lookup_at(item, 0, "case_id"@);
    lemma_lookup_at(item, 1, "title"@);
    lemma_lookup_at(item, 2, "description"@);
    lemma_lookup_at(item, 3, "modality"@);
    lemma_lookup_at(item, 4, "anatomy"@);
    lemma_lookup_at(item, 5, "diagnosis"@);
    lemma_lookup_at(item, 6, "findings"@);
    lemma_lookup_at(item, 7, "tags"@);
    lemma_lookup_at(item, 8, "image_ids"@);
    lemma_lookup_at(item, 9, "created_at"@);
    lemma_lookup_at(item, 10, "study_instance_uid"@);
    lemma_lookup_at(item, 11, "series_instance_uid"@);
    lemma_lookup_at(item, 12, "study_date"@);
    lemma_lookup_at(item, 13, "study_description"@);
    lemma_lookup_at(item, 14, "patient_id"@);
    lemma_lookup_at(item, 15, "patient_name"@);
    lemma_lookup_at(item, 16, "series"@);
    if let AttrValue::L(l) = item[7].1 {
        lemma_texts_held(l@, c.tags@);
    }
    if let AttrValue::L(l) = item[8].1 {
        lemma_texts_held(l@, c.image_ids@);
    }
    if let AttrValue::L(l) = item[16].1 {
        lemma_series_held(l@, c.series@);
    }
}

} // verus!
