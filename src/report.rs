//! The daily report: the day bucket of a snapshot, reshaped into totals, an
//! hourly breakdown and a per-country breakdown.
use vstd::prelude::*;
use crate::calendar::{civil_date, utc_date, MAX_INSTANT_SECS};
use crate::country::{country_name, country_name_of};
use crate::json::{child, lemma_put_keeps_keys_unique, members_view, put, put_member, position, take_child,
    unique_keys, Json};
use crate::text::{decimal_string, decimal_text, parse_i64, parsed_i64,
    lemma_parsed_starts_with_digit_or_sign};

verus! {

/// The output name of a recognized field code.
pub open spec fn field_name(code: Seq<char>) -> Option<Seq<char>> {
    if code == "e"@ {
        Some("requests"@)
    } else if code == "n"@ {
        Some("new"@)
    } else if code == "t"@ {
        Some("total"@)
    } else if code == "u"@ {
        Some("unique"@)
    } else if code == "d"@ {
        Some("total_duration"@)
    } else {
        None
    }
}

/// The members of an entry renamed by `field_name`, in order; members with
/// other keys are left out.
pub open spec fn normalize(m: Seq<(Seq<char>, Json)>) -> Seq<(Seq<char>, Json)>
    decreases m.len(),
{
    if m.len() == 0 {
        seq![]
    } else {
        let acc = normalize(m.drop_last());
        match field_name(m.last().0) {
            Some(n) => put(acc, n, m.last().1),
            None => acc,
        }
    }
}

/// The hourly breakdown of a day bucket: each object member whose key is an
/// integer, normalized, under that key.
pub open spec fn hours_of(m: Seq<(Seq<char>, Json)>) -> Seq<(Seq<char>, Seq<(Seq<char>, Json)>)>
    decreases m.len(),
{
    if m.len() == 0 {
        seq![]
    } else {
        let acc = hours_of(m.drop_last());
        let k = m.last().0;
        match m.last().1 {
            Json::Object(es) => if parsed_i64(k) is Some {
                put(acc, k, normalize(members_view(es@)))
            } else {
                acc
            },
            _ => acc,
        }
    }
}

/// The per-country breakdown of a day bucket: each object member whose key is
/// not an integer but a country code, normalized, under the country's name.
pub open spec fn countries_of(m: Seq<(Seq<char>, Json)>) -> Seq<(Seq<char>, Seq<(Seq<char>, Json)>)>
    decreases m.len(),
{
    if m.len() == 0 {
        seq![]
    } else {
        let acc = countries_of(m.drop_last());
        let k = m.last().0;
        match m.last().1 {
            Json::Object(es) => if parsed_i64(k) is None && country_name_of(k) is Some {
                put(acc, country_name_of(k)->0, normalize(members_view(es@)))
            } else {
                acc
            },
            _ => acc,
        }
    }
}

/// The member list selected by the path year, month, day of a calendar date,
/// each written in decimal; absent when a step is missing or not an object.
pub open spec fn day_bucket(raw: Json, date: (int, int, int)) -> Option<Seq<(Seq<char>, Json)>> {
    match child(raw, decimal_text(date.0)) {
        Some(y) => match child(y, decimal_text(date.1)) {
            Some(m) => match child(m, decimal_text(date.2)) {
                Some(Json::Object(es)) => Some(members_view(es@)),
                _ => None,
            },
            None => None,
        },
        None => None,
    }
}

/// A report as sequences: totals, and the hourly and per-country entries.
pub struct ReportView {
    pub total: Seq<(Seq<char>, Json)>,
    pub hours: Seq<(Seq<char>, Seq<(Seq<char>, Json)>)>,
    pub countries: Seq<(Seq<char>, Seq<(Seq<char>, Json)>)>,
}

/// The report of a day bucket.
pub open spec fn report_of_bucket(m: Seq<(Seq<char>, Json)>) -> ReportView {
    ReportView { total: normalize(m), hours: hours_of(m), countries: countries_of(m) }
}

/// The report of a snapshot at the local instant `secs`: absent when the
/// snapshot holds no day bucket for that instant's date.
pub open spec fn report_of(raw: Json, secs: int) -> Option<ReportView> {
    match day_bucket(raw, civil_date(secs)) {
        Some(m) => Some(report_of_bucket(m)),
        None => None,
    }
}

/// The normalized report of one day.
pub struct Report {
    pub total: Vec<(String, Json)>,
    pub hours: Vec<(String, Vec<(String, Json)>)>,
    pub countries: Vec<(String, Vec<(String, Json)>)>,
}

/// A breakdown seen with its keys and entries as sequences.
pub open spec fn breakdown_view(b: Seq<(String, Vec<(String, Json)>)>) -> Seq<(Seq<char>, Seq<(Seq<char>, Json)>)> {
    b.map_values(|e: (String, Vec<(String, Json)>)| (e.0@, members_view(e.1@)))
}

impl View for Report {
    type V = ReportView;

    open spec fn view(&self) -> ReportView {
        ReportView {
            total: members_view(self.total@),
            hours: breakdown_view(self.hours@),
            countries: breakdown_view(self.countries@),
        }
    }
}

proof fn lemma_position_breakdown(b: Seq<(String, Vec<(String, Json)>)>, k: Seq<char>)
    ensures
        position(breakdown_view(b), k) == position(members_view(b), k),
    decreases b.len(),
{
    if b.len() > 0 {
        lemma_position_breakdown(b.drop_first(), k);
        assert(breakdown_view(b).drop_first() =~= breakdown_view(b.drop_first()));
        assert(members_view(b).drop_first() =~= members_view(b.drop_first()));
    }
}

/// Sets a breakdown entry, seen through `breakdown_view`.
fn put_breakdown(b: &mut Vec<(String, Vec<(String, Json)>)>, k: String, v: Vec<(String, Json)>)
    ensures
        breakdown_view(final(b)@) == put(breakdown_view(old(b)@), k@, members_view(v@)),
{
    let ghost kv = k@;
    let ghost vv = members_view(v@);
    proof {
        lemma_position_breakdown(b@, kv);
        crate::json::lemma_position(members_view(b@), kv);
    }
    put_member(b, k, v);
    proof {
        match position(members_view(old(b)@), kv) {
            Some(i) => {
                assert(breakdown_view(b@) =~= breakdown_view(old(b)@).update(i, (kv, vv)));
            },
            None => {
                assert(breakdown_view(b@) =~= breakdown_view(old(b)@).push((kv, vv)));
            },
        }
    }
}

/// A field code is never an integer, and is a single character.
pub proof fn lemma_field_code_is_plain(k: Seq<char>)
    requires
        field_name(k) is Some,
    ensures
        parsed_i64(k) is None,
        k.len() == 1,
{
    reveal_strlit("e");
    reveal_strlit("n");
    reveal_strlit("t");
    reveal_strlit("u");
    reveal_strlit("d");
    if parsed_i64(k) is Some {
        lemma_parsed_starts_with_digit_or_sign(k);
    }
}

/// The output name of a field code, or `None` for a code that is not recognized.
pub fn field_name_of(code: &String) -> (r: Option<String>)
    ensures
        match r {
            Some(n) => field_name(code@) == Some(n@),
            None => field_name(code@) is None,
        },
{
    if *code == "e".to_owned() {
        Some("requests".to_owned())
    } else if *code == "n".to_owned() {
        Some("new".to_owned())
    } else if *code == "t".to_owned() {
        Some("total".to_owned())
    } else if *code == "u".to_owned() {
        Some("unique".to_owned())
    } else if *code == "d".to_owned() {
        Some("total_duration".to_owned())
    } else {
        None
    }
}

/// Taking the first member off the unread part `m0[i..]` of a member list
/// reads `m0[i]` and leaves `m0[i + 1..]`.
proof fn lemma_take_first<V>(
    m0: Seq<(Seq<char>, V)>,
    i: int,
    before: Seq<(String, V)>,
    after: Seq<(String, V)>,
)
    requires
        0 <= i <= m0.len(),
        members_view(before) == m0.subrange(i, m0.len() as int),
        before.len() > 0,
        after == before.remove(0),
    ensures
        i < m0.len(),
        m0[i] == (before[0].0@, before[0].1),
        members_view(after) == m0.subrange(i + 1, m0.len() as int),
        m0.subrange(0, i + 1).drop_last() == m0.subrange(0, i),
{
    let n = m0.len() as int;
    assert(members_view(before).len() == before.len());
    assert(members_view(before)[0] == (before[0].0@, before[0].1));
    assert(m0.subrange(i, n)[0] == m0[i]);
    assert forall|j: int| 0 <= j < n - i - 1 implies
        #[trigger] members_view(after)[j] == m0.subrange(i + 1, n)[j] by {
        assert(after[j] == before[j + 1]);
        assert(members_view(before)[j + 1] == m0.subrange(i, n)[j + 1]);
    }
    assert(members_view(after) =~= m0.subrange(i + 1, n));
    assert(m0.subrange(0, i + 1).drop_last() =~= m0.subrange(0, i));
}

/// Renames the recognized field codes of an entry and drops every other member.
pub fn normalize_entry(entry: Vec<(String, Json)>) -> (r: Vec<(String, Json)>)
    ensures
        members_view(r@) == normalize(members_view(entry@)),
{
    let ghost m0 = members_view(entry@);
    let ghost n = entry@.len();
    let mut rest = entry;
    let mut out: Vec<(String, Json)> = Vec::new();
    let ghost mut i: int = 0;
    while rest.len() > 0
        invariant
            0 <= i <= n,
            m0.len() == n,
            members_view(rest@) == m0.subrange(i, n as int),
            members_view(out@) == normalize(m0.subrange(0, i)),
        decreases rest.len(),
    {
        let ghost before = rest@;
        assert(members_view(before).len() == before.len());
        let (k, v) = rest.remove(0);
        proof {
            lemma_take_first(m0, i, before, rest@);
        }
        match field_name_of(&k) {
            Some(name) => put_member(&mut out, name, v),
            None => {},
        }
        proof { i = i + 1; }
    }
    assert(m0.subrange(0, n as int) =~= m0);
    out
}

/// The report of a day bucket, from its members.
pub fn build_report(bucket: Vec<(String, Json)>) -> (r: Report)
    ensures
        r@ == report_of_bucket(members_view(bucket@)),
        report_well_formed(r@),
{
    proof { lemma_report_is_well_formed(members_view(bucket@)); }
    let ghost m0 = members_view(bucket@);
    let ghost n = bucket@.len();
    let mut rest = bucket;
    let mut total: Vec<(String, Json)> = Vec::new();
    let mut hours: Vec<(String, Vec<(String, Json)>)> = Vec::new();
    let mut countries: Vec<(String, Vec<(String, Json)>)> = Vec::new();
    let ghost mut i: int = 0;
    proof {
        assert(breakdown_view(hours@) =~= Seq::empty());
        assert(breakdown_view(countries@) =~= Seq::empty());
    }
    while rest.len() > 0
        invariant
            0 <= i <= n,
            m0.len() == n,
            members_view(rest@) == m0.subrange(i, n as int),
            members_view(total@) == normalize(m0.subrange(0, i)),
            breakdown_view(hours@) == hours_of(m0.subrange(0, i)),
            breakdown_view(countries@) == countries_of(m0.subrange(0, i)),
        decreases rest.len(),
    {
        let ghost before = rest@;
        assert(members_view(before).len() == before.len());
        let (k, v) = rest.remove(0);
        let ghost kv = k@;
        let ghost vv = v;
        proof {
            lemma_take_first(m0, i, before, rest@);
        }
        let is_object = matches!(v, Json::Object(_));
        let hour = is_object && parse_i64(k.as_str()).is_some();
        let country = if is_object && !hour { country_name(k.as_str()) } else { None };
        match field_name_of(&k) {
            Some(name) => {
                proof { lemma_field_code_is_plain(kv); }
                put_member(&mut total, name, v);
            },
            None => {
                if hour {
                    match v {
                        Json::Object(inner) => put_breakdown(&mut hours, k, normalize_entry(inner)),
                        _ => {},
                    }
                } else {
                    match country {
                        Some(cn) => match v {
                            Json::Object(inner) => put_breakdown(&mut countries, cn, normalize_entry(inner)),
                            _ => {},
                        },
                        None => {},
                    }
                }
            },
        }
        proof { i = i + 1; }
    }
    assert(m0.subrange(0, n as int) =~= m0);
    Report { total, hours, countries }
}

/// The report of a snapshot for the day on which the instant
/// `reference_secs + skew_secs` falls (seconds since the epoch, UTC); `None`
/// when the snapshot holds no object under that year, month and day.
pub fn aggregate(raw: Json, reference_secs: i64, skew_secs: i64) -> (r: Option<Report>)
    requires
        -MAX_INSTANT_SECS <= reference_secs + skew_secs <= MAX_INSTANT_SECS,
    ensures
        match r {
            Some(rep) => report_of(raw, reference_secs + skew_secs) == Some(rep@)
                && report_well_formed(rep@),
            None => report_of(raw, reference_secs + skew_secs) is None,
        },
{
    let (year, month, day) = utc_date(reference_secs + skew_secs);
    let year_key = decimal_string(year);
    let month_key = decimal_string(month);
    let day_key = decimal_string(day);
    let in_year = match take_child(raw, &year_key) {
        Some(j) => j,
        None => return None,
    };
    let in_month = match take_child(in_year, &month_key) {
        Some(j) => j,
        None => return None,
    };
    match take_child(in_month, &day_key) {
        Some(Json::Object(bucket)) => Some(build_report(bucket)),
        _ => None,
    }
}

/// `j` is an object whose members are `m`.
pub open spec fn is_object_of(j: Json, m: Seq<(Seq<char>, Json)>) -> bool {
    match j {
        Json::Object(es) => members_view(es@) == m,
        _ => false,
    }
}

/// `j` is an object that holds the breakdown `b`, each entry as an object.
pub open spec fn is_breakdown_of(j: Json, b: Seq<(Seq<char>, Seq<(Seq<char>, Json)>)>) -> bool {
    match j {
        Json::Object(es) => es@.len() == b.len() && forall|i: int| 0 <= i < b.len() ==>
            (#[trigger] es@[i]).0@ == b[i].0 && is_object_of(es@[i].1, b[i].1),
        _ => false,
    }
}

/// `j` is the JSON form of the report `v`: `total`, `hours` and `countries`.
pub open spec fn is_report_json(j: Json, v: ReportView) -> bool {
    match j {
        Json::Object(es) => {
            &&& es@.len() == 3
            &&& es@[0].0@ == "total"@ && is_object_of(es@[0].1, v.total)
            &&& es@[1].0@ == "hours"@ && is_breakdown_of(es@[1].1, v.hours)
            &&& es@[2].0@ == "countries"@ && is_breakdown_of(es@[2].1, v.countries)
        },
        _ => false,
    }
}

/// A breakdown as a JSON object of objects.
fn breakdown_json(b: Vec<(String, Vec<(String, Json)>)>) -> (r: Json)
    ensures
        is_breakdown_of(r, breakdown_view(b@)),
{
    let ghost b0 = b@;
    let ghost n = b@.len();
    let mut rest = b;
    let mut out: Vec<(String, Json)> = Vec::new();
    while rest.len() > 0
        invariant
            out@.len() <= n,
            b0.len() == n,
            rest@ == b0.subrange(out@.len() as int, n as int),
            forall|i: int| 0 <= i < out@.len() ==>
                (#[trigger] out@[i]).0@ == b0[i].0@ && is_object_of(out@[i].1, members_view(b0[i].1@)),
        decreases rest.len(),
    {
        let ghost i = out@.len() as int;
        let ghost before = rest@;
        assert(b0.subrange(i, n as int)[0] == b0[i]);
        let (k, v) = rest.remove(0);
        assert(rest@ =~= b0.subrange(i + 1, n as int));
        out.push((k, Json::Object(v)));
    }
    Json::Object(out)
}

impl Report {
    /// The report as a JSON object with the members `total`, `hours` and `countries`.
    pub fn into_json(self) -> (r: Json)
        ensures
            is_report_json(r, self@),
    {
        let mut out: Vec<(String, Json)> = Vec::new();
        out.push(("total".to_owned(), Json::Object(self.total)));
        out.push(("hours".to_owned(), breakdown_json(self.hours)));
        out.push(("countries".to_owned(), breakdown_json(self.countries)));
        Json::Object(out)
    }
}

/// The JSON form of an aggregation result: the report, or the empty object.
pub fn report_json(r: Option<Report>) -> (j: Json)
    ensures
        match r {
            Some(rep) => is_report_json(j, rep@),
            None => j is Object && j->Object_0@.len() == 0,
        },
{
    match r {
        Some(rep) => rep.into_json(),
        None => Json::Object(Vec::new()),
    }
}

/// Some member of `m` has the key `k`.
pub open spec fn has_key<V>(m: Seq<(Seq<char>, V)>, k: Seq<char>) -> bool {
    exists|j: int| 0 <= j < m.len() && (#[trigger] m[j]).0 == k
}

proof fn lemma_put_has<V>(m: Seq<(Seq<char>, V)>, k: Seq<char>, v: V)
    ensures
        forall|k2: Seq<char>| has_key(put(m, k, v), k2) <==> (has_key(m, k2) || k2 == k),
{
    crate::json::lemma_position(m, k);
    let p = put(m, k, v);
    assert forall|k2: Seq<char>| has_key(p, k2) <==> (has_key(m, k2) || k2 == k) by {
        match position(m, k) {
            Some(i) => {
                if has_key(p, k2) {
                    let j = choose|j: int| 0 <= j < p.len() && (#[trigger] p[j]).0 == k2;
                    if j != i {
                        assert(m[j].0 == k2);
                    }
                }
                if has_key(m, k2) {
                    let j = choose|j: int| 0 <= j < m.len() && (#[trigger] m[j]).0 == k2;
                    assert(p[j].0 == k2);
                }
                if k2 == k {
                    assert(p[i].0 == k2);
                }
            },
            None => {
                if has_key(p, k2) {
                    let j = choose|j: int| 0 <= j < p.len() && (#[trigger] p[j]).0 == k2;
                    if j < m.len() {
                        assert(m[j].0 == k2);
                    }
                }
                if has_key(m, k2) {
                    let j = choose|j: int| 0 <= j < m.len() && (#[trigger] m[j]).0 == k2;
                    assert(p[j].0 == k2);
                }
                if k2 == k {
                    assert(p[m.len() as int].0 == k2);
                }
            },
        }
    }
}

/// Normalizing an entry keeps exactly the output names of the recognized
/// field codes present in it: a name is in the result if and only if some
/// member's key is a field code with that name.
pub proof fn lemma_normalize_keeps_exactly_recognized(m: Seq<(Seq<char>, Json)>)
    ensures
        forall|n: Seq<char>| has_key(normalize(m), n) <==>
            (exists|j: int| 0 <= j < m.len() && field_name((#[trigger] m[j]).0) == Some(n)),
    decreases m.len(),
{
    if m.len() > 0 {
        let init = m.drop_last();
        lemma_normalize_keeps_exactly_recognized(init);
        let acc = normalize(init);
        if let Some(name) = field_name(m.last().0) {
            lemma_put_has(acc, name, m.last().1);
        }
        assert forall|n: Seq<char>| has_key(normalize(m), n) <==>
            (exists|j: int| 0 <= j < m.len() && field_name((#[trigger] m[j]).0) == Some(n)) by {
            assert(m[m.len() - 1] == m.last());
            assert(has_key(acc, n) <==> (exists|j: int| 0 <= j < init.len()
                && field_name((#[trigger] init[j]).0) == Some(n)));
            assert(normalize(m) == match field_name(m.last().0) {
                Some(nm) => put(acc, nm, m.last().1),
                None => acc,
            });
            if exists|j: int| 0 <= j < m.len() && field_name((#[trigger] m[j]).0) == Some(n) {
                let j = choose|j: int| 0 <= j < m.len() && field_name((#[trigger] m[j]).0) == Some(n);
                if j < m.len() - 1 {
                    assert(init[j] == m[j]);
                }
            }
            if exists|j: int| 0 <= j < init.len() && field_name((#[trigger] init[j]).0) == Some(n) {
                let j = choose|j: int| 0 <= j < init.len() && field_name((#[trigger] init[j]).0) == Some(n);
                assert(m[j] == init[j]);
            }
        }
    }
}

/// A member whose key is not a field code, inserted anywhere in an entry,
/// leaves the normalized entry unchanged.
pub proof fn lemma_unknown_code_inserted_is_ignored(m: Seq<(Seq<char>, Json)>, i: int, k: Seq<char>, v: Json)
    requires
        0 <= i <= m.len(),
        field_name(k) is None,
    ensures
        normalize(m.insert(i, (k, v))) == normalize(m),
    decreases m.len(),
{
    let x = m.insert(i, (k, v));
    if i == m.len() {
        assert(x.drop_last() =~= m);
        assert(x.last() == (k, v));
    } else {
        lemma_unknown_code_inserted_is_ignored(m.drop_last(), i, k, v);
        assert(x.drop_last() =~= m.drop_last().insert(i, (k, v)));
        assert(x.last() == m.last());
    }
}

/// Giving a member whose key is not a field code another value leaves the
/// normalized entry unchanged.
pub proof fn lemma_unknown_code_value_is_ignored(m: Seq<(Seq<char>, Json)>, i: int, v: Json)
    requires
        0 <= i < m.len(),
        field_name(m[i].0) is None,
    ensures
        normalize(m.update(i, (m[i].0, v))) == normalize(m),
    decreases m.len(),
{
    let x = m.update(i, (m[i].0, v));
    if i == m.len() - 1 {
        assert(x.drop_last() =~= m.drop_last());
        assert(x.last() == (m[i].0, v));
    } else {
        lemma_unknown_code_value_is_ignored(m.drop_last(), i, v);
        assert(x.drop_last() =~= m.drop_last().update(i, (m[i].0, v)));
        assert(x.last() == m.last());
    }
}

/// `ds` is not a field code, so a `ds` member never reaches the output.
pub proof fn lemma_ds_is_not_a_field_code()
    ensures
        field_name("ds"@) is None,
{
    reveal_strlit("ds");
    reveal_strlit("e");
    reveal_strlit("n");
    reveal_strlit("t");
    reveal_strlit("u");
    reveal_strlit("d");
    assert("ds"@.len() != "e"@.len());
    assert("ds"@.len() != "d"@.len());
}

/// The hourly breakdown has an entry for a key exactly when the bucket has an
/// object member under that key and the key is an integer.
pub proof fn lemma_hours_are_integer_keys(m: Seq<(Seq<char>, Json)>)
    ensures
        forall|h: Seq<char>| has_key(hours_of(m), h) <==>
            (exists|j: int| 0 <= j < m.len() && (#[trigger] m[j]).0 == h && m[j].1 is Object
                && parsed_i64(h) is Some),
    decreases m.len(),
{
    if m.len() > 0 {
        let init = m.drop_last();
        lemma_hours_are_integer_keys(init);
        let acc = hours_of(init);
        if let Json::Object(es) = m.last().1 {
            lemma_put_has(acc, m.last().0, normalize(members_view(es@)));
        }
        assert forall|h: Seq<char>| has_key(hours_of(m), h) <==>
            (exists|j: int| 0 <= j < m.len() && (#[trigger] m[j]).0 == h && m[j].1 is Object
                && parsed_i64(h) is Some) by {
            assert(m[m.len() - 1] == m.last());
            assert(has_key(acc, h) <==> (exists|j: int| 0 <= j < init.len()
                && (#[trigger] init[j]).0 == h && init[j].1 is Object && parsed_i64(h) is Some));
            assert(hours_of(m) == match m.last().1 {
                Json::Object(es) => if parsed_i64(m.last().0) is Some {
                    put(acc, m.last().0, normalize(members_view(es@)))
                } else {
                    acc
                },
                _ => acc,
            });
            if exists|j: int| 0 <= j < m.len() && (#[trigger] m[j]).0 == h && m[j].1 is Object
                && parsed_i64(h) is Some {
                let j = choose|j: int| 0 <= j < m.len() && (#[trigger] m[j]).0 == h && m[j].1 is Object
                    && parsed_i64(h) is Some;
                if j < m.len() - 1 {
                    assert(init[j] == m[j]);
                }
            }
            if exists|j: int| 0 <= j < init.len() && (#[trigger] init[j]).0 == h && init[j].1 is Object
                && parsed_i64(h) is Some {
                let j = choose|j: int| 0 <= j < init.len() && (#[trigger] init[j]).0 == h
                    && init[j].1 is Object && parsed_i64(h) is Some;
                assert(m[j] == init[j]);
            }
        }
    }
}

/// The per-country breakdown has an entry for a name exactly when the bucket
/// has an object member whose key is not an integer and is the code of a
/// country with that name. So no key counts both as an hour and as a country.
pub proof fn lemma_countries_are_non_integer_codes(m: Seq<(Seq<char>, Json)>)
    ensures
        forall|c: Seq<char>| has_key(countries_of(m), c) <==>
            (exists|j: int| 0 <= j < m.len() && (#[trigger] m[j]).1 is Object
                && parsed_i64(m[j].0) is None && country_name_of(m[j].0) == Some(c)),
    decreases m.len(),
{
    if m.len() > 0 {
        let init = m.drop_last();
        lemma_countries_are_non_integer_codes(init);
        let acc = countries_of(init);
        let k = m.last().0;
        if let Json::Object(es) = m.last().1 {
            if parsed_i64(k) is None && country_name_of(k) is Some {
                lemma_put_has(acc, country_name_of(k)->0, normalize(members_view(es@)));
            }
        }
        assert forall|c: Seq<char>| has_key(countries_of(m), c) <==>
            (exists|j: int| 0 <= j < m.len() && (#[trigger] m[j]).1 is Object
                && parsed_i64(m[j].0) is None && country_name_of(m[j].0) == Some(c)) by {
            assert(m[m.len() - 1] == m.last());
            assert(has_key(acc, c) <==> (exists|j: int| 0 <= j < init.len()
                && (#[trigger] init[j]).1 is Object && parsed_i64(init[j].0) is None
                && country_name_of(init[j].0) == Some(c)));
            assert(countries_of(m) == match m.last().1 {
                Json::Object(es) => if parsed_i64(k) is None && country_name_of(k) is Some {
                    put(acc, country_name_of(k)->0, normalize(members_view(es@)))
                } else {
                    acc
                },
                _ => acc,
            });
            if exists|j: int| 0 <= j < m.len() && (#[trigger] m[j]).1 is Object
                && parsed_i64(m[j].0) is None && country_name_of(m[j].0) == Some(c) {
                let j = choose|j: int| 0 <= j < m.len() && (#[trigger] m[j]).1 is Object
                    && parsed_i64(m[j].0) is None && country_name_of(m[j].0) == Some(c);
                if j < m.len() - 1 {
                    assert(init[j] == m[j]);
                }
            }
            if exists|j: int| 0 <= j < init.len() && (#[trigger] init[j]).1 is Object
                && parsed_i64(init[j].0) is None && country_name_of(init[j].0) == Some(c) {
                let j = choose|j: int| 0 <= j < init.len() && (#[trigger] init[j]).1 is Object
                    && parsed_i64(init[j].0) is None && country_name_of(init[j].0) == Some(c);
                assert(m[j] == init[j]);
            }
        }
    }
}

/// A breakdown with unique keys whose entries each have unique keys.
pub open spec fn breakdown_well_formed(b: Seq<(Seq<char>, Seq<(Seq<char>, Json)>)>) -> bool {
    unique_keys(b) && forall|i: int| 0 <= i < b.len() ==> unique_keys(#[trigger] b[i].1)
}

/// Every section of the report, and every breakdown entry, has unique keys.
pub open spec fn report_well_formed(v: ReportView) -> bool {
    unique_keys(v.total) && breakdown_well_formed(v.hours) && breakdown_well_formed(v.countries)
}

/// A normalized entry never repeats a key.
pub proof fn lemma_normalize_has_unique_keys(m: Seq<(Seq<char>, Json)>)
    ensures
        unique_keys(normalize(m)),
    decreases m.len(),
{
    if m.len() > 0 {
        lemma_normalize_has_unique_keys(m.drop_last());
        if let Some(n) = field_name(m.last().0) {
            lemma_put_keeps_keys_unique(normalize(m.drop_last()), n, m.last().1);
        }
    }
}

proof fn lemma_put_keeps_breakdown_well_formed(
    b: Seq<(Seq<char>, Seq<(Seq<char>, Json)>)>,
    k: Seq<char>,
    e: Seq<(Seq<char>, Json)>,
)
    requires
        breakdown_well_formed(b),
        unique_keys(e),
    ensures
        breakdown_well_formed(put(b, k, e)),
{
    lemma_put_keeps_keys_unique(b, k, e);
    crate::json::lemma_position(b, k);
    let p = put(b, k, e);
    assert forall|i: int| 0 <= i < p.len() implies unique_keys(#[trigger] p[i].1) by {
        if i < b.len() && p[i] != (k, e) {
            assert(p[i] == b[i]);
        }
    }
}

/// The hourly and per-country breakdowns never repeat a key, nor does any of
/// their entries.
pub proof fn lemma_breakdowns_are_well_formed(m: Seq<(Seq<char>, Json)>)
    ensures
        breakdown_well_formed(hours_of(m)),
        breakdown_well_formed(countries_of(m)),
    decreases m.len(),
{
    if m.len() > 0 {
        let init = m.drop_last();
        lemma_breakdowns_are_well_formed(init);
        let k = m.last().0;
        if let Json::Object(es) = m.last().1 {
            lemma_normalize_has_unique_keys(members_view(es@));
            if parsed_i64(k) is Some {
                lemma_put_keeps_breakdown_well_formed(hours_of(init), k, normalize(members_view(es@)));
            }
            if parsed_i64(k) is None && country_name_of(k) is Some {
                lemma_put_keeps_breakdown_well_formed(
                    countries_of(init),
                    country_name_of(k)->0,
                    normalize(members_view(es@)),
                );
            }
        }
    }
}

/// The report of any day bucket is well formed.
pub proof fn lemma_report_is_well_formed(m: Seq<(Seq<char>, Json)>)
    ensures
        report_well_formed(report_of_bucket(m)),
{
    lemma_normalize_has_unique_keys(m);
    lemma_breakdowns_are_well_formed(m);
}

/// Whatever the snapshot, there is no report exactly when there is no object
/// under the date path; otherwise the report is that of the day bucket.
pub proof fn lemma_report_exists_iff_day_bucket(raw: Json, secs: int)
    ensures
        report_of(raw, secs) is None <==> day_bucket(raw, civil_date(secs)) is None,
        day_bucket(raw, civil_date(secs)) is Some ==> report_of(raw, secs)
            == Some(report_of_bucket(day_bucket(raw, civil_date(secs))->0)),
{
}

/// Two aggregations of equal snapshots at the same local instant give equal reports.
pub proof fn lemma_aggregate_is_deterministic(raw: Json, secs: int, a: Option<ReportView>, b: Option<ReportView>)
    requires
        a == report_of(raw, secs),
        b == report_of(raw, secs),
    ensures
        a == b,
{
}

} // verus!
