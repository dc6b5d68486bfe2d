//! The tabular transform: build working rows from detail records, normalize
//! daily pay to monthly pay, drop rows without an amount, sort by amount
//! descending (stable), and derive the public link of each surviving row.

use vstd::prelude::*;
use vstd::seq_lib::lemma_multiset_commutative;
use vstd::multiset::Multiset;
use crate::model::{OpeningResponse, DetailRow, ReportRow, DetailView, ReportView, detail_view_of,
    detail_views, report_views, day_rate_label, month_rate_label};
use crate::text::{dec_of, append_dec};

verus! {

/// The images of the detail records as working rows, record by record.
pub open spec fn build_views(details: Seq<OpeningResponse>) -> Seq<DetailView> {
    details.map_values(|o: OpeningResponse| detail_view_of(o))
}

/// Whether the normalization rule rewrites this row: an amount is present
/// and the compensation label names a daily rate.
pub open spec fn is_day_rate(r: DetailView) -> bool {
    r.compensation_amount is Some && r.compensation_type == Some(day_rate_label())
}

/// The unit-normalization rule: a daily-rate amount becomes a monthly
/// amount, twenty working days to the month, and the label is rewritten;
/// every other row is left untouched.
pub open spec fn normalize_view(r: DetailView) -> DetailView {
    if is_day_rate(r) {
        DetailView {
            description: r.description,
            title: r.title,
            opening_id: r.opening_id,
            compensation_type: Some(month_rate_label()),
            compensation_amount: Some((r.compensation_amount->0 * 20) as u32),
        }
    } else {
        r
    }
}

/// The normalization rule over a whole row sequence.
pub open spec fn normalize_views(s: Seq<DetailView>) -> Seq<DetailView> {
    s.map_values(|r: DetailView| normalize_view(r))
}

/// No normalized amount overflows: wherever the rule applies, twenty times
/// the amount still fits in `u32`. A machine limit, not a rule of the report.
pub open spec fn amounts_fit(s: Seq<DetailView>) -> bool {
    forall|i: int|
        0 <= i < s.len() && is_day_rate(#[trigger] s[i]) ==> (s[i].compensation_amount->0 as int)
            * 20 <= u32::MAX as int
}

/// The rows that survive the drop step: exactly those with an amount, in
/// their original order.
pub open spec fn kept_views(s: Seq<DetailView>) -> Seq<DetailView>
    decreases s.len(),
{
    if s.len() == 0 {
        Seq::empty()
    } else {
        kept_views(s.drop_last()) + (if s.last().compensation_amount is Some {
            seq![s.last()]
        } else {
            Seq::empty()
        })
    }
}

/// Every row of the sequence has an amount.
pub open spec fn all_amounts_present(s: Seq<DetailView>) -> bool {
    forall|i: int| 0 <= i < s.len() ==> (#[trigger] s[i]).compensation_amount is Some
}

/// The sort key of a row.
pub open spec fn amount_of(r: DetailView) -> u32 {
    r.compensation_amount->0
}

/// Where a row goes in an already sorted sequence: before the first row
/// whose amount is not larger, so that among equal amounts the earlier row
/// stays first.
pub open spec fn insert_desc(r: DetailView, s: Seq<DetailView>) -> Seq<DetailView>
    decreases s.len(),
{
    if s.len() == 0 {
        seq![r]
    } else if amount_of(r) >= amount_of(s[0]) {
        seq![r] + s
    } else {
        seq![s[0]] + insert_desc(r, s.drop_first())
    }
}

/// Stable insertion sort by amount, descending.
pub open spec fn sort_desc(s: Seq<DetailView>) -> Seq<DetailView>
    decreases s.len(),
{
    if s.len() == 0 {
        Seq::empty()
    } else {
        insert_desc(s[0], sort_desc(s.drop_first()))
    }
}

/// Non-increasing by amount.
pub open spec fn sorted_desc(s: Seq<DetailView>) -> bool {
    forall|i: int, j: int| 0 <= i <= j < s.len() ==> amount_of(#[trigger] s[i]) >= amount_of(
        #[trigger] s[j],
    )
}

/// The public page of an opening.
pub open spec fn link_of(id: u32) -> Seq<char> {
    "https://cedtintern.cp.eng.chula.ac.th/opening/"@ + dec_of(id as int) + "/session/3"@
}

/// A working row as a report row: the opening id is dropped and survives
/// only inside the derived link.
pub open spec fn report_view_of(r: DetailView) -> ReportView {
    ReportView {
        description: r.description,
        title: r.title,
        compensation_type: r.compensation_type,
        compensation_amount: r.compensation_amount->0,
        link: link_of(r.opening_id),
    }
}

/// The link-derivation step over a whole row sequence.
pub open spec fn link_views(s: Seq<DetailView>) -> Seq<ReportView> {
    s.map_values(|r: DetailView| report_view_of(r))
}

/// The whole transform: build, normalize, drop, sort, link.
pub open spec fn pipeline_views(details: Seq<OpeningResponse>) -> Seq<ReportView> {
    link_views(sort_desc(kept_views(normalize_views(build_views(details)))))
}

proof fn lemma_detail_views_push(s: Seq<DetailRow>, r: DetailRow)
    ensures
        detail_views(s.push(r)) == detail_views(s).push(r@),
{
    assert(detail_views(s.push(r)) =~= detail_views(s).push(r@));
}

proof fn lemma_report_views_push(s: Seq<ReportRow>, r: ReportRow)
    ensures
        report_views(s.push(r)) == report_views(s).push(r@),
{
    assert(report_views(s.push(r)) =~= report_views(s).push(r@));
}

proof fn lemma_build_views_push(s: Seq<OpeningResponse>, x: OpeningResponse)
    ensures
        build_views(s.push(x)) == build_views(s).push(detail_view_of(x)),
{
    assert(build_views(s.push(x)) =~= build_views(s).push(detail_view_of(x)));
}

proof fn lemma_normalize_views_push(s: Seq<DetailView>, x: DetailView)
    ensures
        normalize_views(s.push(x)) == normalize_views(s).push(normalize_view(x)),
{
    assert(normalize_views(s.push(x)) =~= normalize_views(s).push(normalize_view(x)));
}

proof fn lemma_link_views_push(s: Seq<DetailView>, x: DetailView)
    ensures
        link_views(s.push(x)) == link_views(s).push(report_view_of(x)),
{
    assert(link_views(s.push(x)) =~= link_views(s).push(report_view_of(x)));
}

/// Law: the normalization rule multiplies a daily-rate amount by twenty and
/// renames its label to the monthly one, and changes nothing else; a row
/// with any other label, or without a label or an amount, is left exactly as
/// it was. Amounts whose product would not fit in `u32` are out of scope.
pub proof fn lemma_normalize_rule(r: DetailView)
    requires
        is_day_rate(r) ==> (r.compensation_amount->0 as int) * 20 <= u32::MAX as int,
    ensures
        is_day_rate(r) ==> normalize_view(r).compensation_amount == Some(
            (r.compensation_amount->0 * 20) as u32,
        ) && normalize_view(r).compensation_type == Some(month_rate_label()) && normalize_view(
            r,
        ).description == r.description && normalize_view(r).title == r.title && normalize_view(
            r,
        ).opening_id == r.opening_id,
        !is_day_rate(r) ==> normalize_view(r) == r,
{
}

/// Law: after the drop step, no surviving row misses its amount.
pub proof fn lemma_no_missing_amount(s: Seq<DetailView>)
    ensures
        all_amounts_present(kept_views(s)),
    decreases s.len(),
{
    if s.len() > 0 {
        lemma_no_missing_amount(s.drop_last());
    }
}

/// Inserting at the position the exec search finds agrees with the
/// recursive insertion.
proof fn lemma_insert_desc_at(r: DetailView, s: Seq<DetailView>, j: int)
    requires
        0 <= j <= s.len(),
        forall|k: int| 0 <= k < j ==> amount_of(#[trigger] s[k]) > amount_of(r),
        j < s.len() ==> amount_of(r) >= amount_of(s[j]),
    ensures
        insert_desc(r, s) == s.insert(j, r),
    decreases j,
{
    if j == 0 {
        if s.len() == 0 {
            assert(insert_desc(r, s) =~= s.insert(0, r));
        } else {
            assert(insert_desc(r, s) == seq![r] + s);
            assert(seq![r] + s =~= s.insert(0, r));
        }
    } else {
        assert(amount_of(s[0]) > amount_of(r));
        lemma_insert_desc_at(r, s.drop_first(), j - 1);
        assert(insert_desc(r, s) == seq![s[0]] + insert_desc(r, s.drop_first()));
        assert(seq![s[0]] + s.drop_first().insert(j - 1, r) =~= s.insert(j, r));
    }
}

/// Inserting adds exactly the new row to the contents.
pub proof fn lemma_insert_desc_multiset(r: DetailView, s: Seq<DetailView>)
    ensures
        insert_desc(r, s).to_multiset() == s.to_multiset().insert(r),
    decreases s.len(),
{
    broadcast use vstd::seq_lib::group_to_multiset_ensures;

    if s.len() == 0 {
        assert(seq![r] =~= Seq::<DetailView>::empty().push(r));
        assert(s.to_multiset().len() == 0);
        assert(s.to_multiset() =~= Multiset::<DetailView>::empty());
        assert(Seq::<DetailView>::empty().to_multiset().len() == 0);
        assert(Seq::<DetailView>::empty().to_multiset() =~= Multiset::<DetailView>::empty());
        assert(insert_desc(r, s).to_multiset() =~= s.to_multiset().insert(r));
    } else if amount_of(r) >= amount_of(s[0]) {
        lemma_multiset_commutative(seq![r], s);
        assert(seq![r] =~= Seq::<DetailView>::empty().push(r));
        assert(Seq::<DetailView>::empty().to_multiset().len() == 0);
        assert(Seq::<DetailView>::empty().to_multiset() =~= Multiset::<DetailView>::empty());
        assert(seq![r].to_multiset() =~= Multiset::<DetailView>::empty().insert(r));
        assert(insert_desc(r, s).to_multiset() =~= s.to_multiset().insert(r));
    } else {
        lemma_insert_desc_multiset(r, s.drop_first());
        lemma_multiset_commutative(seq![s[0]], insert_desc(r, s.drop_first()));
        assert(seq![s[0]] + s.drop_first() =~= s);
        lemma_multiset_commutative(seq![s[0]], s.drop_first());
        assert(insert_desc(r, s).to_multiset() =~= s.to_multiset().insert(r));
    }
}

/// Law: sorting permutes the rows and loses none.
pub proof fn lemma_sort_desc_permutes(s: Seq<DetailView>)
    ensures
        sort_desc(s).to_multiset() == s.to_multiset(),
    decreases s.len(),
{
    broadcast use vstd::seq_lib::group_to_multiset_ensures;

    if s.len() > 0 {
        lemma_sort_desc_permutes(s.drop_first());
        lemma_insert_desc_multiset(s[0], sort_desc(s.drop_first()));
        assert(seq![s[0]] + s.drop_first() =~= s);
        lemma_multiset_commutative(seq![s[0]], s.drop_first());
        assert(seq![s[0]] =~= Seq::<DetailView>::empty().push(s[0]));
        assert(Seq::<DetailView>::empty().to_multiset().len() == 0);
        assert(Seq::<DetailView>::empty().to_multiset() =~= Multiset::<DetailView>::empty());
        assert(sort_desc(s).to_multiset() =~= s.to_multiset());
    }
}

/// Every row of the inserted sequence is the new row or one of the old.
proof fn lemma_insert_desc_elems(r: DetailView, s: Seq<DetailView>, i: int)
    requires
        0 <= i < insert_desc(r, s).len(),
    ensures
        insert_desc(r, s)[i] == r || s.contains(insert_desc(r, s)[i]),
    decreases s.len(),
{
    if s.len() == 0 {
    } else if amount_of(r) >= amount_of(s[0]) {
        if i > 0 {
            assert(insert_desc(r, s)[i] == s[i - 1]);
        }
    } else {
        if i > 0 {
            assert(insert_desc(r, s)[i] == insert_desc(r, s.drop_first())[i - 1]);
            lemma_insert_desc_elems(r, s.drop_first(), i - 1);
            if s.drop_first().contains(insert_desc(r, s)[i]) {
                let k = choose|k: int|
                    0 <= k < s.drop_first().len() && s.drop_first()[k] == insert_desc(r, s)[i];
                assert(s[k + 1] == insert_desc(r, s)[i]);
            }
        }
    }
}

/// Inserting into a sorted sequence keeps it sorted.
proof fn lemma_insert_desc_sorted(r: DetailView, s: Seq<DetailView>)
    requires
        sorted_desc(s),
    ensures
        sorted_desc(insert_desc(r, s)),
    decreases s.len(),
{
    if s.len() == 0 {
    } else if amount_of(r) >= amount_of(s[0]) {
        assert forall|i: int, j: int|
            0 <= i <= j < insert_desc(r, s).len() implies amount_of(
            insert_desc(r, s)[i],
        ) >= amount_of(insert_desc(r, s)[j]) by {
            if i > 0 {
                assert(insert_desc(r, s)[i] == s[i - 1]);
            }
            if j > 0 {
                assert(insert_desc(r, s)[j] == s[j - 1]);
            }
        }
    } else {
        assert(sorted_desc(s.drop_first()));
        lemma_insert_desc_sorted(r, s.drop_first());
        let t = insert_desc(r, s.drop_first());
        assert forall|i: int, j: int|
            0 <= i <= j < insert_desc(r, s).len() implies amount_of(
            insert_desc(r, s)[i],
        ) >= amount_of(insert_desc(r, s)[j]) by {
            if i > 0 {
                assert(insert_desc(r, s)[i] == t[i - 1]);
            }
            if j > 0 {
                assert(insert_desc(r, s)[j] == t[j - 1]);
                lemma_insert_desc_elems(r, s.drop_first(), j - 1);
                if i == 0 {
                    if t[j - 1] == r {
                    } else {
                        let k = choose|k: int|
                            0 <= k < s.drop_first().len() && s.drop_first()[k] == t[j - 1];
                        assert(amount_of(s[0]) >= amount_of(s[k + 1]));
                    }
                }
            }
        }
    }
}

/// Law: the sorted rows are non-increasing by amount.
pub proof fn lemma_sort_desc_sorted(s: Seq<DetailView>)
    ensures
        sorted_desc(sort_desc(s)),
    decreases s.len(),
{
    if s.len() > 0 {
        lemma_sort_desc_sorted(s.drop_first());
        lemma_insert_desc_sorted(s[0], sort_desc(s.drop_first()));
    }
}

/// Sorting keeps every amount present.
pub proof fn lemma_sort_preserves_amounts(s: Seq<DetailView>)
    requires
        all_amounts_present(s),
    ensures
        all_amounts_present(sort_desc(s)),
{
    broadcast use vstd::seq_lib::group_to_multiset_ensures;

    lemma_sort_desc_permutes(s);
    assert forall|i: int|
        0 <= i < sort_desc(s).len() implies (#[trigger] sort_desc(
        s,
    )[i]).compensation_amount is Some by {
        let r = sort_desc(s)[i];
        assert(sort_desc(s).contains(r));
        assert(sort_desc(s).to_multiset().count(r) > 0);
        assert(s.contains(r));
    }
}

/// Law: every derived report row carries the link templated from its
/// opening id; the report row itself holds no opening id.
pub proof fn lemma_links_template(s: Seq<DetailView>)
    ensures
        link_views(s).len() == s.len(),
        forall|i: int| 0 <= i < s.len() ==> (#[trigger] link_views(s)[i]).link == link_of(
            s[i].opening_id,
        ),
{
}

/// Law: the report rows that the whole transform yields are sorted by
/// amount, largest first.
pub proof fn lemma_pipeline_sorted(details: Seq<OpeningResponse>)
    ensures
        forall|i: int, j: int|
            0 <= i <= j < pipeline_views(details).len() ==> (#[trigger] pipeline_views(
                details,
            )[i]).compensation_amount >= (#[trigger] pipeline_views(details)[j]).compensation_amount,
{
    let sorted = sort_desc(kept_views(normalize_views(build_views(details))));
    lemma_sort_desc_sorted(kept_views(normalize_views(build_views(details))));
    assert forall|i: int, j: int|
        0 <= i <= j < pipeline_views(details).len() implies (#[trigger] pipeline_views(
        details,
    )[i]).compensation_amount >= (#[trigger] pipeline_views(
        details,
    )[j]).compensation_amount by {
        assert(pipeline_views(details)[i] == report_view_of(sorted[i]));
        assert(pipeline_views(details)[j] == report_view_of(sorted[j]));
        assert(amount_of(sorted[i]) >= amount_of(sorted[j]));
    }
}

/// Builds one working row per detail record: description, title and opening
/// id verbatim, the compensation type's string pulled out of its record, the
/// amount as given.
pub fn build_rows(details: &Vec<OpeningResponse>) -> (rows: Vec<DetailRow>)
    ensures
        detail_views(rows@) == build_views(details@),
{
    let mut rows: Vec<DetailRow> = Vec::new();
    let n = details.len();
    for i in 0..n
        invariant
            n == details@.len(),
            detail_views(rows@) == build_views(details@.subrange(0, i as int)),
    {
        let d = &details[i];
        let row = DetailRow {
            description: match &d.description {
                Some(s) => Some(s.clone()),
                None => None,
            },
            title: d.title.clone(),
            opening_id: d.opening_id,
            compensation_type: match &d.compensation_type {
                Some(ct) => Some(ct.compensation_type.clone()),
                None => None,
            },
            compensation_amount: d.compensation_amount,
        };
        proof {
            assert(row@ =~= detail_view_of(details@[i as int]));
        }
        let ghost pre = rows@;
        rows.push(row);
        proof {
            lemma_detail_views_push(pre, row);
            assert(details@.subrange(0, i + 1) =~= details@.subrange(0, i as int).push(
                details@[i as int],
            ));
            lemma_build_views_push(details@.subrange(0, i as int), details@[i as int]);
            assert(detail_views(rows@) == build_views(details@.subrange(0, i + 1)));
        }
    }
    proof {
        assert(details@.subrange(0, n as int) =~= details@);
    }
    rows
}

/// Applies the unit-normalization rule to every row.
pub fn normalize_rows(rows: &Vec<DetailRow>) -> (out: Vec<DetailRow>)
    requires
        amounts_fit(detail_views(rows@)),
    ensures
        detail_views(out@) == normalize_views(detail_views(rows@)),
{
    let day = String::from_str("บาท/วัน");
    let month = String::from_str("บาท/เดือน");
    let mut out: Vec<DetailRow> = Vec::new();
    let n = rows.len();
    for i in 0..n
        invariant
            n == rows@.len(),
            day@ == day_rate_label(),
            month@ == month_rate_label(),
            amounts_fit(detail_views(rows@)),
            detail_views(out@) == normalize_views(detail_views(rows@).subrange(0, i as int)),
    {
        let r = &rows[i];
        let ghost rv = detail_views(rows@)[i as int];
        let triggered = match (&r.compensation_amount, &r.compensation_type) {
            (Some(_), Some(t)) => *t == day,
            _ => false,
        };
        proof {
            assert(rv == rows@[i as int]@);
            assert(triggered == is_day_rate(rv));
        }
        let row = if triggered {
            let a = r.compensation_amount.unwrap();
            proof {
                assert(is_day_rate(detail_views(rows@)[i as int]));
                assert((a as int) * 20 <= u32::MAX as int);
            }
            DetailRow {
                description: match &r.description {
                    Some(s) => Some(s.clone()),
                    None => None,
                },
                title: r.title.clone(),
                opening_id: r.opening_id,
                compensation_type: Some(month.clone()),
                compensation_amount: Some(a * 20),
            }
        } else {
            DetailRow {
                description: match &r.description {
                    Some(s) => Some(s.clone()),
                    None => None,
                },
                title: r.title.clone(),
                opening_id: r.opening_id,
                compensation_type: match &r.compensation_type {
                    Some(t) => Some(t.clone()),
                    None => None,
                },
                compensation_amount: r.compensation_amount,
            }
        };
        proof {
            assert(row@ =~= normalize_view(rv));
        }
        let ghost pre = out@;
        out.push(row);
        proof {
            lemma_detail_views_push(pre, row);
            let s = detail_views(rows@);
            assert(s.subrange(0, i + 1) =~= s.subrange(0, i as int).push(s[i as int]));
            lemma_normalize_views_push(s.subrange(0, i as int), s[i as int]);
            assert(detail_views(out@) == normalize_views(s.subrange(0, i + 1)));
        }
    }
    proof {
        assert(detail_views(rows@).subrange(0, n as int) =~= detail_views(rows@));
    }
    out
}

/// Drops every row whose amount is missing; all others stay, in order.
pub fn drop_missing(rows: &Vec<DetailRow>) -> (out: Vec<DetailRow>)
    ensures
        detail_views(out@) == kept_views(detail_views(rows@)),
{
    let mut out: Vec<DetailRow> = Vec::new();
    let n = rows.len();
    for i in 0..n
        invariant
            n == rows@.len(),
            detail_views(out@) == kept_views(detail_views(rows@).subrange(0, i as int)),
    {
        let r = &rows[i];
        if r.compensation_amount.is_some() {
            let row = DetailRow {
                description: match &r.description {
                    Some(s) => Some(s.clone()),
                    None => None,
                },
                title: r.title.clone(),
                opening_id: r.opening_id,
                compensation_type: match &r.compensation_type {
                    Some(t) => Some(t.clone()),
                    None => None,
                },
                compensation_amount: r.compensation_amount,
            };
            proof {
                assert(row@ =~= rows@[i as int]@);
            }
            out.push(row);
        }
        proof {
            let s = detail_views(rows@);
            assert(s.subrange(0, i + 1).drop_last() =~= s.subrange(0, i as int));
            assert(s.subrange(0, i + 1).last() == s[i as int]);
            assert(detail_views(out@) =~= kept_views(s.subrange(0, i + 1)));
        }
    }
    proof {
        assert(detail_views(rows@).subrange(0, n as int) =~= detail_views(rows@));
    }
    out
}

fn amount_at(v: &Vec<DetailRow>, j: usize) -> (a: u32)
    requires
        j < v@.len(),
        all_amounts_present(detail_views(v@)),
    ensures
        a == amount_of(detail_views(v@)[j as int]),
{
    proof {
        assert(detail_views(v@)[j as int] == v@[j as int]@);
    }
    v[j].compensation_amount.unwrap()
}

/// Inserts a row into a run sorted non-increasing by amount, before the
/// first row whose amount is not larger.
fn insert_sorted(r: DetailRow, out: Vec<DetailRow>) -> (res: Vec<DetailRow>)
    requires
        r@.compensation_amount is Some,
        all_amounts_present(detail_views(out@)),
    ensures
        detail_views(res@) == insert_desc(r@, detail_views(out@)),
        all_amounts_present(detail_views(res@)),
{
    let ghost pre = detail_views(out@);
    let ra = r.compensation_amount.unwrap();
    let mut j: usize = 0;
    while j < out.len() && amount_at(&out, j) > ra
        invariant
            j <= out@.len(),
            all_amounts_present(detail_views(out@)),
            forall|k: int| 0 <= k < j ==> amount_of(#[trigger] detail_views(out@)[k]) > ra,
        decreases out@.len() - j,
    {
        j += 1;
    }
    let mut res = out;
    res.insert(j, r);
    proof {
        assert(ra == amount_of(r@));
        lemma_insert_desc_at(r@, pre, j as int);
        assert(detail_views(res@) =~= pre.insert(j as int, r@));
        assert(all_amounts_present(detail_views(res@))) by {
            assert forall|k: int|
                0 <= k < detail_views(res@).len() implies (#[trigger] detail_views(
                res@,
            )[k]).compensation_amount is Some by {
                if k < j {
                    assert(detail_views(res@)[k] == pre[k]);
                } else if k == j {
                    assert(detail_views(res@)[k] == r@);
                } else {
                    assert(detail_views(res@)[k] == pre[k - 1]);
                }
            }
        }
    }
    res
}

/// Sorts the rows by amount, largest first; rows of equal amount keep their
/// relative order (stable sort).
pub fn sort_rows(rows: Vec<DetailRow>) -> (out: Vec<DetailRow>)
    requires
        all_amounts_present(detail_views(rows@)),
    ensures
        detail_views(out@) == sort_desc(detail_views(rows@)),
        sorted_desc(detail_views(out@)),
{
    let ghost orig = detail_views(rows@);
    let mut work = rows;
    let mut out: Vec<DetailRow> = Vec::new();
    while work.len() > 0
        invariant
            work@.len() <= orig.len(),
            detail_views(work@) == orig.subrange(0, work@.len() as int),
            detail_views(out@) == sort_desc(
                orig.subrange(work@.len() as int, orig.len() as int),
            ),
            all_amounts_present(orig),
            all_amounts_present(detail_views(out@)),
        decreases work@.len(),
    {
        let ghost l = work@.len() as int;
        let ghost pw = work@;
        let r = work.pop().unwrap();
        proof {
            assert(detail_views(pw)[l - 1] == pw[l - 1]@);
            assert(r@ == orig[l - 1]);
            assert(work@ =~= pw.drop_last());
            assert forall|k: int| 0 <= k < l - 1 implies work@[k]@ == orig[k] by {
                assert(detail_views(pw)[k] == pw[k]@);
                assert(orig.subrange(0, l)[k] == orig[k]);
            }
            assert(detail_views(work@) =~= orig.subrange(0, l - 1));
        }
        out = insert_sorted(r, out);
        proof {
            let tail = orig.subrange(l, orig.len() as int);
            let tail1 = orig.subrange(l - 1, orig.len() as int);
            assert(tail1.len() > 0);
            assert(tail1[0] == orig[l - 1]);
            assert(tail1.drop_first() =~= tail);
            assert(sort_desc(tail1) == insert_desc(orig[l - 1], sort_desc(tail)));
        }
    }
    proof {
        assert(orig.subrange(0, orig.len() as int) =~= orig);
        lemma_sort_desc_sorted(orig);
    }
    out
}

/// Derives the link of every row from its opening id and drops the id.
pub fn derive_links(rows: &Vec<DetailRow>) -> (out: Vec<ReportRow>)
    requires
        all_amounts_present(detail_views(rows@)),
    ensures
        report_views(out@) == link_views(detail_views(rows@)),
{
    let mut out: Vec<ReportRow> = Vec::new();
    let n = rows.len();
    for i in 0..n
        invariant
            n == rows@.len(),
            all_amounts_present(detail_views(rows@)),
            report_views(out@) == link_views(detail_views(rows@).subrange(0, i as int)),
    {
        let r = &rows[i];
        let mut link = String::from_str("https://cedtintern.cp.eng.chula.ac.th/opening/");
        append_dec(&mut link, r.opening_id);
        link.append("/session/3");
        proof {
            assert(detail_views(rows@)[i as int].compensation_amount is Some);
            assert(link@ == link_of(rows@[i as int].opening_id));
        }
        let row = ReportRow {
            description: match &r.description {
                Some(s) => Some(s.clone()),
                None => None,
            },
            title: r.title.clone(),
            compensation_type: match &r.compensation_type {
                Some(t) => Some(t.clone()),
                None => None,
            },
            compensation_amount: r.compensation_amount.unwrap(),
            link,
        };
        proof {
            assert(row@ =~= report_view_of(rows@[i as int]@));
        }
        let ghost pre = out@;
        out.push(row);
        proof {
            lemma_report_views_push(pre, row);
            let s = detail_views(rows@);
            assert(s.subrange(0, i + 1) =~= s.subrange(0, i as int).push(s[i as int]));
            lemma_link_views_push(s.subrange(0, i as int), s[i as int]);
            assert(report_views(out@) == link_views(s.subrange(0, i + 1)));
        }
    }
    proof {
        assert(detail_views(rows@).subrange(0, n as int) =~= detail_views(rows@));
    }
    out
}

/// The whole transform, detail records to report rows: build the working
/// rows, normalize daily pay, drop rows without an amount, sort by amount
/// descending, derive the links.
pub fn transform(details: &Vec<OpeningResponse>) -> (rows: Vec<ReportRow>)
    requires
        amounts_fit(build_views(details@)),
    ensures
        report_views(rows@) == pipeline_views(details@),
{
    let built = build_rows(details);
    let normed = normalize_rows(&built);
    let kept = drop_missing(&normed);
    proof {
        lemma_no_missing_amount(detail_views(normed@));
    }
    let sorted = sort_rows(kept);
    proof {
        lemma_sort_preserves_amounts(kept_views(detail_views(normed@)));
    }
    derive_links(&sorted)
}

} // verus!
