//! Rendering the report rows as JSON text: a verified compact rendering,
//! then pretty-printing through the `jsonxf` crate.

use vstd::prelude::*;
use crate::model::{OpeningResponse, ReportRow, ReportView, report_views, view_opt};
use crate::text::{escaped, append_escaped, dec_of, append_dec};
use crate::transform::{pipeline_views, transform, amounts_fit, build_views};

verus! {

/// What `jsonxf::pretty_print` returns for a given JSON text.
pub uninterp spec fn pretty_of(s: Seq<char>) -> Seq<char>;

/// Relies on `jsonxf::pretty_print`: a pure reformatting of the JSON text it
/// is given, two-space indent, one value per line; the result is a function
/// of that text alone. On a string input it always succeeds: it reads the
/// bytes infallibly, writes into a vector infallibly, and keeps the text
/// valid UTF-8, inserting only ASCII whitespace.
#[verifier::external_body]
fn pretty_print(compact: &String) -> (r: Result<String, String>)
    ensures
        r is Ok,
        r matches Ok(p) ==> p@ == pretty_of(compact@),
{
    jsonxf::pretty_print(compact.as_str())
}

/// One optional text as a JSON value: a quoted, escaped string, or null.
pub open spec fn json_opt_string(o: Option<Seq<char>>) -> Seq<char> {
    match o {
        Some(s) => seq!['"'] + escaped(s) + seq!['"'],
        None => "null"@,
    }
}

/// One report row as a compact JSON object, keys in report order.
pub open spec fn json_row(r: ReportView) -> Seq<char> {
    "{\"description\":"@ + json_opt_string(r.description) + ",\"title\":\""@ + escaped(r.title)
        + "\",\"compensationType\":"@ + json_opt_string(r.compensation_type)
        + ",\"compensationAmount\":"@ + dec_of(r.compensation_amount as int) + ",\"link\":\""@
        + escaped(r.link) + "\"}"@
}

/// The rows as the inside of one compact JSON array, in order, separated by
/// commas.
pub open spec fn json_rows(s: Seq<ReportView>) -> Seq<char>
    decreases s.len(),
{
    if s.len() == 0 {
        Seq::empty()
    } else {
        json_rows(s.drop_last()) + (if s.len() == 1 {
            Seq::<char>::empty()
        } else {
            ","@
        }) + json_row(s.last())
    }
}

/// The compact JSON text of the whole report.
pub open spec fn compact_json(s: Seq<ReportView>) -> Seq<char> {
    "["@ + json_rows(s) + "]"@
}

/// The pretty-printed report text.
pub open spec fn export_text(s: Seq<ReportView>) -> Seq<char> {
    pretty_of(compact_json(s))
}

fn append_opt_string(out: &mut String, o: &Option<String>)
    ensures
        final(out)@ == old(out)@ + json_opt_string(view_opt(*o)),
{
    let ghost base = old(out)@;
    match o {
        Some(s) => {
            out.push('"');
            append_escaped(out, s.as_str());
            out.push('"');
            assert(out@ =~= base + json_opt_string(view_opt(*o)));
        },
        None => {
            out.append("null");
        },
    }
}

fn append_row(out: &mut String, r: &ReportRow)
    ensures
        final(out)@ == old(out)@ + json_row(r@),
{
    let ghost base = old(out)@;
    out.append("{\"description\":");
    append_opt_string(out, &r.description);
    out.append(",\"title\":\"");
    append_escaped(out, r.title.as_str());
    out.append("\",\"compensationType\":");
    append_opt_string(out, &r.compensation_type);
    out.append(",\"compensationAmount\":");
    append_dec(out, r.compensation_amount);
    out.append(",\"link\":\"");
    append_escaped(out, r.link.as_str());
    out.append("\"}");
    proof {
        assert(out@ =~= base + json_row(r@));
    }
}

/// Renders the report rows as one compact JSON array of objects.
pub fn render_compact_json(rows: &Vec<ReportRow>) -> (out: String)
    ensures
        out@ == compact_json(report_views(rows@)),
{
    let mut out = String::from_str("[");
    let n = rows.len();
    for i in 0..n
        invariant
            n == rows@.len(),
            out@ == "["@ + json_rows(report_views(rows@).subrange(0, i as int)),
    {
        if i > 0 {
            out.append(",");
        }
        append_row(&mut out, &rows[i]);
        proof {
            let s = report_views(rows@);
            assert(s.subrange(0, i + 1).drop_last() =~= s.subrange(0, i as int));
            assert(s.subrange(0, i + 1).last() == s[i as int]);
            assert(s[i as int] == rows@[i as int]@);
            if i == 0 {
                assert(json_rows(s.subrange(0, 1)) == json_rows(s.subrange(0, 0))
                    + Seq::<char>::empty() + json_row(s[0]));
                assert(out@ =~= "["@ + json_rows(s.subrange(0, 1)));
            } else {
                assert(out@ =~= "["@ + json_rows(s.subrange(0, i + 1)));
            }
        }
    }
    proof {
        assert(report_views(rows@).subrange(0, n as int) =~= report_views(rows@));
    }
    out.append("]");
    proof {
        assert(out@ =~= compact_json(report_views(rows@)));
    }
    out
}

/// Renders the rows compactly and pretty-prints the result. Exporting the
/// same row sequence twice yields byte-identical text: the result is a
/// function of the rows alone.
pub fn export_report(rows: &Vec<ReportRow>) -> (r: String)
    ensures
        r@ == export_text(report_views(rows@)),
{
    let compact = render_compact_json(rows);
    pretty_print(&compact).unwrap()
}

/// The transform and the export in one step: detail records in, the
/// pretty-printed report text out.
pub fn report_json(details: &Vec<OpeningResponse>) -> (r: String)
    requires
        amounts_fit(build_views(details@)),
    ensures
        r@ == export_text(pipeline_views(details@)),
{
    let rows = transform(details);
    export_report(&rows)
}

} // verus!
