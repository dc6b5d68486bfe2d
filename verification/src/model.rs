//! Data shapes of the report pipeline: the detail record the openings
//! endpoint reports, the working row of the transform, the final report row,
//! and their mathematical images.

use vstd::prelude::*;

verus! {

/// The compensation classification of one opening.
pub struct CompensationType {
    pub compensation_type_id: u32,
    pub compensation_type: String,
}

/// Full detail of one opening as the detail endpoint reports it.
pub struct OpeningResponse {
    pub opening_id: u32,
    pub title: String,
    pub description: Option<String>,
    pub compensation_amount: Option<u32>,
    pub compensation_type: Option<CompensationType>,
    pub working_condition: Option<String>,
}

/// One working row of the transform: the consumed detail fields plus the
/// opening id, which only serves to derive the link later.
pub struct DetailRow {
    pub description: Option<String>,
    pub title: String,
    pub opening_id: u32,
    pub compensation_type: Option<String>,
    pub compensation_amount: Option<u32>,
}

/// One row of the final report. It has no opening-id field: the id survives
/// only inside the derived link.
pub struct ReportRow {
    pub description: Option<String>,
    pub title: String,
    pub compensation_type: Option<String>,
    pub compensation_amount: u32,
    pub link: String,
}

/// Mathematical image of a `DetailRow`: every text as a character sequence.
#[verifier::ext_equal]
pub ghost struct DetailView {
    pub description: Option<Seq<char>>,
    pub title: Seq<char>,
    pub opening_id: u32,
    pub compensation_type: Option<Seq<char>>,
    pub compensation_amount: Option<u32>,
}

/// Mathematical image of a `ReportRow`.
#[verifier::ext_equal]
pub ghost struct ReportView {
    pub description: Option<Seq<char>>,
    pub title: Seq<char>,
    pub compensation_type: Option<Seq<char>>,
    pub compensation_amount: u32,
    pub link: Seq<char>,
}

/// The character sequence of an optional text.
pub open spec fn view_opt(o: Option<String>) -> Option<Seq<char>> {
    match o {
        Some(s) => Some(s@),
        None => None,
    }
}

impl View for DetailRow {
    type V = DetailView;

    open spec fn view(&self) -> DetailView {
        DetailView {
            description: view_opt(self.description),
            title: self.title@,
            opening_id: self.opening_id,
            compensation_type: view_opt(self.compensation_type),
            compensation_amount: self.compensation_amount,
        }
    }
}

impl View for ReportRow {
    type V = ReportView;

    open spec fn view(&self) -> ReportView {
        ReportView {
            description: view_opt(self.description),
            title: self.title@,
            compensation_type: view_opt(self.compensation_type),
            compensation_amount: self.compensation_amount,
            link: self.link@,
        }
    }
}

/// The image of one detail record as a working row: description, title and
/// opening id verbatim, the compensation type's string pulled out of its
/// record, the amount as given.
pub open spec fn detail_view_of(o: OpeningResponse) -> DetailView {
    DetailView {
        description: view_opt(o.description),
        title: o.title@,
        opening_id: o.opening_id,
        compensation_type: match o.compensation_type {
            Some(ct) => Some(ct.compensation_type@),
            None => None,
        },
        compensation_amount: o.compensation_amount,
    }
}

/// The images of a sequence of working rows.
pub open spec fn detail_views(rows: Seq<DetailRow>) -> Seq<DetailView> {
    rows.map_values(|r: DetailRow| r@)
}

/// The images of a sequence of report rows.
pub open spec fn report_views(rows: Seq<ReportRow>) -> Seq<ReportView> {
    rows.map_values(|r: ReportRow| r@)
}

/// The compensation label that names a daily rate.
pub open spec fn day_rate_label() -> Seq<char> {
    "บาท/วัน"@
}

/// The compensation label that names a monthly rate.
pub open spec fn month_rate_label() -> Seq<char> {
    "บาท/เดือน"@
}

} // verus!
