use opening_report::export::{export_report, render_compact_json, report_json};
use opening_report::model::{CompensationType, OpeningResponse, ReportRow};
use opening_report::transform::transform;

fn detail(
    opening_id: u32,
    title: &str,
    description: Option<&str>,
    compensation_amount: Option<u32>,
    compensation_type: Option<&str>,
) -> OpeningResponse {
    OpeningResponse {
        opening_id,
        title: title.to_string(),
        description: description.map(|d| d.to_string()),
        compensation_amount,
        compensation_type: compensation_type.map(|t| CompensationType {
            compensation_type_id: 1,
            compensation_type: t.to_string(),
        }),
        working_condition: None,
    }
}

#[test]
fn day_rate_is_normalized_to_month() {
    let rows = transform(&vec![detail(7, "a", None, Some(100), Some("บาท/วัน"))]);
    assert_eq!(rows.len(), 1);
    assert_eq!(rows[0].compensation_amount, 2000);
    assert_eq!(rows[0].compensation_type, Some("บาท/เดือน".to_string()));
}

#[test]
fn other_labels_are_untouched() {
    let rows = transform(&vec![detail(7, "a", None, Some(100), Some("บาท/เดือน"))]);
    assert_eq!(rows.len(), 1);
    assert_eq!(rows[0].compensation_amount, 100);
    assert_eq!(rows[0].compensation_type, Some("บาท/เดือน".to_string()));
}

#[test]
fn missing_label_keeps_amount() {
    let rows = transform(&vec![detail(7, "a", None, Some(150), None)]);
    assert_eq!(rows.len(), 1);
    assert_eq!(rows[0].compensation_amount, 150);
    assert_eq!(rows[0].compensation_type, None);
}

#[test]
fn row_without_amount_is_dropped() {
    let rows = transform(&vec![detail(7, "a", Some("d"), None, Some("บาท/วัน"))]);
    assert_eq!(rows.len(), 0);
}

#[test]
fn rows_are_sorted_descending_by_amount() {
    let rows = transform(&vec![
        detail(1, "low", None, Some(100), None),
        detail(2, "high", None, Some(900), None),
        detail(3, "mid", None, Some(500), None),
    ]);
    let amounts: Vec<u32> = rows.iter().map(|r| r.compensation_amount).collect();
    assert_eq!(amounts, vec![900, 500, 100]);
}

#[test]
fn equal_amounts_keep_their_order() {
    let rows = transform(&vec![
        detail(1, "first", None, Some(100), None),
        detail(2, "top", None, Some(200), None),
        detail(3, "second", None, Some(100), None),
    ]);
    let titles: Vec<&str> = rows.iter().map(|r| r.title.as_str()).collect();
    assert_eq!(titles, vec!["top", "first", "second"]);
}

#[test]
fn link_is_derived_from_opening_id() {
    let rows = transform(&vec![detail(42, "a", None, Some(1), None)]);
    assert_eq!(
        rows[0].link,
        "https://cedtintern.cp.eng.chula.ac.th/opening/42/session/3"
    );
}

#[test]
fn two_openings_normalized_sorted_and_linked() {
    let rows = transform(&vec![
        detail(1, "t1", None, Some(100), Some("บาท/วัน")),
        detail(2, "t2", None, Some(500), Some("บาท/เดือน")),
    ]);
    assert_eq!(rows.len(), 2);
    assert_eq!(rows[0].compensation_amount, 2000);
    assert_eq!(rows[0].title, "t1");
    assert_eq!(rows[0].compensation_type, Some("บาท/เดือน".to_string()));
    assert_eq!(
        rows[0].link,
        "https://cedtintern.cp.eng.chula.ac.th/opening/1/session/3"
    );
    assert_eq!(rows[1].compensation_amount, 500);
    assert_eq!(rows[1].title, "t2");
    assert_eq!(
        rows[1].link,
        "https://cedtintern.cp.eng.chula.ac.th/opening/2/session/3"
    );
}

#[test]
fn compact_json_shapes_one_row() {
    let row = ReportRow {
        description: None,
        title: "a".to_string(),
        compensation_type: None,
        compensation_amount: 7,
        link: "https://cedtintern.cp.eng.chula.ac.th/opening/9/session/3".to_string(),
    };
    let compact = render_compact_json(&vec![row]);
    assert_eq!(
        compact,
        "[{\"description\":null,\"title\":\"a\",\"compensationType\":null,\
         \"compensationAmount\":7,\
         \"link\":\"https://cedtintern.cp.eng.chula.ac.th/opening/9/session/3\"}]"
    );
}

#[test]
fn compact_json_escapes_text() {
    let row = ReportRow {
        description: Some("line one\nline \"two\" \\ end".to_string()),
        title: "t\tt".to_string(),
        compensation_type: None,
        compensation_amount: 1,
        link: "x".to_string(),
    };
    let compact = render_compact_json(&vec![row]);
    assert_eq!(
        compact,
        "[{\"description\":\"line one\\nline \\\"two\\\" \\\\ end\",\
         \"title\":\"t\\tt\",\"compensationType\":null,\
         \"compensationAmount\":1,\"link\":\"x\"}]"
    );
}

#[test]
fn empty_report_exports_as_empty_array() {
    let text = export_report(&vec![]);
    assert_eq!(text, "[]");
}

#[test]
fn export_pretty_prints_the_report() {
    let details = vec![
        detail(1, "t1", None, Some(100), Some("บาท/วัน")),
        detail(2, "t2", Some("d2"), Some(500), Some("บาท/เดือน")),
    ];
    let text = report_json(&details);
    let expected = "[\n\
        \x20 {\n\
        \x20   \"description\": null,\n\
        \x20   \"title\": \"t1\",\n\
        \x20   \"compensationType\": \"บาท/เดือน\",\n\
        \x20   \"compensationAmount\": 2000,\n\
        \x20   \"link\": \"https://cedtintern.cp.eng.chula.ac.th/opening/1/session/3\"\n\
        \x20 },\n\
        \x20 {\n\
        \x20   \"description\": \"d2\",\n\
        \x20   \"title\": \"t2\",\n\
        \x20   \"compensationType\": \"บาท/เดือน\",\n\
        \x20   \"compensationAmount\": 500,\n\
        \x20   \"link\": \"https://cedtintern.cp.eng.chula.ac.th/opening/2/session/3\"\n\
        \x20 }\n\
        ]";
    assert_eq!(text, expected);
    assert!(!text.contains("openingId"));
}

#[test]
fn exporting_twice_is_byte_identical() {
    let rows = transform(&vec![
        detail(1, "t1", None, Some(100), Some("บาท/วัน")),
        detail(2, "t2", None, Some(500), None),
    ]);
    let first = export_report(&rows);
    let second = export_report(&rows);
    assert_eq!(first.into_bytes(), second.into_bytes());
}
