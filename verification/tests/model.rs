use sap_time_extractor::pdf::{extract_text, join_page_texts, page_texts, PageText};
use sap_time_extractor::{extract_time_data, place_of_exec, Decimal, Place, TimeLine, TimeType};

fn dec(i: &str, f: &str) -> Decimal {
    Decimal { integer: i.to_string(), fraction: f.to_string() }
}

fn line(day: &str, hours: Decimal, kind: TimeType) -> TimeLine {
    TimeLine { day: day.to_string(), time: hours, time_pause_deducted: dec("0", "0"), timeType: kind }
}

#[test]
fn hours_split_by_place_in_order() {
    let times = vec![
        line("01MO", dec("8", "00"), TimeType::ONSITE),
        line("02TU", dec("6", "00"), TimeType::WFH),
        line("cont'd", dec("2", "50"), TimeType::REM),
        line("03WE", dec("4", "00"), TimeType::TRAVEL),
        line("04TH", dec("0", "0"), TimeType::OFF),
        line("na", dec("0", "0"), TimeType::NA),
        line("05FR", dec("7", "25"), TimeType::WFH),
    ];
    let split = extract_time_data(times.clone());
    assert_eq!(split.office, vec![dec("8", "00"), dec("2", "50")]);
    assert_eq!(split.home, vec![dec("6", "00"), dec("7", "25")]);
    assert_eq!(split.travel, vec![dec("4", "00")]);
    assert_eq!(split.times, times);
    // Every line is counted at most once; days off and weekly totals nowhere.
    assert_eq!(split.office.len() + split.home.len() + split.travel.len() + 2, times.len());
}

#[test]
fn hours_split_of_no_lines_is_empty() {
    let split = extract_time_data(vec![]);
    assert!(split.office.is_empty() && split.home.is_empty() && split.travel.is_empty());
    assert!(split.times.is_empty());
}

#[test]
fn places_of_kinds() {
    assert_eq!(place_of_exec(TimeType::ONSITE), Some(Place::Office));
    assert_eq!(place_of_exec(TimeType::REM), Some(Place::Office));
    assert_eq!(place_of_exec(TimeType::WFH), Some(Place::Home));
    assert_eq!(place_of_exec(TimeType::TRAVEL), Some(Place::Travel));
    assert_eq!(place_of_exec(TimeType::OFF), None);
    assert_eq!(place_of_exec(TimeType::NA), None);
}

#[test]
fn labels_name_kinds_in_any_case() {
    assert_eq!(TimeType::from_label("Business absence"), Some(TimeType::TRAVEL));
    assert_eq!(TimeType::from_label("WORKING FROM HOME"), Some(TimeType::WFH));
    assert_eq!(TimeType::from_label("Terminal-ID"), Some(TimeType::ONSITE));
    assert_eq!(TimeType::from_label("working Remotely"), Some(TimeType::REM));
    assert_eq!(TimeType::from_label("Employee not present"), Some(TimeType::OFF));
    assert_eq!(TimeType::from_label("Not applicable"), Some(TimeType::NA));
    assert_eq!(TimeType::from_label("Wor\u{212A}ing from home"), Some(TimeType::WFH));
    assert_eq!(TimeType::from_label("Working from ho"), None);
    assert_eq!(TimeType::from_label(""), None);
    assert_eq!(TimeType::default(), TimeType::ONSITE);
    assert_eq!(TimeType::from_lower_case_label("working remotely"), Some(TimeType::REM));
    assert_eq!(TimeType::from_lower_case_label("Working remotely"), None);
}

#[test]
fn default_line_is_empty_zero_onsite() {
    assert_eq!(TimeLine::default(), line("", dec("0", "0"), TimeType::ONSITE));
    assert_eq!(Decimal::default(), dec("0", "0"));
}

#[test]
fn decimal_zero_and_copy() {
    assert_eq!(Decimal::zero(), dec("0", "0"));
    let d = dec("12", "75");
    assert_eq!(d.copied(), d);
}

#[test]
fn page_texts_join_in_order() {
    let texts = vec![
        PageText { number: 1, text: Some("page one\n".to_string()) },
        PageText { number: 2, text: None },
        PageText { number: 3, text: Some("page three".to_string()) },
    ];
    assert_eq!(join_page_texts(texts), "page one\npage three");
    assert_eq!(join_page_texts(vec![]), "");
}

#[test]
fn bytes_that_are_no_pdf_give_no_text() {
    assert_eq!(extract_text(b"this is not a PDF document"), None);
    assert_eq!(extract_text(b""), None);
    assert!(page_texts(b"not a PDF").is_none());
}
