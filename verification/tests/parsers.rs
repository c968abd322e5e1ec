use sap_time_extractor::parsers::{
    nbr_comma_new, not_relevant, number_from_comma, parse_timeline, parse_timeline__many0,
    parse_timeline_many0_or_trap, parse_timeline_or_trap, parse_timeline_single, parse_untill_dws,
    parse_weekly, terminal_id, terminal_id_alt, terminal_number, terminal_slot, time, time_space_new,
    timeline, timeline0, timeline00, timeline0_alt, timeline_absence, timeline_absence_0,
    timeline_absence_1, timeline_alt, timetype, ParseError,
};
use nom::branch::alt;
use nom::bytes::complete::{is_not, tag, take_until};
use nom::character::complete::digit1;
use sap_time_extractor::{ClockTime, Decimal, TimeLine, TimeType};

fn dec(i: &str, f: &str) -> Decimal {
    Decimal { integer: i.to_string(), fraction: f.to_string() }
}

fn line(day: &str, time: Decimal, pause: Decimal, kind: TimeType) -> TimeLine {
    TimeLine { day: day.to_string(), time, time_pause_deducted: pause, timeType: kind }
}

fn as_f32(d: &Decimal) -> f32 {
    (d.integer.clone() + "." + &d.fraction).parse().unwrap()
}

#[test]
fn test_not_relevant() {
    assert_eq!(not_relevant("abcd efg"), Ok((" efg", "abcd")));
    assert_eq!(not_relevant("abcd\tefg"), Ok(("\tefg", "abcd")));
}

#[test]
fn test_time() {
    let expected = time::Time::from_hms(8, 56, 0).unwrap();
    let (rest, t) = time("08:56").unwrap();
    assert_eq!(rest, "");
    assert_eq!((t.hour, t.minute), (expected.hour(), expected.minute()));
    assert_eq!(time("08:56"), Ok(("", ClockTime { hour: 8, minute: 56 })));
}

#[test]
fn test_number_from_comma() {
    let (rest, d) = number_from_comma("7,50").unwrap();
    assert_eq!(rest, "");
    assert_eq!(as_f32(&d), 7.50);
    assert_eq!(d, dec("7", "50"));
}

#[test]
fn test_terminal_number() {
    let _line = "2012 / 2012 07:53   16:40       8,78       8,28       0,28 TZR";
    let _line0 = "2015 /  08:31   17:38      9,11      8,61     0,61 TZR";
    let _line1 = " / 2009  08:00  16:17  8,30   7,80   0,20- TZR";
    let _line2 = "Terminal-ID : 2015 /  08:31   17:38      9,11      8,61     0,61 TZR";
    assert_eq!(terminal_number(_line1), Ok(("/ 2009  08:00  16:17  8,30   7,80   0,20- TZR", " ")));
    assert_eq!(terminal_number(_line0), Ok((" /  08:31   17:38      9,11      8,61     0,61 TZR", "2015")));
}

#[test]
fn test_terminal_id() {
    let _line = "Terminal-ID : 2012 / 2012 07:53   16:40       8,78       8,28       0,28 TZR";
    let _line0 = "Terminal-ID : 2015 /  08:31   17:38      9,11      8,61     0,61 TZR";
    let _line1 = "Terminal-ID :  / 2009  08:00  16:17  8,30   7,80   0,20- TZR";
    let _line2 = "Terminal-ID : 2015 /  08:31   17:38      9,11      8,61     0,61 TZR";
    let _line3 = "Terminal-ID : 2009 / \n 07:51\n 17:08\n 9,28 \n 8,78 \n 0,78 \nTZR \n04\nFR\nWorking from home\n";
    assert_eq!(
        terminal_id(_line),
        Ok((" 07:53   16:40       8,78       8,28       0,28 TZR", "Terminal-ID"))
    );
    assert_eq!(
        terminal_id_alt(_line3),
        Ok(("\n 07:51\n 17:08\n 9,28 \n 8,78 \n 0,78 \nTZR \n04\nFR\nWorking from home\n", "Terminal-ID"))
    );
}

#[test]
fn test_line() {
    let _line = "05 WE    Working remotely                                08:00         13:00         5,00           7,50        0,50- TZR";
    let _line0 = "        Working remotely                                08:00         13:00         5,00           7,50        0,50- TZR";
    println!("{:?}", timeline(_line).unwrap());
    println!("{:?}", timeline_alt(_line0).unwrap());
    println!("{:?}", parse_timeline(_line0).unwrap());
}

#[test]
fn inline_day_reads_day_kind_and_hours() {
    let l = "05 WE    Working remotely                                08:00         13:00         5,00           7,50        0,50- TZR";
    let (rest, t) = timeline(l).unwrap();
    assert_eq!(rest, "           7,50        0,50- TZR");
    assert_eq!(t, line("05WE", dec("5", "00"), dec("0", "0"), TimeType::REM));
    assert_eq!(parse_timeline(l), Ok((rest, t)));
}

#[test]
fn inline_continuation_reads_contd() {
    let l = "        Working remotely   08:00 13:00 5,00 rest";
    let (rest, t) = timeline_alt(l).unwrap();
    assert_eq!(rest, " rest");
    assert_eq!(t, line("cont'd", dec("5", "00"), dec("0", "0"), TimeType::REM));
    assert_eq!(parse_timeline(l), Ok((rest, t.clone())));
    assert_eq!(timeline(l), Err(ParseError));
}

#[test]
fn inline_line_without_hours_fails() {
    assert_eq!(parse_timeline("Weekly Total : 40,00"), Err(ParseError));
    assert_eq!(parse_timeline(""), Err(ParseError));
}

#[test]
fn impossible_clock_time_traps() {
    assert_eq!(parse_timeline_or_trap("05 WE Working remotely 25:00 13:00 5,00"), None);
    assert_eq!(parse_timeline_or_trap("05 WE Working remotely 08:60 13:00 5,00"), None);
    assert!(parse_timeline_or_trap("05 WE Working remotely 23:59 13:00 5,00").is_some());
}

#[test]
fn kelvin_sign_label_traps() {
    // The case-insensitive tag accepts the Kelvin sign for `k` and hands back a
    // slice whose lower case is no known label.
    let input = "Wor\u{212A}ing from home 08:00 13:00 5,00";
    let r: nom::IResult<&str, &str> = nom::bytes::complete::tag_no_case("Working from home")(input);
    let (_, matched) = r.unwrap();
    assert_ne!(matched.to_lowercase(), "working from home");
    assert_eq!(parse_timeline_or_trap(input), None);
}

#[test]
fn timetype_labels_in_any_case() {
    assert_eq!(timetype("business ABSENCE\n"), Ok(("\n", TimeType::TRAVEL)));
    assert_eq!(timetype("Working from home"), Ok(("", TimeType::WFH)));
    assert_eq!(timetype("TERMINAL-ID : 2009 / \nx"), Ok(("\nx", TimeType::ONSITE)));
    assert_eq!(timetype("working remotely!"), Ok(("!", TimeType::REM)));
    assert_eq!(timetype("Employee not present"), Ok(("", TimeType::OFF)));
    assert_eq!(timetype("Not applicable"), Err(ParseError));
    assert_eq!(timetype("Working"), Err(ParseError));
}

#[test]
fn terminal_id_reads_label() {
    let l = "Terminal-ID : 2015 /  08:31   17:38";
    assert_eq!(terminal_id(l), Ok(("08:31   17:38", "Terminal-ID")));
    assert_eq!(terminal_id_alt("terminal-id : 2009 / \n 07:51"), Ok(("\n 07:51", "terminal-id")));
    assert_eq!(terminal_id_alt("Terminal-ID\rx"), Err(ParseError));
    assert_eq!(terminal_slot("2015 / 2012 07:53"), Ok((" 07:53", "")));
    assert_eq!(terminal_slot(" / 2009"), Ok(("", "")));
    assert_eq!(terminal_slot("2015 x"), Err(ParseError));
}

#[test]
fn field_lines() {
    assert_eq!(time_space_new("  08:00\nrest"), Ok(("rest", ClockTime { hour: 8, minute: 0 })));
    assert_eq!(time_space_new("08:00 \n"), Err(ParseError));
    assert_eq!(nbr_comma_new("  6,00 \nx"), Ok(("x", dec("6", "00"))));
    assert_eq!(nbr_comma_new(" 2,25-\n"), Ok(("", dec("2", "25"))));
    assert_eq!(nbr_comma_new(" 7,50\n"), Err(ParseError));
    assert_eq!(number_from_comma("12,"), Err(ParseError));
}

const DAY: &str = "06\nTH\nWorking from home\n 08:00\n 16:00\n  8,00 \n 7,50 \n 3,50 \nTZR B\n";

#[test]
fn day_over_lines() {
    let (rest, t) = timeline0(DAY).unwrap();
    assert_eq!(rest, "");
    assert_eq!(t, line("06TH", dec("8", "00"), dec("7", "50"), TimeType::WFH));
    assert_eq!(timeline00(DAY), Err(ParseError));
}

#[test]
fn day_with_two_amounts_repeats_the_first() {
    let d = "07\nFR\nBusiness absence\n 4,00 \n 3,00 \nTZR \nz";
    assert_eq!(timeline00(d), Ok(("z", line("07FR", dec("4", "00"), dec("4", "00"), TimeType::TRAVEL))));
}

#[test]
fn second_amount_never_changes_the_day() {
    let a = "07\nFR\nBusiness absence\n 4,00 \n 3,00 \nTZR A\nrest";
    let b = "07\nFR\nBusiness absence\n 4,00 \n 99,75 \nTZR A\nrest";
    let expected = Ok(("rest", line("07FR", dec("4", "00"), dec("4", "00"), TimeType::TRAVEL)));
    assert_eq!(timeline00(a), expected);
    assert_eq!(timeline00(b), expected);
}

#[test]
fn continuation_over_lines() {
    let d = "Business absence\n 14:00\n 18:00\n 4,00 \n";
    assert_eq!(timeline0_alt(d), Ok(("", line("cont'd", dec("4", "00"), dec("0", "0"), TimeType::TRAVEL))));
}

#[test]
fn absences() {
    assert_eq!(
        timeline_absence("08\nMO\nEmployee not present\nFREI \n"),
        Ok(("", line("08MO", dec("0", "0"), dec("0", "0"), TimeType::OFF)))
    );
    assert_eq!(
        timeline_absence_0("06\nTH\n1/2 Day Off\nTZR B\n"),
        Ok(("", line("06TH", dec("0", "0"), dec("0", "0"), TimeType::OFF)))
    );
    assert_eq!(
        timeline_absence_1("09\nTU\na\nb\nc\nFREI \n!"),
        Ok(("!", line("09TU", dec("0", "0"), dec("0", "0"), TimeType::OFF)))
    );
    assert_eq!(timeline_absence_1("09\nTU\na\nb\nFREI \n"), Err(ParseError));
}

#[test]
fn weekly_total_reads_na() {
    let w = "Weekly Total :\n40,00\n38,00\n2,00\nx\nrest";
    assert_eq!(parse_weekly(w), Ok(("rest", line("na", dec("0", "0"), dec("0", "0"), TimeType::NA))));
}

#[test]
fn until_dws() {
    assert_eq!(parse_untill_dws("header DWS\n"), Ok(("DWS\n", "header ")));
    assert_eq!(parse_untill_dws("no marker"), Err(ParseError));
}

#[test]
fn block_of_days() {
    let text = "Time statement\nDWS\n".to_string() + DAY + "06\nTH\n1/2 Day Off\nTZR B\n07\nFR\nGood Friday\nTZR A\nend";
    let (rest, lines) = parse_timeline_single(&text).unwrap();
    assert_eq!(rest, "end");
    assert_eq!(
        lines,
        vec![
            line("06TH", dec("8", "00"), dec("7", "50"), TimeType::WFH),
            line("06TH", dec("0", "0"), dec("0", "0"), TimeType::OFF),
            line("07FR", dec("0", "0"), dec("0", "0"), TimeType::OFF),
        ]
    );
    assert_eq!(parse_timeline_single("no marker"), Err(ParseError));
}

#[test]
fn many_blocks_flatten_and_never_fail() {
    let text = "p1 DWS\n".to_string() + DAY + "footer DWS\n07\nFR\nGood Friday\nFREI \ntrailer";
    let (rest, lines) = parse_timeline__many0(&text).unwrap();
    assert_eq!(rest, "trailer");
    assert_eq!(lines.len(), 2);
    assert_eq!(lines[0].timeType, TimeType::WFH);
    assert_eq!(lines[1].day, "07FR");
    assert_eq!(parse_timeline__many0("nothing here"), Ok(("nothing here", vec![])));
    assert_eq!(parse_timeline__many0(""), Ok(("", vec![])));
}

#[test]
fn many_blocks_trap_on_bad_clock() {
    let text = "DWS\n06\nTH\nWorking from home\n 08:00\n 24:00\n  8,00 \n 7,50 \n 3,50 \nTZR B\n";
    assert_eq!(parse_timeline_many0_or_trap(text), None);
}

#[test]
fn slice_parsers_agree_with_nom() {
    let inputs = [
        "abcd efg", "12 / 3", " / 2009", "", "|x", "\tq", "é1 z", "0x", "abc\n", "xDWSy", "DWS",
        "aDW", "日本 DWS", "99", " ",
    ];
    for i in inputs {
        let nom_word: nom::IResult<&str, &str> = is_not(" \t|")(i);
        assert_eq!(not_relevant(i).ok(), nom_word.ok(), "word {:?}", i);
        let nom_dws: nom::IResult<&str, &str> = take_until("DWS")(i);
        assert_eq!(parse_untill_dws(i).ok(), nom_dws.ok(), "dws {:?}", i);
        let nom_num: nom::IResult<&str, &str> = alt((tag(" "), digit1))(i);
        assert_eq!(terminal_number(i).ok(), nom_num.ok(), "number {:?}", i);
    }
}

#[test]
fn many_blocks_are_one_block_then_the_rest() {
    let text = "p1 DWS\n".to_string() + DAY + "footer DWS\n07\nFR\nGood Friday\nFREI \ntrailer";
    let (rest1, first) = parse_timeline_single(&text).unwrap();
    let (rest2, others) = parse_timeline__many0(rest1).unwrap();
    let (rest_all, all) = parse_timeline__many0(&text).unwrap();
    assert_eq!(rest_all, rest2);
    assert_eq!(all, [first, others].concat());
}

#[test]
fn text_before_the_first_dws_is_skipped() {
    let s = "DWS\n".to_string() + DAY + "tail";
    for pre in ["", "header\n", "DW", "D", "page 1 of 2 DW S\n"] {
        let with_pre = pre.to_string() + &s;
        assert_eq!(parse_timeline_single(&with_pre), parse_timeline_single(&s), "prefix {:?}", pre);
    }
}
