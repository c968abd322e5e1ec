//! Reads SAP time statements: the text of a monthly statement is cut into
//! day lines (`TimeLine`), each with a kind of work (`TimeType`) and a number
//! of hours, and the hours are gathered by where the work was done.

pub mod text;
pub mod fields;
pub mod lines;
pub mod parsers;
pub mod pdf;
pub mod shift;
pub mod locality;
pub mod readings;

use vstd::prelude::*;

verus! {

/// Where, or whether, a day's work was done.
#[derive(Clone, Copy, Debug, PartialEq, Eq, Structural)]
pub enum TimeType {
    WFH,
    REM,
    ONSITE,
    TRAVEL,
    OFF,
    NA,
}

impl View for TimeType {
    type V = TimeType;

    open spec fn view(&self) -> TimeType {
        *self
    }
}

impl Default for TimeType {
    fn default() -> (r: TimeType)
        ensures
            r == TimeType::ONSITE,
    {
        TimeType::ONSITE
    }
}

/// A time of day as hours and minutes.
#[derive(Clone, Copy, Debug, PartialEq, Eq, Structural)]
pub struct ClockTime {
    pub hour: u8,
    pub minute: u8,
}

impl View for ClockTime {
    type V = ClockTime;

    open spec fn view(&self) -> ClockTime {
        *self
    }
}

impl ClockTime {
    /// A valid time of day has an hour below 24 and a minute below 60.
    pub open spec fn valid(self) -> bool {
        self.hour < 24 && self.minute < 60
    }
}

/// A number of hours as the statement writes it: decimal digits, a comma,
/// decimal digits.
#[derive(Clone, Debug, PartialEq, Eq)]
pub struct Decimal {
    /// The digits before the comma.
    pub integer: String,
    /// The digits after the comma.
    pub fraction: String,
}

/// The digits of a `Decimal`.
pub struct DecimalView {
    pub integer: Seq<char>,
    pub fraction: Seq<char>,
}

impl View for Decimal {
    type V = DecimalView;

    open spec fn view(&self) -> DecimalView {
        DecimalView { integer: self.integer@, fraction: self.fraction@ }
    }
}

/// The zero amount, written `0,0`.
pub open spec fn zero_amount() -> DecimalView {
    DecimalView { integer: seq!['0'], fraction: seq!['0'] }
}

impl Decimal {
    /// A copy with the same digits.
    pub fn copied(&self) -> (d: Decimal)
        ensures
            d@ == self@,
    {
        Decimal { integer: self.integer.clone(), fraction: self.fraction.clone() }
    }

    /// The zero amount.
    pub fn zero() -> (d: Decimal)
        ensures
            d@ == zero_amount(),
    {
        proof {
            reveal_strlit("0");
            assert("0"@ =~= seq!['0']);
        }
        Decimal { integer: String::from_str("0"), fraction: String::from_str("0") }
    }
}

/// One line of a statement: the day, the hours worked, the hours after the
/// pause was deducted, and the kind of work.
#[allow(non_snake_case)]
#[derive(Clone, Debug, PartialEq, Eq)]
pub struct TimeLine {
    pub day: String,
    pub time: Decimal,
    pub time_pause_deducted: Decimal,
    pub timeType: TimeType,
}

/// The content of a `TimeLine`.
pub struct TimeLineView {
    pub day: Seq<char>,
    pub time: DecimalView,
    pub time_pause_deducted: DecimalView,
    pub time_type: TimeType,
}

impl View for TimeLine {
    type V = TimeLineView;

    open spec fn view(&self) -> TimeLineView {
        TimeLineView {
            day: self.day@,
            time: self.time@,
            time_pause_deducted: self.time_pause_deducted@,
            time_type: self.timeType,
        }
    }
}

impl Default for Decimal {
    /// The zero amount.
    fn default() -> (d: Decimal)
        ensures
            d@ == zero_amount(),
    {
        Decimal::zero()
    }
}

impl Default for TimeLine {
    /// An empty day, zero hours, on site.
    fn default() -> (l: TimeLine)
        ensures
            l@ == (TimeLineView {
                day: Seq::<char>::empty(),
                time: zero_amount(),
                time_pause_deducted: zero_amount(),
                time_type: TimeType::ONSITE,
            }),
    {
        TimeLine {
            day: String::new(),
            time: Decimal::zero(),
            time_pause_deducted: Decimal::zero(),
            timeType: TimeType::ONSITE,
        }
    }
}

/// The contents of a sequence of lines.
pub open spec fn lines_view(v: Seq<TimeLine>) -> Seq<TimeLineView> {
    v.map_values(|l: TimeLine| l@)
}

/// The lower case of a text, as `str::to_lowercase` gives it (Unicode's
/// lower-case mapping).
pub uninterp spec fn lowercase(s: Seq<char>) -> Seq<char>;

/// Calls `str::to_lowercase`; its result is named `lowercase`, and nothing
/// more is claimed of it here.
#[verifier::external_body]
fn to_lowercase(s: &str) -> (r: String)
    ensures
        r@ == lowercase(s@),
{
    s.to_lowercase()
}

/// The kind of work that a lower-case label names.
pub open spec fn label_type(label: Seq<char>) -> Option<TimeType> {
    if label == "business absence"@ {
        Some(TimeType::TRAVEL)
    } else if label == "working from home"@ {
        Some(TimeType::WFH)
    } else if label == "terminal-id"@ {
        Some(TimeType::ONSITE)
    } else if label == "working remotely"@ {
        Some(TimeType::REM)
    } else if label == "employee not present"@ {
        Some(TimeType::OFF)
    } else if label == "not applicable"@ {
        Some(TimeType::NA)
    } else {
        None
    }
}

impl TimeType {
    /// The kind of work that a label names, in any case; `None` for a label
    /// that names none.
    pub fn from_label(i: &str) -> (r: Option<TimeType>)
        ensures
            r == label_type(lowercase(i@)),
    {
        let l = to_lowercase(i);
        TimeType::from_lower_case_label(l.as_str())
    }

    /// The kind of work that a lower-case label names; `None` for a label that
    /// names none.
    pub fn from_lower_case_label(l: &str) -> (r: Option<TimeType>)
        ensures
            r == label_type(l@),
    {
        let l = String::from_str(l);
        if l == String::from_str("business absence") {
            Some(TimeType::TRAVEL)
        } else if l == String::from_str("working from home") {
            Some(TimeType::WFH)
        } else if l == String::from_str("terminal-id") {
            Some(TimeType::ONSITE)
        } else if l == String::from_str("working remotely") {
            Some(TimeType::REM)
        } else if l == String::from_str("employee not present") {
            Some(TimeType::OFF)
        } else if l == String::from_str("not applicable") {
            Some(TimeType::NA)
        } else {
            None
        }
    }
}

/// Where the hours of a line are counted.
#[derive(Clone, Copy, Debug, PartialEq, Eq, Structural)]
pub enum Place {
    /// On site or working remotely.
    Office,
    /// Working from home.
    Home,
    /// Travelling on business.
    Travel,
}

/// Where the hours of a kind of work are counted; days off and weekly totals
/// are counted nowhere.
pub open spec fn place_of(t: TimeType) -> Option<Place> {
    match t {
        TimeType::ONSITE | TimeType::REM => Some(Place::Office),
        TimeType::WFH => Some(Place::Home),
        TimeType::TRAVEL => Some(Place::Travel),
        _ => None,
    }
}

pub fn place_of_exec(t: TimeType) -> (r: Option<Place>)
    ensures
        r == place_of(t),
{
    match t {
        TimeType::ONSITE | TimeType::REM => Some(Place::Office),
        TimeType::WFH => Some(Place::Home),
        TimeType::TRAVEL => Some(Place::Travel),
        _ => None,
    }
}

/// The hours (`time`) of the lines counted at `place`, in the order of the
/// lines.
pub open spec fn hours_at(ls: Seq<TimeLineView>, place: Place) -> Seq<DecimalView>
    decreases ls.len(),
{
    if ls.len() == 0 {
        seq![]
    } else if place_of(ls.last().time_type) == Some(place) {
        hours_at(ls.drop_last(), place).push(ls.last().time)
    } else {
        hours_at(ls.drop_last(), place)
    }
}

/// The number of lines whose hours are counted nowhere.
pub open spec fn uncounted(ls: Seq<TimeLineView>) -> nat
    decreases ls.len(),
{
    if ls.len() == 0 {
        0
    } else if place_of(ls.last().time_type) is None {
        uncounted(ls.drop_last()) + 1
    } else {
        uncounted(ls.drop_last())
    }
}

/// Each line's hours are counted in at most one place: the hours counted at
/// the office, at home and on travel, with the lines counted nowhere, are as
/// many as the lines.
pub proof fn lemma_hours_partition(ls: Seq<TimeLineView>)
    ensures
        hours_at(ls, Place::Office).len() + hours_at(ls, Place::Home).len() + hours_at(
            ls,
            Place::Travel,
        ).len() + uncounted(ls) == ls.len(),
    decreases ls.len(),
{
    if ls.len() > 0 {
        lemma_hours_partition(ls.drop_last());
    }
}

/// The hours counted at a place are the hours (`time`, never the hours after
/// the pause) of exactly the lines whose kind is counted there, in the order
/// of the lines.
pub proof fn lemma_hours_are_times_counted_there(ls: Seq<TimeLineView>, place: Place)
    ensures
        hours_at(ls, place) == ls.filter_map(
            (|l: TimeLineView|
                if place_of(l.time_type) == Some(place) {
                    Some(l.time)
                } else {
                    None
                }),
        ),
    decreases ls.len(),
{
    if ls.len() > 0 {
        lemma_hours_are_times_counted_there(ls.drop_last(), place);
        let f = |l: TimeLineView|
            if place_of(l.time_type) == Some(place) {
                Some(l.time)
            } else {
                None
            };
        assert(ls.filter_map(f) =~= hours_at(ls, place));
    }
}

/// The hours of a statement split by where they were worked, beside the
/// lines themselves.
pub struct TimeSplit {
    pub office: Vec<Decimal>,
    pub home: Vec<Decimal>,
    pub travel: Vec<Decimal>,
    pub times: Vec<TimeLine>,
}

pub open spec fn decimals_view(v: Seq<Decimal>) -> Seq<DecimalView> {
    v.map_values(|d: Decimal| d@)
}

/// Splits the hours of `times` by where they were worked: office (on site
/// and remote), home, and travel, each in the order of the lines. The
/// totals and ratios are sums of these.
pub fn extract_time_data(times: Vec<TimeLine>) -> (r: TimeSplit)
    ensures
        decimals_view(r.office@) == hours_at(lines_view(times@), Place::Office),
        decimals_view(r.home@) == hours_at(lines_view(times@), Place::Home),
        decimals_view(r.travel@) == hours_at(lines_view(times@), Place::Travel),
        r.times@ == times@,
{
    let mut office: Vec<Decimal> = Vec::new();
    let mut home: Vec<Decimal> = Vec::new();
    let mut travel: Vec<Decimal> = Vec::new();
    let mut i: usize = 0;
    while i < times.len()
        invariant
            i <= times.len(),
            decimals_view(office@) == hours_at(lines_view(times@.take(i as int)), Place::Office),
            decimals_view(home@) == hours_at(lines_view(times@.take(i as int)), Place::Home),
            decimals_view(travel@) == hours_at(lines_view(times@.take(i as int)), Place::Travel),
        decreases times.len() - i,
    {
        let ghost before = lines_view(times@.take(i as int));
        assert(lines_view(times@.take(i + 1)) =~= before.push(times@[i as int]@));
        assert(before.push(times@[i as int]@).drop_last() =~= before);
        let line = &times[i];
        match place_of_exec(line.timeType) {
            Some(Place::Office) => {
                let ghost old_v = decimals_view(office@);
                office.push(line.time.copied());
                assert(decimals_view(office@) =~= old_v.push(line.time@));
            },
            Some(Place::Home) => {
                let ghost old_v = decimals_view(home@);
                home.push(line.time.copied());
                assert(decimals_view(home@) =~= old_v.push(line.time@));
            },
            Some(Place::Travel) => {
                let ghost old_v = decimals_view(travel@);
                travel.push(line.time.copied());
                assert(decimals_view(travel@) =~= old_v.push(line.time@));
            },
            None => {},
        }
        i += 1;
    }
    assert(times@.take(times.len() as int) =~= times@);
    TimeSplit { office, home, travel, times }
}

} // verus!
