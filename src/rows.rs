//! The row reader: turns the rows of a decoded sheet into lessons, carrying
//! the day and time of merged cells down to the rows beneath them.
use vstd::prelude::*;

use crate::error::{ErrorView, Field, ScheduleError, ValidationErrors};
use crate::group::{
    auditorium_from_chars, day_from_chars, lesson_time_from_chars, lesson_type_from_chars,
    parse_auditorium, parse_day, parse_lesson_time, parse_lesson_type, parse_weeks,
    week_in_range, weeks_from_chars, Auditorium, Day, Group, GroupView, LessonTime, LessonType,
    Time, Weeks, WeeksView,
};
use crate::text::{
    chars_of, decimal, halve_double_spaces, push_char, push_decimal, remove_chars,
    same_text, string_of, without_chars,
};

verus! {

/// One decoded cell of a sheet.
#[derive(Clone, Debug)]
pub enum Cell {
    Empty,
    Text(String),
    Int(i64),
    /// A floating-point number: `whole` is the number as Rust's `as u8`
    /// converts it, `text` the number as the sheet shows it.
    Float { whole: u8, text: String },
    /// Any other kind of cell (a boolean, an error, a date), as the sheet shows it.
    Other(String),
}

/// The columns of a row: day, time, discipline, lesson type, weeks, auditorium.
pub const DAY_COLUMN: usize = 0;
pub const TIME_COLUMN: usize = 1;
pub const DISCIPLINE_COLUMN: usize = 2;
pub const LESSON_TYPE_COLUMN: usize = 3;
pub const WEEKS_COLUMN: usize = 4;
pub const AUDITORIUM_COLUMN: usize = 5;
pub const ROW_WIDTH: usize = 6;

/// The decimal text of a signed number.
pub open spec fn int_text(n: i64) -> Seq<char> {
    if n < 0 {
        seq!['-'] + decimal((-n) as nat)
    } else {
        decimal(n as nat)
    }
}

/// The text that a cell shows.
pub open spec fn cell_text(c: Cell) -> Seq<char> {
    match c {
        Cell::Empty => Seq::empty(),
        Cell::Text(s) => s@,
        Cell::Int(n) => int_text(n),
        Cell::Float { text, .. } => text@,
        Cell::Other(s) => s@,
    }
}

/// The text of a cell with runs of two spaces halved and line breaks removed.
pub open spec fn discipline_name(c: Cell) -> Seq<char> {
    remove_chars(halve_double_spaces(cell_text(c)), seq!['\n'])
}

/// A lesson type from a non-empty cell: text by its grammar, a number as the
/// group number.
pub open spec fn lesson_type_of_cell(c: Cell) -> Result<LessonType, ErrorView> {
    match c {
        Cell::Text(s) => parse_lesson_type(s@),
        Cell::Int(n) => Ok(LessonType::Classes(n as u8)),
        Cell::Float { whole, .. } => Ok(LessonType::Classes(whole)),
        _ => Err(ErrorView::InvalidLessonType(cell_text(c))),
    }
}

/// One week given as a number.
pub open spec fn single_week(n: u8) -> Result<WeeksView, ErrorView> {
    if week_in_range(n as nat) {
        Ok(WeeksView::Single(n))
    } else {
        Err(ErrorView::Validation(seq![Field::Week]))
    }
}

/// Weeks from a non-empty cell: text by its grammar, a number as one week.
pub open spec fn weeks_of_cell(c: Cell) -> Result<WeeksView, ErrorView> {
    match c {
        Cell::Text(s) => parse_weeks(s@),
        Cell::Int(n) => single_week(n as u8),
        Cell::Float { whole, .. } => single_week(whole),
        _ => Err(ErrorView::InvalidWeeksFormat(cell_text(c))),
    }
}

/// An auditorium from a cell, which must hold text.
pub open spec fn auditorium_of_cell(c: Cell) -> Result<Auditorium, ErrorView> {
    match c {
        Cell::Text(s) => parse_auditorium(s@),
        _ => Err(ErrorView::InvalidAuditorium(cell_text(c))),
    }
}

/// The day and time that a row with blank day or time cells takes.
#[derive(Clone, Copy, Debug, PartialEq, Eq, Structural)]
pub struct CarryState {
    pub day: Day,
    pub time: LessonTime,
}

/// Monday, `00:00-00:00`.
pub open spec fn initial_carry() -> CarryState {
    CarryState {
        day: Day::Monday,
        time: LessonTime { from: Time::spec_new(0, 0), to: Time::spec_new(0, 0) },
    }
}

/// Whether a row is the header row, whose day cell reads `День`.
pub open spec fn is_header(row: Seq<Cell>) -> bool {
    row[DAY_COLUMN as int] matches Cell::Text(s) && s@ == "День"@
}

/// What a lesson row yields: its discipline name and its lesson.
pub type Lesson = (Seq<char>, GroupView);

/// One step of the row reader: the state after the row and the lesson that
/// the row yields, if any.
///
/// The header row changes nothing. A day or time cell with text replaces the
/// carried value, any other keeps it. A row whose lesson type or weeks cell
/// is empty yields no lesson (after the state is updated).
pub open spec fn step(st: CarryState, row: Seq<Cell>) -> Result<(CarryState, Option<Lesson>), ErrorView> {
    if is_header(row) {
        Ok((st, None))
    } else {
        let day = match row[DAY_COLUMN as int] {
            Cell::Text(s) => parse_day(s@),
            _ => Ok(st.day),
        };
        let time = match row[TIME_COLUMN as int] {
            Cell::Text(s) => parse_lesson_time(s@),
            _ => Ok(st.time),
        };
        match (day, time) {
            (Err(e), _) => Err(e),
            (Ok(_), Err(e)) => Err(e),
            (Ok(day), Ok(time)) => {
                let next = CarryState { day, time };
                if row[LESSON_TYPE_COLUMN as int] is Empty {
                    Ok((next, None))
                } else {
                    match lesson_type_of_cell(row[LESSON_TYPE_COLUMN as int]) {
                        Err(e) => Err(e),
                        Ok(name) => if row[WEEKS_COLUMN as int] is Empty {
                            Ok((next, None))
                        } else {
                            match weeks_of_cell(row[WEEKS_COLUMN as int]) {
                                Err(e) => Err(e),
                                Ok(weeks) => match auditorium_of_cell(
                                    row[AUDITORIUM_COLUMN as int],
                                ) {
                                    Err(e) => Err(e),
                                    Ok(auditorium) => Ok(
                                        (
                                            next,
                                            Some(
                                                (
                                                    discipline_name(
                                                        row[DISCIPLINE_COLUMN as int],
                                                    ),
                                                    GroupView { name, time, weeks, auditorium, day },
                                                ),
                                            ),
                                        ),
                                    ),
                                },
                            }
                        },
                    }
                }
            },
        }
    }
}

pub open spec fn rows_view(rows: Seq<Vec<Cell>>) -> Seq<Seq<Cell>> {
    rows.map_values(|r: Vec<Cell>| r@)
}

/// The rows read from the top, from the initial state: the final state and
/// the lessons in row order, or the first error.
pub open spec fn scan(rows: Seq<Seq<Cell>>) -> Result<(CarryState, Seq<Lesson>), ErrorView>
    decreases rows.len(),
{
    if rows.len() == 0 {
        Ok((initial_carry(), Seq::empty()))
    } else {
        match scan(rows.drop_last()) {
            Err(e) => Err(e),
            Ok((st, lessons)) => match step(st, rows.last()) {
                Err(e) => Err(e),
                Ok((next, None)) => Ok((next, lessons)),
                Ok((next, Some(l))) => Ok((next, lessons.push(l))),
            },
        }
    }
}

/// The text of a cell.
fn text_of_cell(c: &Cell) -> (r: String)
    ensures
        r@ == cell_text(*c),
{
    match c {
        Cell::Empty => String::new(),
        Cell::Text(s) => s.clone(),
        Cell::Int(n) => {
            let mut out = String::new();
            if *n < 0 {
                push_char(&mut out, '-');
                push_decimal(&mut out, (0i128 - *n as i128) as u64);
            } else {
                push_decimal(&mut out, *n as u64);
            }
            assert(out@ =~= int_text(*n));
            out
        },
        Cell::Float { text, .. } => text.clone(),
        Cell::Other(s) => s.clone(),
    }
}

/// `str::replace("  ", " ")` on characters.
fn halve_spaces(s: &Vec<char>) -> (r: Vec<char>)
    ensures
        r@ == halve_double_spaces(s@),
{
    let mut r: Vec<char> = Vec::new();
    let mut i: usize = 0;
    assert(s@.skip(0) =~= s@);
    assert(r@ + halve_double_spaces(s@) =~= halve_double_spaces(s@));
    while i < s.len()
        invariant
            i <= s.len(),
            r@ + halve_double_spaces(s@.skip(i as int)) == halve_double_spaces(s@),
        decreases s.len() - i,
    {
        let ghost rest = s@.skip(i as int);
        if i + 1 < s.len() && s[i] == ' ' && s[i + 1] == ' ' {
            proof {
                assert(rest[0] == ' ' && rest[1] == ' ');
                assert(rest.skip(2) =~= s@.skip(i + 2));
                assert(r@.push(' ') + halve_double_spaces(rest.skip(2)) =~= r@ + halve_double_spaces(rest));
            }
            r.push(' ');
            i += 2;
        } else {
            proof {
                assert(rest[0] == s@[i as int]);
                assert(rest.skip(1) =~= s@.skip(i + 1));
                assert(r@.push(s@[i as int]) + halve_double_spaces(rest.skip(1)) =~= r@
                    + halve_double_spaces(rest));
            }
            r.push(s[i]);
            i += 1;
        }
    }
    assert(s@.skip(i as int) =~= Seq::<char>::empty());
    assert(r@ + Seq::<char>::empty() =~= r@);
    r
}

fn discipline_of_cell(c: &Cell) -> (r: String)
    ensures
        r@ == discipline_name(*c),
{
    let t = text_of_cell(c);
    let cs = chars_of(t.as_str());
    let halved = halve_spaces(&cs);
    let breaks = vec!['\n'];
    assert(breaks@ =~= seq!['\n']);
    let name = without_chars(&halved, &breaks);
    string_of(&name)
}

fn lesson_type_of(c: &Cell) -> (r: Result<LessonType, ScheduleError>)
    requires
        !(c is Empty),
    ensures
        match (r, lesson_type_of_cell(*c)) {
            (Ok(a), Ok(b)) => a == b,
            (Err(a), Err(b)) => a@ == b,
            _ => false,
        },
{
    match c {
        Cell::Text(s) => {
            let cs = chars_of(s.as_str());
            lesson_type_from_chars(&cs)
        },
        Cell::Int(n) => Ok(LessonType::Classes(#[verifier::truncate] (*n as u8))),
        Cell::Float { whole, .. } => Ok(LessonType::Classes(*whole)),
        _ => Err(ScheduleError::InvalidLessonType(text_of_cell(c))),
    }
}

fn single_week_of(n: u8) -> (r: Result<Weeks, ScheduleError>)
    ensures
        match (r, single_week(n)) {
            (Ok(w), Ok(v)) => w@ == v,
            (Err(e), Err(v)) => e@ == v,
            _ => false,
        },
{
    if 1 <= n && n <= 40 {
        Ok(Weeks::Single(n))
    } else {
        let fields = vec![Field::Week];
        assert(fields@ =~= seq![Field::Week]);
        Err(ScheduleError::ValidationError(ValidationErrors { fields }))
    }
}

fn weeks_of(c: &Cell) -> (r: Result<Weeks, ScheduleError>)
    requires
        !(c is Empty),
    ensures
        match (r, weeks_of_cell(*c)) {
            (Ok(w), Ok(v)) => w@ == v,
            (Err(e), Err(v)) => e@ == v,
            _ => false,
        },
{
    match c {
        Cell::Text(s) => {
            let cs = chars_of(s.as_str());
            weeks_from_chars(&cs)
        },
        Cell::Int(n) => single_week_of(#[verifier::truncate] (*n as u8)),
        Cell::Float { whole, .. } => single_week_of(*whole),
        _ => Err(ScheduleError::InvalidWeeksFormat(text_of_cell(c))),
    }
}

fn auditorium_of(c: &Cell) -> (r: Result<Auditorium, ScheduleError>)
    ensures
        match (r, auditorium_of_cell(*c)) {
            (Ok(a), Ok(b)) => a == b,
            (Err(a), Err(b)) => a@ == b,
            _ => false,
        },
{
    match c {
        Cell::Text(s) => {
            let cs = chars_of(s.as_str());
            auditorium_from_chars(&cs)
        },
        _ => Err(ScheduleError::InvalidAuditorium(text_of_cell(c))),
    }
}

impl CarryState {
    /// The state before the first row.
    pub fn new() -> (r: CarryState)
        ensures
            r == initial_carry(),
    {
        let zero = Time::default();
        CarryState { day: Day::Monday, time: LessonTime { from: zero, to: zero } }
    }

    /// Reads one row: updates the carried day and time and returns the
    /// discipline name and lesson that the row yields, if any.
    pub fn read_row(&mut self, row: &Vec<Cell>) -> (r: Result<Option<(String, Group)>, ScheduleError>)
        requires
            row.len() >= ROW_WIDTH,
        ensures
            match step(*old(self), row@) {
                Ok((next, lesson)) => *final(self) == next && match (r, lesson) {
                    (Ok(None), None) => true,
                    (Ok(Some((name, g))), Some((n, v))) => name@ == n && g@ == v,
                    _ => false,
                },
                Err(e) => r matches Err(x) && x@ == e,
            },
    {
        if let Cell::Text(s) = &row[DAY_COLUMN] {
            if same_text(&chars_of(s.as_str()), "День") {
                return Ok(None);
            }
        }
        let day = match &row[DAY_COLUMN] {
            Cell::Text(s) => day_from_chars(&chars_of(s.as_str()))?,
            _ => self.day,
        };
        let time = match &row[TIME_COLUMN] {
            Cell::Text(s) => lesson_time_from_chars(&chars_of(s.as_str()))?,
            _ => self.time,
        };
        self.day = day;
        self.time = time;
        if let Cell::Empty = &row[LESSON_TYPE_COLUMN] {
            return Ok(None);
        }
        let name = lesson_type_of(&row[LESSON_TYPE_COLUMN])?;
        if let Cell::Empty = &row[WEEKS_COLUMN] {
            return Ok(None);
        }
        let weeks = weeks_of(&row[WEEKS_COLUMN])?;
        let auditorium = auditorium_of(&row[AUDITORIUM_COLUMN])?;
        let discipline = discipline_of_cell(&row[DISCIPLINE_COLUMN]);
        Ok(Some((discipline, Group { name, time, weeks, auditorium, day })))
    }
}

/// A row whose day and time cells hold no text keeps the carried day and
/// time, and a lesson that it yields takes them.
pub proof fn lemma_carry_forward(st: CarryState, row: Seq<Cell>)
    requires
        row.len() >= ROW_WIDTH,
        !(row[DAY_COLUMN as int] is Text),
        !(row[TIME_COLUMN as int] is Text),
        step(st, row) is Ok,
    ensures
        step(st, row)->Ok_0.0 == st,
        step(st, row)->Ok_0.1 matches Some(l) ==> l.1.day == st.day && l.1.time == st.time,
{
}

} // verus!
