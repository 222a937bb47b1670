//! The values of one scheduled lesson and the grammars that read them from
//! sheet text, each with the canonical text it renders to.
use vstd::prelude::*;

use crate::error::{result_view, ErrorView, Field, ScheduleError, ValidationErrors};
use crate::text::{
    chars_of, contains_piece, decimal, is_digit, owned, parse_number, parse_unsigned, push_char,
    push_decimal, push_text, push_two_digits, split_once, split_once_char, string_of, two_digits,
    all_digits, has_piece, remove_chars, same_text, lemma_decimal, lemma_digits_lack, lemma_parse_digits,
    lemma_find_none, lemma_remove_absent, lemma_split_any_none, lemma_split_once_at,
    lemma_two_digits, split_any, split_on, views, without_chars,
};

verus! {

/// The type of a lesson: a lecture for the whole stream, or classes of one
/// numbered group.
#[derive(Clone, Copy, Debug, PartialEq, Eq, Structural)]
pub enum LessonType {
    Lecture,
    Classes(u8),
}

/// A time of day; hours in `0..=23`, minutes in `0..=59`.
#[derive(Clone, Copy, Debug, PartialEq, Eq, Structural)]
pub struct Time {
    hours: u8,
    minutes: u8,
}

/// The start and end of a lesson. No order between them is required.
#[derive(Clone, Copy, Debug, PartialEq, Eq, Structural)]
pub struct LessonTime {
    pub from: Time,
    pub to: Time,
}

// ---------------------------------------------------------------- Time

/// The fields of a time that fail their range checks.
pub open spec fn time_violations(hours: u8, minutes: u8) -> Seq<Field> {
    (if hours > 23 {
        seq![Field::Hours]
    } else {
        Seq::empty()
    }) + (if minutes > 59 {
        seq![Field::Minutes]
    } else {
        Seq::empty()
    })
}

impl Time {
    pub closed spec fn spec_new(hours: u8, minutes: u8) -> Time {
        Time { hours, minutes }
    }

    pub closed spec fn spec_hours(self) -> u8 {
        self.hours
    }

    pub closed spec fn spec_minutes(self) -> u8 {
        self.minutes
    }

    pub open spec fn wf(self) -> bool {
        self.spec_hours() <= 23 && self.spec_minutes() <= 59
    }

    /// The time `hours:minutes`, when both lie in range.
    pub fn new(hours: u8, minutes: u8) -> (r: Result<Time, ValidationErrors>)
        ensures
            r is Ok <==> hours <= 23 && minutes <= 59,
            r matches Ok(t) ==> t == Time::spec_new(hours, minutes) && t.spec_hours() == hours
                && t.spec_minutes() == minutes,
            r matches Err(e) ==> e.fields@ == time_violations(hours, minutes),
    {
        if hours <= 23 && minutes <= 59 {
            Ok(Time { hours, minutes })
        } else {
            let mut fields: Vec<Field> = Vec::new();
            if hours > 23 {
                fields.push(Field::Hours);
            }
            if minutes > 59 {
                fields.push(Field::Minutes);
            }
            assert(fields@ =~= time_violations(hours, minutes));
            Err(ValidationErrors { fields })
        }
    }

    pub fn hours(&self) -> (r: u8)
        ensures
            r == self.spec_hours(),
    {
        self.hours
    }

    pub fn minutes(&self) -> (r: u8)
        ensures
            r == self.spec_minutes(),
    {
        self.minutes
    }

    /// Reads `HH:MM` or `HH.MM`.
    pub fn from_str(s: &str) -> (r: Result<Time, ScheduleError>)
        ensures
            result_view(r) == parse_time(s@),
    {
        let cs = chars_of(s);
        time_from_chars(&cs)
    }

    /// The canonical text `HH:MM`, zero-padded.
    pub fn to_string(&self) -> (r: String)
        ensures
            r@ == time_text(*self),
    {
        let mut out = String::new();
        push_two_digits(&mut out, self.hours as u64);
        push_char(&mut out, ':');
        push_two_digits(&mut out, self.minutes as u64);
        assert(out@ =~= time_text(*self));
        out
    }
}

/// The time that the hour text `h` and minute text `m` of `s` give.
pub open spec fn time_parts(s: Seq<char>, h: Seq<char>, m: Seq<char>) -> Result<Time, ErrorView> {
    match (parse_unsigned(h, 255), parse_unsigned(m, 255)) {
        (Some(hv), Some(mv)) => if hv <= 23 && mv <= 59 {
            Ok(Time::spec_new(hv as u8, mv as u8))
        } else {
            Err(ErrorView::Validation(time_violations(hv as u8, mv as u8)))
        },
        _ => Err(ErrorView::InvalidTimeFormat(s)),
    }
}

/// The grammar of a time: hours and minutes around the first `:`, or, where
/// there is none, around the first `.`.
pub open spec fn parse_time(s: Seq<char>) -> Result<Time, ErrorView> {
    match split_once(s, ':') {
        Some((h, m)) => time_parts(s, h, m),
        None => match split_once(s, '.') {
            Some((h, m)) => time_parts(s, h, m),
            None => Err(ErrorView::InvalidTimeFormat(s)),
        },
    }
}

pub open spec fn time_text(t: Time) -> Seq<char> {
    two_digits(t.spec_hours() as nat) + seq![':'] + two_digits(t.spec_minutes() as nat)
}

fn time_from_parts(s: &Vec<char>, h: &Vec<char>, m: &Vec<char>) -> (r: Result<Time, ScheduleError>)
    ensures
        result_view(r) == time_parts(s@, h@, m@),
{
    match (parse_number(h, 255), parse_number(m, 255)) {
        (Some(hv), Some(mv)) => match Time::new(hv as u8, mv as u8) {
            Ok(t) => Ok(t),
            Err(e) => Err(ScheduleError::ValidationError(e)),
        },
        _ => Err(ScheduleError::InvalidTimeFormat(string_of(s))),
    }
}

fn time_from_chars(s: &Vec<char>) -> (r: Result<Time, ScheduleError>)
    ensures
        result_view(r) == parse_time(s@),
{
    match split_once_char(s, ':') {
        Some((h, m)) => time_from_parts(s, &h, &m),
        None => match split_once_char(s, '.') {
            Some((h, m)) => time_from_parts(s, &h, &m),
            None => Err(ScheduleError::InvalidTimeFormat(string_of(s))),
        },
    }
}

impl Default for Time {
    /// Midnight, `00:00`.
    fn default() -> (r: Time)
        ensures
            r == Time::spec_new(0, 0),
    {
        Time { hours: 0, minutes: 0 }
    }
}

// ---------------------------------------------------------------- LessonTime

/// The grammar of a lesson time: two times around the first `-`.
pub open spec fn parse_lesson_time(s: Seq<char>) -> Result<LessonTime, ErrorView> {
    match split_once(s, '-') {
        Some((a, b)) => match parse_time(a) {
            Ok(from) => match parse_time(b) {
                Ok(to) => Ok(LessonTime { from, to }),
                Err(e) => Err(e),
            },
            Err(e) => Err(e),
        },
        None => Err(ErrorView::InvalidLessonTime(s)),
    }
}

pub open spec fn lesson_time_text(t: LessonTime) -> Seq<char> {
    time_text(t.from) + seq!['-'] + time_text(t.to)
}

impl LessonTime {
    /// Reads `HH:MM-HH:MM` (either time may use `.`).
    pub fn from_str(s: &str) -> (r: Result<LessonTime, ScheduleError>)
        ensures
            result_view(r) == parse_lesson_time(s@),
    {
        let cs = chars_of(s);
        lesson_time_from_chars(&cs)
    }

    /// The canonical text `HH:MM-HH:MM`.
    pub fn to_string(&self) -> (r: String)
        ensures
            r@ == lesson_time_text(*self),
    {
        let mut out = self.from.to_string();
        push_char(&mut out, '-');
        let to = self.to.to_string();
        push_text(&mut out, to.as_str());
        assert(out@ =~= lesson_time_text(*self));
        out
    }
}

pub(crate) fn lesson_time_from_chars(s: &Vec<char>) -> (r: Result<LessonTime, ScheduleError>)
    ensures
        result_view(r) == parse_lesson_time(s@),
{
    match split_once_char(s, '-') {
        Some((a, b)) => {
            let from = time_from_chars(&a)?;
            let to = time_from_chars(&b)?;
            Ok(LessonTime { from, to })
        },
        None => Err(ScheduleError::InvalidLessonTime(string_of(s))),
    }
}

// ---------------------------------------------------------------- LessonType

/// The decimal digits of `s`, in order.
pub open spec fn digits_in(s: Seq<char>) -> Seq<char> {
    s.filter(|c: char| is_digit(c))
}

/// The grammar of a lesson type: a text that holds `лекція` or `Лекція` is a
/// lecture; any other is the group number that its digits write.
pub open spec fn parse_lesson_type(s: Seq<char>) -> Result<LessonType, ErrorView> {
    if contains_piece(s, "лекція"@) || contains_piece(s, "Лекція"@) {
        Ok(LessonType::Lecture)
    } else {
        match parse_unsigned(digits_in(s), 255) {
            Some(n) => Ok(LessonType::Classes(n as u8)),
            None => Err(ErrorView::InvalidLessonType(s)),
        }
    }
}

pub open spec fn lesson_type_text(t: LessonType) -> Seq<char> {
    match t {
        LessonType::Lecture => "Лекція"@,
        LessonType::Classes(n) => decimal(n as nat),
    }
}

fn digits_of(s: &Vec<char>) -> (r: Vec<char>)
    ensures
        r@ == digits_in(s@),
{
    let mut r: Vec<char> = Vec::new();
    let mut i: usize = 0;
    while i < s.len()
        invariant
            i <= s.len(),
            r@ == digits_in(s@.take(i as int)),
        decreases s.len() - i,
    {
        let c = s[i];
        proof {
            assert(s@.take(i + 1).drop_last() =~= s@.take(i as int));
            reveal(Seq::filter);
        }
        if '0' <= c && c <= '9' {
            r.push(c);
        }
        i += 1;
    }
    assert(s@.take(s.len() as int) =~= s@);
    r
}

impl LessonType {
    pub fn from_str(s: &str) -> (r: Result<LessonType, ScheduleError>)
        ensures
            result_view(r) == parse_lesson_type(s@),
    {
        let cs = chars_of(s);
        lesson_type_from_chars(&cs)
    }

    /// `Лекція`, or the group number.
    pub fn to_string(&self) -> (r: String)
        ensures
            r@ == lesson_type_text(*self),
    {
        match self {
            LessonType::Lecture => owned("Лекція"),
            LessonType::Classes(n) => {
                let mut out = String::new();
                push_decimal(&mut out, *n as u64);
                assert(out@ =~= decimal(*n as nat));
                out
            },
        }
    }
}

pub(crate) fn lesson_type_from_chars(s: &Vec<char>) -> (r: Result<LessonType, ScheduleError>)
    ensures
        result_view(r) == parse_lesson_type(s@),
{
    if has_piece(s, "лекція") || has_piece(s, "Лекція") {
        Ok(LessonType::Lecture)
    } else {
        let d = digits_of(s);
        match parse_number(&d, 255) {
            Some(n) => Ok(LessonType::Classes(n as u8)),
            None => Err(ScheduleError::InvalidLessonType(string_of(s))),
        }
    }
}

// ---------------------------------------------------------------- Weeks

/// The weeks in which a lesson takes place; each week number in `1..=40`.
#[derive(Debug)]
pub enum Weeks {
    /// One week: `6`.
    Single(u8),
    /// The weeks from `first` to `last`: `3-14`. No order between the two is required.
    Range { first: u8, last: u8 },
    /// Several of the above: `1,3-5,7`.
    Combined(Vec<Weeks>),
}

/// The mathematical value of [`Weeks`].
pub enum WeeksView {
    Single(u8),
    Range { first: u8, last: u8 },
    Combined(Seq<WeeksView>),
}

pub open spec fn weeks_view(w: Weeks) -> WeeksView
    decreases w,
{
    match w {
        Weeks::Single(n) => WeeksView::Single(n),
        Weeks::Range { first, last } => WeeksView::Range { first, last },
        Weeks::Combined(v) => WeeksView::Combined(
            Seq::new(
                v.len() as nat,
                |i: int|
                    if 0 <= i < v.len() {
                        weeks_view(v[i])
                    } else {
                        WeeksView::Single(0)
                    },
            ),
        ),
    }
}

impl View for Weeks {
    type V = WeeksView;

    open spec fn view(&self) -> WeeksView {
        weeks_view(*self)
    }
}

impl Default for Weeks {
    /// The first week.
    fn default() -> (r: Weeks)
        ensures
            r == Weeks::Single(1),
    {
        Weeks::Single(1)
    }
}

pub open spec fn week_in_range(n: nat) -> bool {
    1 <= n <= 40
}

/// One `Week` entry for each bound of a range that lies out of range.
pub open spec fn week_violations(first: nat, last: nat) -> Seq<Field> {
    (if week_in_range(first) {
        Seq::empty()
    } else {
        seq![Field::Week]
    }) + (if week_in_range(last) {
        Seq::empty()
    } else {
        seq![Field::Week]
    })
}

/// The grammar of one comma-free week entry: a range `a-b` around the first
/// `-`, else a single number.
pub open spec fn parse_week_entry(t: Seq<char>) -> Result<WeeksView, ErrorView> {
    match split_once(t, '-') {
        Some((f, l)) => match (parse_unsigned(f, 255), parse_unsigned(l, 255)) {
            (Some(a), Some(b)) => if week_in_range(a) && week_in_range(b) {
                Ok(WeeksView::Range { first: a as u8, last: b as u8 })
            } else {
                Err(ErrorView::Validation(week_violations(a, b)))
            },
            _ => Err(ErrorView::InvalidWeeksFormat(t)),
        },
        None => match parse_unsigned(t, 255) {
            Some(n) => if week_in_range(n) {
                Ok(WeeksView::Single(n as u8))
            } else {
                Err(ErrorView::Validation(seq![Field::Week]))
            },
            None => Err(ErrorView::InvalidWeeksFormat(t)),
        },
    }
}

/// The entries of a comma list, read in order; the first error stops it.
pub open spec fn parse_week_entries(parts: Seq<Seq<char>>) -> Result<Seq<WeeksView>, ErrorView>
    decreases parts.len(),
{
    if parts.len() == 0 {
        Ok(Seq::empty())
    } else {
        match parse_week_entries(parts.drop_last()) {
            Ok(ws) => match parse_week_entry(parts.last()) {
                Ok(w) => Ok(ws.push(w)),
                Err(e) => Err(e),
            },
            Err(e) => Err(e),
        }
    }
}

pub open spec fn blanks() -> Seq<char> {
    seq![' ', '\n']
}

/// The grammar of weeks: spaces and line breaks are dropped; a text without
/// commas is one entry, a text with commas the list of its entries.
pub open spec fn parse_weeks(s: Seq<char>) -> Result<WeeksView, ErrorView> {
    let t = remove_chars(s, blanks());
    let parts = split_any(t, seq![',']);
    if parts.len() < 2 {
        parse_week_entry(t)
    } else {
        match parse_week_entries(parts) {
            Ok(ws) => Ok(WeeksView::Combined(ws)),
            Err(e) => Err(e),
        }
    }
}

/// The canonical text: the number, `first-last`, or the entries joined by `,`.
pub open spec fn weeks_text(w: WeeksView) -> Seq<char>
    decreases w,
{
    match w {
        WeeksView::Single(n) => decimal(n as nat),
        WeeksView::Range { first, last } => decimal(first as nat) + seq!['-'] + decimal(
            last as nat,
        ),
        WeeksView::Combined(ws) => joined_weeks_text(ws),
    }
}

/// The texts of `ws` joined by `,`.
pub open spec fn joined_weeks_text(ws: Seq<WeeksView>) -> Seq<char>
    decreases ws,
{
    if ws.len() == 0 {
        Seq::empty()
    } else if ws.len() == 1 {
        weeks_text(ws[0])
    } else {
        joined_weeks_text(ws.drop_last()) + seq![','] + weeks_text(ws.last())
    }
}

impl Weeks {
    pub fn from_str(s: &str) -> (r: Result<Weeks, ScheduleError>)
        ensures
            match (r, parse_weeks(s@)) {
                (Ok(w), Ok(v)) => w@ == v,
                (Err(e), Err(v)) => e@ == v,
                _ => false,
            },
    {
        let cs = chars_of(s);
        weeks_from_chars(&cs)
    }

    /// A copy of these weeks.
    pub fn copy(&self) -> (r: Weeks)
        ensures
            r@ == self@,
        decreases self,
    {
        match self {
            Weeks::Single(n) => Weeks::Single(*n),
            Weeks::Range { first, last } => Weeks::Range { first: *first, last: *last },
            Weeks::Combined(v) => {
                let mut out: Vec<Weeks> = Vec::new();
                let mut i: usize = 0;
                while i < v.len()
                    invariant
                        *self == Weeks::Combined(*v),
                        i <= v.len(),
                        out.len() == i,
                        forall|j: int| 0 <= j < i ==> (#[trigger] out@[j])@ == v@[j]@,
                    decreases v.len() - i,
                {
                    proof {
                        assert(decreases_to!(*self => self->Combined_0));
                        assert(decreases_to!(self->Combined_0 => self->Combined_0[i as int]));
                    }
                    out.push(v[i].copy());
                    i += 1;
                }
                let r = Weeks::Combined(out);
                assert(r@ == self@) by {
                    if let WeeksView::Combined(a) = r@ {
                        if let WeeksView::Combined(b) = self@ {
                            assert(a =~= b);
                        }
                    }
                }
                r
            },
        }
    }

    /// The canonical text.
    pub fn to_string(&self) -> (r: String)
        ensures
            r@ == weeks_text(self@),
        decreases self,
    {
        match self {
            Weeks::Single(n) => {
                let mut out = String::new();
                push_decimal(&mut out, *n as u64);
                assert(out@ =~= decimal(*n as nat));
                out
            },
            Weeks::Range { first, last } => {
                let mut out = String::new();
                push_decimal(&mut out, *first as u64);
                push_char(&mut out, '-');
                push_decimal(&mut out, *last as u64);
                assert(out@ =~= weeks_text(self@));
                out
            },
            Weeks::Combined(v) => {
                let ghost ws = match self@ {
                    WeeksView::Combined(ws) => ws,
                    _ => Seq::empty(),
                };
                let mut out = String::new();
                let mut i: usize = 0;
                while i < v.len()
                    invariant
                        *self == Weeks::Combined(*v),
                        i <= v.len(),
                        ws.len() == v.len(),
                        forall|j: int| 0 <= j < v.len() ==> ws[j] == (#[trigger] v@[j])@,
                        out@ == joined_weeks_text(ws.take(i as int)),
                    decreases v.len() - i,
                {
                    if i > 0 {
                        push_char(&mut out, ',');
                    }
                    proof {
                        assert(decreases_to!(*self => self->Combined_0));
                        assert(decreases_to!(self->Combined_0 => self->Combined_0[i as int]));
                    }
                    let piece = v[i].to_string();
                    push_text(&mut out, piece.as_str());
                    proof {
                        let t = ws.take(i + 1);
                        assert(t.drop_last() =~= ws.take(i as int));
                        if i == 0 {
                            assert(ws.take(0) =~= Seq::<WeeksView>::empty());
                        }
                    }
                    i += 1;
                }
                assert(ws.take(v.len() as int) =~= ws);
                out
            },
        }
    }
}

fn week_entry_from_chars(t: &Vec<char>) -> (r: Result<Weeks, ScheduleError>)
    ensures
        match (r, parse_week_entry(t@)) {
            (Ok(w), Ok(v)) => w@ == v,
            (Err(e), Err(v)) => e@ == v,
            _ => false,
        },
{
    match split_once_char(t, '-') {
        Some((f, l)) => match (parse_number(&f, 255), parse_number(&l, 255)) {
            (Some(a), Some(b)) => {
                if 1 <= a && a <= 40 && 1 <= b && b <= 40 {
                    Ok(Weeks::Range { first: a as u8, last: b as u8 })
                } else {
                    let mut fields: Vec<Field> = Vec::new();
                    if !(1 <= a && a <= 40) {
                        fields.push(Field::Week);
                    }
                    if !(1 <= b && b <= 40) {
                        fields.push(Field::Week);
                    }
                    assert(fields@ =~= week_violations(a as nat, b as nat));
                    Err(ScheduleError::ValidationError(ValidationErrors { fields }))
                }
            },
            _ => Err(ScheduleError::InvalidWeeksFormat(string_of(t))),
        },
        None => match parse_number(t, 255) {
            Some(n) => {
                if 1 <= n && n <= 40 {
                    Ok(Weeks::Single(n as u8))
                } else {
                    let fields = vec![Field::Week];
                    assert(fields@ =~= seq![Field::Week]);
                    Err(ScheduleError::ValidationError(ValidationErrors { fields }))
                }
            },
            None => Err(ScheduleError::InvalidWeeksFormat(string_of(t))),
        },
    }
}

pub(crate) fn weeks_from_chars(s: &Vec<char>) -> (r: Result<Weeks, ScheduleError>)
    ensures
        match (r, parse_weeks(s@)) {
            (Ok(w), Ok(v)) => w@ == v,
            (Err(e), Err(v)) => e@ == v,
            _ => false,
        },
{
    let blank = vec![' ', '\n'];
    assert(blank@ =~= blanks());
    let t = without_chars(s, &blank);
    let comma = vec![','];
    assert(comma@ =~= seq![',']);
    let parts = split_on(&t, &comma);
    if parts.len() < 2 {
        return week_entry_from_chars(&t);
    }
    let ghost pv = views(parts@);
    let mut out: Vec<Weeks> = Vec::new();
    let mut i: usize = 0;
    while i < parts.len()
        invariant
            i <= parts.len(),
            pv == views(parts@),
            pv == split_any(remove_chars(s@, blanks()), seq![',']),
            pv.len() >= 2,
            parse_week_entries(pv.take(i as int)) matches Ok(ws) && ws.len() == out.len() && forall|
                j: int,
            | 0 <= j < out.len() ==> ws[j] == (#[trigger] out@[j])@,
        decreases parts.len() - i,
    {
        let e = week_entry_from_chars(&parts[i]);
        proof {
            assert(pv.take(i + 1).drop_last() =~= pv.take(i as int));
            assert(pv.take(i + 1).last() == parts@[i as int]@);
        }
        match e {
            Ok(w) => {
                out.push(w);
            },
            Err(err) => {
                proof {
                    assert(pv[i as int] == parts@[i as int]@);
                    assert(parse_week_entry(pv[i as int]) is Err);
                    lemma_week_entries_stop(pv, i as int);
                }
                return Err(err);
            },
        }
        i += 1;
    }
    assert(pv.take(parts.len() as int) =~= pv);
    let r = Weeks::Combined(out);
    proof {
        if let Ok(ws) = parse_week_entries(pv) {
            if let WeeksView::Combined(a) = r@ {
                assert(a =~= ws);
            }
        }
    }
    Ok(r)
}

/// Once an entry fails, every longer prefix of the list fails with its error.
proof fn lemma_week_entries_stop(parts: Seq<Seq<char>>, i: int)
    requires
        0 <= i < parts.len(),
        parse_week_entries(parts.take(i)) is Ok,
        parse_week_entry(parts[i]) is Err,
    ensures
        parse_week_entries(parts) == Err::<Seq<WeeksView>, ErrorView>(
            parse_week_entry(parts[i])->Err_0,
        ),
    decreases parts.len(),
{
    if parts.len() == i + 1 {
        assert(parts.drop_last() =~= parts.take(i));
    } else {
        assert(parts.drop_last().take(i) =~= parts.take(i));
        lemma_week_entries_stop(parts.drop_last(), i);
    }
}

// ---------------------------------------------------------------- Auditorium

/// A room: pavilion in `1..=9`, room in `1..=599`.
#[derive(Clone, Copy, Debug, PartialEq, Eq, Structural)]
pub struct AuditoriumNumber {
    pavilion: u8,
    room: u16,
}

/// Where a lesson takes place.
#[derive(Clone, Copy, Debug, PartialEq, Eq, Structural)]
pub enum Auditorium {
    /// Online.
    Distance,
    /// The culture and art centre.
    ArtCenter,
    /// A numbered room of a pavilion.
    Pavilion(AuditoriumNumber),
}

pub open spec fn auditorium_violations(pavilion: u8, room: u16) -> Seq<Field> {
    (if 1 <= pavilion <= 9 {
        Seq::empty()
    } else {
        seq![Field::Pavilion]
    }) + (if 1 <= room <= 599 {
        Seq::empty()
    } else {
        seq![Field::Room]
    })
}

impl AuditoriumNumber {
    pub closed spec fn spec_new(pavilion: u8, room: u16) -> AuditoriumNumber {
        AuditoriumNumber { pavilion, room }
    }

    pub closed spec fn spec_pavilion(self) -> u8 {
        self.pavilion
    }

    pub closed spec fn spec_room(self) -> u16 {
        self.room
    }

    pub open spec fn wf(self) -> bool {
        1 <= self.spec_pavilion() <= 9 && 1 <= self.spec_room() <= 599
    }

    /// Room `room` of pavilion `pavilion`, when both lie in range.
    pub fn new(pavilion: u8, room: u16) -> (r: Result<AuditoriumNumber, ValidationErrors>)
        ensures
            r is Ok <==> 1 <= pavilion <= 9 && 1 <= room <= 599,
            r matches Ok(a) ==> a == AuditoriumNumber::spec_new(pavilion, room)
                && a.spec_pavilion() == pavilion && a.spec_room() == room,
            r matches Err(e) ==> e.fields@ == auditorium_violations(pavilion, room),
    {
        if 1 <= pavilion && pavilion <= 9 && 1 <= room && room <= 599 {
            Ok(AuditoriumNumber { pavilion, room })
        } else {
            let mut fields: Vec<Field> = Vec::new();
            if !(1 <= pavilion && pavilion <= 9) {
                fields.push(Field::Pavilion);
            }
            if !(1 <= room && room <= 599) {
                fields.push(Field::Room);
            }
            assert(fields@ =~= auditorium_violations(pavilion, room));
            Err(ValidationErrors { fields })
        }
    }

    pub fn pavilion(&self) -> (r: u8)
        ensures
            r == self.spec_pavilion(),
    {
        self.pavilion
    }

    pub fn room(&self) -> (r: u16)
        ensures
            r == self.spec_room(),
    {
        self.room
    }

    /// Reads `pavilion-room`.
    pub fn from_str(s: &str) -> (r: Result<AuditoriumNumber, ScheduleError>)
        ensures
            result_view(r) == parse_auditorium_number(s@),
    {
        let cs = chars_of(s);
        auditorium_number_from_chars(&cs)
    }

    /// The canonical text `pavilion-room`.
    pub fn to_string(&self) -> (r: String)
        ensures
            r@ == auditorium_number_text(*self),
    {
        let mut out = String::new();
        push_decimal(&mut out, self.pavilion as u64);
        push_char(&mut out, '-');
        push_decimal(&mut out, self.room as u64);
        assert(out@ =~= auditorium_number_text(*self));
        out
    }
}

/// The grammar of a room: pavilion and room number around the first `-`,
/// both in range; any failure is an invalid auditorium.
pub open spec fn parse_auditorium_number(s: Seq<char>) -> Result<AuditoriumNumber, ErrorView> {
    match split_once(s, '-') {
        Some((p, r)) => match (parse_unsigned(p, 255), parse_unsigned(r, 65535)) {
            (Some(pv), Some(rv)) => if 1 <= pv <= 9 && 1 <= rv <= 599 {
                Ok(AuditoriumNumber::spec_new(pv as u8, rv as u16))
            } else {
                Err(ErrorView::InvalidAuditorium(s))
            },
            _ => Err(ErrorView::InvalidAuditorium(s)),
        },
        None => Err(ErrorView::InvalidAuditorium(s)),
    }
}

pub open spec fn auditorium_number_text(a: AuditoriumNumber) -> Seq<char> {
    decimal(a.spec_pavilion() as nat) + seq!['-'] + decimal(a.spec_room() as nat)
}

/// The grammar of an auditorium: fixed words for distance learning and the
/// art centre, else a room.
pub open spec fn parse_auditorium(s: Seq<char>) -> Result<Auditorium, ErrorView> {
    if s == "Дистанційно"@ || s == "Д"@ || s == "д"@ {
        Ok(Auditorium::Distance)
    } else if s == "КМЦ"@ || s == "кмц"@ {
        Ok(Auditorium::ArtCenter)
    } else {
        match parse_auditorium_number(s) {
            Ok(n) => Ok(Auditorium::Pavilion(n)),
            Err(e) => Err(e),
        }
    }
}

pub open spec fn auditorium_text(a: Auditorium) -> Seq<char> {
    match a {
        Auditorium::Distance => "Дистанційно"@,
        Auditorium::ArtCenter => "КМЦ"@,
        Auditorium::Pavilion(n) => auditorium_number_text(n),
    }
}

fn auditorium_number_from_chars(s: &Vec<char>) -> (r: Result<AuditoriumNumber, ScheduleError>)
    ensures
        result_view(r) == parse_auditorium_number(s@),
{
    match split_once_char(s, '-') {
        Some((p, r)) => match (parse_number(&p, 255), parse_number(&r, 65535)) {
            (Some(pv), Some(rv)) => match AuditoriumNumber::new(pv as u8, rv as u16) {
                Ok(a) => Ok(a),
                Err(_) => Err(ScheduleError::InvalidAuditorium(string_of(s))),
            },
            _ => Err(ScheduleError::InvalidAuditorium(string_of(s))),
        },
        None => Err(ScheduleError::InvalidAuditorium(string_of(s))),
    }
}

impl Auditorium {
    pub fn from_str(s: &str) -> (r: Result<Auditorium, ScheduleError>)
        ensures
            result_view(r) == parse_auditorium(s@),
    {
        let cs = chars_of(s);
        auditorium_from_chars(&cs)
    }

    /// `Дистанційно`, `КМЦ`, or the room.
    pub fn to_string(&self) -> (r: String)
        ensures
            r@ == auditorium_text(*self),
    {
        match self {
            Auditorium::Distance => owned("Дистанційно"),
            Auditorium::ArtCenter => owned("КМЦ"),
            Auditorium::Pavilion(n) => n.to_string(),
        }
    }
}

pub(crate) fn auditorium_from_chars(s: &Vec<char>) -> (r: Result<Auditorium, ScheduleError>)
    ensures
        result_view(r) == parse_auditorium(s@),
{
    if same_text(s, "Дистанційно") || same_text(s, "Д") || same_text(s, "д") {
        Ok(Auditorium::Distance)
    } else if same_text(s, "КМЦ") || same_text(s, "кмц") {
        Ok(Auditorium::ArtCenter)
    } else {
        let n = auditorium_number_from_chars(s)?;
        Ok(Auditorium::Pavilion(n))
    }
}

// ---------------------------------------------------------------- Day

/// A teaching day; there are no classes on Sunday.
#[derive(Clone, Copy, Debug, PartialEq, Eq, Structural)]
pub enum Day {
    Monday,
    Tuesday,
    Wednesday,
    Thursday,
    Friday,
    Saturday,
}

/// The grammar of a day: spaces and line breaks are dropped, and the rest
/// must be a Ukrainian day name; Friday's apostrophe may be written three ways.
pub open spec fn parse_day(s: Seq<char>) -> Result<Day, ErrorView> {
    let t = remove_chars(s, blanks());
    if t == "Понеділок"@ {
        Ok(Day::Monday)
    } else if t == "Вівторок"@ {
        Ok(Day::Tuesday)
    } else if t == "Середа"@ {
        Ok(Day::Wednesday)
    } else if t == "Четвер"@ {
        Ok(Day::Thursday)
    } else if t == "П’ятниця"@ || t == "П`ятниця"@ || t == "П'ятниця"@ {
        Ok(Day::Friday)
    } else if t == "Субота"@ {
        Ok(Day::Saturday)
    } else {
        Err(ErrorView::InvalidDayOfWeek(t))
    }
}

pub open spec fn day_text(d: Day) -> Seq<char> {
    match d {
        Day::Monday => "Понеділок"@,
        Day::Tuesday => "Вівторок"@,
        Day::Wednesday => "Середа"@,
        Day::Thursday => "Четвер"@,
        Day::Friday => "П'ятниця"@,
        Day::Saturday => "Субота"@,
    }
}

impl Day {
    pub fn from_str(s: &str) -> (r: Result<Day, ScheduleError>)
        ensures
            result_view(r) == parse_day(s@),
    {
        let cs = chars_of(s);
        day_from_chars(&cs)
    }

    /// The Ukrainian name of the day.
    pub fn to_string(&self) -> (r: String)
        ensures
            r@ == day_text(*self),
    {
        match self {
            Day::Monday => owned("Понеділок"),
            Day::Tuesday => owned("Вівторок"),
            Day::Wednesday => owned("Середа"),
            Day::Thursday => owned("Четвер"),
            Day::Friday => owned("П'ятниця"),
            Day::Saturday => owned("Субота"),
        }
    }
}

pub(crate) fn day_from_chars(s: &Vec<char>) -> (r: Result<Day, ScheduleError>)
    ensures
        result_view(r) == parse_day(s@),
{
    let blank = vec![' ', '\n'];
    assert(blank@ =~= blanks());
    let t = without_chars(s, &blank);
    if same_text(&t, "Понеділок") {
        Ok(Day::Monday)
    } else if same_text(&t, "Вівторок") {
        Ok(Day::Tuesday)
    } else if same_text(&t, "Середа") {
        Ok(Day::Wednesday)
    } else if same_text(&t, "Четвер") {
        Ok(Day::Thursday)
    } else if same_text(&t, "П’ятниця") || same_text(&t, "П`ятниця") || same_text(&t, "П'ятниця") {
        Ok(Day::Friday)
    } else if same_text(&t, "Субота") {
        Ok(Day::Saturday)
    } else {
        Err(ScheduleError::InvalidDayOfWeek(string_of(&t)))
    }
}

// ---------------------------------------------------------------- Group

/// One scheduled lesson of a discipline.
#[derive(Debug)]
pub struct Group {
    /// Lecture or classes of a numbered group.
    pub name: LessonType,
    pub time: LessonTime,
    pub weeks: Weeks,
    pub auditorium: Auditorium,
    pub day: Day,
}

/// The mathematical value of a [`Group`].
pub struct GroupView {
    pub name: LessonType,
    pub time: LessonTime,
    pub weeks: WeeksView,
    pub auditorium: Auditorium,
    pub day: Day,
}

impl View for Group {
    type V = GroupView;

    open spec fn view(&self) -> GroupView {
        GroupView {
            name: self.name,
            time: self.time,
            weeks: self.weeks@,
            auditorium: self.auditorium,
            day: self.day,
        }
    }
}

impl Group {
    /// A copy of this lesson.
    pub fn copy(&self) -> (r: Group)
        ensures
            r@ == self@,
    {
        Group {
            name: self.name,
            time: self.time,
            weeks: self.weeks.copy(),
            auditorium: self.auditorium,
            day: self.day,
        }
    }
}

// ---------------------------------------------------------------- round trips

/// The characters of a time's text are digits and the `:` between them.
proof fn lemma_time_text_chars(t: Time, c: char)
    requires
        !is_digit(c),
        c != ':',
    ensures
        !time_text(t).contains(c),
{
    let h = two_digits(t.spec_hours() as nat);
    let m = two_digits(t.spec_minutes() as nat);
    lemma_two_digits(t.spec_hours() as nat);
    lemma_two_digits(t.spec_minutes() as nat);
    let s = time_text(t);
    assert forall|i: int| 0 <= i < s.len() implies s[i] != c by {
        if i < h.len() {
            assert(s[i] == h[i]);
            assert(is_digit(h[i]));
        } else if i > h.len() {
            assert(s[i] == m[i - h.len() - 1]);
            assert(is_digit(m[i - h.len() - 1]));
        }
    }
}

/// Reading a valid time's text gives the time back.
pub proof fn lemma_time_round_trip(t: Time)
    requires
        t.wf(),
    ensures
        parse_time(time_text(t)) == Ok::<Time, ErrorView>(t),
{
    let h = two_digits(t.spec_hours() as nat);
    let m = two_digits(t.spec_minutes() as nat);
    lemma_two_digits(t.spec_hours() as nat);
    lemma_two_digits(t.spec_minutes() as nat);
    lemma_digits_lack(h, ':');
    assert(time_text(t) =~= h.push(':') + m);
    lemma_split_once_at(h, ':', m);
    lemma_parse_digits(h, 255);
    lemma_parse_digits(m, 255);
}

/// Reading a valid lesson time's text gives the lesson time back.
pub proof fn lemma_lesson_time_round_trip(t: LessonTime)
    requires
        t.from.wf(),
        t.to.wf(),
    ensures
        parse_lesson_time(lesson_time_text(t)) == Ok::<LessonTime, ErrorView>(t),
{
    lemma_time_text_chars(t.from, '-');
    assert(lesson_time_text(t) =~= time_text(t.from).push('-') + time_text(t.to));
    lemma_split_once_at(time_text(t.from), '-', time_text(t.to));
    lemma_time_round_trip(t.from);
    lemma_time_round_trip(t.to);
}

/// Reading a valid room's text gives the room back.
pub proof fn lemma_auditorium_number_round_trip(a: AuditoriumNumber)
    requires
        a.wf(),
    ensures
        parse_auditorium_number(auditorium_number_text(a)) == Ok::<AuditoriumNumber, ErrorView>(a),
{
    let p = decimal(a.spec_pavilion() as nat);
    let r = decimal(a.spec_room() as nat);
    lemma_decimal(a.spec_pavilion() as nat);
    lemma_decimal(a.spec_room() as nat);
    lemma_digits_lack(p, '-');
    assert(auditorium_number_text(a) =~= p.push('-') + r);
    lemma_split_once_at(p, '-', r);
    lemma_parse_digits(p, 255);
    lemma_parse_digits(r, 65535);
}

/// Reading a valid auditorium's text gives the auditorium back.
pub proof fn lemma_auditorium_round_trip(a: Auditorium)
    requires
        a matches Auditorium::Pavilion(n) ==> n.wf(),
    ensures
        parse_auditorium(auditorium_text(a)) == Ok::<Auditorium, ErrorView>(a),
{
    reveal_strlit("Дистанційно");
    reveal_strlit("Д");
    reveal_strlit("д");
    reveal_strlit("КМЦ");
    reveal_strlit("кмц");
    if let Auditorium::Pavilion(n) = a {
        let s = auditorium_number_text(n);
        lemma_decimal(n.spec_pavilion() as nat);
        assert(s[0] == decimal(n.spec_pavilion() as nat)[0]);
        assert(is_digit(s[0]));
        assert(s != "Дистанційно"@ && s != "Д"@ && s != "д"@) by {
            assert(!is_digit("Дистанційно"@[0]));
            assert(!is_digit("Д"@[0]));
            assert(!is_digit("д"@[0]));
        }
        assert(s != "КМЦ"@ && s != "кмц"@) by {
            assert(!is_digit("КМЦ"@[0]));
            assert(!is_digit("кмц"@[0]));
        }
        lemma_auditorium_number_round_trip(n);
    }
}

/// Reading a day's name gives the day back.
pub proof fn lemma_day_round_trip(d: Day)
    ensures
        parse_day(day_text(d)) == Ok::<Day, ErrorView>(d),
{
    reveal_strlit("Понеділок");
    reveal_strlit("Вівторок");
    reveal_strlit("Середа");
    reveal_strlit("Четвер");
    reveal_strlit("П’ятниця");
    reveal_strlit("П`ятниця");
    reveal_strlit("П'ятниця");
    reveal_strlit("Субота");
    reveal_strlit(" ");
    let s = day_text(d);
    assert forall|i: int| 0 <= i < s.len() implies !blanks().contains(#[trigger] s[i]) by {
        assert(blanks()[0] == ' ' && blanks()[1] == '\n');
        assert(blanks().len() == 2);
        if blanks().contains(s[i]) {
            let k = choose|k: int| 0 <= k < 2 && blanks()[k] == s[i];
            assert(k == 0 || k == 1);
        }
    }
    lemma_remove_absent(s, blanks());
    assert("Середа"@[0] != "Четвер"@[0]);
    assert("Субота"@[1] != "Середа"@[1]);
    assert("Субота"@[0] != "Четвер"@[0]);
    assert("П'ятниця"@[0] != "Вівторок"@[0]);
}

/// Reading a lesson type's text gives the lesson type back.
pub proof fn lemma_lesson_type_round_trip(t: LessonType)
    ensures
        parse_lesson_type(lesson_type_text(t)) == Ok::<LessonType, ErrorView>(t),
{
    reveal_strlit("лекція");
    reveal_strlit("Лекція");
    match t {
        LessonType::Lecture => {
            let s = lesson_type_text(t);
            assert(s.subrange(0, 0 + "Лекція"@.len() as int) =~= "Лекція"@);
        },
        LessonType::Classes(n) => {
            let s = decimal(n as nat);
            lemma_decimal(n as nat);
            assert forall|i: int| 0 <= i && i + "лекція"@.len() <= s.len() implies #[trigger] s.subrange(
                i,
                i + "лекція"@.len() as int,
            ) != "лекція"@ by {
                assert(s.subrange(i, i + "лекція"@.len() as int)[0] == s[i]);
                assert(is_digit(s[i]));
            }
            assert forall|i: int| 0 <= i && i + "Лекція"@.len() <= s.len() implies #[trigger] s.subrange(
                i,
                i + "Лекція"@.len() as int,
            ) != "Лекція"@ by {
                assert(s.subrange(i, i + "Лекція"@.len() as int)[0] == s[i]);
                assert(is_digit(s[i]));
            }
            lemma_digits_kept(s);
            lemma_parse_digits(s, 255);
        },
    }
}

/// A run of digits keeps all of its characters under `digits_in`.
proof fn lemma_digits_kept(s: Seq<char>)
    requires
        all_digits(s),
    ensures
        digits_in(s) == s,
    decreases s.len(),
{
    reveal(Seq::filter);
    if s.len() > 0 {
        lemma_digits_kept(s.drop_last());
        assert(s.drop_last().push(s.last()) =~= s);
    } else {
        assert(digits_in(s) =~= s);
    }
}

/// A text of digits and dashes is read as one week entry.
proof fn lemma_plain_weeks_text(s: Seq<char>)
    requires
        forall|i: int| 0 <= i < s.len() ==> (#[trigger] s[i] == '-' || is_digit(s[i])),
    ensures
        parse_weeks(s) == parse_week_entry(s),
{
    assert forall|i: int| 0 <= i < s.len() implies !blanks().contains(#[trigger] s[i]) by {
        if blanks().contains(s[i]) {
            let k = choose|k: int| 0 <= k < 2 && blanks()[k] == s[i];
            assert(k == 0 || k == 1);
        }
    }
    lemma_remove_absent(s, blanks());
    assert forall|i: int| 0 <= i < s.len() implies !seq![','].contains(#[trigger] s[i]) by {
        if seq![','].contains(s[i]) {
            let k = choose|k: int| 0 <= k < 1 && seq![','][k] == s[i];
            assert(k == 0);
        }
    }
    lemma_split_any_none(s, seq![',']);
}

/// Reading the text of a valid single week or week range gives it back.
pub proof fn lemma_weeks_round_trip(w: WeeksView)
    requires
        match w {
            WeeksView::Single(n) => week_in_range(n as nat),
            WeeksView::Range { first, last } => week_in_range(first as nat) && week_in_range(
                last as nat,
            ),
            WeeksView::Combined(_) => false,
        },
    ensures
        parse_weeks(weeks_text(w)) == Ok::<WeeksView, ErrorView>(w),
{
    let s = weeks_text(w);
    match w {
        WeeksView::Single(n) => {
            lemma_decimal(n as nat);
            lemma_plain_weeks_text(s);
            lemma_digits_lack(s, '-');
            lemma_find_none(s, '-', 0);
            lemma_parse_digits(s, 255);
        },
        WeeksView::Range { first, last } => {
            let a = decimal(first as nat);
            let b = decimal(last as nat);
            lemma_decimal(first as nat);
            lemma_decimal(last as nat);
            assert forall|i: int| 0 <= i < s.len() implies (#[trigger] s[i] == '-' || is_digit(
                s[i],
            )) by {
                if i < a.len() {
                    assert(s[i] == a[i]);
                } else if i > a.len() {
                    assert(s[i] == b[i - a.len() - 1]);
                }
            }
            lemma_plain_weeks_text(s);
            lemma_digits_lack(a, '-');
            assert(s =~= a.push('-') + b);
            lemma_split_once_at(a, '-', b);
            lemma_parse_digits(a, 255);
            lemma_parse_digits(b, 255);
        },
        WeeksView::Combined(_) => {},
    }
}

} // verus!
