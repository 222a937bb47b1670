//! Errors of the cell grammars and of the value constructors.
use vstd::prelude::*;

verus! {

/// A field whose value lies outside its allowed range.
#[derive(Clone, Copy, Debug, PartialEq, Eq, Structural)]
pub enum Field {
    Hours,
    Minutes,
    Week,
    Pavilion,
    Room,
}

/// The fields of a value that failed their range checks, in declaration order.
#[derive(Clone, Debug)]
pub struct ValidationErrors {
    pub fields: Vec<Field>,
}

/// Why a piece of sheet text could not be interpreted.
#[derive(Clone, Debug)]
pub enum ScheduleError {
    /// A number lies outside the range of the value it builds.
    ValidationError(ValidationErrors),
    /// Not an auditorium: `3-205`, `1-313`, `КМЦ`, `Д`, `д`, `Дистанційно`.
    InvalidAuditorium(String),
    /// Not a week list: `1-13`, `2,3,7,9`, `1`, `1,3-8,10,12-16`.
    InvalidWeeksFormat(String),
    /// Not a time of day: `13:25`, `06.45`.
    InvalidTimeFormat(String),
    /// Not a lesson time: `08:30-09:50`, `11.40-13.00`.
    InvalidLessonTime(String),
    /// Neither a lecture nor a group number.
    InvalidLessonType(String),
    /// Not a day of the week.
    InvalidDayOfWeek(String),
    /// Not a speciality name.
    InvalidSpeciality(String),
}

/// The mathematical value of a [`ScheduleError`]: texts as character sequences.
pub enum ErrorView {
    Validation(Seq<Field>),
    InvalidAuditorium(Seq<char>),
    InvalidWeeksFormat(Seq<char>),
    InvalidTimeFormat(Seq<char>),
    InvalidLessonTime(Seq<char>),
    InvalidLessonType(Seq<char>),
    InvalidDayOfWeek(Seq<char>),
    InvalidSpeciality(Seq<char>),
}

impl View for ScheduleError {
    type V = ErrorView;

    open spec fn view(&self) -> ErrorView {
        match self {
            ScheduleError::ValidationError(e) => ErrorView::Validation(e.fields@),
            ScheduleError::InvalidAuditorium(s) => ErrorView::InvalidAuditorium(s@),
            ScheduleError::InvalidWeeksFormat(s) => ErrorView::InvalidWeeksFormat(s@),
            ScheduleError::InvalidTimeFormat(s) => ErrorView::InvalidTimeFormat(s@),
            ScheduleError::InvalidLessonTime(s) => ErrorView::InvalidLessonTime(s@),
            ScheduleError::InvalidLessonType(s) => ErrorView::InvalidLessonType(s@),
            ScheduleError::InvalidDayOfWeek(s) => ErrorView::InvalidDayOfWeek(s@),
            ScheduleError::InvalidSpeciality(s) => ErrorView::InvalidSpeciality(s@),
        }
    }
}

/// A result with its error replaced by the error's view.
pub open spec fn result_view<T>(r: Result<T, ScheduleError>) -> Result<T, ErrorView> {
    match r {
        Ok(v) => Ok(v),
        Err(e) => Err(e@),
    }
}

} // verus!
