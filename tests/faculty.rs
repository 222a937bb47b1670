use naukma_schedule::error::ScheduleError;
use naukma_schedule::group::{Auditorium, AuditoriumNumber, Day, Group, LessonType, Weeks};
use naukma_schedule::rows::{CarryState, Cell};
use naukma_schedule::schedule::{Faculty, Schedule, Sheet};
use naukma_schedule::speciality::SpecialityName;

fn text(s: &str) -> Cell {
    Cell::Text(s.to_string())
}

fn header() -> Vec<Cell> {
    vec![text("День"), text("Час"), text("Дисципліна"), text("Група"), text("Тижні"), text("Аудиторія")]
}

fn describe(g: &Group) -> String {
    format!(
        "{} {} {} {} {}",
        g.name.to_string(),
        g.time.to_string(),
        g.weeks.to_string(),
        g.auditorium.to_string(),
        g.day.to_string()
    )
}

#[test]
fn end_to_end_pinned_speciality() {
    let rows = vec![
        header(),
        vec![text("Понеділок"), text("08:30-09:50"), text("Інвестування"), text("Лекція"), text("1-12"), text("3-205")],
        vec![Cell::Empty, text("10:00-11:20"), text("Інвестування"), Cell::Int(1), Cell::Int(3), text("1-313")],
    ];
    let f = Faculty::new("Факультет Економічних Наук.Менеджмент.xlsx", &rows).unwrap();
    assert_eq!(f.name(), "Факультет Економічних Наук");
    let specs = f.specialities();
    assert_eq!(specs.len(), 1);
    assert_eq!(specs[0].0, SpecialityName::Management);
    assert_eq!(specs[0].0.to_string(), "Менеджмент");
    let ds = specs[0].1.disciplines();
    assert_eq!(ds.len(), 1);
    assert_eq!(ds[0].0, "Інвестування");
    let gs = ds[0].1.groups();
    assert_eq!(gs.len(), 2);
    assert_eq!(gs[0].name, LessonType::Lecture);
    assert!(matches!(gs[0].weeks, Weeks::Range { first: 1, last: 12 }));
    assert_eq!(gs[0].auditorium, Auditorium::Pavilion(AuditoriumNumber::new(3, 205).unwrap()));
    assert_eq!(gs[0].day, Day::Monday);
    assert_eq!(describe(&gs[0]), "Лекція 08:30-09:50 1-12 3-205 Понеділок");
    assert_eq!(gs[1].name, LessonType::Classes(1));
    assert!(matches!(gs[1].weeks, Weeks::Single(3)));
    assert_eq!(gs[1].auditorium, Auditorium::Pavilion(AuditoriumNumber::new(1, 313).unwrap()));
    assert_eq!(describe(&gs[1]), "1 10:00-11:20 3 1-313 Понеділок");
}

#[test]
fn carry_forward_of_day_and_time() {
    let rows = vec![
        vec![text("Понеділок"), text("08:30-09:50"), text("Курс"), text("Лекція"), text("1-12"), text("КМЦ")],
        vec![Cell::Empty, Cell::Empty, text("Курс"), text("2"), text("3"), text("Д")],
    ];
    let f = Faculty::new("Факультет", &rows).unwrap();
    let gs = f.specialities()[0].1.disciplines()[0].1.groups();
    assert_eq!(gs.len(), 2);
    assert_eq!(gs[1].day, Day::Monday);
    assert_eq!(gs[1].time, gs[0].time);
    assert_eq!(gs[1].time.to_string(), "08:30-09:50");
}

#[test]
fn carry_state_reads_rows_one_by_one() {
    let mut st = CarryState::new();
    assert_eq!(st.day, Day::Monday);
    assert_eq!(st.time.to_string(), "00:00-00:00");
    let first = vec![text("Вівторок"), text("11.40-13.00"), text("А  Б\n"), Cell::Empty, Cell::Empty, Cell::Empty];
    assert!(st.read_row(&first).unwrap().is_none());
    assert_eq!(st.day, Day::Tuesday);
    assert_eq!(st.time.to_string(), "11:40-13:00");
    let second = vec![Cell::Empty, Cell::Empty, text("А  Б\n"), text("Лекція"), text("5"), text("2-101")];
    let (name, g) = st.read_row(&second).unwrap().unwrap();
    assert_eq!(name, "А Б");
    assert_eq!(g.day, Day::Tuesday);
    assert_eq!(g.time.to_string(), "11:40-13:00");
    assert!(st.read_row(&header()).unwrap().is_none());
    assert_eq!(st.day, Day::Tuesday);
}

#[test]
fn same_discipline_merges_into_one_entry() {
    let rows = vec![
        vec![text("Середа"), text("08:30-09:50"), text("Інвестування"), text("Лекція"), text("1-12"), text("3-205")],
        vec![Cell::Empty, text("10:00-11:20"), text("Інвестування"), text("1"), text("2"), text("3-205")],
    ];
    let f = Faculty::new("Факультет.Менеджмент.xlsx", &rows).unwrap();
    let ds = f.specialities()[0].1.disciplines();
    assert_eq!(ds.len(), 1);
    let gs = ds[0].1.groups();
    assert_eq!(gs.len(), 2);
    assert_eq!(gs[0].name, LessonType::Lecture);
    assert_eq!(gs[1].name, LessonType::Classes(1));
}

#[test]
fn inferred_specialities_fan_out() {
    let rows = vec![
        vec![text("Четвер"), text("08:30-09:50"), text("Курс (екон.+фін.)"), text("Лекція"), text("1-12"), text("КМЦ")],
        vec![Cell::Empty, Cell::Empty, text("Загальний"), text("Лекція"), text("1"), text("КМЦ")],
        vec![Cell::Empty, Cell::Empty, text("Курс (фін.)"), text("2"), text("3"), text("1-101")],
    ];
    let f = Faculty::new("Факультет Економічних Наук.xlsx", &rows).unwrap();
    assert_eq!(f.name(), "Факультет Економічних Наук");
    let specs = f.specialities();
    let tags: Vec<SpecialityName> = specs.iter().map(|s| s.0).collect();
    assert_eq!(tags, vec![SpecialityName::Economics, SpecialityName::Finances, SpecialityName::General]);
    let fin = specs[1].1.disciplines();
    assert_eq!(fin.len(), 2);
    assert_eq!(fin[0].0, "Курс (екон.+фін.)");
    assert_eq!(fin[0].1.groups().len(), 1);
    assert_eq!(fin[1].0, "Курс (фін.)");
    assert_eq!(specs[0].1.disciplines()[0].1.groups()[0].day, Day::Thursday);
}

#[test]
fn empty_lesson_type_or_weeks_skips_row() {
    let rows = vec![
        vec![text("Субота"), text("08:30-09:50"), text("Курс"), Cell::Empty, text("1"), text("КМЦ")],
        vec![Cell::Empty, text("10:00-11:20"), text("Курс"), text("Лекція"), Cell::Empty, text("КМЦ")],
        vec![Cell::Empty, Cell::Empty, text("Курс"), text("Лекція"), text("4"), text("КМЦ")],
    ];
    let f = Faculty::new("Ф", &rows).unwrap();
    let gs = f.specialities()[0].1.disciplines()[0].1.groups();
    assert_eq!(gs.len(), 1);
    assert_eq!(gs[0].day, Day::Saturday);
    assert_eq!(gs[0].time.to_string(), "10:00-11:20");
}

#[test]
fn numeric_cells_and_their_errors() {
    let float = Cell::Float { whole: 2, text: "2.5".to_string() };
    let rows = vec![vec![text("Понеділок"), text("08:30-09:50"), Cell::Int(-7), float.clone(), float, text("КМЦ")]];
    let f = Faculty::new("Ф", &rows).unwrap();
    let ds = f.specialities()[0].1.disciplines();
    assert_eq!(ds[0].0, "-7");
    assert_eq!(ds[0].1.groups()[0].name, LessonType::Classes(2));
    let bad_type = vec![vec![text("Понеділок"), text("08:30-09:50"), text("Курс"), Cell::Other("true".to_string()), text("1"), text("КМЦ")]];
    assert!(matches!(Faculty::new("Ф", &bad_type), Err(ScheduleError::InvalidLessonType(s)) if s == "true"));
    let bad_weeks = vec![vec![text("Понеділок"), text("08:30-09:50"), text("Курс"), text("1"), Cell::Other("#DIV/0!".to_string()), text("КМЦ")]];
    assert!(matches!(Faculty::new("Ф", &bad_weeks), Err(ScheduleError::InvalidWeeksFormat(s)) if s == "#DIV/0!"));
    let zero_week = vec![vec![text("Понеділок"), text("08:30-09:50"), text("Курс"), text("1"), Cell::Int(0), text("КМЦ")]];
    assert!(matches!(Faculty::new("Ф", &zero_week), Err(ScheduleError::ValidationError(_))));
    let bad_room = vec![vec![text("Понеділок"), text("08:30-09:50"), text("Курс"), text("1"), text("1"), Cell::Int(205)]];
    assert!(matches!(Faculty::new("Ф", &bad_room), Err(ScheduleError::InvalidAuditorium(s)) if s == "205"));
    let wrapped = vec![vec![text("Понеділок"), text("08:30-09:50"), text("Курс"), Cell::Int(258), text("1"), text("КМЦ")]];
    let f = Faculty::new("Ф", &wrapped).unwrap();
    assert_eq!(f.specialities()[0].1.disciplines()[0].1.groups()[0].name, LessonType::Classes(2));
}

#[test]
fn first_error_aborts_the_file() {
    let rows = vec![
        vec![text("Понеділок"), text("08:30-09:50"), text("Курс"), text("Лекція"), text("1"), text("КМЦ")],
        vec![text("Неділя"), Cell::Empty, text("Курс"), text("Лекція"), text("1"), text("КМЦ")],
        vec![Cell::Empty, text("08:30"), text("Курс"), text("Лекція"), text("1"), text("КМЦ")],
    ];
    assert!(matches!(Faculty::new("Ф", &rows), Err(ScheduleError::InvalidDayOfWeek(s)) if s == "Неділя"));
}

#[test]
fn unknown_pinned_speciality_is_an_error() {
    let rows: Vec<Vec<Cell>> = vec![];
    assert!(matches!(Faculty::new("Факультет.Фізика.xlsx", &rows), Err(ScheduleError::InvalidSpeciality(s)) if s == "Фізика"));
    let f = Faculty::new("Факультет Інформатики.Інженерія програмного забезпечення.xlsx", &rows).unwrap();
    assert_eq!(f.name(), "Факультет Інформатики");
    assert_eq!(f.specialities().len(), 1);
    assert_eq!(f.specialities()[0].0, SpecialityName::SoftwareEngineering);
    assert!(f.specialities()[0].1.disciplines().is_empty());
}

#[test]
fn schedule_keeps_sheet_order() {
    let row = vec![text("Понеділок"), text("08:30-09:50"), text("Курс"), text("Лекція"), text("1"), text("КМЦ")];
    let sheets = vec![
        Sheet { identifier: "Б.xlsx".to_string(), rows: vec![row.clone()] },
        Sheet { identifier: "А.xlsx".to_string(), rows: vec![row.clone()] },
    ];
    let s = Schedule::new(&sheets).unwrap();
    assert_eq!(s.faculties.len(), 2);
    assert_eq!(s.faculties[0].name(), "Б");
    assert_eq!(s.faculties[1].name(), "А");
    let bad = vec![
        Sheet { identifier: "Б.xlsx".to_string(), rows: vec![row.clone()] },
        Sheet { identifier: "А.Х.xlsx".to_string(), rows: vec![row] },
    ];
    assert!(matches!(Schedule::new(&bad), Err(ScheduleError::InvalidSpeciality(s)) if s == "Х"));
}
