use naukma_schedule::error::{Field, ScheduleError};
use naukma_schedule::group::{Auditorium, AuditoriumNumber, Day, LessonTime, LessonType, Time, Weeks};

#[test]
fn time_reads_colon_and_dot() {
    let t = Time::from_str("08:30").unwrap();
    assert_eq!((t.hours(), t.minutes()), (8, 30));
    let t = Time::from_str("06.45").unwrap();
    assert_eq!((t.hours(), t.minutes()), (6, 45));
    assert_eq!(Time::from_str("+7:05").unwrap().to_string(), "07:05");
}

#[test]
fn time_renders_zero_padded() {
    assert_eq!(Time::new(8, 5).unwrap().to_string(), "08:05");
    assert_eq!(Time::new(13, 25).unwrap().to_string(), "13:25");
    assert_eq!(Time::new(0, 0).unwrap().to_string(), "00:00");
}

#[test]
fn time_hour_and_minute_bounds() {
    assert!(Time::new(0, 0).is_ok());
    assert!(Time::new(23, 59).is_ok());
    let e = Time::new(24, 0).unwrap_err();
    assert_eq!(e.fields, vec![Field::Hours]);
    let e = Time::new(0, 60).unwrap_err();
    assert_eq!(e.fields, vec![Field::Minutes]);
    let e = Time::new(24, 60).unwrap_err();
    assert_eq!(e.fields, vec![Field::Hours, Field::Minutes]);
    assert!(Time::from_str("23:00").is_ok());
    assert!(matches!(Time::from_str("24:00"), Err(ScheduleError::ValidationError(_))));
    assert!(matches!(Time::from_str("10:60"), Err(ScheduleError::ValidationError(_))));
    assert!(Time::from_str("10:59").is_ok());
}

#[test]
fn time_rejects_malformed_text() {
    assert!(matches!(Time::from_str("0830"), Err(ScheduleError::InvalidTimeFormat(s)) if s == "0830"));
    assert!(matches!(Time::from_str("ab:30"), Err(ScheduleError::InvalidTimeFormat(s)) if s == "ab:30"));
    assert!(matches!(Time::from_str("08:"), Err(ScheduleError::InvalidTimeFormat(_))));
    assert!(matches!(Time::from_str("300:00"), Err(ScheduleError::InvalidTimeFormat(_))));
}

#[test]
fn lesson_time_round_trip() {
    let t = LessonTime::from_str("08:30-09:50").unwrap();
    assert_eq!(t.from.to_string(), "08:30");
    assert_eq!(t.to.to_string(), "09:50");
    assert_eq!(t.to_string(), "08:30-09:50");
    assert_eq!(LessonTime::from_str(&t.to_string()).unwrap(), t);
    assert_eq!(LessonTime::from_str("11.40-13.00").unwrap().to_string(), "11:40-13:00");
}

#[test]
fn lesson_time_errors() {
    assert!(matches!(LessonTime::from_str("08:30"), Err(ScheduleError::InvalidLessonTime(s)) if s == "08:30"));
    assert!(matches!(LessonTime::from_str("08:30-x"), Err(ScheduleError::InvalidTimeFormat(s)) if s == "x"));
}

#[test]
fn lesson_type_lecture_and_groups() {
    assert_eq!(LessonType::from_str("Лекція").unwrap(), LessonType::Lecture);
    assert_eq!(LessonType::from_str("лекція (потік)").unwrap(), LessonType::Lecture);
    assert_eq!(LessonType::from_str("1").unwrap(), LessonType::Classes(1));
    assert_eq!(LessonType::from_str("група 12").unwrap(), LessonType::Classes(12));
    assert_eq!(LessonType::Lecture.to_string(), "Лекція");
    assert_eq!(LessonType::Classes(7).to_string(), "7");
    for t in [LessonType::Lecture, LessonType::Classes(0), LessonType::Classes(255)] {
        assert_eq!(LessonType::from_str(&t.to_string()).unwrap(), t);
    }
}

#[test]
fn lesson_type_errors() {
    assert!(matches!(LessonType::from_str("практика"), Err(ScheduleError::InvalidLessonType(s)) if s == "практика"));
    assert!(matches!(LessonType::from_str("256"), Err(ScheduleError::InvalidLessonType(_))));
}

#[test]
fn weeks_single_range_combined() {
    assert!(matches!(Weeks::from_str("6").unwrap(), Weeks::Single(6)));
    assert!(matches!(Weeks::from_str("3-14").unwrap(), Weeks::Range { first: 3, last: 14 }));
    match Weeks::from_str("1,3-8,10,12-16").unwrap() {
        Weeks::Combined(ws) => {
            assert_eq!(ws.len(), 4);
            assert!(matches!(ws[0], Weeks::Single(1)));
            assert!(matches!(ws[1], Weeks::Range { first: 3, last: 8 }));
            assert!(matches!(ws[2], Weeks::Single(10)));
            assert!(matches!(ws[3], Weeks::Range { first: 12, last: 16 }));
        }
        other => panic!("expected a combined list, got {:?}", other),
    }
}

#[test]
fn weeks_malformed_text() {
    assert!(matches!(Weeks::from_str("abc"), Err(ScheduleError::InvalidWeeksFormat(s)) if s == "abc"));
    assert!(matches!(Weeks::from_str("1,,2"), Err(ScheduleError::InvalidWeeksFormat(s)) if s.is_empty()));
    assert!(matches!(Weeks::from_str("1-x"), Err(ScheduleError::InvalidWeeksFormat(s)) if s == "1-x"));
}

#[test]
fn weeks_bounds() {
    assert!(matches!(Weeks::from_str("1").unwrap(), Weeks::Single(1)));
    assert!(matches!(Weeks::from_str("40").unwrap(), Weeks::Single(40)));
    assert!(matches!(Weeks::from_str("0"), Err(ScheduleError::ValidationError(_))));
    assert!(matches!(Weeks::from_str("41"), Err(ScheduleError::ValidationError(_))));
    assert!(matches!(Weeks::from_str("1-41"), Err(ScheduleError::ValidationError(e)) if e.fields == vec![Field::Week]));
}

#[test]
fn weeks_drops_blanks_and_renders() {
    assert_eq!(Weeks::from_str(" 1, 3 -8,\n10").unwrap().to_string(), "1,3-8,10");
    assert_eq!(Weeks::from_str("1,3-8,10,12-16").unwrap().to_string(), "1,3-8,10,12-16");
    assert_eq!(Weeks::from_str("14-3").unwrap().to_string(), "14-3");
    assert!(matches!(Weeks::default(), Weeks::Single(1)));
    let w = Weeks::from_str("2,4").unwrap();
    assert_eq!(w.copy().to_string(), "2,4");
}

#[test]
fn auditorium_number_bounds() {
    assert!(AuditoriumNumber::new(1, 1).is_ok());
    assert!(AuditoriumNumber::new(9, 599).is_ok());
    assert_eq!(AuditoriumNumber::new(0, 1).unwrap_err().fields, vec![Field::Pavilion]);
    assert_eq!(AuditoriumNumber::new(10, 1).unwrap_err().fields, vec![Field::Pavilion]);
    assert_eq!(AuditoriumNumber::new(1, 0).unwrap_err().fields, vec![Field::Room]);
    assert_eq!(AuditoriumNumber::new(1, 600).unwrap_err().fields, vec![Field::Room]);
    assert!(AuditoriumNumber::from_str("9-599").is_ok());
    assert!(matches!(AuditoriumNumber::from_str("10-1"), Err(ScheduleError::InvalidAuditorium(s)) if s == "10-1"));
    assert!(matches!(AuditoriumNumber::from_str("1-600"), Err(ScheduleError::InvalidAuditorium(_))));
    assert!(matches!(AuditoriumNumber::from_str("0-5"), Err(ScheduleError::InvalidAuditorium(_))));
}

#[test]
fn auditorium_words_and_rooms() {
    assert_eq!(Auditorium::from_str("Д").unwrap(), Auditorium::Distance);
    assert_eq!(Auditorium::from_str("д").unwrap(), Auditorium::Distance);
    assert_eq!(Auditorium::from_str("Дистанційно").unwrap(), Auditorium::Distance);
    assert_eq!(Auditorium::from_str("КМЦ").unwrap(), Auditorium::ArtCenter);
    assert_eq!(Auditorium::from_str("кмц").unwrap(), Auditorium::ArtCenter);
    let a = Auditorium::from_str("3-205").unwrap();
    assert_eq!(a, Auditorium::Pavilion(AuditoriumNumber::new(3, 205).unwrap()));
    assert_eq!(a.to_string(), "3-205");
    assert_eq!(Auditorium::Distance.to_string(), "Дистанційно");
    assert_eq!(Auditorium::ArtCenter.to_string(), "КМЦ");
    assert!(matches!(Auditorium::from_str("аудиторія"), Err(ScheduleError::InvalidAuditorium(s)) if s == "аудиторія"));
}

#[test]
fn auditorium_round_trip_values() {
    for a in [
        Auditorium::Distance,
        Auditorium::ArtCenter,
        Auditorium::Pavilion(AuditoriumNumber::new(1, 1).unwrap()),
        Auditorium::Pavilion(AuditoriumNumber::new(9, 599).unwrap()),
    ] {
        assert_eq!(Auditorium::from_str(&a.to_string()).unwrap(), a);
    }
}

#[test]
fn day_names() {
    assert_eq!(Day::from_str("Понеділок").unwrap(), Day::Monday);
    assert_eq!(Day::from_str(" Середа\n").unwrap(), Day::Wednesday);
    assert_eq!(Day::from_str("П’ятниця").unwrap(), Day::Friday);
    assert_eq!(Day::from_str("П`ятниця").unwrap(), Day::Friday);
    assert_eq!(Day::from_str("П'ятниця").unwrap(), Day::Friday);
    assert_eq!(Day::Wednesday.to_string(), "Середа");
    for d in [Day::Monday, Day::Tuesday, Day::Wednesday, Day::Thursday, Day::Friday, Day::Saturday] {
        assert_eq!(Day::from_str(&d.to_string()).unwrap(), d);
    }
    assert!(matches!(Day::from_str("Неділя"), Err(ScheduleError::InvalidDayOfWeek(s)) if s == "Неділя"));
}

#[test]
fn time_round_trip_values() {
    for (h, m) in [(0, 0), (8, 30), (23, 59), (9, 5)] {
        let t = Time::new(h, m).unwrap();
        assert_eq!(Time::from_str(&t.to_string()).unwrap(), t);
        let n = AuditoriumNumber::new((h % 9) + 1, m as u16 + 1).unwrap();
        assert_eq!(AuditoriumNumber::from_str(&n.to_string()).unwrap(), n);
    }
}
