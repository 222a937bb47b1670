use naukma_schedule::error::ScheduleError;
use naukma_schedule::speciality::SpecialityName;

#[test]
fn fan_out_to_two_specialities() {
    assert_eq!(
        SpecialityName::from_discipline("Курс (екон.+фін.)"),
        vec![SpecialityName::Economics, SpecialityName::Finances]
    );
}

#[test]
fn no_marker_is_general() {
    assert_eq!(SpecialityName::from_discipline("Курс"), vec![SpecialityName::General]);
    assert_eq!(SpecialityName::from_discipline(""), vec![SpecialityName::General]);
}

#[test]
fn markers_keep_order_and_repeats() {
    assert_eq!(SpecialityName::from_discipline("Інвестування (мен.)"), vec![SpecialityName::Management]);
    assert_eq!(SpecialityName::from_discipline("Курс,мар."), vec![SpecialityName::Marketing]);
    assert_eq!(
        SpecialityName::from_discipline("Курс (марк.+ек+марк)"),
        vec![SpecialityName::Marketing, SpecialityName::Economics, SpecialityName::Marketing]
    );
    // Tokens are not trimmed: a space before the marker hides it.
    assert_eq!(SpecialityName::from_discipline("Курс, мар."), vec![SpecialityName::General]);
}

#[test]
fn speciality_names_round_trip() {
    for n in [
        SpecialityName::SoftwareEngineering,
        SpecialityName::Economics,
        SpecialityName::Management,
        SpecialityName::Finances,
        SpecialityName::Marketing,
        SpecialityName::General,
    ] {
        assert_eq!(SpecialityName::from_str(&n.to_string()).unwrap(), n);
    }
    assert_eq!(SpecialityName::Management.to_string(), "Менеджмент");
    assert!(matches!(SpecialityName::from_str("Фізика"), Err(ScheduleError::InvalidSpeciality(s)) if s == "Фізика"));
}
