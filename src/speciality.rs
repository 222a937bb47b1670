//! Speciality names and the classifier that reads them out of discipline names.
use vstd::prelude::*;

use crate::error::{result_view, ErrorView, ScheduleError};
use crate::text::{chars_of, owned, same_text, split_any, split_on, string_of, views};

verus! {

/// A course of study within a faculty. `General` collects the lessons that
/// belong to no particular one.
#[derive(Clone, Copy, Debug, PartialEq, Eq, Hash, Structural)]
pub enum SpecialityName {
    SoftwareEngineering,
    Economics,
    Management,
    Finances,
    Marketing,
    General,
}

pub open spec fn speciality_text(n: SpecialityName) -> Seq<char> {
    match n {
        SpecialityName::SoftwareEngineering => "Інженерія програмного забезпечення"@,
        SpecialityName::Economics => "Економіка"@,
        SpecialityName::Management => "Менеджмент"@,
        SpecialityName::Finances => "Фінанси"@,
        SpecialityName::Marketing => "Маркетинг"@,
        SpecialityName::General => "<загальна>"@,
    }
}

/// The grammar of a speciality's display name: exactly one of the six names.
pub open spec fn parse_speciality(s: Seq<char>) -> Result<SpecialityName, ErrorView> {
    if s == "Інженерія програмного забезпечення"@ {
        Ok(SpecialityName::SoftwareEngineering)
    } else if s == "Економіка"@ {
        Ok(SpecialityName::Economics)
    } else if s == "Менеджмент"@ {
        Ok(SpecialityName::Management)
    } else if s == "Фінанси"@ {
        Ok(SpecialityName::Finances)
    } else if s == "Маркетинг"@ {
        Ok(SpecialityName::Marketing)
    } else if s == "<загальна>"@ {
        Ok(SpecialityName::General)
    } else {
        Err(ErrorView::InvalidSpeciality(s))
    }
}

/// The speciality that one marker token abbreviates, if any.
pub open spec fn tag_of(t: Seq<char>) -> Option<SpecialityName> {
    if t == "ек"@ || t == "ек."@ || t == "екон."@ || t == "екон"@ || t == "економіка"@ {
        Some(SpecialityName::Economics)
    } else if t == "мен."@ || t == "мен"@ || t == "менеджмент"@ {
        Some(SpecialityName::Management)
    } else if t == "фін."@ || t == "фін"@ || t == "фінанси"@ {
        Some(SpecialityName::Finances)
    } else if t == "мар."@ || t == "марк."@ || t == "мар"@ || t == "марк"@ || t == "маркетинг"@ {
        Some(SpecialityName::Marketing)
    } else {
        None
    }
}

/// The specialities of the tokens that abbreviate one, in token order.
pub open spec fn tags_of(tokens: Seq<Seq<char>>) -> Seq<SpecialityName>
    decreases tokens.len(),
{
    if tokens.len() == 0 {
        Seq::empty()
    } else {
        let before = tags_of(tokens.drop_last());
        match tag_of(tokens.last()) {
            Some(n) => before.push(n),
            None => before,
        }
    }
}

/// The characters that cut a discipline name into marker tokens.
pub open spec fn marker_separators() -> Seq<char> {
    seq!['(', ')', '+', ',']
}

/// The specialities that a discipline name marks, in order and with
/// repetitions; `General` alone where it marks none.
pub open spec fn classify(discipline: Seq<char>) -> Seq<SpecialityName> {
    let tags = tags_of(split_any(discipline, marker_separators()));
    if tags.len() == 0 {
        seq![SpecialityName::General]
    } else {
        tags
    }
}

fn tag_from_chars(t: &Vec<char>) -> (r: Option<SpecialityName>)
    ensures
        r == tag_of(t@),
{
    if same_text(t, "ек") || same_text(t, "ек.") || same_text(t, "екон.") || same_text(t, "екон")
        || same_text(t, "економіка") {
        Some(SpecialityName::Economics)
    } else if same_text(t, "мен.") || same_text(t, "мен") || same_text(t, "менеджмент") {
        Some(SpecialityName::Management)
    } else if same_text(t, "фін.") || same_text(t, "фін") || same_text(t, "фінанси") {
        Some(SpecialityName::Finances)
    } else if same_text(t, "мар.") || same_text(t, "марк.") || same_text(t, "мар") || same_text(
        t,
        "марк",
    ) || same_text(t, "маркетинг") {
        Some(SpecialityName::Marketing)
    } else {
        None
    }
}

impl SpecialityName {
    /// The specialities that a discipline name marks, such as `(марк.)` or
    /// `(екон.+фін.)`; `General` where it marks none.
    pub fn from_discipline(discipline: &str) -> (r: Vec<SpecialityName>)
        ensures
            r@ == classify(discipline@),
    {
        let cs = chars_of(discipline);
        let seps = vec!['(', ')', '+', ','];
        assert(seps@ =~= marker_separators());
        let tokens = split_on(&cs, &seps);
        let ghost tv = views(tokens@);
        let mut names: Vec<SpecialityName> = Vec::new();
        let mut i: usize = 0;
        while i < tokens.len()
            invariant
                i <= tokens.len(),
                tv == views(tokens@),
                names@ == tags_of(tv.take(i as int)),
            decreases tokens.len() - i,
        {
            proof {
                assert(tv.take(i + 1).drop_last() =~= tv.take(i as int));
                assert(tv.take(i + 1).last() == tokens@[i as int]@);
            }
            match tag_from_chars(&tokens[i]) {
                Some(n) => names.push(n),
                None => {},
            }
            i += 1;
        }
        assert(tv.take(tokens.len() as int) =~= tv);
        if names.len() == 0 {
            names.push(SpecialityName::General);
            assert(names@ =~= seq![SpecialityName::General]);
        }
        names
    }

    /// Reads a speciality's display name.
    pub fn from_str(s: &str) -> (r: Result<SpecialityName, ScheduleError>)
        ensures
            result_view(r) == parse_speciality(s@),
    {
        let cs = chars_of(s);
        speciality_from_chars(&cs)
    }

    /// The Ukrainian display name.
    pub fn to_string(&self) -> (r: String)
        ensures
            r@ == speciality_text(*self),
    {
        match self {
            SpecialityName::SoftwareEngineering => owned("Інженерія програмного забезпечення"),
            SpecialityName::Economics => owned("Економіка"),
            SpecialityName::Management => owned("Менеджмент"),
            SpecialityName::Finances => owned("Фінанси"),
            SpecialityName::Marketing => owned("Маркетинг"),
            SpecialityName::General => owned("<загальна>"),
        }
    }
}

pub(crate) fn speciality_from_chars(s: &Vec<char>) -> (r: Result<SpecialityName, ScheduleError>)
    ensures
        result_view(r) == parse_speciality(s@),
{
    if same_text(s, "Інженерія програмного забезпечення") {
        Ok(SpecialityName::SoftwareEngineering)
    } else if same_text(s, "Економіка") {
        Ok(SpecialityName::Economics)
    } else if same_text(s, "Менеджмент") {
        Ok(SpecialityName::Management)
    } else if same_text(s, "Фінанси") {
        Ok(SpecialityName::Finances)
    } else if same_text(s, "Маркетинг") {
        Ok(SpecialityName::Marketing)
    } else if same_text(s, "<загальна>") {
        Ok(SpecialityName::General)
    } else {
        Err(ScheduleError::InvalidSpeciality(string_of(s)))
    }
}

/// Reading a speciality's display name gives the speciality back.
pub proof fn lemma_speciality_round_trip(n: SpecialityName)
    ensures
        parse_speciality(speciality_text(n)) == Ok::<SpecialityName, ErrorView>(n),
{
    reveal_strlit("Інженерія програмного забезпечення");
    reveal_strlit("Економіка");
    reveal_strlit("Менеджмент");
    reveal_strlit("Фінанси");
    reveal_strlit("Маркетинг");
    reveal_strlit("<загальна>");
    let names = seq![
        "Інженерія програмного забезпечення"@,
        "Економіка"@,
        "Менеджмент"@,
        "Фінанси"@,
        "Маркетинг"@,
        "<загальна>"@,
    ];
    assert(names[0].len() == 34 && names[1].len() == 9 && names[2].len() == 10);
    assert(names[3].len() == 7 && names[4].len() == 9 && names[5].len() == 10);
    assert(names[1][0] != names[4][0]);
    assert(names[2][0] != names[5][0]);
}

} // verus!
