//! The schedule tree: faculties hold specialities, specialities hold
//! disciplines, disciplines hold lessons. Keys are unique at each level and
//! kept in insertion order.
use vstd::prelude::*;

use crate::error::{ErrorView, ScheduleError};
use crate::group::{Group, GroupView};
use crate::rows::{rows_view, scan, CarryState, Cell, Lesson, ROW_WIDTH};
use crate::speciality::{classify, parse_speciality, speciality_from_chars, SpecialityName};
use crate::text::{chars_of, split_any, split_on, string_of};

verus! {

/// The lessons of one discipline, in row order.
#[derive(Debug)]
pub struct Discipline {
    groups: Vec<Group>,
}

/// The disciplines of one speciality, by normalized name, in insertion order.
#[derive(Debug)]
pub struct Speciality {
    disciplines: Vec<(String, Discipline)>,
}

/// A faculty: its name and its specialities, in insertion order.
#[derive(Debug)]
pub struct Faculty {
    name: String,
    specialities: Vec<(SpecialityName, Speciality)>,
}

/// The faculties of all sheets, in the order the sheets were given.
#[derive(Debug)]
pub struct Schedule {
    pub faculties: Vec<Faculty>,
}

/// One decoded sheet: the identifier of its file and its rows.
#[derive(Clone, Debug)]
pub struct Sheet {
    pub identifier: String,
    pub rows: Vec<Vec<Cell>>,
}

pub type DisciplinesView = Seq<(Seq<char>, Seq<GroupView>)>;

pub type SpecialitiesView = Seq<(SpecialityName, DisciplinesView)>;

/// The mathematical value of a [`Faculty`].
pub struct FacultyView {
    pub name: Seq<char>,
    pub specialities: SpecialitiesView,
}

impl View for Discipline {
    type V = Seq<GroupView>;

    closed spec fn view(&self) -> Seq<GroupView> {
        self.groups@.map_values(|g: Group| g@)
    }
}

impl View for Speciality {
    type V = DisciplinesView;

    closed spec fn view(&self) -> DisciplinesView {
        self.disciplines@.map_values(|e: (String, Discipline)| (e.0@, e.1@))
    }
}

impl View for Faculty {
    type V = FacultyView;

    closed spec fn view(&self) -> FacultyView {
        FacultyView {
            name: self.name@,
            specialities: self.specialities@.map_values(
                |e: (SpecialityName, Speciality)| (e.0, e.1@),
            ),
        }
    }
}

/// Index of the first entry of `s` with key `k`, at or after `from`.
pub open spec fn key_index_from<K, V>(s: Seq<(K, V)>, k: K, from: nat) -> Option<nat>
    decreases s.len() - from,
{
    if from >= s.len() {
        None
    } else if s[from as int].0 == k {
        Some(from)
    } else {
        key_index_from(s, k, from + 1)
    }
}

pub open spec fn key_index<K, V>(s: Seq<(K, V)>, k: K) -> Option<nat> {
    key_index_from(s, k, 0)
}

/// No two entries share a key.
pub open spec fn unique_keys<K, V>(s: Seq<(K, V)>) -> bool {
    forall|i: int, j: int| 0 <= i < j < s.len() ==> s[i].0 != s[j].0
}

/// `g` added to the discipline `name`: appended to its lessons where it is
/// present, else a new discipline at the end with `g` alone.
pub open spec fn add_lesson(ds: DisciplinesView, name: Seq<char>, g: GroupView) -> DisciplinesView {
    match key_index(ds, name) {
        Some(i) => ds.update(i as int, (name, ds[i as int].1.push(g))),
        None => ds.push((name, seq![g])),
    }
}

/// `g` added to discipline `name` of speciality `tag`, which is created at
/// the end where it is missing.
pub open spec fn add_to_speciality(
    sp: SpecialitiesView,
    tag: SpecialityName,
    name: Seq<char>,
    g: GroupView,
) -> SpecialitiesView {
    match key_index(sp, tag) {
        Some(i) => sp.update(i as int, (tag, add_lesson(sp[i as int].1, name, g))),
        None => sp.push((tag, add_lesson(Seq::empty(), name, g))),
    }
}

/// `g` added under each of `tags` in turn.
pub open spec fn add_to_each(
    sp: SpecialitiesView,
    tags: Seq<SpecialityName>,
    name: Seq<char>,
    g: GroupView,
) -> SpecialitiesView
    decreases tags.len(),
{
    if tags.len() == 0 {
        sp
    } else {
        add_to_speciality(add_to_each(sp, tags.drop_last(), name, g), tags.last(), name, g)
    }
}

/// Where a lesson goes: under the pinned speciality, or under each that the
/// discipline name marks.
pub open spec fn place(
    sp: SpecialitiesView,
    pinned: Option<SpecialityName>,
    name: Seq<char>,
    g: GroupView,
) -> SpecialitiesView {
    match pinned {
        Some(tag) => add_to_speciality(sp, tag, name, g),
        None => add_to_each(sp, classify(name), name, g),
    }
}

/// The lessons placed one after another.
pub open spec fn assemble(
    sp: SpecialitiesView,
    pinned: Option<SpecialityName>,
    lessons: Seq<Lesson>,
) -> SpecialitiesView
    decreases lessons.len(),
{
    if lessons.len() == 0 {
        sp
    } else {
        let l = lessons.last();
        place(assemble(sp, pinned, lessons.drop_last()), pinned, l.0, l.1)
    }
}

/// The faculty name and pinned speciality that a file identifier gives: with
/// exactly three `.`-separated parts, the first is the name and the second a
/// speciality; otherwise the first part is the name and nothing is pinned.
pub open spec fn faculty_header(id: Seq<char>) -> Result<(Seq<char>, Option<SpecialityName>), ErrorView> {
    let parts = split_any(id, seq!['.']);
    if parts.len() == 3 {
        match parse_speciality(parts[1]) {
            Ok(tag) => Ok((parts[0], Some(tag))),
            Err(e) => Err(e),
        }
    } else {
        Ok((parts[0], None))
    }
}

/// The specialities before any row: the pinned one, empty, if any.
pub open spec fn initial_specialities(pinned: Option<SpecialityName>) -> SpecialitiesView {
    match pinned {
        Some(tag) => seq![(tag, Seq::empty())],
        None => Seq::empty(),
    }
}

/// The faculty that a file identifier and its rows describe, or the first error.
pub open spec fn faculty_of(id: Seq<char>, rows: Seq<Seq<Cell>>) -> Result<FacultyView, ErrorView> {
    match faculty_header(id) {
        Err(e) => Err(e),
        Ok((name, pinned)) => match scan(rows) {
            Err(e) => Err(e),
            Ok((_, lessons)) => Ok(
                FacultyView {
                    name,
                    specialities: assemble(initial_specialities(pinned), pinned, lessons),
                },
            ),
        },
    }
}

/// The faculties of the sheets in order, or the first error.
pub open spec fn schedule_of(sheets: Seq<Sheet>) -> Result<Seq<FacultyView>, ErrorView>
    decreases sheets.len(),
{
    if sheets.len() == 0 {
        Ok(Seq::empty())
    } else {
        match schedule_of(sheets.drop_last()) {
            Err(e) => Err(e),
            Ok(fs) => match faculty_of(sheets.last().identifier@, rows_view(sheets.last().rows@)) {
                Err(e) => Err(e),
                Ok(f) => Ok(fs.push(f)),
            },
        }
    }
}

/// Every row holds all six columns.
pub open spec fn rows_wide(rows: Seq<Vec<Cell>>) -> bool {
    forall|i: int| 0 <= i < rows.len() ==> (#[trigger] rows[i]).len() >= ROW_WIDTH
}

/// Keys are unique among the specialities and among the disciplines of each.
pub open spec fn specialities_wf(sp: SpecialitiesView) -> bool {
    &&& unique_keys(sp)
    &&& forall|i: int| 0 <= i < sp.len() ==> unique_keys(#[trigger] sp[i].1)
}

pub proof fn lemma_key_index<K, V>(s: Seq<(K, V)>, k: K, from: nat)
    ensures
        match key_index_from(s, k, from) {
            Some(i) => from <= i < s.len() && s[i as int].0 == k,
            None => forall|j: int| from <= j < s.len() ==> s[j].0 != k,
        },
    decreases s.len() - from,
{
    if from < s.len() && s[from as int].0 != k {
        lemma_key_index(s, k, from + 1);
    }
}

/// Adding a lesson keeps discipline names unique.
pub proof fn lemma_add_lesson_unique(ds: DisciplinesView, name: Seq<char>, g: GroupView)
    requires
        unique_keys(ds),
    ensures
        unique_keys(add_lesson(ds, name, g)),
{
    lemma_key_index(ds, name, 0);
}

/// Adding a lesson under a speciality keeps the tree's keys unique.
pub proof fn lemma_add_to_speciality_wf(
    sp: SpecialitiesView,
    tag: SpecialityName,
    name: Seq<char>,
    g: GroupView,
)
    requires
        specialities_wf(sp),
    ensures
        specialities_wf(add_to_speciality(sp, tag, name, g)),
{
    lemma_key_index(sp, tag, 0);
    let r = add_to_speciality(sp, tag, name, g);
    match key_index(sp, tag) {
        Some(i) => {
            lemma_add_lesson_unique(sp[i as int].1, name, g);
            assert forall|j: int| 0 <= j < r.len() implies unique_keys(#[trigger] r[j].1) by {
                if j != i {
                    assert(r[j] == sp[j]);
                }
            }
        },
        None => {
            lemma_add_lesson_unique(Seq::empty(), name, g);
            assert forall|j: int| 0 <= j < r.len() implies unique_keys(#[trigger] r[j].1) by {
                if j < sp.len() {
                    assert(r[j] == sp[j]);
                }
            }
        },
    }
}

pub proof fn lemma_add_to_each_wf(
    sp: SpecialitiesView,
    tags: Seq<SpecialityName>,
    name: Seq<char>,
    g: GroupView,
)
    requires
        specialities_wf(sp),
    ensures
        specialities_wf(add_to_each(sp, tags, name, g)),
    decreases tags.len(),
{
    if tags.len() > 0 {
        lemma_add_to_each_wf(sp, tags.drop_last(), name, g);
        lemma_add_to_speciality_wf(add_to_each(sp, tags.drop_last(), name, g), tags.last(), name, g);
    }
}

/// The lessons of discipline `name` under speciality `tag`; empty where
/// either is missing.
pub open spec fn lessons_under(sp: SpecialitiesView, tag: SpecialityName, name: Seq<char>) -> Seq<
    GroupView,
> {
    match key_index(sp, tag) {
        Some(i) => match key_index(sp[i as int].1, name) {
            Some(j) => sp[i as int].1[j as int].1,
            None => Seq::empty(),
        },
        None => Seq::empty(),
    }
}

/// Where two sequences hold the same keys, the first index of a key agrees.
proof fn lemma_key_index_same_keys<K, V>(s1: Seq<(K, V)>, s2: Seq<(K, V)>, k: K, from: nat)
    requires
        s1.len() == s2.len(),
        forall|j: int| 0 <= j < s1.len() ==> (#[trigger] s1[j]).0 == s2[j].0,
    ensures
        key_index_from(s1, k, from) == key_index_from(s2, k, from),
    decreases s1.len() - from,
{
    if from < s1.len() {
        assert(s1[from as int].0 == s2[from as int].0);
        lemma_key_index_same_keys(s1, s2, k, from + 1);
    }
}

/// A key found nowhere in `s` is found at the entry pushed after it.
proof fn lemma_key_index_push<K, V>(s: Seq<(K, V)>, e: (K, V), from: nat)
    requires
        from <= s.len(),
        forall|j: int| from <= j < s.len() ==> s[j].0 != e.0,
    ensures
        key_index_from(s.push(e), e.0, from) == Some(s.len()),
    decreases s.len() - from,
{
    if from < s.len() {
        assert(s.push(e)[from as int] == s[from as int]);
        lemma_key_index_push(s, e, from + 1);
    } else {
        assert(s.push(e)[from as int] == e);
    }
}

/// Adding a lesson appends it to the lessons of its discipline.
proof fn lemma_add_lesson_appends(ds: DisciplinesView, name: Seq<char>, g: GroupView)
    ensures
        add_lesson(ds, name, g)[key_index(add_lesson(ds, name, g), name)->0 as int].1 == (
        match key_index(ds, name) {
            Some(j) => ds[j as int].1,
            None => Seq::empty(),
        }).push(g),
        key_index(add_lesson(ds, name, g), name) is Some,
{
    lemma_key_index(ds, name, 0);
    let r = add_lesson(ds, name, g);
    match key_index(ds, name) {
        Some(j) => {
            assert forall|k: int| 0 <= k < ds.len() implies (#[trigger] ds[k]).0 == r[k].0 by {
                if k == j {
                    assert(r[k].0 == name);
                }
            }
            lemma_key_index_same_keys(ds, r, name, 0);
        },
        None => {
            lemma_key_index_push(ds, (name, seq![g]), 0);
            assert(seq![g] =~= Seq::<GroupView>::empty().push(g));
        },
    }
}

/// Adding a lesson under a speciality appends it to the lessons of its
/// discipline there.
proof fn lemma_add_to_speciality_appends(
    sp: SpecialitiesView,
    tag: SpecialityName,
    name: Seq<char>,
    g: GroupView,
)
    ensures
        lessons_under(add_to_speciality(sp, tag, name, g), tag, name) == lessons_under(
            sp,
            tag,
            name,
        ).push(g),
{
    lemma_key_index(sp, tag, 0);
    let r = add_to_speciality(sp, tag, name, g);
    match key_index(sp, tag) {
        Some(i) => {
            assert forall|k: int| 0 <= k < sp.len() implies (#[trigger] sp[k]).0 == r[k].0 by {
                if k == i {
                    assert(r[k].0 == tag);
                }
            }
            lemma_key_index_same_keys(sp, r, tag, 0);
            lemma_add_lesson_appends(sp[i as int].1, name, g);
        },
        None => {
            lemma_key_index_push(sp, (tag, add_lesson(Seq::empty(), name, g)), 0);
            lemma_add_lesson_appends(Seq::empty(), name, g);
        },
    }
}

/// Two lessons of the same discipline under the same speciality end up in
/// one discipline entry, after the lessons it already held and in the order
/// they were added; names stay unique.
pub proof fn lemma_same_discipline_merges(
    sp: SpecialitiesView,
    tag: SpecialityName,
    name: Seq<char>,
    first: GroupView,
    second: GroupView,
)
    requires
        specialities_wf(sp),
    ensures
        specialities_wf(
            add_to_speciality(add_to_speciality(sp, tag, name, first), tag, name, second),
        ),
        lessons_under(
            add_to_speciality(add_to_speciality(sp, tag, name, first), tag, name, second),
            tag,
            name,
        ) == lessons_under(sp, tag, name).push(first).push(second),
{
    let once = add_to_speciality(sp, tag, name, first);
    lemma_add_to_speciality_wf(sp, tag, name, first);
    lemma_add_to_speciality_wf(once, tag, name, second);
    lemma_add_to_speciality_appends(sp, tag, name, first);
    lemma_add_to_speciality_appends(once, tag, name, second);
}

impl Discipline {
    pub fn groups(&self) -> (r: &Vec<Group>)
        ensures
            r@.map_values(|g: Group| g@) == self@,
    {
        &self.groups
    }
}

impl Speciality {
    pub fn disciplines(&self) -> (r: &Vec<(String, Discipline)>)
        ensures
            r@.map_values(|e: (String, Discipline)| (e.0@, e.1@)) == self@,
    {
        &self.disciplines
    }

    fn empty() -> (r: Speciality)
        ensures
            r@ == Seq::<(Seq<char>, Seq<GroupView>)>::empty(),
    {
        let r = Speciality { disciplines: Vec::new() };
        assert(r@ =~= Seq::<(Seq<char>, Seq<GroupView>)>::empty());
        r
    }

    /// Appends `g` to discipline `name`, or adds that discipline with `g` alone.
    fn add_lesson(&mut self, name: &String, g: Group)
        ensures
            final(self)@ == add_lesson(old(self)@, name@, g@),
    {
        let ghost before = self@;
        let mut i: usize = 0;
        while i < self.disciplines.len()
            invariant
                self@ == before,
                before == old(self)@,
                i <= self.disciplines.len(),
                key_index(before, name@) == key_index_from(before, name@, i as nat),
            decreases self.disciplines.len() - i,
        {
            if self.disciplines[i].0 == *name {
                assert(before[i as int].0 == name@);
                assert(key_index(before, name@) == Some(i as nat));
                let (key, mut d) = self.disciplines.remove(i);
                let ghost groups_before = d@;
                d.groups.push(g);
                assert(d@ =~= groups_before.push(g@));
                self.disciplines.insert(i, (key, d));
                assert(self@ =~= before.update(i as int, (name@, before[i as int].1.push(g@))));
                return;
            }
            assert(before[i as int].0 != name@);
            i += 1;
        }
        let d = Discipline { groups: vec![g] };
        assert(d@ =~= seq![g@]);
        self.disciplines.push((name.clone(), d));
        assert(self@ =~= before.push((name@, seq![g@])));
    }
}

impl Faculty {
    pub fn name(&self) -> (r: &String)
        ensures
            r@ == self@.name,
    {
        &self.name
    }

    pub fn specialities(&self) -> (r: &Vec<(SpecialityName, Speciality)>)
        ensures
            r@.map_values(|e: (SpecialityName, Speciality)| (e.0, e.1@)) == self@.specialities,
    {
        &self.specialities
    }

    /// A faculty without specialities.
    fn named(name: String) -> (r: Faculty)
        ensures
            r@.name == name@,
            r@.specialities == Seq::<(SpecialityName, DisciplinesView)>::empty(),
    {
        let r = Faculty { name, specialities: Vec::new() };
        assert(r@.specialities =~= Seq::<(SpecialityName, DisciplinesView)>::empty());
        r
    }

    /// Adds `g` to discipline `name` of speciality `tag`, creating what is missing.
    pub fn add_lesson(&mut self, tag: SpecialityName, name: &String, g: Group)
        ensures
            final(self)@.name == old(self)@.name,
            final(self)@.specialities == add_to_speciality(old(self)@.specialities, tag, name@, g@),
    {
        let ghost before = self@.specialities;
        let mut i: usize = 0;
        while i < self.specialities.len()
            invariant
                self@.specialities == before,
                self@.name == old(self)@.name,
                before == old(self)@.specialities,
                i <= self.specialities.len(),
                key_index(before, tag) == key_index_from(before, tag, i as nat),
            decreases self.specialities.len() - i,
        {
            if self.specialities[i].0 == tag {
                let (key, mut sp) = self.specialities.remove(i);
                sp.add_lesson(name, g);
                self.specialities.insert(i, (key, sp));
                assert(self@.specialities =~= before.update(
                    i as int,
                    (tag, add_lesson(before[i as int].1, name@, g@)),
                ));
                return;
            }
            i += 1;
        }
        let mut sp = Speciality::empty();
        sp.add_lesson(name, g);
        self.specialities.push((tag, sp));
        assert(self@.specialities =~= before.push((tag, add_lesson(Seq::empty(), name@, g@))));
    }

    /// Places a lesson: under `pinned` where given, else under each
    /// speciality that the discipline name marks (a copy in each).
    pub fn place(&mut self, pinned: Option<SpecialityName>, name: &String, g: Group)
        ensures
            final(self)@.name == old(self)@.name,
            final(self)@.specialities == place(old(self)@.specialities, pinned, name@, g@),
    {
        match pinned {
            Some(tag) => self.add_lesson(tag, name, g),
            None => {
                let tags = SpecialityName::from_discipline(name.as_str());
                let ghost start = self@.specialities;
                let mut i: usize = 0;
                while i < tags.len()
                    invariant
                        i <= tags.len(),
                        tags@ == classify(name@),
                        self@.name == old(self)@.name,
                        start == old(self)@.specialities,
                        self@.specialities == add_to_each(start, tags@.take(i as int), name@, g@),
                    decreases tags.len() - i,
                {
                    assert(tags@.take(i + 1).drop_last() =~= tags@.take(i as int));
                    self.add_lesson(tags[i], name, g.copy());
                    i += 1;
                }
                assert(tags@.take(tags.len() as int) =~= tags@);
            },
        }
    }

    /// The faculty of one sheet: its name, and optionally a pinned
    /// speciality, from the file identifier; its lessons from the rows.
    pub fn new(identifier: &str, rows: &Vec<Vec<Cell>>) -> (r: Result<Faculty, ScheduleError>)
        requires
            rows_wide(rows@),
        ensures
            match (r, faculty_of(identifier@, rows_view(rows@))) {
                (Ok(f), Ok(v)) => f@ == v && specialities_wf(f@.specialities),
                (Err(e), Err(v)) => e@ == v,
                _ => false,
            },
    {
        let id = chars_of(identifier);
        let dot = vec!['.'];
        assert(dot@ =~= seq!['.']);
        let parts = split_on(&id, &dot);
        proof {
            crate::text::lemma_split_any_len(id@, dot@);
        }
        let pinned = if parts.len() == 3 {
            Some(speciality_from_chars(&parts[1])?)
        } else {
            None
        };
        let mut faculty = Faculty::named(string_of(&parts[0]));
        if let Some(tag) = pinned {
            faculty.specialities.push((tag, Speciality::empty()));
        }
        let ghost rv = rows_view(rows@);
        proof {
            assert(faculty@.specialities =~= initial_specialities(pinned));
            assert(faculty_header(identifier@) == Ok::<(Seq<char>, Option<SpecialityName>), ErrorView>((faculty@.name, pinned)));
        }
        let mut state = CarryState::new();
        let ghost mut lessons: Seq<Lesson> = Seq::empty();
        let mut i: usize = 0;
        while i < rows.len()
            invariant
                i <= rows.len(),
                rows_wide(rows@),
                rv == rows_view(rows@),
                faculty_header(identifier@) == Ok::<(Seq<char>, Option<SpecialityName>), ErrorView>((faculty@.name, pinned)),
                scan(rv.take(i as int)) == Ok::<(CarryState, Seq<Lesson>), ErrorView>((state, lessons)),
                faculty@.specialities == assemble(initial_specialities(pinned), pinned, lessons),
                specialities_wf(faculty@.specialities),
            decreases rows.len() - i,
        {
            proof {
                assert(rv.take(i + 1).drop_last() =~= rv.take(i as int));
                assert(rv.take(i + 1).last() == rows@[i as int]@);
                assert(rows@[i as int].len() >= ROW_WIDTH);
            }
            let read = state.read_row(&rows[i]);
            match read {
                Err(e) => {
                    proof {
                        lemma_scan_stops(rv, i as int);
                    }
                    return Err(e);
                },
                Ok(None) => {},
                Ok(Some((name, g))) => {
                    proof {
                        match pinned {
                            Some(tag) => lemma_add_to_speciality_wf(faculty@.specialities, tag, name@, g@),
                            None => lemma_add_to_each_wf(faculty@.specialities, classify(name@), name@, g@),
                        }
                        let prev = lessons;
                        lessons = lessons.push((name@, g@));
                        assert(lessons.drop_last() =~= prev);
                    }
                    faculty.place(pinned, &name, g);
                },
            }
            i += 1;
        }
        assert(rv.take(rows.len() as int) =~= rv);
        Ok(faculty)
    }
}

/// Once a row fails, every longer prefix of the rows fails with its error.
proof fn lemma_scan_stops(rows: Seq<Seq<Cell>>, i: int)
    requires
        0 <= i < rows.len(),
        scan(rows.take(i)) matches Ok((st, _)) && crate::rows::step(st, rows[i]) is Err,
    ensures
        scan(rows) == Err::<(CarryState, Seq<Lesson>), ErrorView>(
            scan(rows.take(i + 1))->Err_0,
        ),
    decreases rows.len(),
{
    if rows.len() == i + 1 {
        assert(rows.take(i + 1) =~= rows);
    } else {
        assert(rows.drop_last().take(i) =~= rows.take(i));
        assert(rows.drop_last().take(i + 1) =~= rows.take(i + 1));
        lemma_scan_stops(rows.drop_last(), i);
    }
}

impl Schedule {
    /// The faculties of the sheets, in order; the first error stops the run.
    pub fn new(sheets: &Vec<Sheet>) -> (r: Result<Schedule, ScheduleError>)
        requires
            forall|i: int| 0 <= i < sheets.len() ==> rows_wide(#[trigger] sheets@[i].rows@),
        ensures
            match (r, schedule_of(sheets@)) {
                (Ok(s), Ok(v)) => s.faculties@.map_values(|f: Faculty| f@) == v,
                (Err(e), Err(v)) => e@ == v,
                _ => false,
            },
    {
        let mut faculties: Vec<Faculty> = Vec::new();
        let mut i: usize = 0;
        assert(sheets@.take(0) =~= Seq::<Sheet>::empty());
        assert(faculties@.map_values(|f: Faculty| f@) =~= Seq::<FacultyView>::empty());
        while i < sheets.len()
            invariant
                i <= sheets.len(),
                forall|j: int| 0 <= j < sheets.len() ==> rows_wide(#[trigger] sheets@[j].rows@),
                schedule_of(sheets@.take(i as int)) == Ok::<Seq<FacultyView>, ErrorView>(
                    faculties@.map_values(|f: Faculty| f@),
                ),
            decreases sheets.len() - i,
        {
            assert(sheets@.take(i + 1).drop_last() =~= sheets@.take(i as int));
            let sheet = &sheets[i];
            match Faculty::new(sheet.identifier.as_str(), &sheet.rows) {
                Ok(f) => {
                    let ghost before = faculties@.map_values(|f: Faculty| f@);
                    faculties.push(f);
                    assert(faculties@.map_values(|f: Faculty| f@) =~= before.push(f@));
                },
                Err(e) => {
                    proof {
                        lemma_schedule_stops(sheets@, i as int);
                    }
                    return Err(e);
                },
            }
            i += 1;
        }
        assert(sheets@.take(sheets.len() as int) =~= sheets@);
        Ok(Schedule { faculties })
    }
}

/// Once a sheet fails, every longer prefix of the sheets fails with its error.
proof fn lemma_schedule_stops(sheets: Seq<Sheet>, i: int)
    requires
        0 <= i < sheets.len(),
        schedule_of(sheets.take(i)) is Ok,
        faculty_of(sheets[i].identifier@, rows_view(sheets[i].rows@)) is Err,
    ensures
        schedule_of(sheets) == Err::<Seq<FacultyView>, ErrorView>(
            faculty_of(sheets[i].identifier@, rows_view(sheets[i].rows@))->Err_0,
        ),
    decreases sheets.len(),
{
    if sheets.len() == i + 1 {
        assert(sheets.drop_last() =~= sheets.take(i));
    } else {
        assert(sheets.drop_last().take(i) =~= sheets.take(i));
        lemma_schedule_stops(sheets.drop_last(), i);
    }
}

} // verus!
