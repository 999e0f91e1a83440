//! Browse projects kept under a `Year/Month/ProjectName` directory tree.
//!
//! The library holds the tree's rules: which directory names are years and
//! months, which entries are projects, how each path is derived, and the order
//! in which the `list` command visits the tree. Reading directories is left to
//! the caller, which hands each listing over as a `Vec<Entry>`.
use vstd::prelude::*;

pub mod list;
pub mod names;
pub mod search;
pub mod seqs;

use crate::names::{
    decimal, month_of, parse_month, parse_year, push_decimal, push_two_digits, two_digits,
    year_of,
};
use crate::list::Listing;
use crate::seqs::{lemma_pick_from, lemma_pick_same_elements, pick};
use std::rc::Rc;

verus! {

/// One entry of a directory listing: its file name, where that name is valid
/// Unicode, and whether the entry is itself a directory.
pub struct Entry {
    pub name: Option<String>,
    pub is_dir: bool,
}

pub open spec fn entry_name(e: Entry) -> Option<Seq<char>> {
    match e.name {
        Some(n) => Some(n@),
        None => None,
    }
}

/// A path with one more segment: a separator is put between the two unless
/// `base` is empty or already ends in one.
pub open spec fn join(base: Seq<char>, seg: Seq<char>) -> Seq<char> {
    if base.len() == 0 {
        seg
    } else if base.last() == '/' {
        base + seg
    } else {
        base + seq!['/'] + seg
    }
}

/// A path with each of `segs` joined on in turn.
pub open spec fn join_all(base: Seq<char>, segs: Seq<Seq<char>>) -> Seq<char>
    decreases segs.len(),
{
    if segs.len() == 0 {
        base
    } else {
        join(join_all(base, segs.drop_last()), segs.last())
    }
}

pub open spec fn year_path(root: Seq<char>, y: u32) -> Seq<char> {
    join(root, decimal(y as nat))
}

pub open spec fn month_path(root: Seq<char>, y: u32, m: u32) -> Seq<char> {
    join(year_path(root, y), two_digits(m as nat))
}

pub open spec fn project_path(root: Seq<char>, y: u32, m: u32, name: Seq<char>) -> Seq<char> {
    join(month_path(root, y, m), name)
}

pub fn join_path(base: &String, seg: &str) -> (r: String)
    ensures
        r@ == join(base@, seg@),
{
    let n = base.as_str().unicode_len();
    let mut r = base.clone();
    if n > 0 && base.as_str().get_char(n - 1) != '/' {
        r.append("/");
        proof { reveal_strlit("/"); }
    }
    r.append(seg);
    proof {
        if n > 0 {
            assert(base@.last() == base@[n - 1]);
        }
    }
    assert(r@ =~= join(base@, seg@));
    r
}

/// The year that an entry of a listing of `root` stands for: a directory
/// whose name is a year.
pub open spec fn year_entry(root: Seq<char>) -> spec_fn(Entry) -> Option<(Seq<char>, u32)> {
    |e: Entry|
        match entry_name(e) {
            Some(n) => if e.is_dir {
                match year_of(n) {
                    Some(y) => Some((root, y)),
                    None => None,
                }
            } else {
                None
            },
            None => None,
        }
}

/// The month that an entry of a listing of the year `y` stands for: a
/// directory whose name is a month.
pub open spec fn month_entry(y: (Seq<char>, u32)) -> spec_fn(Entry) -> Option<
    (Seq<char>, u32, u32),
> {
    |e: Entry|
        match entry_name(e) {
            Some(n) => if e.is_dir {
                match month_of(n) {
                    Some(m) => Some((y.0, y.1, m)),
                    None => None,
                }
            } else {
                None
            },
            None => None,
        }
}

/// The project that an entry of a listing of the month `m` stands for: any
/// directory.
pub open spec fn project_entry(m: (Seq<char>, u32, u32)) -> spec_fn(Entry) -> Option<
    (Seq<char>, u32, u32, Seq<char>),
> {
    |e: Entry|
        match entry_name(e) {
            Some(n) => if e.is_dir {
                Some((m.0, m.1, m.2, n))
            } else {
                None
            },
            None => None,
        }
}

/// The years that a listing of the project root holds, in listing order.
pub open spec fn years_in(root: Seq<char>, es: Seq<Entry>) -> Seq<(Seq<char>, u32)> {
    pick(es, year_entry(root))
}

/// The months that a listing of a year directory holds, in listing order.
pub open spec fn months_in(y: (Seq<char>, u32), es: Seq<Entry>) -> Seq<(Seq<char>, u32, u32)> {
    pick(es, month_entry(y))
}

/// The projects that a listing of a month directory holds, in listing order.
pub open spec fn projects_in(m: (Seq<char>, u32, u32), es: Seq<Entry>) -> Seq<
    (Seq<char>, u32, u32, Seq<char>),
> {
    pick(es, project_entry(m))
}

/// Each year picked from a listing of `root` lies under `root`.
pub proof fn lemma_years_in_root(root: Seq<char>, es: Seq<Entry>, k: int)
    requires
        0 <= k < years_in(root, es).len(),
    ensures
        years_in(root, es)[k].0 == root,
{
    lemma_pick_from(es, year_entry(root), k);
}

/// Each month picked from a listing of the year `y` lies under `y`.
pub proof fn lemma_months_in_year(y: (Seq<char>, u32), es: Seq<Entry>, k: int)
    requires
        0 <= k < months_in(y, es).len(),
    ensures
        months_in(y, es)[k].0 == y.0,
        months_in(y, es)[k].1 == y.1,
{
    lemma_pick_from(es, month_entry(y), k);
}

/// Each project picked from a listing of the month `m` lies under `m`.
pub proof fn lemma_projects_in_month(m: (Seq<char>, u32, u32), es: Seq<Entry>, k: int)
    requires
        0 <= k < projects_in(m, es).len(),
    ensures
        projects_in(m, es)[k].0 == m.0,
        projects_in(m, es)[k].1 == m.1,
        projects_in(m, es)[k].2 == m.2,
{
    lemma_pick_from(es, project_entry(m), k);
}

/// A command of the program.
#[derive(Debug)]
pub enum Command {
    List(list::Args),
    Search(search::Args),
}

impl Command {
    /// The walk that the command makes of the tree under `dir`: `list` walks
    /// it with its year options, `search` walks nothing.
    pub fn run(&self, dir: &ProjectDir) -> (r: Option<Listing>)
        ensures
            match self {
                Command::List(a) => r matches Some(l) && l.wf() && l@ == (list::ListingView {
                    root: dir@,
                    filter: a.filter(),
                    stage: list::Stage::Root,
                    years: Seq::empty(),
                    next_year: 0,
                    months: Seq::empty(),
                    next_month: 0,
                }),
                Command::Search(_) => r is None,
            },
    {
        match self {
            Command::List(a) => Some(Listing::new(dir, a)),
            Command::Search(_) => None,
        }
    }
}

/// The path of a year, a month or a project, derived link by link from the
/// root, is the root with the year, the two-digit month and the project's name
/// joined on in that order.
pub proof fn lemma_derived_paths(root: Seq<char>, y: u32, m: u32, name: Seq<char>)
    ensures
        year_path(root, y) == join_all(root, seq![decimal(y as nat)]),
        month_path(root, y, m) == join_all(root, seq![decimal(y as nat), two_digits(m as nat)]),
        project_path(root, y, m, name) == join_all(
            root,
            seq![decimal(y as nat), two_digits(m as nat), name],
        ),
{
    let s1 = seq![decimal(y as nat)];
    let s2 = seq![decimal(y as nat), two_digits(m as nat)];
    let s3 = seq![decimal(y as nat), two_digits(m as nat), name];
    assert(s1.drop_last() =~= Seq::<Seq<char>>::empty());
    assert(s2.drop_last() =~= s1);
    assert(s3.drop_last() =~= s2);
    assert(join_all(root, s1.drop_last()) == root);
    assert(join_all(root, s1) == year_path(root, y));
    assert(join_all(root, s2) == month_path(root, y, m));
    assert(join_all(root, s3) == project_path(root, y, m, name));
}

/// A listing holds the same years, months and projects whatever order its
/// entries come in: two listings with the same entries give the same sets.
pub proof fn lemma_listing_order_free(
    root: Seq<char>,
    y: (Seq<char>, u32),
    m: (Seq<char>, u32, u32),
    es1: Seq<Entry>,
    es2: Seq<Entry>,
)
    requires
        es1.to_set() == es2.to_set(),
    ensures
        years_in(root, es1).to_set() == years_in(root, es2).to_set(),
        months_in(y, es1).to_set() == months_in(y, es2).to_set(),
        projects_in(m, es1).to_set() == projects_in(m, es2).to_set(),
{
    lemma_pick_same_elements(es1, es2, year_entry(root));
    lemma_pick_same_elements(es1, es2, month_entry(y));
    lemma_pick_same_elements(es1, es2, project_entry(m));
}

/// The directory under which all year directories live.
#[derive(Debug)]
pub struct ProjectDir {
    path: Rc<String>,
}

/// Relies on `Rc::clone`, which makes another pointer to the same value.
#[verifier::external_body]
fn share(p: &Rc<String>) -> (r: Rc<String>)
    ensures
        r == *p,
{
    Rc::clone(p)
}

/// The user's home directory could not be found.
#[derive(Debug, Clone, Copy, PartialEq, Eq)]
pub struct ConfigurationError;

/// Relies on `home::home_dir`, which reads the environment and the user
/// database; nothing is known of what it finds. A path that is not valid
/// Unicode is reported as no path.
#[verifier::external_body]
fn user_home() -> (r: Option<String>) {
    match home::home_dir() {
        Some(p) => p.to_str().map(String::from),
        None => None,
    }
}

impl Clone for ProjectDir {
    fn clone(&self) -> (r: Self)
        ensures
            r@ == self@,
    {
        ProjectDir { path: share(&self.path) }
    }
}

impl View for ProjectDir {
    type V = Seq<char>;

    closed spec fn view(&self) -> Seq<char> {
        self.path@
    }
}

impl ProjectDir {
    /// A project root at the given path.
    pub fn new(path: &str) -> (r: ProjectDir)
        ensures
            r@ == path@,
    {
        ProjectDir { path: Rc::new(path.to_owned()) }
    }

    /// The project root under the given home directory: its `Documents`
    /// directory.
    pub fn for_home(home: Option<String>) -> (r: Result<ProjectDir, ConfigurationError>)
        ensures
            match home {
                Some(h) => r is Ok && r->Ok_0@ == join(h@, "Documents"@),
                None => r is Err,
            },
    {
        match home {
            Some(h) => Ok(ProjectDir { path: Rc::new(join_path(&h, "Documents")) }),
            None => Err(ConfigurationError),
        }
    }

    /// The project root of the current user, `<home>/Documents`.
    pub fn for_user() -> (r: Result<ProjectDir, ConfigurationError>)
        ensures
            r matches Ok(d) ==> exists|h: Seq<char>| d@ == join(h, "Documents"@),
    {
        ProjectDir::for_home(user_home())
    }

    pub fn path(&self) -> (r: String)
        ensures
            r@ == self@,
    {
        (*self.path).clone()
    }

    /// The years among the entries of a listing of this directory, in the
    /// listing's order: the directories whose names are years.
    pub fn years(&self, entries: &Vec<Entry>) -> (r: Vec<Year>)
        ensures
            r@.map_values(|y: Year| y@) == years_in(self@, entries@),
    {
        let mut r: Vec<Year> = Vec::new();
        let mut i: usize = 0;
        while i < entries.len()
            invariant
                i <= entries@.len(),
                r@.map_values(|y: Year| y@) == years_in(self@, entries@.subrange(0, i as int)),
            decreases entries@.len() - i,
        {
            let ghost before = r@;
            assert(entries@.subrange(0, i + 1).drop_last() =~= entries@.subrange(0, i as int));
            match &entries[i].name {
                Some(n) if entries[i].is_dir => match Year::from_path(self, n.as_str()) {
                    Some(y) => {
                        r.push(y);
                        assert(r@.map_values(|y: Year| y@) =~= before.map_values(|y: Year| y@).push(y@));
                    },
                    None => {},
                },
                _ => {},
            }
            i = i + 1;
        }
        assert(entries@.subrange(0, entries@.len() as int) =~= entries@);
        r
    }
}

/// A year directory of the project root.
pub struct Year {
    root: ProjectDir,
    year: u32,
}

impl Clone for Year {
    fn clone(&self) -> (r: Self)
        ensures
            r@ == self@,
    {
        proof { use_type_invariant(self); }
        Year { root: self.root.clone(), year: self.year }
    }
}

impl View for Year {
    type V = (Seq<char>, u32);

    closed spec fn view(&self) -> (Seq<char>, u32) {
        (self.root@, self.year)
    }
}

impl Year {
    #[verifier::type_invariant]
    spec fn inv(&self) -> bool {
        1900 <= self.year <= 2500
    }

    /// The year that a directory of `root` with the given name stands for, if
    /// the name is a year.
    pub fn from_path(root: &ProjectDir, name: &str) -> (r: Option<Year>)
        ensures
            match year_of(name@) {
                Some(y) => r is Some && r->0@ == (root@, y),
                None => r is None,
            },
    {
        match parse_year(name) {
            Some(y) => Some(Year { root: root.clone(), year: y }),
            None => None,
        }
    }

    pub fn year(&self) -> (r: u32)
        ensures
            r == self@.1,
            1900 <= r <= 2500,
    {
        proof { use_type_invariant(self); }
        self.year
    }

    pub fn path(&self) -> (r: String)
        ensures
            r@ == year_path(self@.0, self@.1),
    {
        let mut seg = String::new();
        push_decimal(&mut seg, self.year);
        join_path(&self.root.path, seg.as_str())
    }

    /// The months among the entries of a listing of this year's directory, in
    /// the listing's order: the directories whose names are months.
    pub fn months(&self, entries: &Vec<Entry>) -> (r: Vec<Month>)
        ensures
            r@.map_values(|m: Month| m@) == months_in(self@, entries@),
    {
        let mut r: Vec<Month> = Vec::new();
        let mut i: usize = 0;
        while i < entries.len()
            invariant
                i <= entries@.len(),
                r@.map_values(|m: Month| m@) == months_in(self@, entries@.subrange(0, i as int)),
            decreases entries@.len() - i,
        {
            let ghost before = r@;
            assert(entries@.subrange(0, i + 1).drop_last() =~= entries@.subrange(0, i as int));
            match &entries[i].name {
                Some(n) if entries[i].is_dir => match Month::from_path(self, n.as_str()) {
                    Some(m) => {
                        r.push(m);
                        assert(r@.map_values(|m: Month| m@) =~= before.map_values(|m: Month| m@).push(m@));
                    },
                    None => {},
                },
                _ => {},
            }
            i = i + 1;
        }
        assert(entries@.subrange(0, entries@.len() as int) =~= entries@);
        r
    }
}

/// A month directory of a year.
pub struct Month {
    year: Year,
    month: u32,
}

impl Clone for Month {
    fn clone(&self) -> (r: Self)
        ensures
            r@ == self@,
    {
        proof { use_type_invariant(self); }
        Month { year: self.year.clone(), month: self.month }
    }
}

impl View for Month {
    type V = (Seq<char>, u32, u32);

    closed spec fn view(&self) -> (Seq<char>, u32, u32) {
        (self.year@.0, self.year@.1, self.month)
    }
}

impl Month {
    #[verifier::type_invariant]
    spec fn inv(&self) -> bool {
        1 <= self.month <= 12
    }

    /// The month that a directory of `year` with the given name stands for, if
    /// the name is a month.
    pub fn from_path(year: &Year, name: &str) -> (r: Option<Month>)
        ensures
            match month_of(name@) {
                Some(m) => r is Some && r->0@ == (year@.0, year@.1, m),
                None => r is None,
            },
    {
        match parse_month(name) {
            Some(m) => Some(Month { year: year.clone(), month: m }),
            None => None,
        }
    }

    pub fn month(&self) -> (r: u32)
        ensures
            r == self@.2,
            1 <= r <= 12,
    {
        proof { use_type_invariant(self); }
        self.month
    }

    pub fn path(&self) -> (r: String)
        ensures
            r@ == month_path(self@.0, self@.1, self@.2),
    {
        proof { use_type_invariant(self); }
        let mut seg = String::new();
        push_two_digits(&mut seg, self.month);
        join_path(&self.year.path(), seg.as_str())
    }

    /// The projects among the entries of a listing of this month's directory,
    /// in the listing's order: every entry that is a directory.
    pub fn projects(&self, entries: &Vec<Entry>) -> (r: Vec<Project>)
        ensures
            r@.map_values(|p: Project| p@) == projects_in(self@, entries@),
    {
        let mut r: Vec<Project> = Vec::new();
        let mut i: usize = 0;
        while i < entries.len()
            invariant
                i <= entries@.len(),
                r@.map_values(|p: Project| p@) == projects_in(self@, entries@.subrange(0, i as int)),
            decreases entries@.len() - i,
        {
            let ghost before = r@;
            assert(entries@.subrange(0, i + 1).drop_last() =~= entries@.subrange(0, i as int));
            match Project::from_entry(self, &entries[i]) {
                Some(p) => {
                    r.push(p);
                    assert(r@.map_values(|p: Project| p@) =~= before.map_values(|p: Project| p@).push(p@));
                },
                _ => {},
            }
            i = i + 1;
        }
        assert(entries@.subrange(0, entries@.len() as int) =~= entries@);
        r
    }
}

/// A project: a directory of a month.
pub struct Project {
    month: Month,
    name: String,
}

impl Clone for Project {
    fn clone(&self) -> (r: Self)
        ensures
            r@ == self@,
    {
        Project { month: self.month.clone(), name: self.name.clone() }
    }
}

impl View for Project {
    type V = (Seq<char>, u32, u32, Seq<char>);

    closed spec fn view(&self) -> (Seq<char>, u32, u32, Seq<char>) {
        (self.month@.0, self.month@.1, self.month@.2, self.name@)
    }
}

impl Project {
    /// The project that a directory of `month` with the given name stands for.
    pub fn from_path(month: &Month, name: &str) -> (r: Project)
        ensures
            r@ == (month@.0, month@.1, month@.2, name@),
    {
        Project { month: month.clone(), name: name.to_owned() }
    }

    /// The project that an entry of a listing of `month` stands for, if the
    /// entry is a directory with a readable name.
    pub fn from_entry(month: &Month, entry: &Entry) -> (r: Option<Project>)
        ensures
            match entry_name(*entry) {
                Some(n) => if entry.is_dir {
                    r is Some && r->0@ == (month@.0, month@.1, month@.2, n)
                } else {
                    r is None
                },
                None => r is None,
            },
    {
        match &entry.name {
            Some(n) => if entry.is_dir {
                Some(Project::from_path(month, n.as_str()))
            } else {
                None
            },
            None => None,
        }
    }

    pub fn name(&self) -> (r: &str)
        ensures
            r@ == self@.3,
    {
        self.name.as_str()
    }

    pub fn path(&self) -> (r: String)
        ensures
            r@ == project_path(self@.0, self@.1, self@.2, self@.3),
    {
        join_path(&self.month.path(), self.name.as_str())
    }
}

} // verus!
