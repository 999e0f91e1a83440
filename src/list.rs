//! The `list` command: a walk of the tree, year by year, month by month.
//!
//! The walk reads no directory itself. `Listing::next_read` names the
//! directory whose entries it needs next; `Listing::feed` takes them and
//! returns the project paths to print.
use vstd::prelude::*;

use crate::seqs::{lemma_pick_from, pick};
use crate::{month_path, months_in, project_path, projects_in, year_path, years_in};
use crate::{Entry, Month, Project, ProjectDir, Year};

verus! {

/// Options of the `list` command: the years to list, or all of them.
#[derive(Debug)]
pub struct Args {
    year: Option<Vec<u32>>,
}

pub open spec fn filter_view(f: Option<Vec<u32>>) -> Option<Seq<u32>> {
    match f {
        Some(v) => Some(v@),
        None => None,
    }
}

/// Whether a year filter lets the year `y` through.
pub open spec fn admits(filter: Option<Seq<u32>>, y: u32) -> bool {
    match filter {
        Some(ys) => ys.contains(y),
        None => true,
    }
}

impl Clone for Args {
    fn clone(&self) -> (r: Self)
        ensures
            r.filter() == self.filter(),
    {
        match &self.year {
            Some(ys) => {
                let mut c: Vec<u32> = Vec::new();
                let mut i: usize = 0;
                while i < ys.len()
                    invariant
                        i <= ys@.len(),
                        c@ == ys@.subrange(0, i as int),
                    decreases ys@.len() - i,
                {
                    c.push(ys[i]);
                    i = i + 1;
                    assert(c@ =~= ys@.subrange(0, i as int));
                }
                assert(c@ =~= ys@);
                Args { year: Some(c) }
            },
            None => Args { year: None },
        }
    }
}

impl Args {
    pub fn new(year: Option<Vec<u32>>) -> (r: Args)
        ensures
            r.filter() == filter_view(year),
    {
        Args { year }
    }

    pub closed spec fn filter(&self) -> Option<Seq<u32>> {
        filter_view(self.year)
    }

    pub fn year(&self) -> (r: &Option<Vec<u32>>)
        ensures
            filter_view(*r) == self.filter(),
    {
        &self.year
    }

    /// Whether the year `y` is one to list.
    pub fn admits(&self, y: u32) -> (r: bool)
        ensures
            r == admits(self.filter(), y),
    {
        match &self.year {
            Some(ys) => {
                let mut i: usize = 0;
                while i < ys.len()
                    invariant
                        i <= ys@.len(),
                        self.filter() == Some(ys@),
                        forall|j: int| 0 <= j < i ==> ys@[j] != y,
                    decreases ys@.len() - i,
                {
                    if ys[i] == y {
                        assert(ys@[i as int] == y);
                        return true;
                    }
                    i = i + 1;
                }
                assert(!ys@.contains(y));
                false
            },
            None => true,
        }
    }
}

/// Which directory the walk waits for: the root, the last year taken up, the
/// last month taken up, or none once the walk is over.
#[derive(Clone, Copy, PartialEq, Eq, Structural)]
pub enum Stage {
    Root,
    Year,
    Month,
    Done,
}

/// The state of a walk: the years to visit, those of them already taken up,
/// and likewise the months of the current year.
pub ghost struct ListingView {
    pub root: Seq<char>,
    pub filter: Option<Seq<u32>>,
    pub stage: Stage,
    pub years: Seq<u32>,
    pub next_year: int,
    pub months: Seq<u32>,
    pub next_month: int,
}

/// Whether `p` is the root, or the directory of a year that the filter lets
/// through, or of a month of such a year.
pub open spec fn may_read(root: Seq<char>, filter: Option<Seq<u32>>, p: Seq<char>) -> bool {
    ||| p == root
    ||| exists|y: u32| admits(filter, y) && p == year_path(root, y)
    ||| exists|y: u32, m: u32| admits(filter, y) && p == month_path(root, y, m)
}

/// Whether `p` is the path of a project under a year that the filter lets
/// through.
pub open spec fn may_print(root: Seq<char>, filter: Option<Seq<u32>>, p: Seq<char>) -> bool {
    exists|y: u32, m: u32, n: Seq<char>| admits(filter, y) && p == project_path(root, y, m, n)
}

impl ListingView {
    pub open spec fn wf(self) -> bool {
        &&& 0 <= self.next_year <= self.years.len()
        &&& 0 <= self.next_month <= self.months.len()
        &&& self.stage == Stage::Root ==> self.next_year == 0 && self.months.len() == 0
        &&& self.stage == Stage::Year ==> self.next_year >= 1 && self.months.len() == 0
        &&& self.stage == Stage::Month ==> self.next_year >= 1 && self.next_month >= 1
        &&& self.months.len() > 0 ==> self.next_year >= 1
        &&& forall|i: int| 0 <= i < self.years.len() ==> admits(self.filter, #[trigger] self.years[i])
    }

    pub open spec fn year(self) -> u32 {
        self.years[self.next_year - 1]
    }

    pub open spec fn month(self) -> u32 {
        self.months[self.next_month - 1]
    }

    /// The directory that the walk needs next.
    pub open spec fn pending(self) -> Option<Seq<char>> {
        match self.stage {
            Stage::Root => Some(self.root),
            Stage::Year => Some(year_path(self.root, self.year())),
            Stage::Month => Some(month_path(self.root, self.year(), self.month())),
            Stage::Done => None,
        }
    }

    /// Takes up the next month of the current year, else the next year, else
    /// ends the walk.
    pub open spec fn advance(self) -> ListingView {
        if self.next_month < self.months.len() {
            ListingView { stage: Stage::Month, next_month: self.next_month + 1, ..self }
        } else if self.next_year < self.years.len() {
            ListingView {
                stage: Stage::Year,
                next_year: self.next_year + 1,
                months: Seq::empty(),
                next_month: 0,
                ..self
            }
        } else {
            ListingView { stage: Stage::Done, ..self }
        }
    }

    /// The state once the entries of the pending directory are handed over.
    pub open spec fn after(self, es: Seq<Entry>) -> ListingView {
        match self.stage {
            Stage::Root => ListingView {
                years: admitted_years(self.filter, years_in(self.root, es)),
                next_year: 0,
                months: Seq::empty(),
                next_month: 0,
                ..self
            }.advance(),
            Stage::Year => ListingView {
                months: months_in((self.root, self.year()), es).map_values(
                    |m: (Seq<char>, u32, u32)| m.2,
                ),
                next_month: 0,
                ..self
            }.advance(),
            Stage::Month => self.advance(),
            Stage::Done => self,
        }
    }

    /// The project paths printed once the entries of the pending directory
    /// are handed over.
    pub open spec fn printed(self, es: Seq<Entry>) -> Seq<Seq<char>> {
        if self.stage == Stage::Month {
            projects_in((self.root, self.year(), self.month()), es).map_values(
                |p: (Seq<char>, u32, u32, Seq<char>)| project_path(p.0, p.1, p.2, p.3),
            )
        } else {
            Seq::empty()
        }
    }
}

/// The years of `ys` that the filter lets through, in order.
pub open spec fn admitted_years(filter: Option<Seq<u32>>, ys: Seq<(Seq<char>, u32)>) -> Seq<u32> {
    pick(ys, |y: (Seq<char>, u32)| if admits(filter, y.1) { Some(y.1) } else { None })
}

/// The paths printed and the directories read in the first `n` steps of a
/// walk from `v`, where `tree` gives the listing of each directory.
pub open spec fn walk(v: ListingView, tree: spec_fn(Seq<char>) -> Seq<Entry>, n: nat) -> (
    Seq<Seq<char>>,
    Seq<Seq<char>>,
)
    decreases n,
{
    if n == 0 {
        (Seq::empty(), Seq::empty())
    } else {
        match v.pending() {
            Some(p) => {
                let rest = walk(v.after(tree(p)), tree, (n - 1) as nat);
                (v.printed(tree(p)) + rest.0, seq![p] + rest.1)
            },
            None => (Seq::empty(), Seq::empty()),
        }
    }
}

/// One step of a walk keeps it well formed, under the same root and filter;
/// it reads only what the filter allows and prints only projects of admitted
/// years.
pub proof fn lemma_step(v: ListingView, es: Seq<Entry>)
    requires
        v.wf(),
    ensures
        v.after(es).wf(),
        v.after(es).root == v.root,
        v.after(es).filter == v.filter,
        v.pending() matches Some(p) ==> may_read(v.root, v.filter, p),
        forall|i: int|
            0 <= i < v.printed(es).len() ==> may_print(v.root, v.filter, #[trigger] v.printed(es)[i]),
{
    if v.stage == Stage::Root {
        let all = years_in(v.root, es);
        let f = |y: (Seq<char>, u32)| if admits(v.filter, y.1) { Some(y.1) } else { None };
        let ys = admitted_years(v.filter, all);
        assert forall|i: int| 0 <= i < ys.len() implies admits(v.filter, #[trigger] ys[i]) by {
            lemma_pick_from(all, f, i);
        }
    }
    if v.stage == Stage::Year {
        assert(admits(v.filter, v.years[v.next_year - 1]));
    }
    if v.stage == Stage::Month {
        assert(admits(v.filter, v.years[v.next_year - 1]));
        let m = (v.root, v.year(), v.month());
        assert forall|i: int| 0 <= i < v.printed(es).len() implies may_print(
            v.root,
            v.filter,
            #[trigger] v.printed(es)[i],
        ) by {
            crate::lemma_projects_in_month(m, es, i);
            let q = projects_in(m, es)[i];
            assert(v.printed(es)[i] == project_path(q.0, q.1, q.2, q.3));
        }
    }
}

/// A walk with a year filter reads only the root, the directories of the
/// years that the filter admits and their months, and prints only projects
/// of those years: no directory under another year is ever read.
pub proof fn lemma_walk_stays_in_filter(
    v: ListingView,
    tree: spec_fn(Seq<char>) -> Seq<Entry>,
    n: nat,
)
    requires
        v.wf(),
    ensures
        forall|i: int|
            0 <= i < walk(v, tree, n).1.len() ==> may_read(v.root, v.filter, #[trigger] walk(v, tree, n).1[i]),
        forall|i: int|
            0 <= i < walk(v, tree, n).0.len() ==> may_print(v.root, v.filter, #[trigger] walk(v, tree, n).0[i]),
    decreases n,
{
    if n > 0 {
        if let Some(p) = v.pending() {
            let es = tree(p);
            lemma_step(v, es);
            lemma_walk_stays_in_filter(v.after(es), tree, (n - 1) as nat);
            let rest = walk(v.after(es), tree, (n - 1) as nat);
            let w = walk(v, tree, n);
            assert(w.0 == v.printed(es) + rest.0);
            assert(w.1 == seq![p] + rest.1);
            assert forall|i: int| 0 <= i < w.1.len() implies may_read(v.root, v.filter, #[trigger] w.1[i]) by {
                if i > 0 {
                    assert(w.1[i] == rest.1[i - 1]);
                }
            }
            assert forall|i: int| 0 <= i < w.0.len() implies may_print(v.root, v.filter, #[trigger] w.0[i]) by {
                if i >= v.printed(es).len() {
                    assert(w.0[i] == rest.0[i - v.printed(es).len()]);
                }
            }
        }
    }
}

/// Walking the same tree twice, with no directory changed between the two
/// walks, reads the same directories and prints the same paths.
pub proof fn lemma_walk_repeatable(
    v: ListingView,
    t1: spec_fn(Seq<char>) -> Seq<Entry>,
    t2: spec_fn(Seq<char>) -> Seq<Entry>,
    n: nat,
)
    requires
        forall|p: Seq<char>| #[trigger] t1(p) == t2(p),
    ensures
        walk(v, t1, n) == walk(v, t2, n),
        walk(v, t1, n).0.to_set() == walk(v, t2, n).0.to_set(),
    decreases n,
{
    if n > 0 {
        if let Some(p) = v.pending() {
            assert(t1(p) == t2(p));
            lemma_walk_repeatable(v.after(t1(p)), t1, t2, (n - 1) as nat);
        }
    }
}

/// A walk of the tree under a project root, restricted to the years that the
/// `list` options name.
pub struct Listing {
    root: ProjectDir,
    args: Args,
    stage: Stage,
    years: Vec<Year>,
    next_year: usize,
    months: Vec<Month>,
    next_month: usize,
}

impl View for Listing {
    type V = ListingView;

    closed spec fn view(&self) -> ListingView {
        ListingView {
            root: self.root@,
            filter: self.args.filter(),
            stage: self.stage,
            years: self.years@.map_values(|y: Year| y@.1),
            next_year: self.next_year as int,
            months: self.months@.map_values(|m: Month| m@.2),
            next_month: self.next_month as int,
        }
    }
}

impl Listing {
    /// The years and months held all lie under the root, and the months under
    /// the current year.
    closed spec fn links(&self) -> bool {
        &&& forall|i: int| 0 <= i < self.years@.len() ==> (#[trigger] self.years@[i])@.0 == self.root@
        &&& forall|j: int|
            0 <= j < self.months@.len() ==> (#[trigger] self.months@[j])@.0 == self.root@
                && self.months@[j]@.1 == self.years@[self.next_year - 1]@.1
    }

    pub closed spec fn wf(&self) -> bool {
        self@.wf() && self.links()
    }

    /// A walk that starts at `root`.
    pub fn new(root: &ProjectDir, args: &Args) -> (r: Listing)
        ensures
            r.wf(),
            r@ == (ListingView {
                root: root@,
                filter: args.filter(),
                stage: Stage::Root,
                years: Seq::empty(),
                next_year: 0,
                months: Seq::empty(),
                next_month: 0,
            }),
    {
        let r = Listing {
            root: root.clone(),
            args: args.clone(),
            stage: Stage::Root,
            years: Vec::new(),
            next_year: 0,
            months: Vec::new(),
            next_month: 0,
        };
        assert(r@.years =~= Seq::empty());
        assert(r@.months =~= Seq::empty());
        r
    }

    /// The directory whose entries the walk needs next, or none once it is
    /// over. Only the root, the years that the options admit and their months
    /// are ever named.
    pub fn next_read(&self) -> (r: Option<String>)
        requires
            self.wf(),
        ensures
            match r {
                Some(p) => self@.pending() == Some(p@),
                None => self@.pending() is None,
            },
            r matches Some(p) ==> may_read(self@.root, self@.filter, p@),
    {
        match self.stage {
            Stage::Root => Some(self.root.path()),
            Stage::Year => {
                let r = self.years[self.next_year - 1].path();
                assert(admits(self@.filter, self@.years[self.next_year - 1]));
                Some(r)
            },
            Stage::Month => {
                let m = &self.months[self.next_month - 1];
                let r = m.path();
                assert(self@.months[self.next_month - 1] == m@.2);
                assert(admits(self@.filter, self@.years[self.next_year - 1]));
                Some(r)
            },
            Stage::Done => None,
        }
    }

    fn advance(&mut self)
        requires
            old(self).links(),
            0 <= old(self).next_year <= old(self).years@.len(),
            0 <= old(self).next_month <= old(self).months@.len(),
            old(self).months@.len() > 0 ==> old(self).next_year >= 1,
            forall|i: int| 0 <= i < old(self)@.years.len() ==> admits(old(self)@.filter, #[trigger] old(self)@.years[i]),
        ensures
            final(self)@ == old(self)@.advance(),
            final(self).wf(),
    {
        if self.next_month < self.months.len() {
            self.next_month = self.next_month + 1;
            self.stage = Stage::Month;
        } else if self.next_year < self.years.len() {
            self.next_year = self.next_year + 1;
            self.months = Vec::new();
            self.next_month = 0;
            self.stage = Stage::Year;
            assert(self@.months =~= Seq::empty());
        } else {
            self.stage = Stage::Done;
        }
    }

    /// Hands over the entries of the directory that `next_read` named, and
    /// returns the project paths that they show, in order.
    pub fn feed(&mut self, entries: &Vec<Entry>) -> (r: Vec<String>)
        requires
            old(self).wf(),
        ensures
            final(self).wf(),
            final(self)@ == old(self)@.after(entries@),
            r@.map_values(|s: String| s@) == old(self)@.printed(entries@),
            forall|i: int| 0 <= i < r@.len() ==> may_print(old(self)@.root, old(self)@.filter, #[trigger] r@[i]@),
    {
        let ghost v = self@;
        let mut out: Vec<String> = Vec::new();
        match self.stage {
            Stage::Root => {
                let all = self.root.years(entries);
                let ghost all_v = all@.map_values(|y: Year| y@);
                let mut kept: Vec<Year> = Vec::new();
                let mut i: usize = 0;
                while i < all.len()
                    invariant
                        i <= all@.len(),
                        all_v == all@.map_values(|y: Year| y@),
                        all_v == years_in(v.root, entries@),
                        v == self@,
                        kept@.map_values(|y: Year| y@.1) == admitted_years(v.filter, all_v.subrange(0, i as int)),
                        forall|k: int| 0 <= k < kept@.len() ==> (#[trigger] kept@[k])@.0 == v.root,
                        forall|k: int| 0 <= k < kept@.len() ==> admits(v.filter, (#[trigger] kept@[k])@.1),
                    decreases all@.len() - i,
                {
                    let ghost before = kept@;
                    assert(all_v.subrange(0, i + 1).drop_last() =~= all_v.subrange(0, i as int));
                    assert(all_v[i as int] == all@[i as int]@);
                    let y = &all[i];
                    if self.args.admits(y.year()) {
                        proof { crate::lemma_years_in_root(v.root, entries@, i as int); }
                        kept.push(y.clone());
                        assert(kept@.map_values(|y: Year| y@.1) =~= before.map_values(|y: Year| y@.1).push(y@.1));
                    }
                    i = i + 1;
                }
                assert(all_v.subrange(0, all@.len() as int) =~= all_v);
                self.years = kept;
                self.next_year = 0;
                self.months = Vec::new();
                self.next_month = 0;
                assert(self@.months =~= Seq::empty());
                self.advance();
            },
            Stage::Year => {
                let y = self.years[self.next_year - 1].clone();
                let ms = y.months(entries);
                proof {
                    assert forall|j: int| 0 <= j < ms@.len() implies (#[trigger] ms@[j])@.0 == v.root
                        && ms@[j]@.1 == self.years@[self.next_year - 1]@.1 by {
                        assert(ms@.map_values(|m: Month| m@)[j] == ms@[j]@);
                        crate::lemma_months_in_year(y@, entries@, j);
                    }
                }
                self.months = ms;
                self.next_month = 0;
                assert(self@.months =~= months_in((v.root, v.year()), entries@).map_values(
                    |m: (Seq<char>, u32, u32)| m.2));
                self.advance();
            },
            Stage::Month => {
                let m = self.months[self.next_month - 1].clone();
                let ps = m.projects(entries);
                let ghost ps_v = ps@.map_values(|p: Project| p@);
                let mut i: usize = 0;
                while i < ps.len()
                    invariant
                        i <= ps@.len(),
                        ps_v == ps@.map_values(|p: Project| p@),
                        out@.len() == i,
                        ps_v == projects_in((v.root, v.year(), v.month()), entries@),
                        out@.map_values(|s: String| s@) == ps_v.subrange(0, i as int).map_values(
                            |p: (Seq<char>, u32, u32, Seq<char>)| project_path(p.0, p.1, p.2, p.3)),
                    decreases ps@.len() - i,
                {
                    let ghost before = out@;
                    let s = ps[i].path();
                    out.push(s);
                    assert(ps_v[i as int] == ps@[i as int]@);
                    assert forall|k: int| 0 <= k < i implies out@[k]@ == project_path(
                        ps_v[k].0, ps_v[k].1, ps_v[k].2, ps_v[k].3) by {
                        assert(out@[k] == before[k]);
                        assert(before.map_values(|s: String| s@)[k] == before[k]@);
                        assert(ps_v.subrange(0, i as int)[k] == ps_v[k]);
                    }
                    assert(out@.map_values(|s: String| s@) =~= ps_v.subrange(0, i + 1).map_values(
                        |p: (Seq<char>, u32, u32, Seq<char>)| project_path(p.0, p.1, p.2, p.3)));
                    i = i + 1;
                }
                assert(ps_v.subrange(0, ps@.len() as int) =~= ps_v);
                proof {
                    assert forall|i: int| 0 <= i < out@.len() implies may_print(v.root, v.filter, #[trigger] out@[i]@) by {
                        assert(out@.map_values(|s: String| s@)[i] == out@[i]@);
                        crate::lemma_projects_in_month((v.root, v.year(), v.month()), entries@, i);
                        assert(admits(v.filter, v.years[v.next_year - 1]));
                    }
                }
                self.advance();
            },
            Stage::Done => {},
        }
        out
    }
}

} // verus!
