//! One run, as a conversation: the session says what it needs from the file
//! system, the caller answers, and the session decides what to do next. All
//! decisions are taken here; the caller only reads the file system.
//!
//! The filter is built once, before the first question: a pattern that does
//! not compile fails the run at once, whatever the paths are.

use crate::args::Args;
use crate::classify::flat_scan;
use crate::entry::Listing;
use crate::error::CountError;
use crate::filter::{filter_for, rule_of, FilterRule, NameFilter};
use crate::paths::{clone_path, clone_paths};
use crate::tally::{lemma_tally_ok, sum_lines, tally, total_lines};
use crate::walk::{
    lemma_flat_and_recursive_agree, level, no_directories, scan, scan_all, scan_level,
};
use std::path::PathBuf;
use vstd::prelude::*;

verus! {

/// What the session asks of its caller, or how the run ended.
#[derive(Debug)]
pub enum Action {
    /// Say whether this path is a regular file.
    Probe(PathBuf),
    /// List each of these directories.
    List(Vec<PathBuf>),
    /// Count the lines of each of these files.
    Count(Vec<PathBuf>),
    /// The run is over: this is the total.
    Done(usize),
    /// The run is over: it failed.
    Fail(CountError),
}

/// The caller's answer to an action.
#[derive(Debug)]
pub enum Event {
    /// Whether the probed path is a regular file.
    Probed(bool),
    /// The listings of the directories, one for each, in the order asked.
    Listed(Vec<Listing>),
    /// The line counts of the files, one for each, in the order asked; the
    /// cause of the failure where a file could not be read.
    Counted(Vec<Result<usize, std::io::Error>>),
}

/// An action, to the contracts: the same, with sequences for vectors.
pub enum ActionView {
    Probe(PathBuf),
    List(Seq<PathBuf>),
    Count(Seq<PathBuf>),
    Done(usize),
    Fail(CountError),
}

impl View for Action {
    type V = ActionView;

    open spec fn view(&self) -> ActionView {
        match *self {
            Action::Probe(path) => ActionView::Probe(path),
            Action::List(directories) => ActionView::List(directories@),
            Action::Count(files) => ActionView::Count(files@),
            Action::Done(total) => ActionView::Done(total),
            Action::Fail(e) => ActionView::Fail(e),
        }
    }
}

/// Where the work on the current path stands.
pub enum Phase {
    /// Asked whether the path is a regular file.
    Probe,
    /// Walking the path as a directory: the files gathered so far, and the
    /// directories whose listings were asked for.
    Scan { files: Seq<PathBuf>, frontier: Seq<PathBuf> },
    /// Asked for the line counts of these files.
    Count { files: Seq<PathBuf> },
}

/// A run that is under way, to the contracts.
pub struct Progress {
    /// The paths to count, in order.
    pub paths: Seq<PathBuf>,
    /// Whether directories are walked to their full depth.
    pub recursive: bool,
    /// The rule that names are held against.
    pub filter: FilterRule,
    /// The index of the path to take up after the current one.
    pub next: nat,
    /// The path being worked on.
    pub current: PathBuf,
    /// The sum over the paths that are finished.
    pub total: usize,
    /// Where the work on the current path stands.
    pub phase: Phase,
}

/// The first step of a run. Without a filter the run fails at once, with
/// the reason why there is none, before any path is looked at. Else the
/// first path is probed; with no path at all the total is zero.
pub open spec fn start(
    paths: Seq<PathBuf>,
    recursive: bool,
    filter: Result<FilterRule, CountError>,
) -> (Option<Progress>, ActionView) {
    match filter {
        Err(e) => (None, ActionView::Fail(e)),
        Ok(rule) => if paths.len() == 0 {
            (None, ActionView::Done(0))
        } else {
            (
                Some(
                    Progress {
                        paths,
                        recursive,
                        filter: rule,
                        next: 1,
                        current: paths[0],
                        total: 0,
                        phase: Phase::Probe,
                    },
                ),
                ActionView::Probe(paths[0]),
            )
        },
    }
}

/// The current path is finished with `subtotal` lines: the run fails where
/// the total no longer fits, goes on to probe the next path where there is
/// one, and else ends with the total.
pub open spec fn finish_path(p: Progress, subtotal: nat) -> (Option<Progress>, ActionView) {
    if p.total + subtotal > usize::MAX {
        (None, ActionView::Fail(CountError::Overflow(p.current)))
    } else if p.next < p.paths.len() {
        (
            Some(
                Progress {
                    next: p.next + 1,
                    current: p.paths[p.next as int],
                    total: (p.total + subtotal) as usize,
                    phase: Phase::Probe,
                    ..p
                },
            ),
            ActionView::Probe(p.paths[p.next as int]),
        )
    } else {
        (None, ActionView::Done((p.total + subtotal) as usize))
    }
}

/// The answer to a probe. A regular file is counted outright: its name is
/// not held against the filter. Anything else is walked as a directory.
pub open spec fn on_probed(p: Progress, is_file: bool) -> (Option<Progress>, ActionView) {
    if is_file {
        (
            Some(Progress { phase: Phase::Count { files: seq![p.current] }, ..p }),
            ActionView::Count(seq![p.current]),
        )
    } else {
        (
            Some(
                Progress {
                    phase: Phase::Scan { files: Seq::empty(), frontier: seq![p.current] },
                    ..p
                },
            ),
            ActionView::List(seq![p.current]),
        )
    }
}

/// The answer to a request for listings. The level's files join those
/// gathered; its directories are listed next, and once there are none the
/// files are counted.
pub open spec fn on_listed(
    p: Progress,
    files: Seq<PathBuf>,
    frontier: Seq<PathBuf>,
    listings: Seq<Listing>,
) -> (Option<Progress>, ActionView) {
    match level(frontier, listings, p.filter, p.recursive) {
        Err(e) => (None, ActionView::Fail(e)),
        Ok((more_files, directories)) => if directories.len() == 0 {
            (
                Some(Progress { phase: Phase::Count { files: files + more_files }, ..p }),
                ActionView::Count(files + more_files),
            )
        } else {
            (
                Some(
                    Progress {
                        phase: Phase::Scan { files: files + more_files, frontier: directories },
                        ..p
                    },
                ),
                ActionView::List(directories),
            )
        },
    }
}

/// The answer to a request for line counts: the current path is finished
/// with their sum, unless the tally fails.
pub open spec fn on_counted(
    p: Progress,
    files: Seq<PathBuf>,
    counts: Seq<Result<usize, std::io::Error>>,
) -> (Option<Progress>, ActionView) {
    match tally(files, counts) {
        Err(e) => (None, ActionView::Fail(e)),
        Ok(subtotal) => finish_path(p, subtotal),
    }
}

/// What a run that is under way makes of an event: the new state, or none
/// where the run is over, and the next action. An event that does not answer
/// the action last given ends the run with `UnexpectedEvent`.
pub open spec fn react(p: Progress, event: Event) -> (Option<Progress>, ActionView) {
    match (p.phase, event) {
        (Phase::Probe, Event::Probed(is_file)) => on_probed(p, is_file),
        (Phase::Scan { files, frontier }, Event::Listed(listings)) => on_listed(
            p,
            files,
            frontier,
            listings@,
        ),
        (Phase::Count { files }, Event::Counted(counts)) => on_counted(p, files, counts@),
        _ => (None, ActionView::Fail(CountError::UnexpectedEvent)),
    }
}

/// What a session makes of an event: a run that is over takes no more
/// events.
pub open spec fn step(state: Option<Progress>, event: Event) -> (Option<Progress>, ActionView) {
    match state {
        None => (None, ActionView::Fail(CountError::UnexpectedEvent)),
        Some(p) => react(p, event),
    }
}

/// Where the work on the current path stands, with the paths in hand.
enum Stage {
    Probe,
    Scan { files: Vec<PathBuf>, frontier: Vec<PathBuf> },
    Count { files: Vec<PathBuf> },
}

/// What a run keeps from one phase to the next.
struct Course {
    paths: Vec<PathBuf>,
    recursive: bool,
    filter: NameFilter,
    next: usize,
    current: PathBuf,
    total: usize,
}

/// A run that is under way.
struct Running {
    course: Course,
    stage: Stage,
}

/// The state of one run: which path is being worked on, what has been found
/// below it, and the total so far.
pub struct Session {
    state: Option<Running>,
}

impl View for Stage {
    type V = Phase;

    closed spec fn view(&self) -> Phase {
        match *self {
            Stage::Probe => Phase::Probe,
            Stage::Scan { files, frontier } => Phase::Scan { files: files@, frontier: frontier@ },
            Stage::Count { files } => Phase::Count { files: files@ },
        }
    }
}

impl View for Running {
    type V = Progress;

    closed spec fn view(&self) -> Progress {
        self.course.at(self.stage@)
    }
}

impl View for Session {
    type V = Option<Progress>;

    closed spec fn view(&self) -> Option<Progress> {
        match self.state {
            None => None,
            Some(running) => Some(running@),
        }
    }
}

impl Course {
    /// The run in the phase `phase`.
    closed spec fn at(&self, phase: Phase) -> Progress {
        Progress {
            paths: self.paths@,
            recursive: self.recursive,
            filter: self.filter@,
            next: self.next as nat,
            current: self.current,
            total: self.total,
            phase,
        }
    }

    fn finish(self, subtotal: usize) -> (r: (Session, Action))
        ensures
            forall|phase: Phase|
                (r.0@, r.1@) == finish_path(#[trigger] self.at(phase), subtotal as nat),
    {
        let Course { paths, recursive, filter, next, current, total } = self;
        match total.checked_add(subtotal) {
            None => (Session { state: None }, Action::Fail(CountError::Overflow(current))),
            Some(sum) => {
                if next < paths.len() {
                    let current = clone_path(&paths[next]);
                    let ask = clone_path(&current);
                    let course =
                        Course { paths, recursive, filter, next: next + 1, current, total: sum };
                    let stage = Stage::Probe;
                    (Session { state: Some(Running { course, stage }) }, Action::Probe(ask))
                } else {
                    (Session { state: None }, Action::Done(sum))
                }
            },
        }
    }

    fn probed(self, is_file: bool) -> (r: (Session, Action))
        ensures
            (r.0@, r.1@) == on_probed(self.at(Phase::Probe), is_file),
    {
        let mut ask: Vec<PathBuf> = Vec::new();
        ask.push(clone_path(&self.current));
        let mut only: Vec<PathBuf> = Vec::new();
        only.push(clone_path(&self.current));
        proof {
            assert(ask@ =~= seq![self.current]);
            assert(only@ =~= seq![self.current]);
        }
        if is_file {
            let stage = Stage::Count { files: only };
            (Session { state: Some(Running { course: self, stage }) }, Action::Count(ask))
        } else {
            let stage = Stage::Scan { files: Vec::new(), frontier: only };
            (Session { state: Some(Running { course: self, stage }) }, Action::List(ask))
        }
    }

    fn listed(self, files: Vec<PathBuf>, frontier: Vec<PathBuf>, listings: Vec<Listing>) -> (r: (
        Session,
        Action,
    ))
        ensures
            (r.0@, r.1@) == on_listed(
                self.at(Phase::Scan { files: files@, frontier: frontier@ }),
                files@,
                frontier@,
                listings@,
            ),
    {
        let mut files = files;
        match scan_level(&frontier, listings, &self.filter, self.recursive) {
            Err(e) => (Session { state: None }, Action::Fail(e)),
            Ok((mut more_files, directories)) => {
                files.append(&mut more_files);
                if directories.len() == 0 {
                    let ask = clone_paths(&files);
                    let stage = Stage::Count { files };
                    (Session { state: Some(Running { course: self, stage }) }, Action::Count(ask))
                } else {
                    let ask = clone_paths(&directories);
                    let stage = Stage::Scan { files, frontier: directories };
                    (Session { state: Some(Running { course: self, stage }) }, Action::List(ask))
                }
            },
        }
    }

    fn counted(self, files: Vec<PathBuf>, counts: Vec<Result<usize, std::io::Error>>) -> (r: (
        Session,
        Action,
    ))
        ensures
            (r.0@, r.1@) == on_counted(self.at(Phase::Count { files: files@ }), files@, counts@),
    {
        match total_lines(&files, counts) {
            Err(e) => (Session { state: None }, Action::Fail(e)),
            Ok(subtotal) => self.finish(subtotal),
        }
    }
}

impl Running {
    fn advance(self, event: Event) -> (r: (Session, Action))
        ensures
            (r.0@, r.1@) == react(self@, event),
    {
        let Running { course, stage } = self;
        match (stage, event) {
            (Stage::Probe, Event::Probed(is_file)) => course.probed(is_file),
            (Stage::Scan { files, frontier }, Event::Listed(listings)) => course.listed(
                files,
                frontier,
                listings,
            ),
            (Stage::Count { files }, Event::Counted(counts)) => course.counted(files, counts),
            _ => (Session { state: None }, Action::Fail(CountError::UnexpectedEvent)),
        }
    }
}

impl Session {
    /// Begins a run over `paths` with a filter that was built beforehand, or
    /// fails it with the reason why none could be built.
    pub fn with_filter(
        paths: Vec<PathBuf>,
        recursive: bool,
        filter: Result<NameFilter, CountError>,
    ) -> (r: (Session, Action))
        ensures
            (r.0@, r.1@) == start(paths@, recursive, rule_of(filter)),
    {
        match filter {
            Err(e) => (Session { state: None }, Action::Fail(e)),
            Ok(filter) => {
                if paths.len() == 0 {
                    (Session { state: None }, Action::Done(0))
                } else {
                    let current = clone_path(&paths[0]);
                    let ask = clone_path(&current);
                    let course = Course { paths, recursive, filter, next: 1, current, total: 0 };
                    let stage = Stage::Probe;
                    (Session { state: Some(Running { course, stage }) }, Action::Probe(ask))
                }
            },
        }
    }

    /// Begins the run that `args` describes: builds the filter from its
    /// pattern and invert flag, and walks directories to their full depth
    /// unless `no_recurse` is set. A pattern that does not compile fails the
    /// run here, with `InvalidPattern`.
    pub fn open(args: Args) -> (r: (Session, Action))
        ensures
            (r.0@, r.1@) == start(
                args.paths@,
                !args.no_recurse,
                filter_for(args.regex_string@, args.regex_not),
            ),
    {
        let Args { paths, no_recurse, regex_string, regex_not } = args;
        let filter = NameFilter::new(regex_string.as_str(), regex_not);
        Session::with_filter(paths, !no_recurse, filter)
    }

    /// Takes the caller's answer to the action last given, and gives the
    /// next action.
    pub fn step(&mut self, event: Event) -> (action: Action)
        ensures
            (final(self)@, action@) == step(old(self)@, event),
    {
        match self.state.take() {
            None => Action::Fail(CountError::UnexpectedEvent),
            Some(running) => {
                let (session, action) = running.advance(event);
                *self = session;
                action
            },
        }
    }
}

/// A path that is itself a regular file is counted outright, whatever the
/// filter: the session asks for that file's count without holding its name
/// against the rule, and the count goes into the total in full.
pub proof fn lemma_named_file_bypasses_filter(
    p: Progress,
    other: FilterRule,
    counts: Vec<Result<usize, std::io::Error>>,
    lines: usize,
)
    requires
        p.phase is Probe,
        counts@ == seq![Ok::<usize, std::io::Error>(lines)],
    ensures
        ({
            let q = Progress { filter: other, ..p };
            let asked = react(p, Event::Probed(true));
            let asked_q = react(q, Event::Probed(true));
            &&& asked.1 == ActionView::Count(seq![p.current])
            &&& asked_q.1 == asked.1
            &&& asked.0 is Some
            &&& asked_q.0 is Some
            &&& react(asked.0->0, Event::Counted(counts)) == finish_path(p, lines as nat)
            &&& react(asked_q.0->0, Event::Counted(counts)).1 == finish_path(p, lines as nat).1
        }),
{
    let files = seq![p.current];
    lemma_tally_ok(files, counts@);
    assert(sum_lines(counts@) == lines) by {
        assert(counts@.drop_last() =~= Seq::<Result<usize, std::io::Error>>::empty());
        reveal_with_fuel(sum_lines, 2);
    }
}

/// The level that a walk begins with is the scan of the one directory.
pub proof fn lemma_first_level(dir: PathBuf, listing: Listing, rule: FilterRule, recursive: bool)
    ensures
        level(seq![dir], seq![listing], rule, recursive) == scan(dir, listing, rule, recursive),
{
    let frontier = seq![dir];
    let listings = seq![listing];
    reveal_with_fuel(scan_all, 2);
    assert(listings.last() == listing);
    assert(frontier.last() == dir);
    match scan(dir, listing, rule, recursive) {
        Ok((files, directories)) => {
            assert(Seq::<PathBuf>::empty() + files =~= files);
            assert(Seq::<PathBuf>::empty() + directories =~= directories);
        },
        Err(_) => {},
    }
}

/// Over a directory that holds no directory, a recursive walk and a flat
/// one come to the same: the same files are counted, or the same failure
/// ends the run, and the same answer to the count is met with the same
/// action.
pub proof fn lemma_single_level_walks_agree(
    p: Progress,
    listings: Vec<Listing>,
    counts: Vec<Result<usize, std::io::Error>>,
)
    requires
        p.phase == (Phase::Scan { files: Seq::empty(), frontier: seq![p.current] }),
        listings@.len() == 1,
        no_directories(listings@[0]),
    ensures
        ({
            let deep = react(Progress { recursive: true, ..p }, Event::Listed(listings));
            let flat = react(Progress { recursive: false, ..p }, Event::Listed(listings));
            &&& deep.1 == flat.1
            &&& deep.1 is Count || deep.1 is Fail
            &&& deep.0 is Some <==> flat.0 is Some
            &&& deep.0 is Some ==> react(deep.0->0, Event::Counted(counts)).1 == react(
                flat.0->0,
                Event::Counted(counts),
            ).1
        }),
{
    assert(listings@ =~= seq![listings@[0]]);
    lemma_flat_and_recursive_agree(p.current, listings@[0], p.filter);
    lemma_first_level(p.current, listings@[0], p.filter, true);
    lemma_first_level(p.current, listings@[0], p.filter, false);
}

/// A flat walk is over after one listing: the session asks for the count
/// of the files that the filter keeps in the directory itself, and looks no
/// further.
pub proof fn lemma_flat_walk(p: Progress, listings: Vec<Listing>, files: Seq<PathBuf>)
    requires
        !p.recursive,
        p.phase == (Phase::Scan { files: Seq::empty(), frontier: seq![p.current] }),
        listings@.len() == 1,
        flat_scan(p.current, listings@[0], p.filter) == Ok::<Seq<PathBuf>, CountError>(files),
    ensures
        react(p, Event::Listed(listings)) == (
            Some(Progress { phase: Phase::Count { files }, ..p }),
            ActionView::Count(files),
        ),
{
    assert(listings@ =~= seq![listings@[0]]);
    lemma_first_level(p.current, listings@[0], p.filter, false);
    assert(Seq::<PathBuf>::empty() + files =~= files);
}

} // verus!
