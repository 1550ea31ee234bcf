//! Which file a path names, and what is left of the path inside that file.
//!
//! A path such as `vault.zip/folder/secret.png` may name an entry of an archive.
//! Only the file system can tell where the file ends, so the walk is split: the
//! functions here say which path to try next and what an answer means, and the caller
//! tries to open that path and reports what happened.

use crate::error::{Error, ErrorKind};
use crate::text::{chars_of, text_of};
use vstd::prelude::*;

verus! {

/// Why a file could not be opened.
#[derive(Debug, Clone, Copy, PartialEq, Eq)]
pub enum OpenFailure {
    /// Nothing exists under that path.
    NotFound,
    /// The path leads through something that is no directory.
    NotADirectory,
    /// Anything else: no permission, a failing device, a directory where a file
    /// was asked for.
    Other,
}

/// A path split into the file that exists and the path inside it, which is
/// delimited by `/` whatever the host's separator is.
#[derive(Debug, Clone, PartialEq, Eq)]
pub struct VaultLocation {
    pub container_path: String,
    pub inner_suffix: Option<String>,
}

/// What a [`VaultLocation`] holds.
pub struct LocationView {
    pub container_path: Seq<char>,
    pub inner_suffix: Option<Seq<char>>,
}

impl View for VaultLocation {
    type V = LocationView;

    open spec fn view(&self) -> LocationView {
        LocationView {
            container_path: self.container_path@,
            inner_suffix: match self.inner_suffix {
                Some(suffix) => Some(suffix@),
                None => None,
            },
        }
    }
}

/// Whether `c` separates the components of a path: `/` always, `\` where the host
/// uses it.
pub open spec fn is_separator(c: char, backslash: bool) -> bool {
    c == '/' || (backslash && c == '\\')
}

/// Where the run of separators that starts at `from` ends.
pub open spec fn run_end(path: Seq<char>, from: int, backslash: bool) -> int
    decreases path.len() - from,
{
    if 0 <= from < path.len() && is_separator(path[from], backslash) {
        run_end(path, from + 1, backslash)
    } else {
        from
    }
}

/// A container may end at `at`: a run of separators starts there, with something
/// before it and something after it.
pub open spec fn is_cut(path: Seq<char>, at: int, backslash: bool) -> bool {
    &&& 0 < at < path.len()
    &&& is_separator(path[at], backslash)
    &&& !is_separator(path[at - 1], backslash)
    &&& run_end(path, at, backslash) < path.len()
}

/// The last place below `limit` where a container may end.
pub open spec fn cut_before(path: Seq<char>, limit: int, backslash: bool) -> Option<int>
    decreases limit,
{
    if limit <= 0 {
        None
    } else if is_cut(path, limit - 1, backslash) {
        Some(limit - 1)
    } else {
        cut_before(path, limit - 1, backslash)
    }
}

/// A path inside a container with `/` for every separator.
pub open spec fn normalized(suffix: Seq<char>, backslash: bool) -> Seq<char> {
    Seq::new(
        suffix.len(),
        |i: int|
            if is_separator(suffix[i], backslash) {
                '/'
            } else {
                suffix[i]
            },
    )
}

/// The location that ends its container at `cut`: the whole path, or the path up to
/// the cut with what follows the separators as the path inside.
pub open spec fn location_at(path: Seq<char>, cut: int, backslash: bool) -> LocationView {
    if cut >= path.len() {
        LocationView { container_path: path, inner_suffix: None }
    } else {
        LocationView {
            container_path: path.take(cut),
            inner_suffix: Some(normalized(path.skip(run_end(path, cut, backslash)), backslash)),
        }
    }
}

/// Whether the walk goes on after a failure: it does where the path does not exist,
/// be it that nothing is there or that the path leads through a file, and stops on
/// any other failure.
pub fn can_continue(failure: OpenFailure) -> (result: Result<(), Error>)
    ensures
        result is Ok <==> failure is NotFound || failure is NotADirectory,
        result matches Err(e) ==> e.kind == ErrorKind::PermissionOrIoFailure,
{
    match failure {
        OpenFailure::NotFound => Ok(()),
        OpenFailure::NotADirectory => Ok(()),
        OpenFailure::Other => Err(Error::new(ErrorKind::PermissionOrIoFailure)),
    }
}

/// The walk up a path: the path, and where the candidate that is tried now ends.
pub struct Resolver {
    path: Vec<char>,
    cut: usize,
    backslash: bool,
}

/// What follows an answer.
pub enum Step {
    /// Try the candidate of this walk next.
    Probe(Resolver),
    /// The candidate is the container.
    Found(VaultLocation),
    /// The walk has failed.
    Failed(Error),
}

impl Resolver {
    /// The path that is walked.
    pub closed spec fn path(&self) -> Seq<char> {
        self.path@
    }

    /// Where the candidate ends.
    pub closed spec fn cut(&self) -> int {
        self.cut as int
    }

    /// Whether `\` separates components.
    pub closed spec fn backslash(&self) -> bool {
        self.backslash
    }

    /// The candidate is the whole path, or ends where a container may end.
    pub closed spec fn well_formed(&self) -> bool {
        self.cut == self.path@.len() || is_cut(self.path@, self.cut as int, self.backslash)
    }

    /// Starts the walk at the whole path. `backslash_separates` says whether the host
    /// takes `\` for a separator.
    pub fn new(path: &str, backslash_separates: bool) -> (walk: Resolver)
        ensures
            walk.well_formed(),
            walk.path() == path@,
            walk.cut() == path@.len(),
            walk.backslash() == backslash_separates,
    {
        let path = chars_of(path);
        let cut = path.len();
        Resolver { path, cut, backslash: backslash_separates }
    }

    /// The path to try now.
    pub fn candidate(&self) -> (candidate: String)
        requires
            self.well_formed(),
        ensures
            candidate@ == self.path().take(self.cut()),
            candidate@ == location_at(self.path(), self.cut(), self.backslash()).container_path,
    {
        assert(self.path@.take(self.path@.len() as int) =~= self.path@);
        text_of(&self.path, 0, self.cut)
    }

    fn separates(&self, at: usize) -> (is: bool)
        requires
            at < self.path@.len(),
        ensures
            is == is_separator(self.path@[at as int], self.backslash),
    {
        let c = self.path[at];
        c == '/' || (self.backslash && c == '\\')
    }

    fn run_end_from(&self, from: usize) -> (end: usize)
        requires
            from <= self.path@.len(),
        ensures
            end == run_end(self.path@, from as int, self.backslash),
            from <= end <= self.path@.len(),
    {
        let mut end = from;
        while end < self.path.len() && self.separates(end)
            invariant
                from <= end <= self.path@.len(),
                run_end(self.path@, from as int, self.backslash) == run_end(
                    self.path@,
                    end as int,
                    self.backslash,
                ),
            decreases self.path@.len() - end,
        {
            end += 1;
        }
        end
    }

    fn previous_cut(&self) -> (found: Option<usize>)
        ensures
            found matches Some(at) ==> cut_before(self.path@, self.cut as int, self.backslash)
                == Some(at as int) && is_cut(self.path@, at as int, self.backslash) && at
                < self.cut,
            found is None ==> cut_before(self.path@, self.cut as int, self.backslash) is None,
    {
        let mut limit = self.cut;
        while limit > 0
            invariant
                limit <= self.cut,
                cut_before(self.path@, self.cut as int, self.backslash) == cut_before(
                    self.path@,
                    limit as int,
                    self.backslash,
                ),
            decreases limit,
        {
            let at = limit - 1;
            if 0 < at && at < self.path.len() && self.separates(at) && !self.separates(at - 1)
                && self.run_end_from(at) < self.path.len() {
                return Some(at);
            }
            limit = at;
        }
        None
    }

    fn location(&self) -> (location: VaultLocation)
        requires
            self.well_formed(),
        ensures
            location@ == location_at(self.path@, self.cut as int, self.backslash),
    {
        let container_path = self.candidate();
        if self.cut >= self.path.len() {
            return VaultLocation { container_path, inner_suffix: None };
        }
        let start = self.run_end_from(self.cut);
        let mut suffix = String::new();
        let mut i = start;
        let ghost rest = self.path@.skip(start as int);
        while i < self.path.len()
            invariant
                start <= i <= self.path@.len(),
                rest == self.path@.skip(start as int),
                suffix@ == normalized(rest, self.backslash).take(i - start),
            decreases self.path@.len() - i,
        {
            if self.separates(i) {
                suffix.push('/');
            } else {
                suffix.push(self.path[i]);
            }
            i += 1;
            assert(suffix@ =~= normalized(rest, self.backslash).take(i - start));
        }
        assert(suffix@ =~= normalized(rest, self.backslash));
        VaultLocation { container_path, inner_suffix: Some(suffix) }
    }

    /// Takes the answer to the candidate. A candidate that opened is the container.
    /// One that does not exist sends the walk up to the next place where a container
    /// may end, and fails the walk as not found where there is none. Any other
    /// failure ends the walk at once.
    pub fn advance(self, outcome: Result<(), OpenFailure>) -> (step: Step)
        requires
            self.well_formed(),
        ensures
            match outcome {
                Ok(_) => step matches Step::Found(location) && location@ == location_at(
                    self.path(),
                    self.cut(),
                    self.backslash(),
                ),
                Err(OpenFailure::Other) => step matches Step::Failed(e) && e.kind
                    == ErrorKind::PermissionOrIoFailure,
                Err(OpenFailure::NotFound) | Err(OpenFailure::NotADirectory) => match cut_before(self.path(), self.cut(), self.backslash()) {
                    Some(at) => step matches Step::Probe(next) && next.well_formed()
                        && next.path() == self.path() && next.backslash() == self.backslash()
                        && next.cut() == at && at < self.cut(),
                    None => step matches Step::Failed(e) && e.kind == ErrorKind::NotFound,
                },
            },
    {
        match outcome {
            Ok(_) => Step::Found(self.location()),
            Err(failure) => match can_continue(failure) {
                Err(e) => Step::Failed(e),
                Ok(_) => match self.previous_cut() {
                    Some(at) => Step::Probe(
                        Resolver { path: self.path, cut: at, backslash: self.backslash },
                    ),
                    None => Step::Failed(Error::new(ErrorKind::NotFound)),
                },
            },
        }
    }
}

/// A located container is a part of the path that ends before a separator, and the
/// path inside it holds no separator but `/`: where the host separates with `\`, no
/// `\` is left in it.
pub proof fn lemma_location_shape(path: Seq<char>, cut: int, backslash: bool)
    requires
        is_cut(path, cut, backslash),
    ensures
        location_at(path, cut, backslash).container_path == path.take(cut),
        location_at(path, cut, backslash).inner_suffix matches Some(suffix) && suffix.len() > 0
            && suffix.len() + run_end(path, cut, backslash) == path.len() && (forall|i: int|
            0 <= i < suffix.len() && is_separator(#[trigger] suffix[i], backslash) ==> suffix[i]
                == '/'),
{
    lemma_run_end_bounds(path, cut, backslash);
}

/// A run of separators ends at or after its start and within the path.
proof fn lemma_run_end_bounds(path: Seq<char>, from: int, backslash: bool)
    requires
        0 <= from <= path.len(),
    ensures
        from <= run_end(path, from, backslash) <= path.len(),
    decreases path.len() - from,
{
    if from < path.len() && is_separator(path[from], backslash) {
        lemma_run_end_bounds(path, from + 1, backslash);
    }
}

/// The walk up a path comes to an end: every next candidate is shorter than the one
/// before.
pub proof fn lemma_walk_shortens(path: Seq<char>, limit: int, backslash: bool)
    ensures
        cut_before(path, limit, backslash) matches Some(at) ==> 0 < at < limit && is_cut(
            path,
            at,
            backslash,
        ),
    decreases limit,
{
    if limit > 0 && !is_cut(path, limit - 1, backslash) {
        lemma_walk_shortens(path, limit - 1, backslash);
    }
}

} // verus!
