//! The install orchestrator: confirmation, then per-package staging, download
//! and storage, as a state machine whose actions the caller performs.
use vstd::prelude::*;
use vstd::string::{StrSliceExecFns, StringExecFns};
use crate::index::listed;
use crate::package::{descriptor_of, names_view, Descriptor, JSONPackage, Repository};
use crate::resolve::{lemma_no_dependencies, resolution};

verus! {

/// `dir + "/" + name`.
pub open spec fn joined(dir: Seq<char>, name: Seq<char>) -> Seq<char> {
    dir + seq!['/'] + name
}

/// Joins a directory and an entry name with a separator.
pub fn join(dir: &str, name: &str) -> (r: String)
    ensures
        r@ == joined(dir@, name@),
{
    proof {
        reveal_strlit("/");
    }
    dir.to_owned().concat("/").concat(name)
}

/// The descriptor file of `name` in the mirror: `<mirror>/<name>/package.json`.
pub open spec fn descriptor_path_of(mirror: Seq<char>, name: Seq<char>) -> Seq<char> {
    joined(joined(mirror, name), seq!['p', 'a', 'c', 'k', 'a', 'g', 'e', '.', 'j', 's', 'o', 'n'])
}

pub fn descriptor_path(mirror: &str, name: &str) -> (r: String)
    ensures
        r@ == descriptor_path_of(mirror@, name@),
{
    let dir = join(mirror, name);
    let r = join(dir.as_str(), "package.json");
    proof {
        reveal_strlit("package.json");
    }
    r
}

/// The remote address in the repository locator's text: the text without one
/// trailing newline.
pub open spec fn address_of(text: Seq<char>) -> Seq<char> {
    if text.len() > 0 && text.last() == '\n' {
        text.drop_last()
    } else {
        text
    }
}

pub fn locator_address(text: &str) -> (r: String)
    ensures
        r@ == address_of(text@),
{
    let n = text.unicode_len();
    if n > 0 && text.get_char(n - 1) == '\n' {
        text.substring_char(0, n - 1).to_owned()
    } else {
        text.to_owned()
    }
}

/// The install set: the resolved dependencies, then the package itself.
pub open spec fn install_set_of(deps: Seq<Seq<char>>, root: Seq<char>) -> Seq<Seq<char>> {
    deps.push(root)
}

pub fn install_set(deps: Vec<String>, root: &str) -> (r: Vec<String>)
    ensures
        names_view(r@) == install_set_of(names_view(deps@), root@),
{
    let mut r = deps;
    r.push(root.to_owned());
    assert(names_view(r@) =~= names_view(deps@).push(root@));
    r
}

/// A reply line without its line terminator (`"\n"` or `"\r\n"`).
pub open spec fn reply_of(line: Seq<char>) -> Seq<char> {
    if line.len() > 0 && line.last() == '\n' {
        let t = line.drop_last();
        if t.len() > 0 && t.last() == '\r' {
            t.drop_last()
        } else {
            t
        }
    } else {
        line
    }
}

/// Whether a reply to the confirmation prompt declines: it is exactly `n` or `N`.
pub open spec fn declines(line: Seq<char>) -> bool {
    reply_of(line) == seq!['n'] || reply_of(line) == seq!['N']
}

pub fn answer_declines(line: &str) -> (r: bool)
    ensures
        r == declines(line@),
{
    let n = line.unicode_len();
    let mut end = n;
    if end > 0 && line.get_char(end - 1) == '\n' {
        end = end - 1;
        if end > 0 && line.get_char(end - 1) == '\r' {
            end = end - 1;
        }
    }
    let ghost reply = reply_of(line@);
    assert(reply =~= line@.take(end as int));
    if end != 1 {
        return false;
    }
    let c = line.get_char(0);
    assert(reply =~= seq![c]);
    proof {
        if reply == seq!['n'] || reply == seq!['N'] {
            assert(reply[0] == c);
        }
    }
    c == 'n' || c == 'N'
}

/// Where an installation stands.
#[derive(Clone, Copy, Debug, PartialEq, Eq, Structural)]
pub enum Stage {
    /// Waiting for the reply to the confirmation prompt.
    Confirm,
    /// Waiting for the current package's staging directory.
    Prepare,
    /// Waiting for the current package's descriptor.
    Describe,
    /// Waiting for the current package's artifact.
    Download,
    /// Waiting for the artifact to be written.
    Store,
    /// Nothing more to do.
    Finished,
}

/// Why an installation stopped before its end.
#[derive(Clone, Copy, Debug, PartialEq, Eq, Structural)]
pub enum InstallError {
    /// The reply to the prompt declined.
    Declined,
    /// A staging directory could not be created.
    CreateDir,
    /// A descriptor could not be read.
    Descriptor,
    /// The artifact could not be fetched.
    Download,
    /// The artifact could not be written.
    Write,
    /// An event came that does not answer the last action.
    Sequence,
}

/// What the caller reports back after performing an action.
#[derive(Debug)]
pub enum Event {
    /// The line read from the user.
    Answer(String),
    DirReady,
    DirFailed,
    Described(JSONPackage),
    DescribeFailed,
    /// The body of the artifact, as text.
    Fetched(String),
    FetchFailed,
    Stored,
    StoreFailed,
}

/// What the caller performs next.
#[derive(Debug)]
pub enum Action {
    /// Make sure the directory exists.
    CreateDir(String),
    /// Read the descriptor file at this path.
    ReadDescriptor(String),
    /// Announce `name-version`, then fetch `url`.
    Download { name: String, version: String, url: String },
    /// Write `body` to the file at `path`.
    Store { path: String, body: String },
    /// Remove the staging directory `dir` with everything in it, then stop with `error`.
    Abandon { dir: String, error: InstallError },
    /// Stop with `error`, touching nothing.
    Abort(InstallError),
    /// Every package was staged.
    Complete,
}

pub ghost enum EventView {
    Answer(Seq<char>),
    DirReady,
    DirFailed,
    Described { version: Seq<char>, filename: Seq<char>, url: Seq<char> },
    DescribeFailed,
    Fetched(Seq<char>),
    FetchFailed,
    Stored,
    StoreFailed,
}

pub ghost enum ActionView {
    CreateDir(Seq<char>),
    ReadDescriptor(Seq<char>),
    Download { name: Seq<char>, version: Seq<char>, url: Seq<char> },
    Store { path: Seq<char>, body: Seq<char> },
    Abandon { dir: Seq<char>, error: InstallError },
    Abort(InstallError),
    Complete,
}

impl View for Event {
    type V = EventView;

    open spec fn view(&self) -> EventView {
        match self {
            Event::Answer(s) => EventView::Answer(s@),
            Event::DirReady => EventView::DirReady,
            Event::DirFailed => EventView::DirFailed,
            Event::Described(p) => EventView::Described {
                version: p.version@,
                filename: p.filename@,
                url: p.url@,
            },
            Event::DescribeFailed => EventView::DescribeFailed,
            Event::Fetched(b) => EventView::Fetched(b@),
            Event::FetchFailed => EventView::FetchFailed,
            Event::Stored => EventView::Stored,
            Event::StoreFailed => EventView::StoreFailed,
        }
    }
}

impl View for Action {
    type V = ActionView;

    open spec fn view(&self) -> ActionView {
        match self {
            Action::CreateDir(d) => ActionView::CreateDir(d@),
            Action::ReadDescriptor(p) => ActionView::ReadDescriptor(p@),
            Action::Download { name, version, url } => ActionView::Download {
                name: name@,
                version: version@,
                url: url@,
            },
            Action::Store { path, body } => ActionView::Store { path: path@, body: body@ },
            Action::Abandon { dir, error } => ActionView::Abandon { dir: dir@, error: *error },
            Action::Abort(e) => ActionView::Abort(*e),
            Action::Complete => ActionView::Complete,
        }
    }
}

/// An installation of a fixed install set, one package after the other.
pub struct Installer {
    /// The install set, in the order in which packages are staged.
    pub packages: Vec<String>,
    /// The position of the package being staged.
    pub current: usize,
    pub stage: Stage,
    /// The local mirror of the repository.
    pub mirror: String,
    /// The directory under which each package gets its staging directory.
    pub staging_root: String,
    /// The file name of the current package's artifact, once described.
    pub filename: String,
}

pub ghost struct InstallerView {
    pub packages: Seq<Seq<char>>,
    pub current: int,
    pub stage: Stage,
    pub mirror: Seq<char>,
    pub staging_root: Seq<char>,
    pub filename: Seq<char>,
}

impl View for Installer {
    type V = InstallerView;

    open spec fn view(&self) -> InstallerView {
        InstallerView {
            packages: names_view(self.packages@),
            current: self.current as int,
            stage: self.stage,
            mirror: self.mirror@,
            staging_root: self.staging_root@,
            filename: self.filename@,
        }
    }
}

/// The staging directory of the `k`-th package of the set.
pub open spec fn staging_of(s: InstallerView, k: int) -> Seq<char> {
    joined(s.staging_root, s.packages[k])
}

/// Whether the stage waits on the current package.
pub open spec fn works_on_package(stage: Stage) -> bool {
    stage == Stage::Prepare || stage == Stage::Describe || stage == Stage::Download || stage
        == Stage::Store
}

/// The installer after `s` has stopped, with the action that stops it.
pub open spec fn stopped(s: InstallerView, a: ActionView) -> (InstallerView, ActionView) {
    (InstallerView { stage: Stage::Finished, ..s }, a)
}

/// The next state and action: what the installer does when `e` reports on
/// its last action.
pub open spec fn transition(s: InstallerView, e: EventView) -> (InstallerView, ActionView) {
    if works_on_package(s.stage) && !(0 <= s.current < s.packages.len()) {
        stopped(s, ActionView::Abort(InstallError::Sequence))
    } else {
        match (s.stage, e) {
            (Stage::Confirm, EventView::Answer(line)) => if declines(line) {
                stopped(s, ActionView::Abort(InstallError::Declined))
            } else if s.packages.len() == 0 {
                stopped(s, ActionView::Complete)
            } else {
                let t = InstallerView { stage: Stage::Prepare, current: 0, ..s };
                (t, ActionView::CreateDir(staging_of(t, 0)))
            },
            (Stage::Prepare, EventView::DirReady) => (
                InstallerView { stage: Stage::Describe, ..s },
                ActionView::ReadDescriptor(descriptor_path_of(s.mirror, s.packages[s.current])),
            ),
            (Stage::Prepare, EventView::DirFailed) => stopped(
                s,
                ActionView::Abort(InstallError::CreateDir),
            ),
            (Stage::Describe, EventView::Described { version, filename, url }) => (
                InstallerView { stage: Stage::Download, filename, ..s },
                ActionView::Download { name: s.packages[s.current], version, url },
            ),
            (Stage::Describe, EventView::DescribeFailed) => stopped(
                s,
                ActionView::Abandon {
                    dir: staging_of(s, s.current),
                    error: InstallError::Descriptor,
                },
            ),
            (Stage::Download, EventView::Fetched(body)) => (
                InstallerView { stage: Stage::Store, ..s },
                ActionView::Store { path: joined(staging_of(s, s.current), s.filename), body },
            ),
            (Stage::Download, EventView::FetchFailed) => stopped(
                s,
                ActionView::Abandon { dir: staging_of(s, s.current), error: InstallError::Download },
            ),
            (Stage::Store, EventView::Stored) => if s.current + 1 < s.packages.len() {
                let t = InstallerView { stage: Stage::Prepare, current: s.current + 1, ..s };
                (t, ActionView::CreateDir(staging_of(t, t.current)))
            } else {
                stopped(s, ActionView::Complete)
            },
            (Stage::Store, EventView::StoreFailed) => stopped(
                s,
                ActionView::Abandon { dir: staging_of(s, s.current), error: InstallError::Write },
            ),
            _ => stopped(s, ActionView::Abort(InstallError::Sequence)),
        }
    }
}

impl Installer {
    /// An installer for `packages` that first asks for confirmation.
    pub fn new(packages: Vec<String>, mirror: String, staging_root: String) -> (r: Installer)
        ensures
            r@.packages == names_view(packages@),
            r@.current == 0,
            r@.stage == Stage::Confirm,
            r@.mirror == mirror@,
            r@.staging_root == staging_root@,
            r@.filename.len() == 0,
    {
        Installer { packages, current: 0, stage: Stage::Confirm, mirror, staging_root, filename: String::new() }
    }

    fn stop(&mut self, a: Action) -> (r: Action)
        ensures
            (final(self)@, r@) == stopped(old(self)@, a@),
    {
        self.stage = Stage::Finished;
        a
    }

    fn staging_dir(&self, k: usize) -> (r: String)
        requires
            k < self.packages@.len(),
        ensures
            r@ == staging_of(self@, k as int),
    {
        join(self.staging_root.as_str(), self.packages[k].as_str())
    }

    /// Takes the report on the last action and gives the next one.
    pub fn advance(&mut self, event: Event) -> (a: Action)
        ensures
            (final(self)@, a@) == transition(old(self)@, event@),
    {
        let ghost s = self@;
        let busy = match self.stage {
            Stage::Confirm | Stage::Finished => false,
            _ => true,
        };
        if busy && self.current >= self.packages.len() {
            return self.stop(Action::Abort(InstallError::Sequence));
        }
        match (self.stage, event) {
            (Stage::Confirm, Event::Answer(line)) => {
                if answer_declines(line.as_str()) {
                    self.stop(Action::Abort(InstallError::Declined))
                } else if self.packages.len() == 0 {
                    self.stop(Action::Complete)
                } else {
                    self.stage = Stage::Prepare;
                    self.current = 0;
                    Action::CreateDir(self.staging_dir(0))
                }
            },
            (Stage::Prepare, Event::DirReady) => {
                self.stage = Stage::Describe;
                Action::ReadDescriptor(
                    descriptor_path(self.mirror.as_str(), self.packages[self.current].as_str()),
                )
            },
            (Stage::Prepare, Event::DirFailed) => self.stop(Action::Abort(InstallError::CreateDir)),
            (Stage::Describe, Event::Described(p)) => {
                self.stage = Stage::Download;
                self.filename = p.filename;
                Action::Download {
                    name: self.packages[self.current].clone(),
                    version: p.version,
                    url: p.url,
                }
            },
            (Stage::Describe, Event::DescribeFailed) => {
                let dir = self.staging_dir(self.current);
                self.stop(Action::Abandon { dir, error: InstallError::Descriptor })
            },
            (Stage::Download, Event::Fetched(body)) => {
                self.stage = Stage::Store;
                let dir = self.staging_dir(self.current);
                Action::Store { path: join(dir.as_str(), self.filename.as_str()), body }
            },
            (Stage::Download, Event::FetchFailed) => {
                let dir = self.staging_dir(self.current);
                self.stop(Action::Abandon { dir, error: InstallError::Download })
            },
            (Stage::Store, Event::Stored) => {
                if self.current + 1 < self.packages.len() {
                    self.stage = Stage::Prepare;
                    self.current = self.current + 1;
                    Action::CreateDir(self.staging_dir(self.current))
                } else {
                    self.stop(Action::Complete)
                }
            },
            (Stage::Store, Event::StoreFailed) => {
                let dir = self.staging_dir(self.current);
                self.stop(Action::Abandon { dir, error: InstallError::Write })
            },
            _ => self.stop(Action::Abort(InstallError::Sequence)),
        }
    }
}

/// A listed package without dependencies resolves to nothing, and its
/// install set is the package alone.
pub proof fn lemma_lone_package_install_set(repo: Repository, name: Seq<char>, p: JSONPackage)
    requires
        listed(repo.index@, name),
        descriptor_of(repo.entries@, name) == Some(Descriptor::Read(p)),
        p.depends@.len() == 0,
    ensures
        resolution(repo, name) matches Ok(s) && s.len() == 0 && install_set_of(s, name) == seq![
            name,
        ],
{
    lemma_no_dependencies(repo, name, p);
    assert(Seq::<Seq<char>>::empty().push(name) =~= seq![name]);
}

/// A reply of `n` or `N` ends the installation at once, with no directory,
/// file or download asked for, and nothing is asked for after it; any other
/// reply starts by preparing the first package's staging directory.
pub proof fn lemma_confirmation(s: InstallerView, line: Seq<char>, e: EventView)
    requires
        s.stage == Stage::Confirm,
        s.packages.len() > 0,
    ensures
        declines(line) ==> transition(s, EventView::Answer(line)) == stopped(
            s,
            ActionView::Abort(InstallError::Declined),
        ),
        declines(line) ==> transition(transition(s, EventView::Answer(line)).0, e).1
            == ActionView::Abort(InstallError::Sequence),
        !declines(line) ==> transition(s, EventView::Answer(line)).1 == ActionView::CreateDir(
            joined(s.staging_root, s.packages[0]),
        ),
{
}

/// A failed download removes the staging directory of the package being
/// fetched and stops; the staging directory of every earlier package with
/// another name is a different directory, and stays.
pub proof fn lemma_failed_download_cleanup(s: InstallerView, k: int)
    requires
        s.stage == Stage::Download,
        0 <= s.current < s.packages.len(),
        0 <= k < s.current,
        s.packages[k] != s.packages[s.current],
    ensures
        transition(s, EventView::FetchFailed) == stopped(
            s,
            ActionView::Abandon { dir: staging_of(s, s.current), error: InstallError::Download },
        ),
        staging_of(s, k) != staging_of(s, s.current),
{
    let pre = s.staging_root + seq!['/'];
    let a = s.packages[k];
    let b = s.packages[s.current];
    if staging_of(s, k) == staging_of(s, s.current) {
        assert(a =~= staging_of(s, k).subrange(pre.len() as int, staging_of(s, k).len() as int));
        assert(b =~= staging_of(s, s.current).subrange(
            pre.len() as int,
            staging_of(s, s.current).len() as int,
        ));
    }
}

/// The only directory an installer ever removes is the staging directory of
/// the package it is working on.
pub proof fn lemma_cleanup_targets_current(s: InstallerView, e: EventView)
    ensures
        transition(s, e).1 matches ActionView::Abandon { dir, .. } ==> dir == staging_of(
            s,
            s.current,
        ) && 0 <= s.current < s.packages.len(),
{
}

} // verus!
