//! The project materializer: a state machine that decides, file by file, what to
//! create, copy, skip or overwrite.
//!
//! The machine never touches the file system. Each call of `Materializer::next`
//! takes the reply to the previous request and returns the next request; the
//! driver performs it and answers. Its decisions follow the descriptor's order:
//! the project directory, the declared directories, the templates, the empty
//! files, then the README.

use vstd::prelude::*;
use crate::paths::{join_path, join_spec};
use crate::preset::{PresetConfig, TemplateConfig};
use crate::readme::{is_minute_stamp, local_minute_stamp, pairs_view, readme_body, readme_document, render_readme};

verus! {

/// How far a run has come; the index is that of the item now being handled.
#[derive(Clone, Copy, PartialEq, Eq, Structural, Debug)]
pub enum Stage {
    Begin,
    Target,
    Root,
    Dir(usize),
    TemplateDest(usize),
    TemplateSource(usize),
    TemplateCopy(usize),
    EmptyCheck(usize),
    EmptyMake(usize),
    ReadmeCheck,
    ReadmeWrite,
    Over,
}

/// The driver's answer to the last request.
#[derive(Debug, Clone)]
pub enum Reply {
    /// Begins a run; the first call of `next` takes any reply.
    Start,
    /// The action was performed.
    Done,
    /// The answer to a question: whether the path exists, or for the project
    /// directory, whether it exists and holds any entry.
    Present(bool),
    /// The action or the question failed, with the reason.
    Failed(String),
}

/// Why a run stopped.
#[derive(Debug, Clone)]
pub enum MaterializeError {
    /// The project directory exists and is not empty, and `force` was not given.
    TargetNotEmpty(String),
    /// A directory or a file could not be read, created or written.
    Io(String),
    /// The reply did not answer the last request, or came after the run ended.
    UnexpectedReply,
}

/// What the machine asks the driver to do next.
#[derive(Debug, Clone)]
pub enum Request {
    /// Say whether this directory exists and holds any entry (`Present`).
    InspectTarget(String),
    /// Create this directory and its missing parents (`Done`).
    CreateDir(String),
    /// Say whether this path exists (`Present`).
    Exists(String),
    /// Create the destination's missing parents, then copy the source's bytes
    /// over the destination (`Done`).
    Copy { source: String, destination: String },
    /// Create the path's missing parents, then create or truncate it to an
    /// empty file (`Done`).
    CreateEmpty(String),
    /// Create or overwrite this file with the content (`Done`).
    WriteFile { path: String, content: String },
    /// The run succeeded; here is its log, one line per decision, in order.
    Finish(Vec<String>),
    /// The run stopped.
    Abort(MaterializeError),
}

/// A `Reply` as a value.
pub enum ReplyView {
    Start,
    Done,
    Present(bool),
    Failed(Seq<char>),
}

/// A `MaterializeError` as a value.
pub enum ErrorView {
    TargetNotEmpty(Seq<char>),
    Io(Seq<char>),
    UnexpectedReply,
}

/// A `Request` as a value.
pub enum RequestView {
    InspectTarget(Seq<char>),
    CreateDir(Seq<char>),
    Exists(Seq<char>),
    Copy(Seq<char>, Seq<char>),
    CreateEmpty(Seq<char>),
    WriteFile(Seq<char>, Seq<char>),
    Finish(Seq<Seq<char>>),
    Abort(ErrorView),
}

impl View for Reply {
    type V = ReplyView;

    open spec fn view(&self) -> ReplyView {
        match self {
            Reply::Start => ReplyView::Start,
            Reply::Done => ReplyView::Done,
            Reply::Present(b) => ReplyView::Present(*b),
            Reply::Failed(e) => ReplyView::Failed(e@),
        }
    }
}

impl View for MaterializeError {
    type V = ErrorView;

    open spec fn view(&self) -> ErrorView {
        match self {
            MaterializeError::TargetNotEmpty(p) => ErrorView::TargetNotEmpty(p@),
            MaterializeError::Io(e) => ErrorView::Io(e@),
            MaterializeError::UnexpectedReply => ErrorView::UnexpectedReply,
        }
    }
}

impl View for Request {
    type V = RequestView;

    open spec fn view(&self) -> RequestView {
        match self {
            Request::InspectTarget(p) => RequestView::InspectTarget(p@),
            Request::CreateDir(p) => RequestView::CreateDir(p@),
            Request::Exists(p) => RequestView::Exists(p@),
            Request::Copy { source, destination } => RequestView::Copy(source@, destination@),
            Request::CreateEmpty(p) => RequestView::CreateEmpty(p@),
            Request::WriteFile { path, content } => RequestView::WriteFile(path@, content@),
            Request::Finish(log) => RequestView::Finish(log.deep_view()),
            Request::Abort(e) => RequestView::Abort(e@),
        }
    }
}

/// What `format!("{:?}", s)` gives for a string: the text in double quotes,
/// each character escaped as `char::escape_debug` does.
pub uninterp spec fn debug_text(s: Seq<char>) -> Seq<char>;

/// Printable ASCII that `escape_debug` leaves as it is.
pub open spec fn plain_char(c: char) -> bool {
    ' ' <= c && c <= '~' && c != '"' && c != '\\'
}

/// Relies on `str`'s `Debug`: the text quoted and escaped, which depends on the
/// characters alone; printable ASCII other than `"` and `\` stands for itself.
#[verifier::external_body]
fn debug_quoted(s: &str) -> (r: String)
    ensures
        r@ == debug_text(s@),
        (forall|i: int| 0 <= i < s@.len() ==> plain_char(#[trigger] s@[i])) ==> r@ == seq!['"'] + s@ + seq!['"'],
{
    format!("{:?}", s)
}

/// Everything a run is given: paths, the descriptor's lists, field values and flags.
pub struct Job {
    pub target: Seq<char>,
    pub source_root: Seq<char>,
    pub project: Seq<char>,
    pub dirs: Seq<Seq<char>>,
    /// `(source, destination)` pairs.
    pub templates: Seq<(Seq<char>, Seq<char>)>,
    pub empties: Seq<Seq<char>>,
    pub readme_template: Seq<char>,
    /// `(field id, value)` pairs.
    pub fields: Seq<(Seq<char>, Seq<char>)>,
    pub force: bool,
    pub refresh: bool,
}

/// A step's result: the new stage, the new log, and the next request.
pub type Move = (Stage, Seq<Seq<char>>, RequestView);

pub open spec fn dir_path(job: Job, i: int) -> Seq<char> {
    join_spec(job.target, job.dirs[i])
}

pub open spec fn source_path(job: Job, i: int) -> Seq<char> {
    join_spec(job.source_root, job.templates[i].0)
}

pub open spec fn dest_path(job: Job, i: int) -> Seq<char> {
    join_spec(job.target, job.templates[i].1)
}

pub open spec fn empty_path(job: Job, i: int) -> Seq<char> {
    join_spec(job.target, job.empties[i])
}

pub open spec fn readme_path(job: Job) -> Seq<char> {
    join_spec(job.target, "README.md"@)
}

pub open spec fn copy_line(job: Job, i: int) -> Seq<char> {
    "Copying template: "@ + debug_text(source_path(job, i)) + " -> "@ + debug_text(dest_path(job, i))
}

/// The README content for a given time.
pub open spec fn readme_text(job: Job, stamp: Seq<char>) -> Seq<char> {
    readme_document(job.project, stamp, readme_body(job.readme_template, job.project, stamp, job.fields))
}

pub open spec fn success_line() -> Seq<char> {
    "Project created successfully!"@
}

pub open spec fn finish(log: Seq<Seq<char>>) -> Move {
    (Stage::Over, log.push(success_line()), RequestView::Finish(log.push(success_line())))
}

pub open spec fn abort(log: Seq<Seq<char>>, e: ErrorView) -> Move {
    (Stage::Over, log, RequestView::Abort(e))
}

pub open spec fn enter_readme(job: Job, log: Seq<Seq<char>>) -> Move {
    (Stage::ReadmeCheck, log, RequestView::Exists(readme_path(job)))
}

pub open spec fn enter_empties(job: Job, i: int, log: Seq<Seq<char>>) -> Move {
    if i < job.empties.len() {
        (Stage::EmptyCheck(i as usize), log, RequestView::Exists(empty_path(job, i)))
    } else {
        enter_readme(job, log)
    }
}

pub open spec fn enter_templates(job: Job, i: int, log: Seq<Seq<char>>) -> Move {
    if i < job.templates.len() {
        (Stage::TemplateDest(i as usize), log, RequestView::Exists(dest_path(job, i)))
    } else {
        enter_empties(job, 0, log)
    }
}

pub open spec fn enter_dirs(job: Job, i: int, log: Seq<Seq<char>>) -> Move {
    if i < job.dirs.len() {
        (
            Stage::Dir(i as usize),
            log.push("Creating subdirectory: "@ + debug_text(dir_path(job, i))),
            RequestView::CreateDir(dir_path(job, i)),
        )
    } else {
        enter_templates(job, 0, log)
    }
}

/// After an action: go on with `next` when it was done, stop otherwise.
pub open spec fn after_action(reply: ReplyView, log: Seq<Seq<char>>, next: Move) -> Move {
    match reply {
        ReplyView::Done => next,
        ReplyView::Failed(e) => abort(log, ErrorView::Io(e)),
        _ => abort(log, ErrorView::UnexpectedReply),
    }
}

/// One step of a run: from the stage and log, given the reply to the last
/// request and the local time (used only when the README is written).
pub open spec fn advance(job: Job, stage: Stage, log: Seq<Seq<char>>, reply: ReplyView, stamp: Seq<char>) -> Move {
    match stage {
        Stage::Begin => (Stage::Target, log, RequestView::InspectTarget(job.target)),
        Stage::Target => match reply {
            ReplyView::Present(busy) => if busy && !job.force {
                abort(log, ErrorView::TargetNotEmpty(job.target))
            } else {
                (
                    Stage::Root,
                    log.push("Creating project directory: "@ + debug_text(job.target)),
                    RequestView::CreateDir(job.target),
                )
            },
            ReplyView::Failed(e) => abort(log, ErrorView::Io(e)),
            _ => abort(log, ErrorView::UnexpectedReply),
        },
        Stage::Root => after_action(reply, log, enter_dirs(job, 0, log)),
        Stage::Dir(i) => after_action(reply, log, enter_dirs(job, i + 1, log)),
        Stage::TemplateDest(i) => match reply {
            ReplyView::Present(exists) => if exists && !job.refresh {
                enter_templates(job, i + 1, log.push("Skipping existing file: "@ + debug_text(dest_path(job, i as int))))
            } else {
                (Stage::TemplateSource(i), log, RequestView::Exists(source_path(job, i as int)))
            },
            ReplyView::Failed(e) => abort(log, ErrorView::Io(e)),
            _ => abort(log, ErrorView::UnexpectedReply),
        },
        Stage::TemplateSource(i) => match reply {
            ReplyView::Present(exists) => if !exists {
                enter_templates(
                    job,
                    i + 1,
                    log.push("Warning: Template source not found: "@ + debug_text(source_path(job, i as int))),
                )
            } else {
                (
                    Stage::TemplateCopy(i),
                    log.push(copy_line(job, i as int)),
                    RequestView::Copy(source_path(job, i as int), dest_path(job, i as int)),
                )
            },
            ReplyView::Failed(e) => abort(log, ErrorView::Io(e)),
            _ => abort(log, ErrorView::UnexpectedReply),
        },
        Stage::TemplateCopy(i) => after_action(reply, log, enter_templates(job, i + 1, log)),
        Stage::EmptyCheck(i) => match reply {
            ReplyView::Present(exists) => if exists && !job.refresh {
                enter_empties(job, i + 1, log.push("Skipping existing empty file: "@ + debug_text(empty_path(job, i as int))))
            } else {
                (
                    Stage::EmptyMake(i),
                    log.push("Creating empty file: "@ + debug_text(empty_path(job, i as int))),
                    RequestView::CreateEmpty(empty_path(job, i as int)),
                )
            },
            ReplyView::Failed(e) => abort(log, ErrorView::Io(e)),
            _ => abort(log, ErrorView::UnexpectedReply),
        },
        Stage::EmptyMake(i) => after_action(reply, log, enter_empties(job, i + 1, log)),
        Stage::ReadmeCheck => match reply {
            ReplyView::Present(exists) => if job.refresh || !exists {
                (
                    Stage::ReadmeWrite,
                    log.push("Generating README: "@ + debug_text(readme_path(job))),
                    RequestView::WriteFile(readme_path(job), readme_text(job, stamp)),
                )
            } else {
                finish(log)
            },
            ReplyView::Failed(e) => abort(log, ErrorView::Io(e)),
            _ => abort(log, ErrorView::UnexpectedReply),
        },
        Stage::ReadmeWrite => after_action(reply, log, finish(log)),
        Stage::Over => abort(log, ErrorView::UnexpectedReply),
    }
}

/// The indices of a stage point at items of the job, and every index fits a `usize`.
pub open spec fn stage_fits(job: Job, stage: Stage) -> bool {
    &&& job.dirs.len() <= usize::MAX
    &&& job.templates.len() <= usize::MAX
    &&& job.empties.len() <= usize::MAX
    &&& match stage {
        Stage::Dir(i) => i < job.dirs.len(),
        Stage::TemplateDest(i) => i < job.templates.len(),
        Stage::TemplateSource(i) => i < job.templates.len(),
        Stage::TemplateCopy(i) => i < job.templates.len(),
        Stage::EmptyCheck(i) => i < job.empties.len(),
        Stage::EmptyMake(i) => i < job.empties.len(),
        _ => true,
    }
}

/// The `(source, destination)` pairs of templates.
pub open spec fn templates_view(ts: Seq<TemplateConfig>) -> Seq<(Seq<char>, Seq<char>)> {
    ts.map_values(|t: TemplateConfig| (t.source@, t.destination@))
}

/// One run of materializing a preset into a project directory.
pub struct Materializer {
    target: String,
    source_root: String,
    project_name: String,
    config: PresetConfig,
    fields: Vec<(String, String)>,
    force: bool,
    refresh: bool,
    stage: Stage,
    log: Vec<String>,
}

impl Materializer {
    /// What the run was given.
    pub closed spec fn job(&self) -> Job {
        Job {
            target: self.target@,
            source_root: self.source_root@,
            project: self.project_name@,
            dirs: self.config.directories.deep_view(),
            templates: templates_view(self.config.templates@),
            empties: self.config.empty_files.deep_view(),
            readme_template: self.config.readme_template@,
            fields: pairs_view(self.fields@),
            force: self.force,
            refresh: self.refresh,
        }
    }

    pub closed spec fn stage(&self) -> Stage {
        self.stage
    }

    /// The lines logged so far.
    pub closed spec fn log(&self) -> Seq<Seq<char>> {
        self.log.deep_view()
    }

    pub open spec fn wf(&self) -> bool {
        stage_fits(self.job(), self.stage())
    }

    fn line(prefix: &str, path: &str) -> (r: String)
        ensures
            r@ == prefix@ + path@,
    {
        let mut r = String::from_str(prefix);
        r.append(path);
        r
    }

    fn dir_at(&self, i: usize) -> (r: String)
        requires
            i < self.job().dirs.len(),
        ensures
            r@ == dir_path(self.job(), i as int),
    {
        join_path(self.target.as_str(), self.config.directories[i].as_str())
    }

    fn source_at(&self, i: usize) -> (r: String)
        requires
            i < self.job().templates.len(),
        ensures
            r@ == source_path(self.job(), i as int),
    {
        join_path(self.source_root.as_str(), self.config.templates[i].source.as_str())
    }

    fn dest_at(&self, i: usize) -> (r: String)
        requires
            i < self.job().templates.len(),
        ensures
            r@ == dest_path(self.job(), i as int),
    {
        join_path(self.target.as_str(), self.config.templates[i].destination.as_str())
    }

    fn empty_at(&self, i: usize) -> (r: String)
        requires
            i < self.job().empties.len(),
        ensures
            r@ == empty_path(self.job(), i as int),
    {
        join_path(self.target.as_str(), self.config.empty_files[i].as_str())
    }

    fn push_log(&mut self, line: String)
        ensures
            final(self).job() == old(self).job(),
            final(self).stage() == old(self).stage(),
            final(self).log() == old(self).log().push(line@),
    {
        let ghost before = self.log.deep_view();
        self.log.push(line);
        assert(self.log.deep_view() =~= before.push(line@));
    }

    fn go(&mut self, m: (Stage, Request)) -> (r: Request)
        ensures
            final(self).job() == old(self).job(),
            final(self).stage() == m.0,
            final(self).log() == old(self).log(),
            r == m.1,
    {
        self.stage = m.0;
        m.1
    }

    fn finish_run(&mut self) -> (r: Request)
        ensures
            final(self).job() == old(self).job(),
            (final(self).stage(), final(self).log(), r@) == finish(old(self).log()),
    {
        self.push_log(String::from_str("Project created successfully!"));
        let mut out: Vec<String> = Vec::new();
        std::mem::swap(&mut out, &mut self.log);
        let ghost lines = out.deep_view();
        let mut kept: Vec<String> = Vec::new();
        let mut i: usize = 0;
        while i < out.len()
            invariant
                i <= out@.len(),
                out.deep_view() == lines,
                kept.deep_view() == lines.subrange(0, i as int),
            decreases out@.len() - i,
        {
            let ghost before = kept.deep_view();
            let line = out[i].clone();
            assert(line@ == lines[i as int]);
            kept.push(line);
            assert(kept.deep_view() =~= before.push(line@));
            assert(lines.subrange(0, i + 1) =~= lines.subrange(0, i as int).push(lines[i as int]));
            i = i + 1;
        }
        assert(lines.subrange(0, i as int) =~= lines);
        self.log = kept;
        self.stage = Stage::Over;
        Request::Finish(out)
    }

    fn abort_run(&mut self, e: MaterializeError) -> (r: Request)
        ensures
            final(self).job() == old(self).job(),
            (final(self).stage(), final(self).log(), r@) == abort(old(self).log(), e@),
    {
        self.stage = Stage::Over;
        Request::Abort(e)
    }

    fn lengths_fit(&self)
        ensures
            self.job().dirs.len() <= usize::MAX,
            self.job().templates.len() <= usize::MAX,
            self.job().empties.len() <= usize::MAX,
    {
        let _ = self.config.directories.len();
        let _ = self.config.templates.len();
        let _ = self.config.empty_files.len();
    }

    fn enter_readme(&mut self) -> (r: Request)
        ensures
            final(self).job() == old(self).job(),
            (final(self).stage(), final(self).log(), r@) == enter_readme(old(self).job(), old(self).log()),
            final(self).wf(),
    {
        self.lengths_fit();
        let p = join_path(self.target.as_str(), "README.md");
        self.go((Stage::ReadmeCheck, Request::Exists(p)))
    }

    fn enter_empties(&mut self, i: usize) -> (r: Request)
        requires
            i <= old(self).job().empties.len(),
        ensures
            final(self).job() == old(self).job(),
            (final(self).stage(), final(self).log(), r@) == enter_empties(old(self).job(), i as int, old(self).log()),
            final(self).wf(),
    {
        self.lengths_fit();
        if i < self.config.empty_files.len() {
            let p = self.empty_at(i);
            self.go((Stage::EmptyCheck(i), Request::Exists(p)))
        } else {
            self.enter_readme()
        }
    }

    fn enter_templates(&mut self, i: usize) -> (r: Request)
        requires
            i <= old(self).job().templates.len(),
        ensures
            final(self).job() == old(self).job(),
            (final(self).stage(), final(self).log(), r@) == enter_templates(old(self).job(), i as int, old(self).log()),
            final(self).wf(),
    {
        self.lengths_fit();
        if i < self.config.templates.len() {
            let p = self.dest_at(i);
            self.go((Stage::TemplateDest(i), Request::Exists(p)))
        } else {
            self.enter_empties(0)
        }
    }

    fn enter_dirs(&mut self, i: usize) -> (r: Request)
        requires
            i <= old(self).job().dirs.len(),
        ensures
            final(self).job() == old(self).job(),
            (final(self).stage(), final(self).log(), r@) == enter_dirs(old(self).job(), i as int, old(self).log()),
            final(self).wf(),
    {
        self.lengths_fit();
        if i < self.config.directories.len() {
            let p = self.dir_at(i);
            self.push_log(Self::line("Creating subdirectory: ", debug_quoted(p.as_str()).as_str()));
            self.go((Stage::Dir(i), Request::CreateDir(p)))
        } else {
            self.enter_templates(0)
        }
    }

    /// Takes the reply to the last request and returns the next request, as
    /// `advance` says; the time, in the form `is_minute_stamp` gives, is read
    /// only where the README is written.
    pub fn next(&mut self, reply: Reply) -> (r: Request)
        requires
            old(self).wf(),
        ensures
            final(self).wf(),
            final(self).job() == old(self).job(),
            exists|stamp: Seq<char>|
                is_minute_stamp(stamp) && #[trigger] advance(old(self).job(), old(self).stage(), old(self).log(), reply@, stamp) == (
                final(self).stage(),
                final(self).log(),
                r@,
            ),
    {
        let ghost job = self.job();
        let ghost stage = self.stage();
        let ghost log = self.log();
        let ghost rv = reply@;
        let ghost mut stamp: Seq<char> = seq!['2', '0', '0', '0', '-', '0', '1', '-', '0', '1', ' ', '0', '0', ':', '0', '0'];
        assert(stamp.subrange(0, 4) =~= seq!['2', '0', '0', '0']);
        let nd = self.config.directories.len();
        let nt = self.config.templates.len();
        let ne = self.config.empty_files.len();
        assert(job.dirs.len() == nd && job.templates.len() == nt && job.empties.len() == ne);
        let r = match self.stage {
            Stage::Begin => {
                let t = self.target.clone();
                self.go((Stage::Target, Request::InspectTarget(t)))
            },
            Stage::Target => match reply {
                Reply::Present(busy) => {
                    if busy && !self.force {
                        let t = self.target.clone();
                        self.abort_run(MaterializeError::TargetNotEmpty(t))
                    } else {
                        let t = self.target.clone();
                        self.push_log(Self::line("Creating project directory: ", debug_quoted(t.as_str()).as_str()));
                        self.go((Stage::Root, Request::CreateDir(t)))
                    }
                },
                Reply::Failed(e) => self.abort_run(MaterializeError::Io(e)),
                _ => self.abort_run(MaterializeError::UnexpectedReply),
            },
            Stage::Root => match reply {
                Reply::Done => self.enter_dirs(0),
                Reply::Failed(e) => self.abort_run(MaterializeError::Io(e)),
                _ => self.abort_run(MaterializeError::UnexpectedReply),
            },
            Stage::Dir(i) => match reply {
                Reply::Done => self.enter_dirs(i + 1),
                Reply::Failed(e) => self.abort_run(MaterializeError::Io(e)),
                _ => self.abort_run(MaterializeError::UnexpectedReply),
            },
            Stage::TemplateDest(i) => match reply {
                Reply::Present(exists) => {
                    if exists && !self.refresh {
                        let d = self.dest_at(i);
                        self.push_log(Self::line("Skipping existing file: ", debug_quoted(d.as_str()).as_str()));
                        self.enter_templates(i + 1)
                    } else {
                        let src = self.source_at(i);
                        self.go((Stage::TemplateSource(i), Request::Exists(src)))
                    }
                },
                Reply::Failed(e) => self.abort_run(MaterializeError::Io(e)),
                _ => self.abort_run(MaterializeError::UnexpectedReply),
            },
            Stage::TemplateSource(i) => match reply {
                Reply::Present(exists) => {
                    if !exists {
                        let src = self.source_at(i);
                        self.push_log(Self::line("Warning: Template source not found: ", debug_quoted(src.as_str()).as_str()));
                        self.enter_templates(i + 1)
                    } else {
                        let src = self.source_at(i);
                        let d = self.dest_at(i);
                        let mut l = Self::line("Copying template: ", debug_quoted(src.as_str()).as_str());
                        l.append(" -> ");
                        l.append(debug_quoted(d.as_str()).as_str());
                        self.push_log(l);
                        self.go((Stage::TemplateCopy(i), Request::Copy { source: src, destination: d }))
                    }
                },
                Reply::Failed(e) => self.abort_run(MaterializeError::Io(e)),
                _ => self.abort_run(MaterializeError::UnexpectedReply),
            },
            Stage::TemplateCopy(i) => match reply {
                Reply::Done => self.enter_templates(i + 1),
                Reply::Failed(e) => self.abort_run(MaterializeError::Io(e)),
                _ => self.abort_run(MaterializeError::UnexpectedReply),
            },
            Stage::EmptyCheck(i) => match reply {
                Reply::Present(exists) => {
                    let p = self.empty_at(i);
                    if exists && !self.refresh {
                        self.push_log(Self::line("Skipping existing empty file: ", debug_quoted(p.as_str()).as_str()));
                        self.enter_empties(i + 1)
                    } else {
                        self.push_log(Self::line("Creating empty file: ", debug_quoted(p.as_str()).as_str()));
                        self.go((Stage::EmptyMake(i), Request::CreateEmpty(p)))
                    }
                },
                Reply::Failed(e) => self.abort_run(MaterializeError::Io(e)),
                _ => self.abort_run(MaterializeError::UnexpectedReply),
            },
            Stage::EmptyMake(i) => match reply {
                Reply::Done => self.enter_empties(i + 1),
                Reply::Failed(e) => self.abort_run(MaterializeError::Io(e)),
                _ => self.abort_run(MaterializeError::UnexpectedReply),
            },
            Stage::ReadmeCheck => match reply {
                Reply::Present(exists) => {
                    if self.refresh || !exists {
                        let p = join_path(self.target.as_str(), "README.md");
                        self.push_log(Self::line("Generating README: ", debug_quoted(p.as_str()).as_str()));
                        let now = local_minute_stamp();
                        proof {
                            stamp = now@;
                        }
                        let content = render_readme(
                            self.config.readme_template.as_str(),
                            self.project_name.as_str(),
                            now.as_str(),
                            &self.fields,
                        );
                        self.go((Stage::ReadmeWrite, Request::WriteFile { path: p, content }))
                    } else {
                        self.finish_run()
                    }
                },
                Reply::Failed(e) => self.abort_run(MaterializeError::Io(e)),
                _ => self.abort_run(MaterializeError::UnexpectedReply),
            },
            Stage::ReadmeWrite => match reply {
                Reply::Done => self.finish_run(),
                Reply::Failed(e) => self.abort_run(MaterializeError::Io(e)),
                _ => self.abort_run(MaterializeError::UnexpectedReply),
            },
            Stage::Over => self.abort_run(MaterializeError::UnexpectedReply),
        };
        assert(is_minute_stamp(stamp));
        assert(advance(job, stage, log, rv, stamp) == (self.stage(), self.log(), r@));
        r
    }
}

/// Starts materializing `preset_config` into `project_path`. Template sources
/// are read from the preset's own directory, `presets_dir/<id>`; `fields` are
/// the `(field id, value)` pairs for the README, in order; `force` allows a
/// non-empty project directory and `refresh` overwrites files that exist.
pub fn create_project(
    project_path: &str,
    presets_dir: &str,
    preset_config: PresetConfig,
    project_name: &str,
    fields: Vec<(String, String)>,
    force: bool,
    refresh: bool,
) -> (m: Materializer)
    ensures
        m.wf(),
        m.stage() == Stage::Begin,
        m.log() == Seq::<Seq<char>>::empty(),
        m.job() == (Job {
            target: project_path@,
            source_root: join_spec(presets_dir@, preset_config.id@),
            project: project_name@,
            dirs: preset_config.directories.deep_view(),
            templates: templates_view(preset_config.templates@),
            empties: preset_config.empty_files.deep_view(),
            readme_template: preset_config.readme_template@,
            fields: pairs_view(fields@),
            force,
            refresh,
        }),
{
    let source_root = join_path(presets_dir, preset_config.id.as_str());
    let _ = preset_config.directories.len();
    let _ = preset_config.templates.len();
    let _ = preset_config.empty_files.len();
    let m = Materializer {
        target: String::from_str(project_path),
        source_root,
        project_name: String::from_str(project_name),
        config: preset_config,
        fields,
        force,
        refresh,
        stage: Stage::Begin,
        log: Vec::new(),
    };
    assert(m.log.deep_view() =~= Seq::<Seq<char>>::empty());
    m
}

/// Into a project directory that already holds entries, without `force`, a run
/// asks one question (whether the directory holds entries) and then stops with
/// `TargetNotEmpty`: it requests no write of any kind.
pub proof fn lemma_busy_target_refused(
    job: Job,
    first: ReplyView,
    stamp: Seq<char>,
    later_stamp: Seq<char>,
)
    requires
        !job.force,
    ensures
        advance(job, Stage::Begin, Seq::empty(), first, stamp) == (
            Stage::Target,
            Seq::<Seq<char>>::empty(),
            RequestView::InspectTarget(job.target),
        ),
        advance(job, Stage::Target, Seq::empty(), ReplyView::Present(true), later_stamp) == (
            Stage::Over,
            Seq::<Seq<char>>::empty(),
            RequestView::Abort(ErrorView::TargetNotEmpty(job.target)),
        ),
{
}

} // verus!
