//! A model of the file system that a materializer run talks to, and what whole
//! runs do to it.
//!
//! The model knows which paths exist, what each file holds, whether the project
//! directory holds entries, and the time. It answers each request the way a
//! driver that never fails would. Parent directories that a driver creates on
//! the way are not tracked: the model speaks of the paths that requests name.

use vstd::prelude::*;
use crate::materialize::{
    advance, dest_path, dir_path, empty_path, enter_dirs, enter_empties, enter_templates,
    readme_path, readme_text, source_path, stage_fits, success_line, debug_text, ErrorView, Job, Move, ReplyView, RequestView, Stage,
};

verus! {

/// What a file holds: bytes copied or created, or text written.
pub enum Body {
    Bytes(Seq<u8>),
    Text(Seq<char>),
}

pub struct World {
    /// Whether the project directory holds any entry.
    pub busy: bool,
    pub present: Set<Seq<char>>,
    pub files: Map<Seq<char>, Body>,
    /// The local time, as the README shows it.
    pub clock: Seq<char>,
}

/// The reply of a driver that performs `q` on `w` without failing, and the
/// world after it.
pub open spec fn respond(target: Seq<char>, w: World, q: RequestView) -> (ReplyView, World) {
    match q {
        RequestView::InspectTarget(_) => (ReplyView::Present(w.busy), w),
        RequestView::Exists(p) => (ReplyView::Present(w.present.contains(p)), w),
        RequestView::CreateDir(p) => (
            ReplyView::Done,
            World { busy: w.busy || p != target, present: w.present.insert(p), ..w },
        ),
        RequestView::Copy(s, d) => (
            ReplyView::Done,
            World { busy: true, present: w.present.insert(d), files: w.files.insert(d, w.files[s]), ..w },
        ),
        RequestView::CreateEmpty(p) => (
            ReplyView::Done,
            World {
                busy: true,
                present: w.present.insert(p),
                files: w.files.insert(p, Body::Bytes(Seq::empty())),
                ..w
            },
        ),
        RequestView::WriteFile(p, c) => (
            ReplyView::Done,
            World { busy: true, present: w.present.insert(p), files: w.files.insert(p, Body::Text(c)), ..w },
        ),
        _ => (ReplyView::Done, w),
    }
}

pub open spec fn is_last(q: RequestView) -> bool {
    q is Finish || q is Abort
}

/// How many steps a run may still take at most, from a stage.
pub open spec fn measure(job: Job, stage: Stage) -> nat {
    let e = job.empties.len() as int;
    let t = job.templates.len() as int;
    let n = job.dirs.len() as int;
    let v: int = match stage {
        Stage::Over => 0,
        Stage::ReadmeWrite => 1,
        Stage::ReadmeCheck => 2,
        Stage::EmptyMake(i) => 1 + 2 * (e - i),
        Stage::EmptyCheck(i) => 2 + 2 * (e - i),
        Stage::TemplateCopy(i) => 2 * e + 3 * (t - i),
        Stage::TemplateSource(i) => 1 + 2 * e + 3 * (t - i),
        Stage::TemplateDest(i) => 2 + 2 * e + 3 * (t - i),
        Stage::Dir(i) => 2 + 2 * e + 3 * t + (n - i),
        Stage::Root => 3 + 2 * e + 3 * t + n,
        Stage::Target => 4 + 2 * e + 3 * t + n,
        Stage::Begin => 5 + 2 * e + 3 * t + n,
    };
    if v < 0 {
        0
    } else {
        v as nat
    }
}

/// Each step that does not end a run keeps the stage's indices in range and
/// brings the run closer to its end.
pub proof fn lemma_step_decreases(job: Job, stage: Stage, log: Seq<Seq<char>>, reply: ReplyView, stamp: Seq<char>)
    requires
        stage_fits(job, stage),
    ensures
        stage_fits(job, advance(job, stage, log, reply, stamp).0),
        advance(job, stage, log, reply, stamp).0 is Over ==> is_last(advance(job, stage, log, reply, stamp).2),
        !(stage is Over) ==> measure(job, advance(job, stage, log, reply, stamp).0) < measure(job, stage),
{
    match stage {
        Stage::Dir(i) => {},
        Stage::TemplateDest(i) => {},
        Stage::TemplateSource(i) => {},
        Stage::TemplateCopy(i) => {},
        Stage::EmptyCheck(i) => {},
        Stage::EmptyMake(i) => {},
        _ => {},
    }
}

/// A whole run from move `m` on world `w`: the request that ends it, and the
/// world then.
pub open spec fn run(job: Job, m: Move, w: World) -> (RequestView, World)
    decreases measure(job, m.0),
    when stage_fits(job, m.0) && (m.0 is Over ==> is_last(m.2))
{
    if is_last(m.2) {
        (m.2, w)
    } else {
        let (reply, w2) = respond(job.target, w, m.2);
        proof {
            lemma_step_decreases(job, m.0, m.1, reply, w.clock);
        }
        run(job, advance(job, m.0, m.1, reply, w.clock), w2)
    }
}

/// The first move of a run.
pub open spec fn start(job: Job) -> Move {
    advance(job, Stage::Begin, Seq::empty(), ReplyView::Start, Seq::empty())
}

/// The lengths of the job's lists fit a `usize`.
pub open spec fn lengths_fit(job: Job) -> bool {
    stage_fits(job, Stage::Begin)
}

/// The empty files declared from index `i` on.
pub open spec fn later_empties(job: Job, i: int) -> Set<Seq<char>> {
    Set::new(|p: Seq<char>| exists|k: int| i <= k < job.empties.len() && p == empty_path(job, k))
}

/// The declared directories from index `i` on.
pub open spec fn later_dirs(job: Job, i: int) -> Set<Seq<char>> {
    Set::new(|p: Seq<char>| exists|k: int| i <= k < job.dirs.len() && p == dir_path(job, k))
}

/// The destinations of the templates from index `i` on whose source is in `present`.
pub open spec fn copied_dests(job: Job, i: int, present: Set<Seq<char>>) -> Set<Seq<char>> {
    Set::new(
        |p: Seq<char>|
            exists|k: int|
                i <= k < job.templates.len() && present.contains(source_path(job, k)) && p == dest_path(job, k),
    )
}

/// Some template from index `i` on has `x` as its destination.
pub open spec fn template_writes(job: Job, i: int, x: Seq<char>) -> bool {
    exists|k: int| i <= k < job.templates.len() && x == dest_path(job, k)
}

/// Every path that a file write may touch from template `i` on: later template
/// destinations, the empty files and the README.
pub open spec fn written_from(job: Job, i: int, x: Seq<char>) -> bool {
    ||| template_writes(job, i, x)
    ||| later_empties(job, 0).contains(x)
    ||| x == readme_path(job)
}

/// The destination of template `k` is none of the destinations from `i` up to `k`.
pub open spec fn first_of_its_path(job: Job, i: int, k: int) -> bool {
    forall|j: int| i <= j < k ==> #[trigger] dest_path(job, j) != dest_path(job, k)
}

proof fn lemma_copied_step(job: Job, i: int, present: Set<Seq<char>>)
    requires
        0 <= i < job.templates.len(),
    ensures
        copied_dests(job, i, present) == if present.contains(source_path(job, i)) {
            copied_dests(job, i + 1, present).insert(dest_path(job, i))
        } else {
            copied_dests(job, i + 1, present)
        },
{
    let c = if present.contains(source_path(job, i)) {
        copied_dests(job, i + 1, present).insert(dest_path(job, i))
    } else {
        copied_dests(job, i + 1, present)
    };
    assert forall|x: Seq<char>| #[trigger] copied_dests(job, i, present).contains(x) implies c.contains(x) by {
        let k = choose|k: int|
            i <= k < job.templates.len() && present.contains(source_path(job, k)) && x == dest_path(job, k);
        if k != i {
            assert(copied_dests(job, i + 1, present).contains(x));
        }
    }
    assert forall|x: Seq<char>| c.contains(x) implies #[trigger] copied_dests(job, i, present).contains(x) by {
        if copied_dests(job, i + 1, present).contains(x) {
            let k = choose|k: int|
                i + 1 <= k < job.templates.len() && present.contains(source_path(job, k)) && x == dest_path(job, k);
            assert(i <= k);
        }
    }
    assert(copied_dests(job, i, present) =~= c);
}

proof fn lemma_empties_phase(job: Job, i: int, log: Seq<Seq<char>>, u: World)
    requires
        lengths_fit(job),
        0 <= i <= job.empties.len(),
    ensures
        ({
            let (q, u2) = run(job, enter_empties(job, i, log), u);
            &&& q is Finish
            &&& u2.present == u.present.union(later_empties(job, i)).insert(readme_path(job))
            &&& u2.clock == u.clock
            &&& (u.busy ==> u2.busy)
            &&& forall|x: Seq<char>|
                !later_empties(job, i).contains(x) && x != readme_path(job) ==> u2.files[x] == u.files[x]
            &&& forall|x: Seq<char>|
                later_empties(job, i).contains(x) && x != readme_path(job) && (job.refresh || !u.present.contains(x)
                    || u.files[x] == Body::Bytes(Seq::empty())) ==> u2.files[x] == Body::Bytes(Seq::empty())
            &&& !u.present.contains(readme_path(job)) && !later_empties(job, i).contains(readme_path(job))
                ==> u2.files[readme_path(job)] == Body::Text(readme_text(job, u.clock))
        }),
    decreases job.empties.len() - i,
{
    let m = enter_empties(job, i, log);
    if i < job.empties.len() {
        let p = empty_path(job, i);
        let b = u.present.contains(p);
        let m2 = advance(job, m.0, m.1, ReplyView::Present(b), u.clock);
        assert(run(job, m, u) == run(job, m2, u));
        assert(later_empties(job, i).contains(p));
        assert forall|x: Seq<char>| #[trigger] later_empties(job, i + 1).contains(x) implies later_empties(
            job,
            i,
        ).contains(x) by {
            let k = choose|k: int| i + 1 <= k < job.empties.len() && x == empty_path(job, k);
            assert(i <= k < job.empties.len() && x == empty_path(job, k));
        }
        assert forall|x: Seq<char>| #[trigger] later_empties(job, i).contains(x) && x != p implies later_empties(
            job,
            i + 1,
        ).contains(x) by {
            let k = choose|k: int| i <= k < job.empties.len() && x == empty_path(job, k);
            assert(k != i);
        }
        if b && !job.refresh {
            lemma_empties_phase(job, i + 1, m2.1, u);
            assert(u.present.union(later_empties(job, i + 1)) =~= u.present.union(later_empties(job, i)));
        } else {
            let u1 = respond(job.target, u, m2.2).1;
            let m3 = advance(job, m2.0, m2.1, ReplyView::Done, u.clock);
            assert(run(job, m2, u) == run(job, m3, u1));
            lemma_empties_phase(job, i + 1, m2.1, u1);
            assert(u1.present.union(later_empties(job, i + 1)) =~= u.present.union(later_empties(job, i)));
        }
    } else {
        let rp = readme_path(job);
        let b = u.present.contains(rp);
        let m2 = advance(job, m.0, m.1, ReplyView::Present(b), u.clock);
        assert(run(job, m, u) == run(job, m2, u));
        assert(later_empties(job, i) =~= Set::<Seq<char>>::empty());
        if job.refresh || !b {
            let u1 = respond(job.target, u, m2.2).1;
            let m3 = advance(job, m2.0, m2.1, ReplyView::Done, u.clock);
            assert(run(job, m2, u) == run(job, m3, u1));
            assert(u1.present =~= u.present.union(later_empties(job, i)).insert(rp));
        } else {
            assert(u.present =~= u.present.union(later_empties(job, i)).insert(rp));
        }
    }
}

/// Template `k`'s source is none of the paths the run creates before it checks
/// that source: the project directory, a declared directory, or the destination
/// of an earlier template.
pub open spec fn source_unshadowed(job: Job, k: int) -> bool {
    &&& source_path(job, k) != job.target
    &&& !later_dirs(job, 0).contains(source_path(job, k))
    &&& forall|j: int| 0 <= j < k ==> source_path(job, k) != #[trigger] dest_path(job, j)
}

/// Whether a template's source exists is the same when the run checks it as
/// before the run.
pub open spec fn sources_unshadowed(job: Job) -> bool {
    forall|k: int| 0 <= k < job.templates.len() ==> #[trigger] source_unshadowed(job, k)
}

/// A template source is none of the paths a run creates.
pub open spec fn source_is_apart(job: Job, s: Seq<char>) -> bool {
    &&& s != job.target
    &&& !later_dirs(job, 0).contains(s)
    &&& forall|j: int| 0 <= j < job.templates.len() ==> s != #[trigger] dest_path(job, j)
    &&& !later_empties(job, 0).contains(s)
    &&& s != readme_path(job)
}

/// No template source lies among the paths the run creates (the presets do not
/// live inside the project).
pub open spec fn sources_apart(job: Job) -> bool {
    forall|k: int| 0 <= k < job.templates.len() ==> source_is_apart(job, #[trigger] source_path(job, k))
}

proof fn lemma_apart_unshadowed(job: Job)
    requires
        sources_apart(job),
    ensures
        sources_unshadowed(job),
{
    assert forall|k: int| 0 <= k < job.templates.len() implies #[trigger] source_unshadowed(job, k) by {
        assert(source_is_apart(job, source_path(job, k)));
    }
}

/// The README path is none of the other paths the run creates.
pub open spec fn readme_apart(job: Job) -> bool {
    &&& readme_path(job) != job.target
    &&& !later_dirs(job, 0).contains(readme_path(job))
    &&& forall|j: int| 0 <= j < job.templates.len() ==> readme_path(job) != #[trigger] dest_path(job, j)
    &&& !later_empties(job, 0).contains(readme_path(job))
}

proof fn lemma_templates_phase(job: Job, i: int, log: Seq<Seq<char>>, u: World)
    requires
        lengths_fit(job),
        sources_unshadowed(job),
        0 <= i <= job.templates.len(),
    ensures
        ({
            let (q, u2) = run(job, enter_templates(job, i, log), u);
            &&& q is Finish
            &&& u2.present == u.present.union(copied_dests(job, i, u.present)).union(later_empties(job, 0)).insert(
                readme_path(job),
            )
            &&& u2.clock == u.clock
            &&& (u.busy ==> u2.busy)
            &&& forall|x: Seq<char>| !written_from(job, i, x) ==> u2.files[x] == u.files[x]
            &&& forall|k: int|
                i <= k < job.templates.len() && u.present.contains(source_path(job, k)) && (job.refresh || (
                !u.present.contains(#[trigger] dest_path(job, k)) && first_of_its_path(job, i, k))) && !written_from(
                    job,
                    k + 1,
                    dest_path(job, k),
                ) ==> u2.files[dest_path(job, k)] == u.files[source_path(job, k)]
            &&& forall|x: Seq<char>|
                later_empties(job, 0).contains(x) && x != readme_path(job) && (job.refresh || (!u.present.contains(x)
                    && !template_writes(job, i, x))) ==> u2.files[x] == Body::Bytes(Seq::empty())
            &&& readme_apart(job) && !u.present.contains(readme_path(job)) ==> u2.files[readme_path(job)]
                == Body::Text(readme_text(job, u.clock))
        }),
    decreases job.templates.len() - i,
{
    let m = enter_templates(job, i, log);
    let rp = readme_path(job);
    if i < job.templates.len() {
        let d = dest_path(job, i);
        let src = source_path(job, i);
        let b = u.present.contains(d);
        let m2 = advance(job, m.0, m.1, ReplyView::Present(b), u.clock);
        assert(run(job, m, u) == run(job, m2, u));
        lemma_copied_step(job, i, u.present);
        assert forall|x: Seq<char>| !written_from(job, i, x) implies !written_from(job, i + 1, x) by {
            if template_writes(job, i + 1, x) {
                let k = choose|k: int| i + 1 <= k < job.templates.len() && x == dest_path(job, k);
                assert(i <= k < job.templates.len() && x == dest_path(job, k));
            }
        }
        assert forall|x: Seq<char>| !template_writes(job, i, x) implies !template_writes(job, i + 1, x) && x != d by {
            if template_writes(job, i + 1, x) {
                let k = choose|k: int| i + 1 <= k < job.templates.len() && x == dest_path(job, k);
                assert(i <= k < job.templates.len() && x == dest_path(job, k));
            }
        }
        assert forall|k: int| i + 1 <= k < job.templates.len() && #[trigger] first_of_its_path(job, i, k) implies first_of_its_path(
            job,
            i + 1,
            k,
        ) && dest_path(job, k) != d by {
            assert(dest_path(job, i) != dest_path(job, k));
        }
        assert(written_from(job, i, d));
        if b && !job.refresh {
            lemma_templates_phase(job, i + 1, m2.1, u);
            assert(u.present.union(copied_dests(job, i + 1, u.present)) =~= u.present.union(
                copied_dests(job, i, u.present),
            ));
        } else {
            let c = u.present.contains(src);
            let m3 = advance(job, m2.0, m2.1, ReplyView::Present(c), u.clock);
            assert(run(job, m2, u) == run(job, m3, u));
            if !c {
                lemma_templates_phase(job, i + 1, m3.1, u);
            } else {
                let u1 = respond(job.target, u, m3.2).1;
                let m4 = advance(job, m3.0, m3.1, ReplyView::Done, u.clock);
                assert(run(job, m3, u) == run(job, m4, u1));
                assert(u1.present == u.present.insert(d));
                assert(u1.files == u.files.insert(d, u.files[src]));
                lemma_templates_phase(job, i + 1, m3.1, u1);
                assert forall|k: int| i + 1 <= k < job.templates.len() implies (u1.present.contains(
                    #[trigger] source_path(job, k),
                ) == u.present.contains(source_path(job, k)) && u1.files[source_path(job, k)]
                    == u.files[source_path(job, k)]) by {
                    assert(source_unshadowed(job, k));
                    assert(source_path(job, k) != dest_path(job, i));
                }
                assert(copied_dests(job, i + 1, u1.present) =~= copied_dests(job, i + 1, u.present)) by {
                    assert forall|x: Seq<char>| #[trigger] copied_dests(job, i + 1, u1.present).contains(x) implies copied_dests(
                        job,
                        i + 1,
                        u.present,
                    ).contains(x) by {
                        let k = choose|k: int|
                            i + 1 <= k < job.templates.len() && u1.present.contains(source_path(job, k)) && x
                                == dest_path(job, k);
                        assert(u.present.contains(source_path(job, k)));
                    }
                    assert forall|x: Seq<char>| #[trigger] copied_dests(job, i + 1, u.present).contains(x) implies copied_dests(
                        job,
                        i + 1,
                        u1.present,
                    ).contains(x) by {
                        let k = choose|k: int|
                            i + 1 <= k < job.templates.len() && u.present.contains(source_path(job, k)) && x
                                == dest_path(job, k);
                        assert(u1.present.contains(source_path(job, k)));
                    }
                }
                assert(u1.present.union(copied_dests(job, i + 1, u.present)) =~= u.present.union(
                    copied_dests(job, i, u.present),
                ));
                if readme_apart(job) {
                    assert(rp != dest_path(job, i));
                }
            }
        }
    } else {
        lemma_empties_phase(job, 0, log, u);
        assert(copied_dests(job, i, u.present) =~= Set::<Seq<char>>::empty());
        assert(u.present.union(copied_dests(job, i, u.present)) =~= u.present);
    }
}

proof fn lemma_dirs_phase(job: Job, i: int, log: Seq<Seq<char>>, u: World)
    requires
        lengths_fit(job),
        sources_unshadowed(job),
        0 <= i <= job.dirs.len(),
    ensures
        ({
            let (q, u2) = run(job, enter_dirs(job, i, log), u);
            &&& q is Finish
            &&& u2.present == u.present.union(later_dirs(job, i)).union(copied_dests(job, 0, u.present)).union(
                later_empties(job, 0),
            ).insert(readme_path(job))
            &&& u2.clock == u.clock
            &&& (u.busy ==> u2.busy)
            &&& forall|k: int| i <= k < job.dirs.len() && #[trigger] dir_path(job, k) != job.target ==> u2.busy
            &&& forall|x: Seq<char>| !written_from(job, 0, x) ==> u2.files[x] == u.files[x]
            &&& forall|k: int|
                0 <= k < job.templates.len() && u.present.contains(source_path(job, k)) && (job.refresh || (
                !u.present.contains(#[trigger] dest_path(job, k)) && !later_dirs(job, i).contains(dest_path(job, k))
                    && first_of_its_path(job, 0, k))) && !written_from(job, k + 1, dest_path(job, k))
                    ==> u2.files[dest_path(job, k)] == u.files[source_path(job, k)]
            &&& forall|x: Seq<char>|
                later_empties(job, 0).contains(x) && x != readme_path(job) && (job.refresh || (!u.present.contains(x)
                    && !later_dirs(job, i).contains(x) && !template_writes(job, 0, x))) ==> u2.files[x]
                    == Body::Bytes(Seq::empty())
            &&& readme_apart(job) && !u.present.contains(readme_path(job)) ==> u2.files[readme_path(job)]
                == Body::Text(readme_text(job, u.clock))
        }),
    decreases job.dirs.len() - i,
{
    let m = enter_dirs(job, i, log);
    if i < job.dirs.len() {
        let d = dir_path(job, i);
        let u1 = respond(job.target, u, m.2).1;
        let m2 = advance(job, m.0, m.1, ReplyView::Done, u.clock);
        assert(run(job, m, u) == run(job, m2, u1));
        lemma_dirs_phase(job, i + 1, m.1, u1);
        assert(later_dirs(job, i).contains(d));
        assert forall|k: int| 0 <= k < job.templates.len() implies u1.present.contains(
            #[trigger] source_path(job, k),
        ) == u.present.contains(source_path(job, k)) by {
            assert(source_unshadowed(job, k));
        }
        assert(copied_dests(job, 0, u1.present) =~= copied_dests(job, 0, u.present));
        assert forall|x: Seq<char>| #[trigger] later_dirs(job, i + 1).contains(x) implies later_dirs(
            job,
            i,
        ).contains(x) by {
            let k = choose|k: int| i + 1 <= k < job.dirs.len() && x == dir_path(job, k);
            assert(i <= k);
        }
        assert(u1.present.union(later_dirs(job, i + 1)) =~= u.present.union(later_dirs(job, i))) by {
            assert forall|x: Seq<char>| #[trigger] later_dirs(job, i).contains(x) && x != d implies later_dirs(
                job,
                i + 1,
            ).contains(x) by {
                let k = choose|k: int| i <= k < job.dirs.len() && x == dir_path(job, k);
                assert(k != i);
            }
        }
        if readme_apart(job) {
            assert(readme_path(job) != d);
        }
    } else {
        lemma_templates_phase(job, 0, log, u);
        assert(later_dirs(job, i) =~= Set::<Seq<char>>::empty());
        assert(u.present.union(later_dirs(job, i)) =~= u.present);
    }
}

/// Everything a run creates in a world whose existing paths are `present`: the
/// project directory, the declared directories, the destinations of the
/// templates whose source exists, the declared empty files and the README.
pub open spec fn created(job: Job, present: Set<Seq<char>>) -> Set<Seq<char>> {
    set![job.target].union(later_dirs(job, 0)).union(copied_dests(job, 0, present)).union(
        later_empties(job, 0),
    ).insert(readme_path(job))
}

/// The declared file paths (template destinations, empty files, the README) are
/// pairwise different, and none is the project directory or a declared directory.
pub open spec fn file_paths_apart(job: Job) -> bool {
    &&& readme_apart(job)
    &&& forall|k: int|
        0 <= k < job.templates.len() ==> {
            &&& #[trigger] dest_path(job, k) != job.target
            &&& !later_dirs(job, 0).contains(dest_path(job, k))
            &&& !later_empties(job, 0).contains(dest_path(job, k))
            &&& forall|j: int| 0 <= j < job.templates.len() && j != k ==> dest_path(job, j) != dest_path(job, k)
        }
    &&& forall|x: Seq<char>|
        #[trigger] later_empties(job, 0).contains(x) ==> x != job.target && !later_dirs(job, 0).contains(x)
}

/// None of the declared file paths exists yet.
pub open spec fn file_paths_absent(job: Job, w: World) -> bool {
    &&& !w.present.contains(readme_path(job))
    &&& forall|k: int| 0 <= k < job.templates.len() ==> !w.present.contains(#[trigger] dest_path(job, k))
    &&& forall|x: Seq<char>| #[trigger] later_empties(job, 0).contains(x) ==> !w.present.contains(x)
}

proof fn lemma_begin(job: Job, w: World)
    requires
        lengths_fit(job),
        job.force || !w.busy,
    ensures
        ({
            let u1 = World { busy: w.busy, present: w.present.insert(job.target), ..w };
            run(job, start(job), w) == run(job, enter_dirs(job, 0, seq!["Creating project directory: "@ + crate::materialize::debug_text(job.target)]), u1)
        }),
{
    let m = start(job);
    let m2 = advance(job, m.0, m.1, ReplyView::Present(w.busy), w.clock);
    assert(run(job, m, w) == run(job, m2, w));
    let u1 = respond(job.target, w, m2.2).1;
    let m3 = advance(job, m2.0, m2.1, ReplyView::Done, w.clock);
    assert(run(job, m2, w) == run(job, m3, u1));
    assert(Seq::<Seq<char>>::empty().push("Creating project directory: "@ + crate::materialize::debug_text(job.target))
        =~= seq!["Creating project directory: "@ + crate::materialize::debug_text(job.target)]);
}

/// Into a project directory that holds no entries, a run that meets no failure
/// ends with success and creates exactly the project directory, the declared
/// directories, the destinations of the templates whose source exists, the
/// declared empty files and the README. Where the declared file paths are
/// distinct and did not exist: each template whose source exists gets the
/// source's exact content, each whose source is missing gets no file, every
/// empty file holds no bytes, and the README holds the rendered text.
pub proof fn lemma_fresh_target_gets_declared_tree(job: Job, w: World)
    requires
        lengths_fit(job),
        sources_unshadowed(job),
        !w.busy,
    ensures
        run(job, start(job), w).0 is Finish,
        run(job, start(job), w).1.present == w.present.union(created(job, w.present)),
        file_paths_apart(job) && file_paths_absent(job, w) ==> {
            let w2 = run(job, start(job), w).1;
            &&& forall|k: int|
                0 <= k < job.templates.len() && w.present.contains(source_path(job, k)) ==> w2.files[#[trigger] dest_path(
                    job,
                    k,
                )] == w.files[source_path(job, k)]
            &&& forall|k: int|
                0 <= k < job.templates.len() && !w.present.contains(source_path(job, k)) ==> !w2.present.contains(
                    #[trigger] dest_path(job, k),
                )
            &&& forall|x: Seq<char>| #[trigger] later_empties(job, 0).contains(x) ==> w2.files[x] == Body::Bytes(Seq::empty())
            &&& w2.files[readme_path(job)] == Body::Text(readme_text(job, w.clock))
        },
{
    lemma_begin(job, w);
    let u1 = World { busy: w.busy, present: w.present.insert(job.target), ..w };
    lemma_dirs_phase(job, 0, seq!["Creating project directory: "@ + crate::materialize::debug_text(job.target)], u1);
    assert forall|k: int| 0 <= k < job.templates.len() implies u1.present.contains(
        #[trigger] source_path(job, k),
    ) == w.present.contains(source_path(job, k)) by {
        assert(source_unshadowed(job, k));
    }
    assert(copied_dests(job, 0, u1.present) =~= copied_dests(job, 0, w.present));
    let w2 = run(job, start(job), w).1;
    assert(w2.present =~= w.present.union(created(job, w.present)));
    if file_paths_apart(job) && file_paths_absent(job, w) {
        assert forall|k: int|
            0 <= k < job.templates.len() && w.present.contains(source_path(job, k)) implies w2.files[#[trigger] dest_path(
            job,
            k,
        )] == w.files[source_path(job, k)] by {
            assert(!written_from(job, k + 1, dest_path(job, k))) by {
                if template_writes(job, k + 1, dest_path(job, k)) {
                    let j = choose|j: int| k + 1 <= j < job.templates.len() && dest_path(job, k) == dest_path(job, j);
                }
            }
            assert(first_of_its_path(job, 0, k));
        }
        assert forall|k: int|
            0 <= k < job.templates.len() && !w.present.contains(source_path(job, k)) implies !w2.present.contains(
            #[trigger] dest_path(job, k),
        ) by {
            let d = dest_path(job, k);
            if copied_dests(job, 0, w.present).contains(d) {
                let j = choose|j: int|
                    0 <= j < job.templates.len() && w.present.contains(source_path(job, j)) && d == dest_path(job, j);
                assert(j != k);
            }
        }
        assert forall|x: Seq<char>| #[trigger] later_empties(job, 0).contains(x) implies w2.files[x] == Body::Bytes(
            Seq::empty(),
        ) by {
            if template_writes(job, 0, x) {
                let j = choose|j: int| 0 <= j < job.templates.len() && x == dest_path(job, j);
            }
        }
    }
}

/// With `refresh`, a run that may proceed (`force`, or a project directory
/// without entries) and meets no failure leaves each template destination with
/// the exact bytes of its source, where the source exists and no later
/// declaration writes the same path, whatever the destination held before.
pub proof fn lemma_refresh_restores_templates(job: Job, w: World, k: int)
    requires
        lengths_fit(job),
        sources_unshadowed(job),
        job.refresh,
        job.force || !w.busy,
        0 <= k < job.templates.len(),
        w.present.contains(source_path(job, k)),
        !written_from(job, k + 1, dest_path(job, k)),
    ensures
        run(job, start(job), w).0 is Finish,
        run(job, start(job), w).1.files[dest_path(job, k)] == w.files[source_path(job, k)],
{
    lemma_begin(job, w);
    let u1 = World { busy: w.busy, present: w.present.insert(job.target), ..w };
    lemma_dirs_phase(job, 0, seq!["Creating project directory: "@ + crate::materialize::debug_text(job.target)], u1);
    assert(source_unshadowed(job, k));
    assert(u1.present.contains(source_path(job, k)));
}

/// The log lines of empty files from index `i` on that all exist.
pub open spec fn idle_empty_lines(job: Job, i: int) -> Seq<Seq<char>>
    decreases job.empties.len() - i,
{
    if 0 <= i < job.empties.len() {
        seq!["Skipping existing empty file: "@ + debug_text(empty_path(job, i))] + idle_empty_lines(job, i + 1)
    } else {
        Seq::empty()
    }
}

/// The log lines of templates from index `i` on that copy nothing: a skip where
/// the destination exists, else a warning for the missing source.
pub open spec fn idle_template_lines(job: Job, i: int, present: Set<Seq<char>>) -> Seq<Seq<char>>
    decreases job.templates.len() - i,
{
    if 0 <= i < job.templates.len() {
        (if present.contains(dest_path(job, i)) {
            seq!["Skipping existing file: "@ + debug_text(dest_path(job, i))]
        } else {
            seq!["Warning: Template source not found: "@ + debug_text(source_path(job, i))]
        }) + idle_template_lines(job, i + 1, present)
    } else {
        Seq::empty()
    }
}

/// The log lines of the declared directories from index `i` on.
pub open spec fn dir_lines(job: Job, i: int) -> Seq<Seq<char>>
    decreases job.dirs.len() - i,
{
    if 0 <= i < job.dirs.len() {
        seq!["Creating subdirectory: "@ + debug_text(dir_path(job, i))] + dir_lines(job, i + 1)
    } else {
        Seq::empty()
    }
}

/// The whole log of a run that finds every declared file path in place.
pub open spec fn idle_run_log(job: Job, present: Set<Seq<char>>) -> Seq<Seq<char>> {
    seq!["Creating project directory: "@ + debug_text(job.target)] + dir_lines(job, 0) + idle_template_lines(
        job,
        0,
        present,
    ) + idle_empty_lines(job, 0) + seq![success_line()]
}

proof fn lemma_empties_idle(job: Job, i: int, log: Seq<Seq<char>>, u: World)
    requires
        lengths_fit(job),
        !job.refresh,
        0 <= i <= job.empties.len(),
        forall|k: int| i <= k < job.empties.len() ==> u.present.contains(#[trigger] empty_path(job, k)),
        u.present.contains(readme_path(job)),
    ensures
        run(job, enter_empties(job, i, log), u).0 == RequestView::Finish(
            log + idle_empty_lines(job, i) + seq![success_line()],
        ),
        run(job, enter_empties(job, i, log), u).1 == u,
    decreases job.empties.len() - i,
{
    let m = enter_empties(job, i, log);
    let b = if i < job.empties.len() {
        u.present.contains(empty_path(job, i))
    } else {
        u.present.contains(readme_path(job))
    };
    let m2 = advance(job, m.0, m.1, ReplyView::Present(b), u.clock);
    assert(run(job, m, u) == run(job, m2, u));
    if i < job.empties.len() {
        lemma_empties_idle(job, i + 1, m2.1, u);
        assert(m2.1 + idle_empty_lines(job, i + 1) + seq![success_line()] =~= log + idle_empty_lines(job, i)
            + seq![success_line()]);
    } else {
        assert(log.push(success_line()) =~= log + idle_empty_lines(job, i) + seq![success_line()]);
    }
}

proof fn lemma_templates_idle(job: Job, i: int, log: Seq<Seq<char>>, u: World)
    requires
        lengths_fit(job),
        !job.refresh,
        0 <= i <= job.templates.len(),
        forall|k: int|
            i <= k < job.templates.len() ==> u.present.contains(#[trigger] dest_path(job, k)) || !u.present.contains(
                source_path(job, k),
            ),
        forall|k: int| 0 <= k < job.empties.len() ==> u.present.contains(#[trigger] empty_path(job, k)),
        u.present.contains(readme_path(job)),
    ensures
        run(job, enter_templates(job, i, log), u).0 == RequestView::Finish(
            log + idle_template_lines(job, i, u.present) + idle_empty_lines(job, 0) + seq![success_line()],
        ),
        run(job, enter_templates(job, i, log), u).1 == u,
    decreases job.templates.len() - i,
{
    let m = enter_templates(job, i, log);
    if i < job.templates.len() {
        let b = u.present.contains(dest_path(job, i));
        let m2 = advance(job, m.0, m.1, ReplyView::Present(b), u.clock);
        assert(run(job, m, u) == run(job, m2, u));
        let rest = idle_template_lines(job, i + 1, u.present) + idle_empty_lines(job, 0) + seq![success_line()];
        if b {
            lemma_templates_idle(job, i + 1, m2.1, u);
            assert(m2.1 + idle_template_lines(job, i + 1, u.present) + idle_empty_lines(job, 0) + seq![
                success_line(),
            ] =~= log + idle_template_lines(job, i, u.present) + idle_empty_lines(job, 0) + seq![success_line()]);
        } else {
            let m3 = advance(job, m2.0, m2.1, ReplyView::Present(false), u.clock);
            assert(run(job, m2, u) == run(job, m3, u));
            lemma_templates_idle(job, i + 1, m3.1, u);
            assert(m3.1 + idle_template_lines(job, i + 1, u.present) + idle_empty_lines(job, 0) + seq![
                success_line(),
            ] =~= log + idle_template_lines(job, i, u.present) + idle_empty_lines(job, 0) + seq![success_line()]);
        }
    } else {
        lemma_empties_idle(job, 0, log, u);
        assert(log + idle_template_lines(job, i, u.present) =~= log);
    }
}

proof fn lemma_dirs_idle(job: Job, i: int, log: Seq<Seq<char>>, u: World)
    requires
        lengths_fit(job),
        !job.refresh,
        0 <= i <= job.dirs.len(),
        forall|k: int|
            i <= k < job.dirs.len() ==> u.present.contains(#[trigger] dir_path(job, k)) && (dir_path(job, k)
                != job.target ==> u.busy),
        forall|k: int|
            0 <= k < job.templates.len() ==> u.present.contains(#[trigger] dest_path(job, k)) || !u.present.contains(
                source_path(job, k),
            ),
        forall|k: int| 0 <= k < job.empties.len() ==> u.present.contains(#[trigger] empty_path(job, k)),
        u.present.contains(readme_path(job)),
    ensures
        run(job, enter_dirs(job, i, log), u).0 == RequestView::Finish(
            log + dir_lines(job, i) + idle_template_lines(job, 0, u.present) + idle_empty_lines(job, 0) + seq![
                success_line(),
            ],
        ),
        run(job, enter_dirs(job, i, log), u).1 == u,
    decreases job.dirs.len() - i,
{
    let m = enter_dirs(job, i, log);
    if i < job.dirs.len() {
        let u1 = respond(job.target, u, m.2).1;
        assert(u1.present =~= u.present);
        assert(u1 == u);
        let m2 = advance(job, m.0, m.1, ReplyView::Done, u.clock);
        assert(run(job, m, u) == run(job, m2, u1));
        lemma_dirs_idle(job, i + 1, m.1, u);
        assert(m.1 + dir_lines(job, i + 1) + idle_template_lines(job, 0, u.present) + idle_empty_lines(job, 0)
            + seq![success_line()] =~= log + dir_lines(job, i) + idle_template_lines(job, 0, u.present)
            + idle_empty_lines(job, 0) + seq![success_line()]);
    } else {
        lemma_templates_idle(job, 0, log, u);
        assert(log + dir_lines(job, i) =~= log);
    }
}

/// Without `refresh`, a second run with the same inputs, on the world that the
/// first run left, changes nothing: not a path, not a file's content, nothing.
/// This holds with or without `force`, and whether the first run finished or
/// stopped at the project directory. The second run stops with
/// `TargetNotEmpty` where it may not proceed; otherwise it succeeds, and its log
/// holds, after the directory lines, a skip line for each template whose
/// destination exists and a warning for each whose source is missing, a skip
/// line for each empty file, and no line that copies, creates a file or
/// writes the README.
pub proof fn lemma_second_run_changes_nothing(job: Job, w: World)
    requires
        lengths_fit(job),
        sources_apart(job),
        !job.refresh,
    ensures
        run(job, start(job), run(job, start(job), w).1).1 == run(job, start(job), w).1,
        job.force || !run(job, start(job), w).1.busy ==> run(job, start(job), run(job, start(job), w).1).0
            == RequestView::Finish(idle_run_log(job, run(job, start(job), w).1.present)),
        !job.force && run(job, start(job), w).1.busy ==> run(job, start(job), run(job, start(job), w).1).0
            == RequestView::Abort(ErrorView::TargetNotEmpty(job.target)),
{
    lemma_apart_unshadowed(job);
    let m = start(job);
    let m2 = advance(job, m.0, m.1, ReplyView::Present(w.busy), w.clock);
    assert(run(job, m, w) == run(job, m2, w));
    let w1 = run(job, start(job), w).1;
    if w.busy && !job.force {
        assert(w1 == w);
        assert(run(job, m, w1) == run(job, m2, w1));
    } else {
        let u1 = respond(job.target, w, m2.2).1;
        let m3 = advance(job, m2.0, m2.1, ReplyView::Done, w.clock);
        assert(run(job, m2, w) == run(job, m3, u1));
        lemma_dirs_phase(job, 0, m2.1, u1);
        assert(w1.present.contains(job.target));
        assert forall|k: int| 0 <= k < job.dirs.len() implies w1.present.contains(#[trigger] dir_path(job, k)) && (
        dir_path(job, k) != job.target ==> w1.busy) by {
            assert(later_dirs(job, 0).contains(dir_path(job, k)));
        }
        assert forall|k: int| 0 <= k < job.empties.len() implies w1.present.contains(
            #[trigger] empty_path(job, k),
        ) by {
            assert(later_empties(job, 0).contains(empty_path(job, k)));
        }
        assert forall|k: int| 0 <= k < job.templates.len() implies w1.present.contains(
            #[trigger] dest_path(job, k),
        ) || !w1.present.contains(source_path(job, k)) by {
            let src = source_path(job, k);
            assert(source_is_apart(job, src));
            if w1.present.contains(src) {
                assert(!copied_dests(job, 0, u1.present).contains(src));
                assert(u1.present.contains(src));
                assert(copied_dests(job, 0, u1.present).contains(dest_path(job, k)));
            }
        }
        let n2 = advance(job, m.0, m.1, ReplyView::Present(w1.busy), w1.clock);
        assert(run(job, m, w1) == run(job, n2, w1));
        if !(w1.busy && !job.force) {
            let v1 = respond(job.target, w1, n2.2).1;
            assert(v1.present =~= w1.present);
            assert(v1 == w1);
            let n3 = advance(job, n2.0, n2.1, ReplyView::Done, w1.clock);
            assert(run(job, n2, w1) == run(job, n3, w1));
            lemma_dirs_idle(job, 0, n2.1, w1);
            assert(n2.1 + dir_lines(job, 0) + idle_template_lines(job, 0, w1.present) + idle_empty_lines(job, 0)
                + seq![success_line()] =~= idle_run_log(job, w1.present));
        }
    }
}

} // verus!
