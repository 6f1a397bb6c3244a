//! The order of work: what is done, and after what.

use vstd::prelude::*;

verus! {

/// A piece of work.
#[derive(Debug, Clone, Copy, PartialEq, Eq, Structural)]
pub enum Work {
    /// Sync the engine checkout to the pinned commit.
    SyncEngine,
    /// Compile the engine binary.
    CompileEngine,
    /// Compile the mod.
    CompileMod,
    /// Package the mod that was compiled.
    PackageMod,
    /// Install the package into the engine.
    InstallMod,
    /// Run the engine until it ends.
    RunEngine,
    /// Run the engine and reload the mod whenever the project changes.
    WatchProject,
}

/// An engine is compiled only from a checkout that was just synced.
pub open spec fn engine_work() -> Seq<Work> {
    seq![Work::SyncEngine, Work::CompileEngine]
}

/// A mod is packaged from what was just compiled.
pub open spec fn package_work() -> Seq<Work> {
    seq![Work::CompileMod, Work::PackageMod]
}

/// How a mod is tried out in the engine.
pub open spec fn dev_work(hot: bool) -> Seq<Work> {
    seq![Work::SyncEngine] + engine_work() + package_work() + seq![
        Work::InstallMod,
        if hot {
            Work::WatchProject
        } else {
            Work::RunEngine
        },
    ]
}

/// The work that builds the engine, in order.
pub fn engine_build_work() -> (work: Vec<Work>)
    ensures
        work@ == engine_work(),
{
    let work = vec![Work::SyncEngine, Work::CompileEngine];
    assert(work@ =~= engine_work());
    work
}

/// The work that packages the mod, in order.
pub fn package_mod() -> (work: Vec<Work>)
    ensures
        work@ == package_work(),
{
    let work = vec![Work::CompileMod, Work::PackageMod];
    assert(work@ =~= package_work());
    work
}

/// The work that tries a mod out in the engine, in order.
pub fn dev(hot: bool) -> (work: Vec<Work>)
    ensures
        work@ == dev_work(hot),
{
    let mut work: Vec<Work> = vec![Work::SyncEngine];
    let mut engine = engine_build_work();
    let mut package = package_mod();
    work.append(&mut engine);
    work.append(&mut package);
    work.push(Work::InstallMod);
    work.push(
        if hot {
            Work::WatchProject
        } else {
            Work::RunEngine
        },
    );
    assert(work@ =~= dev_work(hot));
    work
}

/// A piece of the work on several packages.
#[derive(Debug, Clone, Copy, PartialEq, Eq, Structural)]
pub struct JobPiece {
    /// Which package the work is for.
    pub job: usize,
    pub work: Work,
}

/// The work that makes several packages: all of it for one before any of it for
/// the next.
pub open spec fn jobs_work(jobs: nat) -> Seq<(nat, Work)>
    decreases jobs,
{
    if jobs == 0 {
        Seq::empty()
    } else {
        let last = (jobs - 1) as nat;
        jobs_work(last) + package_work().map_values(|work: Work| (last, work))
    }
}

/// The pieces of a list, with the packages that they are for as numbers.
pub open spec fn job_pieces(pieces: Seq<JobPiece>) -> Seq<(nat, Work)> {
    pieces.map_values(|piece: JobPiece| (piece.job as nat, piece.work))
}

/// The work that makes several packages, in order.
pub fn package_jobs(jobs: usize) -> (pieces: Vec<JobPiece>)
    ensures
        job_pieces(pieces@) == jobs_work(jobs as nat),
{
    let mut pieces: Vec<JobPiece> = Vec::new();
    let mut job: usize = 0;
    assert(job_pieces(pieces@) =~= Seq::empty());
    while job < jobs
        invariant
            job <= jobs,
            job_pieces(pieces@) == jobs_work(job as nat),
        decreases jobs - job,
    {
        let ghost before = job_pieces(pieces@);
        pieces.push(JobPiece { job, work: Work::CompileMod });
        pieces.push(JobPiece { job, work: Work::PackageMod });
        proof {
            assert(jobs_work((job + 1) as nat) =~= before.push((job as nat, Work::CompileMod)).push(
                (job as nat, Work::PackageMod),
            ));
            assert(job_pieces(pieces@) =~= jobs_work((job + 1) as nat));
        }
        job += 1;
    }
    pieces
}

/// How far a list of pieces has come.
#[derive(Debug)]
pub struct Course {
    count: usize,
    done: usize,
    stopped: bool,
}

/// Where a [`Course`] stands.
pub struct Standing {
    /// How many pieces there are.
    pub count: nat,
    /// How many of them were done.
    pub done: nat,
    /// Whether a piece failed.
    pub stopped: bool,
}

impl View for Course {
    type V = Standing;

    closed spec fn view(&self) -> Standing {
        Standing { count: self.count as nat, done: self.done as nat, stopped: self.stopped }
    }
}

/// Before any piece.
pub open spec fn course_start(count: nat) -> Standing {
    Standing { count, done: 0, stopped: false }
}

/// The piece that is asked for: the first that was not done, and none after one
/// that failed.
pub open spec fn course_next(standing: Standing) -> Option<nat> {
    if !standing.stopped && standing.done < standing.count {
        Some(standing.done)
    } else {
        None
    }
}

/// Where a course stands after the piece that was asked for.
pub open spec fn course_after(standing: Standing, succeeded: bool) -> Standing {
    if succeeded {
        Standing { done: standing.done + 1, ..standing }
    } else {
        Standing { stopped: true, ..standing }
    }
}

/// Whether all pieces were done.
pub open spec fn course_is_done(standing: Standing) -> bool {
    !standing.stopped && standing.done == standing.count
}

impl Course {
    /// Starts on a number of pieces.
    pub fn new(count: usize) -> (course: Course)
        ensures
            course@ == course_start(count as nat),
    {
        Course { count, done: 0, stopped: false }
    }

    /// The piece to do next.
    pub fn next(&self) -> (piece: Option<usize>)
        ensures
            match piece {
                Some(at) => course_next(self@) == Some(at as nat),
                None => course_next(self@) is None,
            },
    {
        if !self.stopped && self.done < self.count {
            Some(self.done)
        } else {
            None
        }
    }

    /// Takes in what came of the piece that was asked for.
    pub fn report(&mut self, succeeded: bool)
        requires
            course_next(old(self)@) is Some,
        ensures
            final(self)@ == course_after(old(self)@, succeeded),
    {
        if succeeded {
            self.done = self.done + 1;
        } else {
            self.stopped = true;
        }
    }

    /// Whether all pieces were done.
    pub fn is_done(&self) -> (done: bool)
        ensures
            done == course_is_done(self@),
    {
        !self.stopped && self.done == self.count
    }
}

/// Where a course stands after a sequence of outcomes.
pub open spec fn course_run(standing: Standing, outcomes: Seq<bool>) -> Standing
    decreases outcomes.len(),
{
    if outcomes.len() == 0 {
        standing
    } else {
        course_after(course_run(standing, outcomes.drop_last()), outcomes.last())
    }
}

/// Whether each outcome of a sequence is that of a piece that was asked for.
pub open spec fn outcomes_fit(standing: Standing, outcomes: Seq<bool>) -> bool {
    forall|i: int|
        0 <= i < outcomes.len() ==> course_next(
            course_run(standing, #[trigger] outcomes.take(i)),
        ) is Some
}

proof fn lemma_course_run(count: nat, outcomes: Seq<bool>)
    requires
        outcomes_fit(course_start(count), outcomes),
    ensures
        ({
            let end = course_run(course_start(count), outcomes);
            &&& end.count == count
            &&& end.done <= count
            &&& end.stopped <==> outcomes.len() > 0 && !outcomes.last()
            &&& end.done == if end.stopped {
                (outcomes.len() - 1) as nat
            } else {
                outcomes.len()
            }
        }),
        forall|i: int| 0 <= i < outcomes.len() - 1 ==> outcomes[i],
    decreases outcomes.len(),
{
    if outcomes.len() > 0 {
        let shorter = outcomes.drop_last();
        let start = course_start(count);
        assert forall|i: int| 0 <= i < shorter.len() implies course_next(
            course_run(start, #[trigger] shorter.take(i)),
        ) is Some by {
            assert(shorter.take(i) =~= outcomes.take(i));
        }
        lemma_course_run(count, shorter);
        assert(outcomes.take(shorter.len() as int) =~= shorter);
        assert forall|i: int| 0 <= i < outcomes.len() - 1 implies outcomes[i] by {
            if i < shorter.len() - 1 {
                assert(shorter[i]);
            } else {
                assert(outcomes[i] == shorter.last());
            }
        }
    }
}

/// Nothing is asked for after a piece that failed.
pub proof fn law_nothing_follows_a_failure(count: nat, outcomes: Seq<bool>, at: int)
    requires
        outcomes_fit(course_start(count), outcomes),
        0 <= at < outcomes.len(),
        !outcomes[at],
    ensures
        at == outcomes.len() - 1,
        course_next(course_run(course_start(count), outcomes)) is None,
        !course_is_done(course_run(course_start(count), outcomes)),
{
    lemma_course_run(count, outcomes);
}

/// The pieces are asked for one by one, in their order.
pub proof fn law_pieces_come_in_order(count: nat, outcomes: Seq<bool>, at: int)
    requires
        outcomes_fit(course_start(count), outcomes),
        0 <= at < outcomes.len(),
    ensures
        course_next(course_run(course_start(count), outcomes.take(at))) == Some(at as nat),
{
    let before = outcomes.take(at);
    let start = course_start(count);
    assert forall|i: int| 0 <= i < before.len() implies course_next(
        course_run(start, #[trigger] before.take(i)),
    ) is Some by {
        assert(before.take(i) =~= outcomes.take(i));
    }
    lemma_course_run(count, before);
    assert(course_next(course_run(start, outcomes.take(at))) is Some);
}

/// The work is done exactly when every piece was asked for and succeeded.
pub proof fn law_work_is_done_with_all_pieces(count: nat, outcomes: Seq<bool>)
    requires
        outcomes_fit(course_start(count), outcomes),
    ensures
        course_is_done(course_run(course_start(count), outcomes)) <==> outcomes.len() == count && (
        forall|i: int| 0 <= i < outcomes.len() ==> outcomes[i]),
{
    lemma_course_run(count, outcomes);
    if course_is_done(course_run(course_start(count), outcomes)) {
        assert forall|i: int| 0 <= i < outcomes.len() implies outcomes[i] by {
            if i == outcomes.len() - 1 {
                assert(outcomes[i] == outcomes.last());
            }
        }
    }
}

/// Whether a list has a piece.
pub open spec fn does(work: Seq<Work>, piece: Work) -> bool {
    exists|i: int| 0 <= i < work.len() && #[trigger] work[i] == piece
}

/// Whether a list has one piece before another wherever it has both.
pub open spec fn comes_before(work: Seq<Work>, early: Work, late: Work) -> bool {
    forall|i: int, j: int|
        0 <= i < work.len() && 0 <= j < work.len() && #[trigger] work[i] == early
            && #[trigger] work[j] == late ==> i < j
}

/// To try a mod out, the engine is compiled after a sync, the mod is packaged
/// after it was compiled and installed after it was packaged, and the engine
/// runs after all of that.
pub proof fn law_mod_is_tried_out_in_order(hot: bool)
    ensures
        does(dev_work(hot), Work::SyncEngine),
        does(dev_work(hot), Work::CompileEngine),
        does(dev_work(hot), Work::CompileMod),
        does(dev_work(hot), Work::PackageMod),
        does(dev_work(hot), Work::InstallMod),
        comes_before(dev_work(hot), Work::SyncEngine, Work::CompileEngine),
        comes_before(dev_work(hot), Work::CompileEngine, Work::InstallMod),
        comes_before(dev_work(hot), Work::CompileMod, Work::PackageMod),
        comes_before(dev_work(hot), Work::PackageMod, Work::InstallMod),
        dev_work(hot).last() == if hot {
            Work::WatchProject
        } else {
            Work::RunEngine
        },
        forall|i: int|
            0 <= i < dev_work(hot).len() ==> (#[trigger] dev_work(hot)[i] == Work::RunEngine
                || dev_work(hot)[i] == Work::WatchProject ==> i == dev_work(hot).len() - 1),
{
    let work = dev_work(hot);
    assert(work[0] == Work::SyncEngine);
    assert(work[2] == Work::CompileEngine);
    assert(work[3] == Work::CompileMod);
    assert(work[4] == Work::PackageMod);
    assert(work[5] == Work::InstallMod);
}

/// Whether the mod is reloaded on changes makes no difference to how the engine
/// is brought up: only to the last piece.
pub proof fn law_hot_reload_changes_the_last_piece_alone()
    ensures
        dev_work(true).len() == dev_work(false).len(),
        dev_work(true).drop_last() == dev_work(false).drop_last(),
        dev_work(true).last() != dev_work(false).last(),
{
    assert(dev_work(true).drop_last() =~= dev_work(false).drop_last());
}

/// To try a mod out is to do, among others, all that building the engine and
/// then packaging the mod does, with nothing in between.
pub proof fn law_trying_out_builds_and_packages(hot: bool)
    ensures
        exists|before: Seq<Work>, after: Seq<Work>|
            dev_work(hot) == #[trigger] (before + (engine_work() + package_work()) + after)
                && forall|i: int| 0 <= i < before.len() ==> before[i] == Work::SyncEngine,
        comes_before(engine_work(), Work::SyncEngine, Work::CompileEngine),
        does(engine_work(), Work::SyncEngine),
        does(engine_work(), Work::CompileEngine),
        engine_work().len() == 2,
        comes_before(package_work(), Work::CompileMod, Work::PackageMod),
        does(package_work(), Work::CompileMod),
        does(package_work(), Work::PackageMod),
        package_work().len() == 2,
{
    let before = seq![Work::SyncEngine];
    let after = seq![
        Work::InstallMod,
        if hot {
            Work::WatchProject
        } else {
            Work::RunEngine
        },
    ];
    assert(dev_work(hot) =~= before + (engine_work() + package_work()) + after);
    assert(engine_work()[0] == Work::SyncEngine && engine_work()[1] == Work::CompileEngine);
    assert(package_work()[0] == Work::CompileMod && package_work()[1] == Work::PackageMod);
}

/// Each of several packages is made from what was compiled for it right before,
/// they are made in their order, and nothing else is done.
pub proof fn law_each_package_is_compiled_right_before(jobs: nat, job: int)
    requires
        0 <= job < jobs,
    ensures
        jobs_work(jobs).len() == 2 * jobs,
        jobs_work(jobs)[2 * job] == (job as nat, Work::CompileMod),
        jobs_work(jobs)[2 * job + 1] == (job as nat, Work::PackageMod),
    decreases jobs,
{
    let last = (jobs - 1) as nat;
    reveal_with_fuel(jobs_work, 2);
    if last > 0 {
        law_each_package_is_compiled_right_before(
            last,
            if job < last {
                job
            } else {
                0
            },
        );
    }
}

/// As long as every piece so far succeeded and one is left, it is asked for.
pub proof fn law_next_piece_is_asked_for(count: nat, outcomes: Seq<bool>)
    requires
        outcomes.len() < count,
        forall|i: int| 0 <= i < outcomes.len() ==> #[trigger] outcomes[i],
    ensures
        course_run(course_start(count), outcomes).count == count,
        course_next(course_run(course_start(count), outcomes)) == Some(outcomes.len()),
        !course_is_done(course_run(course_start(count), outcomes)),
    decreases outcomes.len(),
{
    if outcomes.len() > 0 {
        let shorter = outcomes.drop_last();
        assert forall|i: int| 0 <= i < shorter.len() implies #[trigger] shorter[i] by {
            assert(outcomes[i]);
        }
        law_next_piece_is_asked_for(count, shorter);
        assert(outcomes[outcomes.len() - 1]);
    }
}

} // verus!
