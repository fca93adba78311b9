//! The course of a test run: every plan on a machine of its own, one after the
//! other.
//!
//! [`TestRun`] holds where the run is. The caller performs what
//! [`TestRun::stage`] asks for and reports whether it succeeded.

use vstd::prelude::*;

use crate::text::{concat3, no_texts, opt_text, push_text, texts};
use crate::tmt::names::{vm_name, vm_name_for};
use crate::tmt::plans::{
    connection_step, listed_plans, metadata_for, plan_of, plans_listed, select_plans,
    some_fresh_install, ConnectionStep, PlanEntry, Selection,
};

verus! {

/// A plan that runs.
#[derive(Debug)]
pub struct PlannedTest {
    pub plan: String,
    /// The machine of the plan; tmt's run has the same name.
    pub vm_name: String,
    pub fresh_install_disk: bool,
}

/// What is to be done next for a plan.
#[derive(Debug, Clone, Copy, PartialEq, Eq, Structural)]
pub enum Stage {
    /// Create the log directory of the machine.
    LogDir,
    /// Launch the machine.
    Launch,
    /// Wait until the machine is ready.
    Ready,
    /// Create a file for its SSH key.
    KeyFile,
    /// Take the path of that file.
    KeyPath,
    /// Write the key.
    KeyWrite,
    /// Restrict the access to the key.
    KeyMode,
    /// Wait until the machine can be reached over SSH.
    Ssh,
    /// Attach the disk that a fresh-install plan installs to.
    Disk,
    /// Run the tests.
    Tmt,
}

/// Why a run ends early.
#[derive(Debug, Clone, Copy, PartialEq, Eq, Structural)]
pub enum Abort {
    LogDir,
    /// A machine that does not launch speaks of the host, and the next would not launch
    /// either.
    Launch,
    Disk,
}

/// What a report leads to.
#[derive(Debug, Clone, Copy, PartialEq, Eq, Structural)]
pub enum Step {
    /// On to the next stage of the plan.
    Next,
    /// The plan is done, and its machine is to be removed or kept.
    PlanDone { remove_vm: bool },
    /// The run ends here.
    Aborted(Abort),
}

/// How a plan ended.
#[derive(Debug)]
pub struct PlanResult {
    pub plan: String,
    pub passed: bool,
    /// The run of tmt, where it came to one.
    pub run_id: Option<String>,
}

/// A test run.
#[derive(Debug)]
pub struct TestRun {
    plans: Vec<PlannedTest>,
    preserve_vm: bool,
    has_log_dir: bool,
    current: usize,
    stage: Stage,
    results: Vec<PlanResult>,
    all_passed: bool,
    aborted: Option<Abort>,
}

/// A plan that runs, in terms of texts.
pub struct TestSpec {
    pub plan: Seq<char>,
    pub vm_name: Seq<char>,
    pub fresh_install_disk: bool,
}

/// How a plan ended, in terms of texts.
pub struct ResultSpec {
    pub plan: Seq<char>,
    pub passed: bool,
    pub run_id: Option<Seq<char>>,
}

impl PlannedTest {
    pub open spec fn view(&self) -> TestSpec {
        TestSpec {
            plan: self.plan@,
            vm_name: self.vm_name@,
            fresh_install_disk: self.fresh_install_disk,
        }
    }
}

impl PlanResult {
    pub open spec fn view(&self) -> ResultSpec {
        ResultSpec { plan: self.plan@, passed: self.passed, run_id: opt_text(self.run_id) }
    }
}

/// The plans of a list, in terms of texts.
pub open spec fn test_specs(plans: Seq<PlannedTest>) -> Seq<TestSpec> {
    Seq::new(plans.len(), |i: int| plans[i]@)
}

/// The results of a list, in terms of texts.
pub open spec fn result_specs(results: Seq<PlanResult>) -> Seq<ResultSpec> {
    Seq::new(results.len(), |i: int| results[i]@)
}

// ---------------------------------------------------------------------------
// The course of a run
// ---------------------------------------------------------------------------

/// Where a run is.
pub struct RunState {
    pub plans: Seq<TestSpec>,
    pub preserve_vm: bool,
    pub has_log_dir: bool,
    pub current: int,
    pub stage: Stage,
    pub results: Seq<ResultSpec>,
    pub all_passed: bool,
    pub aborted: Option<Abort>,
}

impl RunState {
    /// The stage with which a plan begins.
    pub open spec fn first_stage(self) -> Stage {
        if self.has_log_dir {
            Stage::LogDir
        } else {
            Stage::Launch
        }
    }

    /// The plan whose turn it is.
    pub open spec fn test(self) -> TestSpec {
        self.plans[self.current]
    }

    /// Whether there is nothing left to do.
    pub open spec fn finished(self) -> bool {
        self.aborted is Some || self.current >= self.plans.len()
    }

    /// Whether the machine of the plan goes when the plan is done. Machines stay where the
    /// user asked for it, and where a plan installed a second disk: its resources are
    /// only removed by hand.
    pub open spec fn removes_vm(self) -> bool {
        !self.preserve_vm && !self.test().fresh_install_disk
    }

    /// On to a stage of the same plan.
    pub open spec fn at(self, stage: Stage) -> (RunState, Step) {
        (RunState { stage, ..self }, Step::Next)
    }

    /// The plan ends, and the next has its turn.
    pub open spec fn done(self, passed: bool, run_id: Option<Seq<char>>) -> (RunState, Step) {
        let result = ResultSpec { plan: self.test().plan, passed, run_id };
        (
            RunState {
                current: self.current + 1,
                stage: self.first_stage(),
                results: self.results.push(result),
                all_passed: self.all_passed && passed,
                ..self
            },
            Step::PlanDone { remove_vm: self.removes_vm() },
        )
    }

    /// The run ends early.
    pub open spec fn abort(self, why: Abort) -> (RunState, Step) {
        (RunState { aborted: Some(why), ..self }, Step::Aborted(why))
    }

    /// What follows when the stage that is due succeeded or failed.
    ///
    /// A machine that does not launch leaves a result and ends the run; so does, without a
    /// result, a log directory or a disk that cannot be made. Whatever else fails before
    /// the tests fails the plan alone.
    pub open spec fn after(self, ok: bool) -> (RunState, Step) {
        match self.stage {
            Stage::LogDir => if ok {
                self.at(Stage::Launch)
            } else {
                self.abort(Abort::LogDir)
            },
            Stage::Launch => if ok {
                self.at(Stage::Ready)
            } else {
                let result = ResultSpec { plan: self.test().plan, passed: false, run_id: None };
                RunState { results: self.results.push(result), ..self }.abort(Abort::Launch)
            },
            Stage::Disk => if ok {
                self.at(Stage::Tmt)
            } else {
                self.abort(Abort::Disk)
            },
            Stage::Tmt => self.done(ok, Some(self.test().vm_name)),
            _ => if !ok {
                self.done(false, None)
            } else {
                match self.stage {
                    Stage::Ready => self.at(Stage::KeyFile),
                    Stage::KeyFile => self.at(Stage::KeyPath),
                    Stage::KeyPath => self.at(Stage::KeyWrite),
                    Stage::KeyWrite => self.at(Stage::KeyMode),
                    Stage::KeyMode => self.at(Stage::Ssh),
                    _ => if self.test().fresh_install_disk {
                        self.at(Stage::Disk)
                    } else {
                        self.at(Stage::Tmt)
                    },
                }
            },
        }
    }

    /// What holds of a run at any time.
    ///
    /// The plans before the current one have a result each, in their order; only a launch
    /// that failed adds one for the current plan. What passed went through tmt, under the
    /// name of its machine.
    pub open spec fn wf(self) -> bool {
        &&& 0 <= self.current <= self.plans.len()
        &&& self.aborted is Some ==> self.current < self.plans.len()
        &&& self.results.len() == self.current + (if self.aborted == Some(Abort::Launch) {
            1int
        } else {
            0
        })
        &&& forall|i: int|
            0 <= i < self.results.len() ==> (#[trigger] self.results[i]).plan == self.plans[i].plan
        &&& forall|i: int|
            0 <= i < self.results.len() ==> ((#[trigger] self.results[i]).run_id is None
                || self.results[i].run_id == Some(self.plans[i].vm_name))
        &&& forall|i: int|
            0 <= i < self.results.len() && (#[trigger] self.results[i]).passed
                ==> self.results[i].run_id is Some
        &&& self.all_passed <==> forall|i: int|
            0 <= i < self.current ==> (#[trigger] self.results[i]).passed
        &&& self.stage == Stage::LogDir ==> self.has_log_dir
        &&& self.stage == Stage::Disk && self.current < self.plans.len()
            ==> self.test().fresh_install_disk
    }
}

/// A run that is about to begin.
pub open spec fn run_start(plans: Seq<TestSpec>, preserve_vm: bool, has_log_dir: bool) -> RunState {
    RunState {
        plans,
        preserve_vm,
        has_log_dir,
        current: 0,
        stage: if has_log_dir {
            Stage::LogDir
        } else {
            Stage::Launch
        },
        results: seq![],
        all_passed: true,
        aborted: None,
    }
}

impl TestRun {
    /// Where the run is.
    pub closed spec fn view(&self) -> RunState {
        RunState {
            plans: test_specs(self.plans@),
            preserve_vm: self.preserve_vm,
            has_log_dir: self.has_log_dir,
            current: self.current as int,
            stage: self.stage,
            results: result_specs(self.results@),
            all_passed: self.all_passed,
            aborted: self.aborted,
        }
    }

    /// A run of the given plans.
    pub fn new(plans: Vec<PlannedTest>, preserve_vm: bool, has_log_dir: bool) -> (r: TestRun)
        ensures
            r@ == run_start(test_specs(plans@), preserve_vm, has_log_dir),
            r@.wf(),
    {
        let stage = if has_log_dir {
            Stage::LogDir
        } else {
            Stage::Launch
        };
        let r = TestRun {
            plans,
            preserve_vm,
            has_log_dir,
            current: 0,
            stage,
            results: Vec::new(),
            all_passed: true,
            aborted: None,
        };
        assert(result_specs(r.results@) =~= seq![]);
        r
    }

    /// What is to be done next, and for which plan; `None` when the run is over.
    pub fn stage(&self) -> (r: Option<(Stage, &PlannedTest)>)
        requires
            self@.wf(),
        ensures
            match r {
                Some((stage, test)) => !self@.finished() && stage == self@.stage && test@
                    == self@.test(),
                None => self@.finished(),
            },
    {
        if self.aborted.is_some() || self.current >= self.plans.len() {
            None
        } else {
            assert(test_specs(self.plans@)[self.current as int] == self.plans@[self.current as int]@);
            Some((self.stage, &self.plans[self.current]))
        }
    }

    /// Reports whether what was to be done succeeded.
    pub fn report(&mut self, ok: bool) -> (r: Step)
        requires
            old(self)@.wf(),
            !old(self)@.finished(),
        ensures
            (final(self)@, r) == old(self)@.after(ok),
            final(self)@.wf(),
    {
        let ghost before = self@;
        assert(test_specs(self.plans@).len() == self.plans@.len());
        assert(test_specs(self.plans@)[self.current as int] == self.plans@[self.current as int]@);
        proof {
            lemma_after_keeps_wf(before, ok);
        }
        let fresh = self.plans[self.current].fresh_install_disk;
        match self.stage {
            Stage::LogDir => {
                if ok {
                    self.stage = Stage::Launch;
                    Step::Next
                } else {
                    self.aborted = Some(Abort::LogDir);
                    Step::Aborted(Abort::LogDir)
                }
            },
            Stage::Launch => {
                if ok {
                    self.stage = Stage::Ready;
                    Step::Next
                } else {
                    self.record(false, None);
                    self.aborted = Some(Abort::Launch);
                    Step::Aborted(Abort::Launch)
                }
            },
            Stage::Disk => {
                if ok {
                    self.stage = Stage::Tmt;
                    Step::Next
                } else {
                    self.aborted = Some(Abort::Disk);
                    Step::Aborted(Abort::Disk)
                }
            },
            Stage::Tmt => {
                let run_id = self.plans[self.current].vm_name.clone();
                self.finish_plan(ok, Some(run_id))
            },
            stage => {
                if !ok {
                    self.finish_plan(false, None)
                } else {
                    self.stage = match stage {
                        Stage::Ready => Stage::KeyFile,
                        Stage::KeyFile => Stage::KeyPath,
                        Stage::KeyPath => Stage::KeyWrite,
                        Stage::KeyWrite => Stage::KeyMode,
                        Stage::KeyMode => Stage::Ssh,
                        _ => if fresh {
                            Stage::Disk
                        } else {
                            Stage::Tmt
                        },
                    };
                    Step::Next
                }
            },
        }
    }

    /// Adds a result for the current plan.
    fn record(&mut self, passed: bool, run_id: Option<String>)
        requires
            old(self)@.current < old(self)@.plans.len(),
        ensures
            final(self)@ == (RunState {
                results: old(self)@.results.push(
                    ResultSpec { plan: old(self)@.test().plan, passed, run_id: opt_text(run_id) },
                ),
                ..old(self)@
            }),
    {
        assert(test_specs(self.plans@).len() == self.plans@.len());
        assert(test_specs(self.plans@)[self.current as int] == self.plans@[self.current as int]@);
        let plan = self.plans[self.current].plan.clone();
        let ghost before = self.results@;
        let result = PlanResult { plan, passed, run_id };
        self.results.push(result);
        assert(result_specs(self.results@) =~= result_specs(before).push(result@));
    }

    /// Ends the current plan.
    fn finish_plan(&mut self, passed: bool, run_id: Option<String>) -> (r: Step)
        requires
            old(self)@.current < old(self)@.plans.len(),
        ensures
            (final(self)@, r) == old(self)@.done(passed, opt_text(run_id)),
    {
        assert(test_specs(self.plans@).len() == self.plans@.len());
        assert(test_specs(self.plans@)[self.current as int] == self.plans@[self.current as int]@);
        let n = self.plans.len();
        let remove_vm = !self.preserve_vm && !self.plans[self.current].fresh_install_disk;
        let ghost before = self@;
        self.record(passed, run_id);
        assert(self@.current == before.current && before.current < n);
        self.current = self.current + 1;
        self.stage = if self.has_log_dir {
            Stage::LogDir
        } else {
            Stage::Launch
        };
        self.all_passed = self.all_passed && passed;
        Step::PlanDone { remove_vm }
    }

    /// The results so far.
    pub fn results(&self) -> (r: &Vec<PlanResult>)
        ensures
            result_specs(r@) == self@.results,
    {
        &self.results
    }

    /// Whether every plan that ended so far passed.
    pub fn all_passed(&self) -> (r: bool)
        ensures
            r == self@.all_passed,
    {
        self.all_passed
    }
}

/// What holds of a run holds after every report.
proof fn lemma_after_keeps_wf(s: RunState, ok: bool)
    requires
        s.wf(),
        !s.finished(),
    ensures
        s.after(ok).0.wf(),
{
    let t = s.after(ok).0;
    assert(t.plans == s.plans);
    if t.results.len() > s.results.len() {
        let result = t.results.last();
        assert(t.results == s.results.push(result));
        assert forall|i: int| 0 <= i < t.results.len() implies (#[trigger] t.results[i]).plan
            == t.plans[i].plan by {
            if i < s.results.len() {
                assert(t.results[i] == s.results[i]);
            }
        }
        assert forall|i: int| 0 <= i < t.results.len() implies ((#[trigger] t.results[i]).run_id
            is None || t.results[i].run_id == Some(t.plans[i].vm_name)) by {
            if i < s.results.len() {
                assert(t.results[i] == s.results[i]);
            }
        }
        assert forall|i: int| 0 <= i < t.results.len() && (#[trigger] t.results[i]).passed implies
            t.results[i].run_id is Some by {
            if i < s.results.len() {
                assert(t.results[i] == s.results[i]);
            }
        }
        if t.aborted is None {
            assert(t.results[s.current] == result);
            assert(forall|i: int| 0 <= i < s.current ==> t.results[i] == s.results[i]);
            if t.all_passed {
                assert forall|i: int| 0 <= i < t.current implies (#[trigger] t.results[i]).passed by {
                    if i < s.current {
                        assert(s.results[i].passed);
                    }
                }
            } else if result.passed {
                let i = choose|i: int| 0 <= i < s.current && !(#[trigger] s.results[i]).passed;
                assert(!t.results[i].passed);
            }
        } else {
            assert(forall|i: int| 0 <= i < s.current ==> t.results[i] == s.results[i]);
        }
    }
}

// ---------------------------------------------------------------------------
// Laws of a run
// ---------------------------------------------------------------------------

/// Where a run is after a series of reports; what is reported after its end changes
/// nothing.
pub open spec fn run_after(s: RunState, reports: Seq<bool>) -> RunState
    decreases reports.len(),
{
    if reports.len() == 0 {
        s
    } else {
        let before = run_after(s, reports.drop_last());
        if before.finished() {
            before
        } else {
            before.after(reports.last()).0
        }
    }
}

/// Whatever is reported, each plan gets at most one result, in the order of the plans;
/// a plan passes only through tmt, in a run named like its machine; and the run counts as
/// passed exactly as long as every plan that ended did.
pub proof fn law_run_stays_well_formed(
    plans: Seq<TestSpec>,
    preserve_vm: bool,
    has_log_dir: bool,
    reports: Seq<bool>,
)
    ensures
        run_after(run_start(plans, preserve_vm, has_log_dir), reports).wf(),
        run_after(run_start(plans, preserve_vm, has_log_dir), reports).plans == plans,
    decreases reports.len(),
{
    let s = run_start(plans, preserve_vm, has_log_dir);
    if reports.len() > 0 {
        law_run_stays_well_formed(plans, preserve_vm, has_log_dir, reports.drop_last());
        let before = run_after(s, reports.drop_last());
        if !before.finished() {
            lemma_after_keeps_wf(before, reports.last());
        }
    }
}

/// A run that came to its end without an abort has a result for every plan, and passed
/// exactly if every one of them did.
pub proof fn law_finished_run_has_all_results(s: RunState)
    requires
        s.wf(),
        s.finished(),
        s.aborted is None,
    ensures
        s.results.len() == s.plans.len(),
        s.all_passed <==> forall|i: int|
            0 <= i < s.results.len() ==> (#[trigger] s.results[i]).passed,
{
}

/// The machine of a plan that installs a second disk is never removed, and with
/// `--preserve-vm` none is.
pub proof fn law_kept_machines(s: RunState, ok: bool)
    requires
        s.wf(),
        !s.finished(),
        s.preserve_vm || s.test().fresh_install_disk,
    ensures
        s.after(ok).1 != (Step::PlanDone { remove_vm: true }),
{
}

/// Every other machine that was launched is removed when its plan is done.
pub proof fn law_removed_machines(s: RunState, ok: bool)
    requires
        s.wf(),
        !s.finished(),
        !s.preserve_vm,
        !s.test().fresh_install_disk,
        s.after(ok).1 is PlanDone,
    ensures
        s.after(ok).1 == (Step::PlanDone { remove_vm: true }),
        s.stage != Stage::LogDir,
        s.stage != Stage::Launch,
{
}

/// How much of a run may be left.
pub open spec fn steps_left(s: RunState) -> int {
    if s.finished() {
        0
    } else {
        (s.plans.len() - s.current) * 10 - match s.stage {
            Stage::LogDir => 0int,
            Stage::Launch => 1,
            Stage::Ready => 2,
            Stage::KeyFile => 3,
            Stage::KeyPath => 4,
            Stage::KeyWrite => 5,
            Stage::KeyMode => 6,
            Stage::Ssh => 7,
            Stage::Disk => 8,
            Stage::Tmt => 9,
        }
    }
}

/// Every report brings a run nearer to its end.
pub proof fn law_run_ends(s: RunState, ok: bool)
    requires
        s.wf(),
        !s.finished(),
    ensures
        0 <= steps_left(s.after(ok).0) < steps_left(s),
{
}

/// After a failed launch no plan is tried any more.
pub proof fn law_failed_launch_ends_the_run(s: RunState)
    requires
        s.wf(),
        !s.finished(),
        s.stage == Stage::Launch,
    ensures
        s.after(false).0.finished(),
        s.after(false).0.results.last() == (ResultSpec {
            plan: s.test().plan,
            passed: false,
            run_id: None,
        }),
{
}

// ---------------------------------------------------------------------------
// Planning
// ---------------------------------------------------------------------------

/// The plans that run, each with its machine and whether it installs a second disk.
pub open spec fn planned(plans: Seq<Seq<char>>, suffix: Seq<char>, table: Seq<PlanEntry>) -> Seq<
    TestSpec,
> {
    Seq::new(
        plans.len(),
        |i: int|
            TestSpec {
                plan: plans[i],
                vm_name: vm_name(suffix, plans[i]),
                fresh_install_disk: plan_of(table, plans[i]).fresh_install_disk,
            },
    )
}

/// The plans that run, each with its machine and whether it installs a second disk.
pub fn plan_tests(plans: &Vec<String>, suffix: &str, table: &Vec<PlanEntry>) -> (r: Vec<
    PlannedTest,
>)
    ensures
        test_specs(r@) == planned(texts(plans@), suffix@, table@),
{
    let mut out: Vec<PlannedTest> = Vec::new();
    let mut i: usize = 0;
    let ghost all = planned(texts(plans@), suffix@, table@);
    assert(test_specs(out@) =~= all.take(0));
    while i < plans.len()
        invariant
            i <= plans@.len(),
            all == planned(texts(plans@), suffix@, table@),
            test_specs(out@) == all.take(i as int),
        decreases plans@.len() - i,
    {
        let plan = plans[i].clone();
        assert(texts(plans@)[i as int] == plan@);
        let test = PlannedTest {
            vm_name: vm_name_for(suffix, plan.as_str()),
            fresh_install_disk: metadata_for(table, plan.as_str()).fresh_install_disk,
            plan,
        };
        let ghost before = out@;
        out.push(test);
        assert(test_specs(out@) =~= test_specs(before).push(test@));
        assert(test_specs(out@) =~= all.take(i + 1));
        i = i + 1;
    }
    assert(all.take(i as int) =~= all);
    out
}

/// What there is to run.
#[derive(Debug)]
pub enum RunPlan {
    /// No plan is left to run.
    NoPlans,
    /// A plan that installs a second disk needs a libvirt connection, and none was given.
    MissingConnection,
    Tests(Vec<PlannedTest>),
}

/// What there is to run: of the plans that tmt lists those that are selected, each with its machine.
/// Plans that install a second disk run only where a libvirt connection was given.
pub fn plan_run(
    listing: &str,
    selection: &Selection,
    table: &Vec<PlanEntry>,
    connection_given: bool,
    suffix: &str,
) -> (r: RunPlan)
    ensures
        ({
            let plans = listed_plans(listing@).filter(
                |plan: Seq<char>| selection.wants(table@, plan),
            );
            if plans.len() == 0 {
                r is NoPlans
            } else if !connection_given && some_fresh_install(plans, table@) {
                r is MissingConnection
            } else {
                r matches RunPlan::Tests(tests) && test_specs(tests@) == planned(
                    plans,
                    suffix@,
                    table@,
                )
            }
        }),
{
    let listed = plans_listed(listing);
    let plans = select_plans(&listed, selection, table);
    assert(texts(plans@).len() == plans@.len());
    if plans.len() == 0 {
        return RunPlan::NoPlans;
    }
    match connection_step(connection_given, &plans, table) {
        ConnectionStep::Missing => RunPlan::MissingConnection,
        _ => RunPlan::Tests(plan_tests(&plans, suffix, table)),
    }
}

/// A run that goes on without a libvirt connection never comes to the disk of a
/// fresh-install plan.
pub proof fn law_disk_needs_a_connection(
    plans: Seq<Seq<char>>,
    suffix: Seq<char>,
    table: Seq<PlanEntry>,
    preserve_vm: bool,
    has_log_dir: bool,
    reports: Seq<bool>,
)
    requires
        !some_fresh_install(plans, table),
    ensures
        ({
            let s = run_after(
                run_start(planned(plans, suffix, table), preserve_vm, has_log_dir),
                reports,
            );
            s.finished() || s.stage != Stage::Disk
        }),
{
    let tests = planned(plans, suffix, table);
    law_run_stays_well_formed(tests, preserve_vm, has_log_dir, reports);
    let s = run_after(run_start(tests, preserve_vm, has_log_dir), reports);
    if !s.finished() && s.stage == Stage::Disk {
        assert(s.test() == tests[s.current]);
        assert(plan_of(table, plans[s.current]).fresh_install_disk);
    }
}

// ---------------------------------------------------------------------------
// What is shown at the end
// ---------------------------------------------------------------------------

/// The line of a plan in the summary.
pub open spec fn summary_line(r: ResultSpec) -> Seq<char> {
    r.plan + ": "@ + if r.passed {
        "PASSED"@
    } else {
        "FAILED"@
    }
}

/// The line that tells where the logs of a failed plan are.
pub open spec fn failure_line(r: ResultSpec) -> Seq<char> {
    match r.run_id {
        Some(id) => "  "@ + r.plan + ": tmt run -i "@ + id + " report -vvv"@,
        None => "  "@ + r.plan + ": run ID unavailable; see the TMT log directory above"@,
    }
}

/// The lines of the summary.
pub open spec fn summary(results: Seq<ResultSpec>) -> Seq<Seq<char>> {
    Seq::new(results.len(), |i: int| summary_line(results[i]))
}

/// The lines of the plans that failed.
pub open spec fn failures(results: Seq<ResultSpec>) -> Seq<Seq<char>>
    decreases results.len(),
{
    if results.len() == 0 {
        seq![]
    } else {
        let before = failures(results.drop_last());
        if results.last().passed {
            before
        } else {
            before.push(failure_line(results.last()))
        }
    }
}

/// The lines of the summary.
pub fn summary_lines(results: &Vec<PlanResult>) -> (r: Vec<String>)
    ensures
        texts(r@) == summary(result_specs(results@)),
{
    let mut out = no_texts();
    let mut i: usize = 0;
    let ghost all = summary(result_specs(results@));
    assert(all.take(0) =~= seq![]);
    while i < results.len()
        invariant
            i <= results@.len(),
            all == summary(result_specs(results@)),
            texts(out@) == all.take(i as int),
        decreases results@.len() - i,
    {
        let status = if results[i].passed {
            "PASSED"
        } else {
            "FAILED"
        };
        let line = concat3(results[i].plan.as_str(), ": ", status);
        assert(result_specs(results@)[i as int] == results@[i as int]@);
        push_text(&mut out, line.as_str());
        assert(all.take(i + 1) =~= all.take(i as int).push(line@));
        i = i + 1;
    }
    assert(all.take(i as int) =~= all);
    out
}

/// The lines of the plans that failed: how to see the report of their run, where they came
/// to one.
pub fn failure_lines(results: &Vec<PlanResult>) -> (r: Vec<String>)
    ensures
        texts(r@) == failures(result_specs(results@)),
{
    let mut out = no_texts();
    let mut i: usize = 0;
    let ghost all = result_specs(results@);
    assert(all.take(0) =~= seq![]);
    while i < results.len()
        invariant
            i <= results@.len(),
            all == result_specs(results@),
            texts(out@) == failures(all.take(i as int)),
        decreases results@.len() - i,
    {
        let r = &results[i];
        assert(all.take(i + 1).drop_last() =~= all.take(i as int));
        assert(all.take(i + 1).last() == r@);
        if !r.passed {
            let line = match &r.run_id {
                Some(id) => {
                    let head = concat3("  ", r.plan.as_str(), ": tmt run -i ");
                    concat3(head.as_str(), id.as_str(), " report -vvv")
                },
                None => concat3(
                    "  ",
                    r.plan.as_str(),
                    ": run ID unavailable; see the TMT log directory above",
                ),
            };
            push_text(&mut out, line.as_str());
        }
        i = i + 1;
    }
    assert(all.take(i as int) =~= all);
    out
}

/// No line tells of a failure exactly if every plan passed.
pub proof fn law_no_failures_iff_all_passed(results: Seq<ResultSpec>)
    ensures
        failures(results).len() == 0 <==> forall|i: int|
            0 <= i < results.len() ==> (#[trigger] results[i]).passed,
    decreases results.len(),
{
    if results.len() > 0 {
        law_no_failures_iff_all_passed(results.drop_last());
        let before = results.drop_last();
        assert(forall|i: int| 0 <= i < before.len() ==> before[i] == results[i]);
        if failures(results).len() == 0 {
            assert forall|i: int| 0 <= i < results.len() implies (#[trigger] results[i]).passed by {
                if i < before.len() {
                    assert(before[i].passed);
                }
            }
        }
    }
}

// ---------------------------------------------------------------------------
// Laws of the stages
// ---------------------------------------------------------------------------

/// What succeeds is followed by the next stage, in this order: the logs, the launch, the wait, the
/// four steps of the key, the connection, the second disk where the plan has one, and the tests.
pub proof fn law_stages_in_order(s: RunState)
    requires
        !s.finished(),
    ensures
        s.stage == Stage::LogDir ==> s.after(true).0.stage == Stage::Launch,
        s.stage == Stage::Launch ==> s.after(true).0.stage == Stage::Ready,
        s.stage == Stage::Ready ==> s.after(true).0.stage == Stage::KeyFile,
        s.stage == Stage::KeyFile ==> s.after(true).0.stage == Stage::KeyPath,
        s.stage == Stage::KeyPath ==> s.after(true).0.stage == Stage::KeyWrite,
        s.stage == Stage::KeyWrite ==> s.after(true).0.stage == Stage::KeyMode,
        s.stage == Stage::KeyMode ==> s.after(true).0.stage == Stage::Ssh,
        s.stage == Stage::Ssh && s.test().fresh_install_disk ==> s.after(true).0.stage
            == Stage::Disk,
        s.stage == Stage::Ssh && !s.test().fresh_install_disk ==> s.after(true).0.stage
            == Stage::Tmt,
        s.stage == Stage::Disk ==> s.after(true).0.stage == Stage::Tmt,
        s.stage != Stage::Tmt ==> s.after(true).1 == Step::Next && s.after(true).0 == (RunState {
            stage: s.after(true).0.stage,
            ..s
        }),
{
}

/// A plan whose tests ran has its result from them, under the name of its machine; one that fails
/// between the launch and its tests has failed, alone: the next plan has its turn, from its first
/// stage on. Logs or a disk that cannot be made end the run without a result.
pub proof fn law_ends_of_a_plan(s: RunState, ok: bool)
    requires
        !s.finished(),
        s.results.len() == s.current,
    ensures
        s.stage == Stage::Tmt ==> {
            let next = s.after(ok).0;
            &&& next.current == s.current + 1
            &&& next.aborted is None
            &&& next.results == s.results.push(
                ResultSpec { plan: s.test().plan, passed: ok, run_id: Some(s.test().vm_name) },
            )
            &&& next.all_passed == (s.all_passed && ok)
            &&& next.stage == if s.has_log_dir {
                Stage::LogDir
            } else {
                Stage::Launch
            }
        },
        s.stage == Stage::Ready || s.stage == Stage::KeyFile || s.stage == Stage::KeyPath || s.stage
            == Stage::KeyWrite || s.stage == Stage::KeyMode || s.stage == Stage::Ssh ==> {
            let next = s.after(false).0;
            &&& next.current == s.current + 1
            &&& next.aborted is None
            &&& next.results == s.results.push(
                ResultSpec { plan: s.test().plan, passed: false, run_id: None },
            )
            &&& !next.all_passed
            &&& next.stage == if s.has_log_dir {
                Stage::LogDir
            } else {
                Stage::Launch
            }
            &&& s.after(false).1 is PlanDone
        },
        s.stage == Stage::LogDir ==> s.after(false).0.aborted == Some(Abort::LogDir) && s.after(
            false,
        ).0.results == s.results,
        s.stage == Stage::Disk ==> s.after(false).0.aborted == Some(Abort::Disk) && s.after(
            false,
        ).0.results == s.results,
        s.stage == Stage::Launch ==> s.after(false).0.aborted == Some(Abort::Launch),
        s.stage == Stage::Tmt ==> s.after(ok).1 == (Step::PlanDone {
            remove_vm: !s.preserve_vm && !s.test().fresh_install_disk,
        }),
{
}

/// Every plan is run in its place, on a machine of its own name, with a second disk exactly if the
/// table says so.
pub proof fn law_plans_are_planned(plans: Seq<Seq<char>>, suffix: Seq<char>, table: Seq<PlanEntry>)
    ensures
        planned(plans, suffix, table).len() == plans.len(),
        forall|i: int|
            0 <= i < plans.len() ==> {
                let t = #[trigger] planned(plans, suffix, table)[i];
                &&& t.plan == plans[i]
                &&& t.vm_name == vm_name(suffix, plans[i])
                &&& t.fresh_install_disk == plan_of(table, plans[i]).fresh_install_disk
            },
{
}

/// The summary has a line for each result, in its place, that says whether the plan passed; each plan
/// that failed has another, in order, by which its report is found if it came to tests.
pub proof fn law_results_are_shown(results: Seq<ResultSpec>, r: ResultSpec, id: Seq<char>)
    ensures
        summary(results).len() == results.len(),
        forall|i: int|
            0 <= i < results.len() ==> #[trigger] summary(results)[i] == results[i].plan + if (
            results[i].passed) {
                ": PASSED"@
            } else {
                ": FAILED"@
            },
        r.passed ==> failures(results.push(r)) == failures(results),
        !r.passed && r.run_id == Some(id) ==> failures(results.push(r)) == failures(results).push(
            "  "@ + r.plan + ": tmt run -i "@ + id + " report -vvv"@,
        ),
        !r.passed && r.run_id is None ==> failures(results.push(r)) == failures(results).push(
            "  "@ + r.plan + ": run ID unavailable; see the TMT log directory above"@,
        ),
        failures(seq![]) == Seq::<Seq<char>>::empty(),
{
    reveal_strlit(": ");
    reveal_strlit("PASSED");
    reveal_strlit("FAILED");
    reveal_strlit(": PASSED");
    reveal_strlit(": FAILED");
    assert forall|i: int| 0 <= i < results.len() implies #[trigger] summary(results)[i]
        == results[i].plan + if (results[i].passed) {
        ": PASSED"@
    } else {
        ": FAILED"@
    } by {
        let p = results[i].plan;
        assert(p + ": "@ + "PASSED"@ =~= p + ": PASSED"@);
        assert(p + ": "@ + "FAILED"@ =~= p + ": FAILED"@);
    }
    assert(results.push(r).drop_last() =~= results);
    assert(results.push(r).last() == r);
}

/// A run begins with its first plan, at its first stage, without results; it is over when every plan had
/// its turn, or when it was aborted.
pub proof fn law_run_begins(plans: Seq<TestSpec>, preserve_vm: bool, has_log_dir: bool, s: RunState)
    ensures
        ({
            let start = run_start(plans, preserve_vm, has_log_dir);
            &&& start.plans == plans && start.current == 0 && start.results.len() == 0
            &&& start.all_passed && start.aborted is None
            &&& start.preserve_vm == preserve_vm && start.has_log_dir == has_log_dir
            &&& has_log_dir ==> start.stage == Stage::LogDir
            &&& !has_log_dir ==> start.stage == Stage::Launch
            &&& start.finished() <==> plans.len() == 0
        }),
        s.finished() <==> s.aborted is Some || s.current >= s.plans.len(),
{
}

/// A run has every plan that is listed and wanted, in the order of the listing, and no other; it is
/// refused where one of them needs a connection that is not given, and there is nothing to run exactly if
/// none is wanted.
pub proof fn law_what_there_is_to_run(
    listing: &str,
    selection: &Selection,
    table: &Vec<PlanEntry>,
    given: bool,
    suffix: &str,
    r: RunPlan,
    i: int,
)
    requires
        call_ensures(plan_run, (listing, selection, table, given, suffix), r),
        0 <= i < listed_plans(listing@).len(),
        selection.wants(table@, listed_plans(listing@)[i]),
    ensures
        !(r is NoPlans),
        !given && plan_of(table@, listed_plans(listing@)[i]).fresh_install_disk ==> r is MissingConnection,
        given ==> r is Tests,
        r matches RunPlan::Tests(tests) ==> {
            &&& exists|k: int| 0 <= k < tests@.len() && (#[trigger] tests@[k]).plan@ == listed_plans(
                listing@,
            )[i]
            &&& forall|k: int|
                0 <= k < tests@.len() ==> selection.wants(table@, (#[trigger] tests@[k]).plan@)
                    && tests@[k].vm_name@ == vm_name(suffix@, tests@[k].plan@)
        },
{
    let all = listed_plans(listing@);
    let pred = |plan: Seq<char>| selection.wants(table@, plan);
    let plans = all.filter(pred);
    all.filter_lemma(pred);
    all.lemma_filter_contains(pred, i);
    let at = choose|at: int| 0 <= at < plans.len() && plans[at] == all[i];
    if plan_of(table@, all[i]).fresh_install_disk {
        assert(plan_of(table@, plans[at]).fresh_install_disk);
    }
    if r is Tests {
        let tests = r->Tests_0;
        assert(test_specs(tests@).len() == tests@.len());
        assert(test_specs(tests@)[at] == tests@[at]@);
        assert forall|k: int| 0 <= k < tests@.len() implies selection.wants(
            table@,
            (#[trigger] tests@[k]).plan@,
        ) && tests@[k].vm_name@ == vm_name(suffix@, tests@[k].plan@) by {
            assert(test_specs(tests@)[k] == tests@[k]@);
            assert(pred(plans[k]));
        }
    }
}

} // verus!
