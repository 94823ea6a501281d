//! Deciding what to do with each test and what its outcome is.
//!
//! Building and running a sample is left to the caller: a `Session` says
//! which action the next test needs, and is told whether the build tool
//! succeeded.
use vstd::prelude::*;
use crate::extract::{Test, TestView};
use crate::clean::strings_view;
use crate::text::{chars_of, push_all, string_of};

verus! {

/// The outcome of one test.
#[derive(Clone, Copy, Debug, PartialEq, Eq, Structural)]
pub enum TestStatus {
    Ignored,
    Passed,
    Failed,
}

/// What has to be done to decide a test.
#[derive(Clone, Copy, Debug, PartialEq, Eq, Structural)]
pub enum Action {
    /// Nothing: the test is ignored.
    Skip,
    /// Write the sample and check that it compiles.
    Check,
    /// Write the sample, build it and run it.
    Run,
}

pub open spec fn planned_action(t: TestView) -> Action {
    if t.ignore {
        Action::Skip
    } else if t.no_run {
        Action::Check
    } else {
        Action::Run
    }
}

/// The outcome of a test, given whether the build tool succeeded in the
/// planned action (ignored when the action is `Skip`).
pub open spec fn outcome(t: TestView, tool_succeeded: bool) -> TestStatus {
    if t.ignore {
        TestStatus::Ignored
    } else if t.no_run {
        if tool_succeeded { TestStatus::Passed } else { TestStatus::Failed }
    } else if t.should_panic {
        if tool_succeeded { TestStatus::Failed } else { TestStatus::Passed }
    } else {
        if tool_succeeded { TestStatus::Passed } else { TestStatus::Failed }
    }
}

/// The action that decides `test`.
pub fn action_for(test: &Test) -> (r: Action)
    ensures
        r == planned_action(test@),
{
    if test.ignore {
        Action::Skip
    } else if test.no_run {
        Action::Check
    } else {
        Action::Run
    }
}

/// The outcome of `test` once the build tool has reported whether it
/// succeeded.
pub fn status_after(test: &Test, tool_succeeded: bool) -> (r: TestStatus)
    ensures
        r == outcome(test@, tool_succeeded),
{
    if test.ignore {
        TestStatus::Ignored
    } else if test.no_run {
        if tool_succeeded { TestStatus::Passed } else { TestStatus::Failed }
    } else if test.should_panic {
        if tool_succeeded { TestStatus::Failed } else { TestStatus::Passed }
    } else {
        if tool_succeeded { TestStatus::Passed } else { TestStatus::Failed }
    }
}

/// An ignored test is never built, and is ignored whatever its sample does.
pub proof fn lemma_ignored_is_ignored(t: TestView, tool_succeeded: bool)
    requires
        t.ignore,
    ensures
        planned_action(t) == Action::Skip,
        outcome(t, tool_succeeded) == TestStatus::Ignored,
{
}

/// A `no_run` test is only compiled, never run: it passes exactly when it
/// compiles.
pub proof fn lemma_no_run_only_compiles(t: TestView, compiled: bool)
    requires
        t.no_run,
        !t.ignore,
    ensures
        planned_action(t) == Action::Check,
        outcome(t, compiled) == (if compiled { TestStatus::Passed } else { TestStatus::Failed }),
{
}

/// A `should_panic` test that is run passes exactly when its program fails.
pub proof fn lemma_should_panic_inverts(t: TestView, run_succeeded: bool)
    requires
        t.should_panic,
        !t.ignore,
        !t.no_run,
    ensures
        planned_action(t) == Action::Run,
        outcome(t, run_succeeded) == (if run_succeeded { TestStatus::Failed } else { TestStatus::Passed }),
{
}

/// The lines of a sample joined by line feeds.
pub open spec fn join_lines(lines: Seq<Seq<char>>) -> Seq<char>
    decreases lines.len(),
{
    if lines.len() == 0 {
        Seq::empty()
    } else if lines.len() == 1 {
        lines[0]
    } else {
        join_lines(lines.drop_last()) + seq!['\n'] + lines.last()
    }
}

impl Test {
    /// The program that is written for this test: its lines joined by line
    /// feeds.
    pub fn program(&self) -> (r: String)
        ensures
            r@ == join_lines(self@.text),
    {
        let mut out: Vec<char> = Vec::new();
        let ghost lines = self@.text;
        for i in 0..self.text.len()
            invariant
                lines == strings_view(self.text@),
                out@ == join_lines(lines.take(i as int)),
        {
            let ghost before = lines.take(i as int);
            assert(lines.take(i + 1).drop_last() == before);
            assert(lines.take(i + 1).last() == self.text@[i as int]@);
            if i > 0 {
                let nl = vec!['\n'];
                push_all(&mut out, &nl);
            } else {
                assert(before.len() == 0);
            }
            let line = chars_of(self.text[i].as_str());
            push_all(&mut out, &line);
        }
        assert(lines.take(self.text.len() as int) == lines);
        string_of(&out)
    }
}

/// How many of `results` are `s`.
pub open spec fn count_status(results: Seq<TestStatus>, s: TestStatus) -> nat
    decreases results.len(),
{
    if results.len() == 0 {
        0
    } else {
        count_status(results.drop_last(), s) + if results.last() == s { 1nat } else { 0nat }
    }
}

/// The counts of each outcome.
#[derive(Clone, Copy, Debug, PartialEq, Eq, Structural)]
pub struct Tally {
    pub passed: usize,
    pub failed: usize,
    pub ignored: usize,
}

/// Counts the outcomes of a run.
pub fn tally(results: &Vec<TestStatus>) -> (r: Tally)
    ensures
        r.passed == count_status(results@, TestStatus::Passed),
        r.failed == count_status(results@, TestStatus::Failed),
        r.ignored == count_status(results@, TestStatus::Ignored),
        r.passed + r.failed + r.ignored == results@.len(),
{
    let mut t = Tally { passed: 0, failed: 0, ignored: 0 };
    for i in 0..results.len()
        invariant
            t.passed == count_status(results@.take(i as int), TestStatus::Passed),
            t.failed == count_status(results@.take(i as int), TestStatus::Failed),
            t.ignored == count_status(results@.take(i as int), TestStatus::Ignored),
            t.passed + t.failed + t.ignored == i,
    {
        assert(results@.take(i + 1).drop_last() == results@.take(i as int));
        match results[i] {
            TestStatus::Passed => t.passed = t.passed + 1,
            TestStatus::Failed => t.failed = t.failed + 1,
            TestStatus::Ignored => t.ignored = t.ignored + 1,
        }
    }
    assert(results@.take(results.len() as int) == results@);
    t
}

/// A run over a list of tests, one at a time and in order. The caller asks
/// for the next action, performs it, and records whether the build tool
/// succeeded.
pub struct Session {
    tests: Vec<Test>,
    results: Vec<TestStatus>,
}

impl Session {
    pub closed spec fn tests(&self) -> Seq<TestView> {
        self.tests@.map_values(|t: Test| t@)
    }

    pub closed spec fn results(&self) -> Seq<TestStatus> {
        self.results@
    }

    pub open spec fn wf(&self) -> bool {
        self.results().len() <= self.tests().len()
    }

    pub open spec fn is_done(&self) -> bool {
        self.results().len() == self.tests().len()
    }

    /// Starts a run over `tests`, with no outcome yet.
    pub fn new(tests: Vec<Test>) -> (r: Session)
        ensures
            r.wf(),
            r.tests() == tests@.map_values(|t: Test| t@),
            r.results().len() == 0,
    {
        Session { tests, results: Vec::new() }
    }

    /// The test that is to be decided next, if any is left.
    pub fn current(&self) -> (r: Option<&Test>)
        requires
            self.wf(),
        ensures
            match r {
                Some(t) => !self.is_done() && t@ == self.tests()[self.results().len() as int],
                None => self.is_done(),
            },
    {
        let k = self.results.len();
        if k < self.tests.len() {
            Some(&self.tests[k])
        } else {
            None
        }
    }

    /// The action that the next test needs, or `None` when all are decided.
    pub fn next_action(&self) -> (r: Option<Action>)
        requires
            self.wf(),
        ensures
            match r {
                Some(a) => !self.is_done() && a == planned_action(
                    self.tests()[self.results().len() as int],
                ),
                None => self.is_done(),
            },
    {
        match self.current() {
            Some(t) => Some(action_for(t)),
            None => None,
        }
    }

    /// Records the outcome of the next test, given whether the build tool
    /// succeeded in its action.
    pub fn record(&mut self, tool_succeeded: bool)
        requires
            old(self).wf(),
            !old(self).is_done(),
        ensures
            final(self).wf(),
            final(self).tests() == old(self).tests(),
            final(self).results() == old(self).results().push(
                outcome(old(self).tests()[old(self).results().len() as int], tool_succeeded),
            ),
    {
        let k = self.results.len();
        let status = status_after(&self.tests[k], tool_succeeded);
        self.results.push(status);
    }

    /// The outcomes recorded so far, in the order of the tests.
    pub fn outcomes(&self) -> (r: &Vec<TestStatus>)
        ensures
            r@ == self.results(),
    {
        &self.results
    }
}

} // verus!
