//! Bookkeeping for an integration test run that is driven from outside:
//! the run is opened for a number of groups, each group reports its start
//! and its end, and the run is over once every group has ended.

use crate::offers::sweep::delete_all_offers;
use crate::ordered_map::{lemma_lower_bound, lower_bound, position, OrderedMap};
use crate::state::{OfferObj, Offers};
use crate::time::Timestamp;
use vstd::prelude::*;

verus! {

/// What is known of one group of a test run.
#[derive(Clone, Copy, Debug, PartialEq, Eq, Structural)]
pub struct IntegrationTestGroup {
    pub started_at: Option<Timestamp>,
    pub finished_at: Option<Timestamp>,
    pub success: Option<bool>,
}

/// A test run and its groups, by their names.
#[derive(Clone, Debug)]
pub struct IntegrationTest {
    pub started_at: Option<Timestamp>,
    pub finished_at: Option<Timestamp>,
    pub number_of_groups: usize,
    pub success: Option<bool>,
    pub groups: OrderedMap<IntegrationTestGroup>,
}

/// Opens a test run.
#[derive(Clone, Debug, PartialEq)]
pub struct TestInitializeArguments {
    pub number_of_groups: usize,
}

/// Reports the start of a group.
#[derive(Clone, Debug, PartialEq)]
pub struct TestStartArguments {
    pub group: String,
}

/// Reports the end of a group.
#[derive(Clone, Debug, PartialEq)]
pub struct TestFinishArguments {
    pub group: String,
    pub success: bool,
}

/// Why a report was turned down.
#[derive(Clone, Copy, Debug, PartialEq, Eq, Structural)]
pub enum TestError {
    /// The group has reported its start already.
    AlreadyInProgress,
    /// More groups have reported than the run was opened for.
    GroupsExceeded,
    /// The run is over.
    AlreadyFinished,
    /// The group has not reported its start.
    NotStarted,
    /// The group has reported its end already.
    GroupAlreadyFinished,
}

/// A test run as the contracts see it: the names of its groups,
/// ascending, and what is known of each.
pub struct TestView {
    pub started_at: Option<Timestamp>,
    pub finished_at: Option<Timestamp>,
    pub number_of_groups: usize,
    pub success: Option<bool>,
    pub names: Seq<Seq<char>>,
    pub groups: Seq<IntegrationTestGroup>,
}

impl View for IntegrationTest {
    type V = TestView;

    open spec fn view(&self) -> TestView {
        TestView {
            started_at: self.started_at,
            finished_at: self.finished_at,
            number_of_groups: self.number_of_groups,
            success: self.success,
            names: self.groups.keys(),
            groups: self.groups.values(),
        }
    }
}

/// A group of which nothing is known yet.
pub open spec fn blank_group() -> IntegrationTestGroup {
    IntegrationTestGroup { started_at: None, finished_at: None, success: None }
}

/// Every group has reported its end.
pub open spec fn all_finished(groups: Seq<IntegrationTestGroup>) -> bool {
    forall|i: int| 0 <= i < groups.len() ==> (#[trigger] groups[i]).finished_at is Some
}

/// The run after it is opened for `n` groups at `now`: started, not over,
/// and without groups.
pub open spec fn initialized(t: TestView, n: usize, now: Timestamp) -> TestView {
    TestView {
        started_at: Some(now),
        finished_at: None,
        number_of_groups: n,
        names: Seq::empty(),
        groups: Seq::empty(),
        ..t
    }
}

/// How the report of a group's start ends.
pub open spec fn start_result(t: TestView, group: Seq<char>) -> Result<(), TestError> {
    match position(t.names, group) {
        Some(i) => if t.groups[i].started_at is Some {
            Err(TestError::AlreadyInProgress)
        } else if t.names.len() > t.number_of_groups {
            Err(TestError::GroupsExceeded)
        } else {
            Ok(())
        },
        None => if t.names.len() + 1 > t.number_of_groups {
            Err(TestError::GroupsExceeded)
        } else {
            Ok(())
        },
    }
}

/// The run after a group has reported its start at `now`. A group that is
/// new to the run joins it, even where that is one group too many. A group
/// that had started before stays as it is.
pub open spec fn started(t: TestView, group: Seq<char>, now: Timestamp) -> TestView {
    match position(t.names, group) {
        Some(i) => if t.groups[i].started_at is Some {
            t
        } else {
            TestView {
                groups: t.groups.update(
                    i,
                    IntegrationTestGroup { started_at: Some(now), finished_at: None, ..t.groups[i] },
                ),
                ..t
            }
        },
        None => {
            let p = lower_bound(t.names, group);
            TestView {
                names: t.names.insert(p, group),
                groups: t.groups.insert(
                    p,
                    IntegrationTestGroup { started_at: Some(now), ..blank_group() },
                ),
                ..t
            }
        },
    }
}

/// How the report of a group's end ends.
pub open spec fn finish_result(t: TestView, group: Seq<char>) -> Result<(), TestError> {
    if t.finished_at is Some {
        Err(TestError::AlreadyFinished)
    } else {
        match position(t.names, group) {
            None => Err(TestError::NotStarted),
            Some(i) => if t.groups[i].started_at is None {
                Err(TestError::NotStarted)
            } else if t.groups[i].finished_at is Some {
                Err(TestError::GroupAlreadyFinished)
            } else if t.names.len() > t.number_of_groups {
                Err(TestError::GroupsExceeded)
            } else {
                Ok(())
            },
        }
    }
}

/// The run after a group has reported its end at `now`. The end of a
/// group that is running is recorded, even where the run has too many
/// groups. Where the run has exactly the groups it was opened for and all
/// of them have ended, the run is over.
pub open spec fn finished(t: TestView, group: Seq<char>, success: bool, now: Timestamp) -> TestView {
    match finish_result(t, group) {
        Err(TestError::GroupsExceeded) | Ok(_) => {
            let i = position(t.names, group).unwrap();
            let groups = t.groups.update(
                i,
                IntegrationTestGroup {
                    finished_at: Some(now),
                    success: Some(success),
                    ..t.groups[i]
                },
            );
            if t.names.len() == t.number_of_groups && all_finished(groups) {
                TestView { groups, finished_at: Some(now), ..t }
            } else {
                TestView { groups, ..t }
            }
        },
        Err(_) => t,
    }
}

impl Default for IntegrationTestGroup {
    fn default() -> (r: IntegrationTestGroup)
        ensures
            r == blank_group(),
    {
        IntegrationTestGroup { started_at: None, finished_at: None, success: None }
    }
}

impl Default for IntegrationTest {
    fn default() -> (r: IntegrationTest)
        ensures
            r.wf(),
            r@.names == Seq::<Seq<char>>::empty(),
            r@.started_at is None,
            r@.finished_at is None,
            r@.number_of_groups == 0,
            r@.success is None,
    {
        IntegrationTest::new()
    }
}

impl IntegrationTest {
    /// The names of the groups are ascending.
    pub open spec fn wf(&self) -> bool {
        self.groups.wf()
    }

    /// A run that was never opened.
    pub fn new() -> (r: IntegrationTest)
        ensures
            r.wf(),
            r@ == (TestView {
                started_at: None,
                finished_at: None,
                number_of_groups: 0,
                success: None,
                names: Seq::empty(),
                groups: Seq::empty(),
            }),
    {
        IntegrationTest {
            started_at: None,
            finished_at: None,
            number_of_groups: 0,
            success: None,
            groups: OrderedMap::new(),
        }
    }
}

/// Opens a test run for the given number of groups and empties the store
/// of offers.
pub fn test_initialize(
    test: &mut IntegrationTest,
    offers: &mut Offers,
    args: &TestInitializeArguments,
    now: Timestamp,
)
    ensures
        final(test).wf(),
        final(test)@ == initialized(old(test)@, args.number_of_groups, now),
        final(offers).wf(),
        final(offers)@ == Seq::<OfferObj>::empty(),
{
    test.started_at = Some(now);
    test.finished_at = None;
    test.number_of_groups = args.number_of_groups;
    test.groups.clear();
    delete_all_offers(offers);
}

/// Records the start of a group.
pub fn test_start(test: &mut IntegrationTest, args: &TestStartArguments, now: Timestamp) -> (r:
    Result<(), TestError>)
    requires
        old(test).wf(),
    ensures
        final(test).wf(),
        final(test)@ == started(old(test)@, args.group@, now),
        r == start_result(old(test)@, args.group@),
{
    match test.groups.find(args.group.as_str()) {
        Some(i) => {
            let known = *test.groups.value_at(i);
            if known.started_at.is_some() {
                return Err(TestError::AlreadyInProgress);
            }
            let entry = test.groups.value_at_mut(i);
            entry.started_at = Some(now);
            entry.finished_at = None;
        },
        None => {
            let _ = test.groups.insert(
                args.group.clone(),
                IntegrationTestGroup { started_at: Some(now), finished_at: None, success: None },
            );
        },
    }
    proof {
        lemma_lower_bound(old(test)@.names, args.group@);
        let after = started(old(test)@, args.group@, now);
        assert(test@.names =~= after.names);
        assert(test@.groups =~= after.groups);
    }
    if test.groups.len() > test.number_of_groups {
        return Err(TestError::GroupsExceeded);
    }
    Ok(())
}

/// Records the end of a group, and the end of the run where this was its
/// last group.
pub fn test_finish(test: &mut IntegrationTest, args: &TestFinishArguments, now: Timestamp) -> (r:
    Result<(), TestError>)
    requires
        old(test).wf(),
    ensures
        final(test).wf(),
        final(test)@ == finished(old(test)@, args.group@, args.success, now),
        r == finish_result(old(test)@, args.group@),
{
    if test.finished_at.is_some() {
        return Err(TestError::AlreadyFinished);
    }
    let i = match test.groups.find(args.group.as_str()) {
        Some(i) => i,
        None => {
            return Err(TestError::NotStarted);
        },
    };
    let known = *test.groups.value_at(i);
    if known.started_at.is_none() {
        return Err(TestError::NotStarted);
    }
    if known.finished_at.is_some() {
        return Err(TestError::GroupAlreadyFinished);
    }
    let entry = test.groups.value_at_mut(i);
    entry.finished_at = Some(now);
    entry.success = Some(args.success);
    proof {
        let recorded = old(test)@.groups.update(
            i as int,
            IntegrationTestGroup {
                finished_at: Some(now),
                success: Some(args.success),
                ..old(test)@.groups[i as int]
            },
        );
        assert(test@.names =~= old(test)@.names);
        assert(test@.groups =~= recorded);
    }
    let n = test.groups.len();
    if n > test.number_of_groups {
        return Err(TestError::GroupsExceeded);
    }
    if n == test.number_of_groups {
        let mut k: usize = 0;
        while k < n && test.groups.value_at(k).finished_at.is_some()
            invariant
                n == test.groups.values().len(),
                k <= n,
                forall|j: int|
                    0 <= j < k ==> (#[trigger] test.groups.values()[j]).finished_at is Some,
            decreases n - k,
        {
            k += 1;
        }
        if k == n {
            test.finished_at = Some(now);
        }
    }
    Ok(())
}

} // verus!
