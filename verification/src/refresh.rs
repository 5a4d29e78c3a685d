//! Refreshing the cached list of pools from the exchange's service.

use vstd::prelude::*;
use vstd::string::StringExecFns;

verus! {

/// Where the list is cached.
pub const ORCA_CACHE_FILE: &'static str = "src/markets/cache/orca-markets.json";

/// Where the list comes from.
pub const ORCA_API_URL: &'static str = "https://api.orca.so/allPools";

/// How long the service may take to answer, in seconds.
pub const REQUEST_TIMEOUT_SECS: u64 = 30;

/// What is to be done next.
#[derive(Clone, Copy, Debug, PartialEq, Eq, Structural)]
pub enum RefreshStep {
    /// Ask the service for the list.
    Request,
    /// Read the answer.
    ReadBody,
    /// Read the list out of the answer.
    ParseBody,
    /// See to it that the directory of the cache exists.
    CreateDirectory,
    /// Create the temporary file.
    CreateTemporary,
    /// Write the list as text.
    Serialize,
    /// Put the text into the temporary file.
    WriteTemporary,
    /// Let the temporary file take the place of the cache.
    Replace,
    /// Nothing: the cache holds the new list.
    Done,
}

/// How a step ended.
#[derive(Clone, Copy, Debug, PartialEq, Eq, Structural)]
pub enum RefreshEvent {
    /// The service answered with this status.
    Responded { status: u16 },
    /// The service did not answer in time.
    TimedOut,
    /// The step was done.
    Succeeded,
    /// The step could not be done.
    Failed,
}

/// Why a refresh was given up.
#[derive(Clone, Copy, Debug, PartialEq, Eq, Structural)]
pub enum RefreshError {
    /// The service did not answer in time.
    TimedOut,
    /// The service answered with a status that means no success.
    Status(u16),
    /// This step failed.
    Step(RefreshStep),
}

/// A status means success when it lies in the two hundreds.
pub open spec fn is_success(status: u16) -> bool {
    200 <= status < 300
}

/// The step can end in this way.
pub open spec fn can_end(step: RefreshStep, event: RefreshEvent) -> bool {
    match step {
        RefreshStep::Request => event is Responded || event is TimedOut || event is Failed,
        RefreshStep::Done => false,
        _ => event is Succeeded || event is Failed,
    }
}

/// The step that follows one that was done.
pub open spec fn following(step: RefreshStep) -> RefreshStep {
    match step {
        RefreshStep::Request => RefreshStep::ReadBody,
        RefreshStep::ReadBody => RefreshStep::ParseBody,
        RefreshStep::ParseBody => RefreshStep::CreateDirectory,
        RefreshStep::CreateDirectory => RefreshStep::CreateTemporary,
        RefreshStep::CreateTemporary => RefreshStep::Serialize,
        RefreshStep::Serialize => RefreshStep::WriteTemporary,
        RefreshStep::WriteTemporary => RefreshStep::Replace,
        _ => RefreshStep::Done,
    }
}

/// What comes after a step that ended in some way.
pub open spec fn after_step(
    step: RefreshStep,
    event: RefreshEvent,
) -> Result<RefreshStep, RefreshError> {
    match event {
        RefreshEvent::Responded { status } => if is_success(status) {
            Ok(following(step))
        } else {
            Err(RefreshError::Status(status))
        },
        RefreshEvent::TimedOut => Err(RefreshError::TimedOut),
        RefreshEvent::Succeeded => Ok(following(step)),
        RefreshEvent::Failed => Err(RefreshError::Step(step)),
    }
}

/// Decides what comes after a step of a refresh.
pub fn refresh_step(step: RefreshStep, event: RefreshEvent) -> (r: Result<
    RefreshStep,
    RefreshError,
>)
    requires
        can_end(step, event),
    ensures
        r == after_step(step, event),
{
    match event {
        RefreshEvent::Responded { status } => if 200 <= status && status < 300 {
            Ok(RefreshStep::ReadBody)
        } else {
            Err(RefreshError::Status(status))
        },
        RefreshEvent::TimedOut => Err(RefreshError::TimedOut),
        RefreshEvent::Failed => Err(RefreshError::Step(step)),
        RefreshEvent::Succeeded => match step {
            RefreshStep::Request => Ok(RefreshStep::ReadBody),
            RefreshStep::ReadBody => Ok(RefreshStep::ParseBody),
            RefreshStep::ParseBody => Ok(RefreshStep::CreateDirectory),
            RefreshStep::CreateDirectory => Ok(RefreshStep::CreateTemporary),
            RefreshStep::CreateTemporary => Ok(RefreshStep::Serialize),
            RefreshStep::Serialize => Ok(RefreshStep::WriteTemporary),
            RefreshStep::WriteTemporary => Ok(RefreshStep::Replace),
            RefreshStep::Replace => Ok(RefreshStep::Done),
            RefreshStep::Done => Ok(RefreshStep::Done),
        },
    }
}

/// The name of the temporary file that takes the place of the cache.
pub fn temporary_cache_file() -> (name: String)
    ensures
        name@ == ORCA_CACHE_FILE@ + ".tmp"@,
{
    let mut name = ORCA_CACHE_FILE.to_owned();
    name.append(".tmp");
    name
}

/// Where a refresh stands after its steps ended in some ways, from the start.
pub open spec fn after_all(events: Seq<RefreshEvent>) -> Result<RefreshStep, RefreshError>
    decreases events.len(),
{
    if events.len() == 0 {
        Ok(RefreshStep::Request)
    } else {
        match after_all(events.drop_last()) {
            Ok(step) => after_step(step, events.last()),
            Err(error) => Err(error),
        }
    }
}

/// The refresh had not ended before the event at a position, and its step can end so.
pub open spec fn is_due(events: Seq<RefreshEvent>, at: int) -> bool {
    after_all(events.take(at)) matches Ok(step) && can_end(step, events[at])
}

/// Each step of a refresh ended in a way in which it can end.
pub open spec fn is_run(events: Seq<RefreshEvent>) -> bool {
    forall|at: int| 0 <= at < events.len() ==> #[trigger] is_due(events, at)
}

/// How many steps come before this one.
pub open spec fn position(step: RefreshStep) -> nat {
    match step {
        RefreshStep::Request => 0,
        RefreshStep::ReadBody => 1,
        RefreshStep::ParseBody => 2,
        RefreshStep::CreateDirectory => 3,
        RefreshStep::CreateTemporary => 4,
        RefreshStep::Serialize => 5,
        RefreshStep::WriteTemporary => 6,
        RefreshStep::Replace => 7,
        RefreshStep::Done => 8,
    }
}

/// A step is reached only when every step before it was done: the service answered with
/// success, and nothing failed. So the cache is replaced only by a complete new list.
pub proof fn law_steps_come_in_order(events: Seq<RefreshEvent>)
    requires
        is_run(events),
        after_all(events) is Ok,
    ensures
        events.len() == position(after_all(events)->Ok_0),
        events.len() > 0 ==> (events[0] matches RefreshEvent::Responded { status } && is_success(
            status,
        )),
        forall|i: int| 0 < i < events.len() ==> #[trigger] events[i] is Succeeded,
    decreases events.len(),
{
    if events.len() > 0 {
        let rest = events.drop_last();
        let last = events.len() - 1;
        assert(is_run(rest)) by {
            assert forall|at: int| 0 <= at < rest.len() implies #[trigger] is_due(rest, at) by {
                assert(is_due(events, at));
                assert(rest.take(at) =~= events.take(at));
            }
        }
        law_steps_come_in_order(rest);
        assert(is_due(events, last));
        assert(events.take(last) =~= rest);
        assert forall|i: int| 0 < i < events.len() implies #[trigger] events[i] is Succeeded by {
            if i < last {
                assert(rest[i] == events[i]);
            }
        }
        if last > 0 {
            assert(rest[0] == events[0]);
        }
    }
}

/// The steps of a refresh in their order.
pub open spec fn steps_in_order() -> Seq<RefreshStep> {
    seq![
        RefreshStep::Request,
        RefreshStep::ReadBody,
        RefreshStep::ParseBody,
        RefreshStep::CreateDirectory,
        RefreshStep::CreateTemporary,
        RefreshStep::Serialize,
        RefreshStep::WriteTemporary,
        RefreshStep::Replace,
        RefreshStep::Done,
    ]
}

/// The first steps were done: the service answered with a status in the two hundreds, and what
/// followed succeeded.
pub open spec fn all_done(events: Seq<RefreshEvent>) -> bool {
    forall|i: int|
        0 <= i < events.len() ==> match #[trigger] events[i] {
            RefreshEvent::Responded { status } => i == 0 && 200 <= status <= 299,
            RefreshEvent::Succeeded => i > 0,
            _ => false,
        }
}

/// As long as all goes well the steps come one after the other, to the end. The first thing
/// that goes wrong gives the refresh up, and the error tells what it was: which step failed,
/// which status came, or that no answer came in time.
pub proof fn law_a_refresh_goes_on_until_something_fails(
    events: Seq<RefreshEvent>,
    wrong: RefreshEvent,
)
    requires
        events.len() <= 8,
        all_done(events),
    ensures
        after_all(events) == Ok::<RefreshStep, RefreshError>(steps_in_order()[events.len() as int]),
        events.len() < 8 && wrong is Failed ==> after_all(events.push(wrong)) == Err::<
            RefreshStep,
            RefreshError,
        >(RefreshError::Step(steps_in_order()[events.len() as int])),
        events.len() == 0 && wrong is TimedOut ==> after_all(events.push(wrong)) == Err::<
            RefreshStep,
            RefreshError,
        >(RefreshError::TimedOut),
        wrong matches RefreshEvent::Responded { status } ==> events.len() == 0 && (status < 200
            || status > 299) ==> after_all(events.push(wrong)) == Err::<RefreshStep, RefreshError>(
            RefreshError::Status(status),
        ),
    decreases events.len(),
{
    if events.len() > 0 {
        let rest = events.drop_last();
        assert(all_done(rest)) by {
            assert(forall|i: int| 0 <= i < rest.len() ==> rest[i] == #[trigger] events[i]);
        }
        law_a_refresh_goes_on_until_something_fails(rest, wrong);
        assert(events[events.len() - 1] == events.last());
    }
    assert(events.push(wrong).drop_last() =~= events);
}

/// Asking the service ends with an answer, with none in time, or with a failure; any other step
/// is done or fails; and nothing comes after the end.
pub proof fn law_how_steps_end(step: RefreshStep, event: RefreshEvent)
    ensures
        can_end(step, event) <==> {
            ||| step == RefreshStep::Request && event != RefreshEvent::Succeeded
            ||| step != RefreshStep::Request && step != RefreshStep::Done && (event
                == RefreshEvent::Succeeded || event == RefreshEvent::Failed)
        },
{
}

/// The list comes from one place and goes to another, and half a minute is given to the answer.
pub proof fn law_where_the_list_comes_from()
    ensures
        ORCA_API_URL@ == "https://api.orca.so/allPools"@,
        ORCA_CACHE_FILE@ == "src/markets/cache/orca-markets.json"@,
        REQUEST_TIMEOUT_SECS == 30,
{
}

} // verus!
