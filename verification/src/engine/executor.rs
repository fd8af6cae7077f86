//! What drives a run: the rows of data handed out to the users, the pacing
//! of a thread group, and the lifecycle from start to summary.

use vstd::prelude::*;
use vstd::string::StringExecFns;
use uuid::Uuid;
use crate::engine::aggregator::{
    max_of, min_of, percentile_of, requests_in, shown_min, sum_of, StreamingAggregator,
};
use crate::engine::EngineStatus;
use crate::error::RmeterError;
use crate::http::client::{ClientSettings, HttpClientBuilder};
use crate::plan::model::{CsvDataSource, HttpRequest, TestPlan, ThreadGroup, Variable};
use crate::results::{RequestResultEvent, TestSummary};
use crate::string_map::StringMap;

verus! {

/// One source of rows with the counter that says which row is next.
pub struct CsvSource {
    columns: Vec<String>,
    rows: Vec<Vec<String>>,
    counter: usize,
    recycle: bool,
}

/// A source of rows as the contracts read it.
pub struct SourceModel {
    pub columns: Seq<Seq<char>>,
    pub rows: Seq<Seq<Seq<char>>>,
    pub counter: usize,
    pub recycle: bool,
}

impl View for CsvSource {
    type V = SourceModel;

    closed spec fn view(&self) -> SourceModel {
        SourceModel {
            columns: self.columns.deep_view(),
            rows: self.rows.deep_view(),
            counter: self.counter,
            recycle: self.recycle,
        }
    }
}

/// The rows of all data sources of a plan, each with its counter.
pub struct CsvDataSet {
    sources: Vec<CsvSource>,
}

impl View for CsvDataSet {
    type V = Seq<SourceModel>;

    closed spec fn view(&self) -> Seq<SourceModel> {
        self.sources@.map_values(|s: CsvSource| s@)
    }
}

/// The row that a source hands out when its counter stands at `counter`:
/// the counter modulo the number of rows where the source recycles, the
/// counter itself while rows are left where it does not, and none after
/// that or where there are no rows.
pub open spec fn row_index(counter: usize, rows: nat, recycle: bool) -> Option<int> {
    if rows == 0 {
        None
    } else if recycle {
        Some(counter as int % rows as int)
    } else if counter < rows {
        Some(counter as int)
    } else {
        None
    }
}

/// A source that does not recycle hands out nothing once its counter has
/// reached the number of its rows; one that recycles hands out the row at
/// the counter modulo the number of rows.
pub proof fn lemma_row_index(counter: usize, rows: nat, recycle: bool)
    ensures
        !recycle && counter >= rows ==> row_index(counter, rows, recycle) is None,
        !recycle && counter < rows ==> row_index(counter, rows, recycle) == Some(counter as int),
        recycle && rows > 0 ==> row_index(counter, rows, recycle) == Some(
            counter as int % rows as int,
        ),
        row_index(counter, rows, recycle) is Some ==> 0 <= row_index(counter, rows, recycle)->0
            < rows,
{
}

/// `base` with the first `upto` columns set to the values of `row`.
pub open spec fn zipped_into(
    base: Map<Seq<char>, Seq<char>>,
    columns: Seq<Seq<char>>,
    row: Seq<Seq<char>>,
    upto: int,
) -> Map<Seq<char>, Seq<char>>
    decreases upto,
{
    if upto <= 0 {
        base
    } else {
        zipped_into(base, columns, row, upto - 1).insert(columns[upto - 1], row[upto - 1])
    }
}

/// The lesser of two lengths.
pub open spec fn min_len(a: nat, b: nat) -> int {
    if a < b {
        a as int
    } else {
        b as int
    }
}

/// `base` with the columns of one source set to the values of the row that
/// the source hands out; `base` itself where it hands out none.
pub open spec fn with_source(base: Map<Seq<char>, Seq<char>>, source: SourceModel) -> Map<
    Seq<char>,
    Seq<char>,
> {
    match row_index(source.counter, source.rows.len(), source.recycle) {
        Some(r) => zipped_into(
            base,
            source.columns,
            source.rows[r],
            min_len(source.columns.len(), source.rows[r].len()),
        ),
        None => base,
    }
}

/// The variables that the first `upto` sources hand out together; a later
/// source overrides an earlier one.
pub open spec fn merged_rows(sources: Seq<SourceModel>, upto: int) -> Map<Seq<char>, Seq<char>>
    decreases upto,
{
    if upto <= 0 {
        Map::empty()
    } else {
        with_source(merged_rows(sources, upto - 1), sources[upto - 1])
    }
}

/// A source after it was asked for a row: its counter has moved on by one
/// (and starts again at 0 after the greatest number), unless it has no rows.
pub open spec fn advanced(source: SourceModel) -> SourceModel {
    if source.rows.len() == 0 {
        source
    } else {
        SourceModel {
            counter: if source.counter == usize::MAX {
                0
            } else {
                (source.counter + 1) as usize
            },
            ..source
        }
    }
}

fn copy_strings(texts: &Vec<String>) -> (copy: Vec<String>)
    ensures
        copy.deep_view() == texts.deep_view(),
{
    let mut copy: Vec<String> = Vec::new();
    let mut i: usize = 0;
    while i < texts.len()
        invariant
            i <= texts@.len(),
            copy@.len() == i,
            forall|k: int| 0 <= k < i ==> (#[trigger] copy@[k])@ == texts@[k]@,
        decreases texts@.len() - i,
    {
        copy.push(texts[i].clone());
        i += 1;
    }
    assert(copy.deep_view() =~= texts.deep_view());
    copy
}

fn copy_rows(rows: &Vec<Vec<String>>) -> (copy: Vec<Vec<String>>)
    ensures
        copy.deep_view() == rows.deep_view(),
{
    let mut copy: Vec<Vec<String>> = Vec::new();
    let mut i: usize = 0;
    while i < rows.len()
        invariant
            i <= rows@.len(),
            copy@.len() == i,
            forall|k: int| 0 <= k < i ==> (#[trigger] copy@[k]).deep_view() == rows@[k].deep_view(),
        decreases rows@.len() - i,
    {
        copy.push(copy_strings(&rows[i]));
        i += 1;
    }
    assert(copy.deep_view() =~= rows.deep_view());
    copy
}

impl CsvDataSet {
    /// The data set of a plan's sources, every counter at 0.
    pub fn from_sources(sources: &Vec<CsvDataSource>) -> (set: Self)
        ensures
            set@.len() == sources@.len(),
            forall|i: int|
                0 <= i < sources@.len() ==> #[trigger] set@[i] == (SourceModel {
                    columns: sources@[i].columns.deep_view(),
                    rows: sources@[i].rows.deep_view(),
                    counter: 0,
                    recycle: sources@[i].recycle,
                }),
    {
        let mut list: Vec<CsvSource> = Vec::new();
        let mut i: usize = 0;
        while i < sources.len()
            invariant
                i <= sources@.len(),
                list@.len() == i,
                forall|k: int|
                    0 <= k < i ==> (#[trigger] list@[k])@ == (SourceModel {
                        columns: sources@[k].columns.deep_view(),
                        rows: sources@[k].rows.deep_view(),
                        counter: 0,
                        recycle: sources@[k].recycle,
                    }),
            decreases sources@.len() - i,
        {
            let source = &sources[i];
            list.push(
                CsvSource {
                    columns: copy_strings(&source.columns),
                    rows: copy_rows(&source.rows),
                    counter: 0,
                    recycle: source.recycle,
                },
            );
            i += 1;
        }
        CsvDataSet { sources: list }
    }

    /// Whether there is no data source.
    pub fn is_empty(&self) -> (empty: bool)
        ensures
            empty == (self@.len() == 0),
    {
        self.sources.len() == 0
    }

    /// Takes the next row of every source and merges their columns into one
    /// mapping from column to value. A source that has handed out all its
    /// rows and does not recycle gives nothing.
    pub fn next_row(&mut self) -> (vars: StringMap)
        ensures
            vars.wf(),
            vars@ == merged_rows(old(self)@, old(self)@.len() as int),
            final(self)@.len() == old(self)@.len(),
            forall|i: int|
                0 <= i < old(self)@.len() ==> #[trigger] final(self)@[i] == advanced(old(self)@[i]),
    {
        let mut vars = StringMap::new();
        let n = self.sources.len();
        let mut i: usize = 0;
        while i < n
            invariant
                n == self.sources@.len(),
                n == old(self).sources@.len(),
                i <= n,
                vars.wf(),
                vars@ == merged_rows(old(self)@, i as int),
                forall|k: int| 0 <= k < i ==> (#[trigger] self.sources@[k])@ == advanced(old(self)@[k]),
                forall|k: int| i <= k < n ==> #[trigger] self.sources@[k] == old(self).sources@[k],
            decreases n - i,
        {
            let ghost model = old(self)@[i as int];
            assert(model == self.sources@[i as int]@);
            let rows_len = self.sources[i].rows.len();
            assert(rows_len == model.rows.len());
            if rows_len > 0 {
                let counter = self.sources[i].counter;
                let recycle = self.sources[i].recycle;
                let picked: Option<usize> = if recycle {
                    Some(counter % rows_len)
                } else if counter < rows_len {
                    Some(counter)
                } else {
                    None
                };
                if let Some(r) = picked {
                    let source = &self.sources[i];
                    let row = &source.rows[r];
                    let columns = &source.columns;
                    assert(row.deep_view() == model.rows[r as int]);
                    let width = if columns.len() < row.len() {
                        columns.len()
                    } else {
                        row.len()
                    };
                    let ghost base = vars@;
                    let mut c: usize = 0;
                    while c < width
                        invariant
                            c <= width,
                            width <= columns@.len(),
                            width <= row@.len(),
                            vars.wf(),
                            vars@ == zipped_into(base, columns.deep_view(), row.deep_view(), c as int),
                        decreases width - c,
                    {
                        vars.insert(columns[c].clone(), row[c].clone());
                        c += 1;
                    }
                }
                let next = if counter == usize::MAX {
                    0
                } else {
                    counter + 1
                };
                self.sources[i].counter = next;
            }
            i += 1;
        }
        vars
    }
}


/// The pause between the starts of two users of a group, in milliseconds:
/// the ramp-up time spread over the gaps between the users; none for a
/// single user or without ramp-up.
pub open spec fn ramp_delay(num_threads: u32, ramp_up_seconds: u32) -> int {
    if ramp_up_seconds > 0 && num_threads > 1 {
        (ramp_up_seconds * 1000) / (num_threads - 1)
    } else {
        0
    }
}

/// Computes the pause between the starts of two users of a group.
pub fn ramp_delay_ms(num_threads: u32, ramp_up_seconds: u32) -> (delay: u64)
    ensures
        delay == ramp_delay(num_threads, ramp_up_seconds),
{
    if ramp_up_seconds > 0 && num_threads > 1 {
        (ramp_up_seconds as u64 * 1000) / (num_threads as u64 - 1)
    } else {
        0
    }
}

/// What a coordinator does for one user slot: wait, then start the user or
/// leave the slot empty.
#[derive(Debug, Clone, Copy, PartialEq, Eq, Structural)]
pub struct UserSlot {
    /// The pause before the slot is filled, in milliseconds.
    pub wait_ms: u64,
    /// Whether a user is started; the slot stays empty where the group has
    /// no enabled request.
    pub start: bool,
}

/// What a coordinator does for user slot `user_id`: nothing more once all
/// slots are done or the run is cancelled; else it waits for the group's
/// pause (the first user does not wait) and starts a user where the group
/// has an enabled request.
pub open spec fn slot_plan(
    user_id: u32,
    num_threads: u32,
    ramp_up_seconds: u32,
    enabled_requests: nat,
    cancelled: bool,
) -> Option<UserSlot> {
    if cancelled || user_id >= num_threads {
        None
    } else {
        Some(
            UserSlot {
                wait_ms: if user_id > 0 {
                    ramp_delay(num_threads, ramp_up_seconds) as u64
                } else {
                    0
                },
                start: enabled_requests > 0,
            },
        )
    }
}

/// Decides what a coordinator does for user slot `user_id`.
pub fn plan_user(
    user_id: u32,
    num_threads: u32,
    ramp_up_seconds: u32,
    enabled_requests: usize,
    cancelled: bool,
) -> (slot: Option<UserSlot>)
    ensures
        slot == slot_plan(user_id, num_threads, ramp_up_seconds, enabled_requests as nat, cancelled),
{
    if cancelled || user_id >= num_threads {
        None
    } else {
        let wait_ms = if user_id > 0 {
            ramp_delay_ms(num_threads, ramp_up_seconds)
        } else {
            0
        };
        Some(UserSlot { wait_ms, start: enabled_requests > 0 })
    }
}

/// A group without threads starts no user: no slot is ever filled.
pub proof fn lemma_no_threads_no_users(
    user_id: u32,
    ramp_up_seconds: u32,
    enabled_requests: nat,
    cancelled: bool,
)
    ensures
        slot_plan(user_id, 0, ramp_up_seconds, enabled_requests, cancelled) is None,
{
}

/// The places in ascending order are exactly those that `keep` holds of.
pub open spec fn places_kept(places: Seq<usize>, len: nat, keep: spec_fn(int) -> bool) -> bool {
    &&& forall|k: int| 0 <= k < places.len() ==> (#[trigger] places[k]) < len && keep(places[k] as int)
    &&& forall|k: int, l: int| 0 <= k < l < places.len() ==> places[k] < places[l]
    &&& forall|i: int|
        0 <= i < len && #[trigger] keep(i) ==> exists|k: int|
            0 <= k < places.len() && #[trigger] places[k] == i
}

/// A part of a plan that can be switched off.
trait Switchable {
    /// Whether the part is switched on.
    spec fn switched_on(&self) -> bool;

    /// Whether the part is switched on.
    fn is_switched_on(&self) -> (on: bool)
        ensures
            on == self.switched_on(),
    ;
}

impl Switchable for HttpRequest {
    spec fn switched_on(&self) -> bool {
        self.enabled
    }

    fn is_switched_on(&self) -> (on: bool) {
        self.enabled
    }
}

impl Switchable for ThreadGroup {
    spec fn switched_on(&self) -> bool {
        self.enabled
    }

    fn is_switched_on(&self) -> (on: bool) {
        self.enabled
    }
}

/// The places of the parts that are switched on, in order.
fn places_switched_on<T: Switchable>(parts: &Vec<T>) -> (places: Vec<usize>)
    ensures
        places_kept(places@, parts@.len(), |i: int| parts@[i].switched_on()),
{
    let ghost keep = |i: int| parts@[i].switched_on();
    let mut places: Vec<usize> = Vec::new();
    let mut i: usize = 0;
    while i < parts.len()
        invariant
            i <= parts@.len(),
            keep == (|i: int| parts@[i].switched_on()),
            places_kept(places@, i as nat, keep),
        decreases parts@.len() - i,
    {
        let ghost before = places@;
        if parts[i].is_switched_on() {
            places.push(i);
            proof {
                assert forall|j: int| 0 <= j < i + 1 && #[trigger] keep(j) implies exists|k: int|
                    0 <= k < places@.len() && #[trigger] places@[k] == j by {
                    if j < i {
                        let k = choose|k: int| 0 <= k < before.len() && #[trigger] before[k] == j;
                        assert(places@[k] == j);
                    } else {
                        assert(places@[places@.len() - 1] == j);
                    }
                }
            }
        }
        i += 1;
    }
    places
}

/// The places of the enabled requests of a group, in order.
pub fn enabled_requests(requests: &Vec<HttpRequest>) -> (places: Vec<usize>)
    ensures
        places_kept(places@, requests@.len(), |i: int| requests@[i].enabled),
{
    let places = places_switched_on(requests);
    proof {
        let on = |i: int| requests@[i].switched_on();
        let enabled = |i: int| requests@[i].enabled;
        assert forall|i: int| 0 <= i < requests@.len() && #[trigger] enabled(i) implies exists|
            k: int,
        | 0 <= k < places@.len() && #[trigger] places@[k] == i by {
            assert(on(i));
        }
    }
    places
}

/// The places of the enabled thread groups of a plan, in order.
pub fn enabled_thread_groups(groups: &Vec<ThreadGroup>) -> (places: Vec<usize>)
    ensures
        places_kept(places@, groups@.len(), |i: int| groups@[i].enabled),
{
    let places = places_switched_on(groups);
    proof {
        let on = |i: int| groups@[i].switched_on();
        let enabled = |i: int| groups@[i].enabled;
        assert forall|i: int| 0 <= i < groups@.len() && #[trigger] enabled(i) implies exists|
            k: int,
        | 0 <= k < places@.len() && #[trigger] places@[k] == i by {
            assert(on(i));
        }
    }
    places
}

/// Whether some thread group of the plan is enabled.
pub open spec fn has_enabled_group(plan: TestPlan) -> bool {
    exists|i: int| 0 <= i < plan.thread_groups@.len() && (#[trigger] plan.thread_groups@[i]).enabled
}

/// Checks that a plan can run: it must have an enabled thread group.
pub fn check_runnable(plan: &TestPlan) -> (checked: Result<(), RmeterError>)
    ensures
        checked is Ok <==> has_enabled_group(*plan),
        checked matches Err(e) ==> e matches RmeterError::Validation(m) && m@
            == "Test plan has no enabled thread groups"@,
{
    let mut i: usize = 0;
    while i < plan.thread_groups.len()
        invariant
            i <= plan.thread_groups@.len(),
            forall|k: int| 0 <= k < i ==> !(#[trigger] plan.thread_groups@[k]).enabled,
        decreases plan.thread_groups@.len() - i,
    {
        if plan.thread_groups[i].enabled {
            return Ok(());
        }
        i += 1;
    }
    Err(RmeterError::Validation(String::from_str("Test plan has no enabled thread groups")))
}


/// What the engine tells its observers.
#[derive(Debug, Clone)]
pub enum EngineEvent {
    /// One request is done.
    RequestResult(RequestResultEvent),
    /// The statistics as they stand. The mean response time is `sum_ms`
    /// over `completed_requests`; the throughput is `completed_requests`
    /// over `elapsed_ms`.
    Progress {
        completed_requests: u64,
        total_errors: u64,
        active_threads: u32,
        elapsed_ms: u64,
        sum_ms: u64,
        p95_ms: u64,
        min_ms: u64,
        max_ms: u64,
    },
    /// The engine has entered another state of its lifecycle.
    StatusChange { status: EngineStatus },
    /// The run is over; this is its summary.
    Complete { summary: TestSummary },
}

/// What happens to the engine.
#[derive(Debug, Clone)]
pub enum EngineInput {
    /// A plan that can run is started.
    Start,
    /// The HTTP client could not be built.
    ClientFailed,
    /// A virtual user has finished a request.
    Result(RequestResultEvent),
    /// The progress reporter's timer has fired; so many users are active.
    Tick { active_threads: u32 },
    /// Every virtual user has finished and every result was handed in.
    Drained,
}

/// The kind of an input.
#[derive(Debug, Clone, Copy, PartialEq, Eq, Structural)]
pub enum InputKind {
    Start,
    ClientFailed,
    Result,
    Tick,
    Drained,
}

/// The kind of an event.
#[derive(Debug, Clone, Copy, PartialEq, Eq, Structural)]
pub enum EventKind {
    Result,
    Progress,
    Status(EngineStatus),
    Complete,
}

/// The kind of `input`.
pub open spec fn input_kind(input: EngineInput) -> InputKind {
    match input {
        EngineInput::Start => InputKind::Start,
        EngineInput::ClientFailed => InputKind::ClientFailed,
        EngineInput::Result(_) => InputKind::Result,
        EngineInput::Tick { .. } => InputKind::Tick,
        EngineInput::Drained => InputKind::Drained,
    }
}

/// The kind of `event`.
pub open spec fn event_kind(event: EngineEvent) -> EventKind {
    match event {
        EngineEvent::RequestResult(_) => EventKind::Result,
        EngineEvent::Progress { .. } => EventKind::Progress,
        EngineEvent::StatusChange { status } => EventKind::Status(status),
        EngineEvent::Complete { .. } => EventKind::Complete,
    }
}

/// The state that an input leads to, and the events that it brings about.
/// An idle engine starts; a running one forwards results, reports progress,
/// fails where no client could be built, and completes, with the summary
/// after the change of status, when all is drained. Nothing else has any
/// effect.
pub open spec fn reaction(status: EngineStatus, input: InputKind) -> (EngineStatus, Seq<EventKind>) {
    match (status, input) {
        (EngineStatus::Idle, InputKind::Start) => (
            EngineStatus::Running,
            seq![EventKind::Status(EngineStatus::Running)],
        ),
        (EngineStatus::Running, InputKind::ClientFailed) => (
            EngineStatus::Error,
            seq![EventKind::Status(EngineStatus::Error)],
        ),
        (EngineStatus::Running, InputKind::Result) => (
            EngineStatus::Running,
            seq![EventKind::Result],
        ),
        (EngineStatus::Running, InputKind::Tick) => (
            EngineStatus::Running,
            seq![EventKind::Progress],
        ),
        (EngineStatus::Running, InputKind::Drained) => (
            EngineStatus::Completed,
            seq![EventKind::Status(EngineStatus::Completed), EventKind::Complete],
        ),
        _ => (status, Seq::empty()),
    }
}

/// The state of an engine that began idle, after the inputs.
pub open spec fn status_after(inputs: Seq<InputKind>) -> EngineStatus
    decreases inputs.len(),
{
    if inputs.len() == 0 {
        EngineStatus::Idle
    } else {
        reaction(status_after(inputs.drop_last()), inputs.last()).0
    }
}

/// All that an engine that began idle has emitted after the inputs.
pub open spec fn emitted(inputs: Seq<InputKind>) -> Seq<EventKind>
    decreases inputs.len(),
{
    if inputs.len() == 0 {
        Seq::empty()
    } else {
        emitted(inputs.drop_last()) + reaction(status_after(inputs.drop_last()), inputs.last()).1
    }
}

/// From `from` up to `to` the events are results and progress reports only.
pub open spec fn only_work(events: Seq<EventKind>, from: int, to: int) -> bool {
    forall|i: int|
        from <= i < to ==> (#[trigger] events[i]) == EventKind::Result || events[i]
            == EventKind::Progress
}

/// The order of the events of a run in state `status`: nothing while idle;
/// then the change to running, and results and progress reports; at the
/// end either the change to completed followed by the summary, or the
/// change to error and no summary.
pub open spec fn in_order(status: EngineStatus, events: Seq<EventKind>) -> bool {
    let n = events.len() as int;
    match status {
        EngineStatus::Idle => n == 0,
        EngineStatus::Running => {
            &&& n >= 1
            &&& events[0] == EventKind::Status(EngineStatus::Running)
            &&& only_work(events, 1, n)
        },
        EngineStatus::Completed => {
            &&& n >= 3
            &&& events[0] == EventKind::Status(EngineStatus::Running)
            &&& only_work(events, 1, n - 2)
            &&& events[n - 2] == EventKind::Status(EngineStatus::Completed)
            &&& events[n - 1] == EventKind::Complete
        },
        EngineStatus::Error => {
            &&& n >= 2
            &&& events[0] == EventKind::Status(EngineStatus::Running)
            &&& only_work(events, 1, n - 1)
            &&& events[n - 1] == EventKind::Status(EngineStatus::Error)
        },
        EngineStatus::Stopping => false,
    }
}

/// Whatever happens to an engine that began idle, its events come in order.
pub proof fn lemma_events_in_order(inputs: Seq<InputKind>)
    ensures
        in_order(status_after(inputs), emitted(inputs)),
    decreases inputs.len(),
{
    if inputs.len() > 0 {
        lemma_events_in_order(inputs.drop_last());
    }
}

/// A summary occurs at most once among the events, and only straight
/// after the one change to completed; where there is a change to error
/// there is no summary.
pub open spec fn one_summary(events: Seq<EventKind>) -> bool {
    &&& forall|i: int, j: int|
        #![trigger events[i], events[j]]
        0 <= i < events.len() && 0 <= j < events.len() && events[i] == EventKind::Complete
            && events[j] == EventKind::Complete ==> i == j
    &&& forall|i: int|
        #![trigger events[i]]
        0 <= i < events.len() && events[i] == EventKind::Complete ==> i > 0 && events[i - 1]
            == EventKind::Status(EngineStatus::Completed)
    &&& forall|i: int|
        #![trigger events[i]]
        0 <= i < events.len() && events[i] == EventKind::Status(EngineStatus::Completed) ==> i
            + 1 < events.len() && events[i + 1] == EventKind::Complete
    &&& forall|i: int, j: int|
        #![trigger events[i], events[j]]
        0 <= i < events.len() && 0 <= j < events.len() && events[i] == EventKind::Status(
            EngineStatus::Error,
        ) ==> events[j] != EventKind::Complete
}

/// In every run, a summary is emitted at most once, and only straight after
/// the one change to completed; after a change to error there is none. A
/// run that has emitted its summary is completed.
pub proof fn lemma_one_summary(inputs: Seq<InputKind>)
    ensures
        one_summary(emitted(inputs)),
        emitted(inputs).contains(EventKind::Complete) ==> status_after(inputs)
            == EngineStatus::Completed,
        status_after(inputs) == EngineStatus::Completed ==> emitted(inputs).contains(
            EventKind::Complete,
        ),
{
    lemma_events_in_order(inputs);
    let events = emitted(inputs);
    if events.contains(EventKind::Complete) {
        let i = choose|i: int| 0 <= i < events.len() && events[i] == EventKind::Complete;
        assert(events[i] == EventKind::Complete);
    }
    if status_after(inputs) == EngineStatus::Completed {
        assert(events[events.len() - 1] == EventKind::Complete);
    }
}


/// What an engine has counted so far, with the state it is in.
pub struct Tally {
    pub status: EngineStatus,
    pub requests: nat,
    pub errors: nat,
    pub sum_ms: nat,
    pub bytes: nat,
}

/// The counters, which hold numbers up to `u64::MAX`, can take one more
/// request with this response time and size.
pub open spec fn tally_has_room(tally: Tally, elapsed_ms: u64, size_bytes: u64) -> bool {
    &&& tally.requests < u64::MAX
    &&& tally.sum_ms + elapsed_ms <= u64::MAX
    &&& tally.bytes + size_bytes <= u64::MAX
}

/// What is counted after an input. A result that reaches a running engine
/// is counted where the counters have room for it: one request, its time,
/// its size, and an error where it carries one. Every other input changes
/// the state as `reaction` says and the counts not at all.
pub open spec fn tally_after(tally: Tally, input: EngineInput) -> Tally {
    match input {
        EngineInput::Result(result) => if tally.status == EngineStatus::Running && tally_has_room(
            tally,
            result.elapsed_ms,
            result.size_bytes,
        ) {
            Tally {
                status: tally.status,
                requests: tally.requests + 1,
                errors: tally.errors + (if result.error is None {
                    0nat
                } else {
                    1nat
                }),
                sum_ms: tally.sum_ms + result.elapsed_ms as nat,
                bytes: tally.bytes + result.size_bytes as nat,
            }
        } else {
            tally
        },
        _ => Tally { status: reaction(tally.status, input_kind(input)).0, ..tally },
    }
}

/// What an engine that began idle has counted after the inputs.
pub open spec fn tally_of(inputs: Seq<EngineInput>) -> Tally
    decreases inputs.len(),
{
    if inputs.len() == 0 {
        Tally { status: EngineStatus::Idle, requests: 0, errors: 0, sum_ms: 0, bytes: 0 }
    } else {
        tally_after(tally_of(inputs.drop_last()), inputs.last())
    }
}

/// Whether every result that reached the running engine found room in the
/// counters.
pub open spec fn room_throughout(inputs: Seq<EngineInput>) -> bool
    decreases inputs.len(),
{
    if inputs.len() == 0 {
        true
    } else {
        &&& room_throughout(inputs.drop_last())
        &&& match inputs.last() {
            EngineInput::Result(result) => tally_of(inputs.drop_last()).status
                == EngineStatus::Running ==> tally_has_room(
                tally_of(inputs.drop_last()),
                result.elapsed_ms,
                result.size_bytes,
            ),
            _ => true,
        }
    }
}

/// The kinds of the inputs, in order.
pub open spec fn kinds_of(inputs: Seq<EngineInput>) -> Seq<InputKind> {
    inputs.map_values(|input: EngineInput| input_kind(input))
}

/// How many of the events are results.
pub open spec fn results_among(events: Seq<EventKind>) -> nat
    decreases events.len(),
{
    if events.len() == 0 {
        0
    } else {
        results_among(events.drop_last()) + (if events.last() == EventKind::Result {
            1nat
        } else {
            0nat
        })
    }
}

/// How many of the results that reached the running engine carried an
/// error.
pub open spec fn failures_among(inputs: Seq<EngineInput>) -> nat
    decreases inputs.len(),
{
    if inputs.len() == 0 {
        0
    } else {
        failures_among(inputs.drop_last()) + (match inputs.last() {
            EngineInput::Result(result) => if tally_of(inputs.drop_last()).status
                == EngineStatus::Running && result.error is Some {
                1nat
            } else {
                0nat
            },
            _ => 0nat,
        })
    }
}

/// One more event is one more result where it is one.
proof fn lemma_results_among_push(events: Seq<EventKind>, event: EventKind)
    ensures
        results_among(events.push(event)) == results_among(events) + (if event
            == EventKind::Result {
            1nat
        } else {
            0nat
        }),
{
    assert(events.push(event).drop_last() =~= events);
}

/// In every run in which the counters had room, each result that was
/// forwarded was counted, once: the requests counted are as many as the
/// results among the events, the errors counted as many as the results that
/// carried one, and the state is the one that `status_after` gives. The
/// summary of such a run, made from these counts, counts every result that
/// went out.
pub proof fn lemma_every_result_counted(inputs: Seq<EngineInput>)
    requires
        room_throughout(inputs),
    ensures
        tally_of(inputs).status == status_after(kinds_of(inputs)),
        tally_of(inputs).requests == results_among(emitted(kinds_of(inputs))),
        tally_of(inputs).errors == failures_among(inputs),
        tally_of(inputs).errors <= tally_of(inputs).requests,
    decreases inputs.len(),
{
    if inputs.len() > 0 {
        let before = inputs.drop_last();
        lemma_every_result_counted(before);
        assert(kinds_of(inputs).drop_last() =~= kinds_of(before));
        assert(kinds_of(inputs).last() == input_kind(inputs.last()));
        let status = status_after(kinds_of(before));
        let out = reaction(status, input_kind(inputs.last())).1;
        let sent = emitted(kinds_of(before));
        assert(emitted(kinds_of(inputs)) == sent + out);
        if out.len() == 0 {
            assert(sent + out =~= sent);
        } else if out.len() == 1 {
            assert(sent + out =~= sent.push(out[0]));
            lemma_results_among_push(sent, out[0]);
        } else {
            assert(sent + out =~= sent.push(out[0]).push(out[1]));
            lemma_results_among_push(sent, out[0]);
            lemma_results_among_push(sent.push(out[0]), out[1]);
        }
    }
}

/// The engine of one run: its state, its statistics, and the plan it runs.
/// It is told what happens and says which events go out; sending them is
/// the caller's part.
pub struct Engine {
    status: EngineStatus,
    aggregator: StreamingAggregator,
    plan_id: Uuid,
    plan_name: String,
}

impl Engine {
    /// The state of the lifecycle.
    pub closed spec fn status_of(&self) -> EngineStatus {
        self.status
    }

    /// The statistics.
    pub closed spec fn stats(&self) -> StreamingAggregator {
        self.aggregator
    }

    /// The plan's identifier.
    pub closed spec fn plan(&self) -> Uuid {
        self.plan_id
    }

    /// The plan's name.
    pub closed spec fn name(&self) -> Seq<char> {
        self.plan_name@
    }

    /// The statistics are well formed.
    pub closed spec fn wf(&self) -> bool {
        self.aggregator.wf()
    }

    /// What the engine has counted so far, with the state it is in.
    pub open spec fn tally(&self) -> Tally {
        Tally {
            status: self.status_of(),
            requests: self.stats().samples().len(),
            errors: self.stats().errors(),
            sum_ms: sum_of(self.stats().samples()),
            bytes: self.stats().bytes(),
        }
    }

    /// An idle engine for the plan, with nothing recorded.
    pub fn new(plan_id: Uuid, plan_name: String) -> (engine: Self)
        ensures
            engine.wf(),
            engine.status_of() == EngineStatus::Idle,
            engine.plan() == plan_id,
            engine.name() == plan_name@,
            engine.stats().samples().len() == 0,
            engine.stats().errors() == 0,
            engine.stats().bytes() == 0,
            engine.tally() == tally_of(Seq::empty()),
    {
        Engine { status: EngineStatus::Idle, aggregator: StreamingAggregator::new(), plan_id, plan_name }
    }

    /// The state of the lifecycle.
    pub fn status(&self) -> (status: EngineStatus)
        ensures
            status == self.status_of(),
    {
        self.status
    }

    /// The statistics, for a reader.
    pub fn aggregator(&self) -> (aggregator: &StreamingAggregator)
        ensures
            *aggregator == self.stats(),
    {
        &self.aggregator
    }

    /// Takes in what has happened and returns the events that go out, in
    /// their order. A result is recorded in the statistics before it is
    /// forwarded; the summary follows the change to completed.
    pub fn handle(&mut self, input: EngineInput) -> (events: Vec<EngineEvent>)
        requires
            old(self).wf(),
        ensures
            final(self).wf(),
            final(self).plan() == old(self).plan(),
            final(self).name() == old(self).name(),
            final(self).status_of() == reaction(old(self).status_of(), input_kind(input)).0,
            final(self).tally() == tally_after(old(self).tally(), input),
            events@.map_values(|e: EngineEvent| event_kind(e)) == reaction(
                old(self).status_of(),
                input_kind(input),
            ).1,
            final(self).stats().started_at() == old(self).stats().started_at(),
            match (old(self).status_of(), input) {
                (EngineStatus::Running, EngineInput::Result(result)) => {
                    let before = old(self).stats();
                    let after = final(self).stats();
                    &&& events@[0] == EngineEvent::RequestResult(result)
                    &&& if before.has_room(result.elapsed_ms, result.size_bytes) {
                        &&& after.samples() == before.samples().push(result.elapsed_ms)
                        &&& after.errors() == before.errors() + (if result.error is None {
                            0nat
                        } else {
                            1nat
                        })
                        &&& after.bytes() == before.bytes() + result.size_bytes
                    } else {
                        &&& after.samples() == before.samples()
                        &&& after.errors() == before.errors()
                        &&& after.bytes() == before.bytes()
                        &&& after.buckets() == before.buckets()
                    }
                },
                (EngineStatus::Running, EngineInput::Tick { active_threads }) => {
                    let stats = old(self).stats();
                    &&& final(self).stats() == stats
                    &&& events@[0] matches EngineEvent::Progress {
                        completed_requests,
                        total_errors,
                        active_threads: active,
                        elapsed_ms,
                        sum_ms,
                        p95_ms,
                        min_ms,
                        max_ms,
                    } && {
                        &&& completed_requests == stats.samples().len()
                        &&& total_errors == stats.errors()
                        &&& active == active_threads
                        &&& sum_ms == sum_of(stats.samples())
                        &&& p95_ms == percentile_of(stats.samples(), 95)
                        &&& min_ms == shown_min(min_of(stats.samples()))
                        &&& max_ms == max_of(stats.samples())
                    }
                },
                (EngineStatus::Running, EngineInput::Drained) => {
                    let stats = old(self).stats();
                    &&& final(self).stats() == stats
                    &&& events@[1] matches EngineEvent::Complete { summary } && {
                        &&& summary.plan_id == old(self).plan()
                        &&& summary.plan_name@ == old(self).name()
                        &&& summary.started_at_ms == stats.started_at()
                        &&& summary.total_requests == old(self).tally().requests
                        &&& summary.total_requests == requests_in(stats.buckets())
                        &&& summary.failed_requests == old(self).tally().errors
                        &&& summary.successful_requests + summary.failed_requests
                            == summary.total_requests
                        &&& summary.min_response_ms == shown_min(min_of(stats.samples()))
                        &&& summary.max_response_ms == max_of(stats.samples())
                        &&& summary.sum_response_ms == sum_of(stats.samples())
                        &&& summary.p50_response_ms == percentile_of(stats.samples(), 50)
                        &&& summary.p95_response_ms == percentile_of(stats.samples(), 95)
                        &&& summary.p99_response_ms == percentile_of(stats.samples(), 99)
                        &&& summary.total_bytes_received == stats.bytes()
                    }
                },
                _ => final(self).stats() == old(self).stats(),
            },
    {
        let ghost kinds = |e: EngineEvent| event_kind(e);
        let mut events: Vec<EngineEvent> = Vec::new();
        match self.status {
            EngineStatus::Idle => {
                match input {
                    EngineInput::Start => {
                        self.status = EngineStatus::Running;
                        events.push(EngineEvent::StatusChange { status: EngineStatus::Running });
                        assert(events@.map_values(kinds) =~= seq![
                            EventKind::Status(EngineStatus::Running),
                        ]);
                    },
                    _ => {
                        assert(events@.map_values(kinds) =~= Seq::<EventKind>::empty());
                    },
                }
            },
            EngineStatus::Running => {
                match input {
                    EngineInput::Start => {
                        assert(events@.map_values(kinds) =~= Seq::<EventKind>::empty());
                    },
                    EngineInput::ClientFailed => {
                        self.status = EngineStatus::Error;
                        events.push(EngineEvent::StatusChange { status: EngineStatus::Error });
                        assert(events@.map_values(kinds) =~= seq![
                            EventKind::Status(EngineStatus::Error),
                        ]);
                    },
                    EngineInput::Result(result) => {
                        let success = result.error.is_none();
                        let ghost before = self.aggregator.samples();
                        let _ = self.aggregator.try_record(
                            result.elapsed_ms,
                            success,
                            result.size_bytes,
                        );
                        assert(before.push(result.elapsed_ms).drop_last() =~= before);
                        events.push(EngineEvent::RequestResult(result));
                        assert(events@.map_values(kinds) =~= seq![EventKind::Result]);
                    },
                    EngineInput::Tick { active_threads } => {
                        let snap = self.aggregator.snapshot();
                        events.push(
                            EngineEvent::Progress {
                                completed_requests: snap.total_requests,
                                total_errors: snap.total_errors,
                                active_threads,
                                elapsed_ms: snap.elapsed_ms,
                                sum_ms: snap.sum_ms,
                                p95_ms: snap.p95_ms,
                                min_ms: snap.min_ms,
                                max_ms: snap.max_ms,
                            },
                        );
                        assert(events@.map_values(kinds) =~= seq![EventKind::Progress]);
                    },
                    EngineInput::Drained => {
                        self.status = EngineStatus::Completed;
                        events.push(EngineEvent::StatusChange { status: EngineStatus::Completed });
                        let summary = self.aggregator.summary(self.plan_id, self.plan_name.clone());
                        events.push(EngineEvent::Complete { summary });
                        assert(events@.map_values(kinds) =~= seq![
                            EventKind::Status(EngineStatus::Completed),
                            EventKind::Complete,
                        ]);
                    },
                }
            },
            _ => {
                assert(events@.map_values(kinds) =~= Seq::<EventKind>::empty());
            },
        }
        events
    }
}


/// How many results may wait between the users and the forwarder.
pub const RESULT_CHANNEL_CAPACITY: usize = 4096;

/// The time between two progress reports, in milliseconds.
pub const PROGRESS_INTERVAL_MS: u64 = 500;

/// The settings of the client that all users of a run share: 30 s for a
/// request, 100 idle connections per host kept for 90 s, certificates
/// checked.
pub open spec fn run_settings() -> ClientSettings {
    ClientSettings {
        timeout_ms: 30_000,
        pool_max_idle_per_host: 100,
        pool_idle_timeout_ms: 90_000,
        user_agent: "rmeter/0.1.0"@,
        danger_accept_invalid_certs: false,
    }
}

/// The settings of the client that all users of a run share.
pub fn run_client_settings() -> (builder: HttpClientBuilder)
    ensures
        builder@ == run_settings(),
{
    HttpClientBuilder::new().pool_max_idle_per_host(100)
}

/// The variables that a run starts with: those of the plan, the first
/// `upto` of them; of two with one name the later one stays.
pub open spec fn seeded(variables: Seq<Variable>, upto: int) -> Map<Seq<char>, Seq<char>>
    decreases upto,
{
    if upto <= 0 {
        Map::empty()
    } else {
        seeded(variables, upto - 1).insert(variables[upto - 1].name@, variables[upto - 1].value@)
    }
}

/// Makes the variable store of a run from the variables of its plan.
pub fn seed_variables(variables: &Vec<Variable>) -> (store: StringMap)
    ensures
        store.wf(),
        store@ == seeded(variables@, variables@.len() as int),
{
    let mut store = StringMap::new();
    let mut i: usize = 0;
    while i < variables.len()
        invariant
            i <= variables@.len(),
            store.wf(),
            store@ == seeded(variables@, i as int),
        decreases variables@.len() - i,
    {
        store.insert(variables[i].name.clone(), variables[i].value.clone());
        i += 1;
    }
    store
}

/// At the start of an iteration, takes the next row of every data source
/// and merges it into the variables, a column overriding a variable of its
/// name. Without data sources nothing is taken and nothing changes.
pub fn merge_next_row(csv: &mut CsvDataSet, variables: &mut StringMap)
    requires
        old(variables).wf(),
    ensures
        final(variables).wf(),
        final(variables)@ == old(variables)@.union_prefer_right(
            merged_rows(old(csv)@, old(csv)@.len() as int),
        ),
        final(csv)@.len() == old(csv)@.len(),
        forall|i: int|
            0 <= i < old(csv)@.len() ==> #[trigger] final(csv)@[i] == advanced(old(csv)@[i]),
{
    if !csv.is_empty() {
        let row = csv.next_row();
        if !row.is_empty() {
            variables.extend(&row);
        } else {
            proof {
                row.lemma_view_of_listing();
                assert(row@ =~= Map::<Seq<char>, Seq<char>>::empty());
                assert(variables@ =~= variables@.union_prefer_right(row@));
            }
        }
    } else {
        assert(merged_rows(csv@, 0) =~= Map::<Seq<char>, Seq<char>>::empty());
        assert(variables@ =~= variables@.union_prefer_right(merged_rows(csv@, 0)));
    }
}

} // verus!
