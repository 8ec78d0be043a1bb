//! One migration run as a state machine.
//!
//! A run lists the bucket, selects the keys of its direction, fetches each
//! selected script in listed order, connects to the database and then applies
//! the scripts one by one. The caller performs each [`Action`] and reports its
//! outcome as an [`Event`]; [`MigrationRun::on_event`] makes every decision.
use vstd::prelude::*;
use crate::keys::{down_keys, select_down, select_up, up_keys};

verus! {

/// Which of the two migration sets a run applies.
#[derive(Clone, Copy, PartialEq, Eq, Debug, Structural)]
pub enum Direction {
    Up,
    Down,
}

/// One fetched migration script.
#[derive(Debug, PartialEq, Eq)]
pub struct RawSql {
    pub key: String,
    pub sql: String,
}

/// Why a run ended without success.
#[derive(Debug, PartialEq, Eq)]
pub enum RunError {
    /// Listing the bucket or fetching a script failed, with the storage
    /// error; no SQL was run.
    Storage(String),
    /// No database connection could be had, with the connection error; no
    /// SQL was run.
    DbConnection(String),
    /// A script failed, with the database error. The run stops here for
    /// good: the scripts before it stay applied, and the database must be
    /// inspected by hand.
    SqlExecution { key: String, sql: String, error: String },
}

/// The outcome of the last action, reported by the caller.
#[derive(Debug, PartialEq, Eq)]
pub enum Event {
    Listed(Vec<String>),
    ListFailed(String),
    Fetched(String),
    FetchFailed(String),
    Connected,
    ConnectFailed(String),
    Executed,
    ExecuteFailed(String),
}

/// What the caller is to do next.
#[derive(Debug, PartialEq, Eq)]
pub enum Action {
    /// List every key of the bucket.
    List,
    /// Fetch the script stored under this key.
    Fetch(String),
    /// Open the database connection.
    Connect,
    /// Run this SQL text against the connection.
    Execute(String),
    /// The run is over, with this result.
    Finish(Result<bool, RunError>),
}

/// Where a run stands: waiting on the listing, on a fetch, on the
/// connection, on a statement, or over.
#[derive(Clone, Copy, PartialEq, Eq, Debug, Structural)]
pub enum Phase {
    Listing,
    Fetching,
    Connecting,
    Executing,
    Finished,
}

/// The state of one run.
///
/// `keys` are the selected keys, `raws` the scripts fetched so far (in the
/// same order), `pos` the script awaiting its result while executing, and
/// `applied` the keys whose scripts ran successfully.
#[derive(Debug)]
pub struct MigrationRun {
    pub bucket: String,
    pub region: String,
    pub direction: Direction,
    pub phase: Phase,
    pub keys: Vec<String>,
    pub raws: Vec<RawSql>,
    pub pos: usize,
    pub applied: Vec<String>,
}

/// The keys that a run in direction `d` selects from a listing.
pub open spec fn selection(d: Direction, listed: Seq<String>) -> Seq<String> {
    match d {
        Direction::Up => up_keys(listed),
        Direction::Down => down_keys(listed),
    }
}

pub open spec fn has_body(r: RawSql) -> bool {
    r.sql@.len() > 0
}

/// The keys of the scripts in `raws` that have a body, in order: the ones
/// that are executed.
pub open spec fn keys_with_body(raws: Seq<RawSql>) -> Seq<String>
    decreases raws.len(),
{
    if raws.len() == 0 {
        Seq::empty()
    } else {
        let rest = keys_with_body(raws.drop_last());
        if has_body(raws.last()) {
            rest.push(raws.last().key)
        } else {
            rest
        }
    }
}

/// No script in `raws[from..to]` has a body.
pub open spec fn all_empty(raws: Seq<RawSql>, from: int, to: int) -> bool {
    forall|i: int| from <= i < to ==> !has_body(#[trigger] raws[i])
}

/// After the scripts before `from` are dealt with: the next script with a
/// body is handed out for execution, the empty ones before it skipped; with
/// none left, the run succeeds.
pub open spec fn continues_from(new: MigrationRun, act: Action, from: int) -> bool {
    if all_empty(new.raws@, from, new.raws@.len() as int) {
        &&& new.phase is Finished
        &&& act == Action::Finish(Ok(true))
    } else {
        &&& new.phase is Executing
        &&& from <= new.pos
        &&& all_empty(new.raws@, from, new.pos as int)
        &&& act == Action::Execute(new.raws@[new.pos as int].sql)
    }
}

/// What one event does to a run, and which action follows.
pub open spec fn step(old: MigrationRun, ev: Event, new: MigrationRun, act: Action) -> bool {
    &&& new.bucket == old.bucket
    &&& new.region == old.region
    &&& new.direction == old.direction
    &&& match old.phase {
        Phase::Listing => match ev {
            Event::Listed(all) => {
                &&& new.keys@ == selection(old.direction, all@)
                &&& new.raws@.len() == 0
                &&& new.applied@ == old.applied@
                &&& if new.keys@.len() == 0 {
                    new.phase is Connecting && act == Action::Connect
                } else {
                    new.phase is Fetching && act == Action::Fetch(new.keys@[0])
                }
            },
            Event::ListFailed(e) => new.phase is Finished && act == Action::Finish(
                Err(RunError::Storage(e)),
            ),
            _ => false,
        },
        Phase::Fetching => match ev {
            Event::Fetched(body) => {
                &&& new.keys@ == old.keys@
                &&& new.raws@ == old.raws@.push(
                    (RawSql { key: old.keys@[old.raws@.len() as int], sql: body }),
                )
                &&& new.applied@ == old.applied@
                &&& if new.raws@.len() < new.keys@.len() {
                    new.phase is Fetching && act == Action::Fetch(
                        new.keys@[new.raws@.len() as int],
                    )
                } else {
                    new.phase is Connecting && act == Action::Connect
                }
            },
            Event::FetchFailed(e) => new.phase is Finished && act == Action::Finish(
                Err(RunError::Storage(e)),
            ),
            _ => false,
        },
        Phase::Connecting => match ev {
            Event::Connected => {
                &&& new.keys@ == old.keys@
                &&& new.raws@ == old.raws@
                &&& new.applied@ == old.applied@
                &&& continues_from(new, act, 0)
            },
            Event::ConnectFailed(e) => new.phase is Finished && act == Action::Finish(
                Err(RunError::DbConnection(e)),
            ),
            _ => false,
        },
        Phase::Executing => match ev {
            Event::Executed => {
                &&& new.keys@ == old.keys@
                &&& new.raws@ == old.raws@
                &&& new.applied@ == old.applied@.push(old.raws@[old.pos as int].key)
                &&& continues_from(new, act, old.pos + 1)
            },
            Event::ExecuteFailed(e) => {
                &&& new.phase is Finished
                &&& new.raws@ == old.raws@
                &&& new.applied@ == old.applied@
                &&& act == Action::Finish(
                    Err(
                        (RunError::SqlExecution {
                            key: old.raws@[old.pos as int].key,
                            sql: old.raws@[old.pos as int].sql,
                            error: e,
                        }),
                    ),
                )
            },
            _ => false,
        },
        Phase::Finished => false,
    }
}

proof fn lemma_keys_with_body_step(raws: Seq<RawSql>, p: int)
    requires
        0 <= p < raws.len(),
    ensures
        keys_with_body(raws.subrange(0, p + 1)) == if has_body(raws[p]) {
            keys_with_body(raws.subrange(0, p)).push(raws[p].key)
        } else {
            keys_with_body(raws.subrange(0, p))
        },
{
    assert(raws.subrange(0, p + 1).drop_last() =~= raws.subrange(0, p));
}

impl MigrationRun {
    /// The fetched scripts belong, in order, to the first selected keys.
    pub open spec fn fetched_in_order(&self) -> bool {
        &&& self.raws@.len() <= self.keys@.len()
        &&& forall|i: int| 0 <= i < self.raws@.len() ==> #[trigger] self.raws@[i].key == self.keys@[i]
    }

    pub open spec fn wf(&self) -> bool {
        match self.phase {
            Phase::Listing => {
                &&& self.keys@.len() == 0
                &&& self.raws@.len() == 0
                &&& self.applied@.len() == 0
            },
            Phase::Fetching => {
                &&& self.fetched_in_order()
                &&& self.raws@.len() < self.keys@.len()
                &&& self.applied@.len() == 0
            },
            Phase::Connecting => {
                &&& self.fetched_in_order()
                &&& self.raws@.len() == self.keys@.len()
                &&& self.applied@.len() == 0
            },
            Phase::Executing => {
                &&& self.fetched_in_order()
                &&& self.raws@.len() == self.keys@.len()
                &&& self.pos < self.raws@.len()
                &&& has_body(self.raws@[self.pos as int])
                &&& self.applied@ == keys_with_body(self.raws@.subrange(0, self.pos as int))
            },
            Phase::Finished => true,
        }
    }

    /// The events that answer the action the run is waiting on.
    pub open spec fn expects(&self, ev: Event) -> bool {
        match self.phase {
            Phase::Listing => ev is Listed || ev is ListFailed,
            Phase::Fetching => ev is Fetched || ev is FetchFailed,
            Phase::Connecting => ev is Connected || ev is ConnectFailed,
            Phase::Executing => ev is Executed || ev is ExecuteFailed,
            Phase::Finished => false,
        }
    }

    /// A run that has yet to list its bucket; its first action is
    /// [`Action::List`].
    pub fn new(bucket: String, region: String, direction: Direction) -> (r: MigrationRun)
        ensures
            r.wf(),
            r.phase is Listing,
            r.bucket == bucket,
            r.region == region,
            r.direction == direction,
    {
        MigrationRun {
            bucket,
            region,
            direction,
            phase: Phase::Listing,
            keys: Vec::new(),
            raws: Vec::new(),
            pos: 0,
            applied: Vec::new(),
        }
    }

    /// Whether `ev` answers the action the run is waiting on.
    pub fn accepts(&self, ev: &Event) -> (r: bool)
        ensures
            r == self.expects(*ev),
    {
        match self.phase {
            Phase::Listing => matches!(ev, Event::Listed(_) | Event::ListFailed(_)),
            Phase::Fetching => matches!(ev, Event::Fetched(_) | Event::FetchFailed(_)),
            Phase::Connecting => matches!(ev, Event::Connected | Event::ConnectFailed(_)),
            Phase::Executing => matches!(ev, Event::Executed | Event::ExecuteFailed(_)),
            Phase::Finished => false,
        }
    }

    /// Hands out the first script with a body at or after `from`, or
    /// finishes the run with success when there is none.
    fn advance(&mut self, from: usize) -> (act: Action)
        requires
            old(self).fetched_in_order(),
            old(self).raws@.len() == old(self).keys@.len(),
            from <= old(self).raws@.len(),
            old(self).applied@ == keys_with_body(old(self).raws@.subrange(0, from as int)),
        ensures
            final(self).wf(),
            final(self).bucket == old(self).bucket,
            final(self).region == old(self).region,
            final(self).direction == old(self).direction,
            final(self).keys@ == old(self).keys@,
            final(self).raws@ == old(self).raws@,
            final(self).applied@ == old(self).applied@,
            continues_from(*final(self), act, from as int),
    {
        let mut p: usize = from;
        while p < self.raws.len() && self.raws[p].sql.as_str().is_empty()
            invariant
                from <= p <= self.raws@.len(),
                self.raws@ == old(self).raws@,
                self.applied@ == old(self).applied@,
                all_empty(self.raws@, from as int, p as int),
                self.applied@ == keys_with_body(self.raws@.subrange(0, p as int)),
            decreases self.raws@.len() - p,
        {
            proof {
                lemma_keys_with_body_step(self.raws@, p as int);
            }
            p = p + 1;
        }
        if p < self.raws.len() {
            self.phase = Phase::Executing;
            self.pos = p;
            Action::Execute(self.raws[p].sql.clone())
        } else {
            self.phase = Phase::Finished;
            Action::Finish(Ok(true))
        }
    }

    /// Takes the outcome of the last action and returns the next one.
    pub fn on_event(&mut self, ev: Event) -> (act: Action)
        requires
            old(self).wf(),
            old(self).expects(ev),
        ensures
            final(self).wf(),
            step(*old(self), ev, *final(self), act),
    {
        match self.phase {
            Phase::Listing => match ev {
                Event::Listed(all) => {
                    self.keys = match self.direction {
                        Direction::Up => select_up(&all),
                        Direction::Down => select_down(&all),
                    };
                    if self.keys.len() == 0 {
                        self.phase = Phase::Connecting;
                        Action::Connect
                    } else {
                        self.phase = Phase::Fetching;
                        Action::Fetch(self.keys[0].clone())
                    }
                },
                Event::ListFailed(e) => {
                    self.phase = Phase::Finished;
                    Action::Finish(Err(RunError::Storage(e)))
                },
                _ => {
                    proof {
                        assert(false);
                    }
                    Action::Connect
                },
            },
            Phase::Fetching => match ev {
                Event::Fetched(body) => {
                    let n = self.raws.len();
                    let total = self.keys.len();
                    assert(n < total);
                    let key = self.keys[n].clone();
                    self.raws.push(RawSql { key, sql: body });
                    if n + 1 < total {
                        Action::Fetch(self.keys[n + 1].clone())
                    } else {
                        self.phase = Phase::Connecting;
                        Action::Connect
                    }
                },
                Event::FetchFailed(e) => {
                    self.phase = Phase::Finished;
                    Action::Finish(Err(RunError::Storage(e)))
                },
                _ => {
                    proof {
                        assert(false);
                    }
                    Action::Connect
                },
            },
            Phase::Connecting => match ev {
                Event::Connected => {
                    assert(self.raws@.subrange(0, 0) =~= Seq::<RawSql>::empty());
                    assert(self.applied@ =~= Seq::<String>::empty());
                    self.advance(0)
                },
                Event::ConnectFailed(e) => {
                    self.phase = Phase::Finished;
                    Action::Finish(Err(RunError::DbConnection(e)))
                },
                _ => {
                    proof {
                        assert(false);
                    }
                    Action::Connect
                },
            },
            Phase::Executing => match ev {
                Event::Executed => {
                    let p = self.pos;
                    let total = self.raws.len();
                    assert(p < total);
                    proof {
                        lemma_keys_with_body_step(self.raws@, p as int);
                    }
                    let key = self.raws[p].key.clone();
                    self.applied.push(key);
                    self.advance(p + 1)
                },
                Event::ExecuteFailed(e) => {
                    let p = self.pos;
                    let key = self.raws[p].key.clone();
                    let sql = self.raws[p].sql.clone();
                    self.phase = Phase::Finished;
                    Action::Finish(Err(RunError::SqlExecution { key, sql, error: e }))
                },
                _ => {
                    proof {
                        assert(false);
                    }
                    Action::Connect
                },
            },
            Phase::Finished => {
                proof {
                    assert(false);
                }
                Action::Connect
            },
        }
    }
}

/// A script without a body is never run and never makes a run fail: every
/// script handed out for execution, and every script blamed for a failure,
/// has a body; and once only scripts without a body remain, the next success
/// finishes the run with success.
pub proof fn lemma_empty_scripts_skipped(
    old: MigrationRun,
    ev: Event,
    new: MigrationRun,
    act: Action,
)
    requires
        old.wf(),
        old.expects(ev),
        new.wf(),
        step(old, ev, new, act),
    ensures
        act is Execute ==> new.phase is Executing && act->Execute_0 == new.raws@[new.pos as int].sql
            && act->Execute_0@.len() > 0,
        act matches Action::Finish(Err(RunError::SqlExecution { key, sql, error: e })) ==> old.phase is Executing
            && key == old.raws@[old.pos as int].key && sql@.len() > 0,
        old.phase is Connecting && ev is Connected && all_empty(old.raws@, 0, old.raws@.len() as int)
            ==> act == Action::Finish(Ok(true)),
        old.phase is Executing && ev is Executed && all_empty(
            old.raws@,
            old.pos + 1,
            old.raws@.len() as int,
        ) ==> act == Action::Finish(Ok(true)),
{
}

/// A failed script halts the run: the scripts with a body before it have
/// all run and stay applied, the failure names it, and the run accepts no
/// further event, so no script after it runs.
pub proof fn lemma_failure_halts(old: MigrationRun, e: String, new: MigrationRun, act: Action)
    requires
        old.wf(),
        old.phase is Executing,
        step(old, Event::ExecuteFailed(e), new, act),
    ensures
        new.applied@ == keys_with_body(old.raws@.subrange(0, old.pos as int)),
        act == Action::Finish(
            Err(
                (RunError::SqlExecution {
                    key: old.raws@[old.pos as int].key,
                    sql: old.raws@[old.pos as int].sql,
                    error: e,
                }),
            ),
        ),
        forall|ev: Event| !(#[trigger] new.expects(ev)),
{
}

/// The states and actions that successive calls of `on_event` go through:
/// from `states[i]`, the event `evs[i]` leads to `states[i + 1]` and the
/// action `acts[i]`.
pub open spec fn is_trace(evs: Seq<Event>, states: Seq<MigrationRun>, acts: Seq<Action>) -> bool {
    &&& states.len() == evs.len() + 1
    &&& acts.len() == evs.len()
    &&& forall|i: int| #![trigger states[i]] 0 <= i < states.len() ==> states[i].wf()
    &&& forall|i: int|
        #![trigger acts[i]]
        0 <= i < evs.len() ==> {
            &&& states[i].expects(evs[i])
            &&& step(states[i], evs[i], states[i + 1], acts[i])
        }
}

proof fn lemma_kwb_skips_empty(raws: Seq<RawSql>, from: int, to: int)
    requires
        0 <= from <= to <= raws.len(),
        all_empty(raws, from, to),
    ensures
        keys_with_body(raws.subrange(0, to)) == keys_with_body(raws.subrange(0, from)),
    decreases to - from,
{
    if from < to {
        lemma_kwb_skips_empty(raws, from, to - 1);
        lemma_keys_with_body_step(raws, to - 1);
    }
}

/// Over a whole run, no script without a body is ever executed, none is
/// ever blamed for a failure, and a run that succeeds has applied exactly
/// the scripts with a body, in fetched order.
pub proof fn lemma_run_skips_empty_scripts(
    evs: Seq<Event>,
    states: Seq<MigrationRun>,
    acts: Seq<Action>,
)
    requires
        is_trace(evs, states, acts),
    ensures
        forall|i: int|
            0 <= i < acts.len() && #[trigger] acts[i] is Execute ==> acts[i]->Execute_0@.len() > 0,
        forall|i: int|
            #![trigger acts[i]]
            0 <= i < acts.len() ==> (acts[i] matches Action::Finish(
                Err(RunError::SqlExecution { sql, .. }),
            ) ==> sql@.len() > 0),
        forall|i: int|
            0 <= i < acts.len() && #[trigger] acts[i] == Action::Finish(Ok(true))
                ==> states[i + 1].applied@ == keys_with_body(states[i + 1].raws@),
{
    assert forall|i: int| 0 <= i < acts.len() implies {
        &&& (#[trigger] acts[i] is Execute ==> acts[i]->Execute_0@.len() > 0)
        &&& (acts[i] matches Action::Finish(Err(RunError::SqlExecution { sql, .. }))
            ==> sql@.len() > 0)
        &&& (acts[i] == Action::Finish(Ok(true)) ==> states[i + 1].applied@ == keys_with_body(
            states[i + 1].raws@,
        ))
    } by {
        let (old, new) = (states[i], states[i + 1]);
        lemma_empty_scripts_skipped(old, evs[i], new, acts[i]);
        if acts[i] == Action::Finish(Ok(true)) {
            let n = new.raws@.len() as int;
            assert(new.raws@.subrange(0, n) =~= new.raws@);
            if old.phase is Connecting {
                assert(old.raws@.subrange(0, 0) =~= Seq::<RawSql>::empty());
                assert(old.applied@ =~= Seq::<String>::empty());
                lemma_kwb_skips_empty(new.raws@, 0, n);
            } else {
                lemma_keys_with_body_step(old.raws@, old.pos as int);
                lemma_kwb_skips_empty(new.raws@, old.pos + 1, n);
            }
        }
    }
}

/// Over a whole run, a failed script is the last thing that happens: the
/// action that reports it is the last action of the run, so no script after
/// it is executed, and the scripts with a body before it all stay applied.
pub proof fn lemma_run_halts_on_failure(
    evs: Seq<Event>,
    states: Seq<MigrationRun>,
    acts: Seq<Action>,
)
    requires
        is_trace(evs, states, acts),
    ensures
        forall|i: int| 0 <= i < acts.len() && #[trigger] acts[i] is Finish ==> i == acts.len() - 1,
        forall|i: int|
            #![trigger acts[i]]
            0 <= i < acts.len() ==> (acts[i] matches Action::Finish(
                Err(RunError::SqlExecution { key, .. }),
            ) ==> {
                &&& states[i].phase is Executing
                &&& key == states[i].raws@[states[i].pos as int].key
                &&& states[i + 1].applied@ == keys_with_body(
                    states[i].raws@.subrange(0, states[i].pos as int),
                )
            }),
{
    assert forall|i: int| 0 <= i < acts.len() && #[trigger] acts[i] is Finish implies i
        == acts.len() - 1 by {
        assert(states[i + 1].phase is Finished);
        if i + 1 < acts.len() {
            // A further step would need an event that a finished run expects.
            let j = i + 1;
            assert(step(states[j], evs[j], states[j + 1], acts[j]));
            assert(states[j].expects(evs[j]));
        }
    }
    assert forall|i: int| 0 <= i < acts.len() implies (#[trigger] acts[i] matches Action::Finish(
        Err(RunError::SqlExecution { key, .. }),
    ) ==> {
        &&& states[i].phase is Executing
        &&& key == states[i].raws@[states[i].pos as int].key
        &&& states[i + 1].applied@ == keys_with_body(
            states[i].raws@.subrange(0, states[i].pos as int),
        )
    }) by {
        lemma_empty_scripts_skipped(states[i], evs[i], states[i + 1], acts[i]);
    }
}

} // verus!
