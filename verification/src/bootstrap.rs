//! The bootstrap orchestrator.
//!
//! A run is a conversation between a decision machine and a driver. The
//! machine owns every decision: whether the relation's existence ends the
//! run at once, what DDL to execute, which row to decode next, what to bind
//! into each insertion, and when to stop. The driver only performs each
//! action — catalog query, DDL, file read, insertion — and hands back what
//! happened. `run_model` is the driver for the in-memory reference store;
//! the binary drives the same machine against SQLite.
//!
//! Known limitation, preserved on purpose: the relation's existence is the
//! only marker of a completed bootstrap. A run that fails mid-load leaves
//! the relation existing but incomplete, and a later run treats it as done;
//! recovery needs the relation dropped externally.
use crate::coerce::DecodeError;
use crate::csvio::csv_split;
use crate::csvio::split_csv;
use crate::record::Value;
use crate::record::ValueV;
use crate::record::decode_row;
use crate::record::spec_decode;
use crate::record::track_values;
use crate::schema::create_table_sql;
use crate::schema::ddl_of;
use crate::schema::insert_sql;
use crate::schema::insert_sql_of;
use crate::schema::spec_track_schema;
use crate::schema::track_schema;
use crate::store::MemStore;
use crate::store::MemStoreV;
use crate::store::has_key;
use vstd::prelude::*;

verus! {

/// Why a bootstrap run failed.
#[derive(Clone, Copy, Debug, PartialEq, Eq, Structural)]
pub enum BootstrapError {
    /// The store rejected a statement: connection, DDL or DML failure.
    Store,
    /// The input file could not be read or split into rows.
    Input,
    /// A row field failed type coercion.
    Decode(DecodeError),
}

/// What the driver must do next.
pub enum Action {
    /// Ask the catalog whether the named relation exists.
    QueryExists(String),
    /// Execute the DDL statement.
    CreateTable(String),
    /// Read the input file.
    ReadFile,
    /// Execute the insertion statement with the given bound values.
    Insert(String, Vec<Value>),
    /// The run is over, with this outcome.
    Stop(Result<(), BootstrapError>),
}

pub enum ActionV {
    QueryExists(Seq<char>),
    CreateTable(Seq<char>),
    ReadFile,
    Insert(Seq<char>, Seq<ValueV>),
    Stop(Result<(), BootstrapError>),
}

impl View for Action {
    type V = ActionV;

    open spec fn view(&self) -> ActionV {
        match self {
            Action::QueryExists(t) => ActionV::QueryExists(t@),
            Action::CreateTable(sql) => ActionV::CreateTable(sql@),
            Action::ReadFile => ActionV::ReadFile,
            Action::Insert(sql, vals) => ActionV::Insert(sql@, vals.deep_view()),
            Action::Stop(res) => ActionV::Stop(*res),
        }
    }
}

/// What the driver observed.
pub enum Event {
    /// The catalog's answer to `QueryExists`.
    TableExists(bool),
    /// The file's content, or nothing when it was unreadable.
    FileRead(Option<String>),
    /// Whether the executed statement succeeded.
    ExecDone(bool),
}

pub enum EventV {
    TableExists(bool),
    FileRead(Option<Seq<char>>),
    ExecDone(bool),
}

impl View for Event {
    type V = EventV;

    open spec fn view(&self) -> EventV {
        match self {
            Event::TableExists(b) => EventV::TableExists(*b),
            Event::FileRead(o) => EventV::FileRead(o.deep_view()),
            Event::ExecDone(b) => EventV::ExecDone(*b),
        }
    }
}

#[derive(Clone, Copy, Debug, PartialEq, Eq, Structural)]
pub enum Phase {
    AwaitExists,
    AwaitCreate,
    AwaitFile,
    AwaitInsert,
    Done,
}

/// The decision machine of one bootstrap run. `rows` holds the split input
/// once read, header row first; `next` points at the record being loaded.
pub struct Bootstrap {
    pub phase: Phase,
    pub rows: Vec<Vec<String>>,
    pub next: usize,
}

pub ghost struct BootstrapV {
    pub phase: Phase,
    pub rows: Seq<Seq<Seq<char>>>,
    pub next: int,
}

impl View for Bootstrap {
    type V = BootstrapV;

    open spec fn view(&self) -> BootstrapV {
        BootstrapV { phase: self.phase, rows: self.rows.deep_view(), next: self.next as int }
    }
}

pub open spec fn header_of(m: BootstrapV) -> Seq<Seq<char>> {
    if m.rows.len() > 0 {
        m.rows[0]
    } else {
        Seq::<Seq<char>>::empty()
    }
}

pub open spec fn machine_wf(m: BootstrapV) -> bool {
    &&& 1 <= m.next
    &&& (m.phase == Phase::AwaitInsert ==> m.next < m.rows.len())
}

/// Which events a state can be handed.
pub open spec fn expects(m: BootstrapV, ev: EventV) -> bool {
    match (m.phase, ev) {
        (Phase::AwaitExists, EventV::TableExists(_)) => true,
        (Phase::AwaitCreate, EventV::ExecDone(_)) => true,
        (Phase::AwaitFile, EventV::FileRead(_)) => true,
        (Phase::AwaitInsert, EventV::ExecDone(_)) => true,
        _ => false,
    }
}

pub open spec fn halted(m: BootstrapV) -> BootstrapV {
    BootstrapV { phase: Phase::Done, rows: m.rows, next: m.next }
}

/// Moves to the next record: decode it and ask for its insertion, fail the
/// run on a decode error, or finish when no record is left.
pub open spec fn spec_advance(m: BootstrapV) -> (BootstrapV, ActionV) {
    if m.next >= m.rows.len() {
        (halted(m), ActionV::Stop(Ok(())))
    } else {
        match spec_decode(header_of(m), m.rows[m.next]) {
            Ok(t) => (
                BootstrapV { phase: Phase::AwaitInsert, rows: m.rows, next: m.next },
                ActionV::Insert(insert_sql_of("track"@, spec_track_schema()), track_values(t)),
            ),
            Err(e) => (halted(m), ActionV::Stop(Err(BootstrapError::Decode(e)))),
        }
    }
}

/// The machine's whole transition relation.
pub open spec fn spec_step(m: BootstrapV, ev: EventV) -> (BootstrapV, ActionV) {
    match (m.phase, ev) {
        (Phase::AwaitExists, EventV::TableExists(true)) => (halted(m), ActionV::Stop(Ok(()))),
        (Phase::AwaitExists, EventV::TableExists(false)) => (
            BootstrapV { phase: Phase::AwaitCreate, rows: m.rows, next: m.next },
            ActionV::CreateTable(ddl_of("track"@, spec_track_schema())),
        ),
        (Phase::AwaitCreate, EventV::ExecDone(true)) => (
            BootstrapV { phase: Phase::AwaitFile, rows: m.rows, next: m.next },
            ActionV::ReadFile,
        ),
        (Phase::AwaitCreate, EventV::ExecDone(false)) => (
            halted(m),
            ActionV::Stop(Err(BootstrapError::Store)),
        ),
        (Phase::AwaitFile, EventV::FileRead(None)) => (
            halted(m),
            ActionV::Stop(Err(BootstrapError::Input)),
        ),
        (Phase::AwaitFile, EventV::FileRead(Some(content))) => match csv_split(content) {
            None => (halted(m), ActionV::Stop(Err(BootstrapError::Input))),
            Some(rows) => spec_advance(BootstrapV { phase: m.phase, rows, next: 1 }),
        },
        (Phase::AwaitInsert, EventV::ExecDone(true)) => spec_advance(
            BootstrapV { phase: m.phase, rows: m.rows, next: m.next + 1 },
        ),
        (Phase::AwaitInsert, EventV::ExecDone(false)) => (
            halted(m),
            ActionV::Stop(Err(BootstrapError::Store)),
        ),
        _ => (halted(m), ActionV::Stop(Err(BootstrapError::Store))),
    }
}

impl Bootstrap {
    /// Starts a run: the first thing to learn is whether the relation
    /// already exists.
    pub fn start() -> (r: (Bootstrap, Action))
        ensures
            machine_wf(r.0@),
            r.0@.phase == Phase::AwaitExists,
            r.0@.rows == Seq::<Seq<Seq<char>>>::empty(),
            r.0@.next == 1,
            r.1@ == ActionV::QueryExists("track"@),
    {
        let b = Bootstrap { phase: Phase::AwaitExists, rows: Vec::new(), next: 1 };
        proof {
            assert(b@.rows =~= Seq::<Seq<Seq<char>>>::empty());
        }
        (b, Action::QueryExists("track".to_owned()))
    }

    fn advance(&mut self) -> (a: Action)
        requires
            old(self)@.next >= 1,
        ensures
            (final(self)@, a@) == spec_advance(old(self)@),
            machine_wf(final(self)@),
    {
        if self.next >= self.rows.len() {
            self.phase = Phase::Done;
            return Action::Stop(Ok(()));
        }
        let decoded = decode_row(&self.rows[0], &self.rows[self.next]);
        match decoded {
            Ok(t) => {
                self.phase = Phase::AwaitInsert;
                let cols = track_schema();
                let sql = insert_sql("track", &cols);
                Action::Insert(sql, t.bind_values())
            },
            Err(e) => {
                self.phase = Phase::Done;
                Action::Stop(Err(BootstrapError::Decode(e)))
            },
        }
    }

    /// Consumes what the driver observed and decides the next action.
    pub fn step(&mut self, ev: Event) -> (a: Action)
        requires
            machine_wf(old(self)@),
            expects(old(self)@, ev@),
        ensures
            (final(self)@, a@) == spec_step(old(self)@, ev@),
            machine_wf(final(self)@),
    {
        match self.phase {
            Phase::AwaitExists => match ev {
                Event::TableExists(true) => {
                    self.phase = Phase::Done;
                    Action::Stop(Ok(()))
                },
                Event::TableExists(false) => {
                    self.phase = Phase::AwaitCreate;
                    let cols = track_schema();
                    Action::CreateTable(create_table_sql("track", &cols))
                },
                _ => unreached(),
            },
            Phase::AwaitCreate => match ev {
                Event::ExecDone(true) => {
                    self.phase = Phase::AwaitFile;
                    Action::ReadFile
                },
                Event::ExecDone(false) => {
                    self.phase = Phase::Done;
                    Action::Stop(Err(BootstrapError::Store))
                },
                _ => unreached(),
            },
            Phase::AwaitFile => match ev {
                Event::FileRead(None) => {
                    self.phase = Phase::Done;
                    Action::Stop(Err(BootstrapError::Input))
                },
                Event::FileRead(Some(content)) => match split_csv(content.as_str()) {
                    None => {
                        self.phase = Phase::Done;
                        Action::Stop(Err(BootstrapError::Input))
                    },
                    Some(rows) => {
                        self.rows = rows;
                        self.next = 1;
                        self.advance()
                    },
                },
                _ => unreached(),
            },
            Phase::AwaitInsert => match ev {
                Event::ExecDone(true) => {
                    let n = self.rows.len();
                    proof {
                        assert(old(self)@.next < old(self)@.rows.len());
                        assert(self.rows.deep_view().len() == self.rows@.len());
                        assert(self.next < n);
                    }
                    self.next = self.next + 1;
                    self.advance()
                },
                Event::ExecDone(false) => {
                    self.phase = Phase::Done;
                    Action::Stop(Err(BootstrapError::Store))
                },
                _ => unreached(),
            },
            Phase::Done => unreached(),
        }
    }
}

// --- what a whole run does to a store ---------------------------------------

/// Loading records `i..` of the split input into a store, one autocommit
/// insertion each: stop with the first decode failure or rejected
/// insertion, leaving earlier rows committed.
pub open spec fn spec_load(s: MemStoreV, rows: Seq<Seq<Seq<char>>>, i: int) -> (
    MemStoreV,
    Result<(), BootstrapError>,
)
    decreases rows.len() - i,
{
    if i >= rows.len() {
        (s, Ok(()))
    } else {
        match spec_decode(if rows.len() > 0 {
            rows[0]
        } else {
            Seq::<Seq<char>>::empty()
        }, rows[i]) {
            Err(e) => (s, Err(BootstrapError::Decode(e))),
            Ok(t) => {
                let vals = track_values(t);
                if has_key(s.rows, vals[0]) {
                    (s, Err(BootstrapError::Store))
                } else {
                    spec_load(
                        MemStoreV { table_exists: s.table_exists, rows: s.rows.push(vals) },
                        rows,
                        i + 1,
                    )
                }
            },
        }
    }
}

/// One whole bootstrap run against a store: nothing at all when the
/// relation exists; otherwise create it, then load the file's records in
/// source order until the end or the first failure.
pub open spec fn spec_bootstrap(s: MemStoreV, f: Option<Seq<char>>) -> (
    MemStoreV,
    Result<(), BootstrapError>,
) {
    if s.table_exists {
        (s, Ok(()))
    } else {
        let s1 = MemStoreV { table_exists: true, rows: s.rows };
        match f {
            None => (s1, Err(BootstrapError::Input)),
            Some(content) => match csv_split(content) {
                None => (s1, Err(BootstrapError::Input)),
                Some(rows) => spec_load(s1, rows, 1),
            },
        }
    }
}

spec fn loop_measure(m: BootstrapV, a: ActionV) -> int {
    m.rows.len() - m.next + match a {
        ActionV::Stop(_) => 0int,
        _ => 1int,
    }
}

/// Runs the whole bootstrap against the reference store, the machine
/// deciding and the store answering.
pub fn run_model(store: &mut MemStore, file: Option<&str>) -> (r: Result<(), BootstrapError>)
    ensures
        (final(store)@, r) == spec_bootstrap(old(store)@, file.deep_view()),
{
    let ghost s0 = store@;
    let ghost fv = file.deep_view();
    let (m_start, _first) = Bootstrap::start();
    let mut m = m_start;
    let present = store.has_table();
    let mut a = m.step(Event::TableExists(present));
    if present {
        match a {
            Action::Stop(res) => {
                return res;
            },
            _ => unreached(),
        }
    }
    match a {
        Action::CreateTable(_sql) => {
            store.create_table();
        },
        _ => unreached(),
    }
    proof {
        assert(store@ == MemStoreV { table_exists: true, rows: s0.rows });
    }
    a = m.step(Event::ExecDone(true));
    match a {
        Action::ReadFile => {},
        _ => unreached(),
    }
    let content: Option<String> = match file {
        Some(text) => Some(text.to_owned()),
        None => None,
    };
    proof {
        assert(content.deep_view() == fv);
    }
    a = m.step(Event::FileRead(content));
    loop
        invariant
            machine_wf(m@),
            fv == file.deep_view(),
            s0 == old(store)@,
            match a@ {
                ActionV::Stop(res) => spec_bootstrap(s0, fv) == (store@, res),
                ActionV::Insert(sqlv, valsv) => {
                    &&& m@.phase == Phase::AwaitInsert
                    &&& spec_decode(m@.rows[0], m@.rows[m@.next]) is Ok
                    &&& valsv == track_values(spec_decode(m@.rows[0], m@.rows[m@.next])->Ok_0)
                    &&& spec_bootstrap(s0, fv) == spec_load(store@, m@.rows, m@.next)
                },
                _ => false,
            },
        decreases loop_measure(m@, a@),
    {
        match a {
            Action::Stop(res) => {
                return res;
            },
            Action::Insert(_sql, vals) => {
                proof {
                    assert(vals.deep_view().len() == 15);
                }
                let ghost valsv = vals.deep_view();
                let ghost mb = m@;
                let ghost sb = store@;
                let ok = store.insert(vals);
                a = m.step(Event::ExecDone(ok));
                proof {
                    let t = spec_decode(mb.rows[0], mb.rows[mb.next])->Ok_0;
                    assert(header_of(mb) == mb.rows[0]);
                    assert(valsv == track_values(t));
                    if !ok {
                        assert(has_key(sb.rows, valsv[0]));
                        assert(spec_load(sb, mb.rows, mb.next) == (
                            sb,
                            Err::<(), BootstrapError>(BootstrapError::Store),
                        ));
                        assert(store@ == sb);
                    } else {
                        let s_push = MemStoreV {
                            table_exists: sb.table_exists,
                            rows: sb.rows.push(valsv),
                        };
                        assert(store@ == s_push);
                        assert(spec_load(sb, mb.rows, mb.next) == spec_load(
                            s_push,
                            mb.rows,
                            mb.next + 1,
                        ));
                        let m1 = BootstrapV { phase: mb.phase, rows: mb.rows, next: mb.next + 1 };
                        assert((m@, a@) == spec_advance(m1));
                        assert(header_of(m1) == mb.rows[0]);
                    }
                }
            },
            _ => unreached(),
        }
    }
}

// --- laws --------------------------------------------------------------------

/// Idempotency: with the relation already present, a bootstrap run reads no
/// input and performs no insertion. The store is unchanged, the outcome is
/// success, and the result does not depend on the file's content at all.
pub proof fn lemma_bootstrap_idempotent(
    s: MemStoreV,
    f1: Option<Seq<char>>,
    f2: Option<Seq<char>>,
)
    requires
        s.table_exists,
    ensures
        spec_bootstrap(s, f1) == (s, Ok::<(), BootstrapError>(())),
        spec_bootstrap(s, f1) == spec_bootstrap(s, f2),
{
}

proof fn lemma_load_rows_persist(s: MemStoreV, rows: Seq<Seq<Seq<char>>>, i: int)
    ensures
        spec_load(s, rows, i).0.rows.len() >= s.rows.len(),
        forall|k: int| 0 <= k < s.rows.len() ==> spec_load(s, rows, i).0.rows[k] == s.rows[k],
        spec_load(s, rows, i).0.table_exists == s.table_exists,
    decreases rows.len() - i,
{
    if i < rows.len() {
        match spec_decode(if rows.len() > 0 {
            rows[0]
        } else {
            Seq::<Seq<char>>::empty()
        }, rows[i]) {
            Ok(t) => {
                let vals = track_values(t);
                if !has_key(s.rows, vals[0]) {
                    let s1 = MemStoreV { table_exists: s.table_exists, rows: s.rows.push(vals) };
                    lemma_load_rows_persist(s1, rows, i + 1);
                    assert(spec_load(s, rows, i) == spec_load(s1, rows, i + 1));
                    assert forall|k: int| 0 <= k < s.rows.len() implies spec_load(
                        s,
                        rows,
                        i,
                    ).0.rows[k] == s.rows[k] by {
                        assert(s1.rows[k] == s.rows[k]);
                        assert(spec_load(s1, rows, i + 1).0.rows[k] == s1.rows[k]);
                    }
                }
            },
            Err(_) => {},
        }
    }
}

/// No rollback: whatever a run's outcome, every row already committed
/// stays where it was; a run only appends rows.
pub proof fn lemma_rows_persist(s: MemStoreV, f: Option<Seq<char>>)
    ensures
        spec_bootstrap(s, f).0.rows.len() >= s.rows.len(),
        forall|k: int| 0 <= k < s.rows.len() ==> spec_bootstrap(s, f).0.rows[k] == s.rows[k],
{
    if !s.table_exists {
        let s1 = MemStoreV { table_exists: true, rows: s.rows };
        match f {
            Some(content) => match csv_split(content) {
                Some(rows) => lemma_load_rows_persist(s1, rows, 1),
                None => {},
            },
            None => {},
        }
    }
}

/// Pairwise-distinct primary keys over the stored rows.
pub open spec fn distinct_keys(rows: Seq<Seq<ValueV>>) -> bool {
    forall|i: int, j: int|
        0 <= i < j < rows.len() && #[trigger] rows[i].len() > 0 && #[trigger] rows[j].len() > 0
            ==> rows[i][0] != rows[j][0]
}

proof fn lemma_load_distinct(s: MemStoreV, rows: Seq<Seq<Seq<char>>>, i: int)
    requires
        distinct_keys(s.rows),
    ensures
        distinct_keys(spec_load(s, rows, i).0.rows),
    decreases rows.len() - i,
{
    if i < rows.len() {
        match spec_decode(if rows.len() > 0 {
            rows[0]
        } else {
            Seq::<Seq<char>>::empty()
        }, rows[i]) {
            Ok(t) => {
                let vals = track_values(t);
                if !has_key(s.rows, vals[0]) {
                    let newrows = s.rows.push(vals);
                    assert forall|p: int, q: int|
                        0 <= p < q < newrows.len() && #[trigger] newrows[p].len() > 0
                            && #[trigger] newrows[q].len() > 0 implies newrows[p][0]
                        != newrows[q][0] by {
                        if q == s.rows.len() {
                            assert(newrows[p] == s.rows[p]);
                            assert(!(s.rows[p].len() > 0 && s.rows[p][0] == vals[0]));
                        } else {
                            assert(newrows[p] == s.rows[p] && newrows[q] == s.rows[q]);
                        }
                    }
                    lemma_load_distinct(
                        MemStoreV { table_exists: s.table_exists, rows: newrows },
                        rows,
                        i + 1,
                    );
                }
            },
            Err(_) => {},
        }
    }
}

/// Uniqueness: the primary key admits one row per `track_id`. A run started
/// on a store whose rows bear pairwise distinct keys ends with pairwise
/// distinct keys: a repeated key fails the run instead of replacing or
/// doubling a row.
pub proof fn lemma_bootstrap_distinct(s: MemStoreV, f: Option<Seq<char>>)
    requires
        distinct_keys(s.rows),
    ensures
        distinct_keys(spec_bootstrap(s, f).0.rows),
{
    if !s.table_exists {
        let s1 = MemStoreV { table_exists: true, rows: s.rows };
        match f {
            Some(content) => match csv_split(content) {
                Some(rows) => lemma_load_distinct(s1, rows, 1),
                None => {},
            },
            None => {},
        }
    }
}

} // verus!
