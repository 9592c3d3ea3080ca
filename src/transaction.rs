use vstd::prelude::*;

use crate::data::{ObjectId, Value};
use crate::error::{check_row, mismatch_error, Error, NotFoundError};
use crate::object::{field_types, fits, Schema};
use crate::storage::{seq_result, table_step, RecordedStorage, StorageCall, StorageTransaction};

verus! {

/// Whether a cached object matches storage, must be written back, or must be
/// deleted.
#[derive(Clone, Copy, PartialEq, Eq, Structural, Debug)]
pub enum ObjectState {
    Clean,
    Modified,
    Removed,
}

/// What the cache holds of one object: its state, its schema, and its current
/// value as a row.
pub struct CacheValue {
    pub state: ObjectState,
    pub schema: Schema,
    pub obj: Vec<Value>,
}

/// The mathematical content of a cache entry.
pub ghost struct CacheView {
    pub state: ObjectState,
    pub schema: Schema,
    pub row: Seq<Value>,
}

impl View for CacheValue {
    type V = CacheView;

    open spec fn view(&self) -> CacheView {
        CacheView { state: self.state, schema: self.schema, row: self.obj@ }
    }
}

impl CacheValue {
    /// A freshly loaded or created object: it matches storage.
    pub fn new(schema: Schema, obj: Vec<Value>) -> (r: CacheValue)
        ensures
            r.state == ObjectState::Clean,
            r.schema == schema,
            r.obj == obj,
    {
        CacheValue { state: ObjectState::Clean, schema, obj }
    }
}

struct CacheEntry {
    id: ObjectId,
    value: CacheValue,
}

/// No identifier occurs twice.
spec fn unique_ids(s: Seq<CacheEntry>) -> bool {
    forall|i: int, j: int|
        0 <= i < s.len() && 0 <= j < s.len() && i != j ==> s[i].id != s[j].id
}

/// Every entry's row fits the entry's schema.
spec fn all_fit(s: Seq<CacheEntry>) -> bool {
    forall|i: int| 0 <= i < s.len() ==> fits(#[trigger] s[i].value.schema, s[i].value.obj@)
}

spec fn holds_id(s: Seq<CacheEntry>, id: ObjectId) -> bool {
    exists|i: int| 0 <= i < s.len() && s[i].id == id
}

/// The identity map that a sequence of entries stands for.
spec fn map_of(s: Seq<CacheEntry>) -> Map<ObjectId, CacheView> {
    Map::new(
        |id: ObjectId| holds_id(s, id),
        |id: ObjectId| s[choose|i: int| 0 <= i < s.len() && s[i].id == id].value@,
    )
}

proof fn lemma_map_at(s: Seq<CacheEntry>, i: int)
    requires
        unique_ids(s),
        0 <= i < s.len(),
    ensures
        map_of(s).contains_key(s[i].id),
        map_of(s)[s[i].id] == s[i].value@,
{
    let id = s[i].id;
    assert(holds_id(s, id));
    let j = choose|j: int| 0 <= j < s.len() && s[j].id == id;
    assert(j == i);
}

proof fn lemma_map_update(s: Seq<CacheEntry>, i: int, e: CacheEntry)
    requires
        unique_ids(s),
        0 <= i < s.len(),
        e.id == s[i].id,
    ensures
        unique_ids(s.update(i, e)),
        map_of(s.update(i, e)) == map_of(s).insert(e.id, e.value@),
{
    let t = s.update(i, e);
    assert(unique_ids(t));
    assert forall|k: ObjectId| #[trigger] holds_id(t, k) == holds_id(s, k) by {
        if holds_id(s, k) {
            let j = choose|j: int| 0 <= j < s.len() && s[j].id == k;
            assert(t[j].id == k);
        }
        if holds_id(t, k) {
            let j = choose|j: int| 0 <= j < t.len() && t[j].id == k;
            assert(s[j].id == k);
        }
    }
    assert forall|k: ObjectId| #[trigger] map_of(t).contains_key(k) implies map_of(t)[k] == map_of(
        s,
    ).insert(e.id, e.value@)[k] by {
        let j = choose|j: int| 0 <= j < t.len() && t[j].id == k;
        lemma_map_at(t, j);
        if j != i {
            lemma_map_at(s, j);
        }
    }
    assert(map_of(t) =~= map_of(s).insert(e.id, e.value@));
}

proof fn lemma_map_push(s: Seq<CacheEntry>, e: CacheEntry)
    requires
        unique_ids(s),
        !holds_id(s, e.id),
    ensures
        unique_ids(s.push(e)),
        map_of(s.push(e)) == map_of(s).insert(e.id, e.value@),
{
    let t = s.push(e);
    assert forall|i: int, j: int|
        0 <= i < t.len() && 0 <= j < t.len() && i != j implies t[i].id != t[j].id by {
        if i == s.len() as int {
            assert(s[j].id != e.id);
        } else if j == s.len() as int {
            assert(s[i].id != e.id);
        }
    }
    assert forall|k: ObjectId| #[trigger] holds_id(t, k) == (holds_id(s, k) || k == e.id) by {
        if holds_id(s, k) {
            let j = choose|j: int| 0 <= j < s.len() && s[j].id == k;
            assert(t[j].id == k);
        }
        if holds_id(t, k) && k != e.id {
            let j = choose|j: int| 0 <= j < t.len() && t[j].id == k;
            assert(s[j].id == k);
        }
        if k == e.id {
            assert(t[s.len() as int].id == k);
        }
    }
    assert forall|k: ObjectId| #[trigger] map_of(t).contains_key(k) implies map_of(t)[k] == map_of(
        s,
    ).insert(e.id, e.value@)[k] by {
        let j = choose|j: int| 0 <= j < t.len() && t[j].id == k;
        lemma_map_at(t, j);
        if j != s.len() as int {
            lemma_map_at(s, j);
        }
    }
    assert(map_of(t) =~= map_of(s).insert(e.id, e.value@));
}

/// Looks an identifier up among the entries.
fn find(entries: &Vec<CacheEntry>, id: ObjectId) -> (r: Option<usize>)
    ensures
        match r {
            Some(i) => i < entries@.len() && entries@[i as int].id == id,
            None => !holds_id(entries@, id),
        },
{
    let mut i: usize = 0;
    while i < entries.len()
        invariant
            i <= entries@.len(),
            forall|j: int| 0 <= j < i ==> entries@[j].id != id,
        decreases entries@.len() - i,
    {
        if entries[i].id == id {
            return Some(i);
        }
        i = i + 1;
    }
    None
}

/// A write that commit owes the backend for one cached object.
#[derive(Clone, Copy, PartialEq, Eq, Structural, Debug)]
pub enum FlushOp {
    /// Write the object's current row back.
    Update(ObjectId),
    /// Delete the object's row.
    Delete(ObjectId),
}

/// The object a write is for.
pub open spec fn flush_target(op: FlushOp) -> ObjectId {
    match op {
        FlushOp::Update(id) => id,
        FlushOp::Delete(id) => id,
    }
}

/// How often `x` occurs in `s`.
pub open spec fn occurrences<A>(s: Seq<A>, x: A) -> nat
    decreases s.len(),
{
    if s.len() == 0 {
        0
    } else {
        occurrences(s.drop_last(), x) + if s.last() == x {
            1nat
        } else {
            0nat
        }
    }
}

/// How many updates commit owes an identifier: one for a modified object,
/// none otherwise.
pub open spec fn updates_owed(m: Map<ObjectId, CacheView>, id: ObjectId) -> nat {
    if m.contains_key(id) && m[id].state == ObjectState::Modified {
        1
    } else {
        0
    }
}

/// How many deletes commit owes an identifier: one for a removed object,
/// none otherwise.
pub open spec fn deletes_owed(m: Map<ObjectId, CacheView>, id: ObjectId) -> nat {
    if m.contains_key(id) && m[id].state == ObjectState::Removed {
        1
    } else {
        0
    }
}

spec fn op_seq(e: CacheEntry) -> Seq<FlushOp> {
    match e.value.state {
        ObjectState::Clean => Seq::empty(),
        ObjectState::Modified => seq![FlushOp::Update(e.id)],
        ObjectState::Removed => seq![FlushOp::Delete(e.id)],
    }
}

/// The writes owed for a sequence of entries, in entry order.
spec fn planned(s: Seq<CacheEntry>) -> Seq<FlushOp>
    decreases s.len(),
{
    if s.len() == 0 {
        Seq::empty()
    } else {
        planned(s.drop_last()) + op_seq(s.last())
    }
}

proof fn lemma_occurrences_concat<A>(a: Seq<A>, b: Seq<A>, x: A)
    ensures
        occurrences(a + b, x) == occurrences(a, x) + occurrences(b, x),
    decreases b.len(),
{
    if b.len() == 0 {
        assert(a + b =~= a);
    } else {
        assert((a + b).drop_last() =~= a + b.drop_last());
        lemma_occurrences_concat(a, b.drop_last(), x);
    }
}

proof fn lemma_occurrences_one<A>(y: A, x: A)
    ensures
        occurrences(seq![y], x) == if y == x {
            1nat
        } else {
            0nat
        },
{
    assert(seq![y].drop_last() =~= Seq::<A>::empty());
    assert(occurrences(Seq::<A>::empty(), x) == 0);
    assert(seq![y].last() == y);
}

proof fn lemma_planned(s: Seq<CacheEntry>, id: ObjectId)
    requires
        unique_ids(s),
    ensures
        occurrences(planned(s), FlushOp::Update(id)) == updates_owed(map_of(s), id),
        occurrences(planned(s), FlushOp::Delete(id)) == deletes_owed(map_of(s), id),
        forall|k: int| 0 <= k < planned(s).len() ==> holds_id(s, flush_target(planned(s)[k])),
    decreases s.len(),
{
    if s.len() > 0 {
        let p = s.drop_last();
        let e = s.last();
        assert(p.push(e) =~= s);
        assert(unique_ids(p));
        if holds_id(p, e.id) {
            let j = choose|j: int| 0 <= j < p.len() && p[j].id == e.id;
            assert(s[j].id == s[s.len() - 1].id);
        }
        lemma_map_push(p, e);
        lemma_planned(p, id);
        lemma_occurrences_concat(planned(p), op_seq(e), FlushOp::Update(id));
        lemma_occurrences_concat(planned(p), op_seq(e), FlushOp::Delete(id));
        match e.value.state {
            ObjectState::Clean => {
                assert(planned(s) =~= planned(p));
            },
            ObjectState::Modified => {
                lemma_occurrences_one(FlushOp::Update(e.id), FlushOp::Update(id));
                lemma_occurrences_one(FlushOp::Update(e.id), FlushOp::Delete(id));
            },
            ObjectState::Removed => {
                lemma_occurrences_one(FlushOp::Delete(e.id), FlushOp::Update(id));
                lemma_occurrences_one(FlushOp::Delete(e.id), FlushOp::Delete(id));
            },
        }
        assert forall|k: int| 0 <= k < planned(s).len() implies holds_id(
            s,
            flush_target(planned(s)[k]),
        ) by {
            if k < planned(p).len() {
                assert(planned(s)[k] == planned(p)[k]);
                let t = flush_target(planned(p)[k]);
                let j = choose|j: int| 0 <= j < p.len() && p[j].id == t;
                assert(s[j].id == t);
            } else {
                assert(s[s.len() - 1].id == flush_target(planned(s)[k]));
            }
        }
    }
}
/// One transaction's object cache over a backend transaction. It holds at
/// most one entry per identifier, so every handle for an identifier reaches
/// the same value.
pub struct Transaction<S> {
    port: RecordedStorage<S>,
    entries: Vec<CacheEntry>,
}

/// A handle on one cached object. All access goes through the transaction
/// that owns the entry, so a mutable access can never overlap another
/// access to the same entry.
#[derive(Clone, Copy, PartialEq, Eq, Structural, Debug)]
pub struct Tx {
    pub id: ObjectId,
}

impl<S: StorageTransaction> View for Transaction<S> {
    type V = Map<ObjectId, CacheView>;

    /// The identity map: each cached identifier and what its entry holds.
    closed spec fn view(&self) -> Map<ObjectId, CacheView> {
        map_of(self.entries@)
    }
}

/// `after` is `before` followed by more calls.
pub open spec fn extends(before: Seq<StorageCall>, after: Seq<StorageCall>) -> bool {
    before.len() <= after.len() && after.take(before.len() as int) == before
}

/// The calls in `after` past those of `before`.
pub open spec fn added(before: Seq<StorageCall>, after: Seq<StorageCall>) -> Seq<StorageCall> {
    after.skip(before.len() as int)
}

/// A create that made the calls `w`: the table step, then, unless that
/// failed, one insert of `row`. Its result and the cache (`m0` before, `m1`
/// after) follow the last answer: a failure is handed on and leaves the
/// cache as it was; a new identifier is cached as `Clean` with `row`.
pub open spec fn created(
    m0: Map<ObjectId, CacheView>,
    m1: Map<ObjectId, CacheView>,
    schema: Schema,
    row: Seq<Value>,
    w: Seq<StorageCall>,
    r: Result<Tx, Error>,
) -> bool {
    match table_step(schema, w) {
        Some((n, Err(e))) => w.len() == n && r == Err::<Tx, Error>(e) && m1 == m0,
        Some((n, Ok(_))) => w.len() == n + 1 && match w[n as int] {
            StorageCall::InsertRow(s, cells, answer) => s == schema && cells == row && match answer {
                Ok(id) => r == Ok::<Tx, Error>(Tx { id }) && m1 == m0.insert(
                    id,
                    CacheView { state: ObjectState::Clean, schema, row },
                ),
                Err(e) => r == Err::<Tx, Error>(e) && m1 == m0,
            },
            _ => false,
        },
        None => false,
    }
}

/// A get of an uncached `id` that made the calls `w`: the table step, then,
/// unless that failed, one read of the row. A failure is handed on and
/// leaves the cache as it was. A row read that fits the schema is cached as
/// `Clean`; one that does not is a mismatch error, and nothing is cached.
pub open spec fn loaded(
    m0: Map<ObjectId, CacheView>,
    m1: Map<ObjectId, CacheView>,
    schema: Schema,
    id: ObjectId,
    w: Seq<StorageCall>,
    r: Result<Tx, Error>,
) -> bool {
    match table_step(schema, w) {
        Some((n, Err(e))) => w.len() == n && r == Err::<Tx, Error>(e) && m1 == m0,
        Some((n, Ok(_))) => w.len() == n + 1 && match w[n as int] {
            StorageCall::SelectRow(i, s, answer) => i == id && s == schema && match answer {
                Ok(row) => if fits(schema, row) {
                    r == Ok::<Tx, Error>(Tx { id }) && m1 == m0.insert(
                        id,
                        CacheView { state: ObjectState::Clean, schema, row },
                    )
                } else {
                    r is Err && mismatch_error(schema, row, r->Err_0) && m1 == m0
                },
                Err(e) => r == Err::<Tx, Error>(e) && m1 == m0,
            },
            _ => false,
        },
        None => false,
    }
}

/// The write that a call stands for; none for a call that is not a write.
pub open spec fn call_op(c: StorageCall) -> Option<FlushOp> {
    match c {
        StorageCall::DeleteRow(id, _, _) => Some(FlushOp::Delete(id)),
        StorageCall::UpdateRow(id, _, _, _) => Some(FlushOp::Update(id)),
        _ => None,
    }
}

/// The writes of a plan, each as a write that a call stands for.
pub open spec fn as_calls(s: Seq<FlushOp>) -> Seq<Option<FlushOp>> {
    s.map_values(|op: FlushOp| Some(op))
}

proof fn lemma_occurrences_as_calls(s: Seq<FlushOp>, x: FlushOp)
    ensures
        occurrences(as_calls(s), Some(x)) == occurrences(s, x),
    decreases s.len(),
{
    if s.len() > 0 {
        assert(as_calls(s).drop_last() =~= as_calls(s.drop_last()));
        lemma_occurrences_as_calls(s.drop_last(), x);
    }
}

/// How a call that answers with no value went.
pub open spec fn call_result(c: StorageCall) -> Result<(), Error> {
    match c {
        StorageCall::UpdateRow(_, _, _, r) => r,
        StorageCall::DeleteRow(_, _, r) => r,
        StorageCall::Commit(r) => r,
        StorageCall::Rollback(r) => r,
        StorageCall::CreateTable(_, r) => r,
        _ => Ok(()),
    }
}

/// A write that the cache `m` owes: an update of a modified object with its
/// schema and current row, or a delete of a removed object with its schema.
pub open spec fn owed_call(m: Map<ObjectId, CacheView>, c: StorageCall) -> bool {
    match c {
        StorageCall::UpdateRow(id, s, row, _) => m.contains_key(id) && m[id].state
            == ObjectState::Modified && s == m[id].schema && row == m[id].row,
        StorageCall::DeleteRow(id, s, _) => m.contains_key(id) && m[id].state
            == ObjectState::Removed && s == m[id].schema,
        _ => false,
    }
}

/// The writes that the calls `w` stand for.
pub open spec fn call_ops(w: Seq<StorageCall>) -> Seq<Option<FlushOp>> {
    w.map_values(|c: StorageCall| call_op(c))
}

/// A flush of the cache `m` that made the calls `w` and ended with `r`.
/// Every call is a write that `m` owes. On success every write succeeded
/// and each owed write was made exactly once: one update per modified
/// object, one delete per removed object, nothing for a clean one. On
/// failure the last write failed with the error handed on, every earlier
/// one succeeded, and no owed write was made twice.
pub open spec fn flushed(m: Map<ObjectId, CacheView>, w: Seq<StorageCall>, r: Result<(), Error>) -> bool {
    &&& forall|k: int| 0 <= k < w.len() ==> owed_call(m, #[trigger] w[k])
    &&& match r {
        Ok(_) => {
            &&& forall|k: int| 0 <= k < w.len() ==> call_result(#[trigger] w[k]) is Ok
            &&& forall|id: ObjectId| #[trigger]
                occurrences(call_ops(w), Some(FlushOp::Update(id))) == updates_owed(m, id)
            &&& forall|id: ObjectId| #[trigger]
                occurrences(call_ops(w), Some(FlushOp::Delete(id))) == deletes_owed(m, id)
        },
        Err(e) => {
            &&& w.len() > 0
            &&& call_result(w.last()) == Err::<(), Error>(e)
            &&& forall|k: int| 0 <= k < w.len() - 1 ==> call_result(#[trigger] w[k]) is Ok
            &&& forall|id: ObjectId| #[trigger]
                occurrences(call_ops(w), Some(FlushOp::Update(id))) <= updates_owed(m, id)
            &&& forall|id: ObjectId| #[trigger]
                occurrences(call_ops(w), Some(FlushOp::Delete(id))) <= deletes_owed(m, id)
        },
    }
}

/// A commit of the cache `m` that made the calls `w` and ended with `r`:
/// a flush, and, where the flush succeeded, one backend commit as the last
/// call, whose answer is the result.
pub open spec fn committed(m: Map<ObjectId, CacheView>, w: Seq<StorageCall>, r: Result<(), Error>) -> bool {
    (r is Err && flushed(m, w, r)) || (w.len() >= 1 && w.last() == StorageCall::Commit(r) && flushed(
        m,
        w.drop_last(),
        Ok(()),
    ))
}

proof fn lemma_table_step_extend(schema: Schema, w: Seq<StorageCall>, x: StorageCall, r: Result<(), Error>)
    requires
        table_step(schema, w) == Some((w.len(), r)),
    ensures
        table_step(schema, w.push(x)) == Some((w.len(), r)),
{
    assert(w.push(x)[0] == w[0]);
    if w.len() >= 2 {
        assert(w.push(x)[1] == w[1]);
    }
}

proof fn lemma_added(before: Seq<StorageCall>, w: Seq<StorageCall>)
    ensures
        extends(before, before + w),
        added(before, before + w) == w,
{
    assert((before + w).take(before.len() as int) =~= before);
    assert((before + w).skip(before.len() as int) =~= w);
}

proof fn lemma_occurrences_at<A>(s: Seq<A>, k: int)
    requires
        0 <= k < s.len(),
    ensures
        occurrences(s, s[k]) >= 1,
    decreases s.len(),
{
    if k < s.len() - 1 {
        lemma_occurrences_at(s.drop_last(), k);
    }
}

proof fn lemma_occurrences_prefix<A>(s: Seq<A>, k: int, x: A)
    requires
        0 <= k <= s.len(),
    ensures
        occurrences(s.take(k), x) <= occurrences(s, x),
{
    lemma_occurrences_concat(s.take(k), s.skip(k), x);
    assert(s.take(k) + s.skip(k) =~= s);
}

impl<S: StorageTransaction> Transaction<S> {
    /// The cache's invariant: at most one entry per identifier, and every
    /// cached row fits its schema.
    pub closed spec fn wf(&self) -> bool {
        unique_ids(self.entries@) && all_fit(self.entries@)
    }

    /// Every row in a well-formed cache fits its schema.
    pub proof fn lemma_cached_rows_fit(&self)
        requires
            self.wf(),
        ensures
            forall|id: ObjectId| #[trigger]
                self@.contains_key(id) ==> fits(self@[id].schema, self@[id].row),
    {
        assert forall|id: ObjectId| #[trigger] self@.contains_key(id) implies fits(
            self@[id].schema,
            self@[id].row,
        ) by {
            let j = choose|j: int| 0 <= j < self.entries@.len() && self.entries@[j].id == id;
            lemma_map_at(self.entries@, j);
        }
    }

    /// Every call made on the backend so far, oldest first, with its answer.
    pub closed spec fn backend_calls(&self) -> Seq<StorageCall> {
        self.port.calls()
    }

    /// A transaction with an empty cache over an open backend transaction.
    pub fn new(inner: S) -> (r: Self)
        ensures
            r.wf(),
            r@ == Map::<ObjectId, CacheView>::empty(),
            r.backend_calls() == Seq::<StorageCall>::empty(),
    {
        let r = Transaction { port: RecordedStorage::new(inner), entries: Vec::new() };
        assert(r@ =~= Map::<ObjectId, CacheView>::empty());
        r
    }

    /// Creates the schema's table unless it is there already. The cache is
    /// left as it is.
    fn ensure_table_exists(&mut self, schema: &Schema) -> (r: Result<(), Error>)
        ensures
            final(self).entries == old(self).entries,
            extends(old(self).backend_calls(), final(self).backend_calls()),
            table_step(*schema, added(old(self).backend_calls(), final(self).backend_calls()))
                == Some(
                (added(old(self).backend_calls(), final(self).backend_calls()).len(), r),
            ),
    {
        let ghost c0 = self.backend_calls();
        let answer = self.port.table_exists(schema.table_name.as_str());
        let ghost w1 = seq![StorageCall::TableExists(schema.table_name@, answer)];
        proof {
            assert(self.backend_calls() =~= c0 + w1);
            lemma_added(c0, w1);
        }
        match answer {
            Err(e) => Err(e),
            Ok(true) => Ok(()),
            Ok(false) => {
                let made = self.port.create_table(schema);
                proof {
                    let w2 = w1.push(StorageCall::CreateTable(*schema, made));
                    assert(self.backend_calls() =~= c0 + w2);
                    lemma_added(c0, w2);
                }
                made
            },
        }
    }

    /// Puts an entry under its identifier, in place of any entry already there.
    fn put(&mut self, id: ObjectId, value: CacheValue)
        requires
            old(self).wf(),
            fits(value.schema, value.obj@),
        ensures
            final(self).wf(),
            final(self)@ == old(self)@.insert(id, value@),
            final(self).port == old(self).port,
    {
        let ghost v = value@;
        let e = CacheEntry { id, value };
        proof {
            assert(e.value@ == v);
        }
        match find(&self.entries, id) {
            Some(i) => {
                proof {
                    lemma_map_update(self.entries@, i as int, e);
                }
                self.entries.set(i, e);
                proof {
                    assert forall|j: int| 0 <= j < self.entries@.len() implies fits(
                        #[trigger] self.entries@[j].value.schema,
                        self.entries@[j].value.obj@,
                    ) by {
                        if j != i as int {
                            assert(self.entries@[j] == old(self).entries@[j]);
                        }
                    }
                }
            },
            None => {
                proof {
                    lemma_map_push(self.entries@, e);
                }
                self.entries.push(e);
                proof {
                    assert forall|j: int| 0 <= j < self.entries@.len() implies fits(
                        #[trigger] self.entries@[j].value.schema,
                        self.entries@[j].value.obj@,
                    ) by {
                        if j < old(self).entries@.len() {
                            assert(self.entries@[j] == old(self).entries@[j]);
                        }
                    }
                }
            },
        }
    }

    /// Persists a new object and caches it as `Clean` under the identifier
    /// that the backend assigned. The table is created first where it is
    /// missing. A failure is handed on as it came, after no further call,
    /// and leaves the cache unchanged.
    pub fn create(&mut self, schema: Schema, obj: Vec<Value>) -> (r: Result<Tx, Error>)
        requires
            old(self).wf(),
            fits(schema, obj@),
        ensures
            final(self).wf(),
            extends(old(self).backend_calls(), final(self).backend_calls()),
            created(
                old(self)@,
                final(self)@,
                schema,
                obj@,
                added(old(self).backend_calls(), final(self).backend_calls()),
                r,
            ),
    {
        let ghost c0 = self.backend_calls();
        let ghost m0 = self@;
        let made = self.ensure_table_exists(&schema);
        let ghost w1 = added(c0, self.backend_calls());
        proof {
            assert(c0 + w1 =~= self.backend_calls());
        }
        if let Err(e) = made {
            return Err(e);
        }
        let answer = self.port.insert_row(&schema, &obj);
        proof {
            let w2 = w1.push(StorageCall::InsertRow(schema, obj@, answer));
            assert(self.backend_calls() =~= c0 + w2);
            lemma_added(c0, w2);
            lemma_table_step_extend(schema, w1, StorageCall::InsertRow(schema, obj@, answer), made);
        }
        match answer {
            Err(e) => Err(e),
            Ok(id) => {
                self.put(id, CacheValue::new(schema, obj));
                Ok(Tx { id })
            },
        }
    }

    /// A handle on the object with this identifier. A cached entry is handed
    /// out without any backend call, unless it was deleted in this
    /// transaction, which makes it not found. Otherwise the table is created
    /// where it is missing and the row is read once. A row that fits the
    /// schema is cached as `Clean`; one that does not is a type or column
    /// mismatch error. A failure is handed on as it came, after no
    /// further call, and leaves the cache unchanged. Asking for a cached
    /// identifier with another schema than its own is a caller error.
    pub fn get(&mut self, schema: Schema, id: ObjectId) -> (r: Result<Tx, Error>)
        requires
            old(self).wf(),
            old(self)@.contains_key(id) ==> old(self)@[id].schema == schema,
        ensures
            final(self).wf(),
            extends(old(self).backend_calls(), final(self).backend_calls()),
            old(self)@.contains_key(id) ==> final(self)@ == old(self)@ && final(self).backend_calls()
                == old(self).backend_calls() && r == (if old(self)@[id].state
                == ObjectState::Removed {
                Err::<Tx, Error>(
                    Error::NotFound(NotFoundError { object_id: id, object_name: schema.object_name }),
                )
            } else {
                Ok::<Tx, Error>(Tx { id })
            }),
            !old(self)@.contains_key(id) ==> loaded(
                old(self)@,
                final(self)@,
                schema,
                id,
                added(old(self).backend_calls(), final(self).backend_calls()),
                r,
            ),
    {
        let ghost c0 = self.backend_calls();
        match find(&self.entries, id) {
            Some(i) => {
                proof {
                    lemma_map_at(self.entries@, i as int);
                    lemma_added(c0, Seq::empty());
                    assert(c0 + Seq::<StorageCall>::empty() =~= c0);
                }
                if self.entries[i].value.state == ObjectState::Removed {
                    Err(Error::NotFound(NotFoundError { object_id: id, object_name: schema.object_name }))
                } else {
                    Ok(Tx { id })
                }
            },
            None => {
                let made = self.ensure_table_exists(&schema);
                let ghost w1 = added(c0, self.backend_calls());
                proof {
                    assert(c0 + w1 =~= self.backend_calls());
                }
                if let Err(e) = made {
                    return Err(e);
                }
                let answer = self.port.select_row(id, &schema);
                proof {
                    let c = StorageCall::SelectRow(id, schema, seq_result(answer));
                    let w2 = w1.push(c);
                    assert(self.backend_calls() =~= c0 + w2);
                    lemma_added(c0, w2);
                    lemma_table_step_extend(schema, w1, c, made);
                }
                match answer {
                    Err(e) => Err(e),
                    Ok(row) => {
                        if let Err(e) = check_row(&schema, &row) {
                            return Err(e);
                        }
                        self.put(id, CacheValue::new(schema, row));
                        Ok(Tx { id })
                    },
                }
            },
        }
    }

    /// Ends the transaction without writing anything back: the one backend
    /// call is the rollback, whose answer is the result. The cache is
    /// dropped; the backend comes back with its record of calls.
    pub fn rollback(self) -> (r: (Result<(), Error>, RecordedStorage<S>))
        ensures
            r.1.calls() == self.backend_calls().push(StorageCall::Rollback(r.0)),
    {
        let mut port = self.port;
        let res = port.rollback();
        (res, port)
    }
}

impl<S: StorageTransaction> Transaction<S> {
    /// The writes that commit owes the backend: exactly one update for each
    /// modified object, exactly one delete for each removed object, and
    /// nothing for a clean one. Their order is not part of the contract.
    pub fn pending_writes(&self) -> (r: Vec<FlushOp>)
        requires
            self.wf(),
        ensures
            forall|id: ObjectId| #[trigger]
                occurrences(r@, FlushOp::Update(id)) == updates_owed(self@, id),
            forall|id: ObjectId| #[trigger]
                occurrences(r@, FlushOp::Delete(id)) == deletes_owed(self@, id),
            forall|k: int| 0 <= k < r@.len() ==> self@.contains_key(flush_target(r@[k])),
    {
        let mut r: Vec<FlushOp> = Vec::new();
        let mut i: usize = 0;
        while i < self.entries.len()
            invariant
                i <= self.entries@.len(),
                r@ == planned(self.entries@.take(i as int)),
            decreases self.entries@.len() - i,
        {
            let e = &self.entries[i];
            match e.value.state {
                ObjectState::Clean => {},
                ObjectState::Modified => r.push(FlushOp::Update(e.id)),
                ObjectState::Removed => r.push(FlushOp::Delete(e.id)),
            }
            proof {
                assert(self.entries@.take(i + 1).drop_last() =~= self.entries@.take(i as int));
                assert(self.entries@.take(i + 1).last() == self.entries@[i as int]);
                assert(r@ =~= planned(self.entries@.take(i as int)) + op_seq(self.entries@[i as int]));
            }
            i = i + 1;
        }
        proof {
            assert(self.entries@.take(i as int) =~= self.entries@);
            assert forall|id: ObjectId| #[trigger]
                occurrences(r@, FlushOp::Update(id)) == updates_owed(self@, id) by {
                lemma_planned(self.entries@, id);
            }
            assert forall|id: ObjectId| #[trigger]
                occurrences(r@, FlushOp::Delete(id)) == deletes_owed(self@, id) by {
                lemma_planned(self.entries@, id);
            }
            lemma_planned(self.entries@, ObjectId(0));
        }
        r
    }

    /// Writes the cache back: for each write of `pending_writes`, one update
    /// with the object's schema and current row, or one delete with its
    /// schema. The first failing write stops the flush and its error is
    /// handed on. The cache is left as it is.
    pub fn flush(&mut self) -> (r: Result<(), Error>)
        requires
            old(self).wf(),
        ensures
            final(self).wf(),
            final(self)@ == old(self)@,
            extends(old(self).backend_calls(), final(self).backend_calls()),
            flushed(old(self)@, added(old(self).backend_calls(), final(self).backend_calls()), r),
    {
        let plan = self.pending_writes();
        let ghost m = self@;
        let ghost c0 = self.backend_calls();
        let ghost mut w: Seq<StorageCall> = Seq::empty();
        proof {
            assert(c0 + w =~= c0);
        }
        let mut k: usize = 0;
        while k < plan.len()
            invariant
                self.wf(),
                self@ == m,
                m == old(self)@,
                c0 == old(self).backend_calls(),
                k <= plan@.len(),
                forall|id: ObjectId| #[trigger]
                    occurrences(plan@, FlushOp::Update(id)) == updates_owed(m, id),
                forall|id: ObjectId| #[trigger]
                    occurrences(plan@, FlushOp::Delete(id)) == deletes_owed(m, id),
                forall|j: int| 0 <= j < plan@.len() ==> m.contains_key(flush_target(plan@[j])),
                self.backend_calls() == c0 + w,
                w.len() == k,
                forall|j: int| 0 <= j < k ==> owed_call(m, #[trigger] w[j]),
                forall|j: int| 0 <= j < k ==> call_result(#[trigger] w[j]) is Ok,
                call_ops(w) == as_calls(plan@.take(k as int)),
            decreases plan@.len() - k,
        {
            let op = plan[k];
            let ghost w_prev = w;
            proof {
                lemma_occurrences_at(plan@, k as int);
                assert(m.contains_key(flush_target(plan@[k as int])));
            }
            let (id, res) = match op {
                FlushOp::Update(id) => {
                    let i = self.index_of(id);
                    let res = self.port.update_row(id, &self.entries[i].value.schema, &self.entries[i].value.obj);
                    proof {
                        w = w.push(StorageCall::UpdateRow(id, m[id].schema, m[id].row, res));
                    }
                    (id, res)
                },
                FlushOp::Delete(id) => {
                    let i = self.index_of(id);
                    let res = self.port.delete_row(id, &self.entries[i].value.schema);
                    proof {
                        w = w.push(StorageCall::DeleteRow(id, m[id].schema, res));
                    }
                    (id, res)
                },
            };
            proof {
                assert(self.backend_calls() =~= c0 + w);
                assert forall|j: int| 0 <= j < k as int implies call_ops(w)[j] == as_calls(
                    plan@.take(k + 1),
                )[j] by {
                    assert(w[j] == w_prev[j]);
                    assert(call_ops(w_prev)[j] == as_calls(plan@.take(k as int))[j]);
                }
                assert(call_ops(w)[k as int] == Some(plan@[k as int]));
                assert(call_ops(w) =~= as_calls(plan@.take(k + 1)));
                assert(owed_call(m, w[k as int]));
            }
            match res {
                Ok(()) => {},
                Err(e) => {
                    proof {
                        lemma_added(c0, w);
                        assert forall|id: ObjectId| #[trigger]
                            occurrences(call_ops(w), Some(FlushOp::Update(id))) <= updates_owed(m, id) by {
                            lemma_occurrences_prefix(plan@, k + 1, FlushOp::Update(id));
                            lemma_occurrences_as_calls(plan@.take(k + 1), FlushOp::Update(id));
                        }
                        assert forall|id: ObjectId| #[trigger]
                            occurrences(call_ops(w), Some(FlushOp::Delete(id))) <= deletes_owed(m, id) by {
                            lemma_occurrences_prefix(plan@, k + 1, FlushOp::Delete(id));
                            lemma_occurrences_as_calls(plan@.take(k + 1), FlushOp::Delete(id));
                        }
                    }
                    return Err(e);
                },
            }
            proof {
                assert(call_result(w[k as int]) == res);
            }
            k = k + 1;
        }
        proof {
            lemma_added(c0, w);
            assert(plan@.take(k as int) =~= plan@);
            assert forall|id: ObjectId| #[trigger]
                occurrences(call_ops(w), Some(FlushOp::Update(id))) == updates_owed(m, id) by {
                lemma_occurrences_as_calls(plan@, FlushOp::Update(id));
            }
            assert forall|id: ObjectId| #[trigger]
                occurrences(call_ops(w), Some(FlushOp::Delete(id))) == deletes_owed(m, id) by {
                lemma_occurrences_as_calls(plan@, FlushOp::Delete(id));
            }
        }
        Ok(())
    }

    /// Ends the transaction: flushes the cache and, where every write
    /// succeeded, commits the backend transaction as the last call, whose
    /// answer is the result. A failed write is handed on and the backend
    /// transaction is left uncommitted. The cache is dropped; the backend
    /// comes back with its record of calls.
    pub fn commit(self) -> (r: (Result<(), Error>, RecordedStorage<S>))
        requires
            self.wf(),
        ensures
            extends(self.backend_calls(), r.1.calls()),
            committed(self@, added(self.backend_calls(), r.1.calls()), r.0),
    {
        let mut t = self;
        let ghost c0 = t.backend_calls();
        let flushed = t.flush();
        let ghost w1 = added(c0, t.backend_calls());
        proof {
            assert(c0 + w1 =~= t.backend_calls());
        }
        if let Err(e) = flushed {
            return (Err(e), t.port);
        }
        let mut port = t.port;
        let res = port.commit();
        proof {
            let w2 = w1.push(StorageCall::Commit(res));
            assert(port.calls() =~= c0 + w2);
            lemma_added(c0, w2);
            assert(w2.drop_last() =~= w1);
        }
        (res, port)
    }
}

/// The identity map after a mutable access through a handle on `id` that
/// writes `value` into column `index`: the entry becomes `Modified`.
pub open spec fn written(m: Map<ObjectId, CacheView>, id: ObjectId, index: int, value: Value) -> Map<
    ObjectId,
    CacheView,
> {
    m.insert(
        id,
        CacheView {
            state: ObjectState::Modified,
            schema: m[id].schema,
            row: m[id].row.update(index, value),
        },
    )
}

/// The identity map after deleting the object `id`: its entry stays, tagged
/// `Removed`, so that commit deletes the row.
pub open spec fn removed(m: Map<ObjectId, CacheView>, id: ObjectId) -> Map<ObjectId, CacheView> {
    m.insert(id, CacheView { state: ObjectState::Removed, schema: m[id].schema, row: m[id].row })
}

impl<S: StorageTransaction> Transaction<S> {
    /// Where the entry of a cached identifier stands.
    fn index_of(&self, id: ObjectId) -> (i: usize)
        requires
            self.wf(),
            self@.contains_key(id),
        ensures
            i < self.entries@.len(),
            self.entries@[i as int].id == id,
            self@[id] == self.entries@[i as int].value@,
    {
        match find(&self.entries, id) {
            Some(i) => {
                proof {
                    lemma_map_at(self.entries@, i as int);
                }
                i
            },
            None => {
                proof {
                    assert(false);
                }
                0
            },
        }
    }

    /// Takes the entry at `i` out, to be put back with `replace_at`.
    fn take_at(&mut self, i: usize) -> (e: CacheEntry)
        requires
            i < old(self).entries@.len(),
        ensures
            e == old(self).entries@[i as int],
            final(self).entries@ == old(self).entries@.remove(i as int),
            final(self).port == old(self).port,
    {
        self.entries.remove(i)
    }

    /// Puts an entry taken out by `take_at` back at `i`, changed but for the same
    /// identifier.
    fn put_back(&mut self, i: usize, e: CacheEntry, Ghost(before): Ghost<Seq<CacheEntry>>)
        requires
            unique_ids(before),
            all_fit(before),
            fits(e.value.schema, e.value.obj@),
            i < before.len(),
            old(self).entries@ == before.remove(i as int),
            e.id == before[i as int].id,
        ensures
            final(self).wf(),
            final(self)@ == map_of(before).insert(e.id, e.value@),
            final(self).port == old(self).port,
    {
        self.entries.insert(i, e);
        proof {
            assert(self.entries@ =~= before.update(i as int, e));
            lemma_map_update(before, i as int, e);
            assert forall|j: int| 0 <= j < self.entries@.len() implies fits(
                #[trigger] self.entries@[j].value.schema,
                self.entries@[j].value.obj@,
            ) by {
                if j != i as int {
                    assert(self.entries@[j] == before[j]);
                }
            }
        }
    }
}

impl Tx {
    /// The identifier this handle is bound to.
    pub fn id(&self) -> (r: ObjectId)
        ensures
            r == self.id,
    {
        self.id
    }

    /// The state of the entry, as every handle on it sees it.
    pub fn state<S: StorageTransaction>(&self, txn: &Transaction<S>) -> (r: ObjectState)
        requires
            txn.wf(),
            txn@.contains_key(self.id),
        ensures
            r == txn@[self.id].state,
    {
        let i = txn.index_of(self.id);
        txn.entries[i].value.state
    }

    /// Read access to the object's current row. A removed object cannot be
    /// read.
    pub fn borrow<'a, S: StorageTransaction>(&self, txn: &'a Transaction<S>) -> (r: &'a Vec<Value>)
        requires
            txn.wf(),
            txn@.contains_key(self.id),
            txn@[self.id].state != ObjectState::Removed,
        ensures
            r@ == txn@[self.id].row,
    {
        let i = txn.index_of(self.id);
        &txn.entries[i].value.obj
    }

    /// Mutable access to the object: writes `value` into column `index`.
    /// Any mutable access counts as a write, so the entry becomes `Modified`
    /// even where the column already held `value`. A removed object cannot
    /// be written.
    pub fn borrow_mut<S: StorageTransaction>(&self, txn: &mut Transaction<S>, index: usize, value: Value)
        requires
            old(txn).wf(),
            old(txn)@.contains_key(self.id),
            old(txn)@[self.id].state != ObjectState::Removed,
            index < old(txn)@[self.id].row.len(),
            index < old(txn)@[self.id].schema.fields@.len(),
            value.spec_data_type() == old(txn)@[self.id].schema.fields@[index as int].data_type,
        ensures
            final(txn).wf(),
            final(txn)@ == written(old(txn)@, self.id, index as int, value),
            final(txn).backend_calls() == old(txn).backend_calls(),
    {
        let i = txn.index_of(self.id);
        let ghost before = txn.entries@;
        let mut e = txn.take_at(i);
        e.value.state = ObjectState::Modified;
        e.value.obj.set(index, value);
        proof {
            let types = field_types(e.value.schema.fields@);
            assert(before[i as int] == old(txn).entries@[i as int]);
            assert(fits(before[i as int].value.schema, before[i as int].value.obj@));
            assert forall|j: int| 0 <= j < e.value.obj@.len() implies #[trigger] e.value.obj@[j].spec_data_type()
                == types[j] by {
                if j != index as int {
                    assert(e.value.obj@[j] == before[i as int].value.obj@[j]);
                }
            }
        }
        txn.put_back(i, e, Ghost(before));
        proof {
            assert(e.value@ == written(old(txn)@, self.id, index as int, value)[self.id]);
        }
    }

    /// Mutable access that writes nothing, as for an object with no
    /// fields: the entry becomes `Modified` all the same. A removed object
    /// cannot be written.
    pub fn touch<S: StorageTransaction>(&self, txn: &mut Transaction<S>)
        requires
            old(txn).wf(),
            old(txn)@.contains_key(self.id),
            old(txn)@[self.id].state != ObjectState::Removed,
        ensures
            final(txn).wf(),
            final(txn)@ == old(txn)@.insert(
                self.id,
                CacheView {
                    state: ObjectState::Modified,
                    schema: old(txn)@[self.id].schema,
                    row: old(txn)@[self.id].row,
                },
            ),
            final(txn).backend_calls() == old(txn).backend_calls(),
    {
        let i = txn.index_of(self.id);
        let ghost before = txn.entries@;
        let mut e = txn.take_at(i);
        e.value.state = ObjectState::Modified;
        txn.put_back(i, e, Ghost(before));
    }

    /// Deletes the object: its entry is tagged `Removed`, commit deletes the
    /// row, and a later `get` of the identifier in this transaction is not
    /// found. The handle is consumed. Deleting needs the transaction
    /// mutably, so no borrow of the entry can be outstanding.
    pub fn delete<S: StorageTransaction>(self, txn: &mut Transaction<S>)
        requires
            old(txn).wf(),
            old(txn)@.contains_key(self.id),
        ensures
            final(txn).wf(),
            final(txn)@ == removed(old(txn)@, self.id),
            final(txn).backend_calls() == old(txn).backend_calls(),
    {
        let i = txn.index_of(self.id);
        let ghost before = txn.entries@;
        let mut e = txn.take_at(i);
        e.value.state = ObjectState::Removed;
        txn.put_back(i, e, Ghost(before));
        proof {
            assert(e.value@ == removed(old(txn)@, self.id)[self.id]);
        }
    }
}

/// Identity map: two handles for one identifier reach the same entry. So a
/// write through one handle is what a read through the other returns, and
/// both see the entry turn `Modified`.
pub proof fn lemma_identity_map(
    m: Map<ObjectId, CacheView>,
    first: Tx,
    second: Tx,
    index: int,
    value: Value,
)
    requires
        first.id == second.id,
        m.contains_key(first.id),
        m[first.id].state != ObjectState::Removed,
        0 <= index < m[first.id].row.len(),
    ensures
        written(m, first.id, index, value).contains_key(second.id),
        written(m, first.id, index, value)[second.id].row == m[first.id].row.update(index, value),
        written(m, first.id, index, value)[second.id].state == ObjectState::Modified,
{
}

} // verus!
