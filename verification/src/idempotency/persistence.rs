//! The claim protocol of the idempotency guard, over a table with one row
//! per (owner, key) pair. A row is written by the transaction that claims
//! the pair and stays locked until that transaction commits or is rolled
//! back.

use vstd::prelude::*;

use crate::text::str_eq;
use crate::idempotency::key::IdempotencyKey;
use crate::idempotency::response::ResponseContent;
use crate::idempotency::response::SavedResponse;

verus! {

/// A row of the table as contracts see it.
pub struct Record {
    /// The caller who owns the key.
    pub owner: u128,
    /// The key.
    pub key: Seq<char>,
    /// The saved response; none as long as the claim is being processed.
    pub response: Option<ResponseContent>,
    /// The open transaction that wrote the row, if it has not ended yet.
    pub holder: Option<u64>,
}

/// No two rows have the same owner and key.
pub open spec fn distinct_records(rows: Seq<Record>) -> bool {
    forall|i: int, j: int|
        0 <= i < rows.len() && 0 <= j < rows.len() && i != j ==> !((#[trigger] rows[i]).owner == (
        #[trigger] rows[j]).owner && rows[i].key == rows[j].key)
}

/// The index of the row of (`owner`, `key`), or the number of rows if
/// there is none.
pub open spec fn record_position(rows: Seq<Record>, owner: u128, key: Seq<char>) -> int
    decreases rows.len(),
{
    if rows.len() == 0 {
        0
    } else if rows[0].owner == owner && rows[0].key == key {
        0
    } else {
        1 + record_position(rows.drop_first(), owner, key)
    }
}

/// Whether (`owner`, `key`) has a row.
pub open spec fn has_record(rows: Seq<Record>, owner: u128, key: Seq<char>) -> bool {
    exists|i: int|
        0 <= i < rows.len() && (#[trigger] rows[i]).owner == owner && rows[i].key == key
}

/// What a claim of (`owner`, `key`) finds.
pub enum Claim {
    /// No row: the claimer writes one and processes the request.
    Granted,
    /// A row that an open transaction holds: the claimer has to wait
    /// until that transaction has ended.
    Locked(u64),
    /// A committed row with a response: the claimer returns it.
    Saved(ResponseContent),
    /// A committed row without a response, which the protocol never
    /// leaves behind.
    Missing,
}

/// What a claim of (`owner`, `key`) finds in `rows`.
pub open spec fn claim_of(rows: Seq<Record>, owner: u128, key: Seq<char>) -> Claim {
    let p = record_position(rows, owner, key);
    if p >= rows.len() {
        Claim::Granted
    } else {
        match (rows[p].holder, rows[p].response) {
            (Some(holder), _) => Claim::Locked(holder),
            (None, Some(response)) => Claim::Saved(response),
            (None, None) => Claim::Missing,
        }
    }
}

/// The rows after the transaction `txn` has claimed (`owner`, `key`): a
/// granted claim appends an empty row that `txn` holds, any other claim
/// changes nothing.
pub open spec fn after_claim(rows: Seq<Record>, txn: u64, owner: u128, key: Seq<char>) -> Seq<
    Record,
> {
    if claim_of(rows, owner, key) is Granted {
        rows.push(Record { owner, key, response: None, holder: Some(txn) })
    } else {
        rows
    }
}

/// Whether `txn` holds the row of (`owner`, `key`).
pub open spec fn holds(rows: Seq<Record>, txn: u64, owner: u128, key: Seq<char>) -> bool {
    let p = record_position(rows, owner, key);
    p < rows.len() && rows[p].holder == Some(txn)
}

/// The rows after `txn` has saved `response` into the row it holds and
/// committed.
pub open spec fn after_save(
    rows: Seq<Record>,
    txn: u64,
    owner: u128,
    key: Seq<char>,
    response: ResponseContent,
) -> Seq<Record> {
    if holds(rows, txn, owner, key) {
        rows.update(
            record_position(rows, owner, key),
            Record { owner, key, response: Some(response), holder: None },
        )
    } else {
        rows
    }
}

/// The rows after `txn` has been rolled back: what it wrote is gone.
pub open spec fn after_rollback(rows: Seq<Record>, txn: u64) -> Seq<Record>
    decreases rows.len(),
{
    if rows.len() == 0 {
        rows
    } else if rows.last().holder == Some(txn) {
        after_rollback(rows.drop_last(), txn)
    } else {
        after_rollback(rows.drop_last(), txn).push(rows.last())
    }
}

/// `record_position` is the least index of a row of the pair, and is
/// within the rows exactly when the pair has a row.
pub proof fn lemma_record_position(rows: Seq<Record>, owner: u128, key: Seq<char>)
    ensures
        0 <= record_position(rows, owner, key) <= rows.len(),
        forall|i: int|
            0 <= i < record_position(rows, owner, key) ==> !((#[trigger] rows[i]).owner == owner
                && rows[i].key == key),
        record_position(rows, owner, key) < rows.len() ==> {
            let p = record_position(rows, owner, key);
            rows[p].owner == owner && rows[p].key == key
        },
        record_position(rows, owner, key) < rows.len() <==> has_record(rows, owner, key),
    decreases rows.len(),
{
    if rows.len() > 0 && !(rows[0].owner == owner && rows[0].key == key) {
        let rest = rows.drop_first();
        lemma_record_position(rest, owner, key);
        assert forall|i: int| 0 <= i < record_position(rows, owner, key) implies !((
        #[trigger] rows[i]).owner == owner && rows[i].key == key) by {
            if i > 0 {
                assert(rows[i] == rest[i - 1]);
            }
        }
        if record_position(rows, owner, key) < rows.len() {
            assert(rows[record_position(rows, owner, key)] == rest[record_position(
                rest,
                owner,
                key,
            )]);
        }
    }
    let p = record_position(rows, owner, key);
    if p < rows.len() {
        assert(rows[p].owner == owner && rows[p].key == key);
    } else if has_record(rows, owner, key) {
        let i = choose|i: int|
            0 <= i < rows.len() && (#[trigger] rows[i]).owner == owner && rows[i].key == key;
        assert(!(rows[i].owner == owner && rows[i].key == key));
    }
}

/// Among distinct rows, the row of a pair is found where it stands.
pub proof fn lemma_position_unique(rows: Seq<Record>, i: int)
    requires
        distinct_records(rows),
        0 <= i < rows.len(),
    ensures
        record_position(rows, rows[i].owner, rows[i].key) == i,
{
    lemma_record_position(rows, rows[i].owner, rows[i].key);
    let p = record_position(rows, rows[i].owner, rows[i].key);
    if p < i {
        assert(rows[p].owner == rows[i].owner && rows[p].key == rows[i].key);
    }
}


struct StoredRecord {
    owner: u128,
    key: IdempotencyKey,
    response: Option<SavedResponse>,
    holder: Option<u64>,
}

impl View for StoredRecord {
    type V = Record;

    closed spec fn view(&self) -> Record {
        Record {
            owner: self.owner,
            key: self.key@,
            response: match self.response {
                Some(response) => Some(response@),
                None => None,
            },
            holder: self.holder,
        }
    }
}

impl StoredRecord {
    /// A copy of the row.
    fn duplicate(&self) -> (copy: StoredRecord)
        ensures
            copy@ == self@,
    {
        StoredRecord {
            owner: self.owner,
            key: self.key.duplicate(),
            response: match &self.response {
                Some(response) => Some(response.duplicate()),
                None => None,
            },
            holder: self.holder,
        }
    }
}

/// The rows as contracts see them.
spec fn records_view(records: Seq<StoredRecord>) -> Seq<Record> {
    Seq::new(records.len(), |i: int| records[i]@)
}

/// The table of the idempotency guard.
pub struct IdempotencyStore {
    records: Vec<StoredRecord>,
}

impl View for IdempotencyStore {
    type V = Seq<Record>;

    closed spec fn view(&self) -> Seq<Record> {
        records_view(self.records@)
    }
}

/// What the caller of `try_processing` does next.
pub enum NextAction {
    /// The claim was granted: perform the side effects within this
    /// transaction, then call `save_response`.
    StartProcessing(u64),
    /// The request was processed before: return this response.
    ReturnSavedResponse(SavedResponse),
}

/// Why the guard could not answer.
#[derive(Debug, Clone, Copy, PartialEq, Eq, Structural)]
pub enum GuardError {
    /// The row is held by this open transaction: ask again when it has
    /// ended.
    Locked { holder: u64 },
    /// The row is committed and holds no response.
    MissingSavedResponse,
    /// The transaction does not hold the row it wants to save into.
    NotClaimed,
}

impl IdempotencyStore {
    /// The table never holds two rows for one owner and key.
    #[verifier::type_invariant]
    spec fn well_formed(self) -> bool {
        distinct_records(records_view(self.records@))
    }

    /// An empty table.
    pub fn new() -> (store: IdempotencyStore)
        ensures
            store@ == Seq::<Record>::empty(),
    {
        let store = IdempotencyStore { records: Vec::new() };
        assert(records_view(store.records@) =~= Seq::<Record>::empty());
        store
    }

    /// Moves the rows out, leaving the table empty.
    fn take_records(&mut self) -> (records: Vec<StoredRecord>)
        ensures
            records_view(records@) == old(self)@,
            distinct_records(old(self)@),
            final(self)@ == Seq::<Record>::empty(),
    {
        proof {
            use_type_invariant(&*self);
        }
        let mut taken = IdempotencyStore::new();
        core::mem::swap(self, &mut taken);
        let IdempotencyStore { records } = taken;
        records
    }

    /// Replaces the rows.
    fn put_records(&mut self, records: Vec<StoredRecord>)
        requires
            distinct_records(records_view(records@)),
        ensures
            final(self)@ == records_view(records@),
    {
        *self = IdempotencyStore { records };
    }

    /// The number of rows.
    pub fn len(&self) -> (n: usize)
        ensures
            n == self@.len(),
            distinct_records(self@),
    {
        proof {
            use_type_invariant(self);
        }
        self.records.len()
    }

    /// The index of the row of (`owner`, `key`).
    fn find(&self, owner: u128, key: &IdempotencyKey) -> (p: usize)
        ensures
            p == record_position(self@, owner, key@),
            p <= self@.len(),
    {
        let mut i: usize = 0;
        assert(self@.subrange(0, self@.len() as int) =~= self@);
        while i < self.records.len()
            invariant
                i <= self.records.len(),
                record_position(self@, owner, key@) == i + record_position(
                    self@.subrange(i as int, self@.len() as int),
                    owner,
                    key@,
                ),
            decreases self.records.len() - i,
        {
            let ghost rest = self@.subrange(i as int, self@.len() as int);
            assert(rest[0] == self@[i as int]);
            assert(rest.drop_first() =~= self@.subrange(i + 1, self@.len() as int));
            if self.records[i].owner == owner && str_eq(
                self.records[i].key.as_str(),
                key.as_str(),
            ) {
                return i;
            }
            i += 1;
        }
        assert(self@.subrange(i as int, self@.len() as int) =~= Seq::<Record>::empty());
        i
    }

    /// Claims (`user_id`, `idempotency_key`) for the transaction `txn`.
    ///
    /// If the pair has no row, an empty row is written that `txn` holds,
    /// and the caller is told to start processing. If the row is held by
    /// an open transaction, the caller has to wait for its end: nothing
    /// is written. If the row is committed, its response is returned.
    pub fn try_processing(
        &mut self,
        txn: u64,
        idempotency_key: &IdempotencyKey,
        user_id: u128,
    ) -> (r: Result<NextAction, GuardError>)
        ensures
            final(self)@ == after_claim(old(self)@, txn, user_id, idempotency_key@),
            final(self)@ == apply(
                old(self)@,
                GuardOp::Claim { txn, owner: user_id, key: idempotency_key@ },
            ),
            distinct_records(final(self)@),
            match claim_of(old(self)@, user_id, idempotency_key@) {
                Claim::Granted => r matches Ok(NextAction::StartProcessing(t)) && t == txn,
                Claim::Locked(h) => r matches Err(GuardError::Locked { holder }) && holder == h,
                Claim::Saved(response) => r matches Ok(NextAction::ReturnSavedResponse(saved))
                    && saved@ == response,
                Claim::Missing => r matches Err(GuardError::MissingSavedResponse),
            },
    {
        proof {
            use_type_invariant(&*self);
        }
        let ghost before = self@;
        let p = self.find(user_id, idempotency_key);
        if p < self.records.len() {
            return match self.records[p].holder {
                Some(holder) => Err(GuardError::Locked { holder }),
                None => match &self.records[p].response {
                    Some(response) => Ok(NextAction::ReturnSavedResponse(response.duplicate())),
                    None => Err(GuardError::MissingSavedResponse),
                },
            };
        }
        let row = StoredRecord {
            owner: user_id,
            key: idempotency_key.duplicate(),
            response: None,
            holder: Some(txn),
        };
        let mut records = self.take_records();
        proof {
            lemma_claim_keeps_distinct(before, txn, user_id, idempotency_key@);
            assert(records_view(records@.push(row)) =~= after_claim(
                before,
                txn,
                user_id,
                idempotency_key@,
            ));
        }
        records.push(row);
        self.put_records(records);
        Ok(NextAction::StartProcessing(txn))
    }

    /// Reads the response that is saved for (`user_id`,
    /// `idempotency_key`), if one is committed. A row that an open
    /// transaction holds is not visible yet.
    pub fn get_saved_response(&self, idempotency_key: &IdempotencyKey, user_id: u128) -> (r:
        Result<Option<SavedResponse>, GuardError>)
        ensures
            match claim_of(self@, user_id, idempotency_key@) {
                Claim::Granted => r matches Ok(None),
                Claim::Locked(_) => r matches Ok(None),
                Claim::Saved(response) => r matches Ok(Some(saved)) && saved@ == response,
                Claim::Missing => r matches Err(GuardError::MissingSavedResponse),
            },
    {
        let p = self.find(user_id, idempotency_key);
        if p == self.records.len() {
            return Ok(None);
        }
        match self.records[p].holder {
            Some(_) => Ok(None),
            None => match &self.records[p].response {
                Some(response) => Ok(Some(response.duplicate())),
                None => Err(GuardError::MissingSavedResponse),
            },
        }
    }

    /// Writes `response` into the row that `txn` holds for (`user_id`,
    /// `idempotency_key`) and commits, which releases the row. The
    /// response is handed back as it was given. A transaction that does
    /// not hold the row is refused, and nothing changes.
    pub fn save_response(
        &mut self,
        txn: u64,
        idempotency_key: &IdempotencyKey,
        user_id: u128,
        response: SavedResponse,
    ) -> (r: Result<SavedResponse, GuardError>)
        ensures
            final(self)@ == after_save(old(self)@, txn, user_id, idempotency_key@, response@),
            distinct_records(final(self)@),
            match r {
                Ok(returned) => holds(old(self)@, txn, user_id, idempotency_key@) && returned
                    == response,
                Err(e) => e == GuardError::NotClaimed && !holds(
                    old(self)@,
                    txn,
                    user_id,
                    idempotency_key@,
                ),
            },
    {
        proof {
            use_type_invariant(&*self);
        }
        let ghost before = self@;
        let p = self.find(user_id, idempotency_key);
        if p == self.records.len() {
            return Err(GuardError::NotClaimed);
        }
        let held = match self.records[p].holder {
            Some(h) => h == txn,
            None => false,
        };
        if !held {
            return Err(GuardError::NotClaimed);
        }
        let row = StoredRecord {
            owner: user_id,
            key: idempotency_key.duplicate(),
            response: Some(response.duplicate()),
            holder: None,
        };
        let mut records = self.take_records();
        proof {
            lemma_save_keeps_distinct(before, txn, user_id, idempotency_key@, response@);
            assert(records_view(records@.update(p as int, row)) =~= after_save(
                before,
                txn,
                user_id,
                idempotency_key@,
                response@,
            ));
        }
        records.set(p, row);
        self.put_records(records);
        Ok(response)
    }

    /// Rolls the transaction `txn` back: the rows it wrote and did not
    /// commit are gone, and their pairs can be claimed again.
    pub fn rollback(&mut self, txn: u64)
        ensures
            final(self)@ == after_rollback(old(self)@, txn),
            distinct_records(final(self)@),
    {
        let ghost before = self@;
        let records = self.take_records();
        let mut kept: Vec<StoredRecord> = Vec::new();
        let mut i: usize = 0;
        assert(records_view(kept@) =~= after_rollback(before.subrange(0, 0), txn));
        while i < records.len()
            invariant
                i <= records.len(),
                records_view(records@) == before,
                records_view(kept@) == after_rollback(before.subrange(0, i as int), txn),
            decreases records.len() - i,
        {
            let held = match records[i].holder {
                Some(h) => h == txn,
                None => false,
            };
            proof {
                let next = before.subrange(0, i + 1);
                assert(next.drop_last() =~= before.subrange(0, i as int));
                assert(next.last() == before[i as int]);
                assert(before[i as int] == records@[i as int]@);
            }
            if !held {
                let copy = records[i].duplicate();
                assert(records_view(kept@.push(copy)) =~= records_view(kept@).push(copy@));
                kept.push(copy);
            }
            i += 1;
        }
        proof {
            assert(before.subrange(0, i as int) =~= before);
            lemma_rollback_keeps_distinct(before, txn);
        }
        self.put_records(kept);
    }
}

/// Whether the insert of a row for a claim won: it did if it wrote a
/// row, and lost to an existing row if it wrote none.
pub fn insert_won(n_inserted_rows: u64) -> (won: bool)
    ensures
        won == (n_inserted_rows > 0),
{
    n_inserted_rows > 0
}

/// What a claim that lost answers with: the response that was found for
/// the pair. A row without a response is an error.
pub fn saved_or_missing(found: Option<SavedResponse>) -> (r: Result<SavedResponse, GuardError>)
    ensures
        match found {
            Some(response) => r == Ok::<SavedResponse, GuardError>(response),
            None => r == Err::<SavedResponse, GuardError>(GuardError::MissingSavedResponse),
        },
{
    match found {
        Some(response) => Ok(response),
        None => Err(GuardError::MissingSavedResponse),
    }
}

/// Every row left by a rollback was there before, in the same order.
pub proof fn lemma_rollback_rows(rows: Seq<Record>, txn: u64)
    ensures
        after_rollback(rows, txn).len() <= rows.len(),
        forall|i: int|
            0 <= i < after_rollback(rows, txn).len() ==> (#[trigger] after_rollback(
                rows,
                txn,
            )[i]).holder != Some(txn),
        forall|i: int|
            0 <= i < after_rollback(rows, txn).len() ==> exists|j: int|
                i <= j < rows.len() && rows[j] == #[trigger] after_rollback(rows, txn)[i],
        forall|j: int|
            0 <= j < rows.len() && rows[j].holder != Some(txn) ==> exists|i: int|
                0 <= i < after_rollback(rows, txn).len() && after_rollback(rows, txn)[i]
                    == #[trigger] rows[j],
    decreases rows.len(),
{
    if rows.len() > 0 {
        let front = rows.drop_last();
        lemma_rollback_rows(front, txn);
        let out = after_rollback(rows, txn);
        let sub = after_rollback(front, txn);
        assert forall|i: int| 0 <= i < out.len() implies exists|j: int|
            i <= j < rows.len() && rows[j] == #[trigger] out[i] by {
            if i < sub.len() {
                let j = choose|j: int| i <= j < front.len() && front[j] == sub[i];
                assert(rows[j] == out[i]);
            } else {
                assert(rows[rows.len() - 1] == out[i]);
            }
        }
        assert forall|j: int| 0 <= j < rows.len() && rows[j].holder != Some(txn) implies exists|
            i: int,
        |
            0 <= i < out.len() && out[i] == #[trigger] rows[j] by {
            if j < front.len() {
                assert(front[j] == rows[j]);
                let i = choose|i: int| 0 <= i < sub.len() && sub[i] == front[j];
                assert(out[i] == rows[j]);
            } else {
                assert(out[out.len() - 1] == rows[j]);
            }
        }
    }
}

/// A rollback keeps the rows distinct.
pub proof fn lemma_rollback_keeps_distinct(rows: Seq<Record>, txn: u64)
    requires
        distinct_records(rows),
    ensures
        distinct_records(after_rollback(rows, txn)),
    decreases rows.len(),
{
    if rows.len() > 0 {
        let front = rows.drop_last();
        assert(distinct_records(front)) by {
            assert forall|i: int, j: int|
                0 <= i < front.len() && 0 <= j < front.len() && i != j implies !((
            #[trigger] front[i]).owner == (#[trigger] front[j]).owner && front[i].key
                == front[j].key) by {
                assert(front[i] == rows[i] && front[j] == rows[j]);
            }
        }
        lemma_rollback_keeps_distinct(front, txn);
        lemma_rollback_rows(front, txn);
        let out = after_rollback(rows, txn);
        let sub = after_rollback(front, txn);
        if rows.last().holder != Some(txn) {
            assert forall|i: int, j: int|
                0 <= i < out.len() && 0 <= j < out.len() && i != j implies !((
            #[trigger] out[i]).owner == (#[trigger] out[j]).owner && out[i].key
                == out[j].key) by {
                let n = sub.len() as int;
                if i < n && j < n {
                    assert(out[i] == sub[i] && out[j] == sub[j]);
                } else if i < n {
                    let k = choose|k: int| i <= k < front.len() && front[k] == sub[i];
                    assert(rows[k] == out[i]);
                    assert(rows[rows.len() - 1] == out[j]);
                } else {
                    let k = choose|k: int| j <= k < front.len() && front[k] == sub[j];
                    assert(rows[k] == out[j]);
                    assert(rows[rows.len() - 1] == out[i]);
                }
            }
        }
    }
}

/// A claim keeps the rows distinct: a row is written only for a pair
/// that has none.
pub proof fn lemma_claim_keeps_distinct(rows: Seq<Record>, txn: u64, owner: u128, key: Seq<char>)
    requires
        distinct_records(rows),
    ensures
        distinct_records(after_claim(rows, txn, owner, key)),
{
    lemma_record_position(rows, owner, key);
    let out = after_claim(rows, txn, owner, key);
    if claim_of(rows, owner, key) is Granted {
        assert forall|i: int, j: int|
            0 <= i < out.len() && 0 <= j < out.len() && i != j implies !((#[trigger] out[i]).owner
            == (#[trigger] out[j]).owner && out[i].key == out[j].key) by {
            if i < rows.len() && j < rows.len() {
                assert(out[i] == rows[i] && out[j] == rows[j]);
            } else if i < rows.len() {
                assert(out[i] == rows[i]);
            } else {
                assert(out[j] == rows[j]);
            }
        }
    }
}

/// Saving keeps the rows distinct: it changes neither owner nor key.
pub proof fn lemma_save_keeps_distinct(
    rows: Seq<Record>,
    txn: u64,
    owner: u128,
    key: Seq<char>,
    response: ResponseContent,
)
    requires
        distinct_records(rows),
    ensures
        distinct_records(after_save(rows, txn, owner, key, response)),
{
    lemma_record_position(rows, owner, key);
    let out = after_save(rows, txn, owner, key, response);
    assert forall|i: int, j: int|
        0 <= i < out.len() && 0 <= j < out.len() && i != j implies !((#[trigger] out[i]).owner == (
        #[trigger] out[j]).owner && out[i].key == out[j].key) by {
        assert(out[i].owner == rows[i].owner && out[i].key == rows[i].key);
        assert(out[j].owner == rows[j].owner && out[j].key == rows[j].key);
    }
}


/// One operation on the table.
pub enum GuardOp {
    /// `try_processing` by `txn` for (`owner`, `key`).
    Claim { txn: u64, owner: u128, key: Seq<char> },
    /// `save_response` by `txn` for (`owner`, `key`).
    Save { txn: u64, owner: u128, key: Seq<char>, response: ResponseContent },
    /// The rollback of `txn`.
    Rollback { txn: u64 },
}

/// The rows after one operation.
pub open spec fn apply(rows: Seq<Record>, op: GuardOp) -> Seq<Record> {
    match op {
        GuardOp::Claim { txn, owner, key } => after_claim(rows, txn, owner, key),
        GuardOp::Save { txn, owner, key, response } => after_save(rows, txn, owner, key, response),
        GuardOp::Rollback { txn } => after_rollback(rows, txn),
    }
}

/// The rows after the operations `ops`, in their order.
pub open spec fn apply_all(rows: Seq<Record>, ops: Seq<GuardOp>) -> Seq<Record>
    decreases ops.len(),
{
    if ops.len() == 0 {
        rows
    } else {
        apply(apply_all(rows, ops.drop_last()), ops.last())
    }
}

/// How many of the operations `ops` are claims of (`owner`, `key`) that
/// are granted, that is, how often a caller is told to process the
/// request.
pub open spec fn granted_claims(
    rows: Seq<Record>,
    ops: Seq<GuardOp>,
    owner: u128,
    key: Seq<char>,
) -> nat
    decreases ops.len(),
{
    if ops.len() == 0 {
        0
    } else {
        let before = apply_all(rows, ops.drop_last());
        granted_claims(rows, ops.drop_last(), owner, key) + if ops.last() matches GuardOp::Claim {
            owner: o,
            key: k,
            ..
        } && o == owner && k == key && claim_of(before, owner, key) is Granted {
            1nat
        } else {
            0nat
        }
    }
}

/// Whether none of the operations is a rollback.
pub open spec fn no_rollback(ops: Seq<GuardOp>) -> bool {
    forall|i: int| 0 <= i < ops.len() ==> !((#[trigger] ops[i]) is Rollback)
}

/// Uniqueness: whatever operations are applied, by however many
/// transactions and in whatever order, the table never holds two rows for
/// one owner and key.
pub proof fn lemma_at_most_one_record(rows: Seq<Record>, ops: Seq<GuardOp>)
    requires
        distinct_records(rows),
    ensures
        distinct_records(apply_all(rows, ops)),
    decreases ops.len(),
{
    if ops.len() > 0 {
        lemma_at_most_one_record(rows, ops.drop_last());
        let before = apply_all(rows, ops.drop_last());
        match ops.last() {
            GuardOp::Claim { txn, owner, key } => lemma_claim_keeps_distinct(
                before,
                txn,
                owner,
                key,
            ),
            GuardOp::Save { txn, owner, key, response } => lemma_save_keeps_distinct(
                before,
                txn,
                owner,
                key,
                response,
            ),
            GuardOp::Rollback { txn } => lemma_rollback_keeps_distinct(before, txn),
        }
    }
}

/// A claim or a save never removes a pair's row.
pub proof fn lemma_record_stays(rows: Seq<Record>, op: GuardOp, owner: u128, key: Seq<char>)
    requires
        has_record(rows, owner, key),
        !(op is Rollback),
    ensures
        has_record(apply(rows, op), owner, key),
{
    let i = choose|i: int|
        0 <= i < rows.len() && (#[trigger] rows[i]).owner == owner && rows[i].key == key;
    let out = apply(rows, op);
    match op {
        GuardOp::Claim { txn, owner: o, key: k } => {
            assert(out[i] == rows[i]);
        },
        GuardOp::Save { txn, owner: o, key: k, response } => {
            lemma_record_position(rows, o, k);
            assert(out[i].owner == owner && out[i].key == key);
        },
        GuardOp::Rollback { txn } => {},
    }
}

/// Exactly-once processing: among any operations without a rollback, at
/// most one claim of a pair is granted, and none if the pair had a row to
/// begin with. As soon as one was granted the pair has a row, so that
/// every later claim waits or gets the saved response.
pub proof fn lemma_at_most_one_grant(
    rows: Seq<Record>,
    ops: Seq<GuardOp>,
    owner: u128,
    key: Seq<char>,
)
    requires
        no_rollback(ops),
    ensures
        granted_claims(rows, ops, owner, key) <= 1,
        has_record(rows, owner, key) ==> granted_claims(rows, ops, owner, key) == 0,
        has_record(rows, owner, key) || granted_claims(rows, ops, owner, key) == 1 ==> has_record(
            apply_all(rows, ops),
            owner,
            key,
        ),
    decreases ops.len(),
{
    if ops.len() > 0 {
        let front = ops.drop_last();
        assert(no_rollback(front)) by {
            assert forall|i: int| 0 <= i < front.len() implies !((#[trigger] front[i])
                is Rollback) by {
                assert(front[i] == ops[i]);
            }
        }
        lemma_at_most_one_grant(rows, front, owner, key);
        let before = apply_all(rows, front);
        lemma_record_position(before, owner, key);
        assert(!(ops[ops.len() - 1] is Rollback));
        if has_record(before, owner, key) {
            lemma_record_stays(before, ops.last(), owner, key);
        } else {
            match ops.last() {
                GuardOp::Claim { txn, owner: o, key: k } => {
                    if o == owner && k == key {
                        let out = after_claim(before, txn, owner, key);
                        let n = before.len() as int;
                        assert(out[n].owner == owner && out[n].key == key);
                    }
                },
                _ => {},
            }
        }
    }
}

/// Replay: once the transaction that was granted the claim has saved its
/// response, every claim of the pair, by whichever transaction, returns
/// exactly that response and writes nothing; and while the first
/// transaction is still open, a second claim waits for it and writes
/// nothing either.
pub proof fn lemma_saved_response_is_replayed(
    rows: Seq<Record>,
    first: u64,
    second: u64,
    owner: u128,
    key: Seq<char>,
    response: ResponseContent,
)
    requires
        distinct_records(rows),
        claim_of(rows, owner, key) is Granted,
    ensures
        ({
            let held = after_claim(rows, first, owner, key);
            let saved = after_save(held, first, owner, key, response);
            &&& held.len() == rows.len() + 1
            &&& holds(held, first, owner, key)
            &&& claim_of(held, owner, key) == Claim::Locked(first)
            &&& after_claim(held, second, owner, key) == held
            &&& saved.len() == held.len()
            &&& claim_of(saved, owner, key) == Claim::Saved(response)
            &&& after_claim(saved, second, owner, key) == saved
        }),
{
    let held = after_claim(rows, first, owner, key);
    lemma_record_position(rows, owner, key);
    lemma_claim_keeps_distinct(rows, first, owner, key);
    let n = rows.len() as int;
    assert(held[n].owner == owner && held[n].key == key);
    lemma_position_unique(held, n);
    let saved = after_save(held, first, owner, key, response);
    lemma_save_keeps_distinct(held, first, owner, key, response);
    assert(saved[n].owner == owner && saved[n].key == key);
    lemma_position_unique(saved, n);
}

/// A claim that is rolled back leaves the pair free: the next claimer is
/// granted the claim and becomes the one who processes the request.
pub proof fn lemma_rollback_reopens(rows: Seq<Record>, first: u64, owner: u128, key: Seq<char>)
    requires
        distinct_records(rows),
        claim_of(rows, owner, key) is Granted,
    ensures
        claim_of(after_rollback(after_claim(rows, first, owner, key), first), owner, key)
            is Granted,
{
    let held = after_claim(rows, first, owner, key);
    let out = after_rollback(held, first);
    lemma_record_position(rows, owner, key);
    lemma_record_position(out, owner, key);
    lemma_rollback_rows(held, first);
    if has_record(out, owner, key) {
        let i = choose|i: int|
            0 <= i < out.len() && (#[trigger] out[i]).owner == owner && out[i].key == key;
        let j = choose|j: int| i <= j < held.len() && held[j] == out[i];
        assert(out[i].holder != Some(first));
        assert(j < rows.len());
        assert(rows[j].owner == owner && rows[j].key == key);
    }
}

} // verus!
