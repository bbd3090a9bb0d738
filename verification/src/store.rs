//! What a node keeps across restarts: the records of its processes, the highest
//! handle that was handed out, and its secret key.
//!
//! The store is two tables: one holds a record's bytes under its handle, the other
//! a value's bytes under a name. A transaction is a list of writes that take
//! effect together.

use vstd::prelude::*;

use crate::process::Record;
use crate::proto::{Handle, ProcState};

verus! {

/// The name of the node's secret key.
pub const KEY_SECRET: &'static str = "secret_key";

/// The name of the highest handle that was handed out.
pub const KEY_NEXT: &'static str = "next_handle";

/// Reloaded state: the persisted records, as stored, and the handle counter.
#[derive(Debug)]
pub struct Loaded {
    pub records: Vec<(Handle, Record)>,
    pub next_handle: u64,
}

impl Loaded {
    /// No record has a handle above the counter.
    pub open spec fn wf(&self) -> bool {
        forall|i: int|
            0 <= i < self.records@.len() ==> (#[trigger] self.records@[i]).0 <= self.next_handle
    }
}

/// Why the store's contents cannot be used.
#[derive(Debug, Clone, Copy, PartialEq, Eq, Structural)]
pub enum StoreError {
    /// A record cannot be read.
    BadRecord,
    /// A record cannot be put into bytes.
    Encode,
    /// The handle counter is not eight bytes long.
    BadCounter,
    /// The secret key is not 32 bytes long.
    BadSecret,
}

/// One write of a transaction.
#[derive(Debug, Clone, PartialEq)]
pub enum Write {
    /// Put these bytes under a handle.
    Record { handle: Handle, bytes: Vec<u8> },
    /// Drop what is under a handle.
    Remove { handle: Handle },
    /// Put these bytes under the name of the handle counter.
    Counter { bytes: Vec<u8> },
    /// Put these bytes under the name of the secret key.
    Secret { bytes: Vec<u8> },
}

/// What the two tables hold.
pub struct Tables {
    pub records: Map<Handle, Seq<u8>>,
    pub counter: Option<Seq<u8>>,
    pub secret: Option<Seq<u8>>,
}

impl Tables {
    /// The tables after one write.
    pub open spec fn written(self, w: Write) -> Tables {
        match w {
            Write::Record { handle, bytes } => Tables {
                records: self.records.insert(handle, bytes@),
                ..self
            },
            Write::Remove { handle } => Tables { records: self.records.remove(handle), ..self },
            Write::Counter { bytes } => Tables { counter: Some(bytes@), ..self },
            Write::Secret { bytes } => Tables { secret: Some(bytes@), ..self },
        }
    }

    /// The tables after a transaction.
    pub open spec fn committed(self, txn: Seq<Write>) -> Tables
        decreases txn.len(),
    {
        if txn.len() == 0 {
            self
        } else {
            self.committed(txn.drop_last()).written(txn.last())
        }
    }
}

/// The eight bytes of a handle, least significant first.
pub open spec fn counter_bytes(handle: Handle) -> Seq<u8> {
    vstd::bytes::spec_u64_to_le_bytes(handle)
}

/// What the counter's bytes say; nothing was handed out if there are none.
pub open spec fn counter_value(counter: Option<Seq<u8>>) -> Option<u64> {
    match counter {
        Some(b) => if b.len() == 8 {
            Some(vstd::bytes::spec_u64_from_le_bytes(b))
        } else {
            None
        },
        None => Some(0),
    }
}

/// Whether a transaction puts these bytes under a handle, and the handle into the
/// counter.
pub open spec fn puts(txn: Seq<Write>, handle: Handle, bytes: Seq<u8>) -> bool {
    forall|t: Tables| #[trigger]
        t.committed(txn) == (Tables {
            records: t.records.insert(handle, bytes),
            counter: Some(counter_bytes(handle)),
            secret: t.secret,
        })
}

/// Whether a transaction drops what is under a handle.
pub open spec fn removes(txn: Seq<Write>, handle: Handle) -> bool {
    forall|t: Tables| #[trigger]
        t.committed(txn) == (Tables { records: t.records.remove(handle), ..t })
}

/// The highest handle of a list of records.
pub open spec fn highest(records: Seq<(Handle, Record)>) -> u64
    decreases records.len(),
{
    if records.len() == 0 {
        0
    } else {
        let h = highest(records.drop_last());
        if records.last().0 > h {
            records.last().0
        } else {
            h
        }
    }
}

/// Whether the records are in ascending order of their handles, none twice.
pub open spec fn ordered(records: Seq<(Handle, Record)>) -> bool {
    forall|i: int, j: int|
        0 <= i < j < records.len() ==> (#[trigger] records[i]).0 < (#[trigger] records[j]).0
}

/// Whether `rec` is a record read from the row at `i`.
pub open spec fn read_from<D: Fn(&[u8]) -> Option<Record>>(
    decode: D,
    rows: Seq<(Handle, Vec<u8>)>,
    i: int,
    rec: (Handle, Record),
) -> bool {
    rec.0 == rows[i].0 && crate::proto::decodes_to(decode, rows[i].1@, Some(rec.1))
}

/// Whether `rec` is read from one of the first `n` rows.
pub open spec fn comes_from<D: Fn(&[u8]) -> Option<Record>>(
    decode: D,
    rows: Seq<(Handle, Vec<u8>)>,
    n: int,
    rec: (Handle, Record),
) -> bool {
    exists|i: int| 0 <= i < n && #[trigger] read_from(decode, rows, i, rec)
}

/// Whether one of the records is read from the row at `i`.
pub open spec fn is_among<D: Fn(&[u8]) -> Option<Record>>(
    decode: D,
    rows: Seq<(Handle, Vec<u8>)>,
    i: int,
    records: Seq<(Handle, Record)>,
) -> bool {
    exists|k: int| 0 <= k < records.len() && #[trigger] read_from(decode, rows, i, records[k])
}

/// Whether the records are those of the first `n` rows.
pub open spec fn read_all<D: Fn(&[u8]) -> Option<Record>>(
    decode: D,
    rows: Seq<(Handle, Vec<u8>)>,
    n: int,
    records: Seq<(Handle, Record)>,
) -> bool {
    &&& records.len() == n
    &&& forall|k: int|
        0 <= k < records.len() ==> comes_from(decode, rows, n, #[trigger] records[k])
    &&& forall|i: int| 0 <= i < n ==> #[trigger] is_among(decode, rows, i, records)
}

/// Whether a row may be impossible to read.
pub open spec fn unreadable<D: Fn(&[u8]) -> Option<Record>>(
    decode: D,
    rows: Seq<(Handle, Vec<u8>)>,
) -> bool {
    exists|i: int|
        0 <= i < rows.len() && #[trigger] crate::proto::decodes_to(decode, rows[i].1@, None)
}

/// Whether every row may be read.
pub open spec fn readable<D: Fn(&[u8]) -> Option<Record>>(
    decode: D,
    rows: Seq<(Handle, Vec<u8>)>,
) -> bool {
    exists|records: Seq<(Handle, Record)>| #[trigger]
        read_all(decode, rows, rows.len() as int, records)
}

/// Whether loading these rows and this counter may give `r`: all the records,
/// ascending by handle, and a counter that clears every one of them; or an error
/// if a row cannot be read, or else, every row having been read, the counter is
/// none.
pub open spec fn loads_to<D: Fn(&[u8]) -> Option<Record>>(
    decode: D,
    rows: Seq<(Handle, Vec<u8>)>,
    counter: Option<Seq<u8>>,
    r: Result<Loaded, StoreError>,
) -> bool {
    match r {
        Ok(l) => {
            &&& l.wf()
            &&& ordered(l.records@)
            &&& read_all(decode, rows, rows.len() as int, l.records@)
            &&& counter_value(counter) matches Some(n) && l.next_handle == (if n > highest(
                l.records@,
            ) {
                n
            } else {
                highest(l.records@)
            })
        },
        Err(StoreError::BadRecord) => unreadable(decode, rows),
        Err(e) => e == StoreError::BadCounter && readable(decode, rows) && counter_value(
            counter,
        ) is None,
    }
}

/// The store's transactions and the meaning of its contents.
pub struct Store;

impl Store {
    /// The transaction that keeps a new record: it also moves the handle counter
    /// to the record's handle.
    pub fn put(handle: Handle, bytes: Vec<u8>) -> (txn: Vec<Write>)
        ensures
            puts(txn@, handle, bytes@),
    {
        let ghost value = bytes@;
        let mut txn: Vec<Write> = Vec::new();
        txn.push(Write::Record { handle, bytes });
        txn.push(Write::Counter { bytes: vstd::bytes::u64_to_le_bytes(handle) });
        assert forall|t: Tables| #[trigger] t.committed(txn@) == (Tables {
            records: t.records.insert(handle, value),
            counter: Some(counter_bytes(handle)),
            secret: t.secret,
        }) by {
            reveal_with_fuel(Tables::committed, 3);
            assert(txn@.drop_last().drop_last() =~= Seq::<Write>::empty());
        }
        txn
    }

    /// The transaction that drops a record.
    pub fn remove(handle: Handle) -> (txn: Vec<Write>)
        ensures
            removes(txn@, handle),
    {
        let mut txn: Vec<Write> = Vec::new();
        txn.push(Write::Remove { handle });
        assert forall|t: Tables| #[trigger] t.committed(txn@) == (Tables {
            records: t.records.remove(handle),
            ..t
        }) by {
            reveal_with_fuel(Tables::committed, 2);
            assert(txn@.drop_last() =~= Seq::<Write>::empty());
        }
        txn
    }

    /// The transaction that changes a record's status, given the bytes that are
    /// under its handle: an empty one if there are none.
    pub fn set_status<D: Fn(&[u8]) -> Option<Record>, E: Fn(&Record) -> Option<Vec<u8>>>(
        handle: Handle,
        stored: Option<&[u8]>,
        status: ProcState,
        decode: D,
        encode: E,
    ) -> (r: Result<Vec<Write>, StoreError>)
        requires
            forall|p: &[u8]| #[trigger] call_requires(decode, (p,)),
            forall|rec: &Record| #[trigger] call_requires(encode, (rec,)),
        ensures
            stored is None ==> (r matches Ok(txn) && txn@.len() == 0),
            stored matches Some(b) ==> restatused(handle, b@, status, decode, encode, r),
    {
        let stored = match stored {
            None => {
                return Ok(Vec::new());
            },
            Some(b) => b,
        };
        match decode(stored) {
            None => {
                assert(crate::proto::decodes_to(decode, stored@, None));
                Err(StoreError::BadRecord)
            },
            Some(rec) => {
                assert(crate::proto::decodes_to(decode, stored@, Some(rec)));
                let new = Record {
                    cmd: rec.cmd,
                    args: rec.args,
                    env: rec.env,
                    pid: rec.pid,
                    status,
                };
                assert(new == rec.with_status(status));
                match encode(&new) {
                    None => {
                        assert(unencodable(encode, decode, stored@, status));
                        Err(StoreError::Encode)
                    },
                    Some(bytes) => {
                        let mut txn: Vec<Write> = Vec::new();
                        txn.push(Write::Record { handle, bytes });
                        assert(reencoded(encode, decode, stored@, status, bytes));
                        Ok(txn)
                    },
                }
            },
        }
    }

    /// All records, ascending by handle, and the handle counter. The counter clears
    /// every record: a relaunch of an older handle moves the stored one back.
    pub fn load<D: Fn(&[u8]) -> Option<Record>>(
        rows: Vec<(Handle, Vec<u8>)>,
        counter: Option<&[u8]>,
        decode: D,
    ) -> (r: Result<Loaded, StoreError>)
        requires
            crate::id::distinct_keys(rows@),
            forall|p: &[u8]| #[trigger] call_requires(decode, (p,)),
        ensures
            loads_to(decode, rows@, slice_view(counter), r),
    {
        let mut records: Vec<(Handle, Record)> = Vec::new();
        let mut top: u64 = 0;
        let mut i: usize = 0;
        while i < rows.len()
            invariant
                i <= rows@.len(),
                crate::id::distinct_keys(rows@),
                forall|p: &[u8]| #[trigger] call_requires(decode, (p,)),
                ordered(records@),
                read_all(decode, rows@, i as int, records@),
                forall|k: int| 0 <= k < records@.len() ==> (#[trigger] records@[k]).0 <= top,
                top == highest(records@),
            decreases rows@.len() - i,
        {
            let handle: Handle = rows[i].0;
            let rec = match decode(rows[i].1.as_slice()) {
                None => {
                    assert(crate::proto::decodes_to(decode, rows@[i as int].1@, None));
                    assert(unreadable(decode, rows@));
                    return Err(StoreError::BadRecord);
                },
                Some(rec) => rec,
            };
            assert(crate::proto::decodes_to(decode, rows@[i as int].1@, Some(rec)));
            let ghost before = records@;
            let mut at: usize = 0;
            while at < records.len() && records[at].0 < handle
                invariant
                    at <= records@.len(),
                    records@ == before,
                    forall|k: int| 0 <= k < at ==> (#[trigger] records@[k]).0 < handle,
                decreases records@.len() - at,
            {
                at = at + 1;
            }
            proof {
                if at < before.len() && before[at as int].0 == handle {
                    assert(comes_from(decode, rows@, i as int, before[at as int]));
                    let j = choose|j: int|
                        0 <= j < i && #[trigger] read_from(decode, rows@, j, before[at as int]);
                    assert(rows@[j].0 == rows@[i as int].0);
                    assert(false);
                }
            }
            records.insert(at, (handle, rec));
            proof {
                lemma_inserted(decode, rows@, i as int, before, at as int, (handle, rec));
                lemma_highest_inserted(before, at as int, (handle, rec));
            }
            if handle > top {
                top = handle;
            }
            i = i + 1;
        }
        assert(readable(decode, rows@));
        let stored: u64 = match counter {
            None => 0,
            Some(b) => {
                if b.len() != 8 {
                    return Err(StoreError::BadCounter);
                }
                vstd::bytes::u64_from_le_bytes(b)
            },
        };
        let next_handle: u64 = if stored > top {
            stored
        } else {
            top
        };
        Ok(Loaded { records, next_handle })
    }

    /// This node's secret key, given the bytes that are stored for it; on the
    /// first run a new one, and the transaction that keeps it.
    pub fn secret_key(stored: Option<&[u8]>) -> (r: Result<([u8; 32], Vec<Write>), StoreError>)
        ensures
            exists|fresh: [u8; 32]| #[trigger]
                identity(slice_view(stored), fresh, r) && (stored is None ==> generated(fresh)),
    {
        let fresh: [u8; 32] = if stored.is_none() {
            generate_secret()
        } else {
            [0;32]
        };
        let r = Self::secret_key_with(stored, fresh);
        assert(identity(slice_view(stored), fresh, r));
        r
    }

    /// This node's secret key, given the bytes that are stored for it and a newly
    /// generated key for the first run.
    pub fn secret_key_with(stored: Option<&[u8]>, fresh: [u8; 32]) -> (r: Result<
        ([u8; 32], Vec<Write>),
        StoreError,
    >)
        ensures
            identity(slice_view(stored), fresh, r),
    {
        match stored {
            Some(b) => {
                if b.len() != 32 {
                    return Err(StoreError::BadSecret);
                }
                let mut key: [u8; 32] = [0;32];
                let mut i: usize = 0;
                while i < 32
                    invariant
                        i <= 32,
                        b@.len() == 32,
                        forall|j: int| 0 <= j < i ==> key@[j] == b@[j],
                    decreases 32 - i,
                {
                    key[i] = b[i];
                    i = i + 1;
                }
                assert(key@ =~= b@);
                Ok((key, Vec::new()))
            },
            None => {
                let bytes = vstd::slice::slice_to_vec(&fresh);
                let ghost value = bytes@;
                let mut txn: Vec<Write> = Vec::new();
                txn.push(Write::Secret { bytes });
                assert forall|t: Tables| #[trigger] t.committed(txn@) == (Tables {
                    secret: Some(fresh@),
                    ..t
                }) by {
                    reveal_with_fuel(Tables::committed, 2);
                    assert(txn@.drop_last() =~= Seq::<Write>::empty());
                }
                Ok((fresh, txn))
            },
        }
    }
}

/// Whether the generator may hand out this key.
pub closed spec fn generated(key: [u8; 32]) -> bool {
    call_ensures(generate_secret, (), key)
}

/// `iroh::SecretKey::generate`: the 32 bytes of a random key.
#[verifier::external_body]
fn generate_secret() -> (key: [u8; 32])
{
    iroh::SecretKey::generate().to_bytes()
}

/// Bytes that may be missing, as a sequence.
pub open spec fn slice_view(b: Option<&[u8]>) -> Option<Seq<u8>> {
    match b {
        Some(b) => Some(b@),
        None => None,
    }
}

/// What the node's identity is, given the stored bytes and a newly generated key:
/// the stored key, which is left as it is, or else the new one, which is kept.
pub open spec fn identity(
    stored: Option<Seq<u8>>,
    fresh: [u8; 32],
    r: Result<([u8; 32], Vec<Write>), StoreError>,
) -> bool {
    match stored {
        Some(b) => if b.len() == 32 {
            r matches Ok((key, txn)) && key@ == b && txn@.len() == 0
        } else {
            r == Err::<([u8; 32], Vec<Write>), StoreError>(StoreError::BadSecret)
        },
        None => r matches Ok((key, txn)) && key == fresh && forall|t: Tables|
            #[trigger] t.committed(txn@) == (Tables { secret: Some(fresh@), ..t }),
    }
}

/// Whether `bytes` may be the record in `stored` with another status.
pub open spec fn reencoded<D: Fn(&[u8]) -> Option<Record>, E: Fn(&Record) -> Option<Vec<u8>>>(
    encode: E,
    decode: D,
    stored: Seq<u8>,
    status: ProcState,
    bytes: Vec<u8>,
) -> bool {
    exists|rec: Record| #[trigger]
        crate::proto::decodes_to(decode, stored, Some(rec)) && call_ensures(
            encode,
            (&rec.with_status(status),),
            Some(bytes),
        )
}

/// Whether the record in `stored` may be impossible to put into bytes with another
/// status.
pub open spec fn unencodable<D: Fn(&[u8]) -> Option<Record>, E: Fn(&Record) -> Option<Vec<u8>>>(
    encode: E,
    decode: D,
    stored: Seq<u8>,
    status: ProcState,
) -> bool {
    exists|rec: Record| #[trigger]
        crate::proto::decodes_to(decode, stored, Some(rec)) && call_ensures(
            encode,
            (&rec.with_status(status),),
            None,
        )
}

/// Whether `r` is the transaction that changes the status of the record in
/// `stored`, or the reason why there is none.
pub open spec fn restatused<D: Fn(&[u8]) -> Option<Record>, E: Fn(&Record) -> Option<Vec<u8>>>(
    handle: Handle,
    stored: Seq<u8>,
    status: ProcState,
    decode: D,
    encode: E,
    r: Result<Vec<Write>, StoreError>,
) -> bool {
    match r {
        Ok(txn) => txn@.len() == 1 && (txn@[0] matches Write::Record { handle: h, bytes } && h
            == handle && reencoded(encode, decode, stored, status, bytes)),
        Err(StoreError::BadRecord) => crate::proto::decodes_to(decode, stored, None),
        Err(e) => e == StoreError::Encode && unencodable(encode, decode, stored, status),
    }
}

/// Putting one more record in its place keeps the order and the correspondence to
/// the rows.
proof fn lemma_inserted<D: Fn(&[u8]) -> Option<Record>>(
    decode: D,
    rows: Seq<(Handle, Vec<u8>)>,
    i: int,
    before: Seq<(Handle, Record)>,
    at: int,
    rec: (Handle, Record),
)
    requires
        0 <= i < rows.len(),
        0 <= at <= before.len(),
        ordered(before),
        read_all(decode, rows, i, before),
        read_from(decode, rows, i, rec),
        forall|k: int| 0 <= k < at ==> (#[trigger] before[k]).0 < rec.0,
        at < before.len() ==> before[at].0 > rec.0,
    ensures
        ordered(before.insert(at, rec)),
        read_all(decode, rows, i + 1, before.insert(at, rec)),
{
    let now = before.insert(at, rec);
    assert forall|a: int, b: int| 0 <= a < b < now.len() implies (#[trigger] now[a]).0 < (
    #[trigger] now[b]).0 by {
        let a0 = if a < at { a } else { a - 1 };
        let b0 = if b < at { b } else { b - 1 };
        if a != at {
            assert(now[a] == before[a0]);
        }
        if b != at {
            assert(now[b] == before[b0]);
        }
        if a == at {
            assert(before[at].0 <= before[b0].0);
        }
    }
    assert forall|k: int| 0 <= k < now.len() implies comes_from(
        decode,
        rows,
        i + 1,
        #[trigger] now[k],
    ) by {
        if k == at {
            assert(read_from(decode, rows, i, now[k]));
        } else {
            let k0 = if k < at { k } else { k - 1 };
            assert(now[k] == before[k0]);
            assert(comes_from(decode, rows, i, before[k0]));
            let j = choose|j: int| 0 <= j < i && #[trigger] read_from(decode, rows, j, before[k0]);
            assert(read_from(decode, rows, j, now[k]));
        }
    }
    assert forall|j: int| 0 <= j < i + 1 implies #[trigger] is_among(decode, rows, j, now) by {
        if j == i {
            assert(read_from(decode, rows, j, now[at]));
        } else {
            assert(is_among(decode, rows, j, before));
            let k0 = choose|k: int|
                0 <= k < before.len() && #[trigger] read_from(decode, rows, j, before[k]);
            let k = if k0 < at { k0 } else { k0 + 1 };
            assert(now[k] == before[k0]);
            assert(read_from(decode, rows, j, now[k]));
        }
    }
}

/// The highest handle once one more record is put in anywhere.
proof fn lemma_highest_inserted(before: Seq<(Handle, Record)>, at: int, rec: (Handle, Record))
    requires
        0 <= at <= before.len(),
    ensures
        highest(before.insert(at, rec)) == (if rec.0 > highest(before) {
            rec.0
        } else {
            highest(before)
        }),
        forall|k: int|
            0 <= k < before.insert(at, rec).len() ==> (#[trigger] before.insert(at, rec)[k]).0
                <= highest(before.insert(at, rec)),
    decreases before.len(),
{
    let now = before.insert(at, rec);
    if at == before.len() {
        assert(now.drop_last() =~= before);
    } else {
        assert(now.drop_last() =~= before.drop_last().insert(at, rec));
        assert(now.last() == before.last());
        lemma_highest_inserted(before.drop_last(), at, rec);
    }
    lemma_highest(now);
}

/// No handle is above the highest.
proof fn lemma_highest(records: Seq<(Handle, Record)>)
    ensures
        forall|k: int| 0 <= k < records.len() ==> (#[trigger] records[k]).0 <= highest(records),
    decreases records.len(),
{
    if records.len() > 0 {
        let r = records.drop_last();
        lemma_highest(r);
        assert forall|k: int| 0 <= k < records.len() implies (#[trigger] records[k]).0 <= highest(
            records,
        ) by {
            if k < r.len() {
                assert(records[k] == r[k]);
            }
        }
    }
}

/// Whether these are the rows of a table of records, in some order.
pub open spec fn rows_of(records: Map<Handle, Seq<u8>>, rows: Seq<(Handle, Vec<u8>)>) -> bool {
    &&& crate::id::distinct_keys(rows)
    &&& forall|h: Handle| #[trigger]
        records.contains_key(h) ==> crate::id::has_key(rows, h)
    &&& forall|i: int|
        0 <= i < rows.len() ==> records.contains_key((#[trigger] rows[i]).0) && records[rows[i].0]
            == rows[i].1@
}

/// A record that is in the store is loaded, whatever else the store holds and
/// however it came there, and the handle counter clears its handle.
pub proof fn records_survive<D: Fn(&[u8]) -> Option<Record>>(
    decode: D,
    t: Tables,
    handle: Handle,
    rows: Seq<(Handle, Vec<u8>)>,
    l: Loaded,
)
    requires
        t.records.contains_key(handle),
        rows_of(t.records, rows),
        loads_to(decode, rows, t.counter, Ok(l)),
    ensures
        exists|k: int|
            0 <= k < l.records@.len() && (#[trigger] l.records@[k]).0 == handle
                && crate::proto::decodes_to(decode, t.records[handle], Some(l.records@[k].1)),
        l.next_handle >= handle,
{
    assert(crate::id::has_key(rows, handle));
    let i = choose|i: int| 0 <= i < rows.len() && (#[trigger] rows[i]).0 == handle;
    assert(is_among(decode, rows, i, l.records@));
    let k = choose|k: int|
        0 <= k < l.records@.len() && #[trigger] read_from(decode, rows, i, l.records@[k]);
    assert(l.records@[k].0 == handle);
}

/// A record that is not in the store is not loaded: one that was forgotten stays
/// forgotten.
pub proof fn forgotten_records_stay_forgotten<D: Fn(&[u8]) -> Option<Record>>(
    decode: D,
    t: Tables,
    handle: Handle,
    rows: Seq<(Handle, Vec<u8>)>,
    l: Loaded,
)
    requires
        !t.records.contains_key(handle),
        rows_of(t.records, rows),
        loads_to(decode, rows, t.counter, Ok(l)),
    ensures
        forall|k: int| 0 <= k < l.records@.len() ==> (#[trigger] l.records@[k]).0 != handle,
{
    assert forall|k: int| 0 <= k < l.records@.len() implies (#[trigger] l.records@[k]).0
        != handle by {
        assert(comes_from(decode, rows, rows.len() as int, l.records@[k]));
        let i = choose|i: int|
            0 <= i < rows.len() && #[trigger] read_from(decode, rows, i, l.records@[k]);
        assert(rows[i].0 == l.records@[k].0);
    }
}

/// As long as no other record has been put since, the handle of the last one is not
/// handed out again, even if that record is dropped meanwhile. A later put of a
/// lower handle moves the counter back; it then clears the records that are left.
pub proof fn the_last_handle_is_cleared<D: Fn(&[u8]) -> Option<Record>>(
    decode: D,
    t: Tables,
    handle: Handle,
    rows: Seq<(Handle, Vec<u8>)>,
    l: Loaded,
)
    requires
        t.counter == Some(counter_bytes(handle)),
        rows_of(t.records, rows),
        loads_to(decode, rows, t.counter, Ok(l)),
    ensures
        l.next_handle >= handle,
{
    vstd::bytes::lemma_auto_spec_u64_to_from_le_bytes();
}

/// A change of what the store keeps.
pub enum Change {
    /// A record is put under a handle.
    Put { handle: Handle, rec: Record },
    /// What is under a handle is dropped.
    Removed { handle: Handle },
    /// The status of the record under a handle is changed, if there is one.
    Status { handle: Handle, status: ProcState },
}

/// The records that are kept after a change.
pub open spec fn kept(recs: Map<Handle, Record>, c: Change) -> Map<Handle, Record> {
    match c {
        Change::Put { handle, rec } => recs.insert(handle, rec),
        Change::Removed { handle } => recs.remove(handle),
        Change::Status { handle, status } => if recs.contains_key(handle) {
            recs.insert(handle, recs[handle].with_status(status))
        } else {
            recs
        },
    }
}

/// The records that are kept after a run of changes.
pub open spec fn all_kept(recs: Map<Handle, Record>, changes: Seq<Change>) -> Map<Handle, Record>
    decreases changes.len(),
{
    if changes.len() == 0 {
        recs
    } else {
        kept(all_kept(recs, changes.drop_last()), changes.last())
    }
}

/// Whether a change may turn the tables `before` into `after`, by the transaction
/// that `put`, `remove` or `set_status` makes for it.
pub open spec fn changes_to<D: Fn(&[u8]) -> Option<Record>, E: Fn(&Record) -> Option<Vec<u8>>>(
    decode: D,
    encode: E,
    before: Tables,
    c: Change,
    after: Tables,
) -> bool {
    match c {
        Change::Put { handle, rec } => exists|bytes: Seq<u8>| #[trigger]
            crate::proto::encodes_to(encode, rec, bytes) && after == (Tables {
                records: before.records.insert(handle, bytes),
                counter: Some(counter_bytes(handle)),
                secret: before.secret,
            }),
        Change::Removed { handle } => after == (Tables {
            records: before.records.remove(handle),
            ..before
        }),
        Change::Status { handle, status } => if before.records.contains_key(handle) {
            exists|txn: Vec<Write>| #[trigger]
                restatused(
                    handle,
                    before.records[handle],
                    status,
                    decode,
                    encode,
                    Ok(txn),
                ) && after == before.committed(txn@)
        } else {
            after == before
        },
    }
}

/// Whether the tables hold exactly these records: each is under its handle, and can
/// only be read as itself. The counter, if there is one, can be read too.
pub open spec fn holds<D: Fn(&[u8]) -> Option<Record>>(
    decode: D,
    t: Tables,
    recs: Map<Handle, Record>,
) -> bool {
    &&& t.records.dom() =~= recs.dom()
    &&& forall|h: Handle, out: Option<Record>|
        recs.contains_key(h) && #[trigger] crate::proto::decodes_to(decode, t.records[h], out)
            ==> out == Some(recs[h])
    &&& t.counter matches Some(b) ==> b.len() == 8
}

/// One change keeps the tables and the records in step.
proof fn lemma_change_is_held<
    D: Fn(&[u8]) -> Option<Record>,
    E: Fn(&Record) -> Option<Vec<u8>>,
>(decode: D, encode: E, before: Tables, recs: Map<Handle, Record>, c: Change, after: Tables)
    requires
        forall|rec: Record| #[trigger] crate::proto::reads_back(encode, decode, rec),
        holds(decode, before, recs),
        changes_to(decode, encode, before, c, after),
    ensures
        holds(decode, after, kept(recs, c)),
{
    vstd::bytes::lemma_auto_spec_u64_to_from_le_bytes();
    let now = kept(recs, c);
    match c {
        Change::Put { handle, rec } => {
            let bytes = choose|bytes: Seq<u8>| #[trigger]
                crate::proto::encodes_to(encode, rec, bytes) && after == (Tables {
                    records: before.records.insert(handle, bytes),
                    counter: Some(counter_bytes(handle)),
                    secret: before.secret,
                });
            assert(crate::proto::reads_back(encode, decode, rec));
            assert forall|h: Handle, out: Option<Record>|
                now.contains_key(h) && #[trigger] crate::proto::decodes_to(
                    decode,
                    after.records[h],
                    out,
                ) implies out == Some(now[h]) by {
                if h == handle {
                    assert(crate::proto::decodes_to(decode, bytes, out));
                } else {
                    assert(after.records[h] == before.records[h]);
                }
            }
        },
        Change::Removed { handle } => {
            assert forall|h: Handle, out: Option<Record>|
                now.contains_key(h) && #[trigger] crate::proto::decodes_to(
                    decode,
                    after.records[h],
                    out,
                ) implies out == Some(now[h]) by {
                assert(after.records[h] == before.records[h]);
            }
        },
        Change::Status { handle, status } => {
            if before.records.contains_key(handle) {
                let stored = before.records[handle];
                let txn = choose|txn: Vec<Write>| #[trigger]
                    restatused(handle, stored, status, decode, encode, Ok(txn)) && after
                        == before.committed(txn@);
                let bytes = txn@[0]->Record_bytes;
                assert(reencoded(encode, decode, stored, status, bytes));
                let rec = choose|rec: Record| #[trigger]
                    crate::proto::decodes_to(decode, stored, Some(rec)) && call_ensures(
                        encode,
                        (&rec.with_status(status),),
                        Some(bytes),
                    );
                let new = rec.with_status(status);
                assert(rec == recs[handle]);
                assert(crate::proto::encodes_to(encode, new, bytes@));
                assert(crate::proto::reads_back(encode, decode, new));
                reveal_with_fuel(Tables::committed, 2);
                assert(txn@.drop_last() =~= Seq::<Write>::empty());
                assert(after.records == before.records.insert(handle, bytes@));
                assert forall|h: Handle, out: Option<Record>|
                    now.contains_key(h) && #[trigger] crate::proto::decodes_to(
                        decode,
                        after.records[h],
                        out,
                    ) implies out == Some(now[h]) by {
                    if h == handle {
                        assert(crate::proto::decodes_to(decode, bytes@, out));
                    } else {
                        assert(after.records[h] == before.records[h]);
                    }
                }
            }
        },
    }
}

/// Whatever is put, dropped and given another status, in whatever order, the store
/// holds exactly the last record put under each handle and not dropped since, with
/// the last status it was given. `states` are the tables before, between and after
/// the changes; the codec reads back.
pub proof fn changes_are_held<D: Fn(&[u8]) -> Option<Record>, E: Fn(&Record) -> Option<Vec<u8>>>(
    decode: D,
    encode: E,
    recs: Map<Handle, Record>,
    changes: Seq<Change>,
    states: Seq<Tables>,
)
    requires
        forall|rec: Record| #[trigger] crate::proto::reads_back(encode, decode, rec),
        states.len() == changes.len() + 1,
        holds(decode, states[0], recs),
        forall|i: int|
            0 <= i < changes.len() ==> changes_to(
                decode,
                encode,
                states[i],
                #[trigger] changes[i],
                states[i + 1],
            ),
    ensures
        holds(decode, states.last(), all_kept(recs, changes)),
    decreases changes.len(),
{
    if changes.len() > 0 {
        let c = changes.drop_last();
        let s = states.drop_last();
        assert forall|i: int| 0 <= i < c.len() implies changes_to(
            decode,
            encode,
            s[i],
            #[trigger] c[i],
            s[i + 1],
        ) by {
            assert(c[i] == changes[i]);
        }
        changes_are_held(decode, encode, recs, c, s);
        let n = changes.len() - 1;
        assert(changes_to(decode, encode, states[n], changes[n], states[n + 1]));
        lemma_change_is_held(decode, encode, s.last(), all_kept(recs, c), changes[n], states.last());
    }
}

/// An empty store holds nothing.
pub proof fn empty_stores_hold_nothing<D: Fn(&[u8]) -> Option<Record>>(decode: D, t: Tables)
    requires
        t.records == Map::<Handle, Seq<u8>>::empty(),
        t.counter is None,
    ensures
        holds(decode, t, Map::empty()),
{
    assert(t.records.dom() =~= Map::<Handle, Record>::empty().dom());
}

/// Loading a store succeeds and gives exactly the records that it holds, ascending
/// by handle, and a counter that clears every one of them.
pub proof fn what_is_held_is_loaded<D: Fn(&[u8]) -> Option<Record>>(
    decode: D,
    t: Tables,
    recs: Map<Handle, Record>,
    rows: Seq<(Handle, Vec<u8>)>,
    r: Result<Loaded, StoreError>,
)
    requires
        holds(decode, t, recs),
        rows_of(t.records, rows),
        loads_to(decode, rows, t.counter, r),
    ensures
        r matches Ok(l) && {
            &&& ordered(l.records@)
            &&& forall|h: Handle|
                recs.contains_key(h) ==> #[trigger] l.records@.contains((h, recs[h]))
            &&& forall|k: int|
                0 <= k < l.records@.len() ==> recs.contains_key((#[trigger] l.records@[k]).0)
                    && l.records@[k].1 == recs[l.records@[k].0] && l.records@[k].0 <= l.next_handle
        },
{
    match r {
        Err(StoreError::BadRecord) => {
            let i = choose|i: int|
                0 <= i < rows.len() && #[trigger] crate::proto::decodes_to(
                    decode,
                    rows[i].1@,
                    None,
                );
            assert(recs.contains_key(rows[i].0));
            assert(crate::proto::decodes_to(decode, t.records[rows[i].0], None));
        },
        Err(_) => {},
        Ok(l) => {
            assert forall|k: int| 0 <= k < l.records@.len() implies recs.contains_key(
                (#[trigger] l.records@[k]).0,
            ) && l.records@[k].1 == recs[l.records@[k].0] && l.records@[k].0 <= l.next_handle by {
                assert(comes_from(decode, rows, rows.len() as int, l.records@[k]));
                let i = choose|i: int|
                    0 <= i < rows.len() && #[trigger] read_from(decode, rows, i, l.records@[k]);
                let h = rows[i].0;
                assert(recs.contains_key(h));
                assert(crate::proto::decodes_to(
                    decode,
                    t.records[h],
                    Some(l.records@[k].1),
                ));
            }
            assert forall|h: Handle| recs.contains_key(h) implies #[trigger] l.records@.contains(
                (h, recs[h]),
            ) by {
                records_survive(decode, t, h, rows, l);
                let k = choose|k: int|
                    0 <= k < l.records@.len() && (#[trigger] l.records@[k]).0 == h
                        && crate::proto::decodes_to(
                        decode,
                        t.records[h],
                        Some(l.records@[k].1),
                    );
                assert(l.records@[k] == (h, recs[h]));
            }
        },
    }
}

/// Loading a store twice gives the same records and the same counter.
pub proof fn loads_agree<D: Fn(&[u8]) -> Option<Record>>(
    decode: D,
    t: Tables,
    recs: Map<Handle, Record>,
    rows: Seq<(Handle, Vec<u8>)>,
    l: Loaded,
    other_rows: Seq<(Handle, Vec<u8>)>,
    other: Loaded,
)
    requires
        holds(decode, t, recs),
        rows_of(t.records, rows),
        rows_of(t.records, other_rows),
        loads_to(decode, rows, t.counter, Ok(l)),
        loads_to(decode, other_rows, t.counter, Ok(other)),
    ensures
        l.records@ == other.records@,
        l.next_handle == other.next_handle,
{
    what_is_held_is_loaded(decode, t, recs, rows, Ok(l));
    what_is_held_is_loaded(decode, t, recs, other_rows, Ok(other));
    let a = Seq::new(l.records@.len(), |i: int| l.records@[i].0);
    let b = Seq::new(other.records@.len(), |i: int| other.records@[i].0);
    assert forall|h: Handle| #[trigger] a.contains(h) <==> b.contains(h) by {
        if a.contains(h) {
            let i = choose|i: int| 0 <= i < a.len() && a[i] == h;
            assert(recs.contains_key(l.records@[i].0));
            assert(other.records@.contains((h, recs[h])));
            let j = choose|j: int| 0 <= j < other.records@.len() && other.records@[j] == (h, recs[h]);
            assert(b[j] == h);
        }
        if b.contains(h) {
            let i = choose|i: int| 0 <= i < b.len() && b[i] == h;
            assert(recs.contains_key(other.records@[i].0));
            assert(l.records@.contains((h, recs[h])));
            let j = choose|j: int| 0 <= j < l.records@.len() && l.records@[j] == (h, recs[h]);
            assert(a[j] == h);
        }
    }
    crate::lifecycle::lemma_ascending_is_unique(a, b);
    assert forall|k: int| 0 <= k < l.records@.len() implies l.records@[k] == other.records@[k] by {
        assert(a[k] == b[k]);
    }
    assert(l.records@ =~= other.records@);
}

/// The node's identity survives a restart: once a key is kept, every later run
/// gets that key and writes nothing.
pub proof fn identity_survives(
    t: Tables,
    fresh: [u8; 32],
    first: Result<([u8; 32], Vec<Write>), StoreError>,
    other: [u8; 32],
    second: Result<([u8; 32], Vec<Write>), StoreError>,
)
    requires
        identity(t.secret, fresh, first),
        first is Ok,
        identity(t.committed(first->Ok_0.1@).secret, other, second),
    ensures
        second is Ok,
        second->Ok_0.0@ == first->Ok_0.0@,
        second->Ok_0.1@.len() == 0,
{
    reveal_with_fuel(Tables::committed, 2);
}

} // verus!
