//! What a node keeps: its records, its handle counter and its key.

use vstd::prelude::*;

use crate::process::Record;
use crate::proto::{Handle, ProcState};
use crate::store::{Loaded, Store, StoreError, Tables, Write};

verus! {

/// A write does what it says to the table that it names, and nothing to the others.
pub proof fn writes_do_what_they_say(t: Tables, w: Write, h: Handle)
    ensures
        ({
            let now = t.committed(seq![w]);
            &&& w matches Write::Record { handle, bytes } ==> {
                &&& now.records.contains_key(handle)
                &&& now.records[handle] == bytes@
                &&& h != handle ==> (now.records.contains_key(h) <==> t.records.contains_key(h))
                &&& h != handle && t.records.contains_key(h) ==> now.records[h] == t.records[h]
                &&& now.counter == t.counter
                &&& now.secret == t.secret
            }
            &&& w matches Write::Remove { handle } ==> {
                &&& !now.records.contains_key(handle)
                &&& h != handle ==> (now.records.contains_key(h) <==> t.records.contains_key(h))
                &&& h != handle && t.records.contains_key(h) ==> now.records[h] == t.records[h]
                &&& now.counter == t.counter
                &&& now.secret == t.secret
            }
            &&& w matches Write::Counter { bytes } ==> now.counter == Some(bytes@) && now.records
                == t.records && now.secret == t.secret
            &&& w matches Write::Secret { bytes } ==> now.secret == Some(bytes@) && now.records
                == t.records && now.counter == t.counter
        }),
{
    reveal_with_fuel(Tables::committed, 2);
    assert(seq![w].drop_last() =~= Seq::<Write>::empty());
}

/// A transaction's writes take effect one after the other.
pub proof fn writes_take_effect_in_order(t: Tables, a: Seq<Write>, b: Seq<Write>)
    ensures
        t.committed(a + b) == t.committed(a).committed(b),
    decreases b.len(),
{
    if b.len() == 0 {
        assert(a + b =~= a);
    } else {
        writes_take_effect_in_order(t, a, b.drop_last());
        assert((a + b).drop_last() =~= a + b.drop_last());
        assert((a + b).last() == b.last());
    }
}

/// A record that is put is there, as it was put, and the counter stands at its handle;
/// one that is removed is gone. No other record, and not the key, is touched.
pub proof fn records_are_put_and_removed(
    t: Tables,
    handle: Handle,
    bytes: Vec<u8>,
    put: Vec<Write>,
    removed: Vec<Write>,
    h: Handle,
)
    requires
        call_ensures(Store::put, (handle, bytes), put),
        call_ensures(Store::remove, (handle,), removed),
    ensures
        ({
            let now = t.committed(put@);
            &&& now.records.contains_key(handle)
            &&& now.records[handle] == bytes@
            &&& h != handle ==> (now.records.contains_key(h) <==> t.records.contains_key(h))
            &&& h != handle && t.records.contains_key(h) ==> now.records[h] == t.records[h]
            &&& now.secret == t.secret
            &&& now.counter is Some
            &&& now.counter->0.len() == 8
            &&& vstd::bytes::spec_u64_from_le_bytes(now.counter->0) == handle
        }),
        ({
            let now = t.committed(removed@);
            &&& !now.records.contains_key(handle)
            &&& h != handle ==> (now.records.contains_key(h) <==> t.records.contains_key(h))
            &&& h != handle && t.records.contains_key(h) ==> now.records[h] == t.records[h]
            &&& now.secret == t.secret
            &&& now.counter == t.counter
        }),
{
    vstd::bytes::lemma_auto_spec_u64_to_from_le_bytes();
    assert(crate::store::puts(put@, handle, bytes@));
    assert(crate::store::removes(removed@, handle));
    let a = t.committed(put@);
    let b = t.committed(removed@);
}

/// A new status is written into the record that is there, which otherwise stays as it
/// is; where there is none, nothing is written.
pub proof fn only_the_status_changes<
    D: Fn(&[u8]) -> Option<Record>,
    E: Fn(&Record) -> Option<Vec<u8>>,
>(
    handle: Handle,
    stored: &[u8],
    status: ProcState,
    decode: D,
    encode: E,
    r: Result<Vec<Write>, StoreError>,
    none: Result<Vec<Write>, StoreError>,
    rec: Record,
)
    requires
        call_ensures(
            Store::set_status::<D, E>,
            (handle, Some(stored), status, decode, encode),
            r,
        ),
        call_ensures(
            Store::set_status::<D, E>,
            (handle, None::<&[u8]>, status, decode, encode),
            none,
        ),
        forall|p: &[u8], out: Option<Record>|
            p@ == stored@ && #[trigger] call_ensures(decode, (p,), out) ==> out == Some(rec),
    ensures
        none matches Ok(txn) && txn@.len() == 0,
        r matches Ok(txn) ==> {
            &&& txn@.len() == 1
            &&& txn@[0] is Record
            &&& txn@[0]->Record_handle == handle
            &&& exists|now: Record| #[trigger]
                call_ensures(encode, (&now,), Some(txn@[0]->Record_bytes)) && now.status == status
                    && now.pid == rec.pid && now.cmd == rec.cmd && now.args == rec.args && now.env
                    == rec.env
        },
        r matches Err(e) ==> e is Encode && exists|now: Record| #[trigger]
            call_ensures(encode, (&now,), None::<Vec<u8>>) && now.status == status && now.pid
                == rec.pid && now.cmd == rec.cmd && now.args == rec.args && now.env == rec.env,
{
    assert forall|out: Option<Record>| #[trigger]
        crate::proto::decodes_to(decode, stored@, out) implies out == Some(rec) by {
        let p = choose|p: &[u8]| p@ == stored@ && #[trigger] call_ensures(decode, (p,), out);
    }
    match r {
        Ok(txn) => {
            let bytes = txn@[0]->Record_bytes;
            assert(crate::store::reencoded(encode, decode, stored@, status, bytes));
            let was = choose|was: Record| #[trigger]
                crate::proto::decodes_to(decode, stored@, Some(was)) && call_ensures(
                    encode,
                    (&was.with_status(status),),
                    Some(bytes),
                );
            let now = was.with_status(status);
            assert(call_ensures(encode, (&now,), Some(bytes)));
        },
        Err(StoreError::BadRecord) => {
            assert(crate::proto::decodes_to(decode, stored@, None));
        },
        Err(_) => {
            assert(crate::store::unencodable(encode, decode, stored@, status));
            let was = choose|was: Record| #[trigger]
                crate::proto::decodes_to(decode, stored@, Some(was)) && call_ensures(
                    encode,
                    (&was.with_status(status),),
                    None,
                );
            let now = was.with_status(status);
            assert(call_ensures(encode, (&now,), None::<Vec<u8>>));
        },
    }
}

/// A record that cannot be read is not given a new status.
pub proof fn unreadable_records_are_left<
    D: Fn(&[u8]) -> Option<Record>,
    E: Fn(&Record) -> Option<Vec<u8>>,
>(
    handle: Handle,
    stored: &[u8],
    status: ProcState,
    decode: D,
    encode: E,
    r: Result<Vec<Write>, StoreError>,
)
    requires
        call_ensures(
            Store::set_status::<D, E>,
            (handle, Some(stored), status, decode, encode),
            r,
        ),
        forall|p: &[u8], out: Option<Record>|
            p@ == stored@ && #[trigger] call_ensures(decode, (p,), out) ==> out is None,
    ensures
        r == Err::<Vec<Write>, StoreError>(StoreError::BadRecord),
{
    assert forall|out: Option<Record>| #[trigger]
        crate::proto::decodes_to(decode, stored@, out) implies out is None by {
        let p = choose|p: &[u8]| p@ == stored@ && #[trigger] call_ensures(decode, (p,), out);
    }
    match r {
        Ok(txn) => {
            let bytes = txn@[0]->Record_bytes;
            assert(crate::store::reencoded(encode, decode, stored@, status, bytes));
            let was = choose|was: Record| #[trigger]
                crate::proto::decodes_to(decode, stored@, Some(was)) && call_ensures(
                    encode,
                    (&was.with_status(status),),
                    Some(bytes),
                );
        },
        Err(StoreError::BadRecord) => {},
        Err(_) => {
            assert(crate::store::unencodable(encode, decode, stored@, status));
            let was = choose|was: Record| #[trigger]
                crate::proto::decodes_to(decode, stored@, Some(was)) && call_ensures(
                    encode,
                    (&was.with_status(status),),
                    None,
                );
        },
    }
}

/// Loading gives every record that is there, as it reads, lowest handle first, and
/// nothing else. The counter is the highest of what was stored and of the records'
/// handles. A record that cannot be read, or a counter that is none, is an error.
pub proof fn everything_kept_is_loaded<D: Fn(&[u8]) -> Option<Record>>(
    rows: Vec<(Handle, Vec<u8>)>,
    counter: Option<&[u8]>,
    decode: D,
    r: Result<Loaded, StoreError>,
    recs: Seq<Option<Record>>,
    i: int,
)
    requires
        call_ensures(Store::load::<D>, (rows, counter, decode), r),
        recs.len() == rows@.len(),
        forall|k: int, p: &[u8], out: Option<Record>|
            #![trigger rows@[k], call_ensures(decode, (p,), out)]
            0 <= k < rows@.len() && p@ == rows@[k].1@ && call_ensures(decode, (p,), out) ==> out
                == recs[k],
        0 <= i < rows@.len(),
    ensures
        r is Ok <==> (forall|k: int| 0 <= k < recs.len() ==> (#[trigger] recs[k]) is Some) && (
        counter matches Some(c) ==> c@.len() == 8),
        r matches Err(e) ==> e is BadRecord || e is BadCounter,
        r matches Err(StoreError::BadCounter) ==> counter is Some && counter->0@.len() != 8,
        r matches Err(StoreError::BadRecord) ==> exists|k: int|
            0 <= k < recs.len() && (#[trigger] recs[k]) is None,
        r matches Ok(l) ==> {
            &&& l.records@.len() == rows@.len()
            &&& forall|a: int, b: int|
                0 <= a < b < l.records@.len() ==> (#[trigger] l.records@[a]).0 < (
                #[trigger] l.records@[b]).0
            &&& l.records@.contains((rows@[i].0, recs[i]->0))
            &&& l.next_handle >= rows@[i].0
            &&& counter matches Some(c) ==> l.next_handle >= vstd::bytes::spec_u64_from_le_bytes(
                c@,
            )
            &&& (counter matches Some(c) && l.next_handle == vstd::bytes::spec_u64_from_le_bytes(
                c@,
            )) || exists|k: int|
                0 <= k < l.records@.len() && (#[trigger] l.records@[k]).0 == l.next_handle
        },
{
    assert forall|k: int, out: Option<Record>|
        0 <= k < rows@.len() && #[trigger] crate::proto::decodes_to(
            decode,
            rows@[k].1@,
            out,
        ) implies out == recs[k] by {
        let p = choose|p: &[u8]| p@ == rows@[k].1@ && #[trigger] call_ensures(decode, (p,), out);
    }
    match r {
        Ok(l) => {
            let n = rows@.len() as int;
            assert forall|k: int| 0 <= k < recs.len() implies (#[trigger] recs[k]) is Some by {
                assert(crate::store::is_among(decode, rows@, k, l.records@));
                let j = choose|j: int|
                    0 <= j < l.records@.len() && #[trigger] crate::store::read_from(
                        decode,
                        rows@,
                        k,
                        l.records@[j],
                    );
                assert(crate::proto::decodes_to(decode, rows@[k].1@, Some(l.records@[j].1)));
            }
            assert(crate::store::is_among(decode, rows@, i, l.records@));
            let j = choose|j: int|
                0 <= j < l.records@.len() && #[trigger] crate::store::read_from(
                    decode,
                    rows@,
                    i,
                    l.records@[j],
                );
            assert(crate::proto::decodes_to(decode, rows@[i].1@, Some(l.records@[j].1)));
            assert(l.records@[j] == (rows@[i].0, recs[i]->0));
            assert(l.records@[j].0 <= l.next_handle);
            lemma_highest_is_one(l.records@);
        },
        Err(StoreError::BadRecord) => {
            let k = choose|k: int|
                0 <= k < rows@.len() && #[trigger] crate::proto::decodes_to(
                    decode,
                    rows@[k].1@,
                    None,
                );
            assert(recs[k] is None);
        },
        Err(_) => {
            assert(crate::store::readable(decode, rows@));
        },
    }
}

/// The highest handle is that of a record, if there is one.
proof fn lemma_highest_is_one(records: Seq<(Handle, Record)>)
    ensures
        records.len() > 0 ==> exists|k: int|
            0 <= k < records.len() && (#[trigger] records[k]).0 == crate::store::highest(records),
    decreases records.len(),
{
    if records.len() > 0 {
        let r = records.drop_last();
        lemma_highest_is_one(r);
        let n = records.len() - 1;
        reveal_with_fuel(crate::store::highest, 2);
        if records.last().0 > crate::store::highest(r) || r.len() == 0 {
            assert(records[n].0 == crate::store::highest(records));
        } else {
            let k = choose|k: int|
                0 <= k < r.len() && (#[trigger] r[k]).0 == crate::store::highest(r);
            assert(records[k].0 == crate::store::highest(records));
        }
    }
}

/// An empty store has handed out what its counter says, or nothing.
pub proof fn empty_stores_load<D: Fn(&[u8]) -> Option<Record>>(
    rows: Vec<(Handle, Vec<u8>)>,
    counter: Option<&[u8]>,
    decode: D,
    r: Result<Loaded, StoreError>,
)
    requires
        call_ensures(Store::load::<D>, (rows, counter, decode), r),
        rows@.len() == 0,
        counter matches Some(c) ==> c@.len() == 8,
    ensures
        r is Ok,
        r->Ok_0.records@.len() == 0,
        counter is None ==> r->Ok_0.next_handle == 0,
        counter matches Some(c) ==> r->Ok_0.next_handle == vstd::bytes::spec_u64_from_le_bytes(c@),
{
}

/// A stored key is the node's, and stays as it is; one that is not 32 bytes long is
/// none. On the first run the new key is the node's, and is kept.
pub proof fn keys_are_kept(
    stored: Option<&[u8]>,
    fresh: [u8; 32],
    r: Result<([u8; 32], Vec<Write>), StoreError>,
    t: Tables,
)
    requires
        call_ensures(Store::secret_key_with, (stored, fresh), r),
    ensures
        r is Err <==> stored is Some && stored->0@.len() != 32,
        r matches Err(e) ==> e is BadSecret,
        stored is Some && stored->0@.len() == 32 ==> r is Ok && r->Ok_0.0@ == stored->0@
            && r->Ok_0.1@.len() == 0,
        stored is None ==> {
            let now = t.committed(r->Ok_0.1@);
            &&& r is Ok
            &&& r->Ok_0.0 == fresh
            &&& now.secret == Some(fresh@)
            &&& now.records == t.records
            &&& now.counter == t.counter
        },
{
    if stored is None {
        let now = t.committed(r->Ok_0.1@);
    }
}

/// A node is who it was: the key of a later run is the key of the first.
pub proof fn nodes_stay_who_they_are(
    first: Result<([u8; 32], Vec<Write>), StoreError>,
    t: Tables,
    stored: &[u8],
    second: Result<([u8; 32], Vec<Write>), StoreError>,
)
    requires
        call_ensures(Store::secret_key, (None::<&[u8]>,), first),
        first is Ok ==> t.committed(first->Ok_0.1@).secret == Some(stored@),
        call_ensures(Store::secret_key, (Some(stored),), second),
    ensures
        first is Ok,
        crate::store::generated(first->Ok_0.0),
        second is Ok,
        second->Ok_0.0@ == first->Ok_0.0@,
        second->Ok_0.1@.len() == 0,
{
    let fresh = choose|fresh: [u8; 32]| #[trigger]
        crate::store::identity(None, fresh, first) && crate::store::generated(fresh);
    let now = t.committed(first->Ok_0.1@);
}

} // verus!
