//! Moving a rendezvous message between two kernel-resident IPC buffers: the
//! body, the sender's badge and the capabilities named in the cap slots.

use vstd::prelude::*;
use super::errors::IpcError;
use super::handle_id::{HandleId, MAX_SLOT_INDEX, lemma_handle_id_determined, lemma_raw_parts};
use super::handle_table::{
    HandleReservation, HandleTable, drained, first_failure, has_duplicate_id, keeps_dead,
    get_result, lemma_first_failure_same, lemma_within_capacity, reservations_held, resolve,
    same_entries, transfer_reserved, transfer_reserved_within,
};
use super::rev_node::{RevNodeView, RevTree};
use super::rights::Rights;
use crate::num::NonZeroU32;
use super::ipc_buffer::{
    BADGE_OFFSET, BADGE_SIZE, CAPS_OFFSET, CAP_SIZE, DATA_OFFSET, IPC_BUFFER_DATA_MAX,
    IPC_BUFFER_MAX_CAPS, IpcBuffer, BUFFER_LEN, TAG_OFFSET, TAG_SIZE,
};

verus! {

/// Little-endian value of four bytes.
pub open spec fn le_u32(b: Seq<u8>) -> int {
    b[0] + 256 * b[1] + 65536 * b[2] + 16777216 * b[3]
}

/// Little-endian value of eight bytes.
pub open spec fn le_u64(b: Seq<u8>) -> int {
    le_u32(b.subrange(0, 4)) + 4294967296 * le_u32(b.subrange(4, 8))
}

/// The four little-endian bytes of `x`.
fn u32_to_le(x: u32) -> (r: [u8; 4])
    ensures
        le_u32(r@) == x,
{
    let r = [(x % 256) as u8, ((x / 256) % 256) as u8, ((x / 65536) % 256) as u8, (x / 16777216) as u8];
    proof {
        assert(x == (x % 256) + 256 * ((x / 256) % 256) + 65536 * ((x / 65536) % 256) + 16777216 * (x / 16777216)) by (nonlinear_arith);
    }
    r
}

/// Value of four little-endian bytes.
fn le_to_u32(b: &[u8]) -> (r: u32)
    requires
        b@.len() == 4,
    ensures
        r == le_u32(b@),
{
    b[0] as u32 + 256 * (b[1] as u32) + 65536 * (b[2] as u32) + 16777216 * (b[3] as u32)
}

/// The eight little-endian bytes of `x`.
fn u64_to_le(x: u64) -> (r: [u8; 8])
    ensures
        le_u64(r@) == x,
{
    let lo = u32_to_le((x % 4294967296) as u32);
    let hi = u32_to_le((x / 4294967296) as u32);
    let r = [lo[0], lo[1], lo[2], lo[3], hi[0], hi[1], hi[2], hi[3]];
    proof {
        assert(r@.subrange(0, 4) =~= lo@);
        assert(r@.subrange(4, 8) =~= hi@);
        assert(x == (x % 4294967296) + 4294967296 * (x / 4294967296)) by (nonlinear_arith);
    }
    r
}

/// The id value held in cap slot `i` of the buffer bytes `buf`.
pub open spec fn cap_raw(buf: Seq<u8>, i: int) -> int {
    le_u32(buf.subrange(CAPS_OFFSET + CAP_SIZE * i, CAPS_OFFSET + CAP_SIZE * i + CAP_SIZE))
}

/// `ids` are the ids held in the first `n` cap slots of `buf`.
pub open spec fn ids_in_caps(buf: Seq<u8>, n: int, ids: Seq<HandleId>) -> bool {
    &&& ids.len() == n
    &&& forall|i: int| 0 <= i < n ==> (#[trigger] ids[i])@ == cap_raw(buf, i)
}

/// Whether one of the first `n` cap slots of `buf` holds zero, which names
/// no handle.
pub open spec fn has_zero_cap(buf: Seq<u8>, n: int) -> bool {
    exists|i: int| 0 <= i < n && #[trigger] cap_raw(buf, i) == 0
}

/// `x` capped at `max`.
pub open spec fn capped(x: int, max: int) -> int {
    if x < max {
        x
    } else {
        max
    }
}

/// Whether byte `j` of a buffer lies in the first `l` bytes of the data,
/// in the badge, or (when `caps` holds) in the first `n` cap slots.
pub open spec fn in_written(j: int, l: int, n: int, caps: bool) -> bool {
    ||| DATA_OFFSET <= j < DATA_OFFSET + l
    ||| BADGE_OFFSET <= j < BADGE_OFFSET + BADGE_SIZE
    ||| caps && CAPS_OFFSET <= j < CAPS_OFFSET + CAP_SIZE * n
}

/// Value of the tag held in the buffer bytes `buf`.
pub open spec fn tag_value(buf: Seq<u8>) -> int {
    le_u64(buf.subrange(TAG_OFFSET as int, TAG_OFFSET + TAG_SIZE))
}

/// Whether `tag` is a value that `encode` may give for `(l, n)`.
pub open spec fn encodes<F: Fn(usize, usize) -> u64>(encode: F, l: int, n: int, tag: int) -> bool {
    exists|t: u64| t == tag && #[trigger] call_ensures(encode, (l as usize, n as usize), t)
}

/// Writes `tag` to the tag of `buf`, leaving every other byte.
fn write_tag(buf: &mut IpcBuffer, tag: u64)
    ensures
        final(buf)@.len() == BUFFER_LEN,
        tag_value(final(buf)@) == tag,
        forall|j: int| TAG_SIZE <= j < BUFFER_LEN ==> #[trigger] final(buf)@[j] == old(buf)@[j],
{
    proof {
        buf.lemma_len();
    }
    let ghost before = buf@;
    let bytes = u64_to_le(tag);
    buf.kernel_write(TAG_OFFSET, &bytes).unwrap();
    proof {
        buf.lemma_len();
        assert(buf@.subrange(TAG_OFFSET as int, TAG_OFFSET + TAG_SIZE) =~= bytes@);
        assert forall|j: int| TAG_SIZE <= j < BUFFER_LEN implies #[trigger] buf@[j] == before[j] by {
            assert(buf@[j] == before.subrange(TAG_SIZE as int, BUFFER_LEN as int)[j - TAG_SIZE]);
        }
    }
}

/// Copies the first `len` bytes of the sender's data, `len` capped at the
/// data size, to the receiver's data, and writes `badge` to the receiver's
/// badge. Returns the capped length.
pub fn deliver_body(sender: &IpcBuffer, badge: u64, receiver: &mut IpcBuffer, len: usize) -> (l: usize)
    ensures
        l == capped(len as int, IPC_BUFFER_DATA_MAX as int),
        final(receiver)@.len() == BUFFER_LEN,
        final(receiver)@.subrange(DATA_OFFSET as int, DATA_OFFSET + l) == sender@.subrange(
            DATA_OFFSET as int,
            DATA_OFFSET + l,
        ),
        le_u64(final(receiver)@.subrange(BADGE_OFFSET as int, BADGE_OFFSET + BADGE_SIZE)) == badge,
        forall|j: int|
            0 <= j < BUFFER_LEN && !in_written(j, l as int, 0, false) ==> #[trigger] final(receiver)@[j]
                == old(receiver)@[j],
{
    let len = if len < IPC_BUFFER_DATA_MAX { len } else { IPC_BUFFER_DATA_MAX };
    let ghost b0 = receiver@;
    proof {
        sender.lemma_len();
        receiver.lemma_len();
    }
    if len > 0 {
        let body = sender.kernel_read(DATA_OFFSET, len).unwrap();
        receiver.kernel_write(DATA_OFFSET, body.as_slice()).unwrap();
    }
    let ghost b1 = receiver@;
    proof {
        receiver.lemma_len();
        assert(b1.subrange(DATA_OFFSET as int, DATA_OFFSET + len) =~= sender@.subrange(DATA_OFFSET as int, DATA_OFFSET + len));
        assert forall|j: int| 0 <= j < b1.len() && !(DATA_OFFSET <= j < DATA_OFFSET + len) implies #[trigger] b1[j] == b0[j] by {
            if len > 0 {
                if j < DATA_OFFSET {
                    assert(b1[j] == b0.subrange(0, DATA_OFFSET as int)[j]);
                }
            }
        }
    }
    let bytes = u64_to_le(badge);
    receiver.kernel_write(BADGE_OFFSET, &bytes).unwrap();
    proof {
        let b2 = receiver@;
        receiver.lemma_len();
        assert(b2.subrange(BADGE_OFFSET as int, BADGE_OFFSET + BADGE_SIZE) =~= bytes@);
        assert forall|j: int| 0 <= j < BADGE_OFFSET implies #[trigger] b2[j] == b1[j] by {
            assert(b2[j] == b1.subrange(0, BADGE_OFFSET as int)[j]);
        }
        assert(b2.subrange(DATA_OFFSET as int, DATA_OFFSET + len) =~= b1.subrange(DATA_OFFSET as int, DATA_OFFSET + len));
    }
    len
}

/// Reads the ids in the first `n` cap slots of `sender`; `BadHandle` when
/// one of them is zero.
pub fn read_cap_ids(sender: &IpcBuffer, n: usize) -> (r: Result<Vec<HandleId>, IpcError>)
    requires
        n <= IPC_BUFFER_MAX_CAPS,
    ensures
        r is Err <==> has_zero_cap(sender@, n as int),
        r matches Err(e) ==> e == IpcError::BadHandle,
        r matches Ok(ids) ==> ids_in_caps(sender@, n as int, ids@),
{
    proof {
        sender.lemma_len();
    }
    let mut ids: Vec<HandleId> = Vec::new();
    let mut i: usize = 0;
    while i < n
        invariant
            n <= IPC_BUFFER_MAX_CAPS,
            i <= n,
            sender@.len() == BUFFER_LEN,
            ids@.len() == i,
            forall|a: int| 0 <= a < i ==> (#[trigger] ids@[a])@ == cap_raw(sender@, a) && cap_raw(sender@, a) != 0,
        decreases n - i,
    {
        let bytes = sender.kernel_read(CAPS_OFFSET + CAP_SIZE * i, CAP_SIZE).unwrap();
        let raw = le_to_u32(bytes.as_slice());
        proof {
            assert(bytes@ =~= sender@.subrange(
                CAPS_OFFSET + CAP_SIZE * i,
                CAPS_OFFSET + CAP_SIZE * i + CAP_SIZE,
            ));
        }
        match NonZeroU32::new(raw) {
            Some(nz) => {
                let id = HandleId::from_raw(nz);
                ids.push(id);
                proof {
                    assert(ids@[i as int] == id);
                }
            },
            None => {
                proof {
                    assert(cap_raw(sender@, i as int) == 0);
                }
                return Err(IpcError::BadHandle);
            },
        }
        i = i + 1;
    }
    proof {
        assert forall|a: int| 0 <= a < n implies #[trigger] cap_raw(sender@, a) != 0 by {
            assert(ids@[a]@ == cap_raw(sender@, a));
        }
    }
    Ok(ids)
}

/// The ids held in cap slots are determined by the slots.
pub proof fn lemma_ids_in_caps_unique(buf: Seq<u8>, n: int, a: Seq<HandleId>, b: Seq<HandleId>)
    requires
        ids_in_caps(buf, n, a),
        ids_in_caps(buf, n, b),
    ensures
        a == b,
{
    assert forall|k: int| 0 <= k < n implies a[k] == b[k] by {
        assert(a[k]@ == b[k]@);
        lemma_handle_id_determined(a[k], b[k]);
    }
    assert(a =~= b);
}

/// Writes the ids that `reservations` predict to the first cap slots of
/// `receiver`, in order.
pub fn write_cap_ids(receiver: &mut IpcBuffer, reservations: &[HandleReservation])
    requires
        reservations@.len() <= IPC_BUFFER_MAX_CAPS,
    ensures
        final(receiver)@.len() == BUFFER_LEN,
        forall|a: int|
            0 <= a < reservations@.len() ==> cap_raw(final(receiver)@, a) == (
            #[trigger] reservations@[a]).predicted_raw(),
        forall|j: int|
            0 <= j < BUFFER_LEN && !(CAPS_OFFSET <= j < CAPS_OFFSET + CAP_SIZE * reservations@.len())
                ==> #[trigger] final(receiver)@[j] == old(receiver)@[j],
{
    proof {
        receiver.lemma_len();
    }
    let n = reservations.len();
    let mut k: usize = 0;
    while k < n
        invariant
            n == reservations@.len(),
            n <= IPC_BUFFER_MAX_CAPS,
            k <= n,
            receiver@.len() == BUFFER_LEN,
            forall|a: int|
                0 <= a < k ==> cap_raw(receiver@, a) == (#[trigger] reservations@[a]).predicted_raw(),
            forall|j: int|
                0 <= j < BUFFER_LEN && !(CAPS_OFFSET <= j < CAPS_OFFSET + CAP_SIZE * k) ==> #[trigger] receiver@[j]
                    == old(receiver)@[j],
        decreases n - k,
    {
        let ghost before = receiver@;
        let id = reservations[k].handle_id();
        let bytes = u32_to_le(id.raw().get());
        let off = CAPS_OFFSET + CAP_SIZE * k;
        receiver.kernel_write(off, &bytes).unwrap();
        proof {
            receiver.lemma_len();
            assert(receiver@.subrange(off as int, off + CAP_SIZE) =~= bytes@);
            assert forall|j: int| 0 <= j < BUFFER_LEN && !(off <= j < off + CAP_SIZE) implies #[trigger] receiver@[j] == before[j] by {
                if j < off {
                    assert(receiver@[j] == before.subrange(0, off as int)[j]);
                } else {
                    assert(receiver@[j] == before.subrange(off + CAP_SIZE, BUFFER_LEN as int)[j - off - CAP_SIZE]);
                }
            }
            assert forall|a: int| 0 <= a < k implies cap_raw(receiver@, a) == (#[trigger] reservations@[a]).predicted_raw() by {
                assert(receiver@.subrange(CAPS_OFFSET + CAP_SIZE * a, CAPS_OFFSET + CAP_SIZE * a + CAP_SIZE)
                    =~= before.subrange(CAPS_OFFSET + CAP_SIZE * a, CAPS_OFFSET + CAP_SIZE * a + CAP_SIZE));
            }
        }
        k = k + 1;
    }
}

/// Cap slots holding the ids that `res` predict name the ids `v` whose
/// slots and generations are those of `res`.
proof fn lemma_caps_name(buf: Seq<u8>, res: Seq<HandleReservation>, v: Seq<HandleId>, out: Seq<HandleId>)
    requires
        v.len() == res.len(),
        forall|a: int| 0 <= a < res.len() ==> cap_raw(buf, a) == (#[trigger] res[a]).predicted_raw(),
        forall|a: int| 0 <= a < res.len() ==> (#[trigger] res[a]).spec_slot() <= MAX_SLOT_INDEX,
        forall|a: int|
            0 <= a < res.len() ==> (#[trigger] v[a]).spec_slot() == res[a].spec_slot()
                && v[a].spec_generation() == res[a].spec_generation(),
        ids_in_caps(buf, res.len() as int, out),
    ensures
        out == v,
{
    assert forall|a: int| 0 <= a < res.len() implies out[a] == v[a] by {
        assert(out[a]@ == res[a].predicted_raw());
        lemma_raw_parts(res[a].spec_generation(), res[a].spec_slot());
        lemma_handle_id_determined(out[a], v[a]);
    }
    assert(out =~= v);
}

/// Every reservation of a well-formed table names a slot that an id can name.
proof fn lemma_reservation_slots(table: HandleTable, res: Seq<HandleReservation>)
    requires
        table.wf(),
        reservations_held(table.slots(), res),
    ensures
        forall|a: int| 0 <= a < res.len() ==> (#[trigger] res[a]).spec_slot() <= MAX_SLOT_INDEX,
{
    lemma_within_capacity(table);
    assert forall|a: int| 0 <= a < res.len() implies (#[trigger] res[a]).spec_slot() <= MAX_SLOT_INDEX by {
        assert(res[a].spec_slot() < table.slots().len());
    }
}

/// What moving a rendezvous message does, from the sender's buffer bytes
/// `sender`, its badge and handle table `s0` (after: `s1`) to the
/// receiver's buffer bytes `b0` (after: `b1`) and handle table `t0` (after:
/// `t1`), with the body length and cap count `len` and `ncaps` of the
/// sender's tag and the tag encoding `encode`, ending with `r`; see
/// [`transfer_rendezvous`].
pub open spec fn message_moved<F: Fn(usize, usize) -> u64>(
    sender: Seq<u8>,
    badge: u64,
    s0: HandleTable,
    s1: HandleTable,
    b0: Seq<u8>,
    b1: Seq<u8>,
    t0: HandleTable,
    t1: HandleTable,
    tree: Seq<RevNodeView>,
    len: usize,
    ncaps: usize,
    encode: F,
    r: Result<(usize, usize), IpcError>,
) -> bool {
    &&& ({
            let l = capped(len as int, IPC_BUFFER_DATA_MAX as int);
            let n = capped(ncaps as int, IPC_BUFFER_MAX_CAPS as int);
            let caps = n > 0 && !has_zero_cap(sender, n) && n <= t0.spec_room();
            &&& b1.subrange(DATA_OFFSET as int, DATA_OFFSET + l) == sender.subrange(
                DATA_OFFSET as int,
                DATA_OFFSET + l,
            )
            &&& le_u64(b1.subrange(BADGE_OFFSET as int, BADGE_OFFSET + BADGE_SIZE))
                == badge
            &&& forall|j: int|
                0 <= j < b1.len() && !in_written(j, l, n, caps) && !(r is Ok && j
                    < TAG_SIZE) ==> #[trigger] b1[j] == b0[j]
            &&& r is Ok ==> encodes(encode, l, n, tag_value(b1))
            &&& n > 0 && has_zero_cap(sender, n) ==> r == Err::<(usize, usize), IpcError>(
                IpcError::BadHandle,
            )
            &&& n > 0 && !has_zero_cap(sender, n) && n > t0.spec_room() ==> r
                == Err::<(usize, usize), IpcError>(IpcError::OutOfHandles)
            &&& n == 0 ==> r == Ok::<(usize, usize), IpcError>((l as usize, 0usize))
                && s1 == s0
                && t1 == t0
            &&& caps ==> forall|ids: Seq<HandleId>|
                #[trigger] ids_in_caps(sender, n, ids) ==> {
                    &&& has_duplicate_id(ids) ==> r == Err::<(usize, usize), IpcError>(
                        IpcError::BadHandle,
                    )
                    &&& !has_duplicate_id(ids) ==> match first_failure(
                        s0.slots(),
                        ids,
                        Rights::spec_transfer(),
                        tree,
                    ) {
                        Some(e) => r == Err::<(usize, usize), IpcError>(e),
                        None => r == Ok::<(usize, usize), IpcError>((l as usize, n as usize)),
                    }
                    &&& r is Ok ==> {
                        let d = drained(s0.slots(), s0.free_list(), ids);
                        &&& s1.slots() == d.0
                        &&& s1.free_list() == d.1
                        &&& s1.spec_canceled() == s0.spec_canceled()
                            + d.2
                        &&& forall|out: Seq<HandleId>|
                            #[trigger] ids_in_caps(b1, n, out) ==> {
                                &&& forall|k: int|
                                    0 <= k < n ==> resolve(t1.slots(), #[trigger] out[k])
                                        == resolve(s0.slots(), ids[k]) && resolve(
                                        s0.slots(),
                                        ids[k],
                                    ) is Some
                                &&& forall|id: HandleId|
                                    !out.contains(id) ==> #[trigger] resolve(
                                        t1.slots(),
                                        id,
                                    ) == resolve(t0.slots(), id)
                            }
                    }
                }
        })
    &&& s1.wf()
    &&& t1.wf()
    &&& keeps_dead(s0.slots(), s1.slots())
    &&& keeps_dead(t0.slots(), t1.slots())
    &&& r is Err ==> s1 == s0 && same_entries(t0.slots(), t1.slots())
}

/// Moves the message in `sender` to `receiver`, between kernel-resident
/// buffers. `len` and `ncaps` are the body length and cap count of the
/// sender's tag; they are capped at the buffer's data size and cap count,
/// and returned capped for the receiver's tag. First the body is copied and
/// the sender's badge written to the receiver. Then, when caps are sent:
/// a zero id in a sender's cap slot is `BadHandle`; the receiver's table
/// reserves a slot for each (`OutOfHandles`); the predicted ids are written
/// to the receiver's cap slots; the entries are moved as
/// [`transfer_reserved`] does. No entry leaves the sender's table unless
/// the whole transfer succeeds.
pub fn transfer_rendezvous<F: Fn(usize, usize) -> u64>(
    sender: &IpcBuffer,
    sender_badge: u64,
    sender_table: &mut HandleTable,
    receiver: &mut IpcBuffer,
    receiver_table: &mut HandleTable,
    tree: &RevTree,
    len: usize,
    ncaps: usize,
    encode: F,
) -> (r: Result<(usize, usize), IpcError>)
    requires
        forall|l: usize, n: usize| call_requires(encode, (l, n)),
        old(sender_table).wf(),
        old(receiver_table).wf(),
        tree.well_formed(),
    ensures
        message_moved(
            sender@,
            sender_badge,
            *old(sender_table),
            *final(sender_table),
            old(receiver)@,
            final(receiver)@,
            *old(receiver_table),
            *final(receiver_table),
            tree@,
            len,
            ncaps,
            encode,
            r,
        ),
{
    let ghost b0 = receiver@;
    let len = deliver_body(sender, sender_badge, receiver, len);
    let ncaps = if ncaps < IPC_BUFFER_MAX_CAPS { ncaps } else { IPC_BUFFER_MAX_CAPS };
    if ncaps == 0 {
        let ghost b1 = receiver@;
        let tag = encode(len, 0);
        write_tag(receiver, tag);
        proof {
            let b2 = receiver@;
            assert(b2.subrange(DATA_OFFSET as int, DATA_OFFSET + len) =~= b1.subrange(DATA_OFFSET as int, DATA_OFFSET + len));
            assert(b2.subrange(BADGE_OFFSET as int, BADGE_OFFSET + BADGE_SIZE) =~= b1.subrange(BADGE_OFFSET as int, BADGE_OFFSET + BADGE_SIZE));
        }
        return Ok((len, 0));
    }
    let ids = match read_cap_ids(sender, ncaps) {
        Ok(ids) => ids,
        Err(e) => {
            return Err(e);
        },
    };
    let reservations = match receiver_table.reserve_slots(ncaps) {
        Ok(v) => v,
        Err(e) => {
            return Err(e);
        },
    };
    let ghost b1 = receiver@;
    // The ids the entries will have, written before the sender gives them up.
    write_cap_ids(receiver, reservations.as_slice());
    let ghost res = reservations@;
    proof {
        let b2 = receiver@;
        lemma_reservation_slots(*receiver_table, res);
        assert(b2.subrange(DATA_OFFSET as int, DATA_OFFSET + len) =~= b1.subrange(DATA_OFFSET as int, DATA_OFFSET + len));
        assert(b2.subrange(BADGE_OFFSET as int, BADGE_OFFSET + BADGE_SIZE) =~= b1.subrange(BADGE_OFFSET as int, BADGE_OFFSET + BADGE_SIZE));
        assert forall|other: Seq<HandleId>| #[trigger] ids_in_caps(sender@, ncaps as int, other) implies other == ids@ by {
            lemma_ids_in_caps_unique(sender@, ncaps as int, other, ids@);
        }
    }
    match transfer_reserved(sender_table, receiver_table, reservations, ids.as_slice(), tree) {
        Ok(v) => {
            let ghost b3 = receiver@;
            let tag = encode(len, ncaps);
            write_tag(receiver, tag);
            proof {
                let b4 = receiver@;
                assert(b4.subrange(DATA_OFFSET as int, DATA_OFFSET + len) =~= b3.subrange(DATA_OFFSET as int, DATA_OFFSET + len));
                assert(b4.subrange(BADGE_OFFSET as int, BADGE_OFFSET + BADGE_SIZE) =~= b3.subrange(BADGE_OFFSET as int, BADGE_OFFSET + BADGE_SIZE));
                assert forall|a: int| 0 <= a < ncaps implies #[trigger] cap_raw(b4, a) == cap_raw(b3, a) by {
                    assert(b4.subrange(CAPS_OFFSET + CAP_SIZE * a, CAPS_OFFSET + CAP_SIZE * a + CAP_SIZE) =~= b3.subrange(CAPS_OFFSET + CAP_SIZE * a, CAPS_OFFSET + CAP_SIZE * a + CAP_SIZE));
                }
            }
            proof {
                assert forall|out: Seq<HandleId>| #[trigger] ids_in_caps(receiver@, ncaps as int, out) implies out == v@ by {
                    lemma_caps_name(receiver@, res, v@, out);
                }
            }
            Ok((len, ncaps))
        },
        Err(e) => Err(e),
    }
}

/// Moves the message in `sender` to `receiver` where both threads belong to
/// one process and share `table`: as [`transfer_rendezvous`] does between
/// two processes, with the entries moving to new slots of the same table as
/// [`transfer_reserved_within`] does.
pub fn transfer_rendezvous_within<F: Fn(usize, usize) -> u64>(
    sender: &IpcBuffer,
    sender_badge: u64,
    receiver: &mut IpcBuffer,
    table: &mut HandleTable,
    tree: &RevTree,
    len: usize,
    ncaps: usize,
    encode: F,
) -> (r: Result<(usize, usize), IpcError>)
    requires
        forall|l: usize, n: usize| call_requires(encode, (l, n)),
        old(table).wf(),
        tree.well_formed(),
    ensures
        ({
            let l = capped(len as int, IPC_BUFFER_DATA_MAX as int);
            let n = capped(ncaps as int, IPC_BUFFER_MAX_CAPS as int);
            let caps = n > 0 && !has_zero_cap(sender@, n) && n <= old(table).spec_room();
            &&& final(receiver)@.subrange(DATA_OFFSET as int, DATA_OFFSET + l) == sender@.subrange(
                DATA_OFFSET as int,
                DATA_OFFSET + l,
            )
            &&& le_u64(final(receiver)@.subrange(BADGE_OFFSET as int, BADGE_OFFSET + BADGE_SIZE))
                == sender_badge
            &&& forall|j: int|
                0 <= j < final(receiver)@.len() && !in_written(j, l, n, caps) && !(r is Ok && j
                    < TAG_SIZE) ==> #[trigger] final(receiver)@[j] == old(receiver)@[j]
            &&& r is Ok ==> encodes(encode, l, n, tag_value(final(receiver)@))
            &&& n > 0 && has_zero_cap(sender@, n) ==> r == Err::<(usize, usize), IpcError>(
                IpcError::BadHandle,
            )
            &&& n > 0 && !has_zero_cap(sender@, n) && n > old(table).spec_room() ==> r == Err::<
                (usize, usize),
                IpcError,
            >(IpcError::OutOfHandles)
            &&& n == 0 ==> r == Ok::<(usize, usize), IpcError>((l as usize, 0usize)) && *final(table)
                == *old(table)
            &&& caps ==> forall|ids: Seq<HandleId>|
                #[trigger] ids_in_caps(sender@, n, ids) ==> {
                    &&& has_duplicate_id(ids) ==> r == Err::<(usize, usize), IpcError>(
                        IpcError::BadHandle,
                    )
                    &&& !has_duplicate_id(ids) ==> match first_failure(
                        old(table).slots(),
                        ids,
                        Rights::spec_transfer(),
                        tree@,
                    ) {
                        Some(e) => r == Err::<(usize, usize), IpcError>(e),
                        None => r == Ok::<(usize, usize), IpcError>((l as usize, n as usize)),
                    }
                    &&& r is Ok ==> forall|out: Seq<HandleId>|
                        #[trigger] ids_in_caps(final(receiver)@, n, out) ==> {
                            &&& forall|k: int|
                                0 <= k < n ==> resolve(final(table).slots(), #[trigger] out[k])
                                    == resolve(old(table).slots(), ids[k]) && resolve(
                                    old(table).slots(),
                                    ids[k],
                                ) is Some
                            &&& forall|k: int|
                                0 <= k < n ==> #[trigger] resolve(final(table).slots(), ids[k]) is None
                            &&& forall|id: HandleId|
                                !out.contains(id) && !ids.contains(id) ==> #[trigger] resolve(
                                    final(table).slots(),
                                    id,
                                ) == resolve(old(table).slots(), id)
                        }
                }
        }),
        final(table).wf(),
        keeps_dead(old(table).slots(), final(table).slots()),
        r is Err ==> same_entries(old(table).slots(), final(table).slots()),
{
    let len = deliver_body(sender, sender_badge, receiver, len);
    let ncaps = if ncaps < IPC_BUFFER_MAX_CAPS { ncaps } else { IPC_BUFFER_MAX_CAPS };
    if ncaps == 0 {
        let ghost b1 = receiver@;
        let tag = encode(len, 0);
        write_tag(receiver, tag);
        proof {
            let b2 = receiver@;
            assert(b2.subrange(DATA_OFFSET as int, DATA_OFFSET + len) =~= b1.subrange(DATA_OFFSET as int, DATA_OFFSET + len));
            assert(b2.subrange(BADGE_OFFSET as int, BADGE_OFFSET + BADGE_SIZE) =~= b1.subrange(BADGE_OFFSET as int, BADGE_OFFSET + BADGE_SIZE));
        }
        return Ok((len, 0));
    }
    let ids = match read_cap_ids(sender, ncaps) {
        Ok(ids) => ids,
        Err(e) => {
            return Err(e);
        },
    };
    let ghost s0 = table.slots();
    let reservations = match table.reserve_slots(ncaps) {
        Ok(v) => v,
        Err(e) => {
            return Err(e);
        },
    };
    let ghost s1 = table.slots();
    let ghost b1 = receiver@;
    write_cap_ids(receiver, reservations.as_slice());
    let ghost res = reservations@;
    proof {
        let b2 = receiver@;
        lemma_reservation_slots(*table, res);
        assert(b2.subrange(DATA_OFFSET as int, DATA_OFFSET + len) =~= b1.subrange(DATA_OFFSET as int, DATA_OFFSET + len));
        assert(b2.subrange(BADGE_OFFSET as int, BADGE_OFFSET + BADGE_SIZE) =~= b1.subrange(BADGE_OFFSET as int, BADGE_OFFSET + BADGE_SIZE));
        assert forall|other: Seq<HandleId>| #[trigger] ids_in_caps(sender@, ncaps as int, other) implies other == ids@ by {
            lemma_ids_in_caps_unique(sender@, ncaps as int, other, ids@);
        }
        assert forall|id: HandleId| #[trigger] get_result(s1, id, Rights::spec_transfer(), tree@) == get_result(s0, id, Rights::spec_transfer(), tree@) by {
            assert(resolve(s1, id) == resolve(s0, id));
        }
        lemma_first_failure_same(s0, s1, ids@, Rights::spec_transfer(), tree@);
    }
    match transfer_reserved_within(table, reservations, ids.as_slice(), tree) {
        Ok(v) => {
            let ghost b3 = receiver@;
            let tag = encode(len, ncaps);
            write_tag(receiver, tag);
            proof {
                let b4 = receiver@;
                assert(b4.subrange(DATA_OFFSET as int, DATA_OFFSET + len) =~= b3.subrange(DATA_OFFSET as int, DATA_OFFSET + len));
                assert(b4.subrange(BADGE_OFFSET as int, BADGE_OFFSET + BADGE_SIZE) =~= b3.subrange(BADGE_OFFSET as int, BADGE_OFFSET + BADGE_SIZE));
                assert forall|a: int| 0 <= a < ncaps implies #[trigger] cap_raw(b4, a) == cap_raw(b3, a) by {
                    assert(b4.subrange(CAPS_OFFSET + CAP_SIZE * a, CAPS_OFFSET + CAP_SIZE * a + CAP_SIZE) =~= b3.subrange(CAPS_OFFSET + CAP_SIZE * a, CAPS_OFFSET + CAP_SIZE * a + CAP_SIZE));
                }
            }
            proof {
                assert forall|out: Seq<HandleId>| #[trigger] ids_in_caps(receiver@, ncaps as int, out) implies out == v@ by {
                    lemma_caps_name(receiver@, res, v@, out);
                }
                assert forall|k: int| 0 <= k < ncaps implies resolve(s1, #[trigger] ids@[k]) == resolve(s0, ids@[k]) by {}
            }
            Ok((len, ncaps))
        },
        Err(e) => Err(e),
    }
}

} // verus!
