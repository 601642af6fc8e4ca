//! The computing half of the host-facing entry surface: each function takes
//! the session core and a view of guest memory, moves data between the two,
//! and reports success the way the host expects. The panic-isolation shim
//! and the argument plumbing around these sit outside the library.

use vstd::prelude::*;
use vstd::string::StringSliceAdditionalSpecFns;
use vstd::utf8::encode_utf8;

use crate::assoc::assoc_lookup;
use crate::client::{ClientView, NetworkSyncModule};
use crate::marshal::{
    actor_bytes, string_slot_written, write_record, write_string, write_string_array,
    ACTOR_RECORD_SIZE,
};

verus! {

/// The byte budget for a message tag written back to the guest: up to 63
/// bytes of the tag and one NUL.
pub const MESSAGE_TAG_CAP: usize = 64;

/// Writes the assigned client id, NUL-terminated, into guest memory, if one
/// has been assigned; an empty id reports failure and writes nothing.
pub fn get_client_id(
    m: &NetworkSyncModule,
    mem: &mut Vec<u8>,
    addr: usize,
    max_len: usize,
) -> (r: bool)
    requires
        addr + max_len <= old(mem)@.len(),
    ensures
        r == (m@.client_id.len() != 0),
        final(mem)@.len() == old(mem)@.len(),
        r ==> string_slot_written(
            final(mem)@,
            old(mem)@,
            addr as int,
            encode_utf8(m@.client_id),
            max_len as int,
        ),
        r ==> forall|j: int|
            0 <= j < old(mem)@.len() && !(addr <= j < addr + max_len)
                ==> final(mem)@[j] == old(mem)@[j],
        !r ==> final(mem)@ == old(mem)@,
{
    if m.client_id.as_str().is_empty() {
        return false;
    }
    write_string(mem, addr, m.client_id.as_str().as_bytes(), max_len);
    true
}

/// Writes the ids of the peers with a stored snapshot into guest memory,
/// each NUL-terminated in its own `stride`-byte slot; returns how many were
/// written. Excess ids are dropped; a zero count writes nothing.
pub fn get_remote_actor_ids(
    m: &NetworkSyncModule,
    mem: &mut Vec<u8>,
    addr: usize,
    stride: usize,
    max_count: usize,
) -> (count: usize)
    requires
        addr + stride * max_count <= old(mem)@.len(),
    ensures
        count == if m@.actors.len() <= max_count {
            m@.actors.len() as int
        } else {
            max_count as int
        },
        final(mem)@.len() == old(mem)@.len(),
        forall|i: int|
            0 <= i < count ==> string_slot_written(
                final(mem)@,
                old(mem)@,
                addr + stride * i,
                encode_utf8(m@.actors[i].0),
                stride as int,
            ),
        forall|j: int|
            0 <= j < old(mem)@.len() && !(addr <= j < addr + stride * count) ==> final(mem)@[j]
                == old(mem)@[j],
{
    let ids = m.remote_actor_ids();
    let n = ids.len();
    proof {
        assert forall|j: int| 0 <= j < ids.deep_view().len() implies ids.deep_view()[j]
            == m@.actors[j].0 by {
            assert(ids.deep_view()[j] == Seq::new(m@.actors.len(), |l: int| m@.actors[l].0)[j]);
        }
    }
    let mut ids_bytes: Vec<Vec<u8>> = Vec::new();
    let mut i: usize = 0;
    while i < n
        invariant
            i <= n,
            n == ids@.len(),
            ids.deep_view().len() == m@.actors.len(),
            forall|j: int| 0 <= j < n ==> ids.deep_view()[j] == m@.actors[j].0,
            ids_bytes@.len() == i,
            forall|j: int|
                0 <= j < i ==> ids_bytes.deep_view()[j] == encode_utf8(m@.actors[j].0),
        decreases n - i,
    {
        let ghost prev_shallow = ids_bytes@;
        let ghost prev_deep = ids_bytes.deep_view();
        let id_str = ids[i].as_str();
        let bytes = vstd::slice::slice_to_vec(id_str.as_bytes());
        proof {
            assert(id_str@ == ids@[i as int]@);
            assert(bytes@ == id_str.spec_bytes());
            assert(ids.deep_view()[i as int] == ids@[i as int]@);
            assert(bytes@ == encode_utf8(m@.actors[i as int].0));
        }
        ids_bytes.push(bytes);
        proof {
            assert forall|j: int| 0 <= j < i + 1 implies ids_bytes.deep_view()[j] == encode_utf8(
                m@.actors[j].0,
            ) by {
                assert(ids_bytes.deep_view()[j] == ids_bytes@[j].deep_view());
                if j < i {
                    assert(ids_bytes@[j] == prev_shallow[j]);
                    assert(prev_deep[j] == prev_shallow[j].deep_view());
                } else {
                    assert(ids_bytes@[j] == bytes);
                    assert(bytes.deep_view() =~= bytes@);
                }
            }
        }
        i = i + 1;
    }
    let count = write_string_array(mem, addr, &ids_bytes, stride, max_count);
    proof {
        assert forall|l: int| 0 <= l < count implies string_slot_written(
            final(mem)@,
            old(mem)@,
            addr + stride * l,
            encode_utf8(m@.actors[l].0),
            stride as int,
        ) by {
            assert(string_slot_written(
                final(mem)@,
                old(mem)@,
                addr + stride * l,
                ids_bytes.deep_view()[l],
                stride as int,
            ));
            assert(ids_bytes.deep_view()[l] == encode_utf8(m@.actors[l].0));
        }
    }
    count
}

/// Marshals the stored snapshot of one peer into guest memory; reports
/// failure, and writes nothing, when no snapshot is stored under that id.
pub fn get_remote_actor_data(
    m: &NetworkSyncModule,
    id: &str,
    mem: &mut Vec<u8>,
    addr: usize,
) -> (r: bool)
    requires
        addr + ACTOR_RECORD_SIZE <= old(mem)@.len(),
    ensures
        r == (assoc_lookup(m@.actors, id@) is Some),
        final(mem)@.len() == old(mem)@.len(),
        r ==> (assoc_lookup(m@.actors, id@) matches Some(a) && final(mem)@.subrange(
            addr as int,
            addr + ACTOR_RECORD_SIZE,
        ) == actor_bytes(a.data)),
        r ==> forall|j: int|
            0 <= j < old(mem)@.len() && !(addr <= j < addr + ACTOR_RECORD_SIZE)
                ==> final(mem)@[j] == old(mem)@[j],
        !r ==> final(mem)@ == old(mem)@,
{
    match m.get_remote_actor(id) {
        Some(d) => {
            write_record(&d, mem, addr);
            true
        },
        None => false,
    }
}

/// Pops the queue head into guest memory when the guest buffer holds the
/// whole payload: the payload lands at `buf_addr` with the buffer's tail
/// zeroed, and the message tag lands NUL-terminated at `id_addr`, capped at
/// `MESSAGE_TAG_CAP` bytes. When the queue is empty or the buffer is short,
/// nothing is consumed and a lone NUL marks the tag slot.
pub fn get_message_into(
    m: &mut NetworkSyncModule,
    mem: &mut Vec<u8>,
    buf_addr: usize,
    buf_size: usize,
    id_addr: usize,
) -> (r: bool)
    requires
        buf_addr + buf_size <= old(mem)@.len(),
        id_addr + MESSAGE_TAG_CAP <= old(mem)@.len(),
        buf_addr + buf_size <= id_addr || id_addr + MESSAGE_TAG_CAP <= buf_addr,
    ensures
        final(mem)@.len() == old(mem)@.len(),
        r == (old(m)@.queue.len() > 0 && old(m)@.queue[0].1.len() <= buf_size),
        r ==> {
            let head = old(m)@.queue[0];
            &&& final(m)@ == ClientView { queue: old(m)@.queue.drop_first(), ..old(m)@ }
            &&& final(mem)@.subrange(buf_addr as int, buf_addr + head.1.len()) == head.1
            &&& forall|j: int|
                buf_addr + head.1.len() <= j < buf_addr + buf_size ==> final(mem)@[j] == 0
            &&& string_slot_written(
                final(mem)@,
                old(mem)@,
                id_addr as int,
                encode_utf8(head.0),
                if encode_utf8(head.0).len() <= MESSAGE_TAG_CAP - 1 {
                    encode_utf8(head.0).len() as int + 1
                } else {
                    MESSAGE_TAG_CAP as int
                },
            )
        },
        !r ==> {
            &&& final(m)@ == old(m)@
            &&& final(mem)@[id_addr as int] == 0
            &&& forall|j: int|
                0 <= j < old(mem)@.len() && j != id_addr ==> final(mem)@[j] == old(mem)@[j]
        },
{
    let mut buffer: Vec<u8> = Vec::new();
    let mut k: usize = 0;
    while k < buf_size
        invariant
            k <= buf_size,
            buffer@.len() == k,
            forall|j: int| 0 <= j < k ==> buffer@[j] == 0,
        decreases buf_size - k,
    {
        buffer.push(0);
        k = k + 1;
    }
    let ghost buffer0 = buffer@;
    let total = mem.len();
    match m.get_message(&mut buffer) {
        Some(id) => {
            let mut i: usize = 0;
            while i < buf_size
                invariant
                    i <= buf_size,
                    buffer@.len() == buf_size,
                    buf_addr + buf_size <= total,
                    total == mem@.len(),
                    mem@.len() == old(mem)@.len(),
                    forall|j: int| 0 <= j < i ==> mem@[buf_addr + j] == buffer@[j],
                    forall|j: int|
                        0 <= j < mem@.len() && !(buf_addr <= j < buf_addr + i)
                            ==> mem@[j] == old(mem)@[j],
                decreases buf_size - i,
            {
                let byte = buffer[i];
                mem.set(buf_addr + i, byte);
                i = i + 1;
            }
            let ghost head = old(m)@.queue[0];
            let ghost hlen = head.1.len() as int;
            proof {
                // Past the payload, the scratch buffer kept its zero fill.
                assert forall|j: int| hlen <= j < buf_size implies buffer@[j] == 0 by {
                    assert(buffer@.skip(hlen)[j - hlen] == buffer@[j]);
                    assert(buffer0.skip(hlen)[j - hlen] == buffer0[j]);
                }
                // And its head holds the payload.
                assert forall|j: int| 0 <= j < hlen implies buffer@[j] == head.1[j] by {
                    assert(buffer@.take(hlen)[j] == buffer@[j]);
                }
                assert forall|j: int|
                    buf_addr + hlen <= j < buf_addr + buf_size implies mem@[j] == 0 by {
                    let jj = j - buf_addr;
                    assert(mem@[buf_addr + jj] == buffer@[jj]);
                }
                assert forall|j: int|
                    buf_addr <= j < buf_addr + hlen implies mem@[j] == head.1[j - buf_addr] by {
                    let jj = j - buf_addr;
                    assert(mem@[buf_addr + jj] == buffer@[jj]);
                }
            }
            let ghost before_tag = mem@;
            let id_bytes = id.as_str().as_bytes();
            proof {
                assert(id_bytes@ == encode_utf8(head.0));
            }
            let budget = if id_bytes.len() <= MESSAGE_TAG_CAP - 1 {
                id_bytes.len() + 1
            } else {
                MESSAGE_TAG_CAP
            };
            write_string(mem, id_addr, id_bytes, budget);
            proof {
                // The tag write left the payload region alone, and the
                // payload copy had left the tag slot alone.
                assert(final(mem)@.subrange(buf_addr as int, buf_addr + hlen) =~= head.1);
                assert forall|j: int|
                    buf_addr + hlen <= j < buf_addr + buf_size implies final(mem)@[j] == 0 by {
                    assert(final(mem)@[j] == before_tag[j]);
                }
                assert(string_slot_written(
                    final(mem)@,
                    old(mem)@,
                    id_addr as int,
                    encode_utf8(head.0),
                    budget as int,
                )) by {
                    assert(string_slot_written(
                        final(mem)@,
                        before_tag,
                        id_addr as int,
                        id_bytes@,
                        budget as int,
                    ));
                    assert(forall|j: int|
                        id_addr <= j < id_addr + MESSAGE_TAG_CAP ==> before_tag[j] == old(
                            mem,
                        )@[j]);
                }
            }
            true
        },
        None => {
            mem.set(id_addr, 0);
            false
        },
    }
}

} // verus!
