//! Byte-level marshaling between guest memory and in-process values.
//!
//! Guest memory is modelled as a byte vector indexed by a guest address. A
//! fixed-layout actor record occupies `ACTOR_RECORD_SIZE` bytes: each field
//! at its declared offset, multi-byte fields in host (little-endian) byte
//! order, with no padding injected by this layer. Strings are written
//! NUL-terminated into capped buffers; an array of strings is laid out at a
//! fixed stride.

use vstd::prelude::*;

use crate::types::{ActorData, ActorView};

verus! {

broadcast use vstd::array::group_array_axioms;

/// The size of one marshalled actor record, in bytes.
pub const ACTOR_RECORD_SIZE: usize = 170;

/// Byte `k` (from the low end) of a 32-bit value.
pub open spec fn le_byte4(x: u32, k: int) -> u8 {
    (x >> (8 * k)) as u8
}

/// Byte `k` (from the low end) of a signed 16-bit value.
pub open spec fn le_byte2(x: i16, k: int) -> u8 {
    ((x as u16) >> (8 * k)) as u8
}

/// The 32-bit value read back from four little-endian bytes.
pub open spec fn u32_of_le(b0: u8, b1: u8, b2: u8, b3: u8) -> u32 {
    (b0 as u32) | ((b1 as u32) << 8) | ((b2 as u32) << 16) | ((b3 as u32) << 24)
}

/// The signed 16-bit value read back from two little-endian bytes.
pub open spec fn i16_of_le(b0: u8, b1: u8) -> i16 {
    ((b0 as u16) | ((b1 as u16) << 8)) as i16
}

/// A snapshot with the declared field extents.
pub open spec fn actor_wf(a: ActorView) -> bool {
    &&& a.world_position.len() == 3
    &&& a.shape_rotation.len() == 3
    &&& a.upper_limb_rot.len() == 3
    &&& a.joint_table.len() == 72
}

/// Byte `i` of the marshalled record: world position at offset 0, shape
/// rotation at 12, upper limb rotation at 18, the flattened joint table at
/// 24, and the two equipment bytes at 168 and 169.
pub open spec fn actor_byte(a: ActorView, i: int) -> u8 {
    if i < 12 {
        le_byte4(a.world_position[i / 4], i % 4)
    } else if i < 18 {
        le_byte2(a.shape_rotation[(i - 12) / 2], (i - 12) % 2)
    } else if i < 24 {
        le_byte2(a.upper_limb_rot[(i - 18) / 2], (i - 18) % 2)
    } else if i < 168 {
        le_byte2(a.joint_table[(i - 24) / 2], (i - 24) % 2)
    } else if i == 168 {
        a.current_boots as u8
    } else {
        a.current_shield as u8
    }
}

/// The whole marshalled record.
pub open spec fn actor_bytes(a: ActorView) -> Seq<u8> {
    Seq::new(ACTOR_RECORD_SIZE as nat, |i: int| actor_byte(a, i))
}

/// The snapshot decoded from one marshalled record.
pub open spec fn actor_of_bytes(b: Seq<u8>) -> ActorView {
    ActorView {
        world_position: Seq::new(3, |j: int| u32_of_le(b[4 * j], b[4 * j + 1], b[4 * j + 2], b[4 * j + 3])),
        shape_rotation: Seq::new(3, |j: int| i16_of_le(b[12 + 2 * j], b[12 + 2 * j + 1])),
        upper_limb_rot: Seq::new(3, |j: int| i16_of_le(b[18 + 2 * j], b[18 + 2 * j + 1])),
        joint_table: Seq::new(72, |j: int| i16_of_le(b[24 + 2 * j], b[24 + 2 * j + 1])),
        current_boots: b[168] as i8,
        current_shield: b[169] as i8,
    }
}

/// Four little-endian bytes of a 32-bit value recompose to it.
proof fn lemma_u32_round(x: u32)
    ensures
        u32_of_le(le_byte4(x, 0), le_byte4(x, 1), le_byte4(x, 2), le_byte4(x, 3)) == x,
{
    assert(((((x >> 0) as u8) as u32) | ((((x >> 8) as u8) as u32) << 8) | ((((x >> 16) as u8)
        as u32) << 16) | ((((x >> 24) as u8) as u32) << 24)) == x) by (bit_vector);
}

/// Two little-endian bytes of a signed 16-bit value recompose to it.
proof fn lemma_i16_round(x: i16)
    ensures
        i16_of_le(le_byte2(x, 0), le_byte2(x, 1)) == x,
{
    assert(((((x as u16) >> 0) as u8) as u16 | ((((x as u16) >> 8) as u8) as u16) << 8) as i16
        == x) by (bit_vector);
}

/// A signed byte survives the cast through its unsigned image.
proof fn lemma_i8_round(x: i8)
    ensures
        (x as u8) as i8 == x,
{
    assert((x as u8) as i8 == x) by (bit_vector);
}

/// Decoding a marshalled record yields the snapshot it came from, byte for
/// byte.
pub proof fn lemma_actor_round_trip(a: ActorView)
    requires
        actor_wf(a),
    ensures
        actor_of_bytes(actor_bytes(a)) == a,
{
    let b = actor_bytes(a);
    let d = actor_of_bytes(b);
    assert forall|j: int| 0 <= j < 3 implies d.world_position[j] == a.world_position[j] by {
        assert(b[4 * j] == le_byte4(a.world_position[j], 0));
        assert(b[4 * j + 1] == le_byte4(a.world_position[j], 1));
        assert(b[4 * j + 2] == le_byte4(a.world_position[j], 2));
        assert(b[4 * j + 3] == le_byte4(a.world_position[j], 3));
        lemma_u32_round(a.world_position[j]);
    }
    assert forall|j: int| 0 <= j < 3 implies d.shape_rotation[j] == a.shape_rotation[j] by {
        assert(b[12 + 2 * j] == le_byte2(a.shape_rotation[j], 0));
        assert(b[12 + 2 * j + 1] == le_byte2(a.shape_rotation[j], 1));
        lemma_i16_round(a.shape_rotation[j]);
    }
    assert forall|j: int| 0 <= j < 3 implies d.upper_limb_rot[j] == a.upper_limb_rot[j] by {
        assert(b[18 + 2 * j] == le_byte2(a.upper_limb_rot[j], 0));
        assert(b[18 + 2 * j + 1] == le_byte2(a.upper_limb_rot[j], 1));
        lemma_i16_round(a.upper_limb_rot[j]);
    }
    assert forall|j: int| 0 <= j < 72 implies d.joint_table[j] == a.joint_table[j] by {
        assert(b[24 + 2 * j] == le_byte2(a.joint_table[j], 0));
        assert(b[24 + 2 * j + 1] == le_byte2(a.joint_table[j], 1));
        lemma_i16_round(a.joint_table[j]);
    }
    lemma_i8_round(a.current_boots);
    lemma_i8_round(a.current_shield);
    assert(d.world_position =~= a.world_position);
    assert(d.shape_rotation =~= a.shape_rotation);
    assert(d.upper_limb_rot =~= a.upper_limb_rot);
    assert(d.joint_table =~= a.joint_table);
}

/// Byte `i` of the record that `a` marshals to.
fn actor_byte_exec(a: &ActorData, i: usize) -> (b: u8)
    requires
        i < ACTOR_RECORD_SIZE,
    ensures
        b == actor_byte(a@, i as int),
{
    if i < 12 {
        assert(i / 4 < 3);
        let x = a.world_position[i / 4];
        let k = (i % 4) as u32;
        #[verifier::truncate]
        ((x >> (8 * k)) as u8)
    } else if i < 18 {
        assert((i - 12) / 2 < 3);
        let x = a.shape_rotation[(i - 12) / 2];
        let k = ((i - 12) % 2) as u32;
        #[verifier::truncate]
        (((#[verifier::truncate] (x as u16)) >> (8 * k)) as u8)
    } else if i < 24 {
        assert((i - 18) / 2 < 3);
        let x = a.upper_limb_rot[(i - 18) / 2];
        let k = ((i - 18) % 2) as u32;
        #[verifier::truncate]
        (((#[verifier::truncate] (x as u16)) >> (8 * k)) as u8)
    } else if i < 168 {
        assert((i - 24) / 2 < 72);
        let x = a.joint_table[(i - 24) / 2];
        let k = ((i - 24) % 2) as u32;
        #[verifier::truncate]
        (((#[verifier::truncate] (x as u16)) >> (8 * k)) as u8)
    } else if i == 168 {
        #[verifier::truncate]
        (a.current_boots as u8)
    } else {
        #[verifier::truncate]
        (a.current_shield as u8)
    }
}

/// Marshals one actor record into guest memory at `addr`; bytes outside the
/// record are untouched.
pub fn write_record(a: &ActorData, mem: &mut Vec<u8>, addr: usize)
    requires
        addr + ACTOR_RECORD_SIZE <= old(mem)@.len(),
    ensures
        final(mem)@.len() == old(mem)@.len(),
        final(mem)@.subrange(addr as int, addr + ACTOR_RECORD_SIZE) == actor_bytes(a@),
        forall|j: int|
            0 <= j < old(mem)@.len() && !(addr <= j < addr + ACTOR_RECORD_SIZE)
                ==> final(mem)@[j] == old(mem)@[j],
{
    let total = mem.len();
    let mut i: usize = 0;
    while i < ACTOR_RECORD_SIZE
        invariant
            i <= ACTOR_RECORD_SIZE,
            addr + ACTOR_RECORD_SIZE <= total,
            total == mem@.len(),
            mem@.len() == old(mem)@.len(),
            forall|j: int| 0 <= j < i ==> mem@[addr + j] == actor_byte(a@, j),
            forall|j: int|
                0 <= j < mem@.len() && !(addr <= j < addr + i) ==> mem@[j] == old(mem)@[j],
        decreases ACTOR_RECORD_SIZE - i,
    {
        let b = actor_byte_exec(a, i);
        mem.set(addr + i, b);
        i = i + 1;
    }
    proof {
        assert(final(mem)@.subrange(addr as int, addr + ACTOR_RECORD_SIZE) =~= actor_bytes(a@));
    }
}

/// Unmarshals one actor record from guest memory at `addr`.
pub fn read_record(mem: &Vec<u8>, addr: usize) -> (r: ActorData)
    requires
        addr + ACTOR_RECORD_SIZE <= mem@.len(),
    ensures
        r@ == actor_of_bytes(mem@.subrange(addr as int, addr + ACTOR_RECORD_SIZE)),
        actor_wf(r@),
{
    let ghost b = mem@.subrange(addr as int, addr + ACTOR_RECORD_SIZE);
    let total = mem.len();
    let mut world_position = [0u32; 3];
    let mut shape_rotation = [0i16; 3];
    let mut upper_limb_rot = [0i16; 3];
    let mut joint_table = [0i16; 72];
    let mut j: usize = 0;
    while j < 3
        invariant
            j <= 3,
            addr + ACTOR_RECORD_SIZE <= total,
            total == mem@.len(),
            b == mem@.subrange(addr as int, addr + ACTOR_RECORD_SIZE),
            forall|l: int|
                0 <= l < j ==> world_position@[l] == u32_of_le(
                    b[4 * l],
                    b[4 * l + 1],
                    b[4 * l + 2],
                    b[4 * l + 3],
                ),
        decreases 3 - j,
    {
        let b0 = mem[addr + 4 * j];
        let b1 = mem[addr + 4 * j + 1];
        let b2 = mem[addr + 4 * j + 2];
        let b3 = mem[addr + 4 * j + 3];
        let v = (b0 as u32) | ((b1 as u32) << 8) | ((b2 as u32) << 16) | ((b3 as u32) << 24);
        world_position[j] = v;
        j = j + 1;
    }
    let mut j: usize = 0;
    while j < 3
        invariant
            j <= 3,
            addr + ACTOR_RECORD_SIZE <= total,
            total == mem@.len(),
            b == mem@.subrange(addr as int, addr + ACTOR_RECORD_SIZE),
            forall|l: int|
                0 <= l < j ==> shape_rotation@[l] == i16_of_le(b[12 + 2 * l], b[12 + 2 * l + 1]),
        decreases 3 - j,
    {
        let b0 = mem[addr + 12 + 2 * j];
        let b1 = mem[addr + 12 + 2 * j + 1];
        let v = #[verifier::truncate] (((b0 as u16) | ((b1 as u16) << 8)) as i16);
        shape_rotation[j] = v;
        j = j + 1;
    }
    let mut j: usize = 0;
    while j < 3
        invariant
            j <= 3,
            addr + ACTOR_RECORD_SIZE <= total,
            total == mem@.len(),
            b == mem@.subrange(addr as int, addr + ACTOR_RECORD_SIZE),
            forall|l: int|
                0 <= l < j ==> upper_limb_rot@[l] == i16_of_le(b[18 + 2 * l], b[18 + 2 * l + 1]),
        decreases 3 - j,
    {
        let b0 = mem[addr + 18 + 2 * j];
        let b1 = mem[addr + 18 + 2 * j + 1];
        let v = #[verifier::truncate] (((b0 as u16) | ((b1 as u16) << 8)) as i16);
        upper_limb_rot[j] = v;
        j = j + 1;
    }
    let mut j: usize = 0;
    while j < 72
        invariant
            j <= 72,
            addr + ACTOR_RECORD_SIZE <= total,
            total == mem@.len(),
            b == mem@.subrange(addr as int, addr + ACTOR_RECORD_SIZE),
            forall|l: int|
                0 <= l < j ==> joint_table@[l] == i16_of_le(b[24 + 2 * l], b[24 + 2 * l + 1]),
        decreases 72 - j,
    {
        let b0 = mem[addr + 24 + 2 * j];
        let b1 = mem[addr + 24 + 2 * j + 1];
        let v = #[verifier::truncate] (((b0 as u16) | ((b1 as u16) << 8)) as i16);
        joint_table[j] = v;
        j = j + 1;
    }
    let current_boots = #[verifier::truncate] (mem[addr + 168] as i8);
    let current_shield = #[verifier::truncate] (mem[addr + 169] as i8);
    let r = ActorData {
        world_position,
        shape_rotation,
        upper_limb_rot,
        joint_table,
        current_boots,
        current_shield,
    };
    proof {
        assert(r@.world_position =~= actor_of_bytes(b).world_position);
        assert(r@.shape_rotation =~= actor_of_bytes(b).shape_rotation);
        assert(r@.upper_limb_rot =~= actor_of_bytes(b).upper_limb_rot);
        assert(r@.joint_table =~= actor_of_bytes(b).joint_table);
    }
    r
}

/// Reads the bytes of a NUL-terminated string at `addr`: everything up to
/// but not including the first NUL, capped at `cap` bytes.
pub fn read_cstring(mem: &Vec<u8>, addr: usize, cap: usize) -> (r: Vec<u8>)
    requires
        addr + cap <= mem@.len(),
    ensures
        r@.len() <= cap,
        forall|j: int| 0 <= j < r@.len() ==> r@[j] == mem@[addr + j] && r@[j] != 0,
        r@.len() < cap ==> mem@[addr + r@.len()] == 0,
{
    let total = mem.len();
    let mut out: Vec<u8> = Vec::new();
    let mut i: usize = 0;
    while i < cap
        invariant
            i <= cap,
            addr + cap <= total,
            total == mem@.len(),
            out@.len() == i,
            forall|j: int| 0 <= j < i ==> out@[j] == mem@[addr + j] && out@[j] != 0,
        decreases cap - i,
    {
        let byte = mem[addr + i];
        if byte == 0 {
            return out;
        }
        out.push(byte);
        i = i + 1;
    }
    out
}

/// Copies `len` raw bytes out of guest memory at `addr`.
pub fn read_bytes(mem: &Vec<u8>, addr: usize, len: usize) -> (r: Vec<u8>)
    requires
        addr + len <= mem@.len(),
    ensures
        r@ == mem@.subrange(addr as int, addr + len),
{
    let total = mem.len();
    let mut out: Vec<u8> = Vec::new();
    let mut i: usize = 0;
    while i < len
        invariant
            i <= len,
            addr + len <= total,
            total == mem@.len(),
            out@.len() == i,
            forall|j: int| 0 <= j < i ==> out@[j] == mem@[addr + j],
        decreases len - i,
    {
        out.push(mem[addr + i]);
        i = i + 1;
    }
    proof {
        assert(out@ =~= mem@.subrange(addr as int, addr + len));
    }
    out
}

/// How many of the string's bytes a capped NUL-terminated write carries:
/// all of them if they fit before the terminator, else what fits.
pub open spec fn written_len(s: Seq<u8>, max_bytes: int) -> int {
    if s.len() <= max_bytes - 1 {
        s.len() as int
    } else {
        max_bytes - 1
    }
}

/// What a NUL-terminated write into the slot at `a` leaves behind: the
/// carried bytes, the terminator, and the slot's tail as it was.
pub open spec fn string_slot_written(
    m: Seq<u8>,
    m0: Seq<u8>,
    a: int,
    s: Seq<u8>,
    max_bytes: int,
) -> bool {
    max_bytes > 0 ==> {
        let w = written_len(s, max_bytes);
        &&& m.subrange(a, a + w) == s.take(w)
        &&& m[a + w] == 0
        &&& forall|j: int| a + w + 1 <= j < a + max_bytes ==> m[j] == m0[j]
    }
}

/// Writes up to `max_bytes - 1` bytes of `s` at `addr`, then one NUL;
/// returns how many bytes of `s` were written. A zero-byte budget writes
/// nothing and succeeds with zero bytes written.
pub fn write_string(mem: &mut Vec<u8>, addr: usize, s: &[u8], max_bytes: usize) -> (w: usize)
    requires
        addr + max_bytes <= old(mem)@.len(),
    ensures
        final(mem)@.len() == old(mem)@.len(),
        max_bytes == 0 ==> w == 0 && final(mem)@ == old(mem)@,
        max_bytes > 0 ==> w == written_len(s@, max_bytes as int),
        string_slot_written(final(mem)@, old(mem)@, addr as int, s@, max_bytes as int),
        forall|j: int|
            0 <= j < old(mem)@.len() && !(addr <= j < addr + max_bytes)
                ==> final(mem)@[j] == old(mem)@[j],
{
    if max_bytes == 0 {
        return 0;
    }
    let total = mem.len();
    let w = if s.len() <= max_bytes - 1 {
        s.len()
    } else {
        max_bytes - 1
    };
    let mut i: usize = 0;
    while i < w
        invariant
            i <= w,
            w <= s@.len(),
            addr + max_bytes <= total,
            total == mem@.len(),
            w < max_bytes,
            mem@.len() == old(mem)@.len(),
            forall|j: int| 0 <= j < i ==> mem@[addr + j] == s@[j],
            forall|j: int|
                0 <= j < mem@.len() && !(addr <= j < addr + i) ==> mem@[j] == old(mem)@[j],
        decreases w - i,
    {
        let byte = s[i];
        mem.set(addr + i, byte);
        i = i + 1;
    }
    mem.set(addr + w, 0);
    proof {
        assert(final(mem)@.subrange(addr as int, addr + w) =~= s@.take(w as int));
    }
    w
}

/// Writes up to `max_count` strings, NUL-terminated, laid out contiguously
/// at `stride` bytes each; returns how many strings were written. Excess
/// entries are dropped; a zero count writes nothing.
pub fn write_string_array(
    mem: &mut Vec<u8>,
    addr: usize,
    xs: &Vec<Vec<u8>>,
    stride: usize,
    max_count: usize,
) -> (count: usize)
    requires
        addr + stride * max_count <= old(mem)@.len(),
    ensures
        count == if xs@.len() <= max_count {
            xs@.len() as int
        } else {
            max_count as int
        },
        final(mem)@.len() == old(mem)@.len(),
        forall|i: int|
            0 <= i < count ==> string_slot_written(
                final(mem)@,
                old(mem)@,
                addr + stride * i,
                xs.deep_view()[i],
                stride as int,
            ),
        forall|j: int|
            0 <= j < old(mem)@.len() && !(addr <= j < addr + stride * count)
                ==> final(mem)@[j] == old(mem)@[j],
{
    let total = mem.len();
    let count = if xs.len() <= max_count {
        xs.len()
    } else {
        max_count
    };
    let mut i: usize = 0;
    while i < count
        invariant
            i <= count,
            count <= max_count,
            count <= xs@.len(),
            addr + stride * max_count <= total,
            total == mem@.len(),
            mem@.len() == old(mem)@.len(),
            forall|l: int|
                0 <= l < i ==> string_slot_written(
                    mem@,
                    old(mem)@,
                    addr + stride * l,
                    xs.deep_view()[l],
                    stride as int,
                ),
            forall|j: int|
                0 <= j < mem@.len() && !(addr <= j < addr + stride * i)
                    ==> mem@[j] == old(mem)@[j],
        decreases count - i,
    {
        proof {
            assert(stride * i + stride == stride * (i + 1)) by (nonlinear_arith);
            assert(stride * (i + 1) <= stride * max_count) by (nonlinear_arith)
                requires
                    i + 1 <= max_count,
                    stride >= 0,
            ;
            assert(stride * i >= 0) by (nonlinear_arith)
                requires
                    stride >= 0,
                    i >= 0,
            ;
        }
        let base = addr + stride * i;
        let ghost pre = mem@;
        write_string(mem, base, xs[i].as_slice(), stride);
        proof {
            assert(xs[i as int]@ == xs.deep_view()[i as int]) by {
                assert(xs.deep_view()[i as int] == xs@[i as int].deep_view());
            }
            assert forall|l: int|
                0 <= l < i implies string_slot_written(
                mem@,
                old(mem)@,
                addr + stride * l,
                xs.deep_view()[l],
                stride as int,
            ) by {
                assert(stride * l + stride <= stride * i) by (nonlinear_arith)
                    requires
                        l + 1 <= i,
                        stride >= 0,
                ;
                assert(stride * l >= 0) by (nonlinear_arith)
                    requires
                        stride >= 0,
                        l >= 0,
                ;
                assert(string_slot_written(
                    pre,
                    old(mem)@,
                    addr + stride * l,
                    xs.deep_view()[l],
                    stride as int,
                ));
                if stride > 0 {
                    let w = written_len(xs.deep_view()[l], stride as int);
                    assert(mem@.subrange(addr + stride * l, addr + stride * l + w) =~= pre
                        .subrange(addr + stride * l, addr + stride * l + w));
                }
            }
        }
        i = i + 1;
    }
    count
}

} // verus!
