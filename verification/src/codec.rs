//! Canonical JSON text for the outbound wire frames.
//!
//! Every frame either half of the system emits is produced here, and each
//! encoder's contract gives the frame text exactly, character for character:
//! fields in a fixed order, no whitespace, strings escaped as JSON asks
//! (quote, backslash, and control characters), numbers in decimal. The
//! tolerant parsing of inbound frames is the JSON library's job and stays
//! outside the library.

use vstd::prelude::*;

use vstd::string::StringExecFns;

use crate::types::{ActorData, ActorView};

verus! {

/// The decimal digits of `n`, most significant first.
pub open spec fn dec_digits(n: nat) -> Seq<char>
    decreases n,
{
    if n < 10 {
        seq![digit_char(n as int)]
    } else {
        dec_digits(n / 10) + seq![digit_char((n % 10) as int)]
    }
}

/// The digit character for a value below ten.
pub open spec fn digit_char(d: int) -> char {
    ((48 + d) as u8) as char
}

/// The decimal text of a possibly negative value.
pub open spec fn dec_int(n: int) -> Seq<char> {
    if n < 0 {
        seq!['-'] + dec_digits((-n) as nat)
    } else {
        dec_digits(n as nat)
    }
}

/// The hex digit character for a value below sixteen.
pub open spec fn hex_digit(d: int) -> char {
    if d < 10 {
        ((48 + d) as u8) as char
    } else {
        ((87 + d) as u8) as char
    }
}

/// How one character appears inside a JSON string literal.
pub open spec fn esc_char(c: char) -> Seq<char> {
    if c == '"' {
        seq!['\\', '"']
    } else if c == '\\' {
        seq!['\\', '\\']
    } else if (c as u32) < 32 {
        seq!['\\', 'u', '0', '0', hex_digit(((c as u32) / 16) as int), hex_digit(
            ((c as u32) % 16) as int,
        )]
    } else {
        seq![c]
    }
}

/// The escaped image of the first `i` characters.
pub open spec fn esc_upto(s: Seq<char>, i: int) -> Seq<char>
    decreases i,
{
    if i <= 0 {
        Seq::empty()
    } else {
        esc_upto(s, i - 1) + esc_char(s[i - 1])
    }
}

/// A JSON string literal: quoted and escaped.
pub open spec fn jstr(s: Seq<char>) -> Seq<char> {
    seq!['"'] + esc_upto(s, s.len() as int) + seq!['"']
}

/// A comma-separated decimal list of the first `i` values.
pub open spec fn dec_list_i16_upto(s: Seq<i16>, i: int) -> Seq<char>
    decreases i,
{
    if i <= 0 {
        Seq::empty()
    } else if i == 1 {
        dec_int(s[0] as int)
    } else {
        dec_list_i16_upto(s, i - 1) + seq![','] + dec_int(s[i - 1] as int)
    }
}

/// A comma-separated decimal list of the first `i` values.
pub open spec fn dec_list_u32_upto(s: Seq<u32>, i: int) -> Seq<char>
    decreases i,
{
    if i <= 0 {
        Seq::empty()
    } else if i == 1 {
        dec_digits(s[0] as nat)
    } else {
        dec_list_u32_upto(s, i - 1) + seq![','] + dec_digits(s[i - 1] as nat)
    }
}

/// A comma-separated decimal list of the first `i` bytes.
pub open spec fn dec_list_u8_upto(s: Seq<u8>, i: int) -> Seq<char>
    decreases i,
{
    if i <= 0 {
        Seq::empty()
    } else if i == 1 {
        dec_digits(s[0] as nat)
    } else {
        dec_list_u8_upto(s, i - 1) + seq![','] + dec_digits(s[i - 1] as nat)
    }
}

/// A comma-separated list of JSON strings of the first `i` entries.
pub open spec fn jstr_list_upto(s: Seq<Seq<char>>, i: int) -> Seq<char>
    decreases i,
{
    if i <= 0 {
        Seq::empty()
    } else if i == 1 {
        jstr(s[0])
    } else {
        jstr_list_upto(s, i - 1) + seq![','] + jstr(s[i - 1])
    }
}

/// The actor snapshot as a JSON object, fields in declaration order, the
/// world position as its IEEE-754 bit patterns.
pub open spec fn actor_json(a: ActorView) -> Seq<char> {
    "{\"world_position\":["@ + dec_list_u32_upto(a.world_position, a.world_position.len() as int)
        + "],\"shape_rotation\":["@ + dec_list_i16_upto(
        a.shape_rotation,
        a.shape_rotation.len() as int,
    ) + "],\"upper_limb_rot\":["@ + dec_list_i16_upto(
        a.upper_limb_rot,
        a.upper_limb_rot.len() as int,
    ) + "],\"joint_table\":["@ + dec_list_i16_upto(a.joint_table, a.joint_table.len() as int)
        + "],\"current_boots\":"@ + dec_int(a.current_boots as int) + ",\"current_shield\":"@
        + dec_int(a.current_shield as int) + "}"@
}

/// The join command as the client puts it on the wire.
pub open spec fn join_session_frame(session_id: Seq<char>) -> Seq<char> {
    "{\"command\":\"join_session\",\"session_id\":"@ + jstr(session_id) + "}"@
}

/// The leave command as the client puts it on the wire.
pub open spec fn leave_session_frame() -> Seq<char> {
    "{\"command\":\"leave_session\"}"@
}

/// The snapshot relay command as the client puts it on the wire.
pub open spec fn actor_sync_frame(sender_id: Seq<char>, a: ActorView) -> Seq<char> {
    "{\"command\":\"actor_sync\",\"sender_id\":"@ + jstr(sender_id) + ",\"data\":"@ + actor_json(a)
        + "}"@
}

/// The opaque message command as the client puts it on the wire.
pub open spec fn registered_message_frame(
    sender_id: Seq<char>,
    message_id: Seq<char>,
    data: Seq<u8>,
) -> Seq<char> {
    "{\"command\":\"registered_message\",\"sender_id\":"@ + jstr(sender_id) + ",\"message_id\":"@
        + jstr(message_id) + ",\"data\":["@ + dec_list_u8_upto(data, data.len() as int) + "]}"@
}

/// The welcome event as the hub puts it on the wire.
pub open spec fn welcome_frame(player_id: Seq<char>) -> Seq<char> {
    "{\"event_type\":\"welcome\",\"player_id\":"@ + jstr(player_id) + ",\"data\":{}}"@
}

/// The membership event as the hub puts it on the wire.
pub open spec fn session_members_frame(
    player_id: Seq<char>,
    session_id: Seq<char>,
    members: Seq<Seq<char>>,
) -> Seq<char> {
    "{\"event_type\":\"session_members\",\"player_id\":"@ + jstr(player_id)
        + ",\"data\":{\"session_id\":"@ + jstr(session_id) + ",\"members\":["@ + jstr_list_upto(
        members,
        members.len() as int,
    ) + "]}}"@
}

/// The relayed snapshot event as the hub puts it on the wire.
pub open spec fn actor_sync_event_frame(sender_id: Seq<char>, a: ActorView) -> Seq<char> {
    "{\"event_type\":\"actor_sync\",\"sender_id\":"@ + jstr(sender_id) + ",\"data\":"@
        + actor_json(a) + "}"@
}

/// The relayed opaque message event as the hub puts it on the wire.
pub open spec fn registered_event_frame(
    sender_id: Seq<char>,
    message_id: Seq<char>,
    data: Seq<u8>,
) -> Seq<char> {
    "{\"event_type\":\"registered_message\",\"sender_id\":"@ + jstr(sender_id)
        + ",\"message_id\":"@ + jstr(message_id) + ",\"data\":["@ + dec_list_u8_upto(
        data,
        data.len() as int,
    ) + "]}"@
}

/// Relies on `String::push`: appends exactly one character.
#[verifier::external_body]
fn push_char(out: &mut String, c: char)
    ensures
        final(out)@ == old(out)@.push(c),
{
    out.push(c);
}

/// Relies on `str::chars`: the characters of the string, in order.
#[verifier::external_body]
fn chars_of(s: &str) -> (r: Vec<char>)
    ensures
        r@ == s@,
{
    s.chars().collect()
}

/// The hex digit character for a value below sixteen.
fn hex_char(d: u32) -> (r: char)
    requires
        d < 16,
    ensures
        r == hex_digit(d as int),
{
    if d < 10 {
        ((48 + d) as u8) as char
    } else {
        ((87 + d) as u8) as char
    }
}

/// Appends the decimal digits of `n`.
fn push_u32_dec(out: &mut String, n: u32)
    ensures
        final(out)@ == old(out)@ + dec_digits(n as nat),
    decreases n,
{
    if n >= 10 {
        push_u32_dec(out, n / 10);
    }
    let d = ((48 + (n % 10)) as u8) as char;
    push_char(out, d);
    proof {
        assert(final(out)@ =~= old(out)@ + dec_digits(n as nat));
    }
}

/// Appends the decimal text of `x`, with a leading minus when negative.
fn push_i16_dec(out: &mut String, x: i16)
    ensures
        final(out)@ == old(out)@ + dec_int(x as int),
{
    if x < 0 {
        push_char(out, '-');
        let m = (-(x as i32)) as u32;
        push_u32_dec(out, m);
        proof {
            assert(final(out)@ =~= old(out)@ + dec_int(x as int));
        }
    } else {
        push_u32_dec(out, x as u32);
    }
}

/// Appends `s` as a JSON string literal: quoted, with quote, backslash and
/// control characters escaped.
fn push_jstr(out: &mut String, s: &str)
    ensures
        final(out)@ == old(out)@ + jstr(s@),
{
    push_char(out, '"');
    let cs = chars_of(s);
    let n = cs.len();
    let mut i: usize = 0;
    proof {
        assert(out@ =~= old(out)@ + seq!['"'] + esc_upto(s@, 0));
    }
    while i < n
        invariant
            i <= n,
            n == cs@.len(),
            cs@ == s@,
            out@ == old(out)@ + seq!['"'] + esc_upto(s@, i as int),
        decreases n - i,
    {
        let ghost pre = out@;
        let c = cs[i];
        proof {
            assert(c == s@[i as int]);
        }
        if c == '"' {
            push_char(out, '\\');
            push_char(out, '"');
            proof {
                assert(out@ =~= pre + esc_char(c));
            }
        } else if c == '\\' {
            push_char(out, '\\');
            push_char(out, '\\');
            proof {
                assert(out@ =~= pre + esc_char(c));
            }
        } else if (c as u32) < 32 {
            push_char(out, '\\');
            push_char(out, 'u');
            push_char(out, '0');
            push_char(out, '0');
            push_char(out, hex_char((c as u32) / 16));
            push_char(out, hex_char((c as u32) % 16));
            proof {
                assert(out@ =~= pre + esc_char(c));
            }
        } else {
            push_char(out, c);
            proof {
                assert(out@ =~= pre + esc_char(c));
            }
        }
        proof {
            assert(esc_upto(s@, i + 1) == esc_upto(s@, i as int) + esc_char(s@[i as int]));
            assert(out@ =~= old(out)@ + seq!['"'] + esc_upto(s@, i + 1));
        }
        i = i + 1;
    }
    push_char(out, '"');
    proof {
        assert(final(out)@ =~= old(out)@ + jstr(s@));
    }
}

/// Appends a comma-separated decimal list of the slice's values.
fn push_i16_list(out: &mut String, xs: &[i16])
    ensures
        final(out)@ == old(out)@ + dec_list_i16_upto(xs@, xs@.len() as int),
{
    let n = xs.len();
    let mut i: usize = 0;
    proof {
        assert(out@ =~= old(out)@ + dec_list_i16_upto(xs@, 0));
    }
    while i < n
        invariant
            i <= n,
            n == xs@.len(),
            out@ == old(out)@ + dec_list_i16_upto(xs@, i as int),
        decreases n - i,
    {
        if i > 0 {
            push_char(out, ',');
        }
        push_i16_dec(out, xs[i]);
        proof {
            assert(out@ =~= old(out)@ + dec_list_i16_upto(xs@, i + 1));
        }
        i = i + 1;
    }
}

/// Appends a comma-separated decimal list of the slice's values.
fn push_u32_list(out: &mut String, xs: &[u32])
    ensures
        final(out)@ == old(out)@ + dec_list_u32_upto(xs@, xs@.len() as int),
{
    let n = xs.len();
    let mut i: usize = 0;
    proof {
        assert(out@ =~= old(out)@ + dec_list_u32_upto(xs@, 0));
    }
    while i < n
        invariant
            i <= n,
            n == xs@.len(),
            out@ == old(out)@ + dec_list_u32_upto(xs@, i as int),
        decreases n - i,
    {
        if i > 0 {
            push_char(out, ',');
        }
        push_u32_dec(out, xs[i]);
        proof {
            assert(out@ =~= old(out)@ + dec_list_u32_upto(xs@, i + 1));
        }
        i = i + 1;
    }
}

/// Appends a comma-separated decimal list of the payload's bytes.
fn push_u8_list(out: &mut String, xs: &Vec<u8>)
    ensures
        final(out)@ == old(out)@ + dec_list_u8_upto(xs@, xs@.len() as int),
{
    let n = xs.len();
    let mut i: usize = 0;
    proof {
        assert(out@ =~= old(out)@ + dec_list_u8_upto(xs@, 0));
    }
    while i < n
        invariant
            i <= n,
            n == xs@.len(),
            out@ == old(out)@ + dec_list_u8_upto(xs@, i as int),
        decreases n - i,
    {
        if i > 0 {
            push_char(out, ',');
        }
        push_u32_dec(out, xs[i] as u32);
        proof {
            assert(out@ =~= old(out)@ + dec_list_u8_upto(xs@, i + 1));
        }
        i = i + 1;
    }
}

/// Appends a comma-separated list of JSON string literals.
fn push_jstr_list(out: &mut String, xs: &Vec<String>)
    ensures
        final(out)@ == old(out)@ + jstr_list_upto(xs.deep_view(), xs@.len() as int),
{
    let n = xs.len();
    let mut i: usize = 0;
    proof {
        assert(out@ =~= old(out)@ + jstr_list_upto(xs.deep_view(), 0));
    }
    while i < n
        invariant
            i <= n,
            n == xs@.len(),
            out@ == old(out)@ + jstr_list_upto(xs.deep_view(), i as int),
        decreases n - i,
    {
        if i > 0 {
            push_char(out, ',');
        }
        push_jstr(out, xs[i].as_str());
        proof {
            assert(xs.deep_view()[i as int] == xs@[i as int]@);
            assert(out@ =~= old(out)@ + jstr_list_upto(xs.deep_view(), i + 1));
        }
        i = i + 1;
    }
}

/// Appends the actor snapshot as a JSON object.
fn push_actor_json(out: &mut String, a: &ActorData)
    ensures
        final(out)@ == old(out)@ + actor_json(a@),
{
    out.append("{\"world_position\":[");
    push_u32_list(out, a.world_position.as_slice());
    out.append("],\"shape_rotation\":[");
    push_i16_list(out, a.shape_rotation.as_slice());
    out.append("],\"upper_limb_rot\":[");
    push_i16_list(out, a.upper_limb_rot.as_slice());
    out.append("],\"joint_table\":[");
    push_i16_list(out, a.joint_table.as_slice());
    out.append("],\"current_boots\":");
    push_i16_dec(out, a.current_boots as i16);
    out.append(",\"current_shield\":");
    push_i16_dec(out, a.current_shield as i16);
    out.append("}");
    proof {
        assert(final(out)@ =~= old(out)@ + actor_json(a@));
    }
}

/// The join command's frame text.
pub fn encode_join_session(session_id: &str) -> (r: String)
    ensures
        r@ == join_session_frame(session_id@),
{
    let mut out = String::new();
    out.append("{\"command\":\"join_session\",\"session_id\":");
    push_jstr(&mut out, session_id);
    out.append("}");
    proof {
        assert(out@ =~= join_session_frame(session_id@));
    }
    out
}

/// The leave command's frame text.
pub fn encode_leave_session() -> (r: String)
    ensures
        r@ == leave_session_frame(),
{
    let mut out = String::new();
    out.append("{\"command\":\"leave_session\"}");
    proof {
        assert(out@ =~= leave_session_frame());
    }
    out
}

/// The snapshot relay command's frame text.
pub fn encode_actor_sync(sender_id: &str, data: &ActorData) -> (r: String)
    ensures
        r@ == actor_sync_frame(sender_id@, data@),
{
    let mut out = String::new();
    out.append("{\"command\":\"actor_sync\",\"sender_id\":");
    push_jstr(&mut out, sender_id);
    out.append(",\"data\":");
    push_actor_json(&mut out, data);
    out.append("}");
    proof {
        assert(out@ =~= actor_sync_frame(sender_id@, data@));
    }
    out
}

/// The opaque message command's frame text.
pub fn encode_registered_message(sender_id: &str, message_id: &str, data: &Vec<u8>) -> (r: String)
    ensures
        r@ == registered_message_frame(sender_id@, message_id@, data@),
{
    let mut out = String::new();
    out.append("{\"command\":\"registered_message\",\"sender_id\":");
    push_jstr(&mut out, sender_id);
    out.append(",\"message_id\":");
    push_jstr(&mut out, message_id);
    out.append(",\"data\":[");
    push_u8_list(&mut out, data);
    out.append("]}");
    proof {
        assert(out@ =~= registered_message_frame(sender_id@, message_id@, data@));
    }
    out
}

/// The welcome event's frame text.
pub fn encode_welcome(player_id: &str) -> (r: String)
    ensures
        r@ == welcome_frame(player_id@),
{
    let mut out = String::new();
    out.append("{\"event_type\":\"welcome\",\"player_id\":");
    push_jstr(&mut out, player_id);
    out.append(",\"data\":{}}");
    proof {
        assert(out@ =~= welcome_frame(player_id@));
    }
    out
}

/// The membership event's frame text.
pub fn encode_session_members(
    player_id: &str,
    session_id: &str,
    members: &Vec<String>,
) -> (r: String)
    ensures
        r@ == session_members_frame(player_id@, session_id@, members.deep_view()),
{
    let mut out = String::new();
    out.append("{\"event_type\":\"session_members\",\"player_id\":");
    push_jstr(&mut out, player_id);
    out.append(",\"data\":{\"session_id\":");
    push_jstr(&mut out, session_id);
    out.append(",\"members\":[");
    push_jstr_list(&mut out, members);
    out.append("]}}");
    proof {
        assert(out@ =~= session_members_frame(player_id@, session_id@, members.deep_view()));
    }
    out
}

/// The relayed snapshot event's frame text.
pub fn encode_actor_sync_event(sender_id: &str, data: &ActorData) -> (r: String)
    ensures
        r@ == actor_sync_event_frame(sender_id@, data@),
{
    let mut out = String::new();
    out.append("{\"event_type\":\"actor_sync\",\"sender_id\":");
    push_jstr(&mut out, sender_id);
    out.append(",\"data\":");
    push_actor_json(&mut out, data);
    out.append("}");
    proof {
        assert(out@ =~= actor_sync_event_frame(sender_id@, data@));
    }
    out
}

/// The relayed opaque message event's frame text.
pub fn encode_registered_event(sender_id: &str, message_id: &str, data: &Vec<u8>) -> (r: String)
    ensures
        r@ == registered_event_frame(sender_id@, message_id@, data@),
{
    let mut out = String::new();
    out.append("{\"event_type\":\"registered_message\",\"sender_id\":");
    push_jstr(&mut out, sender_id);
    out.append(",\"message_id\":");
    push_jstr(&mut out, message_id);
    out.append(",\"data\":[");
    push_u8_list(&mut out, data);
    out.append("]}");
    proof {
        assert(out@ =~= registered_event_frame(sender_id@, message_id@, data@));
    }
    out
}

} // verus!
