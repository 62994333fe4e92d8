//! The wire format, as mathematics.
//!
//! Every frame is one encoded message: a fixed-width little-endian `u32`
//! tag selects the variant, followed by the variant's fields in declared
//! order.  Numeric fields are fixed-width little-endian; text and byte
//! strings are length-prefixed with a `u64`; optional values carry a one
//! byte tag (0 = absent, 1 = present, followed by the value); lists carry
//! a `u64` element count followed by the elements.  The variant tags are
//! assigned here explicitly, so reordering a declaration cannot silently
//! change the format.
//!
//! This module holds the specification-level encoders and parsers and the
//! proofs that they invert each other; the executable codec is in
//! [`crate::codec`] and is verified against these functions.

use vstd::prelude::*;
use vstd::bytes::*;
use crate::protocol::{
    ChatChannel, ClientMessageV, NpcUpdate, ObjectUpdateV, PlayerAction, PlayerClass, PlayerDataV,
    PlayerStats, PlayerUpdateV, Quaternion, ServerMessageV, Transform, Vector3,
};

verus! {

// ---------------------------------------------------------------------
// Variant tags of the two tagged unions.
// ---------------------------------------------------------------------

pub const TAG_LOGIN: u32 = 0;
pub const TAG_PLAYER_MOVE: u32 = 1;
pub const TAG_PLAYER_ACTION: u32 = 2;
pub const TAG_CHAT_MESSAGE: u32 = 3;
pub const TAG_USE_ITEM: u32 = 4;
pub const TAG_ATTACK: u32 = 5;
pub const TAG_HEARTBEAT: u32 = 6;

pub const TAG_LOGIN_SUCCESS: u32 = 0;
pub const TAG_LOGIN_ERROR: u32 = 1;
pub const TAG_PLAYER_UPDATE: u32 = 2;
pub const TAG_WORLD_STATE: u32 = 3;
pub const TAG_PLAYER_JOINED: u32 = 4;
pub const TAG_PLAYER_LEFT: u32 = 5;
pub const TAG_PLAYER_TRANSFORM_UPDATE: u32 = 6;
pub const TAG_SERVER_CHAT_MESSAGE: u32 = 7;
pub const TAG_CHAT_ERROR: u32 = 8;
pub const TAG_COMBAT_EVENT: u32 = 9;
pub const TAG_HEARTBEAT_RESPONSE: u32 = 10;

/// One more than the largest value a `u64` length prefix can carry.
pub open spec fn u64_bound() -> int {
    0x1_0000_0000_0000_0000
}

// ---------------------------------------------------------------------
// Primitive encoders.
// ---------------------------------------------------------------------

pub open spec fn enc_u8(b: u8) -> Seq<u8> {
    seq![b]
}

pub open spec fn enc_u32(x: u32) -> Seq<u8> {
    spec_u32_to_le_bytes(x)
}

pub open spec fn enc_u64(x: u64) -> Seq<u8> {
    spec_u64_to_le_bytes(x)
}

pub open spec fn enc_u128(x: u128) -> Seq<u8> {
    spec_u128_to_le_bytes(x)
}

/// The `u32` bit pattern that carries a signed 32-bit value (two's complement).
pub open spec fn u32_bits_of_i32(v: i32) -> u32 {
    if v >= 0 {
        v as u32
    } else {
        ((v as int) + 0x1_0000_0000) as u32
    }
}

/// Inverse of [`u32_bits_of_i32`].
pub open spec fn i32_of_u32_bits(b: u32) -> i32 {
    if b < 0x8000_0000 {
        b as i32
    } else {
        ((b as int) - 0x1_0000_0000) as i32
    }
}

pub open spec fn enc_i32(v: i32) -> Seq<u8> {
    enc_u32(u32_bits_of_i32(v))
}

/// A length-prefixed byte string.
pub open spec fn enc_bytes(b: Seq<u8>) -> Seq<u8> {
    enc_u64(b.len() as u64) + b
}

/// A byte string whose length the `u64` prefix can carry.
pub open spec fn wf_bytes(b: Seq<u8>) -> bool {
    b.len() < u64_bound()
}

// ---------------------------------------------------------------------
// Primitive parsers.  A parser reads from the front of `s` and yields the
// value together with the number of bytes consumed, or nothing if the
// input does not begin with a well-formed encoding.
// ---------------------------------------------------------------------

pub open spec fn parse_u8(s: Seq<u8>) -> Option<(u8, int)> {
    if s.len() >= 1 {
        Some((s[0], 1int))
    } else {
        None
    }
}

pub open spec fn parse_u32(s: Seq<u8>) -> Option<(u32, int)> {
    if s.len() >= 4 {
        Some((spec_u32_from_le_bytes(s.take(4)), 4int))
    } else {
        None
    }
}

pub open spec fn parse_u64(s: Seq<u8>) -> Option<(u64, int)> {
    if s.len() >= 8 {
        Some((spec_u64_from_le_bytes(s.take(8)), 8int))
    } else {
        None
    }
}

pub open spec fn parse_u128(s: Seq<u8>) -> Option<(u128, int)> {
    if s.len() >= 16 {
        Some((spec_u128_from_le_bytes(s.take(16)), 16int))
    } else {
        None
    }
}

pub open spec fn parse_i32(s: Seq<u8>) -> Option<(i32, int)> {
    match parse_u32(s) {
        Some((b, n)) => Some((i32_of_u32_bits(b), n)),
        None => None,
    }
}

pub open spec fn parse_bytes(s: Seq<u8>) -> Option<(Seq<u8>, int)> {
    match parse_u64(s) {
        Some((len, _n)) => {
            if 8 + len as int <= s.len() {
                Some((s.subrange(8, 8 + len as int), 8 + len as int))
            } else {
                None
            }
        },
        None => None,
    }
}

// ---------------------------------------------------------------------
// Sequence bookkeeping used throughout the inversion proofs.
// ---------------------------------------------------------------------

/// Taking or skipping exactly the first operand of a concatenation
/// recovers the operands.
pub proof fn lemma_concat_parts(a: Seq<u8>, b: Seq<u8>)
    ensures
        (a + b).take(a.len() as int) == a,
        (a + b).skip(a.len() as int) == b,
{
    assert((a + b).take(a.len() as int) =~= a);
    assert((a + b).skip(a.len() as int) =~= b);
}

/// Two adjacent `take`s amount to one longer `take`.
pub proof fn lemma_take_adjacent(s: Seq<u8>, a: int, b: int)
    requires
        0 <= a,
        0 <= b,
        a + b <= s.len(),
    ensures
        s.take(a) + s.skip(a).take(b) == s.take(a + b),
{
    assert(s.take(a) + s.skip(a).take(b) =~= s.take(a + b));
}

/// Two adjacent `skip`s amount to one longer `skip`.
pub proof fn lemma_skip_skip(s: Seq<u8>, a: int, b: int)
    requires
        0 <= a,
        0 <= b,
        a + b <= s.len(),
    ensures
        s.skip(a).skip(b) == s.skip(a + b),
{
    assert(s.skip(a).skip(b) =~= s.skip(a + b));
}

// ---------------------------------------------------------------------
// Inversion lemmas for the primitives.  For each primitive: parsing an
// encoding followed by anything yields the encoded value and consumes
// exactly the encoding; and a successful parse pins the consumed prefix
// to be the encoding of the value parsed.
// ---------------------------------------------------------------------

pub proof fn lemma_parse_enc_u8(b: u8, rest: Seq<u8>)
    ensures
        parse_u8(enc_u8(b) + rest) == Some((b, 1int)),
        enc_u8(b).len() == 1,
{
    assert((enc_u8(b) + rest)[0] == b);
}

pub proof fn lemma_u8_canon(s: Seq<u8>, b: u8, n: int)
    requires
        parse_u8(s) == Some((b, n)),
    ensures
        n == 1 <= s.len(),
        enc_u8(b) == s.take(1),
{
    assert(enc_u8(b) =~= s.take(1));
}

pub proof fn lemma_parse_enc_u32(x: u32, rest: Seq<u8>)
    ensures
        parse_u32(enc_u32(x) + rest) == Some((x, 4int)),
        enc_u32(x).len() == 4,
{
    lemma_auto_spec_u32_to_from_le_bytes();
    lemma_concat_parts(enc_u32(x), rest);
}

pub proof fn lemma_u32_canon(s: Seq<u8>, x: u32, n: int)
    requires
        parse_u32(s) == Some((x, n)),
    ensures
        n == 4 <= s.len(),
        enc_u32(x) == s.take(4),
{
    lemma_auto_spec_u32_to_from_le_bytes();
    assert(s.take(4).len() == 4);
}

pub proof fn lemma_parse_enc_u64(x: u64, rest: Seq<u8>)
    ensures
        parse_u64(enc_u64(x) + rest) == Some((x, 8int)),
        enc_u64(x).len() == 8,
{
    lemma_auto_spec_u64_to_from_le_bytes();
    lemma_concat_parts(enc_u64(x), rest);
}

pub proof fn lemma_u64_canon(s: Seq<u8>, x: u64, n: int)
    requires
        parse_u64(s) == Some((x, n)),
    ensures
        n == 8 <= s.len(),
        enc_u64(x) == s.take(8),
{
    lemma_auto_spec_u64_to_from_le_bytes();
    assert(s.take(8).len() == 8);
}

pub proof fn lemma_parse_enc_u128(x: u128, rest: Seq<u8>)
    ensures
        parse_u128(enc_u128(x) + rest) == Some((x, 16int)),
        enc_u128(x).len() == 16,
{
    lemma_auto_spec_u128_to_from_le_bytes();
    lemma_concat_parts(enc_u128(x), rest);
}

pub proof fn lemma_u128_canon(s: Seq<u8>, x: u128, n: int)
    requires
        parse_u128(s) == Some((x, n)),
    ensures
        n == 16 <= s.len(),
        enc_u128(x) == s.take(16),
{
    lemma_auto_spec_u128_to_from_le_bytes();
    assert(s.take(16).len() == 16);
}

pub proof fn lemma_parse_enc_i32(v: i32, rest: Seq<u8>)
    ensures
        parse_i32(enc_i32(v) + rest) == Some((v, 4int)),
        enc_i32(v).len() == 4,
{
    lemma_parse_enc_u32(u32_bits_of_i32(v), rest);
    assert(i32_of_u32_bits(u32_bits_of_i32(v)) == v);
}

pub proof fn lemma_i32_canon(s: Seq<u8>, v: i32, n: int)
    requires
        parse_i32(s) == Some((v, n)),
    ensures
        n == 4 <= s.len(),
        enc_i32(v) == s.take(4),
{
    let b = parse_u32(s)->Some_0.0;
    lemma_u32_canon(s, b, 4);
    assert(u32_bits_of_i32(i32_of_u32_bits(b)) == b);
}

pub proof fn lemma_parse_enc_bytes(b: Seq<u8>, rest: Seq<u8>)
    requires
        wf_bytes(b),
    ensures
        parse_bytes(enc_bytes(b) + rest) == Some((b, 8 + b.len() as int)),
        enc_bytes(b).len() == 8 + b.len(),
{
    let len: u64 = b.len() as u64;
    let s = enc_bytes(b) + rest;
    lemma_parse_enc_u64(len, b + rest);
    assert(s =~= enc_u64(len) + (b + rest));
    assert(s.subrange(8, 8 + len as int) =~= b);
}

pub proof fn lemma_bytes_canon(s: Seq<u8>, b: Seq<u8>, n: int)
    requires
        parse_bytes(s) == Some((b, n)),
    ensures
        8 <= n <= s.len(),
        enc_bytes(b) == s.take(n),
        wf_bytes(b),
{
    let len = parse_u64(s)->Some_0.0;
    lemma_u64_canon(s, len, 8);
    assert(b.len() == len as int);
    assert(b.len() as u64 == len);
    assert(enc_bytes(b) =~= s.take(n));
}

// ---------------------------------------------------------------------
// Fixed-width composites: vectors, quaternions, transforms, stats.
// ---------------------------------------------------------------------

pub open spec fn enc_vec3(v: Vector3) -> Seq<u8> {
    enc_u32(v.x) + enc_u32(v.y) + enc_u32(v.z)
}

pub open spec fn parse_vec3(s: Seq<u8>) -> Option<(Vector3, int)> {
    match parse_u32(s) {
        Some((x, nx)) => match parse_u32(s.skip(nx)) {
            Some((y, ny)) => match parse_u32(s.skip(nx).skip(ny)) {
                Some((z, nz)) => Some((Vector3 { x, y, z }, nx + ny + nz)),
                None => None,
            },
            None => None,
        },
        None => None,
    }
}

pub proof fn lemma_parse_enc_vec3(v: Vector3, rest: Seq<u8>)
    ensures
        parse_vec3(enc_vec3(v) + rest) == Some((v, 12int)),
        enc_vec3(v).len() == 12,
{
    let s = enc_vec3(v) + rest;
    let t1 = enc_u32(v.y) + (enc_u32(v.z) + rest);
    let t2 = enc_u32(v.z) + rest;
    lemma_parse_enc_u32(v.x, t1);
    lemma_parse_enc_u32(v.y, t2);
    lemma_parse_enc_u32(v.z, rest);
    assert(s =~= enc_u32(v.x) + t1);
    lemma_concat_parts(enc_u32(v.x), t1);
    lemma_concat_parts(enc_u32(v.y), t2);
}

pub proof fn lemma_vec3_canon(s: Seq<u8>, v: Vector3, n: int)
    requires
        parse_vec3(s) == Some((v, n)),
    ensures
        n == 12 <= s.len(),
        enc_vec3(v) == s.take(12),
{
    lemma_u32_canon(s, v.x, 4);
    lemma_u32_canon(s.skip(4), v.y, 4);
    lemma_u32_canon(s.skip(4).skip(4), v.z, 4);
    lemma_skip_skip(s, 4, 4);
    lemma_take_adjacent(s, 4, 4);
    lemma_take_adjacent(s, 8, 4);
    assert(enc_vec3(v) =~= s.take(12));
}

pub open spec fn enc_quat(q: Quaternion) -> Seq<u8> {
    enc_u32(q.x) + enc_u32(q.y) + enc_u32(q.z) + enc_u32(q.w)
}

pub open spec fn parse_quat(s: Seq<u8>) -> Option<(Quaternion, int)> {
    match parse_u32(s) {
        Some((x, nx)) => match parse_u32(s.skip(nx)) {
            Some((y, ny)) => match parse_u32(s.skip(nx).skip(ny)) {
                Some((z, nz)) => match parse_u32(s.skip(nx).skip(ny).skip(nz)) {
                    Some((w, nw)) => Some((Quaternion { x, y, z, w }, nx + ny + nz + nw)),
                    None => None,
                },
                None => None,
            },
            None => None,
        },
        None => None,
    }
}

pub proof fn lemma_parse_enc_quat(q: Quaternion, rest: Seq<u8>)
    ensures
        parse_quat(enc_quat(q) + rest) == Some((q, 16int)),
        enc_quat(q).len() == 16,
{
    let s = enc_quat(q) + rest;
    let t3 = enc_u32(q.w) + rest;
    let t2 = enc_u32(q.z) + t3;
    let t1 = enc_u32(q.y) + t2;
    lemma_parse_enc_u32(q.x, t1);
    lemma_parse_enc_u32(q.y, t2);
    lemma_parse_enc_u32(q.z, t3);
    lemma_parse_enc_u32(q.w, rest);
    assert(s =~= enc_u32(q.x) + t1);
    lemma_concat_parts(enc_u32(q.x), t1);
    lemma_concat_parts(enc_u32(q.y), t2);
    lemma_concat_parts(enc_u32(q.z), t3);
}

pub proof fn lemma_quat_canon(s: Seq<u8>, q: Quaternion, n: int)
    requires
        parse_quat(s) == Some((q, n)),
    ensures
        n == 16 <= s.len(),
        enc_quat(q) == s.take(16),
{
    lemma_u32_canon(s, q.x, 4);
    lemma_u32_canon(s.skip(4), q.y, 4);
    lemma_u32_canon(s.skip(4).skip(4), q.z, 4);
    lemma_u32_canon(s.skip(4).skip(4).skip(4), q.w, 4);
    lemma_skip_skip(s, 4, 4);
    lemma_skip_skip(s, 8, 4);
    lemma_take_adjacent(s, 4, 4);
    lemma_take_adjacent(s, 8, 4);
    lemma_take_adjacent(s, 12, 4);
    assert(enc_quat(q) =~= s.take(16));
}

pub open spec fn enc_transform(t: Transform) -> Seq<u8> {
    enc_vec3(t.position) + enc_quat(t.rotation) + enc_vec3(t.scale)
}

pub open spec fn parse_transform(s: Seq<u8>) -> Option<(Transform, int)> {
    match parse_vec3(s) {
        Some((position, np)) => match parse_quat(s.skip(np)) {
            Some((rotation, nr)) => match parse_vec3(s.skip(np).skip(nr)) {
                Some((scale, ns)) => Some((Transform { position, rotation, scale }, np + nr + ns)),
                None => None,
            },
            None => None,
        },
        None => None,
    }
}

pub proof fn lemma_parse_enc_transform(t: Transform, rest: Seq<u8>)
    ensures
        parse_transform(enc_transform(t) + rest) == Some((t, 40int)),
        enc_transform(t).len() == 40,
{
    let s = enc_transform(t) + rest;
    let t2 = enc_vec3(t.scale) + rest;
    let t1 = enc_quat(t.rotation) + t2;
    lemma_parse_enc_vec3(t.position, t1);
    lemma_parse_enc_quat(t.rotation, t2);
    lemma_parse_enc_vec3(t.scale, rest);
    assert(s =~= enc_vec3(t.position) + t1);
    lemma_concat_parts(enc_vec3(t.position), t1);
    lemma_concat_parts(enc_quat(t.rotation), t2);
}

pub proof fn lemma_transform_canon(s: Seq<u8>, t: Transform, n: int)
    requires
        parse_transform(s) == Some((t, n)),
    ensures
        n == 40 <= s.len(),
        enc_transform(t) == s.take(40),
{
    lemma_vec3_canon(s, t.position, 12);
    lemma_quat_canon(s.skip(12), t.rotation, 16);
    lemma_vec3_canon(s.skip(12).skip(16), t.scale, 12);
    lemma_skip_skip(s, 12, 16);
    lemma_take_adjacent(s, 12, 16);
    lemma_take_adjacent(s, 28, 12);
    assert(enc_transform(t) =~= s.take(40));
}

pub open spec fn enc_stats(st: PlayerStats) -> Seq<u8> {
    enc_i32(st.health) + enc_i32(st.max_health) + enc_i32(st.mana) + enc_i32(st.max_mana)
        + enc_i32(st.strength) + enc_i32(st.agility) + enc_i32(st.intelligence)
}

pub open spec fn parse_stats(s: Seq<u8>) -> Option<(PlayerStats, int)> {
    if s.len() >= 28 {
        match (parse_i32(s), parse_i32(s.skip(4)), parse_i32(s.skip(8)), parse_i32(s.skip(12)),
            parse_i32(s.skip(16)), parse_i32(s.skip(20)), parse_i32(s.skip(24))) {
            (Some((health, _)), Some((max_health, _)), Some((mana, _)), Some((max_mana, _)),
                Some((strength, _)), Some((agility, _)), Some((intelligence, _))) => Some((
                PlayerStats { health, max_health, mana, max_mana, strength, agility, intelligence },
                28int,
            )),
            _ => None,
        }
    } else {
        None
    }
}

pub proof fn lemma_parse_enc_stats(st: PlayerStats, rest: Seq<u8>)
    ensures
        parse_stats(enc_stats(st) + rest) == Some((st, 28int)),
        enc_stats(st).len() == 28,
{
    let s = enc_stats(st) + rest;
    let t6 = enc_i32(st.intelligence) + rest;
    let t5 = enc_i32(st.agility) + t6;
    let t4 = enc_i32(st.strength) + t5;
    let t3 = enc_i32(st.max_mana) + t4;
    let t2 = enc_i32(st.mana) + t3;
    let t1 = enc_i32(st.max_health) + t2;
    lemma_parse_enc_i32(st.health, t1);
    lemma_parse_enc_i32(st.max_health, t2);
    lemma_parse_enc_i32(st.mana, t3);
    lemma_parse_enc_i32(st.max_mana, t4);
    lemma_parse_enc_i32(st.strength, t5);
    lemma_parse_enc_i32(st.agility, t6);
    lemma_parse_enc_i32(st.intelligence, rest);
    assert(s =~= enc_i32(st.health) + t1);
    lemma_concat_parts(enc_i32(st.health), t1);
    lemma_concat_parts(enc_i32(st.max_health), t2);
    lemma_concat_parts(enc_i32(st.mana), t3);
    lemma_concat_parts(enc_i32(st.max_mana), t4);
    lemma_concat_parts(enc_i32(st.strength), t5);
    lemma_concat_parts(enc_i32(st.agility), t6);
    assert(s.skip(4) == t1);
    assert(s.skip(4).skip(4) =~= s.skip(8));
    assert(s.skip(8).skip(4) =~= s.skip(12));
    assert(s.skip(12).skip(4) =~= s.skip(16));
    assert(s.skip(16).skip(4) =~= s.skip(20));
    assert(s.skip(20).skip(4) =~= s.skip(24));
    assert(s.skip(8) == t2);
    assert(s.skip(12) == t3);
    assert(s.skip(16) == t4);
    assert(s.skip(20) == t5);
    assert(s.skip(24) == t6);
}

pub proof fn lemma_stats_canon(s: Seq<u8>, st: PlayerStats, n: int)
    requires
        parse_stats(s) == Some((st, n)),
    ensures
        n == 28 <= s.len(),
        enc_stats(st) == s.take(28),
{
    lemma_i32_canon(s, st.health, 4);
    lemma_i32_canon(s.skip(4), st.max_health, 4);
    lemma_i32_canon(s.skip(8), st.mana, 4);
    lemma_i32_canon(s.skip(12), st.max_mana, 4);
    lemma_i32_canon(s.skip(16), st.strength, 4);
    lemma_i32_canon(s.skip(20), st.agility, 4);
    lemma_i32_canon(s.skip(24), st.intelligence, 4);
    lemma_take_adjacent(s, 4, 4);
    lemma_take_adjacent(s, 8, 4);
    lemma_take_adjacent(s, 12, 4);
    lemma_take_adjacent(s, 16, 4);
    lemma_take_adjacent(s, 20, 4);
    lemma_take_adjacent(s, 24, 4);
    assert(enc_stats(st) =~= s.take(28));
}

// ---------------------------------------------------------------------
// Enumerations carried as u32 tags.
// ---------------------------------------------------------------------

pub open spec fn channel_tag(c: ChatChannel) -> u32 {
    match c {
        ChatChannel::Global => 0,
        ChatChannel::Local => 1,
        ChatChannel::Party => 2,
        ChatChannel::Guild => 3,
        ChatChannel::Whisper => 4,
    }
}

pub open spec fn channel_of_tag(t: u32) -> Option<ChatChannel> {
    if t == 0 {
        Some(ChatChannel::Global)
    } else if t == 1 {
        Some(ChatChannel::Local)
    } else if t == 2 {
        Some(ChatChannel::Party)
    } else if t == 3 {
        Some(ChatChannel::Guild)
    } else if t == 4 {
        Some(ChatChannel::Whisper)
    } else {
        None
    }
}

pub open spec fn enc_channel(c: ChatChannel) -> Seq<u8> {
    enc_u32(channel_tag(c))
}

pub open spec fn parse_channel(s: Seq<u8>) -> Option<(ChatChannel, int)> {
    match parse_u32(s) {
        Some((t, n)) => match channel_of_tag(t) {
            Some(c) => Some((c, n)),
            None => None,
        },
        None => None,
    }
}

pub proof fn lemma_parse_enc_channel(c: ChatChannel, rest: Seq<u8>)
    ensures
        parse_channel(enc_channel(c) + rest) == Some((c, 4int)),
        enc_channel(c).len() == 4,
{
    lemma_parse_enc_u32(channel_tag(c), rest);
}

pub proof fn lemma_channel_canon(s: Seq<u8>, c: ChatChannel, n: int)
    requires
        parse_channel(s) == Some((c, n)),
    ensures
        n == 4 <= s.len(),
        enc_channel(c) == s.take(4),
{
    let t = parse_u32(s)->Some_0.0;
    lemma_u32_canon(s, t, 4);
    assert(channel_tag(c) == t);
}

pub open spec fn action_tag(a: PlayerAction) -> u32 {
    match a {
        PlayerAction::Jump => 0,
        PlayerAction::Interact => 1,
        PlayerAction::Sit => 2,
        PlayerAction::Dance => 3,
        PlayerAction::Craft => 4,
    }
}

pub open spec fn action_of_tag(t: u32) -> Option<PlayerAction> {
    if t == 0 {
        Some(PlayerAction::Jump)
    } else if t == 1 {
        Some(PlayerAction::Interact)
    } else if t == 2 {
        Some(PlayerAction::Sit)
    } else if t == 3 {
        Some(PlayerAction::Dance)
    } else if t == 4 {
        Some(PlayerAction::Craft)
    } else {
        None
    }
}

pub open spec fn enc_action(a: PlayerAction) -> Seq<u8> {
    enc_u32(action_tag(a))
}

pub open spec fn parse_action(s: Seq<u8>) -> Option<(PlayerAction, int)> {
    match parse_u32(s) {
        Some((t, n)) => match action_of_tag(t) {
            Some(a) => Some((a, n)),
            None => None,
        },
        None => None,
    }
}

pub proof fn lemma_parse_enc_action(a: PlayerAction, rest: Seq<u8>)
    ensures
        parse_action(enc_action(a) + rest) == Some((a, 4int)),
        enc_action(a).len() == 4,
{
    lemma_parse_enc_u32(action_tag(a), rest);
}

pub proof fn lemma_action_canon(s: Seq<u8>, a: PlayerAction, n: int)
    requires
        parse_action(s) == Some((a, n)),
    ensures
        n == 4 <= s.len(),
        enc_action(a) == s.take(4),
{
    let t = parse_u32(s)->Some_0.0;
    lemma_u32_canon(s, t, 4);
    assert(action_tag(a) == t);
}

pub open spec fn class_tag(c: PlayerClass) -> u32 {
    match c {
        PlayerClass::Warrior => 0,
        PlayerClass::Mage => 1,
        PlayerClass::Archer => 2,
        PlayerClass::Rogue => 3,
    }
}

pub open spec fn class_of_tag(t: u32) -> Option<PlayerClass> {
    if t == 0 {
        Some(PlayerClass::Warrior)
    } else if t == 1 {
        Some(PlayerClass::Mage)
    } else if t == 2 {
        Some(PlayerClass::Archer)
    } else if t == 3 {
        Some(PlayerClass::Rogue)
    } else {
        None
    }
}

pub open spec fn enc_class(c: PlayerClass) -> Seq<u8> {
    enc_u32(class_tag(c))
}

pub open spec fn parse_class(s: Seq<u8>) -> Option<(PlayerClass, int)> {
    match parse_u32(s) {
        Some((t, n)) => match class_of_tag(t) {
            Some(c) => Some((c, n)),
            None => None,
        },
        None => None,
    }
}

pub proof fn lemma_parse_enc_class(c: PlayerClass, rest: Seq<u8>)
    ensures
        parse_class(enc_class(c) + rest) == Some((c, 4int)),
        enc_class(c).len() == 4,
{
    lemma_parse_enc_u32(class_tag(c), rest);
}

pub proof fn lemma_class_canon(s: Seq<u8>, c: PlayerClass, n: int)
    requires
        parse_class(s) == Some((c, n)),
    ensures
        n == 4 <= s.len(),
        enc_class(c) == s.take(4),
{
    let t = parse_u32(s)->Some_0.0;
    lemma_u32_canon(s, t, 4);
    assert(class_tag(c) == t);
}

// ---------------------------------------------------------------------
// Optional fields: a one-byte presence tag, then the value.
// ---------------------------------------------------------------------

pub open spec fn enc_opt_u128(o: Option<u128>) -> Seq<u8> {
    match o {
        Some(v) => enc_u8(1) + enc_u128(v),
        None => enc_u8(0),
    }
}

pub open spec fn parse_opt_u128(s: Seq<u8>) -> Option<(Option<u128>, int)> {
    match parse_u8(s) {
        Some((tag, nt)) => {
            if tag == 0 {
                Some((None, nt))
            } else if tag == 1 {
                match parse_u128(s.skip(nt)) {
                    Some((v, nv)) => Some((Some(v), nt + nv)),
                    None => None,
                }
            } else {
                None
            }
        },
        None => None,
    }
}

pub proof fn lemma_parse_enc_opt_u128(o: Option<u128>, rest: Seq<u8>)
    ensures
        parse_opt_u128(enc_opt_u128(o) + rest) == Some((o, enc_opt_u128(o).len() as int)),
        enc_opt_u128(o).len() == (if o is Some { 17int } else { 1int }),
{
    match o {
        Some(v) => {
            let t1 = enc_u128(v) + rest;
            lemma_parse_enc_u8(1, t1);
            lemma_parse_enc_u128(v, rest);
            assert(enc_opt_u128(o) + rest =~= enc_u8(1) + t1);
            lemma_concat_parts(enc_u8(1), t1);
        },
        None => {
            lemma_parse_enc_u8(0, rest);
        },
    }
}

pub proof fn lemma_opt_u128_canon(s: Seq<u8>, o: Option<u128>, n: int)
    requires
        parse_opt_u128(s) == Some((o, n)),
    ensures
        1 <= n <= s.len(),
        enc_opt_u128(o) == s.take(n),
{
    let tag = parse_u8(s)->Some_0.0;
    lemma_u8_canon(s, tag, 1);
    match o {
        Some(v) => {
            lemma_u128_canon(s.skip(1), v, 16);
            lemma_take_adjacent(s, 1, 16);
            assert(enc_opt_u128(o) =~= s.take(17));
        },
        None => {
            assert(enc_opt_u128(o) =~= s.take(1));
        },
    }
}

pub open spec fn enc_opt_vec3(o: Option<Vector3>) -> Seq<u8> {
    match o {
        Some(v) => enc_u8(1) + enc_vec3(v),
        None => enc_u8(0),
    }
}

pub open spec fn parse_opt_vec3(s: Seq<u8>) -> Option<(Option<Vector3>, int)> {
    match parse_u8(s) {
        Some((tag, nt)) => {
            if tag == 0 {
                Some((None, nt))
            } else if tag == 1 {
                match parse_vec3(s.skip(nt)) {
                    Some((v, nv)) => Some((Some(v), nt + nv)),
                    None => None,
                }
            } else {
                None
            }
        },
        None => None,
    }
}

pub proof fn lemma_parse_enc_opt_vec3(o: Option<Vector3>, rest: Seq<u8>)
    ensures
        parse_opt_vec3(enc_opt_vec3(o) + rest) == Some((o, enc_opt_vec3(o).len() as int)),
        enc_opt_vec3(o).len() == (if o is Some { 13int } else { 1int }),
{
    match o {
        Some(v) => {
            let t1 = enc_vec3(v) + rest;
            lemma_parse_enc_u8(1, t1);
            lemma_parse_enc_vec3(v, rest);
            assert(enc_opt_vec3(o) + rest =~= enc_u8(1) + t1);
            lemma_concat_parts(enc_u8(1), t1);
        },
        None => {
            lemma_parse_enc_u8(0, rest);
        },
    }
}

pub proof fn lemma_opt_vec3_canon(s: Seq<u8>, o: Option<Vector3>, n: int)
    requires
        parse_opt_vec3(s) == Some((o, n)),
    ensures
        1 <= n <= s.len(),
        enc_opt_vec3(o) == s.take(n),
{
    let tag = parse_u8(s)->Some_0.0;
    lemma_u8_canon(s, tag, 1);
    match o {
        Some(v) => {
            lemma_vec3_canon(s.skip(1), v, 12);
            lemma_take_adjacent(s, 1, 12);
            assert(enc_opt_vec3(o) =~= s.take(13));
        },
        None => {
            assert(enc_opt_vec3(o) =~= s.take(1));
        },
    }
}

pub open spec fn enc_opt_bytes(o: Option<Seq<u8>>) -> Seq<u8> {
    match o {
        Some(b) => enc_u8(1) + enc_bytes(b),
        None => enc_u8(0),
    }
}

pub open spec fn wf_opt_bytes(o: Option<Seq<u8>>) -> bool {
    match o {
        Some(b) => wf_bytes(b),
        None => true,
    }
}

pub open spec fn parse_opt_bytes(s: Seq<u8>) -> Option<(Option<Seq<u8>>, int)> {
    match parse_u8(s) {
        Some((tag, nt)) => {
            if tag == 0 {
                Some((None, nt))
            } else if tag == 1 {
                match parse_bytes(s.skip(nt)) {
                    Some((b, nb)) => Some((Some(b), nt + nb)),
                    None => None,
                }
            } else {
                None
            }
        },
        None => None,
    }
}

pub proof fn lemma_parse_enc_opt_bytes(o: Option<Seq<u8>>, rest: Seq<u8>)
    requires
        wf_opt_bytes(o),
    ensures
        parse_opt_bytes(enc_opt_bytes(o) + rest) == Some((o, enc_opt_bytes(o).len() as int)),
        enc_opt_bytes(o).len() == (match o {
            Some(b) => 9 + b.len() as int,
            None => 1int,
        }),
{
    match o {
        Some(b) => {
            let t1 = enc_bytes(b) + rest;
            lemma_parse_enc_u8(1, t1);
            lemma_parse_enc_bytes(b, rest);
            assert(enc_opt_bytes(o) + rest =~= enc_u8(1) + t1);
            lemma_concat_parts(enc_u8(1), t1);
        },
        None => {
            lemma_parse_enc_u8(0, rest);
        },
    }
}

pub proof fn lemma_opt_bytes_canon(s: Seq<u8>, o: Option<Seq<u8>>, n: int)
    requires
        parse_opt_bytes(s) == Some((o, n)),
    ensures
        1 <= n <= s.len(),
        enc_opt_bytes(o) == s.take(n),
        wf_opt_bytes(o),
{
    let tag = parse_u8(s)->Some_0.0;
    lemma_u8_canon(s, tag, 1);
    match o {
        Some(b) => {
            let nb = (n - 1) as int;
            lemma_bytes_canon(s.skip(1), b, nb);
            lemma_take_adjacent(s, 1, nb);
            assert(enc_opt_bytes(o) =~= s.take(n));
        },
        None => {
            assert(enc_opt_bytes(o) =~= s.take(1));
        },
    }
}

// ---------------------------------------------------------------------
// Records of world snapshots.
// ---------------------------------------------------------------------

pub open spec fn enc_player_data(d: PlayerDataV) -> Seq<u8> {
    enc_u128(d.id) + enc_bytes(d.name) + enc_u32(d.level) + enc_class(d.class)
        + enc_transform(d.transform) + enc_stats(d.stats)
}

pub open spec fn wf_player_data(d: PlayerDataV) -> bool {
    wf_bytes(d.name)
}

pub open spec fn parse_player_data(s: Seq<u8>) -> Option<(PlayerDataV, int)> {
    match parse_u128(s) {
        Some((id, n1)) => match parse_bytes(s.skip(n1)) {
            Some((name, n2)) => match parse_u32(s.skip(n1).skip(n2)) {
                Some((level, n3)) => match parse_class(s.skip(n1).skip(n2).skip(n3)) {
                    Some((class, n4)) => match parse_transform(s.skip(n1).skip(n2).skip(n3).skip(n4)) {
                        Some((transform, n5)) => match parse_stats(
                            s.skip(n1).skip(n2).skip(n3).skip(n4).skip(n5),
                        ) {
                            Some((stats, n6)) => Some((
                                PlayerDataV { id, name, level, class, transform, stats },
                                n1 + n2 + n3 + n4 + n5 + n6,
                            )),
                            None => None,
                        },
                        None => None,
                    },
                    None => None,
                },
                None => None,
            },
            None => None,
        },
        None => None,
    }
}

pub proof fn lemma_parse_enc_player_data(d: PlayerDataV, rest: Seq<u8>)
    requires
        wf_player_data(d),
    ensures
        parse_player_data(enc_player_data(d) + rest) == Some((
            d,
            enc_player_data(d).len() as int,
        )),
        enc_player_data(d).len() == 100 + d.name.len(),
{
    let s = enc_player_data(d) + rest;
    let t5 = enc_stats(d.stats) + rest;
    let t4 = enc_transform(d.transform) + t5;
    let t3 = enc_class(d.class) + t4;
    let t2 = enc_u32(d.level) + t3;
    let t1 = enc_bytes(d.name) + t2;
    lemma_parse_enc_u128(d.id, t1);
    lemma_parse_enc_bytes(d.name, t2);
    lemma_parse_enc_u32(d.level, t3);
    lemma_parse_enc_class(d.class, t4);
    lemma_parse_enc_transform(d.transform, t5);
    lemma_parse_enc_stats(d.stats, rest);
    assert(s =~= enc_u128(d.id) + t1);
    lemma_concat_parts(enc_u128(d.id), t1);
    lemma_concat_parts(enc_bytes(d.name), t2);
    lemma_concat_parts(enc_u32(d.level), t3);
    lemma_concat_parts(enc_class(d.class), t4);
    lemma_concat_parts(enc_transform(d.transform), t5);
}

pub proof fn lemma_player_data_canon(s: Seq<u8>, d: PlayerDataV, n: int)
    requires
        parse_player_data(s) == Some((d, n)),
    ensures
        0 <= n <= s.len(),
        enc_player_data(d) == s.take(n),
        wf_player_data(d),
{
    let n2 = 8 + d.name.len() as int;
    lemma_u128_canon(s, d.id, 16);
    lemma_bytes_canon(s.skip(16), d.name, n2);
    lemma_skip_skip(s, 16, n2);
    lemma_u32_canon(s.skip(16 + n2), d.level, 4);
    lemma_skip_skip(s, 16 + n2, 4);
    lemma_class_canon(s.skip(16 + n2 + 4), d.class, 4);
    lemma_skip_skip(s, 16 + n2 + 4, 4);
    lemma_transform_canon(s.skip(16 + n2 + 8), d.transform, 40);
    lemma_skip_skip(s, 16 + n2 + 8, 40);
    lemma_stats_canon(s.skip(16 + n2 + 48), d.stats, 28);
    lemma_take_adjacent(s, 16, n2);
    lemma_take_adjacent(s, 16 + n2, 4);
    lemma_take_adjacent(s, 16 + n2 + 4, 4);
    lemma_take_adjacent(s, 16 + n2 + 8, 40);
    lemma_take_adjacent(s, 16 + n2 + 48, 28);
    assert(enc_player_data(d) =~= s.take(n));
}

pub open spec fn enc_player_update(u: PlayerUpdateV) -> Seq<u8> {
    enc_u128(u.player_id) + enc_transform(u.transform) + enc_vec3(u.velocity)
        + enc_opt_bytes(u.animation) + enc_i32(u.health)
}

pub open spec fn wf_player_update(u: PlayerUpdateV) -> bool {
    wf_opt_bytes(u.animation)
}

pub open spec fn parse_player_update(s: Seq<u8>) -> Option<(PlayerUpdateV, int)> {
    match parse_u128(s) {
        Some((player_id, n1)) => match parse_transform(s.skip(n1)) {
            Some((transform, n2)) => match parse_vec3(s.skip(n1).skip(n2)) {
                Some((velocity, n3)) => match parse_opt_bytes(s.skip(n1).skip(n2).skip(n3)) {
                    Some((animation, n4)) => match parse_i32(s.skip(n1).skip(n2).skip(n3).skip(n4)) {
                        Some((health, n5)) => Some((
                            PlayerUpdateV { player_id, transform, velocity, animation, health },
                            n1 + n2 + n3 + n4 + n5,
                        )),
                        None => None,
                    },
                    None => None,
                },
                None => None,
            },
            None => None,
        },
        None => None,
    }
}

pub proof fn lemma_parse_enc_player_update(u: PlayerUpdateV, rest: Seq<u8>)
    requires
        wf_player_update(u),
    ensures
        parse_player_update(enc_player_update(u) + rest) == Some((
            u,
            enc_player_update(u).len() as int,
        )),
        enc_player_update(u).len() == 72 + enc_opt_bytes(u.animation).len(),
{
    let s = enc_player_update(u) + rest;
    let t4 = enc_i32(u.health) + rest;
    let t3 = enc_opt_bytes(u.animation) + t4;
    let t2 = enc_vec3(u.velocity) + t3;
    let t1 = enc_transform(u.transform) + t2;
    lemma_parse_enc_u128(u.player_id, t1);
    lemma_parse_enc_transform(u.transform, t2);
    lemma_parse_enc_vec3(u.velocity, t3);
    lemma_parse_enc_opt_bytes(u.animation, t4);
    lemma_parse_enc_i32(u.health, rest);
    assert(s =~= enc_u128(u.player_id) + t1);
    lemma_concat_parts(enc_u128(u.player_id), t1);
    lemma_concat_parts(enc_transform(u.transform), t2);
    lemma_concat_parts(enc_vec3(u.velocity), t3);
    lemma_concat_parts(enc_opt_bytes(u.animation), t4);
}

pub proof fn lemma_player_update_canon(s: Seq<u8>, u: PlayerUpdateV, n: int)
    requires
        parse_player_update(s) == Some((u, n)),
    ensures
        0 < n <= s.len(),
        enc_player_update(u) == s.take(n),
        wf_player_update(u),
{
    let n4 = (n - 72) as int;
    lemma_u128_canon(s, u.player_id, 16);
    lemma_transform_canon(s.skip(16), u.transform, 40);
    lemma_skip_skip(s, 16, 40);
    lemma_vec3_canon(s.skip(56), u.velocity, 12);
    lemma_skip_skip(s, 56, 12);
    lemma_opt_bytes_canon(s.skip(68), u.animation, n4);
    lemma_skip_skip(s, 68, n4);
    lemma_i32_canon(s.skip(68 + n4), u.health, 4);
    lemma_take_adjacent(s, 16, 40);
    lemma_take_adjacent(s, 56, 12);
    lemma_take_adjacent(s, 68, n4);
    lemma_take_adjacent(s, 68 + n4, 4);
    assert(enc_player_update(u) =~= s.take(n));
}

pub open spec fn enc_npc_update(u: NpcUpdate) -> Seq<u8> {
    enc_u128(u.npc_id) + enc_transform(u.transform) + enc_i32(u.health)
}

pub open spec fn parse_npc_update(s: Seq<u8>) -> Option<(NpcUpdate, int)> {
    match parse_u128(s) {
        Some((npc_id, n1)) => match parse_transform(s.skip(n1)) {
            Some((transform, n2)) => match parse_i32(s.skip(n1).skip(n2)) {
                Some((health, n3)) => Some((NpcUpdate { npc_id, transform, health }, n1 + n2 + n3)),
                None => None,
            },
            None => None,
        },
        None => None,
    }
}

pub proof fn lemma_parse_enc_npc_update(u: NpcUpdate, rest: Seq<u8>)
    ensures
        parse_npc_update(enc_npc_update(u) + rest) == Some((u, 60int)),
        enc_npc_update(u).len() == 60,
{
    let s = enc_npc_update(u) + rest;
    let t2 = enc_i32(u.health) + rest;
    let t1 = enc_transform(u.transform) + t2;
    lemma_parse_enc_u128(u.npc_id, t1);
    lemma_parse_enc_transform(u.transform, t2);
    lemma_parse_enc_i32(u.health, rest);
    assert(s =~= enc_u128(u.npc_id) + t1);
    lemma_concat_parts(enc_u128(u.npc_id), t1);
    lemma_concat_parts(enc_transform(u.transform), t2);
}

pub proof fn lemma_npc_update_canon(s: Seq<u8>, u: NpcUpdate, n: int)
    requires
        parse_npc_update(s) == Some((u, n)),
    ensures
        n == 60 <= s.len(),
        enc_npc_update(u) == s.take(60),
{
    lemma_u128_canon(s, u.npc_id, 16);
    lemma_transform_canon(s.skip(16), u.transform, 40);
    lemma_skip_skip(s, 16, 40);
    lemma_i32_canon(s.skip(56), u.health, 4);
    lemma_take_adjacent(s, 16, 40);
    lemma_take_adjacent(s, 56, 4);
    assert(enc_npc_update(u) =~= s.take(60));
}

pub open spec fn enc_object_update(u: ObjectUpdateV) -> Seq<u8> {
    enc_u128(u.object_id) + enc_transform(u.transform) + enc_bytes(u.state)
}

pub open spec fn wf_object_update(u: ObjectUpdateV) -> bool {
    wf_bytes(u.state)
}

pub open spec fn parse_object_update(s: Seq<u8>) -> Option<(ObjectUpdateV, int)> {
    match parse_u128(s) {
        Some((object_id, n1)) => match parse_transform(s.skip(n1)) {
            Some((transform, n2)) => match parse_bytes(s.skip(n1).skip(n2)) {
                Some((state, n3)) => Some((
                    ObjectUpdateV { object_id, transform, state },
                    n1 + n2 + n3,
                )),
                None => None,
            },
            None => None,
        },
        None => None,
    }
}

pub proof fn lemma_parse_enc_object_update(u: ObjectUpdateV, rest: Seq<u8>)
    requires
        wf_object_update(u),
    ensures
        parse_object_update(enc_object_update(u) + rest) == Some((
            u,
            enc_object_update(u).len() as int,
        )),
        enc_object_update(u).len() == 64 + u.state.len(),
{
    let s = enc_object_update(u) + rest;
    let t2 = enc_bytes(u.state) + rest;
    let t1 = enc_transform(u.transform) + t2;
    lemma_parse_enc_u128(u.object_id, t1);
    lemma_parse_enc_transform(u.transform, t2);
    lemma_parse_enc_bytes(u.state, rest);
    assert(s =~= enc_u128(u.object_id) + t1);
    lemma_concat_parts(enc_u128(u.object_id), t1);
    lemma_concat_parts(enc_transform(u.transform), t2);
}

pub proof fn lemma_object_update_canon(s: Seq<u8>, u: ObjectUpdateV, n: int)
    requires
        parse_object_update(s) == Some((u, n)),
    ensures
        0 < n <= s.len(),
        enc_object_update(u) == s.take(n),
        wf_object_update(u),
{
    let n3 = (n - 56) as int;
    lemma_u128_canon(s, u.object_id, 16);
    lemma_transform_canon(s.skip(16), u.transform, 40);
    lemma_skip_skip(s, 16, 40);
    lemma_bytes_canon(s.skip(56), u.state, n3);
    lemma_take_adjacent(s, 16, 40);
    lemma_take_adjacent(s, 56, n3);
    assert(enc_object_update(u) =~= s.take(n));
}

// ---------------------------------------------------------------------
// Lists: a u64 element count, then the elements one after another.
// ---------------------------------------------------------------------

pub open spec fn enc_player_updates(l: Seq<PlayerUpdateV>) -> Seq<u8>
    decreases l.len(),
{
    if l.len() == 0 {
        Seq::empty()
    } else {
        enc_player_update(l[0]) + enc_player_updates(l.drop_first())
    }
}

pub open spec fn parse_player_updates(s: Seq<u8>, n: int) -> Option<(Seq<PlayerUpdateV>, int)>
    decreases n,
{
    if n <= 0 {
        Some((Seq::empty(), 0int))
    } else {
        match parse_player_update(s) {
            Some((v, k)) => match parse_player_updates(s.skip(k), n - 1) {
                Some((l, j)) => Some((seq![v] + l, k + j)),
                None => None,
            },
            None => None,
        }
    }
}

pub open spec fn wf_player_updates(l: Seq<PlayerUpdateV>) -> bool {
    &&& l.len() < u64_bound()
    &&& forall|i: int| 0 <= i < l.len() ==> wf_player_update(#[trigger] l[i])
}

pub proof fn lemma_parse_enc_player_updates(l: Seq<PlayerUpdateV>, rest: Seq<u8>)
    requires
        forall|i: int| 0 <= i < l.len() ==> wf_player_update(#[trigger] l[i]),
    ensures
        parse_player_updates(enc_player_updates(l) + rest, l.len() as int) == Some((
            l,
            enc_player_updates(l).len() as int,
        )),
    decreases l.len(),
{
    if l.len() == 0 {
        assert(enc_player_updates(l) + rest =~= rest);
        assert(Seq::<PlayerUpdateV>::empty() =~= l);
    } else {
        let e0 = enc_player_update(l[0]);
        let etail = enc_player_updates(l.drop_first());
        let s = enc_player_updates(l) + rest;
        lemma_parse_enc_player_update(l[0], etail + rest);
        assert(s =~= e0 + (etail + rest));
        lemma_concat_parts(e0, etail + rest);
        lemma_parse_enc_player_updates(l.drop_first(), rest);
        assert(seq![l[0]] + l.drop_first() =~= l);
    }
}

pub proof fn lemma_player_updates_canon(s: Seq<u8>, n: int, l: Seq<PlayerUpdateV>, c: int)
    requires
        n >= 0,
        parse_player_updates(s, n) == Some((l, c)),
    ensures
        0 <= c <= s.len(),
        enc_player_updates(l) == s.take(c),
        l.len() == n,
        forall|i: int| 0 <= i < l.len() ==> wf_player_update(#[trigger] l[i]),
    decreases n,
{
    if n <= 0 {
        assert(enc_player_updates(l) =~= s.take(0));
    } else {
        let (v, k) = parse_player_update(s)->Some_0;
        let (l2, j) = parse_player_updates(s.skip(k), n - 1)->Some_0;
        lemma_player_update_canon(s, v, k);
        lemma_player_updates_canon(s.skip(k), n - 1, l2, j);
        lemma_take_adjacent(s, k, j);
        assert(l.drop_first() =~= l2);
        assert(enc_player_updates(l) == enc_player_update(v) + enc_player_updates(l2));
        assert(enc_player_updates(l) == s.take(c));
    }
}

pub open spec fn enc_npc_updates(l: Seq<NpcUpdate>) -> Seq<u8>
    decreases l.len(),
{
    if l.len() == 0 {
        Seq::empty()
    } else {
        enc_npc_update(l[0]) + enc_npc_updates(l.drop_first())
    }
}

pub open spec fn parse_npc_updates(s: Seq<u8>, n: int) -> Option<(Seq<NpcUpdate>, int)>
    decreases n,
{
    if n <= 0 {
        Some((Seq::empty(), 0int))
    } else {
        match parse_npc_update(s) {
            Some((v, k)) => match parse_npc_updates(s.skip(k), n - 1) {
                Some((l, j)) => Some((seq![v] + l, k + j)),
                None => None,
            },
            None => None,
        }
    }
}

pub proof fn lemma_parse_enc_npc_updates(l: Seq<NpcUpdate>, rest: Seq<u8>)
    ensures
        parse_npc_updates(enc_npc_updates(l) + rest, l.len() as int) == Some((
            l,
            enc_npc_updates(l).len() as int,
        )),
    decreases l.len(),
{
    if l.len() == 0 {
        assert(enc_npc_updates(l) + rest =~= rest);
        assert(Seq::<NpcUpdate>::empty() =~= l);
    } else {
        let e0 = enc_npc_update(l[0]);
        let etail = enc_npc_updates(l.drop_first());
        let s = enc_npc_updates(l) + rest;
        lemma_parse_enc_npc_update(l[0], etail + rest);
        assert(s =~= e0 + (etail + rest));
        lemma_concat_parts(e0, etail + rest);
        lemma_parse_enc_npc_updates(l.drop_first(), rest);
        assert(seq![l[0]] + l.drop_first() =~= l);
    }
}

pub proof fn lemma_npc_updates_canon(s: Seq<u8>, n: int, l: Seq<NpcUpdate>, c: int)
    requires
        n >= 0,
        parse_npc_updates(s, n) == Some((l, c)),
    ensures
        0 <= c <= s.len(),
        enc_npc_updates(l) == s.take(c),
        l.len() == n,
    decreases n,
{
    if n <= 0 {
        assert(enc_npc_updates(l) =~= s.take(0));
    } else {
        let (v, k) = parse_npc_update(s)->Some_0;
        let (l2, j) = parse_npc_updates(s.skip(k), n - 1)->Some_0;
        lemma_npc_update_canon(s, v, k);
        lemma_npc_updates_canon(s.skip(k), n - 1, l2, j);
        lemma_take_adjacent(s, k, j);
        assert(l.drop_first() =~= l2);
        assert(enc_npc_updates(l) == enc_npc_update(v) + enc_npc_updates(l2));
        assert(enc_npc_updates(l) == s.take(c));
    }
}

pub open spec fn enc_object_updates(l: Seq<ObjectUpdateV>) -> Seq<u8>
    decreases l.len(),
{
    if l.len() == 0 {
        Seq::empty()
    } else {
        enc_object_update(l[0]) + enc_object_updates(l.drop_first())
    }
}

pub open spec fn parse_object_updates(s: Seq<u8>, n: int) -> Option<(Seq<ObjectUpdateV>, int)>
    decreases n,
{
    if n <= 0 {
        Some((Seq::empty(), 0int))
    } else {
        match parse_object_update(s) {
            Some((v, k)) => match parse_object_updates(s.skip(k), n - 1) {
                Some((l, j)) => Some((seq![v] + l, k + j)),
                None => None,
            },
            None => None,
        }
    }
}

pub open spec fn wf_object_updates(l: Seq<ObjectUpdateV>) -> bool {
    &&& l.len() < u64_bound()
    &&& forall|i: int| 0 <= i < l.len() ==> wf_object_update(#[trigger] l[i])
}

pub proof fn lemma_parse_enc_object_updates(l: Seq<ObjectUpdateV>, rest: Seq<u8>)
    requires
        forall|i: int| 0 <= i < l.len() ==> wf_object_update(#[trigger] l[i]),
    ensures
        parse_object_updates(enc_object_updates(l) + rest, l.len() as int) == Some((
            l,
            enc_object_updates(l).len() as int,
        )),
    decreases l.len(),
{
    if l.len() == 0 {
        assert(enc_object_updates(l) + rest =~= rest);
        assert(Seq::<ObjectUpdateV>::empty() =~= l);
    } else {
        let e0 = enc_object_update(l[0]);
        let etail = enc_object_updates(l.drop_first());
        let s = enc_object_updates(l) + rest;
        lemma_parse_enc_object_update(l[0], etail + rest);
        assert(s =~= e0 + (etail + rest));
        lemma_concat_parts(e0, etail + rest);
        lemma_parse_enc_object_updates(l.drop_first(), rest);
        assert(seq![l[0]] + l.drop_first() =~= l);
    }
}

pub proof fn lemma_object_updates_canon(s: Seq<u8>, n: int, l: Seq<ObjectUpdateV>, c: int)
    requires
        n >= 0,
        parse_object_updates(s, n) == Some((l, c)),
    ensures
        0 <= c <= s.len(),
        enc_object_updates(l) == s.take(c),
        l.len() == n,
        forall|i: int| 0 <= i < l.len() ==> wf_object_update(#[trigger] l[i]),
    decreases n,
{
    if n <= 0 {
        assert(enc_object_updates(l) =~= s.take(0));
    } else {
        let (v, k) = parse_object_update(s)->Some_0;
        let (l2, j) = parse_object_updates(s.skip(k), n - 1)->Some_0;
        lemma_object_update_canon(s, v, k);
        lemma_object_updates_canon(s.skip(k), n - 1, l2, j);
        lemma_take_adjacent(s, k, j);
        assert(l.drop_first() =~= l2);
        assert(enc_object_updates(l) == enc_object_update(v) + enc_object_updates(l2));
        assert(enc_object_updates(l) == s.take(c));
    }
}

// ---------------------------------------------------------------------
// Client messages.
// ---------------------------------------------------------------------

/// The encoding of one client message: its tag, then its fields in order.
pub open spec fn enc_client(m: ClientMessageV) -> Seq<u8> {
    match m {
        ClientMessageV::Login { username, auth_token } => enc_u32(TAG_LOGIN) + enc_bytes(username)
            + enc_bytes(auth_token),
        ClientMessageV::PlayerMove { transform, velocity, timestamp } => enc_u32(TAG_PLAYER_MOVE)
            + enc_transform(transform) + enc_vec3(velocity) + enc_u64(timestamp),
        ClientMessageV::PlayerAction { action_type, target_id, direction } => enc_u32(
            TAG_PLAYER_ACTION,
        ) + enc_action(action_type) + enc_opt_u128(target_id) + enc_opt_vec3(direction),
        ClientMessageV::ChatMessage { channel, message, target_id } => enc_u32(TAG_CHAT_MESSAGE)
            + enc_channel(channel) + enc_bytes(message) + enc_opt_u128(target_id),
        ClientMessageV::UseItem { item_id, target_id } => enc_u32(TAG_USE_ITEM) + enc_u128(item_id)
            + enc_opt_u128(target_id),
        ClientMessageV::Attack { target_id, ability_id } => enc_u32(TAG_ATTACK) + enc_u128(
            target_id,
        ) + enc_u32(ability_id),
        ClientMessageV::Heartbeat => enc_u32(TAG_HEARTBEAT),
    }
}

/// A client message every one of whose byte strings fits its length prefix.
pub open spec fn wf_client(m: ClientMessageV) -> bool {
    match m {
        ClientMessageV::Login { username, auth_token } => wf_bytes(username) && wf_bytes(
            auth_token,
        ),
        ClientMessageV::ChatMessage { channel, message, target_id } => wf_bytes(message),
        _ => true,
    }
}

pub open spec fn parse_client_body(tag: u32, s: Seq<u8>) -> Option<(ClientMessageV, int)> {
    if tag == TAG_LOGIN {
        match parse_bytes(s) {
            Some((username, n1)) => match parse_bytes(s.skip(n1)) {
                Some((auth_token, n2)) => Some((
                    ClientMessageV::Login { username, auth_token },
                    n1 + n2,
                )),
                None => None,
            },
            None => None,
        }
    } else if tag == TAG_PLAYER_MOVE {
        match parse_transform(s) {
            Some((transform, n1)) => match parse_vec3(s.skip(n1)) {
                Some((velocity, n2)) => match parse_u64(s.skip(n1).skip(n2)) {
                    Some((timestamp, n3)) => Some((
                        ClientMessageV::PlayerMove { transform, velocity, timestamp },
                        n1 + n2 + n3,
                    )),
                    None => None,
                },
                None => None,
            },
            None => None,
        }
    } else if tag == TAG_PLAYER_ACTION {
        match parse_action(s) {
            Some((action_type, n1)) => match parse_opt_u128(s.skip(n1)) {
                Some((target_id, n2)) => match parse_opt_vec3(s.skip(n1).skip(n2)) {
                    Some((direction, n3)) => Some((
                        ClientMessageV::PlayerAction { action_type, target_id, direction },
                        n1 + n2 + n3,
                    )),
                    None => None,
                },
                None => None,
            },
            None => None,
        }
    } else if tag == TAG_CHAT_MESSAGE {
        match parse_channel(s) {
            Some((channel, n1)) => match parse_bytes(s.skip(n1)) {
                Some((message, n2)) => match parse_opt_u128(s.skip(n1).skip(n2)) {
                    Some((target_id, n3)) => Some((
                        ClientMessageV::ChatMessage { channel, message, target_id },
                        n1 + n2 + n3,
                    )),
                    None => None,
                },
                None => None,
            },
            None => None,
        }
    } else if tag == TAG_USE_ITEM {
        match parse_u128(s) {
            Some((item_id, n1)) => match parse_opt_u128(s.skip(n1)) {
                Some((target_id, n2)) => Some((
                    ClientMessageV::UseItem { item_id, target_id },
                    n1 + n2,
                )),
                None => None,
            },
            None => None,
        }
    } else if tag == TAG_ATTACK {
        match parse_u128(s) {
            Some((target_id, n1)) => match parse_u32(s.skip(n1)) {
                Some((ability_id, n2)) => Some((
                    ClientMessageV::Attack { target_id, ability_id },
                    n1 + n2,
                )),
                None => None,
            },
            None => None,
        }
    } else if tag == TAG_HEARTBEAT {
        Some((ClientMessageV::Heartbeat, 0int))
    } else {
        None
    }
}

pub open spec fn parse_client(s: Seq<u8>) -> Option<(ClientMessageV, int)> {
    match parse_u32(s) {
        Some((tag, nt)) => match parse_client_body(tag, s.skip(nt)) {
            Some((m, nb)) => Some((m, nt + nb)),
            None => None,
        },
        None => None,
    }
}

/// A whole frame decodes to a client message exactly when the parser
/// succeeds and consumes every byte of the frame.
pub open spec fn spec_decode_client(s: Seq<u8>) -> Option<ClientMessageV> {
    match parse_client(s) {
        Some((m, n)) => if n == s.len() {
            Some(m)
        } else {
            None
        },
        None => None,
    }
}

#[verifier::spinoff_prover]
proof fn lemma_parse_enc_client_login(username: Seq<u8>, auth_token: Seq<u8>, rest: Seq<u8>)
    requires
        wf_bytes(username),
        wf_bytes(auth_token),
    ensures
        ({
            let m = ClientMessageV::Login { username, auth_token };
            parse_client(enc_client(m) + rest) == Some((m, enc_client(m).len() as int))
        }),
{
    let m = ClientMessageV::Login { username, auth_token };
    let s = enc_client(m) + rest;
    let t1 = enc_bytes(username) + (enc_bytes(auth_token) + rest);
    lemma_parse_enc_u32(TAG_LOGIN, t1);
    assert(s =~= enc_u32(TAG_LOGIN) + t1);
    lemma_concat_parts(enc_u32(TAG_LOGIN), t1);
    lemma_parse_enc_bytes(username, enc_bytes(auth_token) + rest);
    lemma_concat_parts(enc_bytes(username), enc_bytes(auth_token) + rest);
    lemma_parse_enc_bytes(auth_token, rest);
}

#[verifier::spinoff_prover]
proof fn lemma_parse_enc_client_move(transform: Transform, velocity: Vector3, timestamp: u64, rest: Seq<u8>)
    ensures
        ({
            let m = ClientMessageV::PlayerMove { transform, velocity, timestamp };
            parse_client(enc_client(m) + rest) == Some((m, enc_client(m).len() as int))
        }),
{
    let m = ClientMessageV::PlayerMove { transform, velocity, timestamp };
    let s = enc_client(m) + rest;
    let t3 = enc_u64(timestamp) + rest;
    let t2 = enc_vec3(velocity) + t3;
    let t1 = enc_transform(transform) + t2;
    lemma_parse_enc_u32(TAG_PLAYER_MOVE, t1);
    assert(s =~= enc_u32(TAG_PLAYER_MOVE) + t1);
    lemma_concat_parts(enc_u32(TAG_PLAYER_MOVE), t1);
    lemma_parse_enc_transform(transform, t2);
    lemma_concat_parts(enc_transform(transform), t2);
    lemma_parse_enc_vec3(velocity, t3);
    lemma_concat_parts(enc_vec3(velocity), t3);
    lemma_parse_enc_u64(timestamp, rest);
}

#[verifier::spinoff_prover]
proof fn lemma_parse_enc_client_action(
    action_type: PlayerAction,
    target_id: Option<u128>,
    direction: Option<Vector3>,
    rest: Seq<u8>,
)
    ensures
        ({
            let m = ClientMessageV::PlayerAction { action_type, target_id, direction };
            parse_client(enc_client(m) + rest) == Some((m, enc_client(m).len() as int))
        }),
{
    let m = ClientMessageV::PlayerAction { action_type, target_id, direction };
    let s = enc_client(m) + rest;
    let t3 = enc_opt_vec3(direction) + rest;
    let t2 = enc_opt_u128(target_id) + t3;
    let t1 = enc_action(action_type) + t2;
    lemma_parse_enc_u32(TAG_PLAYER_ACTION, t1);
    assert(s =~= enc_u32(TAG_PLAYER_ACTION) + t1);
    lemma_concat_parts(enc_u32(TAG_PLAYER_ACTION), t1);
    lemma_parse_enc_action(action_type, t2);
    lemma_concat_parts(enc_action(action_type), t2);
    lemma_parse_enc_opt_u128(target_id, t3);
    lemma_concat_parts(enc_opt_u128(target_id), t3);
    lemma_parse_enc_opt_vec3(direction, rest);
}

#[verifier::spinoff_prover]
proof fn lemma_parse_enc_client_chat(
    channel: ChatChannel,
    message: Seq<u8>,
    target_id: Option<u128>,
    rest: Seq<u8>,
)
    requires
        wf_bytes(message),
    ensures
        ({
            let m = ClientMessageV::ChatMessage { channel, message, target_id };
            parse_client(enc_client(m) + rest) == Some((m, enc_client(m).len() as int))
        }),
{
    let m = ClientMessageV::ChatMessage { channel, message, target_id };
    let s = enc_client(m) + rest;
    let t3 = enc_opt_u128(target_id) + rest;
    let t2 = enc_bytes(message) + t3;
    let t1 = enc_channel(channel) + t2;
    lemma_parse_enc_u32(TAG_CHAT_MESSAGE, t1);
    assert(s =~= enc_u32(TAG_CHAT_MESSAGE) + t1);
    lemma_concat_parts(enc_u32(TAG_CHAT_MESSAGE), t1);
    lemma_parse_enc_channel(channel, t2);
    lemma_concat_parts(enc_channel(channel), t2);
    lemma_parse_enc_bytes(message, t3);
    lemma_concat_parts(enc_bytes(message), t3);
    lemma_parse_enc_opt_u128(target_id, rest);
}

#[verifier::spinoff_prover]
proof fn lemma_parse_enc_client_use_item(item_id: u128, target_id: Option<u128>, rest: Seq<u8>)
    ensures
        ({
            let m = ClientMessageV::UseItem { item_id, target_id };
            parse_client(enc_client(m) + rest) == Some((m, enc_client(m).len() as int))
        }),
{
    let m = ClientMessageV::UseItem { item_id, target_id };
    let s = enc_client(m) + rest;
    let t2 = enc_opt_u128(target_id) + rest;
    let t1 = enc_u128(item_id) + t2;
    lemma_parse_enc_u32(TAG_USE_ITEM, t1);
    assert(s =~= enc_u32(TAG_USE_ITEM) + t1);
    lemma_concat_parts(enc_u32(TAG_USE_ITEM), t1);
    lemma_parse_enc_u128(item_id, t2);
    lemma_concat_parts(enc_u128(item_id), t2);
    lemma_parse_enc_opt_u128(target_id, rest);
}

#[verifier::spinoff_prover]
proof fn lemma_parse_enc_client_attack(target_id: u128, ability_id: u32, rest: Seq<u8>)
    ensures
        ({
            let m = ClientMessageV::Attack { target_id, ability_id };
            parse_client(enc_client(m) + rest) == Some((m, enc_client(m).len() as int))
        }),
{
    let m = ClientMessageV::Attack { target_id, ability_id };
    let s = enc_client(m) + rest;
    let t2 = enc_u32(ability_id) + rest;
    let t1 = enc_u128(target_id) + t2;
    lemma_parse_enc_u32(TAG_ATTACK, t1);
    assert(s =~= enc_u32(TAG_ATTACK) + t1);
    lemma_concat_parts(enc_u32(TAG_ATTACK), t1);
    lemma_parse_enc_u128(target_id, t2);
    lemma_concat_parts(enc_u128(target_id), t2);
    lemma_parse_enc_u32(ability_id, rest);
}

#[verifier::spinoff_prover]
pub proof fn lemma_parse_enc_client(m: ClientMessageV, rest: Seq<u8>)
    requires
        wf_client(m),
    ensures
        parse_client(enc_client(m) + rest) == Some((m, enc_client(m).len() as int)),
{
    match m {
        ClientMessageV::Login { username, auth_token } => {
            lemma_parse_enc_client_login(username, auth_token, rest);
        },
        ClientMessageV::PlayerMove { transform, velocity, timestamp } => {
            lemma_parse_enc_client_move(transform, velocity, timestamp, rest);
        },
        ClientMessageV::PlayerAction { action_type, target_id, direction } => {
            lemma_parse_enc_client_action(action_type, target_id, direction, rest);
        },
        ClientMessageV::ChatMessage { channel, message, target_id } => {
            lemma_parse_enc_client_chat(channel, message, target_id, rest);
        },
        ClientMessageV::UseItem { item_id, target_id } => {
            lemma_parse_enc_client_use_item(item_id, target_id, rest);
        },
        ClientMessageV::Attack { target_id, ability_id } => {
            lemma_parse_enc_client_attack(target_id, ability_id, rest);
        },
        ClientMessageV::Heartbeat => {
            lemma_parse_enc_u32(TAG_HEARTBEAT, rest);
            lemma_concat_parts(enc_u32(TAG_HEARTBEAT), rest);
        },
    }
}

pub proof fn lemma_client_canon(s: Seq<u8>, m: ClientMessageV, n: int)
    requires
        parse_client(s) == Some((m, n)),
    ensures
        4 <= n <= s.len(),
        enc_client(m) == s.take(n),
        wf_client(m),
{
    let tag = parse_u32(s)->Some_0.0;
    lemma_u32_canon(s, tag, 4);
    let r = s.skip(4);
    match m {
        ClientMessageV::Login { username, auth_token } => {
            let n1 = 8 + username.len() as int;
            let n2 = 8 + auth_token.len() as int;
            lemma_bytes_canon(r, username, n1);
            lemma_bytes_canon(r.skip(n1), auth_token, n2);
            lemma_take_adjacent(r, n1, n2);
            lemma_take_adjacent(s, 4, n1 + n2);
            lemma_skip_skip(s, 4, n1);
            assert(enc_client(m) =~= s.take(n));
        },
        ClientMessageV::PlayerMove { transform, velocity, timestamp } => {
            lemma_transform_canon(r, transform, 40);
            lemma_vec3_canon(r.skip(40), velocity, 12);
            lemma_skip_skip(r, 40, 12);
            lemma_u64_canon(r.skip(52), timestamp, 8);
            lemma_take_adjacent(r, 40, 12);
            lemma_take_adjacent(r, 52, 8);
            lemma_take_adjacent(s, 4, 60);
            assert(enc_client(m) =~= s.take(n));
        },
        ClientMessageV::PlayerAction { action_type, target_id, direction } => {
            let n2 = if target_id is Some { 17int } else { 1int };
            let n3 = if direction is Some { 13int } else { 1int };
            lemma_action_canon(r, action_type, 4);
            lemma_opt_u128_canon(r.skip(4), target_id, n2);
            lemma_skip_skip(r, 4, n2);
            lemma_opt_vec3_canon(r.skip(4 + n2), direction, n3);
            lemma_take_adjacent(r, 4, n2);
            lemma_take_adjacent(r, 4 + n2, n3);
            lemma_take_adjacent(s, 4, 4 + n2 + n3);
            assert(enc_client(m) =~= s.take(n));
        },
        ClientMessageV::ChatMessage { channel, message, target_id } => {
            let n2 = 8 + message.len() as int;
            let n3 = if target_id is Some { 17int } else { 1int };
            lemma_channel_canon(r, channel, 4);
            lemma_bytes_canon(r.skip(4), message, n2);
            lemma_skip_skip(r, 4, n2);
            lemma_opt_u128_canon(r.skip(4 + n2), target_id, n3);
            lemma_take_adjacent(r, 4, n2);
            lemma_take_adjacent(r, 4 + n2, n3);
            lemma_take_adjacent(s, 4, 4 + n2 + n3);
            assert(enc_client(m) =~= s.take(n));
        },
        ClientMessageV::UseItem { item_id, target_id } => {
            let n2 = if target_id is Some { 17int } else { 1int };
            lemma_u128_canon(r, item_id, 16);
            lemma_opt_u128_canon(r.skip(16), target_id, n2);
            lemma_take_adjacent(r, 16, n2);
            lemma_take_adjacent(s, 4, 16 + n2);
            assert(enc_client(m) =~= s.take(n));
        },
        ClientMessageV::Attack { target_id, ability_id } => {
            lemma_u128_canon(r, target_id, 16);
            lemma_u32_canon(r.skip(16), ability_id, 4);
            lemma_take_adjacent(r, 16, 4);
            lemma_take_adjacent(s, 4, 20);
            assert(enc_client(m) =~= s.take(n));
        },
        ClientMessageV::Heartbeat => {
            assert(enc_client(m) =~= s.take(4));
        },
    }
}

/// Decoding inverts encoding: every well-formed client message comes back
/// from its own frame.
pub proof fn lemma_client_round_trip(m: ClientMessageV)
    requires
        wf_client(m),
    ensures
        spec_decode_client(enc_client(m)) == Some(m),
{
    lemma_parse_enc_client(m, Seq::empty());
    assert(enc_client(m) + Seq::<u8>::empty() =~= enc_client(m));
}

/// Encoding inverts decoding: a frame that decodes at all is exactly the
/// encoding of the message it decodes to.
pub proof fn lemma_client_canonical(s: Seq<u8>, m: ClientMessageV)
    requires
        spec_decode_client(s) == Some(m),
    ensures
        enc_client(m) == s,
        wf_client(m),
{
    lemma_client_canon(s, m, s.len() as int);
    assert(s.take(s.len() as int) =~= s);
}

// ---------------------------------------------------------------------
// Server messages.
// ---------------------------------------------------------------------

/// The encoding of one server message: its tag, then its fields in order.
pub open spec fn enc_server(m: ServerMessageV) -> Seq<u8> {
    match m {
        ServerMessageV::LoginSuccess { player_id, username } => enc_u32(TAG_LOGIN_SUCCESS)
            + enc_u128(player_id) + enc_bytes(username),
        ServerMessageV::LoginError { reason } => enc_u32(TAG_LOGIN_ERROR) + enc_bytes(reason),
        ServerMessageV::PlayerUpdate { player_id, transform } => enc_u32(TAG_PLAYER_UPDATE)
            + enc_u128(player_id) + enc_transform(transform),
        ServerMessageV::WorldState { players, npcs, objects, timestamp } => enc_u32(TAG_WORLD_STATE)
            + enc_world_state_body(players, npcs, objects, timestamp),
        ServerMessageV::PlayerJoined { player_data } => enc_u32(TAG_PLAYER_JOINED)
            + enc_player_data(player_data),
        ServerMessageV::PlayerLeft { player_id } => enc_u32(TAG_PLAYER_LEFT) + enc_u128(player_id),
        ServerMessageV::PlayerTransformUpdate { player_id, transform, velocity } => enc_u32(
            TAG_PLAYER_TRANSFORM_UPDATE,
        ) + enc_u128(player_id) + enc_transform(transform) + enc_vec3(velocity),
        ServerMessageV::ChatMessage { channel, message, from_player } => enc_u32(
            TAG_SERVER_CHAT_MESSAGE,
        ) + enc_channel(channel) + enc_bytes(message) + enc_bytes(from_player),
        ServerMessageV::ChatError { reason } => enc_u32(TAG_CHAT_ERROR) + enc_bytes(reason),
        ServerMessageV::CombatEvent { source_id, target_id, damage, ability_id } => enc_u32(
            TAG_COMBAT_EVENT,
        ) + enc_u128(source_id) + enc_u128(target_id) + enc_i32(damage) + enc_u32(ability_id),
        ServerMessageV::HeartbeatResponse { server_time } => enc_u32(TAG_HEARTBEAT_RESPONSE)
            + enc_u64(server_time),
    }
}

/// A server message whose byte strings and lists fit their length prefixes.
pub open spec fn wf_server(m: ServerMessageV) -> bool {
    match m {
        ServerMessageV::LoginSuccess { player_id, username } => wf_bytes(username),
        ServerMessageV::LoginError { reason } => wf_bytes(reason),
        ServerMessageV::WorldState { players, npcs, objects, timestamp } => wf_player_updates(
            players,
        ) && npcs.len() < u64_bound() && wf_object_updates(objects),
        ServerMessageV::PlayerJoined { player_data } => wf_player_data(player_data),
        ServerMessageV::ChatMessage { channel, message, from_player } => wf_bytes(message)
            && wf_bytes(from_player),
        ServerMessageV::ChatError { reason } => wf_bytes(reason),
        _ => true,
    }
}

pub open spec fn enc_counted_players(l: Seq<PlayerUpdateV>) -> Seq<u8> {
    enc_u64(l.len() as u64) + enc_player_updates(l)
}

pub open spec fn parse_counted_players(s: Seq<u8>) -> Option<(Seq<PlayerUpdateV>, int)> {
    match parse_u64(s) {
        Some((np, n1)) => match parse_player_updates(s.skip(n1), np as int) {
            Some((l, n2)) => Some((l, n1 + n2)),
            None => None,
        },
        None => None,
    }
}

pub open spec fn enc_counted_npcs(l: Seq<NpcUpdate>) -> Seq<u8> {
    enc_u64(l.len() as u64) + enc_npc_updates(l)
}

pub open spec fn parse_counted_npcs(s: Seq<u8>) -> Option<(Seq<NpcUpdate>, int)> {
    match parse_u64(s) {
        Some((nn, n1)) => match parse_npc_updates(s.skip(n1), nn as int) {
            Some((l, n2)) => Some((l, n1 + n2)),
            None => None,
        },
        None => None,
    }
}

pub open spec fn enc_counted_objects(l: Seq<ObjectUpdateV>) -> Seq<u8> {
    enc_u64(l.len() as u64) + enc_object_updates(l)
}

pub open spec fn parse_counted_objects(s: Seq<u8>) -> Option<(Seq<ObjectUpdateV>, int)> {
    match parse_u64(s) {
        Some((no, n1)) => match parse_object_updates(s.skip(n1), no as int) {
            Some((l, n2)) => Some((l, n1 + n2)),
            None => None,
        },
        None => None,
    }
}

proof fn lemma_parse_enc_counted_players(l: Seq<PlayerUpdateV>, rest: Seq<u8>)
    requires
        wf_player_updates(l),
    ensures
        parse_counted_players(enc_counted_players(l) + rest) == Some((
            l,
            enc_counted_players(l).len() as int,
        )),
{
    let t1 = enc_player_updates(l) + rest;
    lemma_parse_enc_u64(l.len() as u64, t1);
    assert(enc_counted_players(l) + rest =~= enc_u64(l.len() as u64) + t1);
    lemma_concat_parts(enc_u64(l.len() as u64), t1);
    lemma_parse_enc_player_updates(l, rest);
}

proof fn lemma_counted_players_canon(s: Seq<u8>, l: Seq<PlayerUpdateV>, n: int)
    requires
        parse_counted_players(s) == Some((l, n)),
    ensures
        8 <= n <= s.len(),
        enc_counted_players(l) == s.take(n),
        wf_player_updates(l),
{
    let np = parse_u64(s)->Some_0.0;
    lemma_u64_canon(s, np, 8);
    lemma_player_updates_canon(s.skip(8), np as int, l, n - 8);
    lemma_take_adjacent(s, 8, n - 8);
    assert(l.len() as u64 == np);
    assert(enc_counted_players(l) == s.take(n));
}

proof fn lemma_parse_enc_counted_npcs(l: Seq<NpcUpdate>, rest: Seq<u8>)
    requires
        l.len() < u64_bound(),
    ensures
        parse_counted_npcs(enc_counted_npcs(l) + rest) == Some((
            l,
            enc_counted_npcs(l).len() as int,
        )),
{
    let t1 = enc_npc_updates(l) + rest;
    lemma_parse_enc_u64(l.len() as u64, t1);
    assert(enc_counted_npcs(l) + rest =~= enc_u64(l.len() as u64) + t1);
    lemma_concat_parts(enc_u64(l.len() as u64), t1);
    lemma_parse_enc_npc_updates(l, rest);
}

proof fn lemma_counted_npcs_canon(s: Seq<u8>, l: Seq<NpcUpdate>, n: int)
    requires
        parse_counted_npcs(s) == Some((l, n)),
    ensures
        8 <= n <= s.len(),
        enc_counted_npcs(l) == s.take(n),
        l.len() < u64_bound(),
{
    let nn = parse_u64(s)->Some_0.0;
    lemma_u64_canon(s, nn, 8);
    lemma_npc_updates_canon(s.skip(8), nn as int, l, n - 8);
    lemma_take_adjacent(s, 8, n - 8);
    assert(l.len() as u64 == nn);
    assert(enc_counted_npcs(l) == s.take(n));
}

proof fn lemma_parse_enc_counted_objects(l: Seq<ObjectUpdateV>, rest: Seq<u8>)
    requires
        wf_object_updates(l),
    ensures
        parse_counted_objects(enc_counted_objects(l) + rest) == Some((
            l,
            enc_counted_objects(l).len() as int,
        )),
{
    let t1 = enc_object_updates(l) + rest;
    lemma_parse_enc_u64(l.len() as u64, t1);
    assert(enc_counted_objects(l) + rest =~= enc_u64(l.len() as u64) + t1);
    lemma_concat_parts(enc_u64(l.len() as u64), t1);
    lemma_parse_enc_object_updates(l, rest);
}

proof fn lemma_counted_objects_canon(s: Seq<u8>, l: Seq<ObjectUpdateV>, n: int)
    requires
        parse_counted_objects(s) == Some((l, n)),
    ensures
        8 <= n <= s.len(),
        enc_counted_objects(l) == s.take(n),
        wf_object_updates(l),
{
    let no = parse_u64(s)->Some_0.0;
    lemma_u64_canon(s, no, 8);
    lemma_object_updates_canon(s.skip(8), no as int, l, n - 8);
    lemma_take_adjacent(s, 8, n - 8);
    assert(l.len() as u64 == no);
    assert(enc_counted_objects(l) == s.take(n));
}

pub open spec fn parse_world_state_body(s: Seq<u8>) -> Option<(ServerMessageV, int)> {
    match parse_counted_players(s) {
        Some((players, n1)) => match parse_counted_npcs(s.skip(n1)) {
            Some((npcs, n2)) => match parse_counted_objects(s.skip(n1).skip(n2)) {
                Some((objects, n3)) => match parse_u64(s.skip(n1).skip(n2).skip(n3)) {
                    Some((timestamp, n4)) => Some((
                        ServerMessageV::WorldState { players, npcs, objects, timestamp },
                        n1 + n2 + n3 + n4,
                    )),
                    None => None,
                },
                None => None,
            },
            None => None,
        },
        None => None,
    }
}

pub open spec fn parse_server_body(tag: u32, s: Seq<u8>) -> Option<(ServerMessageV, int)> {
    if tag == TAG_LOGIN_SUCCESS {
        match parse_u128(s) {
            Some((player_id, n1)) => match parse_bytes(s.skip(n1)) {
                Some((username, n2)) => Some((
                    ServerMessageV::LoginSuccess { player_id, username },
                    n1 + n2,
                )),
                None => None,
            },
            None => None,
        }
    } else if tag == TAG_LOGIN_ERROR {
        match parse_bytes(s) {
            Some((reason, n1)) => Some((ServerMessageV::LoginError { reason }, n1)),
            None => None,
        }
    } else if tag == TAG_PLAYER_UPDATE {
        match parse_u128(s) {
            Some((player_id, n1)) => match parse_transform(s.skip(n1)) {
                Some((transform, n2)) => Some((
                    ServerMessageV::PlayerUpdate { player_id, transform },
                    n1 + n2,
                )),
                None => None,
            },
            None => None,
        }
    } else if tag == TAG_WORLD_STATE {
        parse_world_state_body(s)
    } else if tag == TAG_PLAYER_JOINED {
        match parse_player_data(s) {
            Some((player_data, n1)) => Some((ServerMessageV::PlayerJoined { player_data }, n1)),
            None => None,
        }
    } else if tag == TAG_PLAYER_LEFT {
        match parse_u128(s) {
            Some((player_id, n1)) => Some((ServerMessageV::PlayerLeft { player_id }, n1)),
            None => None,
        }
    } else if tag == TAG_PLAYER_TRANSFORM_UPDATE {
        match parse_u128(s) {
            Some((player_id, n1)) => match parse_transform(s.skip(n1)) {
                Some((transform, n2)) => match parse_vec3(s.skip(n1).skip(n2)) {
                    Some((velocity, n3)) => Some((
                        ServerMessageV::PlayerTransformUpdate { player_id, transform, velocity },
                        n1 + n2 + n3,
                    )),
                    None => None,
                },
                None => None,
            },
            None => None,
        }
    } else if tag == TAG_SERVER_CHAT_MESSAGE {
        match parse_channel(s) {
            Some((channel, n1)) => match parse_bytes(s.skip(n1)) {
                Some((message, n2)) => match parse_bytes(s.skip(n1).skip(n2)) {
                    Some((from_player, n3)) => Some((
                        ServerMessageV::ChatMessage { channel, message, from_player },
                        n1 + n2 + n3,
                    )),
                    None => None,
                },
                None => None,
            },
            None => None,
        }
    } else if tag == TAG_CHAT_ERROR {
        match parse_bytes(s) {
            Some((reason, n1)) => Some((ServerMessageV::ChatError { reason }, n1)),
            None => None,
        }
    } else if tag == TAG_COMBAT_EVENT {
        match parse_u128(s) {
            Some((source_id, n1)) => match parse_u128(s.skip(n1)) {
                Some((target_id, n2)) => match parse_i32(s.skip(n1).skip(n2)) {
                    Some((damage, n3)) => match parse_u32(s.skip(n1).skip(n2).skip(n3)) {
                        Some((ability_id, n4)) => Some((
                            ServerMessageV::CombatEvent { source_id, target_id, damage, ability_id },
                            n1 + n2 + n3 + n4,
                        )),
                        None => None,
                    },
                    None => None,
                },
                None => None,
            },
            None => None,
        }
    } else if tag == TAG_HEARTBEAT_RESPONSE {
        match parse_u64(s) {
            Some((server_time, n1)) => Some((
                ServerMessageV::HeartbeatResponse { server_time },
                n1,
            )),
            None => None,
        }
    } else {
        None
    }
}

pub open spec fn parse_server(s: Seq<u8>) -> Option<(ServerMessageV, int)> {
    match parse_u32(s) {
        Some((tag, nt)) => match parse_server_body(tag, s.skip(nt)) {
            Some((m, nb)) => Some((m, nt + nb)),
            None => None,
        },
        None => None,
    }
}

/// A whole frame decodes to a server message exactly when the parser
/// succeeds and consumes every byte of the frame.
pub open spec fn spec_decode_server(s: Seq<u8>) -> Option<ServerMessageV> {
    match parse_server(s) {
        Some((m, n)) => if n == s.len() {
            Some(m)
        } else {
            None
        },
        None => None,
    }
}

/// The encoding of the fields of a world snapshot, without the tag.
pub open spec fn enc_world_state_body(
    players: Seq<PlayerUpdateV>,
    npcs: Seq<NpcUpdate>,
    objects: Seq<ObjectUpdateV>,
    timestamp: u64,
) -> Seq<u8> {
    enc_counted_players(players) + enc_counted_npcs(npcs) + enc_counted_objects(objects)
        + enc_u64(timestamp)
}

#[verifier::spinoff_prover]
#[verifier::rlimit(100)]
proof fn lemma_parse_enc_world_state_body(
    players: Seq<PlayerUpdateV>,
    npcs: Seq<NpcUpdate>,
    objects: Seq<ObjectUpdateV>,
    timestamp: u64,
    rest: Seq<u8>,
)
    requires
        wf_player_updates(players),
        npcs.len() < u64_bound(),
        wf_object_updates(objects),
    ensures
        ({
            let body = enc_world_state_body(players, npcs, objects, timestamp);
            parse_world_state_body(body + rest) == Some((
                ServerMessageV::WorldState { players, npcs, objects, timestamp },
                body.len() as int,
            ))
        }),
{
    let body = enc_world_state_body(players, npcs, objects, timestamp);
    let s = body + rest;
    let t3 = enc_u64(timestamp) + rest;
    let t2 = enc_counted_objects(objects) + t3;
    let t1 = enc_counted_npcs(npcs) + t2;
    assert(s =~= enc_counted_players(players) + t1);
    lemma_parse_enc_counted_players(players, t1);
    lemma_concat_parts(enc_counted_players(players), t1);
    lemma_parse_enc_counted_npcs(npcs, t2);
    lemma_concat_parts(enc_counted_npcs(npcs), t2);
    lemma_parse_enc_counted_objects(objects, t3);
    lemma_concat_parts(enc_counted_objects(objects), t3);
    lemma_parse_enc_u64(timestamp, rest);
}

#[verifier::spinoff_prover]
#[verifier::rlimit(100)]
proof fn lemma_parse_enc_world_state(
    players: Seq<PlayerUpdateV>,
    npcs: Seq<NpcUpdate>,
    objects: Seq<ObjectUpdateV>,
    timestamp: u64,
    rest: Seq<u8>,
)
    requires
        wf_player_updates(players),
        npcs.len() < u64_bound(),
        wf_object_updates(objects),
    ensures
        ({
            let m = ServerMessageV::WorldState { players, npcs, objects, timestamp };
            parse_server(enc_server(m) + rest) == Some((m, enc_server(m).len() as int))
        }),
{
    let m = ServerMessageV::WorldState { players, npcs, objects, timestamp };
    let body = enc_world_state_body(players, npcs, objects, timestamp);
    assert(enc_server(m) =~= enc_u32(TAG_WORLD_STATE) + body);
    assert(enc_server(m) + rest =~= enc_u32(TAG_WORLD_STATE) + (body + rest));
    lemma_parse_enc_u32(TAG_WORLD_STATE, body + rest);
    lemma_concat_parts(enc_u32(TAG_WORLD_STATE), body + rest);
    lemma_parse_enc_world_state_body(players, npcs, objects, timestamp, rest);
}

#[verifier::spinoff_prover]
proof fn lemma_parse_enc_server_login_success(player_id: u128, username: Seq<u8>, rest: Seq<u8>)
    requires
        wf_bytes(username),
    ensures
        ({
            let m = ServerMessageV::LoginSuccess { player_id, username };
            parse_server(enc_server(m) + rest) == Some((m, enc_server(m).len() as int))
        }),
{
    let m = ServerMessageV::LoginSuccess { player_id, username };
    let s = enc_server(m) + rest;
    let t2 = enc_bytes(username) + rest;
    let t1 = enc_u128(player_id) + t2;
    lemma_parse_enc_u32(TAG_LOGIN_SUCCESS, t1);
    assert(s =~= enc_u32(TAG_LOGIN_SUCCESS) + t1);
    lemma_concat_parts(enc_u32(TAG_LOGIN_SUCCESS), t1);
    lemma_parse_enc_u128(player_id, t2);
    lemma_concat_parts(enc_u128(player_id), t2);
    lemma_parse_enc_bytes(username, rest);
}

#[verifier::spinoff_prover]
proof fn lemma_parse_enc_server_one_bytes(tag: u32, reason: Seq<u8>, rest: Seq<u8>)
    requires
        wf_bytes(reason),
        tag == TAG_LOGIN_ERROR || tag == TAG_CHAT_ERROR,
    ensures
        ({
            let m = if tag == TAG_LOGIN_ERROR {
                ServerMessageV::LoginError { reason }
            } else {
                ServerMessageV::ChatError { reason }
            };
            parse_server(enc_server(m) + rest) == Some((m, enc_server(m).len() as int))
        }),
{
    let m = if tag == TAG_LOGIN_ERROR {
        ServerMessageV::LoginError { reason }
    } else {
        ServerMessageV::ChatError { reason }
    };
    let s = enc_server(m) + rest;
    let t1 = enc_bytes(reason) + rest;
    lemma_parse_enc_u32(tag, t1);
    assert(s =~= enc_u32(tag) + t1);
    lemma_concat_parts(enc_u32(tag), t1);
    lemma_parse_enc_bytes(reason, rest);
}

#[verifier::spinoff_prover]
proof fn lemma_parse_enc_server_player_update(player_id: u128, transform: Transform, rest: Seq<u8>)
    ensures
        ({
            let m = ServerMessageV::PlayerUpdate { player_id, transform };
            parse_server(enc_server(m) + rest) == Some((m, enc_server(m).len() as int))
        }),
{
    let m = ServerMessageV::PlayerUpdate { player_id, transform };
    let s = enc_server(m) + rest;
    let t1 = enc_u128(player_id) + (enc_transform(transform) + rest);
    lemma_parse_enc_u32(TAG_PLAYER_UPDATE, t1);
    assert(s =~= enc_u32(TAG_PLAYER_UPDATE) + t1);
    lemma_concat_parts(enc_u32(TAG_PLAYER_UPDATE), t1);
    lemma_parse_enc_u128(player_id, enc_transform(transform) + rest);
    lemma_concat_parts(enc_u128(player_id), enc_transform(transform) + rest);
    lemma_parse_enc_transform(transform, rest);
}

#[verifier::spinoff_prover]
proof fn lemma_parse_enc_server_joined(player_data: PlayerDataV, rest: Seq<u8>)
    requires
        wf_player_data(player_data),
    ensures
        ({
            let m = ServerMessageV::PlayerJoined { player_data };
            parse_server(enc_server(m) + rest) == Some((m, enc_server(m).len() as int))
        }),
{
    let m = ServerMessageV::PlayerJoined { player_data };
    let s = enc_server(m) + rest;
    let t1 = enc_player_data(player_data) + rest;
    lemma_parse_enc_u32(TAG_PLAYER_JOINED, t1);
    assert(s =~= enc_u32(TAG_PLAYER_JOINED) + t1);
    lemma_concat_parts(enc_u32(TAG_PLAYER_JOINED), t1);
    lemma_parse_enc_player_data(player_data, rest);
}

#[verifier::spinoff_prover]
proof fn lemma_parse_enc_server_left(player_id: u128, rest: Seq<u8>)
    ensures
        ({
            let m = ServerMessageV::PlayerLeft { player_id };
            parse_server(enc_server(m) + rest) == Some((m, enc_server(m).len() as int))
        }),
{
    let m = ServerMessageV::PlayerLeft { player_id };
    let s = enc_server(m) + rest;
    let t1 = enc_u128(player_id) + rest;
    lemma_parse_enc_u32(TAG_PLAYER_LEFT, t1);
    assert(s =~= enc_u32(TAG_PLAYER_LEFT) + t1);
    lemma_concat_parts(enc_u32(TAG_PLAYER_LEFT), t1);
    lemma_parse_enc_u128(player_id, rest);
}

#[verifier::spinoff_prover]
proof fn lemma_parse_enc_server_transform_update(
    player_id: u128,
    transform: Transform,
    velocity: Vector3,
    rest: Seq<u8>,
)
    ensures
        ({
            let m = ServerMessageV::PlayerTransformUpdate { player_id, transform, velocity };
            parse_server(enc_server(m) + rest) == Some((m, enc_server(m).len() as int))
        }),
{
    let m = ServerMessageV::PlayerTransformUpdate { player_id, transform, velocity };
    let s = enc_server(m) + rest;
    let t2 = enc_transform(transform) + (enc_vec3(velocity) + rest);
    let t1 = enc_u128(player_id) + t2;
    lemma_parse_enc_u32(TAG_PLAYER_TRANSFORM_UPDATE, t1);
    assert(s =~= enc_u32(TAG_PLAYER_TRANSFORM_UPDATE) + t1);
    lemma_concat_parts(enc_u32(TAG_PLAYER_TRANSFORM_UPDATE), t1);
    lemma_parse_enc_u128(player_id, t2);
    lemma_concat_parts(enc_u128(player_id), t2);
    lemma_parse_enc_transform(transform, enc_vec3(velocity) + rest);
    lemma_concat_parts(enc_transform(transform), enc_vec3(velocity) + rest);
    lemma_parse_enc_vec3(velocity, rest);
}

#[verifier::spinoff_prover]
proof fn lemma_parse_enc_server_chat(
    channel: ChatChannel,
    message: Seq<u8>,
    from_player: Seq<u8>,
    rest: Seq<u8>,
)
    requires
        wf_bytes(message),
        wf_bytes(from_player),
    ensures
        ({
            let m = ServerMessageV::ChatMessage { channel, message, from_player };
            parse_server(enc_server(m) + rest) == Some((m, enc_server(m).len() as int))
        }),
{
    let m = ServerMessageV::ChatMessage { channel, message, from_player };
    let s = enc_server(m) + rest;
    let t3 = enc_bytes(from_player) + rest;
    let t2 = enc_bytes(message) + t3;
    let t1 = enc_channel(channel) + t2;
    lemma_parse_enc_u32(TAG_SERVER_CHAT_MESSAGE, t1);
    assert(s =~= enc_u32(TAG_SERVER_CHAT_MESSAGE) + t1);
    lemma_concat_parts(enc_u32(TAG_SERVER_CHAT_MESSAGE), t1);
    lemma_parse_enc_channel(channel, t2);
    lemma_concat_parts(enc_channel(channel), t2);
    lemma_parse_enc_bytes(message, t3);
    lemma_concat_parts(enc_bytes(message), t3);
    lemma_parse_enc_bytes(from_player, rest);
}

#[verifier::spinoff_prover]
proof fn lemma_parse_enc_server_combat(
    source_id: u128,
    target_id: u128,
    damage: i32,
    ability_id: u32,
    rest: Seq<u8>,
)
    ensures
        ({
            let m = ServerMessageV::CombatEvent { source_id, target_id, damage, ability_id };
            parse_server(enc_server(m) + rest) == Some((m, enc_server(m).len() as int))
        }),
{
    let m = ServerMessageV::CombatEvent { source_id, target_id, damage, ability_id };
    let s = enc_server(m) + rest;
    let t3 = enc_i32(damage) + (enc_u32(ability_id) + rest);
    let t2 = enc_u128(target_id) + t3;
    let t1 = enc_u128(source_id) + t2;
    lemma_parse_enc_u32(TAG_COMBAT_EVENT, t1);
    assert(s =~= enc_u32(TAG_COMBAT_EVENT) + t1);
    lemma_concat_parts(enc_u32(TAG_COMBAT_EVENT), t1);
    lemma_parse_enc_u128(source_id, t2);
    lemma_concat_parts(enc_u128(source_id), t2);
    lemma_parse_enc_u128(target_id, t3);
    lemma_concat_parts(enc_u128(target_id), t3);
    lemma_parse_enc_i32(damage, enc_u32(ability_id) + rest);
    lemma_concat_parts(enc_i32(damage), enc_u32(ability_id) + rest);
    lemma_parse_enc_u32(ability_id, rest);
}

#[verifier::spinoff_prover]
proof fn lemma_parse_enc_server_heartbeat(server_time: u64, rest: Seq<u8>)
    ensures
        ({
            let m = ServerMessageV::HeartbeatResponse { server_time };
            parse_server(enc_server(m) + rest) == Some((m, enc_server(m).len() as int))
        }),
{
    let m = ServerMessageV::HeartbeatResponse { server_time };
    let s = enc_server(m) + rest;
    let t1 = enc_u64(server_time) + rest;
    lemma_parse_enc_u32(TAG_HEARTBEAT_RESPONSE, t1);
    assert(s =~= enc_u32(TAG_HEARTBEAT_RESPONSE) + t1);
    lemma_concat_parts(enc_u32(TAG_HEARTBEAT_RESPONSE), t1);
    lemma_parse_enc_u64(server_time, rest);
}

#[verifier::spinoff_prover]
pub proof fn lemma_parse_enc_server(m: ServerMessageV, rest: Seq<u8>)
    requires
        wf_server(m),
    ensures
        parse_server(enc_server(m) + rest) == Some((m, enc_server(m).len() as int)),
{
    match m {
        ServerMessageV::LoginSuccess { player_id, username } => {
            lemma_parse_enc_server_login_success(player_id, username, rest);
        },
        ServerMessageV::LoginError { reason } => {
            lemma_parse_enc_server_one_bytes(TAG_LOGIN_ERROR, reason, rest);
        },
        ServerMessageV::PlayerUpdate { player_id, transform } => {
            lemma_parse_enc_server_player_update(player_id, transform, rest);
        },
        ServerMessageV::WorldState { players, npcs, objects, timestamp } => {
            lemma_parse_enc_world_state(players, npcs, objects, timestamp, rest);
        },
        ServerMessageV::PlayerJoined { player_data } => {
            lemma_parse_enc_server_joined(player_data, rest);
        },
        ServerMessageV::PlayerLeft { player_id } => {
            lemma_parse_enc_server_left(player_id, rest);
        },
        ServerMessageV::PlayerTransformUpdate { player_id, transform, velocity } => {
            lemma_parse_enc_server_transform_update(player_id, transform, velocity, rest);
        },
        ServerMessageV::ChatMessage { channel, message, from_player } => {
            lemma_parse_enc_server_chat(channel, message, from_player, rest);
        },
        ServerMessageV::ChatError { reason } => {
            lemma_parse_enc_server_one_bytes(TAG_CHAT_ERROR, reason, rest);
        },
        ServerMessageV::CombatEvent { source_id, target_id, damage, ability_id } => {
            lemma_parse_enc_server_combat(source_id, target_id, damage, ability_id, rest);
        },
        ServerMessageV::HeartbeatResponse { server_time } => {
            lemma_parse_enc_server_heartbeat(server_time, rest);
        },
    }
}

#[verifier::spinoff_prover]
proof fn lemma_world_state_body_canon(
    r: Seq<u8>,
    players: Seq<PlayerUpdateV>,
    npcs: Seq<NpcUpdate>,
    objects: Seq<ObjectUpdateV>,
    timestamp: u64,
    nb: int,
)
    requires
        parse_world_state_body(r) == Some((
            ServerMessageV::WorldState { players, npcs, objects, timestamp },
            nb,
        )),
    ensures
        0 <= nb <= r.len(),
        enc_world_state_body(players, npcs, objects, timestamp) == r.take(nb),
        wf_player_updates(players),
        npcs.len() < u64_bound(),
        wf_object_updates(objects),
{
    let n1 = parse_counted_players(r)->Some_0.1;
    let n2 = parse_counted_npcs(r.skip(n1))->Some_0.1;
    let n3 = parse_counted_objects(r.skip(n1).skip(n2))->Some_0.1;
    lemma_counted_players_canon(r, players, n1);
    lemma_counted_npcs_canon(r.skip(n1), npcs, n2);
    lemma_skip_skip(r, n1, n2);
    lemma_counted_objects_canon(r.skip(n1 + n2), objects, n3);
    lemma_skip_skip(r, n1 + n2, n3);
    lemma_u64_canon(r.skip(n1 + n2 + n3), timestamp, 8);
    lemma_take_adjacent(r, n1, n2);
    lemma_take_adjacent(r, n1 + n2, n3);
    lemma_take_adjacent(r, n1 + n2 + n3, 8);
    assert(enc_world_state_body(players, npcs, objects, timestamp) =~= r.take(nb));
}

#[verifier::spinoff_prover]
#[verifier::rlimit(100)]
pub proof fn lemma_server_canon(s: Seq<u8>, m: ServerMessageV, n: int)
    requires
        parse_server(s) == Some((m, n)),
    ensures
        4 <= n <= s.len(),
        enc_server(m) == s.take(n),
        wf_server(m),
{
    let tag = parse_u32(s)->Some_0.0;
    lemma_u32_canon(s, tag, 4);
    let r = s.skip(4);
    match m {
        ServerMessageV::LoginSuccess { player_id, username } => {
            let n2 = 8 + username.len() as int;
            lemma_u128_canon(r, player_id, 16);
            lemma_bytes_canon(r.skip(16), username, n2);
            lemma_take_adjacent(r, 16, n2);
            lemma_take_adjacent(s, 4, 16 + n2);
            assert(enc_server(m) =~= s.take(n));
        },
        ServerMessageV::LoginError { reason } => {
            let n1 = 8 + reason.len() as int;
            lemma_bytes_canon(r, reason, n1);
            lemma_take_adjacent(s, 4, n1);
            assert(enc_server(m) =~= s.take(n));
        },
        ServerMessageV::PlayerUpdate { player_id, transform } => {
            lemma_u128_canon(r, player_id, 16);
            lemma_transform_canon(r.skip(16), transform, 40);
            lemma_take_adjacent(r, 16, 40);
            lemma_take_adjacent(s, 4, 56);
            assert(enc_server(m) =~= s.take(n));
        },
        ServerMessageV::WorldState { players, npcs, objects, timestamp } => {
            lemma_world_state_body_canon(r, players, npcs, objects, timestamp, n - 4);
            lemma_take_adjacent(s, 4, n - 4);
            assert(enc_server(m) =~= s.take(n));
        },
        ServerMessageV::PlayerJoined { player_data } => {
            lemma_player_data_canon(r, player_data, n - 4);
            lemma_take_adjacent(s, 4, n - 4);
            assert(enc_server(m) =~= s.take(n));
        },
        ServerMessageV::PlayerLeft { player_id } => {
            lemma_u128_canon(r, player_id, 16);
            lemma_take_adjacent(s, 4, 16);
            assert(enc_server(m) =~= s.take(n));
        },
        ServerMessageV::PlayerTransformUpdate { player_id, transform, velocity } => {
            lemma_u128_canon(r, player_id, 16);
            lemma_transform_canon(r.skip(16), transform, 40);
            lemma_skip_skip(r, 16, 40);
            lemma_vec3_canon(r.skip(56), velocity, 12);
            lemma_take_adjacent(r, 16, 40);
            lemma_take_adjacent(r, 56, 12);
            lemma_take_adjacent(s, 4, 68);
            assert(enc_server(m) =~= s.take(n));
        },
        ServerMessageV::ChatMessage { channel, message, from_player } => {
            let n2 = 8 + message.len() as int;
            let n3 = 8 + from_player.len() as int;
            lemma_channel_canon(r, channel, 4);
            lemma_bytes_canon(r.skip(4), message, n2);
            lemma_skip_skip(r, 4, n2);
            lemma_bytes_canon(r.skip(4 + n2), from_player, n3);
            lemma_take_adjacent(r, 4, n2);
            lemma_take_adjacent(r, 4 + n2, n3);
            lemma_take_adjacent(s, 4, 4 + n2 + n3);
            assert(enc_server(m) =~= s.take(n));
        },
        ServerMessageV::ChatError { reason } => {
            let n1 = 8 + reason.len() as int;
            lemma_bytes_canon(r, reason, n1);
            lemma_take_adjacent(s, 4, n1);
            assert(enc_server(m) =~= s.take(n));
        },
        ServerMessageV::CombatEvent { source_id, target_id, damage, ability_id } => {
            lemma_u128_canon(r, source_id, 16);
            lemma_u128_canon(r.skip(16), target_id, 16);
            lemma_skip_skip(r, 16, 16);
            lemma_i32_canon(r.skip(32), damage, 4);
            lemma_skip_skip(r, 32, 4);
            lemma_u32_canon(r.skip(36), ability_id, 4);
            lemma_take_adjacent(r, 16, 16);
            lemma_take_adjacent(r, 32, 4);
            lemma_take_adjacent(r, 36, 4);
            lemma_take_adjacent(s, 4, 40);
            assert(enc_server(m) =~= s.take(n));
        },
        ServerMessageV::HeartbeatResponse { server_time } => {
            lemma_u64_canon(r, server_time, 8);
            lemma_take_adjacent(s, 4, 8);
            assert(enc_server(m) =~= s.take(n));
        },
    }
}

/// Decoding inverts encoding: every well-formed server message comes back
/// from its own frame.
pub proof fn lemma_server_round_trip(m: ServerMessageV)
    requires
        wf_server(m),
    ensures
        spec_decode_server(enc_server(m)) == Some(m),
{
    lemma_parse_enc_server(m, Seq::empty());
    assert(enc_server(m) + Seq::<u8>::empty() =~= enc_server(m));
}

/// Encoding inverts decoding: a frame that decodes at all is exactly the
/// encoding of the message it decodes to.
pub proof fn lemma_server_canonical(s: Seq<u8>, m: ServerMessageV)
    requires
        spec_decode_server(s) == Some(m),
    ensures
        enc_server(m) == s,
        wf_server(m),
{
    lemma_server_canon(s, m, s.len() as int);
    assert(s.take(s.len() as int) =~= s);
}

} // verus!
