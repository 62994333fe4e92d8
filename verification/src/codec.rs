//! The executable codec.
//!
//! Encoding and decoding of whole frames, verified against the
//! specification-level encoders and parsers of [`crate::wire`].  Decoding
//! is strict: a frame decodes only if the parse consumes every byte, so a
//! decoded frame is always exactly the encoding of the message it yields.

use vstd::prelude::*;
use vstd::bytes::{u128_from_le_bytes, u128_to_le_bytes, u32_from_le_bytes, u32_to_le_bytes, u64_from_le_bytes, u64_to_le_bytes};
use vstd::slice::{slice_subrange, slice_to_vec};
use crate::protocol::{
    ChatChannel, ClientMessage, NpcUpdate, ObjectUpdate, ObjectUpdateV, PlayerAction, PlayerClass,
    PlayerData, PlayerStats, PlayerUpdate, PlayerUpdateV, Quaternion, ServerMessage, Transform,
    Vector3,
};
use crate::wire::{
    action_of_tag, action_tag, channel_of_tag, channel_tag, class_of_tag, class_tag, enc_action,
    enc_bytes, enc_channel, enc_class, enc_i32, enc_opt_bytes, enc_opt_u128, enc_opt_vec3,
    enc_quat, enc_stats, enc_transform, enc_u128, enc_u32, enc_u64, enc_u8, enc_vec3,
    enc_player_data, i32_of_u32_bits, lemma_skip_skip, parse_action, parse_bytes, parse_channel,
    parse_class, parse_i32, parse_opt_bytes, parse_opt_u128, parse_opt_vec3, parse_player_data,
    parse_quat, parse_stats, parse_transform, parse_u128, parse_u32, parse_u64, parse_u8,
    parse_vec3, u32_bits_of_i32,
};

verus! {

// ---------------------------------------------------------------------
// Writers.  Each appends the encoding of one value to the output frame.
// ---------------------------------------------------------------------

fn write_u8(out: &mut Vec<u8>, b: u8)
    ensures
        final(out)@ == old(out)@ + enc_u8(b),
{
    out.push(b);
    proof {
        assert(out@ =~= old(out)@ + enc_u8(b));
    }
}

fn write_u32(out: &mut Vec<u8>, x: u32)
    ensures
        final(out)@ == old(out)@ + enc_u32(x),
{
    let mut bs = u32_to_le_bytes(x);
    out.append(&mut bs);
}

fn write_u64(out: &mut Vec<u8>, x: u64)
    ensures
        final(out)@ == old(out)@ + enc_u64(x),
{
    let mut bs = u64_to_le_bytes(x);
    out.append(&mut bs);
}

fn write_u128(out: &mut Vec<u8>, x: u128)
    ensures
        final(out)@ == old(out)@ + enc_u128(x),
{
    let mut bs = u128_to_le_bytes(x);
    out.append(&mut bs);
}

fn write_i32(out: &mut Vec<u8>, v: i32)
    ensures
        final(out)@ == old(out)@ + enc_i32(v),
{
    let bits: u32 = if v >= 0 {
        v as u32
    } else {
        ((v as i64) + 0x1_0000_0000i64) as u32
    };
    proof {
        assert(bits == u32_bits_of_i32(v));
    }
    write_u32(out, bits);
}

fn write_bytes(out: &mut Vec<u8>, b: &Vec<u8>)
    ensures
        final(out)@ == old(out)@ + enc_bytes(b@),
{
    write_u64(out, b.len() as u64);
    out.extend_from_slice(b.as_slice());
    proof {
        assert(out@ =~= old(out)@ + enc_bytes(b@));
    }
}

fn write_vec3(out: &mut Vec<u8>, v: &Vector3)
    ensures
        final(out)@ == old(out)@ + enc_vec3(*v),
{
    write_u32(out, v.x);
    write_u32(out, v.y);
    write_u32(out, v.z);
    proof {
        assert(out@ =~= old(out)@ + enc_vec3(*v));
    }
}

fn write_quat(out: &mut Vec<u8>, q: &Quaternion)
    ensures
        final(out)@ == old(out)@ + enc_quat(*q),
{
    write_u32(out, q.x);
    write_u32(out, q.y);
    write_u32(out, q.z);
    write_u32(out, q.w);
    proof {
        assert(out@ =~= old(out)@ + enc_quat(*q));
    }
}

fn write_transform(out: &mut Vec<u8>, t: &Transform)
    ensures
        final(out)@ == old(out)@ + enc_transform(*t),
{
    write_vec3(out, &t.position);
    write_quat(out, &t.rotation);
    write_vec3(out, &t.scale);
    proof {
        assert(out@ =~= old(out)@ + enc_transform(*t));
    }
}

fn write_stats(out: &mut Vec<u8>, st: &PlayerStats)
    ensures
        final(out)@ == old(out)@ + enc_stats(*st),
{
    write_i32(out, st.health);
    write_i32(out, st.max_health);
    write_i32(out, st.mana);
    write_i32(out, st.max_mana);
    write_i32(out, st.strength);
    write_i32(out, st.agility);
    write_i32(out, st.intelligence);
    proof {
        assert(out@ =~= old(out)@ + enc_stats(*st));
    }
}

fn write_channel(out: &mut Vec<u8>, c: &ChatChannel)
    ensures
        final(out)@ == old(out)@ + enc_channel(*c),
{
    let tag: u32 = match c {
        ChatChannel::Global => 0,
        ChatChannel::Local => 1,
        ChatChannel::Party => 2,
        ChatChannel::Guild => 3,
        ChatChannel::Whisper => 4,
    };
    proof {
        assert(tag == channel_tag(*c));
    }
    write_u32(out, tag);
}

fn write_action(out: &mut Vec<u8>, a: &PlayerAction)
    ensures
        final(out)@ == old(out)@ + enc_action(*a),
{
    let tag: u32 = match a {
        PlayerAction::Jump => 0,
        PlayerAction::Interact => 1,
        PlayerAction::Sit => 2,
        PlayerAction::Dance => 3,
        PlayerAction::Craft => 4,
    };
    proof {
        assert(tag == action_tag(*a));
    }
    write_u32(out, tag);
}

fn write_class(out: &mut Vec<u8>, c: &PlayerClass)
    ensures
        final(out)@ == old(out)@ + enc_class(*c),
{
    let tag: u32 = match c {
        PlayerClass::Warrior => 0,
        PlayerClass::Mage => 1,
        PlayerClass::Archer => 2,
        PlayerClass::Rogue => 3,
    };
    proof {
        assert(tag == class_tag(*c));
    }
    write_u32(out, tag);
}

fn write_opt_u128(out: &mut Vec<u8>, o: &Option<u128>)
    ensures
        final(out)@ == old(out)@ + enc_opt_u128(*o),
{
    match o {
        Some(v) => {
            write_u8(out, 1);
            write_u128(out, *v);
        },
        None => {
            write_u8(out, 0);
        },
    }
    proof {
        assert(out@ =~= old(out)@ + enc_opt_u128(*o));
    }
}

fn write_opt_vec3(out: &mut Vec<u8>, o: &Option<Vector3>)
    ensures
        final(out)@ == old(out)@ + enc_opt_vec3(*o),
{
    match o {
        Some(v) => {
            write_u8(out, 1);
            write_vec3(out, v);
        },
        None => {
            write_u8(out, 0);
        },
    }
    proof {
        assert(out@ =~= old(out)@ + enc_opt_vec3(*o));
    }
}

fn write_opt_bytes(out: &mut Vec<u8>, o: &Option<Vec<u8>>)
    ensures
        final(out)@ == old(out)@ + enc_opt_bytes(match o {
            Some(b) => Some(b@),
            None => None,
        }),
{
    match o {
        Some(b) => {
            write_u8(out, 1);
            write_bytes(out, b);
        },
        None => {
            write_u8(out, 0);
        },
    }
    proof {
        assert(out@ =~= old(out)@ + enc_opt_bytes(match o {
            Some(b) => Some(b@),
            None => None,
        }));
    }
}

// ---------------------------------------------------------------------
// Readers.  Each reads one value at offset `i` of the frame and returns
// it with the offset just past it, mirroring the parser on the bytes
// from `i` on.
// ---------------------------------------------------------------------

fn read_u8(data: &[u8], i: usize) -> (r: Option<(u8, usize)>)
    requires
        i <= data@.len(),
    ensures
        match r {
            Some((x, j)) => parse_u8(data@.skip(i as int)) == Some((x, j - i as int)) && i < j
                <= data@.len(),
            None => parse_u8(data@.skip(i as int)) is None,
        },
{
    if data.len() - i >= 1 {
        let x = *vstd::slice::slice_index_get(data, i);
        proof {
            assert(data@.skip(i as int)[0] == data@[i as int]);
        }
        Some((x, i + 1))
    } else {
        None
    }
}

fn read_u32(data: &[u8], i: usize) -> (r: Option<(u32, usize)>)
    requires
        i <= data@.len(),
    ensures
        match r {
            Some((x, j)) => parse_u32(data@.skip(i as int)) == Some((x, j - i as int)) && i < j
                <= data@.len(),
            None => parse_u32(data@.skip(i as int)) is None,
        },
{
    if data.len() - i >= 4 {
        let s = slice_subrange(data, i, i + 4);
        let x = u32_from_le_bytes(s);
        proof {
            assert(data@.skip(i as int).take(4) =~= data@.subrange(i as int, i as int + 4));
        }
        Some((x, i + 4))
    } else {
        None
    }
}

fn read_u64(data: &[u8], i: usize) -> (r: Option<(u64, usize)>)
    requires
        i <= data@.len(),
    ensures
        match r {
            Some((x, j)) => parse_u64(data@.skip(i as int)) == Some((x, j - i as int)) && i < j
                <= data@.len(),
            None => parse_u64(data@.skip(i as int)) is None,
        },
{
    if data.len() - i >= 8 {
        let s = slice_subrange(data, i, i + 8);
        let x = u64_from_le_bytes(s);
        proof {
            assert(data@.skip(i as int).take(8) =~= data@.subrange(i as int, i as int + 8));
        }
        Some((x, i + 8))
    } else {
        None
    }
}

fn read_u128(data: &[u8], i: usize) -> (r: Option<(u128, usize)>)
    requires
        i <= data@.len(),
    ensures
        match r {
            Some((x, j)) => parse_u128(data@.skip(i as int)) == Some((x, j - i as int)) && i < j
                <= data@.len(),
            None => parse_u128(data@.skip(i as int)) is None,
        },
{
    if data.len() - i >= 16 {
        let s = slice_subrange(data, i, i + 16);
        let x = u128_from_le_bytes(s);
        proof {
            assert(data@.skip(i as int).take(16) =~= data@.subrange(i as int, i as int + 16));
        }
        Some((x, i + 16))
    } else {
        None
    }
}

fn read_i32(data: &[u8], i: usize) -> (r: Option<(i32, usize)>)
    requires
        i <= data@.len(),
    ensures
        match r {
            Some((v, j)) => parse_i32(data@.skip(i as int)) == Some((v, j - i as int)) && i < j
                <= data@.len(),
            None => parse_i32(data@.skip(i as int)) is None,
        },
{
    match read_u32(data, i) {
        Some((bits, j)) => {
            let v: i32 = if bits < 0x8000_0000 {
                bits as i32
            } else {
                ((bits as i64) - 0x1_0000_0000i64) as i32
            };
            proof {
                assert(v == i32_of_u32_bits(bits));
            }
            Some((v, j))
        },
        None => None,
    }
}

fn read_bytes(data: &[u8], i: usize) -> (r: Option<(Vec<u8>, usize)>)
    requires
        i <= data@.len(),
    ensures
        match r {
            Some((b, j)) => parse_bytes(data@.skip(i as int)) == Some((b@, j - i as int)) && i < j
                <= data@.len(),
            None => parse_bytes(data@.skip(i as int)) is None,
        },
{
    match read_u64(data, i) {
        Some((len, j)) => {
            let rem: u64 = (data.len() - j) as u64;
            if len <= rem {
                let end: usize = j + (len as usize);
                let s = slice_subrange(data, j, end);
                let b = slice_to_vec(s);
                proof {
                    assert(data@.skip(i as int).subrange(8, 8 + len as int) =~= data@.subrange(
                        j as int,
                        end as int,
                    ));
                }
                Some((b, end))
            } else {
                None
            }
        },
        None => None,
    }
}

fn read_vec3(data: &[u8], i: usize) -> (r: Option<(Vector3, usize)>)
    requires
        i <= data@.len(),
    ensures
        match r {
            Some((v, j)) => parse_vec3(data@.skip(i as int)) == Some((v, j - i as int)) && i < j
                <= data@.len(),
            None => parse_vec3(data@.skip(i as int)) is None,
        },
{
    match read_u32(data, i) {
        Some((x, j1)) => {
            proof {
                lemma_skip_skip(data@, i as int, j1 as int - i as int);
            }
            match read_u32(data, j1) {
                Some((y, j2)) => {
                    proof {
                        lemma_skip_skip(data@, j1 as int, j2 as int - j1 as int);
                    }
                    match read_u32(data, j2) {
                        Some((z, j3)) => Some((Vector3 { x, y, z }, j3)),
                        None => None,
                    }
                },
                None => None,
            }
        },
        None => None,
    }
}

fn read_quat(data: &[u8], i: usize) -> (r: Option<(Quaternion, usize)>)
    requires
        i <= data@.len(),
    ensures
        match r {
            Some((q, j)) => parse_quat(data@.skip(i as int)) == Some((q, j - i as int)) && i < j
                <= data@.len(),
            None => parse_quat(data@.skip(i as int)) is None,
        },
{
    match read_u32(data, i) {
        Some((x, j1)) => {
            proof {
                lemma_skip_skip(data@, i as int, j1 as int - i as int);
            }
            match read_u32(data, j1) {
                Some((y, j2)) => {
                    proof {
                        lemma_skip_skip(data@, j1 as int, j2 as int - j1 as int);
                    }
                    match read_u32(data, j2) {
                        Some((z, j3)) => {
                            proof {
                                lemma_skip_skip(data@, j2 as int, j3 as int - j2 as int);
                            }
                            match read_u32(data, j3) {
                                Some((w, j4)) => Some((Quaternion { x, y, z, w }, j4)),
                                None => None,
                            }
                        },
                        None => None,
                    }
                },
                None => None,
            }
        },
        None => None,
    }
}

fn read_transform(data: &[u8], i: usize) -> (r: Option<(Transform, usize)>)
    requires
        i <= data@.len(),
    ensures
        match r {
            Some((t, j)) => parse_transform(data@.skip(i as int)) == Some((t, j - i as int)) && i
                < j <= data@.len(),
            None => parse_transform(data@.skip(i as int)) is None,
        },
{
    match read_vec3(data, i) {
        Some((position, j1)) => {
            proof {
                lemma_skip_skip(data@, i as int, j1 as int - i as int);
            }
            match read_quat(data, j1) {
                Some((rotation, j2)) => {
                    proof {
                        lemma_skip_skip(data@, j1 as int, j2 as int - j1 as int);
                    }
                    match read_vec3(data, j2) {
                        Some((scale, j3)) => Some((Transform { position, rotation, scale }, j3)),
                        None => None,
                    }
                },
                None => None,
            }
        },
        None => None,
    }
}

fn read_channel(data: &[u8], i: usize) -> (r: Option<(ChatChannel, usize)>)
    requires
        i <= data@.len(),
    ensures
        match r {
            Some((c, j)) => parse_channel(data@.skip(i as int)) == Some((c, j - i as int)) && i < j
                <= data@.len(),
            None => parse_channel(data@.skip(i as int)) is None,
        },
{
    match read_u32(data, i) {
        Some((tag, j)) => {
            if tag == 0 {
                Some((ChatChannel::Global, j))
            } else if tag == 1 {
                Some((ChatChannel::Local, j))
            } else if tag == 2 {
                Some((ChatChannel::Party, j))
            } else if tag == 3 {
                Some((ChatChannel::Guild, j))
            } else if tag == 4 {
                Some((ChatChannel::Whisper, j))
            } else {
                None
            }
        },
        None => None,
    }
}

fn read_action(data: &[u8], i: usize) -> (r: Option<(PlayerAction, usize)>)
    requires
        i <= data@.len(),
    ensures
        match r {
            Some((a, j)) => parse_action(data@.skip(i as int)) == Some((a, j - i as int)) && i < j
                <= data@.len(),
            None => parse_action(data@.skip(i as int)) is None,
        },
{
    match read_u32(data, i) {
        Some((tag, j)) => {
            if tag == 0 {
                Some((PlayerAction::Jump, j))
            } else if tag == 1 {
                Some((PlayerAction::Interact, j))
            } else if tag == 2 {
                Some((PlayerAction::Sit, j))
            } else if tag == 3 {
                Some((PlayerAction::Dance, j))
            } else if tag == 4 {
                Some((PlayerAction::Craft, j))
            } else {
                None
            }
        },
        None => None,
    }
}

fn read_class(data: &[u8], i: usize) -> (r: Option<(PlayerClass, usize)>)
    requires
        i <= data@.len(),
    ensures
        match r {
            Some((c, j)) => parse_class(data@.skip(i as int)) == Some((c, j - i as int)) && i < j
                <= data@.len(),
            None => parse_class(data@.skip(i as int)) is None,
        },
{
    match read_u32(data, i) {
        Some((tag, j)) => {
            if tag == 0 {
                Some((PlayerClass::Warrior, j))
            } else if tag == 1 {
                Some((PlayerClass::Mage, j))
            } else if tag == 2 {
                Some((PlayerClass::Archer, j))
            } else if tag == 3 {
                Some((PlayerClass::Rogue, j))
            } else {
                None
            }
        },
        None => None,
    }
}

fn read_opt_u128(data: &[u8], i: usize) -> (r: Option<(Option<u128>, usize)>)
    requires
        i <= data@.len(),
    ensures
        match r {
            Some((o, j)) => parse_opt_u128(data@.skip(i as int)) == Some((o, j - i as int)) && i
                < j <= data@.len(),
            None => parse_opt_u128(data@.skip(i as int)) is None,
        },
{
    match read_u8(data, i) {
        Some((tag, j1)) => {
            if tag == 0 {
                Some((None, j1))
            } else if tag == 1 {
                proof {
                    lemma_skip_skip(data@, i as int, j1 as int - i as int);
                }
                match read_u128(data, j1) {
                    Some((v, j2)) => Some((Some(v), j2)),
                    None => None,
                }
            } else {
                None
            }
        },
        None => None,
    }
}

fn read_opt_vec3(data: &[u8], i: usize) -> (r: Option<(Option<Vector3>, usize)>)
    requires
        i <= data@.len(),
    ensures
        match r {
            Some((o, j)) => parse_opt_vec3(data@.skip(i as int)) == Some((o, j - i as int)) && i
                < j <= data@.len(),
            None => parse_opt_vec3(data@.skip(i as int)) is None,
        },
{
    match read_u8(data, i) {
        Some((tag, j1)) => {
            if tag == 0 {
                Some((None, j1))
            } else if tag == 1 {
                proof {
                    lemma_skip_skip(data@, i as int, j1 as int - i as int);
                }
                match read_vec3(data, j1) {
                    Some((v, j2)) => Some((Some(v), j2)),
                    None => None,
                }
            } else {
                None
            }
        },
        None => None,
    }
}

/// The mathematical value of an optional byte string.
pub open spec fn opt_bytes_view(o: Option<Vec<u8>>) -> Option<Seq<u8>> {
    match o {
        Some(b) => Some(b@),
        None => None,
    }
}

fn read_opt_bytes(data: &[u8], i: usize) -> (r: Option<(Option<Vec<u8>>, usize)>)
    requires
        i <= data@.len(),
    ensures
        match r {
            Some((o, j)) => parse_opt_bytes(data@.skip(i as int)) == Some((
                opt_bytes_view(o),
                j - i as int,
            )) && i < j <= data@.len(),
            None => parse_opt_bytes(data@.skip(i as int)) is None,
        },
{
    match read_u8(data, i) {
        Some((tag, j1)) => {
            if tag == 0 {
                Some((None, j1))
            } else if tag == 1 {
                proof {
                    lemma_skip_skip(data@, i as int, j1 as int - i as int);
                }
                match read_bytes(data, j1) {
                    Some((b, j2)) => Some((Some(b), j2)),
                    None => None,
                }
            } else {
                None
            }
        },
        None => None,
    }
}

fn read_stats(data: &[u8], i: usize) -> (r: Option<(PlayerStats, usize)>)
    requires
        i <= data@.len(),
    ensures
        match r {
            Some((st, j)) => parse_stats(data@.skip(i as int)) == Some((st, j - i as int)) && i < j
                <= data@.len(),
            None => parse_stats(data@.skip(i as int)) is None,
        },
{
    if data.len() - i >= 28 {
        match (read_i32(data, i)) {
            Some((health, j1)) => {
                proof {
                    lemma_skip_skip(data@, i as int, 4);
                    lemma_skip_skip(data@, i as int, 8);
                    lemma_skip_skip(data@, i as int, 12);
                    lemma_skip_skip(data@, i as int, 16);
                    lemma_skip_skip(data@, i as int, 20);
                    lemma_skip_skip(data@, i as int, 24);
                }
                let max_health = match read_i32(data, i + 4) {
                    Some((v, _)) => v,
                    None => { return None; },
                };
                let mana = match read_i32(data, i + 8) {
                    Some((v, _)) => v,
                    None => { return None; },
                };
                let max_mana = match read_i32(data, i + 12) {
                    Some((v, _)) => v,
                    None => { return None; },
                };
                let strength = match read_i32(data, i + 16) {
                    Some((v, _)) => v,
                    None => { return None; },
                };
                let agility = match read_i32(data, i + 20) {
                    Some((v, _)) => v,
                    None => { return None; },
                };
                let intelligence = match read_i32(data, i + 24) {
                    Some((v, _)) => v,
                    None => { return None; },
                };
                Some((
                    PlayerStats {
                        health,
                        max_health,
                        mana,
                        max_mana,
                        strength,
                        agility,
                        intelligence,
                    },
                    i + 28,
                ))
            },
            None => None,
        }
    } else {
        proof {
            assert(data@.skip(i as int).len() < 28);
        }
        None
    }
}

// ---------------------------------------------------------------------
// Records.
// ---------------------------------------------------------------------

fn write_player_data(out: &mut Vec<u8>, d: &PlayerData)
    ensures
        final(out)@ == old(out)@ + enc_player_data(d@),
{
    write_u128(out, d.id);
    write_bytes(out, &d.name);
    write_u32(out, d.level);
    write_class(out, &d.class);
    write_transform(out, &d.transform);
    write_stats(out, &d.stats);
    proof {
        assert(out@ =~= old(out)@ + enc_player_data(d@));
    }
}

fn read_player_data(data: &[u8], i: usize) -> (r: Option<(PlayerData, usize)>)
    requires
        i <= data@.len(),
    ensures
        match r {
            Some((d, j)) => parse_player_data(data@.skip(i as int)) == Some((d@, j - i as int))
                && i < j <= data@.len(),
            None => parse_player_data(data@.skip(i as int)) is None,
        },
{
    match read_u128(data, i) {
        None => None,
        Some((id, j1)) => {
            proof {
                lemma_skip_skip(data@, i as int, j1 as int - i as int);
            }
            match read_bytes(data, j1) {
                None => None,
                Some((name, j2)) => {
                    proof {
                        lemma_skip_skip(data@, j1 as int, j2 as int - j1 as int);
                    }
                    match read_u32(data, j2) {
                        None => None,
                        Some((level, j3)) => {
                            proof {
                                lemma_skip_skip(data@, j2 as int, j3 as int - j2 as int);
                            }
                            match read_class(data, j3) {
                                None => None,
                                Some((class, j4)) => {
                                    proof {
                                        lemma_skip_skip(data@, j3 as int, j4 as int - j3 as int);
                                    }
                                    match read_transform(data, j4) {
                                        None => None,
                                        Some((transform, j5)) => {
                                            proof {
                                                lemma_skip_skip(
                                                    data@,
                                                    j4 as int,
                                                    j5 as int - j4 as int,
                                                );
                                            }
                                            match read_stats(data, j5) {
                                                None => None,
                                                Some((stats, j6)) => Some((
                                                    PlayerData {
                                                        id,
                                                        name,
                                                        level,
                                                        class,
                                                        transform,
                                                        stats,
                                                    },
                                                    j6,
                                                )),
                                            }
                                        },
                                    }
                                },
                            }
                        },
                    }
                },
            }
        },
    }
}

fn write_player_update(out: &mut Vec<u8>, u: &PlayerUpdate)
    ensures
        final(out)@ == old(out)@ + crate::wire::enc_player_update(u@),
{
    write_u128(out, u.player_id);
    write_transform(out, &u.transform);
    write_vec3(out, &u.velocity);
    write_opt_bytes(out, &u.animation);
    write_i32(out, u.health);
    proof {
        assert(out@ =~= old(out)@ + crate::wire::enc_player_update(u@));
    }
}

fn read_player_update(data: &[u8], i: usize) -> (r: Option<(PlayerUpdate, usize)>)
    requires
        i <= data@.len(),
    ensures
        match r {
            Some((u, j)) => crate::wire::parse_player_update(data@.skip(i as int)) == Some((
                u@,
                j - i as int,
            )) && i < j <= data@.len(),
            None => crate::wire::parse_player_update(data@.skip(i as int)) is None,
        },
{
    match read_u128(data, i) {
        None => None,
        Some((player_id, j1)) => {
            proof {
                lemma_skip_skip(data@, i as int, j1 as int - i as int);
            }
            match read_transform(data, j1) {
                None => None,
                Some((transform, j2)) => {
                    proof {
                        lemma_skip_skip(data@, j1 as int, j2 as int - j1 as int);
                    }
                    match read_vec3(data, j2) {
                        None => None,
                        Some((velocity, j3)) => {
                            proof {
                                lemma_skip_skip(data@, j2 as int, j3 as int - j2 as int);
                            }
                            match read_opt_bytes(data, j3) {
                                None => None,
                                Some((animation, j4)) => {
                                    proof {
                                        lemma_skip_skip(data@, j3 as int, j4 as int - j3 as int);
                                    }
                                    match read_i32(data, j4) {
                                        None => None,
                                        Some((health, j5)) => Some((
                                            PlayerUpdate {
                                                player_id,
                                                transform,
                                                velocity,
                                                animation,
                                                health,
                                            },
                                            j5,
                                        )),
                                    }
                                },
                            }
                        },
                    }
                },
            }
        },
    }
}

fn write_npc_update(out: &mut Vec<u8>, u: &NpcUpdate)
    ensures
        final(out)@ == old(out)@ + crate::wire::enc_npc_update(*u),
{
    write_u128(out, u.npc_id);
    write_transform(out, &u.transform);
    write_i32(out, u.health);
    proof {
        assert(out@ =~= old(out)@ + crate::wire::enc_npc_update(*u));
    }
}

fn read_npc_update(data: &[u8], i: usize) -> (r: Option<(NpcUpdate, usize)>)
    requires
        i <= data@.len(),
    ensures
        match r {
            Some((u, j)) => crate::wire::parse_npc_update(data@.skip(i as int)) == Some((
                u,
                j - i as int,
            )) && i < j <= data@.len(),
            None => crate::wire::parse_npc_update(data@.skip(i as int)) is None,
        },
{
    match read_u128(data, i) {
        None => None,
        Some((npc_id, j1)) => {
            proof {
                lemma_skip_skip(data@, i as int, j1 as int - i as int);
            }
            match read_transform(data, j1) {
                None => None,
                Some((transform, j2)) => {
                    proof {
                        lemma_skip_skip(data@, j1 as int, j2 as int - j1 as int);
                    }
                    match read_i32(data, j2) {
                        None => None,
                        Some((health, j3)) => Some((NpcUpdate { npc_id, transform, health }, j3)),
                    }
                },
            }
        },
    }
}

fn write_object_update(out: &mut Vec<u8>, u: &ObjectUpdate)
    ensures
        final(out)@ == old(out)@ + crate::wire::enc_object_update(u@),
{
    write_u128(out, u.object_id);
    write_transform(out, &u.transform);
    write_bytes(out, &u.state);
    proof {
        assert(out@ =~= old(out)@ + crate::wire::enc_object_update(u@));
    }
}

fn read_object_update(data: &[u8], i: usize) -> (r: Option<(ObjectUpdate, usize)>)
    requires
        i <= data@.len(),
    ensures
        match r {
            Some((u, j)) => crate::wire::parse_object_update(data@.skip(i as int)) == Some((
                u@,
                j - i as int,
            )) && i < j <= data@.len(),
            None => crate::wire::parse_object_update(data@.skip(i as int)) is None,
        },
{
    match read_u128(data, i) {
        None => None,
        Some((object_id, j1)) => {
            proof {
                lemma_skip_skip(data@, i as int, j1 as int - i as int);
            }
            match read_transform(data, j1) {
                None => None,
                Some((transform, j2)) => {
                    proof {
                        lemma_skip_skip(data@, j1 as int, j2 as int - j1 as int);
                    }
                    match read_bytes(data, j2) {
                        None => None,
                        Some((state, j3)) => Some((
                            ObjectUpdate { object_id, transform, state },
                            j3,
                        )),
                    }
                },
            }
        },
    }
}

// ---------------------------------------------------------------------
// Lists.
// ---------------------------------------------------------------------

proof fn lemma_enc_player_updates_push(l: Seq<PlayerUpdateV>, v: PlayerUpdateV)
    ensures
        crate::wire::enc_player_updates(l.push(v)) == crate::wire::enc_player_updates(l)
            + crate::wire::enc_player_update(v),
    decreases l.len(),
{
    if l.len() == 0 {
        assert(l.push(v)[0] == v);
        assert(l.push(v).drop_first() =~= l);
        assert(crate::wire::enc_player_updates(l.push(v)) == crate::wire::enc_player_update(v)
            + crate::wire::enc_player_updates(l));
        assert(crate::wire::enc_player_update(v) + crate::wire::enc_player_updates(l) =~= crate::wire::enc_player_updates(l)
            + crate::wire::enc_player_update(v));
    } else {
        assert(l.push(v)[0] == l[0]);
        assert(l.push(v).drop_first() =~= l.drop_first().push(v));
        lemma_enc_player_updates_push(l.drop_first(), v);
        assert(crate::wire::enc_player_update(l[0]) + (crate::wire::enc_player_updates(l.drop_first())
            + crate::wire::enc_player_update(v)) =~= (crate::wire::enc_player_update(l[0])
            + crate::wire::enc_player_updates(l.drop_first())) + crate::wire::enc_player_update(v));
    }
}

proof fn lemma_enc_npc_updates_push(l: Seq<NpcUpdate>, v: NpcUpdate)
    ensures
        crate::wire::enc_npc_updates(l.push(v)) == crate::wire::enc_npc_updates(l)
            + crate::wire::enc_npc_update(v),
    decreases l.len(),
{
    if l.len() == 0 {
        assert(l.push(v)[0] == v);
        assert(l.push(v).drop_first() =~= l);
        assert(crate::wire::enc_npc_updates(l.push(v)) == crate::wire::enc_npc_update(v)
            + crate::wire::enc_npc_updates(l));
        assert(crate::wire::enc_npc_update(v) + crate::wire::enc_npc_updates(l) =~= crate::wire::enc_npc_updates(l)
            + crate::wire::enc_npc_update(v));
    } else {
        assert(l.push(v)[0] == l[0]);
        assert(l.push(v).drop_first() =~= l.drop_first().push(v));
        lemma_enc_npc_updates_push(l.drop_first(), v);
        assert(crate::wire::enc_npc_update(l[0]) + (crate::wire::enc_npc_updates(l.drop_first())
            + crate::wire::enc_npc_update(v)) =~= (crate::wire::enc_npc_update(l[0])
            + crate::wire::enc_npc_updates(l.drop_first())) + crate::wire::enc_npc_update(v));
    }
}

proof fn lemma_enc_object_updates_push(l: Seq<ObjectUpdateV>, v: ObjectUpdateV)
    ensures
        crate::wire::enc_object_updates(l.push(v)) == crate::wire::enc_object_updates(l)
            + crate::wire::enc_object_update(v),
    decreases l.len(),
{
    if l.len() == 0 {
        assert(l.push(v)[0] == v);
        assert(l.push(v).drop_first() =~= l);
        assert(crate::wire::enc_object_updates(l.push(v)) == crate::wire::enc_object_update(v)
            + crate::wire::enc_object_updates(l));
        assert(crate::wire::enc_object_update(v) + crate::wire::enc_object_updates(l) =~= crate::wire::enc_object_updates(l)
            + crate::wire::enc_object_update(v));
    } else {
        assert(l.push(v)[0] == l[0]);
        assert(l.push(v).drop_first() =~= l.drop_first().push(v));
        lemma_enc_object_updates_push(l.drop_first(), v);
        assert(crate::wire::enc_object_update(l[0]) + (crate::wire::enc_object_updates(l.drop_first())
            + crate::wire::enc_object_update(v)) =~= (crate::wire::enc_object_update(l[0])
            + crate::wire::enc_object_updates(l.drop_first())) + crate::wire::enc_object_update(v));
    }
}

fn write_counted_players(out: &mut Vec<u8>, l: &Vec<PlayerUpdate>)
    ensures
        final(out)@ == old(out)@ + crate::wire::enc_counted_players(
            crate::protocol::player_update_views(l@),
        ),
{
    write_u64(out, l.len() as u64);
    let ghost base: Seq<u8> = out@;
    let ghost views = crate::protocol::player_update_views(l@);
    let n = l.len();
    let mut k: usize = 0;
    while k < n
        invariant
            k <= n,
            n == l@.len(),
            views == crate::protocol::player_update_views(l@),
            out@ == base + crate::wire::enc_player_updates(views.take(k as int)),
        decreases n - k,
    {
        write_player_update(out, &l[k]);
        proof {
            assert(views.take(k as int + 1) =~= views.take(k as int).push(l@[k as int]@));
            lemma_enc_player_updates_push(views.take(k as int), l@[k as int]@);
            assert(out@ =~= base + crate::wire::enc_player_updates(views.take(k as int + 1)));
        }
        k = k + 1;
    }
    proof {
        assert(views.take(n as int) =~= views);
        assert(out@ =~= old(out)@ + crate::wire::enc_counted_players(views));
    }
}

fn write_counted_npcs(out: &mut Vec<u8>, l: &Vec<NpcUpdate>)
    ensures
        final(out)@ == old(out)@ + crate::wire::enc_counted_npcs(l@),
{
    write_u64(out, l.len() as u64);
    let ghost base: Seq<u8> = out@;
    let n = l.len();
    let mut k: usize = 0;
    while k < n
        invariant
            k <= n,
            n == l@.len(),
            out@ == base + crate::wire::enc_npc_updates(l@.take(k as int)),
        decreases n - k,
    {
        write_npc_update(out, &l[k]);
        proof {
            assert(l@.take(k as int + 1) =~= l@.take(k as int).push(l@[k as int]));
            lemma_enc_npc_updates_push(l@.take(k as int), l@[k as int]);
            assert(out@ =~= base + crate::wire::enc_npc_updates(l@.take(k as int + 1)));
        }
        k = k + 1;
    }
    proof {
        assert(l@.take(n as int) =~= l@);
        assert(out@ =~= old(out)@ + crate::wire::enc_counted_npcs(l@));
    }
}

fn write_counted_objects(out: &mut Vec<u8>, l: &Vec<ObjectUpdate>)
    ensures
        final(out)@ == old(out)@ + crate::wire::enc_counted_objects(
            crate::protocol::object_update_views(l@),
        ),
{
    write_u64(out, l.len() as u64);
    let ghost base: Seq<u8> = out@;
    let ghost views = crate::protocol::object_update_views(l@);
    let n = l.len();
    let mut k: usize = 0;
    while k < n
        invariant
            k <= n,
            n == l@.len(),
            views == crate::protocol::object_update_views(l@),
            out@ == base + crate::wire::enc_object_updates(views.take(k as int)),
        decreases n - k,
    {
        write_object_update(out, &l[k]);
        proof {
            assert(views.take(k as int + 1) =~= views.take(k as int).push(l@[k as int]@));
            lemma_enc_object_updates_push(views.take(k as int), l@[k as int]@);
            assert(out@ =~= base + crate::wire::enc_object_updates(views.take(k as int + 1)));
        }
        k = k + 1;
    }
    proof {
        assert(views.take(n as int) =~= views);
        assert(out@ =~= old(out)@ + crate::wire::enc_counted_objects(views));
    }
}

/// The parse of a list suffix, shifted behind an already-parsed prefix.
pub open spec fn opt_prepend<T>(pre: Seq<T>, off: int, o: Option<(Seq<T>, int)>) -> Option<
    (Seq<T>, int),
> {
    match o {
        Some((l, c)) => Some((pre + l, off + c)),
        None => None,
    }
}

#[verifier::loop_isolation(false)]
fn read_counted_players(data: &[u8], i: usize) -> (r: Option<(Vec<PlayerUpdate>, usize)>)
    requires
        i <= data@.len(),
    ensures
        match r {
            Some((l, j)) => crate::wire::parse_counted_players(data@.skip(i as int)) == Some((
                crate::protocol::player_update_views(l@),
                j - i as int,
            )) && i < j <= data@.len(),
            None => crate::wire::parse_counted_players(data@.skip(i as int)) is None,
        },
{
    match read_u64(data, i) {
        None => None,
        Some((count, j0)) => {
            proof {
                lemma_skip_skip(data@, i as int, j0 as int - i as int);
            }
            let mut acc: Vec<PlayerUpdate> = Vec::new();
            let mut pos: usize = j0;
            let mut k: u64 = 0;
            while k < count
                invariant
                    k <= count,
                    j0 <= pos <= data@.len(),
                    acc@.len() == k,
                    crate::wire::parse_player_updates(data@.skip(j0 as int), count as int)
                        == opt_prepend(
                        crate::protocol::player_update_views(acc@),
                        pos as int - j0 as int,
                        crate::wire::parse_player_updates(
                            data@.skip(pos as int),
                            count as int - k as int,
                        ),
                    ),
                decreases count - k,
            {
                match read_player_update(data, pos) {
                    None => {
                        proof {
                            assert(crate::wire::parse_player_updates(
                                data@.skip(pos as int),
                                count as int - k as int,
                            ) is None);
                            assert(crate::wire::parse_player_updates(
                                data@.skip(j0 as int),
                                count as int,
                            ) is None);
                            assert(crate::wire::parse_counted_players(data@.skip(i as int)) is None);
                        }
                        return None;
                    },
                    Some((u, npos)) => {
                        proof {
                            lemma_skip_skip(data@, pos as int, npos as int - pos as int);
                            let views = crate::protocol::player_update_views(acc@);
                            assert(crate::protocol::player_update_views(acc@.push(u)) =~= views.push(
                                u@,
                            ));
                            assert forall|l2: Seq<PlayerUpdateV>|
                                views + (seq![u@] + l2) =~= views.push(u@) + l2 by {}
                        }
                        acc.push(u);
                        pos = npos;
                        k = k + 1;
                    },
                }
            }
            proof {
                assert(crate::protocol::player_update_views(acc@) + Seq::<PlayerUpdateV>::empty()
                    =~= crate::protocol::player_update_views(acc@));
            }
            Some((acc, pos))
        },
    }
}

#[verifier::loop_isolation(false)]
fn read_counted_npcs(data: &[u8], i: usize) -> (r: Option<(Vec<NpcUpdate>, usize)>)
    requires
        i <= data@.len(),
    ensures
        match r {
            Some((l, j)) => crate::wire::parse_counted_npcs(data@.skip(i as int)) == Some((
                l@,
                j - i as int,
            )) && i < j <= data@.len(),
            None => crate::wire::parse_counted_npcs(data@.skip(i as int)) is None,
        },
{
    match read_u64(data, i) {
        None => None,
        Some((count, j0)) => {
            proof {
                lemma_skip_skip(data@, i as int, j0 as int - i as int);
            }
            let mut acc: Vec<NpcUpdate> = Vec::new();
            let mut pos: usize = j0;
            let mut k: u64 = 0;
            while k < count
                invariant
                    k <= count,
                    j0 <= pos <= data@.len(),
                    acc@.len() == k,
                    crate::wire::parse_npc_updates(data@.skip(j0 as int), count as int)
                        == opt_prepend(
                        acc@,
                        pos as int - j0 as int,
                        crate::wire::parse_npc_updates(
                            data@.skip(pos as int),
                            count as int - k as int,
                        ),
                    ),
                decreases count - k,
            {
                match read_npc_update(data, pos) {
                    None => {
                        proof {
                            assert(crate::wire::parse_npc_updates(
                                data@.skip(pos as int),
                                count as int - k as int,
                            ) is None);
                            assert(crate::wire::parse_npc_updates(
                                data@.skip(j0 as int),
                                count as int,
                            ) is None);
                            assert(crate::wire::parse_counted_npcs(data@.skip(i as int)) is None);
                        }
                        return None;
                    },
                    Some((u, npos)) => {
                        proof {
                            lemma_skip_skip(data@, pos as int, npos as int - pos as int);
                            assert forall|l2: Seq<NpcUpdate>| acc@ + (seq![u] + l2) =~= acc@.push(u)
                                + l2 by {}
                        }
                        acc.push(u);
                        pos = npos;
                        k = k + 1;
                    },
                }
            }
            proof {
                assert(acc@ + Seq::<NpcUpdate>::empty() =~= acc@);
            }
            Some((acc, pos))
        },
    }
}

#[verifier::loop_isolation(false)]
fn read_counted_objects(data: &[u8], i: usize) -> (r: Option<(Vec<ObjectUpdate>, usize)>)
    requires
        i <= data@.len(),
    ensures
        match r {
            Some((l, j)) => crate::wire::parse_counted_objects(data@.skip(i as int)) == Some((
                crate::protocol::object_update_views(l@),
                j - i as int,
            )) && i < j <= data@.len(),
            None => crate::wire::parse_counted_objects(data@.skip(i as int)) is None,
        },
{
    match read_u64(data, i) {
        None => None,
        Some((count, j0)) => {
            proof {
                lemma_skip_skip(data@, i as int, j0 as int - i as int);
            }
            let mut acc: Vec<ObjectUpdate> = Vec::new();
            let mut pos: usize = j0;
            let mut k: u64 = 0;
            while k < count
                invariant
                    k <= count,
                    j0 <= pos <= data@.len(),
                    acc@.len() == k,
                    crate::wire::parse_object_updates(data@.skip(j0 as int), count as int)
                        == opt_prepend(
                        crate::protocol::object_update_views(acc@),
                        pos as int - j0 as int,
                        crate::wire::parse_object_updates(
                            data@.skip(pos as int),
                            count as int - k as int,
                        ),
                    ),
                decreases count - k,
            {
                match read_object_update(data, pos) {
                    None => {
                        proof {
                            assert(crate::wire::parse_object_updates(
                                data@.skip(pos as int),
                                count as int - k as int,
                            ) is None);
                            assert(crate::wire::parse_object_updates(
                                data@.skip(j0 as int),
                                count as int,
                            ) is None);
                            assert(crate::wire::parse_counted_objects(data@.skip(i as int)) is None);
                        }
                        return None;
                    },
                    Some((u, npos)) => {
                        proof {
                            lemma_skip_skip(data@, pos as int, npos as int - pos as int);
                            let views = crate::protocol::object_update_views(acc@);
                            assert(crate::protocol::object_update_views(acc@.push(u)) =~= views.push(
                                u@,
                            ));
                            assert forall|l2: Seq<ObjectUpdateV>|
                                views + (seq![u@] + l2) =~= views.push(u@) + l2 by {}
                        }
                        acc.push(u);
                        pos = npos;
                        k = k + 1;
                    },
                }
            }
            proof {
                assert(crate::protocol::object_update_views(acc@) + Seq::<ObjectUpdateV>::empty()
                    =~= crate::protocol::object_update_views(acc@));
            }
            Some((acc, pos))
        },
    }
}

// ---------------------------------------------------------------------
// Whole frames.
// ---------------------------------------------------------------------

/// Encodes one client message as a frame.
pub fn encode_client_message(m: &ClientMessage) -> (r: Vec<u8>)
    ensures
        r@ == crate::wire::enc_client(m@),
{
    let mut out: Vec<u8> = Vec::new();
    match m {
        ClientMessage::Login { username, auth_token } => {
            write_u32(&mut out, crate::wire::TAG_LOGIN);
            write_bytes(&mut out, username);
            write_bytes(&mut out, auth_token);
        },
        ClientMessage::PlayerMove { transform, velocity, timestamp } => {
            write_u32(&mut out, crate::wire::TAG_PLAYER_MOVE);
            write_transform(&mut out, transform);
            write_vec3(&mut out, velocity);
            write_u64(&mut out, *timestamp);
        },
        ClientMessage::PlayerAction { action_type, target_id, direction } => {
            write_u32(&mut out, crate::wire::TAG_PLAYER_ACTION);
            write_action(&mut out, action_type);
            write_opt_u128(&mut out, target_id);
            write_opt_vec3(&mut out, direction);
        },
        ClientMessage::ChatMessage { channel, message, target_id } => {
            write_u32(&mut out, crate::wire::TAG_CHAT_MESSAGE);
            write_channel(&mut out, channel);
            write_bytes(&mut out, message);
            write_opt_u128(&mut out, target_id);
        },
        ClientMessage::UseItem { item_id, target_id } => {
            write_u32(&mut out, crate::wire::TAG_USE_ITEM);
            write_u128(&mut out, *item_id);
            write_opt_u128(&mut out, target_id);
        },
        ClientMessage::Attack { target_id, ability_id } => {
            write_u32(&mut out, crate::wire::TAG_ATTACK);
            write_u128(&mut out, *target_id);
            write_u32(&mut out, *ability_id);
        },
        ClientMessage::Heartbeat => {
            write_u32(&mut out, crate::wire::TAG_HEARTBEAT);
        },
    }
    proof {
        assert(out@ =~= crate::wire::enc_client(m@));
    }
    out
}

/// Encodes one server message as a frame.
pub fn encode_server_message(m: &ServerMessage) -> (r: Vec<u8>)
    ensures
        r@ == crate::wire::enc_server(m@),
{
    let mut out: Vec<u8> = Vec::new();
    match m {
        ServerMessage::LoginSuccess { player_id, username } => {
            write_u32(&mut out, crate::wire::TAG_LOGIN_SUCCESS);
            write_u128(&mut out, *player_id);
            write_bytes(&mut out, username);
        },
        ServerMessage::LoginError { reason } => {
            write_u32(&mut out, crate::wire::TAG_LOGIN_ERROR);
            write_bytes(&mut out, reason);
        },
        ServerMessage::PlayerUpdate { player_id, transform } => {
            write_u32(&mut out, crate::wire::TAG_PLAYER_UPDATE);
            write_u128(&mut out, *player_id);
            write_transform(&mut out, transform);
        },
        ServerMessage::WorldState { players, npcs, objects, timestamp } => {
            write_u32(&mut out, crate::wire::TAG_WORLD_STATE);
            write_counted_players(&mut out, players);
            write_counted_npcs(&mut out, npcs);
            write_counted_objects(&mut out, objects);
            write_u64(&mut out, *timestamp);
        },
        ServerMessage::PlayerJoined { player_data } => {
            write_u32(&mut out, crate::wire::TAG_PLAYER_JOINED);
            write_player_data(&mut out, player_data);
        },
        ServerMessage::PlayerLeft { player_id } => {
            write_u32(&mut out, crate::wire::TAG_PLAYER_LEFT);
            write_u128(&mut out, *player_id);
        },
        ServerMessage::PlayerTransformUpdate { player_id, transform, velocity } => {
            write_u32(&mut out, crate::wire::TAG_PLAYER_TRANSFORM_UPDATE);
            write_u128(&mut out, *player_id);
            write_transform(&mut out, transform);
            write_vec3(&mut out, velocity);
        },
        ServerMessage::ChatMessage { channel, message, from_player } => {
            write_u32(&mut out, crate::wire::TAG_SERVER_CHAT_MESSAGE);
            write_channel(&mut out, channel);
            write_bytes(&mut out, message);
            write_bytes(&mut out, from_player);
        },
        ServerMessage::ChatError { reason } => {
            write_u32(&mut out, crate::wire::TAG_CHAT_ERROR);
            write_bytes(&mut out, reason);
        },
        ServerMessage::CombatEvent { source_id, target_id, damage, ability_id } => {
            write_u32(&mut out, crate::wire::TAG_COMBAT_EVENT);
            write_u128(&mut out, *source_id);
            write_u128(&mut out, *target_id);
            write_i32(&mut out, *damage);
            write_u32(&mut out, *ability_id);
        },
        ServerMessage::HeartbeatResponse { server_time } => {
            write_u32(&mut out, crate::wire::TAG_HEARTBEAT_RESPONSE);
            write_u64(&mut out, *server_time);
        },
    }
    proof {
        assert(out@ =~= crate::wire::enc_server(m@));
    }
    out
}

/// Decodes one frame as a client message.  Succeeds exactly when the
/// frame is the encoding of a message, and then returns that message.
#[verifier::loop_isolation(false)]
#[verifier::spinoff_prover]
#[verifier::rlimit(100)]
pub fn decode_client_message(data: &[u8]) -> (r: Option<ClientMessage>)
    ensures
        match r {
            Some(m) => crate::wire::spec_decode_client(data@) == Some(m@),
            None => crate::wire::spec_decode_client(data@) is None,
        },
{
    proof {
        assert(data@.skip(0) =~= data@);
    }
    let n = data.len();
    match read_u32(data, 0) {
        None => None,
        Some((tag, j0)) => {
            if tag == crate::wire::TAG_LOGIN {
                match read_bytes(data, j0) {
                    None => None,
                    Some((username, j1)) => {
                        proof {
                            lemma_skip_skip(data@, j0 as int, j1 as int - j0 as int);
                        }
                        match read_bytes(data, j1) {
                            None => None,
                            Some((auth_token, j2)) => {
                                if j2 == n {
                                    Some(ClientMessage::Login { username, auth_token })
                                } else {
                                    None
                                }
                            },
                        }
                    },
                }
            } else if tag == crate::wire::TAG_PLAYER_MOVE {
                match read_transform(data, j0) {
                    None => None,
                    Some((transform, j1)) => {
                        proof {
                            lemma_skip_skip(data@, j0 as int, j1 as int - j0 as int);
                        }
                        match read_vec3(data, j1) {
                            None => None,
                            Some((velocity, j2)) => {
                                proof {
                                    lemma_skip_skip(data@, j1 as int, j2 as int - j1 as int);
                                }
                                match read_u64(data, j2) {
                                    None => None,
                                    Some((timestamp, j3)) => {
                                        if j3 == n {
                                            Some(ClientMessage::PlayerMove {
                                                transform,
                                                velocity,
                                                timestamp,
                                            })
                                        } else {
                                            None
                                        }
                                    },
                                }
                            },
                        }
                    },
                }
            } else if tag == crate::wire::TAG_PLAYER_ACTION {
                match read_action(data, j0) {
                    None => None,
                    Some((action_type, j1)) => {
                        proof {
                            lemma_skip_skip(data@, j0 as int, j1 as int - j0 as int);
                        }
                        match read_opt_u128(data, j1) {
                            None => None,
                            Some((target_id, j2)) => {
                                proof {
                                    lemma_skip_skip(data@, j1 as int, j2 as int - j1 as int);
                                }
                                match read_opt_vec3(data, j2) {
                                    None => None,
                                    Some((direction, j3)) => {
                                        if j3 == n {
                                            Some(ClientMessage::PlayerAction {
                                                action_type,
                                                target_id,
                                                direction,
                                            })
                                        } else {
                                            None
                                        }
                                    },
                                }
                            },
                        }
                    },
                }
            } else if tag == crate::wire::TAG_CHAT_MESSAGE {
                match read_channel(data, j0) {
                    None => None,
                    Some((channel, j1)) => {
                        proof {
                            lemma_skip_skip(data@, j0 as int, j1 as int - j0 as int);
                        }
                        match read_bytes(data, j1) {
                            None => None,
                            Some((message, j2)) => {
                                proof {
                                    lemma_skip_skip(data@, j1 as int, j2 as int - j1 as int);
                                }
                                match read_opt_u128(data, j2) {
                                    None => None,
                                    Some((target_id, j3)) => {
                                        if j3 == n {
                                            Some(ClientMessage::ChatMessage {
                                                channel,
                                                message,
                                                target_id,
                                            })
                                        } else {
                                            None
                                        }
                                    },
                                }
                            },
                        }
                    },
                }
            } else if tag == crate::wire::TAG_USE_ITEM {
                match read_u128(data, j0) {
                    None => None,
                    Some((item_id, j1)) => {
                        proof {
                            lemma_skip_skip(data@, j0 as int, j1 as int - j0 as int);
                        }
                        match read_opt_u128(data, j1) {
                            None => None,
                            Some((target_id, j2)) => {
                                if j2 == n {
                                    Some(ClientMessage::UseItem { item_id, target_id })
                                } else {
                                    None
                                }
                            },
                        }
                    },
                }
            } else if tag == crate::wire::TAG_ATTACK {
                match read_u128(data, j0) {
                    None => None,
                    Some((target_id, j1)) => {
                        proof {
                            lemma_skip_skip(data@, j0 as int, j1 as int - j0 as int);
                        }
                        match read_u32(data, j1) {
                            None => None,
                            Some((ability_id, j2)) => {
                                if j2 == n {
                                    Some(ClientMessage::Attack { target_id, ability_id })
                                } else {
                                    None
                                }
                            },
                        }
                    },
                }
            } else if tag == crate::wire::TAG_HEARTBEAT {
                if j0 == n {
                    Some(ClientMessage::Heartbeat)
                } else {
                    None
                }
            } else {
                None
            }
        },
    }
}

/// Decodes one frame as a server message.  Succeeds exactly when the
/// frame is the encoding of a message, and then returns that message.
#[verifier::loop_isolation(false)]
#[verifier::spinoff_prover]
#[verifier::rlimit(100)]
pub fn decode_server_message(data: &[u8]) -> (r: Option<ServerMessage>)
    ensures
        match r {
            Some(m) => crate::wire::spec_decode_server(data@) == Some(m@),
            None => crate::wire::spec_decode_server(data@) is None,
        },
{
    proof {
        assert(data@.skip(0) =~= data@);
    }
    let n = data.len();
    match read_u32(data, 0) {
        None => None,
        Some((tag, j0)) => {
            if tag == crate::wire::TAG_LOGIN_SUCCESS {
                match read_u128(data, j0) {
                    None => None,
                    Some((player_id, j1)) => {
                        proof {
                            lemma_skip_skip(data@, j0 as int, j1 as int - j0 as int);
                        }
                        match read_bytes(data, j1) {
                            None => None,
                            Some((username, j2)) => {
                                if j2 == n {
                                    Some(ServerMessage::LoginSuccess { player_id, username })
                                } else {
                                    None
                                }
                            },
                        }
                    },
                }
            } else if tag == crate::wire::TAG_LOGIN_ERROR {
                match read_bytes(data, j0) {
                    None => None,
                    Some((reason, j1)) => {
                        if j1 == n {
                            Some(ServerMessage::LoginError { reason })
                        } else {
                            None
                        }
                    },
                }
            } else if tag == crate::wire::TAG_PLAYER_UPDATE {
                match read_u128(data, j0) {
                    None => None,
                    Some((player_id, j1)) => {
                        proof {
                            lemma_skip_skip(data@, j0 as int, j1 as int - j0 as int);
                        }
                        match read_transform(data, j1) {
                            None => None,
                            Some((transform, j2)) => {
                                if j2 == n {
                                    Some(ServerMessage::PlayerUpdate { player_id, transform })
                                } else {
                                    None
                                }
                            },
                        }
                    },
                }
            } else if tag == crate::wire::TAG_WORLD_STATE {
                match read_counted_players(data, j0) {
                    None => None,
                    Some((players, j1)) => {
                        proof {
                            lemma_skip_skip(data@, j0 as int, j1 as int - j0 as int);
                        }
                        match read_counted_npcs(data, j1) {
                            None => None,
                            Some((npcs, j2)) => {
                                proof {
                                    lemma_skip_skip(data@, j1 as int, j2 as int - j1 as int);
                                }
                                match read_counted_objects(data, j2) {
                                    None => None,
                                    Some((objects, j3)) => {
                                        proof {
                                            lemma_skip_skip(
                                                data@,
                                                j2 as int,
                                                j3 as int - j2 as int,
                                            );
                                        }
                                        match read_u64(data, j3) {
                                            None => None,
                                            Some((timestamp, j4)) => {
                                                if j4 == n {
                                                    Some(ServerMessage::WorldState {
                                                        players,
                                                        npcs,
                                                        objects,
                                                        timestamp,
                                                    })
                                                } else {
                                                    None
                                                }
                                            },
                                        }
                                    },
                                }
                            },
                        }
                    },
                }
            } else if tag == crate::wire::TAG_PLAYER_JOINED {
                match read_player_data(data, j0) {
                    None => None,
                    Some((player_data, j1)) => {
                        if j1 == n {
                            Some(ServerMessage::PlayerJoined { player_data })
                        } else {
                            None
                        }
                    },
                }
            } else if tag == crate::wire::TAG_PLAYER_LEFT {
                match read_u128(data, j0) {
                    None => None,
                    Some((player_id, j1)) => {
                        if j1 == n {
                            Some(ServerMessage::PlayerLeft { player_id })
                        } else {
                            None
                        }
                    },
                }
            } else if tag == crate::wire::TAG_PLAYER_TRANSFORM_UPDATE {
                match read_u128(data, j0) {
                    None => None,
                    Some((player_id, j1)) => {
                        proof {
                            lemma_skip_skip(data@, j0 as int, j1 as int - j0 as int);
                        }
                        match read_transform(data, j1) {
                            None => None,
                            Some((transform, j2)) => {
                                proof {
                                    lemma_skip_skip(data@, j1 as int, j2 as int - j1 as int);
                                }
                                match read_vec3(data, j2) {
                                    None => None,
                                    Some((velocity, j3)) => {
                                        if j3 == n {
                                            Some(ServerMessage::PlayerTransformUpdate {
                                                player_id,
                                                transform,
                                                velocity,
                                            })
                                        } else {
                                            None
                                        }
                                    },
                                }
                            },
                        }
                    },
                }
            } else if tag == crate::wire::TAG_SERVER_CHAT_MESSAGE {
                match read_channel(data, j0) {
                    None => None,
                    Some((channel, j1)) => {
                        proof {
                            lemma_skip_skip(data@, j0 as int, j1 as int - j0 as int);
                        }
                        match read_bytes(data, j1) {
                            None => None,
                            Some((message, j2)) => {
                                proof {
                                    lemma_skip_skip(data@, j1 as int, j2 as int - j1 as int);
                                }
                                match read_bytes(data, j2) {
                                    None => None,
                                    Some((from_player, j3)) => {
                                        if j3 == n {
                                            Some(ServerMessage::ChatMessage {
                                                channel,
                                                message,
                                                from_player,
                                            })
                                        } else {
                                            None
                                        }
                                    },
                                }
                            },
                        }
                    },
                }
            } else if tag == crate::wire::TAG_CHAT_ERROR {
                match read_bytes(data, j0) {
                    None => None,
                    Some((reason, j1)) => {
                        if j1 == n {
                            Some(ServerMessage::ChatError { reason })
                        } else {
                            None
                        }
                    },
                }
            } else if tag == crate::wire::TAG_COMBAT_EVENT {
                match read_u128(data, j0) {
                    None => None,
                    Some((source_id, j1)) => {
                        proof {
                            lemma_skip_skip(data@, j0 as int, j1 as int - j0 as int);
                        }
                        match read_u128(data, j1) {
                            None => None,
                            Some((target_id, j2)) => {
                                proof {
                                    lemma_skip_skip(data@, j1 as int, j2 as int - j1 as int);
                                }
                                match read_i32(data, j2) {
                                    None => None,
                                    Some((damage, j3)) => {
                                        proof {
                                            lemma_skip_skip(
                                                data@,
                                                j2 as int,
                                                j3 as int - j2 as int,
                                            );
                                        }
                                        match read_u32(data, j3) {
                                            None => None,
                                            Some((ability_id, j4)) => {
                                                if j4 == n {
                                                    Some(ServerMessage::CombatEvent {
                                                        source_id,
                                                        target_id,
                                                        damage,
                                                        ability_id,
                                                    })
                                                } else {
                                                    None
                                                }
                                            },
                                        }
                                    },
                                }
                            },
                        }
                    },
                }
            } else if tag == crate::wire::TAG_HEARTBEAT_RESPONSE {
                match read_u64(data, j0) {
                    None => None,
                    Some((server_time, j1)) => {
                        if j1 == n {
                            Some(ServerMessage::HeartbeatResponse { server_time })
                        } else {
                            None
                        }
                    },
                }
            } else {
                None
            }
        },
    }
}

} // verus!
