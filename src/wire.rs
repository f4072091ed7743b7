use vstd::prelude::*;

verus! {

/// Button state of the physical pointing device, as one snapshot.
#[derive(Clone, Copy, Debug, PartialEq, Eq, Structural)]
pub struct MouseSnapshot {
    pub left: bool,
    pub right: bool,
    pub middle: bool,
    pub side4: bool,
    pub side5: bool,
}

/// One report for the virtual pointer device: a relative movement and the buttons.
#[derive(Clone, Copy, Debug, PartialEq, Eq, Structural)]
pub struct MovementCommand {
    pub dx: i16,
    pub dy: i16,
    pub buttons: MouseSnapshot,
}

/// Length of a movement datagram: two little-endian signed 16-bit fields.
pub const DATAGRAM_LEN: usize = 4;

/// Length of a state frame: five button flags and two little-endian signed 16-bit fields.
pub const STATE_FRAME_LEN: usize = 9;

/// The signed 16-bit value whose little-endian bytes are `lo`, `hi`.
pub open spec fn le_i16(lo: u8, hi: u8) -> int {
    let u = lo as int + 256 * hi as int;
    if u >= 0x8000 { u - 0x10000 } else { u }
}

/// The two's-complement bit pattern of `x`, as an unsigned value.
pub open spec fn bits_of(x: i16) -> int {
    if x < 0 { x as int + 0x10000 } else { x as int }
}

/// Low byte of the little-endian encoding of `x`.
pub open spec fn lo_byte(x: i16) -> int {
    bits_of(x) % 256
}

/// High byte of the little-endian encoding of `x`.
pub open spec fn hi_byte(x: i16) -> int {
    bits_of(x) / 256
}

pub open spec fn flag(b: bool) -> u8 {
    if b { 1u8 } else { 0u8 }
}

/// The nine bytes sent to the remote peer for buttons `s` and movement `(dx, dy)`.
pub open spec fn state_frame_spec(s: MouseSnapshot, dx: i16, dy: i16) -> Seq<u8> {
    seq![
        flag(s.left),
        flag(s.right),
        flag(s.middle),
        flag(s.side4),
        flag(s.side5),
        lo_byte(dx) as u8,
        hi_byte(dx) as u8,
        lo_byte(dy) as u8,
        hi_byte(dy) as u8,
    ]
}

/// Whether the buttons that the remote peer tracks for edges differ.
pub open spec fn edge_changed(last: MouseSnapshot, now: MouseSnapshot) -> bool {
    last.left != now.left || last.right != now.right
}

/// Decodes a little-endian signed 16-bit value.
pub fn decode_i16(lo: u8, hi: u8) -> (r: i16)
    ensures
        r as int == le_i16(lo, hi),
{
    let u: u32 = lo as u32 + 256 * hi as u32;
    if u >= 0x8000 {
        (u as i32 - 0x10000) as i16
    } else {
        u as i16
    }
}

/// Encodes a signed 16-bit value as its two little-endian bytes.
pub fn encode_i16(x: i16) -> (r: (u8, u8))
    ensures
        r.0 as int == lo_byte(x),
        r.1 as int == hi_byte(x),
        le_i16(r.0, r.1) == x as int,
{
    let u: u32 = if x < 0 {
        (x as i32 + 0x10000) as u32
    } else {
        x as u32
    };
    ((u % 256) as u8, (u / 256) as u8)
}

/// Decodes a movement datagram into `(dx, dy)`; `None` unless it holds exactly four bytes.
pub fn decode_datagram(data: &[u8]) -> (r: Option<(i16, i16)>)
    ensures
        data@.len() == DATAGRAM_LEN <==> r is Some,
        r matches Some((dx, dy)) ==> dx as int == le_i16(data@[0], data@[1]) && dy as int
            == le_i16(data@[2], data@[3]),
{
    if data.len() != DATAGRAM_LEN {
        return None;
    }
    Some((decode_i16(data[0], data[1]), decode_i16(data[2], data[3])))
}

/// Decides what the local forwarding server does with one datagram received while the
/// device shows `buttons`: a four-byte datagram is forwarded, with the current buttons,
/// exactly when the aim (right) button is held; anything else is dropped.
pub fn forward_datagram(data: &[u8], buttons: MouseSnapshot) -> (r: Option<MovementCommand>)
    ensures
        r is Some <==> (data@.len() == DATAGRAM_LEN && buttons.right),
        r matches Some(c) ==> c.dx as int == le_i16(data@[0], data@[1]) && c.dy as int == le_i16(
            data@[2],
            data@[3],
        ) && c.buttons == buttons,
{
    if !buttons.right {
        return None;
    }
    match decode_datagram(data) {
        Some((dx, dy)) => Some(MovementCommand { dx, dy, buttons }),
        None => None,
    }
}

/// The nine-byte state frame for buttons `s` and movement `(dx, dy)`.
pub fn encode_state_frame(s: MouseSnapshot, dx: i16, dy: i16) -> (r: Vec<u8>)
    ensures
        r@ == state_frame_spec(s, dx, dy),
        r@.len() == STATE_FRAME_LEN,
{
    let (dx_lo, dx_hi) = encode_i16(dx);
    let (dy_lo, dy_hi) = encode_i16(dy);
    let r = vec![
        if s.left { 1u8 } else { 0u8 },
        if s.right { 1u8 } else { 0u8 },
        if s.middle { 1u8 } else { 0u8 },
        if s.side4 { 1u8 } else { 0u8 },
        if s.side5 { 1u8 } else { 0u8 },
        dx_lo,
        dx_hi,
        dy_lo,
        dy_hi,
    ];
    assert(r@ =~= state_frame_spec(s, dx, dy));
    r
}

/// One iteration of the state sender. `last` is the snapshot of the previous iteration,
/// `now` the current one, `movement` the delta taken from the device's queue, if any.
/// A delta is always sent with the current buttons; without one, a frame with zero
/// movement is sent only when the left or right button changed; otherwise nothing.
pub fn state_sender_step(last: MouseSnapshot, now: MouseSnapshot, movement: Option<(i16, i16)>) -> (r:
    Option<Vec<u8>>)
    ensures
        r is Some <==> (movement is Some || edge_changed(last, now)),
        r matches Some(f) ==> f@ == match movement {
            Some((dx, dy)) => state_frame_spec(now, dx, dy),
            None => state_frame_spec(now, 0, 0),
        },
{
    match movement {
        Some((dx, dy)) => Some(encode_state_frame(now, dx, dy)),
        None => {
            if last.left != now.left || last.right != now.right {
                Some(encode_state_frame(now, 0, 0))
            } else {
                None
            }
        },
    }
}

} // verus!
