use vstd::prelude::*;

verus! {

pub const START_MASK: u8 = 0x01;
pub const A_MASK: u8 = 0x02;
pub const B_MASK: u8 = 0x04;
pub const X_MASK: u8 = 0x08;
pub const Y_MASK: u8 = 0x10;
pub const Z_MASK: u8 = 0x20;
pub const UP_MASK: u8 = 0x40;
pub const DOWN_MASK: u8 = 0x80;
pub const LEFT_MASK: u8 = 0x01;
pub const RIGHT_MASK: u8 = 0x02;
pub const L_MASK: u8 = 0x04;
pub const R_MASK: u8 = 0x08;
pub const CHANGE_DISC_MASK: u8 = 0x10;
pub const RESET_MASK: u8 = 0x20;
pub const CONTROLLER_CONNECTED_MASK: u8 = 0x40;
pub const RESERVED_MASK: u8 = 0x80;

/// Length of one frame record in the binary form.
pub const FRAME_LEN: usize = 8;

/// One sampled controller input.
#[derive(Clone, Copy, Debug, PartialEq, Eq, Structural)]
pub struct ControllerFrame {
    pub start: bool,
    pub a: bool,
    pub b: bool,
    pub x: bool,
    pub y: bool,
    pub z: bool,
    pub up: bool,
    pub down: bool,
    pub left: bool,
    pub right: bool,
    pub l: bool,
    pub r: bool,
    pub change_disc: bool,
    pub reset: bool,
    pub controller_connected: bool,
    pub reserved: bool,
    pub l_pressure: u8,
    pub r_pressure: u8,
    pub analog_x: u8,
    pub analog_y: u8,
    pub c_x: u8,
    pub c_y: u8,
}

/// The first flag byte of a frame record: start, A, B, X, Y, Z, up, down
/// from the least significant bit up.
#[verifier::opaque]
pub open spec fn first_flag_byte(f: ControllerFrame) -> u8 {
    (if f.start { START_MASK } else { 0u8 }) | (if f.a { A_MASK } else { 0u8 }) | (if f.b {
        B_MASK
    } else {
        0u8
    }) | (if f.x { X_MASK } else { 0u8 }) | (if f.y { Y_MASK } else { 0u8 }) | (if f.z {
        Z_MASK
    } else {
        0u8
    }) | (if f.up { UP_MASK } else { 0u8 }) | (if f.down { DOWN_MASK } else { 0u8 })
}

/// The second flag byte of a frame record: left, right, L, R, disc change,
/// reset, controller connected, reserved from the least significant bit up.
#[verifier::opaque]
pub open spec fn second_flag_byte(f: ControllerFrame) -> u8 {
    (if f.left { LEFT_MASK } else { 0u8 }) | (if f.right { RIGHT_MASK } else { 0u8 }) | (if f.l {
        L_MASK
    } else {
        0u8
    }) | (if f.r { R_MASK } else { 0u8 }) | (if f.change_disc { CHANGE_DISC_MASK } else { 0u8 })
        | (if f.reset { RESET_MASK } else { 0u8 }) | (if f.controller_connected {
        CONTROLLER_CONNECTED_MASK
    } else {
        0u8
    }) | (if f.reserved { RESERVED_MASK } else { 0u8 })
}

/// The 8-byte record of a frame: two flag bytes, then the six axes.
pub open spec fn frame_bytes(f: ControllerFrame) -> Seq<u8> {
    Seq::empty().push(first_flag_byte(f)).push(second_flag_byte(f)).push(f.l_pressure).push(
        f.r_pressure,
    ).push(f.analog_x).push(f.analog_y).push(f.c_x).push(f.c_y)
}

/// The frame that the record at `p` in `b` holds.
pub open spec fn frame_at(b: Seq<u8>, p: int) -> ControllerFrame {
    let b0 = b[p];
    let b1 = b[p + 1];
    ControllerFrame {
        start: b0 & START_MASK != 0,
        a: b0 & A_MASK != 0,
        b: b0 & B_MASK != 0,
        x: b0 & X_MASK != 0,
        y: b0 & Y_MASK != 0,
        z: b0 & Z_MASK != 0,
        up: b0 & UP_MASK != 0,
        down: b0 & DOWN_MASK != 0,
        left: b1 & LEFT_MASK != 0,
        right: b1 & RIGHT_MASK != 0,
        l: b1 & L_MASK != 0,
        r: b1 & R_MASK != 0,
        change_disc: b1 & CHANGE_DISC_MASK != 0,
        reset: b1 & RESET_MASK != 0,
        controller_connected: b1 & CONTROLLER_CONNECTED_MASK != 0,
        reserved: b1 & RESERVED_MASK != 0,
        l_pressure: b[p + 2],
        r_pressure: b[p + 3],
        analog_x: b[p + 4],
        analog_y: b[p + 5],
        c_x: b[p + 6],
        c_y: b[p + 7],
    }
}

/// The records of a frame sequence, one after the other.
pub open spec fn frames_bytes(fs: Seq<ControllerFrame>) -> Seq<u8>
    decreases fs.len(),
{
    if fs.len() == 0 {
        seq![]
    } else {
        frames_bytes(fs.drop_last()) + frame_bytes(fs.last())
    }
}

/// Which bit of a flag byte holds which flag.
proof fn lemma_flag_bits(
    x: u8,
    b0: bool,
    b1: bool,
    b2: bool,
    b3: bool,
    b4: bool,
    b5: bool,
    b6: bool,
    b7: bool,
)
    requires
        x == (if b0 { 0x01u8 } else { 0u8 }) | (if b1 { 0x02u8 } else { 0u8 }) | (if b2 {
            0x04u8
        } else {
            0u8
        }) | (if b3 { 0x08u8 } else { 0u8 }) | (if b4 { 0x10u8 } else { 0u8 }) | (if b5 {
            0x20u8
        } else {
            0u8
        }) | (if b6 { 0x40u8 } else { 0u8 }) | (if b7 { 0x80u8 } else { 0u8 }),
    ensures
        (x & 0x01u8 != 0) == b0,
        (x & 0x02u8 != 0) == b1,
        (x & 0x04u8 != 0) == b2,
        (x & 0x08u8 != 0) == b3,
        (x & 0x10u8 != 0) == b4,
        (x & 0x20u8 != 0) == b5,
        (x & 0x40u8 != 0) == b6,
        (x & 0x80u8 != 0) == b7,
{
    assert({
        &&& (x & 0x01u8 != 0) == b0
        &&& (x & 0x02u8 != 0) == b1
        &&& (x & 0x04u8 != 0) == b2
        &&& (x & 0x08u8 != 0) == b3
        &&& (x & 0x10u8 != 0) == b4
        &&& (x & 0x20u8 != 0) == b5
        &&& (x & 0x40u8 != 0) == b6
        &&& (x & 0x80u8 != 0) == b7
    }) by (bit_vector)
        requires
            x == (if b0 { 0x01u8 } else { 0u8 }) | (if b1 { 0x02u8 } else { 0u8 }) | (if b2 {
                0x04u8
            } else {
                0u8
            }) | (if b3 { 0x08u8 } else { 0u8 }) | (if b4 { 0x10u8 } else { 0u8 }) | (if b5 {
                0x20u8
            } else {
                0u8
            }) | (if b6 { 0x40u8 } else { 0u8 }) | (if b7 { 0x80u8 } else { 0u8 }),
    ;
}

/// Reading back the record written for a frame gives the same frame.
pub proof fn lemma_frame_round_trip(f: ControllerFrame, b: Seq<u8>, p: int)
    requires
        0 <= p,
        p + 8 <= b.len(),
        b.subrange(p, p + 8) == frame_bytes(f),
    ensures
        frame_at(b, p) == f,
{
    let r = b.subrange(p, p + 8);
    assert(b[p] == r[0] && b[p + 1] == r[1] && b[p + 2] == r[2] && b[p + 3] == r[3]);
    assert(b[p + 4] == r[4] && b[p + 5] == r[5] && b[p + 6] == r[6] && b[p + 7] == r[7]);
    lemma_frame_from_bytes(f, b[p], b[p + 1]);
}

proof fn lemma_frame_from_bytes(f: ControllerFrame, b0: u8, b1: u8)
    requires
        b0 == first_flag_byte(f),
        b1 == second_flag_byte(f),
    ensures
        (b0 & START_MASK != 0) == f.start,
        (b0 & A_MASK != 0) == f.a,
        (b0 & B_MASK != 0) == f.b,
        (b0 & X_MASK != 0) == f.x,
        (b0 & Y_MASK != 0) == f.y,
        (b0 & Z_MASK != 0) == f.z,
        (b0 & UP_MASK != 0) == f.up,
        (b0 & DOWN_MASK != 0) == f.down,
        (b1 & LEFT_MASK != 0) == f.left,
        (b1 & RIGHT_MASK != 0) == f.right,
        (b1 & L_MASK != 0) == f.l,
        (b1 & R_MASK != 0) == f.r,
        (b1 & CHANGE_DISC_MASK != 0) == f.change_disc,
        (b1 & RESET_MASK != 0) == f.reset,
        (b1 & CONTROLLER_CONNECTED_MASK != 0) == f.controller_connected,
        (b1 & RESERVED_MASK != 0) == f.reserved,
{
    reveal(first_flag_byte);
    reveal(second_flag_byte);
    lemma_flag_bits(b0, f.start, f.a, f.b, f.x, f.y, f.z, f.up, f.down);
    lemma_flag_bits(
        b1,
        f.left,
        f.right,
        f.l,
        f.r,
        f.change_disc,
        f.reset,
        f.controller_connected,
        f.reserved,
    );
}

/// The records of `n` frames take `8 * n` bytes.
pub proof fn lemma_frames_len(fs: Seq<ControllerFrame>)
    ensures
        frames_bytes(fs).len() == 8 * fs.len(),
    decreases fs.len(),
{
    if fs.len() > 0 {
        lemma_frames_len(fs.drop_last());
    }
}

/// The record of frame `i` lies at `8 * i` in the records of a sequence.
pub proof fn lemma_frame_in_frames(fs: Seq<ControllerFrame>, i: int)
    requires
        0 <= i < fs.len(),
    ensures
        8 * i + 8 <= frames_bytes(fs).len(),
        frames_bytes(fs).subrange(8 * i, 8 * i + 8) == frame_bytes(fs[i]),
    decreases fs.len(),
{
    let init = fs.drop_last();
    lemma_frames_len(fs);
    lemma_frames_len(init);
    let whole = frames_bytes(fs);
    if i == fs.len() - 1 {
        assert(whole.subrange(8 * i, 8 * i + 8) =~= frame_bytes(fs.last()));
    } else {
        lemma_frame_in_frames(init, i);
        assert(whole.subrange(8 * i, 8 * i + 8) =~= frames_bytes(init).subrange(8 * i, 8 * i + 8));
    }
}

impl ControllerFrame {
    /// Reads the 8-byte frame record at `pos`.
    pub fn read(bytes: &[u8], pos: usize) -> (r: ControllerFrame)
        requires
            pos + FRAME_LEN <= bytes@.len(),
        ensures
            r == frame_at(bytes@, pos as int),
    {
        let b0 = bytes[pos];
        let b1 = bytes[pos + 1];
        ControllerFrame {
            start: b0 & START_MASK != 0,
            a: b0 & A_MASK != 0,
            b: b0 & B_MASK != 0,
            x: b0 & X_MASK != 0,
            y: b0 & Y_MASK != 0,
            z: b0 & Z_MASK != 0,
            up: b0 & UP_MASK != 0,
            down: b0 & DOWN_MASK != 0,
            left: b1 & LEFT_MASK != 0,
            right: b1 & RIGHT_MASK != 0,
            l: b1 & L_MASK != 0,
            r: b1 & R_MASK != 0,
            change_disc: b1 & CHANGE_DISC_MASK != 0,
            reset: b1 & RESET_MASK != 0,
            controller_connected: b1 & CONTROLLER_CONNECTED_MASK != 0,
            reserved: b1 & RESERVED_MASK != 0,
            l_pressure: bytes[pos + 2],
            r_pressure: bytes[pos + 3],
            analog_x: bytes[pos + 4],
            analog_y: bytes[pos + 5],
            c_x: bytes[pos + 6],
            c_y: bytes[pos + 7],
        }
    }

    fn first_flag_byte(&self) -> (r: u8)
        ensures
            r == first_flag_byte(*self),
    {
        reveal(first_flag_byte);
        let r: u8 = (if self.start { START_MASK } else { 0u8 }) | (if self.a {
            A_MASK
        } else {
            0u8
        }) | (if self.b { B_MASK } else { 0u8 }) | (if self.x { X_MASK } else { 0u8 }) | (if self.y {
            Y_MASK
        } else {
            0u8
        }) | (if self.z { Z_MASK } else { 0u8 }) | (if self.up { UP_MASK } else { 0u8 }) | (
        if self.down {
            DOWN_MASK
        } else {
            0u8
        });
        r
    }

    fn second_flag_byte(&self) -> (r: u8)
        ensures
            r == second_flag_byte(*self),
    {
        reveal(second_flag_byte);
        let r: u8 = (if self.left { LEFT_MASK } else { 0u8 }) | (if self.right {
            RIGHT_MASK
        } else {
            0u8
        }) | (if self.l { L_MASK } else { 0u8 }) | (if self.r { R_MASK } else { 0u8 }) | (
        if self.change_disc {
            CHANGE_DISC_MASK
        } else {
            0u8
        }) | (if self.reset { RESET_MASK } else { 0u8 }) | (if self.controller_connected {
            CONTROLLER_CONNECTED_MASK
        } else {
            0u8
        }) | (if self.reserved { RESERVED_MASK } else { 0u8 });
        r
    }

    /// Appends the frame's 8-byte record.
    #[verifier::rlimit(100)]
    pub fn write_to_dtm(&self, out: &mut Vec<u8>)
        ensures
            final(out)@ == old(out)@ + frame_bytes(*self),
    {
        let byte1 = self.first_flag_byte();
        let byte2 = self.second_flag_byte();
        let ghost start = out@;
        out.push(byte1);
        out.push(byte2);
        out.push(self.l_pressure);
        out.push(self.r_pressure);
        out.push(self.analog_x);
        out.push(self.analog_y);
        out.push(self.c_x);
        out.push(self.c_y);
        assert(out@ =~= start + frame_bytes(*self));
    }
}

} // verus!
