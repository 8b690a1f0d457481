use vstd::prelude::*;

use crate::error::{ControllerInputParseError, IntErrorKind};
use crate::frame::ControllerFrame;

verus! {

/// Whether `c` has the Unicode `White_Space` property, the separators of a
/// frame line.
pub open spec fn is_white(c: char) -> bool {
    let v = c as u32;
    ||| 0x09 <= v <= 0x0D
    ||| v == 0x20
    ||| v == 0x85
    ||| v == 0xA0
    ||| v == 0x1680
    ||| 0x2000 <= v <= 0x200A
    ||| v == 0x2028
    ||| v == 0x2029
    ||| v == 0x202F
    ||| v == 0x205F
    ||| v == 0x3000
}

fn is_white_char(c: char) -> (r: bool)
    ensures
        r == is_white(c),
{
    let v = c as u32;
    (0x09 <= v && v <= 0x0D) || v == 0x20 || v == 0x85 || v == 0xA0 || v == 0x1680 || (0x2000
        <= v && v <= 0x200A) || v == 0x2028 || v == 0x2029 || v == 0x202F || v == 0x205F || v
        == 0x3000
}

/// Scanning a line left to right: the tokens closed so far and the token
/// being read.
pub open spec fn scan(s: Seq<char>) -> (Seq<Seq<char>>, Seq<char>)
    decreases s.len(),
{
    if s.len() == 0 {
        (Seq::empty(), Seq::empty())
    } else {
        let (done, cur) = scan(s.drop_last());
        let c = s.last();
        if is_white(c) {
            if cur.len() > 0 {
                (done.push(cur), Seq::empty())
            } else {
                (done, cur)
            }
        } else {
            (done, cur.push(c))
        }
    }
}

/// The maximal runs of non-white characters of `s`, in order.
pub open spec fn tokens_of(s: Seq<char>) -> Seq<Seq<char>> {
    let (done, cur) = scan(s);
    if cur.len() > 0 {
        done.push(cur)
    } else {
        done
    }
}

/// The characters of each token.
pub open spec fn views(ts: Seq<Vec<char>>) -> Seq<Seq<char>> {
    ts.map_values(|t: Vec<char>| t@)
}

/// Splits a line into its whitespace-separated tokens.
pub fn tokenize(line: &str) -> (r: Vec<Vec<char>>)
    ensures
        views(r@) == tokens_of(line@),
{
    let mut done: Vec<Vec<char>> = Vec::new();
    let mut cur: Vec<char> = Vec::new();
    let ghost mut seen: Seq<char> = Seq::empty();
    for c in it: line.chars()
        invariant
            it.seq() == line@,
            seen == line@.take(it.index() as int),
            (views(done@), cur@) == scan(seen),
    {
        let ghost prefix = seen;
        proof {
            seen = seen.push(c);
            assert(seen.drop_last() =~= prefix);
        }
        if is_white_char(c) {
            if cur.len() > 0 {
                let ghost old_done = views(done@);
                done.push(cur);
                cur = Vec::new();
                assert(views(done@) =~= old_done.push(scan(prefix).1));
            }
        } else {
            cur.push(c);
        }
    }
    assert(seen =~= line@);
    if cur.len() > 0 {
        let ghost old_done = views(done@);
        done.push(cur);
        assert(views(done@) =~= old_done.push(scan(line@).1));
    }
    done
}

/// The one-character sequence `a`.
pub open spec fn chars1(a: char) -> Seq<char> {
    Seq::empty().push(a)
}

/// The two-character sequence `a b`.
pub open spec fn chars2(a: char, b: char) -> Seq<char> {
    Seq::empty().push(a).push(b)
}

/// The three-character sequence `a b c`.
pub open spec fn chars3(a: char, b: char, c: char) -> Seq<char> {
    Seq::empty().push(a).push(b).push(c)
}

/// The text code of flag `i` when it is `on`: for the twelve buttons an
/// upper-case code when pressed and its lower-case form when not; for the
/// four trailing flags (`CD`, `RST`, `CC`, `RSV`) the code when set and
/// nothing when clear.
pub open spec fn code(i: int, on: bool) -> Seq<char> {
    if i == 0 {
        if on { chars1('S') } else { chars1('s') }
    } else if i == 1 {
        if on { chars1('A') } else { chars1('a') }
    } else if i == 2 {
        if on { chars1('B') } else { chars1('b') }
    } else if i == 3 {
        if on { chars1('X') } else { chars1('x') }
    } else if i == 4 {
        if on { chars1('Y') } else { chars1('y') }
    } else if i == 5 {
        if on { chars1('Z') } else { chars1('z') }
    } else if i == 6 {
        if on { chars1('U') } else { chars1('u') }
    } else if i == 7 {
        if on { chars1('D') } else { chars1('d') }
    } else if i == 8 {
        if on { chars1('L') } else { chars1('l') }
    } else if i == 9 {
        if on { chars1('R') } else { chars1('r') }
    } else if i == 10 {
        if on { chars2('L', 'T') } else { chars2('l', 't') }
    } else if i == 11 {
        if on { chars2('R', 'T') } else { chars2('r', 't') }
    } else if !on {
        Seq::empty()
    } else if i == 12 {
        chars2('C', 'D')
    } else if i == 13 {
        chars3('R', 'S', 'T')
    } else if i == 14 {
        chars2('C', 'C')
    } else {
        chars3('R', 'S', 'V')
    }
}

/// The characters of `code(i, on)`, with their count.
fn code_chars(i: usize, on: bool) -> (r: (char, char, char, usize))
    requires
        i < 16,
    ensures
        r.3 <= 3,
        code(i as int, on) == (if r.3 == 0 {
            Seq::empty()
        } else if r.3 == 1 {
            chars1(r.0)
        } else if r.3 == 2 {
            chars2(r.0, r.1)
        } else {
            chars3(r.0, r.1, r.2)
        }),
{
    match i {
        0 => if on { ('S', ' ', ' ', 1) } else { ('s', ' ', ' ', 1) },
        1 => if on { ('A', ' ', ' ', 1) } else { ('a', ' ', ' ', 1) },
        2 => if on { ('B', ' ', ' ', 1) } else { ('b', ' ', ' ', 1) },
        3 => if on { ('X', ' ', ' ', 1) } else { ('x', ' ', ' ', 1) },
        4 => if on { ('Y', ' ', ' ', 1) } else { ('y', ' ', ' ', 1) },
        5 => if on { ('Z', ' ', ' ', 1) } else { ('z', ' ', ' ', 1) },
        6 => if on { ('U', ' ', ' ', 1) } else { ('u', ' ', ' ', 1) },
        7 => if on { ('D', ' ', ' ', 1) } else { ('d', ' ', ' ', 1) },
        8 => if on { ('L', ' ', ' ', 1) } else { ('l', ' ', ' ', 1) },
        9 => if on { ('R', ' ', ' ', 1) } else { ('r', ' ', ' ', 1) },
        10 => if on { ('L', 'T', ' ', 2) } else { ('l', 't', ' ', 2) },
        11 => if on { ('R', 'T', ' ', 2) } else { ('r', 't', ' ', 2) },
        _ => if !on {
            (' ', ' ', ' ', 0)
        } else if i == 12 {
            ('C', 'D', ' ', 2)
        } else if i == 13 {
            ('R', 'S', 'T', 3)
        } else if i == 14 {
            ('C', 'C', ' ', 2)
        } else {
            ('R', 'S', 'V', 3)
        },
    }
}

/// Whether the token `t` is `code(i, on)`.
fn is_code(t: &Vec<char>, i: usize, on: bool) -> (r: bool)
    requires
        i < 16,
    ensures
        r == (t@ == code(i as int, on)),
{
    let (a, b, c, n) = code_chars(i, on);
    let r = t.len() == n && (n < 1 || t[0] == a) && (n < 2 || t[1] == b) && (n < 3 || t[2] == c);
    proof {
        if r {
            if n == 0 {
                assert(t@ =~= Seq::<char>::empty());
            } else if n == 1 {
                assert(t@ =~= chars1(a));
            } else if n == 2 {
                assert(t@ =~= chars2(a, b));
            } else {
                assert(t@ =~= chars3(a, b, c));
            }
        } else if t@ == code(i as int, on) {
            if n >= 1 {
                assert(t@[0] == a);
            }
            if n >= 2 {
                assert(t@[1] == b);
            }
            if n >= 3 {
                assert(t@[2] == c);
            }
        }
    }
    r
}

/// Flag `i` of a frame, in the order of the two flag bytes: start, A, B, X,
/// Y, Z, up, down, left, right, L, R, disc change, reset, controller
/// connected, reserved.
pub open spec fn flag(f: ControllerFrame, i: int) -> bool {
    if i == 0 {
        f.start
    } else if i == 1 {
        f.a
    } else if i == 2 {
        f.b
    } else if i == 3 {
        f.x
    } else if i == 4 {
        f.y
    } else if i == 5 {
        f.z
    } else if i == 6 {
        f.up
    } else if i == 7 {
        f.down
    } else if i == 8 {
        f.left
    } else if i == 9 {
        f.right
    } else if i == 10 {
        f.l
    } else if i == 11 {
        f.r
    } else if i == 12 {
        f.change_disc
    } else if i == 13 {
        f.reset
    } else if i == 14 {
        f.controller_connected
    } else {
        f.reserved
    }
}

/// Axis `i` of a frame: left trigger, right trigger, stick X, stick Y,
/// c-stick X, c-stick Y.
pub open spec fn axis(f: ControllerFrame, i: int) -> u8 {
    if i == 0 {
        f.l_pressure
    } else if i == 1 {
        f.r_pressure
    } else if i == 2 {
        f.analog_x
    } else if i == 3 {
        f.analog_y
    } else if i == 4 {
        f.c_x
    } else {
        f.c_y
    }
}

/// The decimal digit character for `d < 10`.
pub open spec fn digit_char(d: int) -> char {
    if d == 0 {
        '0'
    } else if d == 1 {
        '1'
    } else if d == 2 {
        '2'
    } else if d == 3 {
        '3'
    } else if d == 4 {
        '4'
    } else if d == 5 {
        '5'
    } else if d == 6 {
        '6'
    } else if d == 7 {
        '7'
    } else if d == 8 {
        '8'
    } else {
        '9'
    }
}

fn digit(d: u8) -> (c: char)
    requires
        d < 10,
    ensures
        c == digit_char(d as int),
{
    match d {
        0 => '0',
        1 => '1',
        2 => '2',
        3 => '3',
        4 => '4',
        5 => '5',
        6 => '6',
        7 => '7',
        8 => '8',
        _ => '9',
    }
}

/// The decimal digits of `v`, without leading zeros.
pub open spec fn dec(v: u8) -> Seq<char> {
    if v < 10 {
        chars1(digit_char(v as int))
    } else if v < 100 {
        chars2(digit_char(v as int / 10), digit_char(v as int % 10))
    } else {
        chars3(
            digit_char(v as int / 100),
            digit_char((v as int / 10) % 10),
            digit_char(v as int % 10),
        )
    }
}

/// `n` spaces.
pub open spec fn spaces(n: nat) -> Seq<char> {
    Seq::new(n, |i: int| ' ')
}

/// `v` in decimal, right-aligned in a field of three characters.
pub open spec fn pad3(v: u8) -> Seq<char> {
    spaces((3 - dec(v).len()) as nat) + dec(v)
}

/// The first `k` button codes, each followed by a space.
pub open spec fn buttons_text(f: ControllerFrame, k: nat) -> Seq<char>
    decreases k,
{
    if k == 0 {
        Seq::empty()
    } else {
        buttons_text(f, (k - 1) as nat) + code(k - 1, flag(f, k - 1)) + chars1(' ')
    }
}

/// The first `k` axes, each right-aligned in three characters, separated by
/// spaces.
pub open spec fn axes_text(f: ControllerFrame, k: nat) -> Seq<char>
    decreases k,
{
    if k == 0 {
        Seq::empty()
    } else if k == 1 {
        pad3(axis(f, 0))
    } else {
        axes_text(f, (k - 1) as nat) + chars1(' ') + pad3(axis(f, k - 1))
    }
}

/// The codes of the first `k` trailing flags that are set, each preceded by a
/// space.
pub open spec fn flags_text(f: ControllerFrame, k: nat) -> Seq<char>
    decreases k,
{
    if k == 0 {
        Seq::empty()
    } else {
        flags_text(f, (k - 1) as nat) + (if flag(f, 11 + k as int) {
            chars1(' ') + code(11 + k as int, true)
        } else {
            Seq::empty()
        })
    }
}

/// The text line of a frame, for example
/// `S a B x Y z U d L r LT rt   5  10 128 130   0 255 CD`.
pub open spec fn frame_text(f: ControllerFrame) -> Seq<char> {
    buttons_text(f, 12) + axes_text(f, 6) + flags_text(f, 4)
}

/// Whether `c` is an ASCII decimal digit.
pub open spec fn is_digit(c: char) -> bool {
    '0' <= c <= '9'
}

/// The value of the decimal digit `c`.
pub open spec fn digit_value(c: char) -> nat {
    (c as u32 - '0' as u32) as nat
}

/// Reading the digits of `t` from `i` on, with `acc` read so far: the first
/// non-digit, or the first digit that takes the value past 255, is an error.
pub open spec fn digits_value(t: Seq<char>, i: int, acc: nat) -> Result<nat, IntErrorKind>
    decreases t.len() - i,
{
    if i >= t.len() {
        Ok(acc)
    } else if !is_digit(t[i]) {
        Err(IntErrorKind::InvalidDigit)
    } else if acc * 10 + digit_value(t[i]) > 255 {
        Err(IntErrorKind::PosOverflow)
    } else {
        digits_value(t, i + 1, acc * 10 + digit_value(t[i]))
    }
}

/// What reading `t` as a decimal unsigned byte gives: an optional `+`, then
/// one or more digits, the value at most 255.
pub open spec fn parse_u8_spec(t: Seq<char>) -> Result<u8, IntErrorKind> {
    if t.len() == 0 {
        Err(IntErrorKind::Empty)
    } else if t[0] == '+' && t.len() == 1 {
        Err(IntErrorKind::InvalidDigit)
    } else {
        match digits_value(t, if t[0] == '+' { 1 } else { 0 }, 0) {
            Ok(v) => Ok(v as u8),
            Err(e) => Err(e),
        }
    }
}

/// Reads a token as a decimal unsigned byte.
pub fn parse_u8(t: &Vec<char>) -> (r: Result<u8, IntErrorKind>)
    ensures
        r == parse_u8_spec(t@),
{
    if t.len() == 0 {
        return Err(IntErrorKind::Empty);
    }
    if t[0] == '+' && t.len() == 1 {
        return Err(IntErrorKind::InvalidDigit);
    }
    let start: usize = if t[0] == '+' { 1 } else { 0 };
    let mut i = start;
    let mut acc: u32 = 0;
    while i < t.len()
        invariant
            start <= i <= t@.len(),
            t@.len() > 0,
            start == (if t@[0] == '+' { 1int } else { 0int }),
            !(t@[0] == '+' && t@.len() == 1),
            acc <= 255,
            digits_value(t@, start as int, 0) == digits_value(t@, i as int, acc as nat),
        decreases t@.len() - i,
    {
        let c = t[i];
        if !('0' <= c && c <= '9') {
            return Err(IntErrorKind::InvalidDigit);
        }
        let d = (c as u32) - ('0' as u32);
        assert(d == digit_value(t@[i as int]));
        if acc * 10 + d > 255 {
            return Err(IntErrorKind::PosOverflow);
        }
        acc = acc * 10 + d;
        i = i + 1;
    }
    Ok(acc as u8)
}

/// The first problem of a frame line's tokens from token `i` on among the
/// twelve buttons and six axes: a missing token, a button token that is not
/// its button's code, or an axis that is not a decimal byte.
pub open spec fn required_error(ts: Seq<Seq<char>>, i: int) -> Option<ControllerInputParseError>
    decreases 18 - i,
{
    if i >= 18 {
        None
    } else if i >= ts.len() {
        Some(ControllerInputParseError::MissingTokenError)
    } else if i < 12 && ts[i] != code(i, true) && ts[i] != code(i, false) {
        Some(ControllerInputParseError::InvalidButtonError)
    } else if i >= 12 && parse_u8_spec(ts[i]) is Err {
        Some(ControllerInputParseError::ParseIntError(parse_u8_spec(ts[i])->Err_0))
    } else {
        required_error(ts, i + 1)
    }
}

/// Whether `t` is the code of one of the four trailing flags.
pub open spec fn is_flag_code(t: Seq<char>) -> bool {
    t == code(12, true) || t == code(13, true) || t == code(14, true) || t == code(15, true)
}

/// Whether a token from `i` on is none of the four trailing flag codes.
pub open spec fn flags_error(ts: Seq<Seq<char>>, i: int) -> bool
    decreases ts.len() - i,
{
    if i >= ts.len() {
        false
    } else if !is_flag_code(ts[i]) {
        true
    } else {
        flags_error(ts, i + 1)
    }
}

proof fn lemma_flag_codes_distinct()
    ensures
        code(12, true) != code(13, true),
        code(12, true) != code(14, true),
        code(12, true) != code(15, true),
        code(13, true) != code(14, true),
        code(13, true) != code(15, true),
        code(14, true) != code(15, true),
{
    assert(code(12, true).len() == 2 && code(13, true).len() == 3);
    assert(code(14, true).len() == 2 && code(15, true).len() == 3);
    assert(code(12, true)[1] != code(14, true)[1]);
    assert(code(13, true)[2] != code(15, true)[2]);
}

/// Whether `t` is among the tokens after the six axes and before token `i`.
pub open spec fn seen(ts: Seq<Seq<char>>, i: int, t: Seq<char>) -> bool {
    exists|k: int| 18 <= k < i && ts[k] == t
}

/// Whether `t` is among the tokens after the six axes.
pub open spec fn occurs(ts: Seq<Seq<char>>, t: Seq<char>) -> bool {
    seen(ts, ts.len() as int, t)
}

proof fn lemma_seen_step(ts: Seq<Seq<char>>, i: int, t: Seq<char>)
    requires
        18 <= i < ts.len(),
    ensures
        seen(ts, i + 1, t) == (seen(ts, i, t) || ts[i] == t),
{
    if ts[i] == t {
        assert(18 <= i < i + 1 && ts[i] == t);
    }
    if seen(ts, i + 1, t) && ts[i] != t {
        let k = choose|k: int| 18 <= k < i + 1 && ts[k] == t;
        assert(18 <= k < i && ts[k] == t);
    }
}

/// The frame that well-formed tokens stand for: buttons pressed where their
/// upper-case code stands, axes as read, trailing flags set where their code
/// occurs.
pub open spec fn frame_of(ts: Seq<Seq<char>>) -> ControllerFrame {
    ControllerFrame {
        start: ts[0] == code(0, true),
        a: ts[1] == code(1, true),
        b: ts[2] == code(2, true),
        x: ts[3] == code(3, true),
        y: ts[4] == code(4, true),
        z: ts[5] == code(5, true),
        up: ts[6] == code(6, true),
        down: ts[7] == code(7, true),
        left: ts[8] == code(8, true),
        right: ts[9] == code(9, true),
        l: ts[10] == code(10, true),
        r: ts[11] == code(11, true),
        change_disc: occurs(ts, code(12, true)),
        reset: occurs(ts, code(13, true)),
        controller_connected: occurs(ts, code(14, true)),
        reserved: occurs(ts, code(15, true)),
        l_pressure: parse_u8_spec(ts[12])->Ok_0,
        r_pressure: parse_u8_spec(ts[13])->Ok_0,
        analog_x: parse_u8_spec(ts[14])->Ok_0,
        analog_y: parse_u8_spec(ts[15])->Ok_0,
        c_x: parse_u8_spec(ts[16])->Ok_0,
        c_y: parse_u8_spec(ts[17])->Ok_0,
    }
}

/// What reading the tokens of a frame line gives.
pub open spec fn parse_tokens(ts: Seq<Seq<char>>) -> Result<ControllerFrame, ControllerInputParseError> {
    match required_error(ts, 0) {
        Some(e) => Err(e),
        None => if flags_error(ts, 18) {
            Err(ControllerInputParseError::UnknownFlagError)
        } else {
            Ok(frame_of(ts))
        },
    }
}

/// What reading a frame line gives.
pub open spec fn parse_line(s: Seq<char>) -> Result<ControllerFrame, ControllerInputParseError> {
    parse_tokens(tokens_of(s))
}

/// Relies on `String::from_iter`: the string holding the given characters in
/// order.
#[verifier::external_body]
pub(crate) fn string_of(chars: Vec<char>) -> (r: String)
    ensures
        r@ == chars@,
{
    String::from_iter(chars)
}

fn push_code(line: &mut Vec<char>, i: usize, on: bool)
    requires
        i < 16,
    ensures
        final(line)@ == old(line)@ + code(i as int, on),
{
    let ghost start = line@;
    let (a, b, c, n) = code_chars(i, on);
    if n >= 1 {
        line.push(a);
    }
    if n >= 2 {
        line.push(b);
    }
    if n >= 3 {
        line.push(c);
    }
    assert(line@ =~= start + code(i as int, on));
}

fn push_pad3(line: &mut Vec<char>, v: u8)
    ensures
        final(line)@ == old(line)@ + pad3(v),
{
    let ghost start = line@;
    if v < 10 {
        line.push(' ');
        line.push(' ');
        line.push(digit(v));
    } else if v < 100 {
        line.push(' ');
        line.push(digit(v / 10));
        line.push(digit(v % 10));
    } else {
        line.push(digit(v / 100));
        line.push(digit((v / 10) % 10));
        line.push(digit(v % 10));
    }
    assert(line@ =~= start + pad3(v));
}

impl ControllerFrame {
    /// Flag `i`, in the order of `flag`.
    pub fn flag(&self, i: usize) -> (r: bool)
        requires
            i < 16,
        ensures
            r == flag(*self, i as int),
    {
        match i {
            0 => self.start,
            1 => self.a,
            2 => self.b,
            3 => self.x,
            4 => self.y,
            5 => self.z,
            6 => self.up,
            7 => self.down,
            8 => self.left,
            9 => self.right,
            10 => self.l,
            11 => self.r,
            12 => self.change_disc,
            13 => self.reset,
            14 => self.controller_connected,
            _ => self.reserved,
        }
    }

    /// Axis `i`, in the order of `axis`.
    pub fn axis(&self, i: usize) -> (r: u8)
        requires
            i < 6,
        ensures
            r == axis(*self, i as int),
    {
        match i {
            0 => self.l_pressure,
            1 => self.r_pressure,
            2 => self.analog_x,
            3 => self.analog_y,
            4 => self.c_x,
            _ => self.c_y,
        }
    }

    /// The characters of the frame's text line.
    pub fn text_chars(&self) -> (r: Vec<char>)
        ensures
            r@ == frame_text(*self),
    {
        let mut line: Vec<char> = Vec::new();
        let mut i: usize = 0;
        while i < 12
            invariant
                i <= 12,
                line@ == buttons_text(*self, i as nat),
            decreases 12 - i,
        {
            push_code(&mut line, i, self.flag(i));
            line.push(' ');
            i = i + 1;
            assert(line@ =~= buttons_text(*self, i as nat));
        }
        let ghost buttons = line@;
        let mut k: usize = 0;
        while k < 6
            invariant
                k <= 6,
                buttons == buttons_text(*self, 12),
                line@ == buttons + axes_text(*self, k as nat),
            decreases 6 - k,
        {
            if k > 0 {
                line.push(' ');
            }
            push_pad3(&mut line, self.axis(k));
            k = k + 1;
            assert(line@ =~= buttons + axes_text(*self, k as nat));
        }
        let ghost before_flags = line@;
        let mut j: usize = 0;
        while j < 4
            invariant
                j <= 4,
                before_flags == buttons_text(*self, 12) + axes_text(*self, 6),
                line@ == before_flags + flags_text(*self, j as nat),
            decreases 4 - j,
        {
            if self.flag(12 + j) {
                line.push(' ');
                push_code(&mut line, 12 + j, true);
            }
            j = j + 1;
            assert(line@ =~= before_flags + flags_text(*self, j as nat));
        }
        line
    }

    /// The frame's text line: twelve button codes, six right-aligned axes,
    /// then the codes of the trailing flags that are set.
    pub fn to_text(&self) -> (r: String)
        ensures
            r@ == frame_text(*self),
    {
        string_of(self.text_chars())
    }

    /// Reads a frame from the tokens of its text line.
    pub fn from_tokens(ts: &Vec<Vec<char>>) -> (r: Result<ControllerFrame, ControllerInputParseError>)
        ensures
            r == parse_tokens(views(ts@)),
    {
        let ghost tv = views(ts@);
        let mut buttons: Vec<bool> = Vec::new();
        let mut i: usize = 0;
        while i < 12
            invariant
                i <= 12,
                i <= ts@.len(),
                tv == views(ts@),
                required_error(tv, 0) == required_error(tv, i as int),
                buttons@.len() == i,
                forall|j: int| 0 <= j < i ==> buttons@[j] == (tv[j] == code(j, true)),
            decreases 12 - i,
        {
            if i >= ts.len() {
                return Err(ControllerInputParseError::MissingTokenError);
            }
            if is_code(&ts[i], i, true) {
                buttons.push(true);
            } else if is_code(&ts[i], i, false) {
                buttons.push(false);
            } else {
                return Err(ControllerInputParseError::InvalidButtonError);
            }
            i = i + 1;
        }
        let mut axes: Vec<u8> = Vec::new();
        while i < 18
            invariant
                12 <= i <= 18,
                i <= ts@.len(),
                tv == views(ts@),
                required_error(tv, 0) == required_error(tv, i as int),
                buttons@.len() == 12,
                forall|j: int| 0 <= j < 12 ==> buttons@[j] == (tv[j] == code(j, true)),
                axes@.len() == i - 12,
                forall|j: int| 12 <= j < i ==> axes@[j - 12] == parse_u8_spec(tv[j])->Ok_0,
            decreases 18 - i,
        {
            if i >= ts.len() {
                return Err(ControllerInputParseError::MissingTokenError);
            }
            match parse_u8(&ts[i]) {
                Ok(v) => axes.push(v),
                Err(kind) => return Err(ControllerInputParseError::ParseIntError(kind)),
            }
            i = i + 1;
        }
        assert(required_error(tv, 18) is None);
        proof {
            lemma_flag_codes_distinct();
        }
        let mut change_disc = false;
        let mut reset = false;
        let mut controller_connected = false;
        let mut reserved = false;
        while i < ts.len()
            invariant
                18 <= i <= ts@.len(),
                tv == views(ts@),
                required_error(tv, 0) is None,
                flags_error(tv, 18) == flags_error(tv, i as int),
                change_disc == seen(tv, i as int, code(12, true)),
                reset == seen(tv, i as int, code(13, true)),
                controller_connected == seen(tv, i as int, code(14, true)),
                reserved == seen(tv, i as int, code(15, true)),
            decreases ts@.len() - i,
        {
            let ghost t = tv[i as int];
            proof {
                lemma_flag_codes_distinct();
                lemma_seen_step(tv, i as int, code(12, true));
                lemma_seen_step(tv, i as int, code(13, true));
                lemma_seen_step(tv, i as int, code(14, true));
                lemma_seen_step(tv, i as int, code(15, true));
            }
            if is_code(&ts[i], 12, true) {
                change_disc = true;
            } else if is_code(&ts[i], 13, true) {
                reset = true;
            } else if is_code(&ts[i], 14, true) {
                controller_connected = true;
            } else if is_code(&ts[i], 15, true) {
                reserved = true;
            } else {
                return Err(ControllerInputParseError::UnknownFlagError);
            }
            proof {
                assert(tv[i as int] == t);
            }
            i = i + 1;
        }
        Ok(
            ControllerFrame {
                start: buttons[0],
                a: buttons[1],
                b: buttons[2],
                x: buttons[3],
                y: buttons[4],
                z: buttons[5],
                up: buttons[6],
                down: buttons[7],
                left: buttons[8],
                right: buttons[9],
                l: buttons[10],
                r: buttons[11],
                change_disc,
                reset,
                controller_connected,
                reserved,
                l_pressure: axes[0],
                r_pressure: axes[1],
                analog_x: axes[2],
                analog_y: axes[3],
                c_x: axes[4],
                c_y: axes[5],
            },
        )
    }

    /// Reads a frame from its text line.
    pub fn from_text(s: &str) -> (r: Result<ControllerFrame, ControllerInputParseError>)
        ensures
            r == parse_line(s@),
    {
        Self::from_tokens(&tokenize(s))
    }
}

/// The closed tokens and the open token after a white character.
pub open spec fn flush(st: (Seq<Seq<char>>, Seq<char>)) -> Seq<Seq<char>> {
    if st.1.len() > 0 {
        st.0.push(st.1)
    } else {
        st.0
    }
}

/// Whether no character of `t` is white.
pub open spec fn no_white(t: Seq<char>) -> bool {
    forall|i: int| 0 <= i < t.len() ==> !is_white(#[trigger] t[i])
}

/// Whether every character of `w` is white.
pub open spec fn all_white(w: Seq<char>) -> bool {
    forall|i: int| 0 <= i < w.len() ==> is_white(#[trigger] w[i])
}

proof fn lemma_scan_token(a: Seq<char>, t: Seq<char>)
    requires
        no_white(t),
    ensures
        scan(a + t) == (scan(a).0, scan(a).1 + t),
    decreases t.len(),
{
    if t.len() == 0 {
        assert(a + t =~= a);
        assert(scan(a).1 + t =~= scan(a).1);
    } else {
        let t0 = t.drop_last();
        lemma_scan_token(a, t0);
        assert((a + t).drop_last() =~= a + t0);
        assert((a + t).last() == t.last());
        assert(scan(a).1 + t =~= (scan(a).1 + t0).push(t.last()));
    }
}

proof fn lemma_scan_white(a: Seq<char>, w: Seq<char>)
    requires
        w.len() > 0,
        all_white(w),
    ensures
        scan(a + w) == (flush(scan(a)), Seq::<char>::empty()),
    decreases w.len(),
{
    let w0 = w.drop_last();
    assert((a + w).drop_last() =~= a + w0);
    assert((a + w).last() == w.last());
    if w.len() == 1 {
        assert(a + w0 =~= a);
        if scan(a).1.len() == 0 {
            assert(scan(a).1 =~= Seq::<char>::empty());
        }
    } else {
        lemma_scan_white(a, w0);
    }
}

/// The tokens of a frame's text line.
pub open spec fn frame_tokens(f: ControllerFrame) -> Seq<Seq<char>> {
    Seq::new(12, |i: int| code(i, flag(f, i))) + Seq::new(6, |i: int| dec(axis(f, i)))
        + flag_tokens(f, 4)
}

/// The codes of the first `k` trailing flags that are set.
pub open spec fn flag_tokens(f: ControllerFrame, k: nat) -> Seq<Seq<char>>
    decreases k,
{
    if k == 0 {
        Seq::empty()
    } else {
        flag_tokens(f, (k - 1) as nat) + (if flag(f, 11 + k as int) {
            Seq::empty().push(code(11 + k as int, true))
        } else {
            Seq::empty()
        })
    }
}

proof fn lemma_code_token(i: int, on: bool)
    requires
        0 <= i < 16,
        i < 12 || on,
    ensures
        code(i, on).len() > 0,
        no_white(code(i, on)),
{
}

proof fn lemma_dec_token(v: u8)
    ensures
        1 <= dec(v).len() <= 3,
        no_white(dec(v)),
        all_white(spaces((3 - dec(v).len()) as nat)),
{
}

proof fn lemma_scan_buttons(f: ControllerFrame, k: nat)
    requires
        k <= 12,
    ensures
        scan(buttons_text(f, k)) == (Seq::new(k, |i: int| code(i, flag(f, i))), Seq::<char>::empty()),
    decreases k,
{
    if k > 0 {
        let k0 = (k - 1) as nat;
        lemma_scan_buttons(f, k0);
        let c = code(k0 as int, flag(f, k0 as int));
        lemma_code_token(k0 as int, flag(f, k0 as int));
        lemma_scan_token(buttons_text(f, k0), c);
        assert(Seq::<char>::empty() + c =~= c);
        assert(all_white(chars1(' ')));
        lemma_scan_white(buttons_text(f, k0) + c, chars1(' '));
        assert(Seq::new(k0, |i: int| code(i, flag(f, i))).push(c) =~= Seq::new(
            k,
            |i: int| code(i, flag(f, i)),
        ));
    }
}

proof fn lemma_scan_axes(f: ControllerFrame, p: Seq<char>, d: Seq<Seq<char>>, k: nat)
    requires
        1 <= k <= 6,
        scan(p) == (d, Seq::<char>::empty()),
    ensures
        scan(p + axes_text(f, k)) == (d + Seq::new((k - 1) as nat, |i: int| dec(axis(f, i))), dec(
            axis(f, k - 1),
        )),
    decreases k,
{
    let v = axis(f, k - 1);
    lemma_dec_token(v);
    let sp = spaces((3 - dec(v).len()) as nat);
    if k == 1 {
        assert(p + axes_text(f, k) =~= (p + sp) + dec(v));
        if sp.len() > 0 {
            lemma_scan_white(p, sp);
        } else {
            assert(p + sp =~= p);
        }
        lemma_scan_token(p + sp, dec(v));
        assert(Seq::<char>::empty() + dec(v) =~= dec(v));
        assert(d + Seq::new(0, |i: int| dec(axis(f, i))) =~= d);
    } else {
        let k0 = (k - 1) as nat;
        lemma_scan_axes(f, p, d, k0);
        let q = p + axes_text(f, k0);
        let w = chars1(' ') + sp;
        assert(all_white(w));
        assert(p + axes_text(f, k) =~= (q + w) + dec(v));
        lemma_scan_white(q, w);
        lemma_scan_token(q + w, dec(v));
        assert(Seq::<char>::empty() + dec(v) =~= dec(v));
        assert((d + Seq::new((k0 - 1) as nat, |i: int| dec(axis(f, i)))).push(dec(axis(f, k0 - 1)))
            =~= d + Seq::new(k0, |i: int| dec(axis(f, i))));
    }
}

proof fn lemma_scan_flags(f: ControllerFrame, p: Seq<char>, d: Seq<Seq<char>>, t: Seq<char>, k: nat)
    requires
        k <= 4,
        t.len() > 0,
        scan(p) == (d, t),
    ensures
        tokens_of(p + flags_text(f, k)) == d.push(t) + flag_tokens(f, k),
    decreases k,
{
    if k == 0 {
        assert(p + flags_text(f, k) =~= p);
        assert(d.push(t) + flag_tokens(f, k) =~= d.push(t));
    } else {
        let k0 = (k - 1) as nat;
        let j = 11 + k as int;
        lemma_scan_flags(f, p, d, t, k0);
        let q = p + flags_text(f, k0);
        if flag(f, j) {
            assert(p + flags_text(f, k) =~= (q + chars1(' ')) + code(j, true));
            assert(all_white(chars1(' ')));
            lemma_scan_white(q, chars1(' '));
            lemma_code_token(j, true);
            lemma_scan_token(q + chars1(' '), code(j, true));
            assert(Seq::<char>::empty() + code(j, true) =~= code(j, true));
            lemma_scan_flags_state(f, p, d, t, k0);
            assert(d.push(t) + flag_tokens(f, k) =~= (d.push(t) + flag_tokens(f, k0)).push(
                code(j, true),
            ));
        } else {
            assert(p + flags_text(f, k) =~= q);
            assert(d.push(t) + flag_tokens(f, k) =~= d.push(t) + flag_tokens(f, k0));
        }
    }
}

/// After the trailing flags the line still ends in a token.
proof fn lemma_scan_flags_state(f: ControllerFrame, p: Seq<char>, d: Seq<Seq<char>>, t: Seq<char>, k: nat)
    requires
        k <= 4,
        t.len() > 0,
        scan(p) == (d, t),
    ensures
        scan(p + flags_text(f, k)).1.len() > 0,
        flush(scan(p + flags_text(f, k))) == tokens_of(p + flags_text(f, k)),
    decreases k,
{
    if k == 0 {
        assert(p + flags_text(f, k) =~= p);
    } else {
        let k0 = (k - 1) as nat;
        let j = 11 + k as int;
        lemma_scan_flags_state(f, p, d, t, k0);
        let q = p + flags_text(f, k0);
        if flag(f, j) {
            assert(p + flags_text(f, k) =~= (q + chars1(' ')) + code(j, true));
            assert(all_white(chars1(' ')));
            lemma_scan_white(q, chars1(' '));
            lemma_code_token(j, true);
            lemma_scan_token(q + chars1(' '), code(j, true));
            assert(Seq::<char>::empty() + code(j, true) =~= code(j, true));
        } else {
            assert(p + flags_text(f, k) =~= q);
        }
    }
}

/// The text line of a frame splits into the frame's tokens.
pub proof fn lemma_frame_tokens(f: ControllerFrame)
    ensures
        tokens_of(frame_text(f)) == frame_tokens(f),
{
    let b = buttons_text(f, 12);
    let bt = Seq::new(12, |i: int| code(i, flag(f, i)));
    lemma_scan_buttons(f, 12);
    lemma_scan_axes(f, b, bt, 6);
    let p = b + axes_text(f, 6);
    let d = bt + Seq::new(5, |i: int| dec(axis(f, i)));
    lemma_dec_token(axis(f, 5));
    lemma_scan_flags(f, p, d, dec(axis(f, 5)), 4);
    assert(d.push(dec(axis(f, 5))) =~= bt + Seq::new(6, |i: int| dec(axis(f, i))));
}

proof fn lemma_dec_parse(v: u8)
    ensures
        parse_u8_spec(dec(v)) == Ok::<u8, IntErrorKind>(v),
{
    let t = dec(v);
    if v < 10 {
        assert(digits_value(t, 1, v as nat) == Ok::<nat, IntErrorKind>(v as nat));
    } else if v < 100 {
        let a = (v / 10) as nat;
        assert(digits_value(t, 2, (a * 10 + v % 10) as nat) == Ok::<nat, IntErrorKind>(
            (a * 10 + v % 10) as nat,
        ));
        assert(digits_value(t, 1, a) == digits_value(t, 2, (a * 10 + v % 10) as nat));
    } else {
        let a = (v / 100) as nat;
        let b = ((v / 10) % 10) as nat;
        let ab = a * 10 + b;
        assert(ab * 10 + v % 10 == v);
        assert(digits_value(t, 3, v as nat) == Ok::<nat, IntErrorKind>(v as nat));
        assert(digits_value(t, 2, ab) == digits_value(t, 3, v as nat));
        assert(digits_value(t, 1, a) == digits_value(t, 2, ab));
    }
}

proof fn lemma_required_none(f: ControllerFrame, i: int)
    requires
        0 <= i <= 18,
    ensures
        required_error(frame_tokens(f), i) is None,
    decreases 18 - i,
{
    let ts = frame_tokens(f);
    if i < 18 {
        lemma_required_none(f, i + 1);
        if i >= 12 {
            assert(ts[i] == dec(axis(f, i - 12)));
            lemma_dec_parse(axis(f, i - 12));
        } else {
            assert(ts[i] == code(i, flag(f, i)));
        }
    }
}

/// Whether `t` is among `ts`.
pub open spec fn among(ts: Seq<Seq<char>>, t: Seq<char>) -> bool {
    exists|m: int| 0 <= m < ts.len() && ts[m] == t
}

proof fn lemma_among_push(ts: Seq<Seq<char>>, x: Seq<char>, t: Seq<char>)
    ensures
        among(ts.push(x), t) == (among(ts, t) || x == t),
{
    let u = ts.push(x);
    if x == t {
        assert(u[ts.len() as int] == t);
    }
    if among(ts, t) {
        let m = choose|m: int| 0 <= m < ts.len() && ts[m] == t;
        assert(u[m] == t);
    }
    if among(u, t) && x != t {
        let m = choose|m: int| 0 <= m < u.len() && u[m] == t;
        assert(ts[m] == t);
    }
}

proof fn lemma_flag_tokens(f: ControllerFrame, k: nat, j: int)
    requires
        k <= 4,
        12 <= j < 16,
    ensures
        forall|m: int| 0 <= m < flag_tokens(f, k).len() ==> is_flag_code(#[trigger] flag_tokens(f, k)[m]),
        among(flag_tokens(f, k), code(j, true)) == (j < 12 + k && flag(f, j)),
    decreases k,
{
    lemma_flag_codes_distinct();
    if k > 0 {
        let k0 = (k - 1) as nat;
        lemma_flag_tokens(f, k0, j);
        let prev = flag_tokens(f, k0);
        let cur = flag_tokens(f, k);
        let jk = 11 + k as int;
        if flag(f, jk) {
            assert(cur =~= prev.push(code(jk, true)));
            lemma_among_push(prev, code(jk, true), code(j, true));
        } else {
            assert(cur =~= prev);
        }
    } else {
        assert(!among(flag_tokens(f, k), code(j, true)));
    }
}

proof fn lemma_occurs(f: ControllerFrame, j: int)
    requires
        12 <= j < 16,
    ensures
        occurs(frame_tokens(f), code(j, true)) == flag(f, j),
{
    let ts = frame_tokens(f);
    let ft = flag_tokens(f, 4);
    lemma_flag_tokens(f, 4, j);
    if occurs(ts, code(j, true)) {
        let k = choose|k: int| 18 <= k < ts.len() && ts[k] == code(j, true);
        assert(ft[k - 18] == code(j, true));
    }
    if flag(f, j) {
        let m = choose|m: int| 0 <= m < ft.len() && ft[m] == code(j, true);
        assert(ts[m + 18] == code(j, true));
    }
}

proof fn lemma_flags_ok(ts: Seq<Seq<char>>, i: int)
    requires
        18 <= i <= ts.len(),
        forall|m: int| 18 <= m < ts.len() ==> is_flag_code(#[trigger] ts[m]),
    ensures
        !flags_error(ts, i),
    decreases ts.len() - i,
{
    if i < ts.len() {
        lemma_flags_ok(ts, i + 1);
    }
}

proof fn lemma_button_token(f: ControllerFrame, i: int)
    requires
        0 <= i < 12,
    ensures
        (frame_tokens(f)[i] == code(i, true)) == flag(f, i),
{
    assert(frame_tokens(f)[i] == code(i, flag(f, i)));
    assert(code(i, true)[0] != code(i, false)[0]);
}

proof fn lemma_axis_token(f: ControllerFrame, i: int)
    requires
        12 <= i < 18,
    ensures
        parse_u8_spec(frame_tokens(f)[i]) == Ok::<u8, IntErrorKind>(axis(f, i - 12)),
{
    assert(frame_tokens(f)[i] == dec(axis(f, i - 12)));
    lemma_dec_parse(axis(f, i - 12));
}

proof fn lemma_frame_of_tokens(f: ControllerFrame)
    ensures
        frame_of(frame_tokens(f)) == f,
{
    lemma_button_token(f, 0);
    lemma_button_token(f, 1);
    lemma_button_token(f, 2);
    lemma_button_token(f, 3);
    lemma_button_token(f, 4);
    lemma_button_token(f, 5);
    lemma_button_token(f, 6);
    lemma_button_token(f, 7);
    lemma_button_token(f, 8);
    lemma_button_token(f, 9);
    lemma_button_token(f, 10);
    lemma_button_token(f, 11);
    lemma_axis_token(f, 12);
    lemma_axis_token(f, 13);
    lemma_axis_token(f, 14);
    lemma_axis_token(f, 15);
    lemma_axis_token(f, 16);
    lemma_axis_token(f, 17);
    lemma_occurs(f, 12);
    lemma_occurs(f, 13);
    lemma_occurs(f, 14);
    lemma_occurs(f, 15);
}

/// The tokens of a frame's text line read back as that frame.
pub proof fn lemma_parse_frame_tokens(f: ControllerFrame)
    ensures
        parse_tokens(frame_tokens(f)) == Ok::<ControllerFrame, ControllerInputParseError>(f),
{
    let ts = frame_tokens(f);
    let ft = flag_tokens(f, 4);
    lemma_required_none(f, 0);
    lemma_flag_tokens(f, 4, 12);
    assert forall|m: int| 18 <= m < ts.len() implies is_flag_code(#[trigger] ts[m]) by {
        assert(ts[m] == ft[m - 18]);
    }
    lemma_flags_ok(ts, 18);
    lemma_frame_of_tokens(f);
}

/// The text line of a frame reads back as that frame.
pub proof fn lemma_frame_text_round_trip(f: ControllerFrame)
    ensures
        parse_line(frame_text(f)) == Ok::<ControllerFrame, ControllerInputParseError>(f),
{
    lemma_frame_tokens(f);
    lemma_parse_frame_tokens(f);
}

/// Whether every character of `s` is printable ASCII, space included.
pub open spec fn printable(s: Seq<char>) -> bool {
    forall|i: int| 0 <= i < s.len() ==> ' ' <= #[trigger] s[i] <= '~'
}

proof fn lemma_printable_concat(a: Seq<char>, b: Seq<char>)
    requires
        printable(a),
        printable(b),
    ensures
        printable(a + b),
{
    assert forall|i: int| 0 <= i < (a + b).len() implies ' ' <= #[trigger] (a + b)[i] <= '~' by {
        if i < a.len() {
            assert((a + b)[i] == a[i]);
        } else {
            assert((a + b)[i] == b[i - a.len()]);
        }
    }
}

proof fn lemma_printable_buttons(f: ControllerFrame, k: nat)
    requires
        k <= 12,
    ensures
        printable(buttons_text(f, k)),
    decreases k,
{
    if k > 0 {
        let k0 = (k - 1) as nat;
        lemma_printable_buttons(f, k0);
        let c = code(k0 as int, flag(f, k0 as int));
        assert(printable(c));
        assert(printable(chars1(' ')));
        lemma_printable_concat(buttons_text(f, k0), c);
        lemma_printable_concat(buttons_text(f, k0) + c, chars1(' '));
    }
}

proof fn lemma_printable_pad3(v: u8)
    ensures
        printable(pad3(v)),
{
    assert(printable(dec(v)));
    assert(printable(spaces((3 - dec(v).len()) as nat)));
    lemma_printable_concat(spaces((3 - dec(v).len()) as nat), dec(v));
}

proof fn lemma_printable_axes(f: ControllerFrame, k: nat)
    requires
        k <= 6,
    ensures
        printable(axes_text(f, k)),
    decreases k,
{
    if k == 1 {
        lemma_printable_pad3(axis(f, 0));
    } else if k > 1 {
        let k0 = (k - 1) as nat;
        lemma_printable_axes(f, k0);
        lemma_printable_pad3(axis(f, k0 as int));
        assert(printable(chars1(' ')));
        lemma_printable_concat(axes_text(f, k0), chars1(' '));
        lemma_printable_concat(axes_text(f, k0) + chars1(' '), pad3(axis(f, k0 as int)));
    }
}

proof fn lemma_printable_flags(f: ControllerFrame, k: nat)
    requires
        k <= 4,
    ensures
        printable(flags_text(f, k)),
    decreases k,
{
    if k > 0 {
        let k0 = (k - 1) as nat;
        let j = 11 + k as int;
        lemma_printable_flags(f, k0);
        let piece = if flag(f, j) {
            chars1(' ') + code(j, true)
        } else {
            Seq::empty()
        };
        assert(printable(code(j, true)));
        assert(printable(chars1(' ')));
        lemma_printable_concat(chars1(' '), code(j, true));
        assert(printable(piece));
        lemma_printable_concat(flags_text(f, k0), piece);
    }
}

/// The text line of a frame is a non-empty run of printable ASCII characters.
pub proof fn lemma_frame_text_printable(f: ControllerFrame)
    ensures
        printable(frame_text(f)),
        frame_text(f).len() > 0,
{
    lemma_printable_buttons(f, 12);
    lemma_printable_axes(f, 6);
    lemma_printable_flags(f, 4);
    lemma_printable_concat(buttons_text(f, 12), axes_text(f, 6));
    lemma_printable_concat(buttons_text(f, 12) + axes_text(f, 6), flags_text(f, 4));
    lemma_dec_token(axis(f, 5));
    assert(axes_text(f, 6).len() > 0);
}

} // verus!
