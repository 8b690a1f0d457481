use vstd::prelude::*;
use vstd::utf8::{
    decode_utf8, encode_utf8, encode_utf8_decode_utf8, encode_utf8_valid_utf8, is_ascii_chars,
    is_ascii_chars_encode_utf8, valid_utf8,
};

use crate::dtm::{Dtm, DtmHeader, DtmModel, HeaderModel};
use crate::error::{ControllerInputParseError, Dtm2txtError};
use crate::frame::ControllerFrame;
use crate::encoder::text_encoder::{frames_text_bytes, frame_line_bytes, text_bytes};
use crate::text::{
    frame_text, lemma_frame_text_printable, lemma_frame_text_round_trip, parse_line, printable,
};

verus! {

/// The number of newline bytes in `s`.
pub open spec fn count_nl(s: Seq<u8>) -> nat
    decreases s.len(),
{
    if s.len() == 0 {
        0
    } else {
        count_nl(s.drop_last()) + if s.last() == 10 {
            1nat
        } else {
            0nat
        }
    }
}

/// A line without the carriage return that ended it.
pub open spec fn strip_cr(l: Seq<u8>) -> Seq<u8> {
    if l.len() > 0 && l.last() == 13 {
        l.drop_last()
    } else {
        l
    }
}

/// Splitting bytes at newlines, left to right: the lines ended so far (each
/// without its `\r\n` or `\n`) and the line being read.
pub open spec fn split_lines(s: Seq<u8>) -> (Seq<Seq<u8>>, Seq<u8>)
    decreases s.len(),
{
    if s.len() == 0 {
        (Seq::empty(), Seq::empty())
    } else {
        let (done, cur) = split_lines(s.drop_last());
        if s.last() == 10 {
            (done.push(strip_cr(cur)), Seq::empty())
        } else {
            (done, cur.push(s.last()))
        }
    }
}

/// The lines of `s`: a last line without a newline counts where it is not
/// empty.
pub open spec fn lines_of(s: Seq<u8>) -> Seq<Seq<u8>> {
    let (done, cur) = split_lines(s);
    if cur.len() > 0 {
        done.push(cur)
    } else {
        done
    }
}

/// What reading the frame line `l`, line number `n`, gives.
pub open spec fn line_frame(l: Seq<u8>, n: int) -> Result<ControllerFrame, Dtm2txtError> {
    if !valid_utf8(l) {
        Err(Dtm2txtError::FromUtf8Error)
    } else {
        match parse_line(decode_utf8(l)) {
            Ok(f) => Ok(f),
            Err(reason) => Err(Dtm2txtError::ControllerInputParseError { reason, line: n as u64 }),
        }
    }
}

/// Reading the lines `ls`, the first of them line number `n`: empty lines are
/// skipped, each other line is a frame, and the first failure ends the read.
pub open spec fn decode_lines(ls: Seq<Seq<u8>>, n: int) -> Result<Seq<ControllerFrame>, Dtm2txtError>
    decreases ls.len(),
{
    if ls.len() == 0 {
        Ok(Seq::empty())
    } else if ls[0].len() == 0 {
        decode_lines(ls.drop_first(), n + 1)
    } else {
        match line_frame(ls[0], n) {
            Err(e) => Err(e),
            Ok(f) => match decode_lines(ls.drop_first(), n + 1) {
                Ok(fs) => Ok(Seq::empty().push(f) + fs),
                Err(e) => Err(e),
            },
        }
    }
}

/// The lines after the first.
pub open spec fn after_first(ls: Seq<Seq<u8>>) -> Seq<Seq<u8>> {
    if ls.len() > 0 {
        ls.drop_first()
    } else {
        ls
    }
}

/// The frames of a text movie whose header object ends at `header_end`: the
/// rest of that line is skipped, and every later line is read, numbered from 1
/// over the whole text.
pub open spec fn text_frames(b: Seq<u8>, header_end: int) -> Result<Seq<ControllerFrame>, Dtm2txtError> {
    let ls = lines_of(b.subrange(header_end, b.len() as int));
    decode_lines(after_first(ls), count_nl(b.take(header_end)) + 2int)
}

/// `h` with its input count replaced by `n`.
pub open spec fn with_input_count(h: HeaderModel, n: u64) -> HeaderModel {
    HeaderModel { input_count: n, ..h }
}

fn set_input_count(h: DtmHeader, n: u64) -> (r: DtmHeader)
    ensures
        r@ == with_input_count(h@, n),
{
    let mut r = h;
    r.input_count = n;
    r
}

/// What decoding a text movie gives, given the header its header object holds:
/// that header with the input count replaced by the number of frame lines, and
/// those frames.
pub open spec fn decode_text_spec(b: Seq<u8>, header_end: int, h: HeaderModel) -> Result<
    DtmModel,
    Dtm2txtError,
> {
    match text_frames(b, header_end) {
        Ok(fs) => Ok(DtmModel { header: with_input_count(h, fs.len() as u64), frames: fs }),
        Err(e) => Err(e),
    }
}

/// `done` followed by what a read gave, or the read's failure.
pub open spec fn prepend(done: Seq<ControllerFrame>, r: Result<Seq<ControllerFrame>, Dtm2txtError>) -> Result<
    Seq<ControllerFrame>,
    Dtm2txtError,
> {
    match r {
        Ok(fs) => Ok(done + fs),
        Err(e) => Err(e),
    }
}

proof fn lemma_prepend_step(
    done: Seq<ControllerFrame>,
    f: ControllerFrame,
    r: Result<Seq<ControllerFrame>, Dtm2txtError>,
)
    ensures
        prepend(
            done,
            match r {
                Ok(fs) => Ok(Seq::empty().push(f) + fs),
                Err(e) => Err(e),
            },
        ) == prepend(done.push(f), r),
{
    match r {
        Ok(fs) => {
            assert(done + (Seq::empty().push(f) + fs) =~= done.push(f) + fs);
        },
        Err(e) => {},
    }
}

/// Counts the lines that the bytes it is shown end.
struct LineCountRead {
    lines: u64,
}

impl LineCountRead {
    fn new() -> (r: LineCountRead)
        ensures
            r.lines == 1,
    {
        // 1-indexed line numbers.
        LineCountRead { lines: 1 }
    }

    fn lines_read(&self) -> (r: u64)
        ensures
            r == self.lines,
    {
        self.lines
    }

    /// Takes in the bytes of `buf` before `end`.
    fn read(&mut self, buf: &[u8], end: usize)
        requires
            end <= buf@.len(),
            old(self).lines + end <= u64::MAX,
        ensures
            final(self).lines == old(self).lines + count_nl(buf@.take(end as int)),
            count_nl(buf@.take(end as int)) <= end,
    {
        let ghost start = self.lines;
        let mut i: usize = 0;
        while i < end
            invariant
                i <= end,
                end <= buf@.len(),
                start + end <= u64::MAX,
                count_nl(buf@.take(i as int)) <= i,
                self.lines == start + count_nl(buf@.take(i as int)),
            decreases end - i,
        {
            assert(buf@.take(i + 1).drop_last() =~= buf@.take(i as int));
            if buf[i] == 10 {
                self.lines = self.lines + 1;
            }
            i = i + 1;
        }
    }
}

/// Reads frame lines, knowing the number of the line it is at.
struct InputReader {
    line: u64,
}

impl InputReader {
    fn new() -> (r: InputReader)
        ensures
            r.line == 0,
    {
        InputReader { line: 0 }
    }

    /// Reads the frame on the current line.
    fn read_controller_input(&self, line: Vec<u8>) -> (r: Result<ControllerFrame, Dtm2txtError>)
        ensures
            r == line_frame(line@, self.line as int),
    {
        let text = match String::from_utf8(line) {
            Ok(s) => s,
            Err(_) => return Err(Dtm2txtError::FromUtf8Error),
        };
        match ControllerFrame::from_text(text.as_str()) {
            Ok(f) => Ok(f),
            Err(reason) => Err(Dtm2txtError::ControllerInputParseError { reason, line: self.line }),
        }
    }
}

/// The bytes of each line.
pub open spec fn line_views(ls: Seq<Vec<u8>>) -> Seq<Seq<u8>> {
    ls.map_values(|l: Vec<u8>| l@)
}

/// The lines of the bytes of `b` from `start` on.
fn split_into_lines(b: &[u8], start: usize) -> (r: Vec<Vec<u8>>)
    requires
        start <= b@.len(),
    ensures
        line_views(r@) == lines_of(b@.subrange(start as int, b@.len() as int)),
        r@.len() <= b@.len() - start + 1,
{
    let ghost body = b@.subrange(start as int, b@.len() as int);
    let mut done: Vec<Vec<u8>> = Vec::new();
    let mut cur: Vec<u8> = Vec::new();
    let mut i: usize = start;
    while i < b.len()
        invariant
            start <= i <= b@.len(),
            body == b@.subrange(start as int, b@.len() as int),
            (line_views(done@), cur@) == split_lines(body.take(i - start)),
            done@.len() <= i - start,
        decreases b@.len() - i,
    {
        assert(body.take(i - start + 1).drop_last() =~= body.take(i - start));
        assert(body.take(i - start + 1).last() == b@[i as int]);
        let ghost old_done = line_views(done@);
        if b[i] == 10 {
            let ghost c = cur@;
            if cur.len() > 0 && cur[cur.len() - 1] == 13 {
                cur.pop();
            }
            assert(cur@ == strip_cr(c));
            done.push(cur);
            cur = Vec::new();
            assert(line_views(done@) =~= old_done.push(strip_cr(c)));
        } else {
            cur.push(b[i]);
        }
        i = i + 1;
    }
    assert(body.take(i - start) =~= body);
    if cur.len() > 0 {
        let ghost old_done = line_views(done@);
        let ghost c = cur@;
        done.push(cur);
        assert(line_views(done@) =~= old_done.push(c));
    }
    done
}

/// Reads the frame lines among `lines` after the first, the first of them on
/// the reader's current line.
fn read_frame_lines(lines: &Vec<Vec<u8>>, start: InputReader) -> (r: Result<
    Vec<ControllerFrame>,
    Dtm2txtError,
>)
    requires
        start.line + lines@.len() <= u64::MAX,
    ensures
        match r {
            Ok(v) => decode_lines(after_first(line_views(lines@)), start.line as int) == Ok::<
                Seq<ControllerFrame>,
                Dtm2txtError,
            >(v@),
            Err(e) => decode_lines(after_first(line_views(lines@)), start.line as int) == Err::<
                Seq<ControllerFrame>,
                Dtm2txtError,
            >(e),
        },
{
    let mut input_reader = start;
    let ghost ls = line_views(lines@);
    let ghost n1 = input_reader.line as int;
    let mut controller_data: Vec<ControllerFrame> = Vec::new();
    if lines.len() == 0 {
        return Ok(controller_data);
    }
    let ghost todo = ls.drop_first();
    assert(todo =~= ls.subrange(1, ls.len() as int));
    let mut k: usize = 1;
    while k < lines.len()
        invariant
            1 <= k <= lines@.len(),
            ls == line_views(lines@),
            todo == ls.subrange(1, ls.len() as int),
            n1 + lines@.len() <= u64::MAX,
            n1 == start.line,
            input_reader.line == n1 + k - 1,
            decode_lines(todo, n1) == prepend(
                controller_data@,
                decode_lines(ls.subrange(k as int, ls.len() as int), n1 + k - 1),
            ),
        decreases lines@.len() - k,
    {
        let ghost rest = ls.subrange(k as int, ls.len() as int);
        assert(rest.drop_first() =~= ls.subrange(k + 1, ls.len() as int));
        let line = lines[k].clone();
        assert(line@ =~= ls[k as int]);
        assert(rest.len() > 0 && rest[0] == ls[k as int]);
        if line.len() > 0 {
            match input_reader.read_controller_input(line) {
                Ok(f) => {
                    proof {
                        lemma_prepend_step(
                            controller_data@,
                            f,
                            decode_lines(rest.drop_first(), n1 + k),
                        );
                    }
                    controller_data.push(f);
                },
                Err(e) => {
                    assert(decode_lines(rest, n1 + k - 1) == Err::<
                        Seq<ControllerFrame>,
                        Dtm2txtError,
                    >(e));
                    return Err(e);
                },
            }
        }
        input_reader.line = input_reader.line + 1;
        k = k + 1;
    }
    assert(ls.subrange(k as int, ls.len() as int) =~= Seq::<Seq<u8>>::empty());
    assert(controller_data@ + Seq::<ControllerFrame>::empty() =~= controller_data@);
    Ok(controller_data)
}

/// Decodes a movie from the bytes of its text form, once the header object at
/// its start has been read.
pub struct TextDecoder {
    inner: Vec<u8>,
    input_reader: InputReader,
}

impl View for TextDecoder {
    type V = Seq<u8>;

    closed spec fn view(&self) -> Seq<u8> {
        self.inner@
    }
}

impl TextDecoder {
    /// A decoder over the whole text form of a movie.
    pub fn new(inner: Vec<u8>) -> (r: TextDecoder)
        ensures
            r@ == inner@,
    {
        TextDecoder { inner, input_reader: InputReader::new() }
    }

    /// The frames of the lines after the one where the header object ends.
    fn read_frames(self, header_end: usize) -> (r: Result<Vec<ControllerFrame>, Dtm2txtError>)
        requires
            header_end <= self@.len(),
            self@.len() + 3 <= u64::MAX,
        ensures
            match r {
                Ok(v) => text_frames(self@, header_end as int) == Ok::<
                    Seq<ControllerFrame>,
                    Dtm2txtError,
                >(v@),
                Err(e) => text_frames(self@, header_end as int) == Err::<
                    Seq<ControllerFrame>,
                    Dtm2txtError,
                >(e),
            },
    {
        let mut counter = LineCountRead::new();
        counter.read(self.inner.as_slice(), header_end);
        let mut input_reader = self.input_reader;
        // The first line after the header object is the rest of its last line.
        input_reader.line = counter.lines_read() + 1;
        let lines = split_into_lines(self.inner.as_slice(), header_end);
        read_frame_lines(&lines, input_reader)
    }

    /// Decodes the frame lines that follow the header object, which ends at
    /// `header_end` and holds `header`. The rest of the header object's last
    /// line is skipped; each later line that is not empty is a frame, and an
    /// error in one carries its line number over the whole text. The header's
    /// input count becomes the number of frames read.
    pub fn decode(self, header: DtmHeader, header_end: usize) -> (r: Result<Dtm, Dtm2txtError>)
        requires
            header_end <= self@.len(),
            self@.len() + 3 <= u64::MAX,
        ensures
            match r {
                Ok(d) => text_frames(self@, header_end as int) == Ok::<
                    Seq<ControllerFrame>,
                    Dtm2txtError,
                >(d.controller_data@) && d.header@ == with_input_count(
                    header@,
                    d.controller_data@.len() as u64,
                ),
                Err(e) => text_frames(self@, header_end as int) == Err::<
                    Seq<ControllerFrame>,
                    Dtm2txtError,
                >(e),
            },
    {
        let controller_data = match self.read_frames(header_end) {
            Ok(v) => v,
            Err(e) => return Err(e),
        };
        let header = set_input_count(header, controller_data.len() as u64);
        Ok(Dtm { header, controller_data })
    }
}

impl Dtm {
    /// Decodes a movie from the bytes of its text form, given the header that
    /// its header object, ending at `header_end`, holds. See
    /// `TextDecoder::decode`.
    pub fn read_from_text(bytes: Vec<u8>, header: DtmHeader, header_end: usize) -> (r: Result<
        Dtm,
        Dtm2txtError,
    >)
        requires
            header_end <= bytes@.len(),
            bytes@.len() + 3 <= u64::MAX,
        ensures
            match r {
                Ok(d) => text_frames(bytes@, header_end as int) == Ok::<
                    Seq<ControllerFrame>,
                    Dtm2txtError,
                >(d.controller_data@) && d.header@ == with_input_count(
                    header@,
                    d.controller_data@.len() as u64,
                ),
                Err(e) => text_frames(bytes@, header_end as int) == Err::<
                    Seq<ControllerFrame>,
                    Dtm2txtError,
                >(e),
            },
    {
        TextDecoder::new(bytes).decode(header, header_end)
    }
}

/// Whether no byte of `t` is a newline.
pub open spec fn no_newline(t: Seq<u8>) -> bool {
    forall|i: int| 0 <= i < t.len() ==> #[trigger] t[i] != 10
}

proof fn lemma_split_text(a: Seq<u8>, t: Seq<u8>)
    requires
        no_newline(t),
    ensures
        split_lines(a + t) == (split_lines(a).0, split_lines(a).1 + t),
    decreases t.len(),
{
    if t.len() == 0 {
        assert(a + t =~= a);
        assert(split_lines(a).1 + t =~= split_lines(a).1);
    } else {
        let t0 = t.drop_last();
        lemma_split_text(a, t0);
        assert((a + t).drop_last() =~= a + t0);
        assert((a + t).last() == t.last());
        assert(split_lines(a).1 + t =~= (split_lines(a).1 + t0).push(t.last()));
    }
}

/// The bytes of a frame's text line, newline excluded: non-empty, valid
/// UTF-8 for the line's characters, with no newline and no final carriage
/// return.
proof fn lemma_line_bytes(f: ControllerFrame)
    ensures
        encode_utf8(frame_text(f)).len() > 0,
        no_newline(encode_utf8(frame_text(f))),
        encode_utf8(frame_text(f)).last() != 13,
        valid_utf8(encode_utf8(frame_text(f))),
        decode_utf8(encode_utf8(frame_text(f))) == frame_text(f),
{
    let cs = frame_text(f);
    lemma_frame_text_printable(f);
    assert(is_ascii_chars(cs));
    is_ascii_chars_encode_utf8(cs);
    let e = encode_utf8(cs);
    assert forall|i: int| 0 <= i < e.len() implies #[trigger] e[i] != 10 && e[i] != 13 by {
        assert(cs[i] as u8 == e[i]);
        assert(' ' <= cs[i] <= '~');
    }
    assert(e.last() == e[e.len() - 1]);
    encode_utf8_valid_utf8(cs);
    encode_utf8_decode_utf8(cs);
}

/// The bytes of each frame's text line, newline excluded.
pub open spec fn frame_lines(fs: Seq<ControllerFrame>) -> Seq<Seq<u8>> {
    Seq::new(fs.len(), |i: int| encode_utf8(frame_text(fs[i])))
}

proof fn lemma_split_frames(fs: Seq<ControllerFrame>)
    ensures
        split_lines(Seq::empty().push(10u8) + frames_text_bytes(fs)) == (Seq::empty().push(
            Seq::<u8>::empty(),
        ) + frame_lines(fs), Seq::<u8>::empty()),
    decreases fs.len(),
{
    let nl = Seq::<u8>::empty().push(10u8);
    if fs.len() == 0 {
        assert(nl + frames_text_bytes(fs) =~= nl);
        assert(nl.drop_last() =~= Seq::<u8>::empty());
        assert(Seq::empty().push(Seq::<u8>::empty()) + frame_lines(fs) =~= Seq::empty().push(
            Seq::<u8>::empty(),
        ));
        assert(strip_cr(Seq::<u8>::empty()) == Seq::<u8>::empty());
        assert(nl.last() == 10u8);
        assert(split_lines(Seq::<u8>::empty()) == (Seq::<Seq<u8>>::empty(), Seq::<u8>::empty()));
        assert(split_lines(nl) == (Seq::empty().push(Seq::<u8>::empty()), Seq::<u8>::empty()));
    } else {
        let fs0 = fs.drop_last();
        let f = fs.last();
        let e = encode_utf8(frame_text(f));
        lemma_split_frames(fs0);
        lemma_line_bytes(f);
        let x0 = nl + frames_text_bytes(fs0);
        let x = nl + frames_text_bytes(fs);
        assert(x =~= (x0 + e).push(10u8));
        lemma_split_text(x0, e);
        assert(Seq::<u8>::empty() + e =~= e);
        assert((x0 + e).push(10u8).drop_last() =~= x0 + e);
        assert((x0 + e).push(10u8).last() == 10);
        assert(strip_cr(e) == e);
        let d0 = Seq::empty().push(Seq::<u8>::empty()) + frame_lines(fs0);
        assert(split_lines(x0) == (d0, Seq::<u8>::empty()));
        assert(split_lines(x0 + e) == (d0, e));
        assert(split_lines((x0 + e).push(10u8)) == (d0.push(e), Seq::<u8>::empty()));
        assert(d0.push(e) =~= Seq::empty().push(Seq::<u8>::empty()) + frame_lines(fs));
        assert(split_lines(x) == (d0.push(e), Seq::<u8>::empty()));
    }
}

proof fn lemma_decode_frame_lines(fs: Seq<ControllerFrame>, n: int)
    ensures
        decode_lines(frame_lines(fs), n) == Ok::<Seq<ControllerFrame>, Dtm2txtError>(fs),
    decreases fs.len(),
{
    if fs.len() > 0 {
        let ls = frame_lines(fs);
        let rest = fs.drop_first();
        lemma_decode_frame_lines(rest, n + 1);
        assert(ls.drop_first() =~= frame_lines(rest));
        lemma_line_bytes(fs[0]);
        lemma_frame_text_round_trip(fs[0]);
        assert(ls[0] == encode_utf8(frame_text(fs[0])));
        assert(line_frame(ls[0], n) == Ok::<ControllerFrame, Dtm2txtError>(fs[0]));
        assert(Seq::empty().push(fs[0]) + rest =~= fs);
    } else {
        assert(frame_lines(fs) =~= Seq::<Seq<u8>>::empty());
        assert(fs =~= Seq::<ControllerFrame>::empty());
    }
}

/// Reading back the text form written for frames, behind any header object
/// text `json`, gives those frames, and the header that the header object
/// holds with its input count set to their number. Where the header object
/// reads back as the header that was written, this is the round trip of the
/// whole movie.
pub proof fn lemma_text_round_trip(json: Seq<char>, fs: Seq<ControllerFrame>, h: HeaderModel)
    ensures
        decode_text_spec(text_bytes(json, fs), encode_utf8(json).len() as int, h) == Ok::<
            DtmModel,
            Dtm2txtError,
        >(DtmModel { header: with_input_count(h, fs.len() as u64), frames: fs }),
{
    let j = encode_utf8(json);
    let b = text_bytes(json, fs);
    let body = Seq::empty().push(10u8) + frames_text_bytes(fs);
    assert(b.subrange(j.len() as int, b.len() as int) =~= body);
    lemma_split_frames(fs);
    let ls = lines_of(body);
    assert(ls == Seq::empty().push(Seq::<u8>::empty()) + frame_lines(fs));
    assert(ls.drop_first() =~= frame_lines(fs));
    lemma_decode_frame_lines(fs, count_nl(b.take(j.len() as int)) + 2int);
}

} // verus!
