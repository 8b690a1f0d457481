use vstd::prelude::*;
use vstd::utf8::encode_utf8;

use crate::dtm::Dtm;
use crate::frame::ControllerFrame;
use crate::layout::push_bytes;
use crate::text::frame_text;

verus! {

/// The bytes of a frame's text line, newline included.
pub open spec fn frame_line_bytes(f: ControllerFrame) -> Seq<u8> {
    encode_utf8(frame_text(f)).push(10u8)
}

/// The text lines of frames, one after the other.
pub open spec fn frames_text_bytes(fs: Seq<ControllerFrame>) -> Seq<u8>
    decreases fs.len(),
{
    if fs.len() == 0 {
        Seq::empty()
    } else {
        frames_text_bytes(fs.drop_last()) + frame_line_bytes(fs.last())
    }
}

/// The text form of a movie whose header object is the text `json`: that
/// text, a newline, then one line per frame.
pub open spec fn text_bytes(json: Seq<char>, fs: Seq<ControllerFrame>) -> Seq<u8> {
    encode_utf8(json).push(10u8) + frames_text_bytes(fs)
}

/// Encodes a movie in its text form, after the bytes the sink already holds.
pub struct TextEncoder {
    inner: Vec<u8>,
}

impl View for TextEncoder {
    type V = Seq<u8>;

    closed spec fn view(&self) -> Seq<u8> {
        self.inner@
    }
}

impl TextEncoder {
    /// An encoder that appends to `inner`.
    pub fn new(inner: Vec<u8>) -> (r: TextEncoder)
        ensures
            r@ == inner@,
    {
        TextEncoder { inner }
    }

    /// Appends the text form of `dtm`, whose header object is the text
    /// `header_json`, and hands back the sink.
    pub fn encode(self, dtm: &Dtm, header_json: &str) -> (r: Vec<u8>)
        ensures
            r@ == self@ + text_bytes(header_json@, dtm@.frames),
    {
        let mut this = self;
        let ghost start = this.inner@;
        push_bytes(&mut this.inner, header_json.as_bytes());
        this.inner.push(10);
        let ghost head = this.inner@;
        let mut i: usize = 0;
        while i < dtm.controller_data.len()
            invariant
                i <= dtm.controller_data@.len(),
                head == start + encode_utf8(header_json@).push(10u8),
                this.inner@ == head + frames_text_bytes(dtm.controller_data@.take(i as int)),
            decreases dtm.controller_data@.len() - i,
        {
            this.write_controller_input(&dtm.controller_data[i]);
            let ghost fs = dtm.controller_data@.take(i + 1);
            assert(fs.drop_last() =~= dtm.controller_data@.take(i as int));
            assert(this.inner@ =~= head + frames_text_bytes(fs));
            i = i + 1;
        }
        assert(dtm.controller_data@.take(i as int) =~= dtm.controller_data@);
        assert(this.inner@ =~= start + text_bytes(header_json@, dtm@.frames));
        this.inner
    }

    // S A B X Y Z U D L R LT 0 0 0 0 0 0 [CD RST CC RSV]
    fn write_controller_input(&mut self, input: &ControllerFrame)
        ensures
            final(self)@ == old(self)@ + frame_line_bytes(*input),
    {
        let line = input.to_text();
        let ghost start = self.inner@;
        push_bytes(&mut self.inner, line.as_str().as_bytes());
        self.inner.push(10);
        assert(self.inner@ =~= start + frame_line_bytes(*input));
    }
}

impl Dtm {
    /// The text form of the movie, whose header object is the text
    /// `header_json`: that text, a newline, then one line per frame.
    pub fn write(&self, header_json: &str) -> (r: Vec<u8>)
        ensures
            r@ == text_bytes(header_json@, self@.frames),
    {
        let r = TextEncoder::new(Vec::new()).encode(self, header_json);
        assert(r@ =~= text_bytes(header_json@, self@.frames));
        r
    }
}

} // verus!
