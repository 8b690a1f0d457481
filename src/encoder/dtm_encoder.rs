use vstd::prelude::*;

use crate::dtm::{encode_binary_spec, Dtm};
use crate::error::Dtm2txtError;

verus! {

/// Encodes a movie in its binary form, after the bytes the sink already holds.
pub struct DtmEncoder {
    inner: Vec<u8>,
}

impl View for DtmEncoder {
    type V = Seq<u8>;

    closed spec fn view(&self) -> Seq<u8> {
        self.inner@
    }
}

impl DtmEncoder {
    /// An encoder that appends to `inner`.
    pub fn new(inner: Vec<u8>) -> (r: DtmEncoder)
        ensures
            r@ == inner@,
    {
        DtmEncoder { inner }
    }

    /// Appends the binary form of `dtm` and hands back the sink. Fails, with
    /// nothing written, where a header string is longer than its field.
    pub fn encode(self, dtm: &Dtm) -> (r: Result<Vec<u8>, Dtm2txtError>)
        ensures
            match r {
                Ok(v) => encode_binary_spec(dtm@) is Ok && v@ == self@ + encode_binary_spec(
                    dtm@,
                )->Ok_0,
                Err(e) => encode_binary_spec(dtm@) == Err::<Seq<u8>, Dtm2txtError>(e),
            },
    {
        let mut bytes = match dtm.write_to_dtm() {
            Ok(b) => b,
            Err(e) => return Err(e),
        };
        let mut inner = self.inner;
        inner.append(&mut bytes);
        Ok(inner)
    }
}

} // verus!
