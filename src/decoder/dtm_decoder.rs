use vstd::prelude::*;

use crate::dtm::{decode_binary_spec, Dtm, DtmModel};
use crate::error::Dtm2txtError;

verus! {

/// Decodes a movie from the bytes of its binary form.
pub struct DtmDecoder {
    inner: Vec<u8>,
}

impl View for DtmDecoder {
    type V = Seq<u8>;

    closed spec fn view(&self) -> Seq<u8> {
        self.inner@
    }
}

impl DtmDecoder {
    /// A decoder over the whole binary form of a movie.
    pub fn new(inner: Vec<u8>) -> (r: DtmDecoder)
        ensures
            r@ == inner@,
    {
        DtmDecoder { inner }
    }

    /// Decodes the movie: the magic signature, the header, then exactly as many
    /// frames as the header's input count announces.
    pub fn decode(self) -> (r: Result<Dtm, Dtm2txtError>)
        ensures
            match r {
                Ok(d) => decode_binary_spec(self@) == Ok::<DtmModel, Dtm2txtError>(d@),
                Err(e) => decode_binary_spec(self@) == Err::<DtmModel, Dtm2txtError>(e),
            },
    {
        Dtm::read(self.inner.as_slice())
    }
}

} // verus!
