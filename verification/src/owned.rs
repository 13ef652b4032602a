//! An owned wire buffer bundled with its decoded, typed request.
//!
//! A request decoded on one step of a stream handler must survive across
//! suspension points without re-parsing. This pairing owns the received
//! buffer and carries the typed projection decoded from it; neither side is
//! ever mutated after construction, so the projection stays consistent with
//! the buffer for the object's whole lifetime, and the borrows handed out
//! live exactly as long as the object itself.
use vstd::prelude::*;
use crate::{Requests, RequestsV};
use crate::encoding::{decode_request, spec_decode_request, FramingError};

verus! {

/// An owned request buffer and the request it spells.
pub struct OwnedRequest {
    buf: Vec<u8>,
    req: Requests,
}

impl OwnedRequest {
    /// The typed view is exactly what the buffer decodes to.
    pub closed spec fn wf(&self) -> bool {
        spec_decode_request(self.buf@) == Some(self.req@)
    }

    /// The bytes held.
    pub closed spec fn buf_bytes(&self) -> Seq<u8> {
        self.buf@
    }

    /// The typed view held.
    pub closed spec fn req_view(&self) -> RequestsV {
        self.req@
    }

    /// Decodes `buf` and bundles it with its typed view; bytes that do not
    /// spell a request exactly are rejected with a decode error.
    pub fn decode_owned(buf: Vec<u8>) -> (r: Result<OwnedRequest, FramingError>)
        ensures
            match r {
                Ok(o) => {
                    &&& o.wf()
                    &&& o.buf_bytes() == buf@
                    &&& spec_decode_request(buf@) == Some(o.req_view())
                },
                Err(e) => spec_decode_request(buf@) is None && e == FramingError::DecodeError,
            },
    {
        match decode_request(buf.as_slice()) {
            Ok(req) => Ok(OwnedRequest { buf, req }),
            Err(e) => Err(e),
        }
    }

    /// The typed view, borrowed for as long as the pairing lives.
    pub fn get(&self) -> (r: &Requests)
        ensures
            r@ == self.req_view(),
    {
        &self.req
    }

    /// The owned buffer the view was decoded from.
    pub fn bytes(&self) -> (r: &Vec<u8>)
        ensures
            r@ == self.buf_bytes(),
    {
        &self.buf
    }
}

} // verus!
