//! The byte-level transport that carries WS-Management requests, and the
//! caller-owned buffers a transport fills with the reply.

use vstd::prelude::*;
use crate::error::WsmanError;
use crate::text::{copy_into, splice};

verus! {

/// Sync byte-level transport. Implementors: `ApfTransport`, an HTTP
/// client, plus test fakes.
pub trait Transport {
    /// Sends `body` with `headers` and fills `resp` with the reply.
    fn post(
        &mut self,
        headers: &[(&str, &str)],
        body: &[u8],
        resp: &mut ResponseBuf<'_>,
    ) -> Result<ResponseMeta, WsmanError>;
}

/// Caller-owned buffers that the transport fills.
pub struct ResponseBuf<'a> {
    pub body: &'a mut [u8],
    pub body_len: usize,
    pub www_authenticate: &'a mut [u8],
    pub www_authenticate_len: usize,
}

impl<'a> ResponseBuf<'a> {
    pub fn new(body: &'a mut [u8], www_authenticate: &'a mut [u8]) -> (r: Self)
        ensures
            r.body@ == old(body)@,
            r.www_authenticate@ == old(www_authenticate)@,
            r.body_len == 0,
            r.www_authenticate_len == 0,
    {
        Self { body, body_len: 0, www_authenticate, www_authenticate_len: 0 }
    }

    pub fn body_slice(&self) -> (r: &[u8])
        requires
            self.body_len <= old(self.body)@.len(),
        ensures
            r@ == old(self.body)@.take(self.body_len as int),
    {
        &self.body[0..self.body_len]
    }

    pub fn www_authenticate_slice(&self) -> (r: &[u8])
        requires
            self.www_authenticate_len <= old(self.www_authenticate)@.len(),
        ensures
            r@ == old(self.www_authenticate)@.take(self.www_authenticate_len as int),
    {
        &self.www_authenticate[0..self.www_authenticate_len]
    }

    /// Stores a `WWW-Authenticate` value at the start of its buffer, or
    /// reports that it does not fit and leaves the buffers as they were.
    pub fn store_www_authenticate(&mut self, value: &[u8]) -> (r: Result<(), WsmanError>)
        ensures
            value@.len() > old(self).www_authenticate@.len() ==> r == Err::<(), WsmanError>(
                WsmanError::BufferTooSmall { need: value@.len() as usize, have: old(self).www_authenticate@.len() as usize },
            ) && *final(self) == *old(self),
            value@.len() <= old(self).www_authenticate@.len() ==> {
                &&& r is Ok
                &&& final(self).www_authenticate@ == splice(old(self).www_authenticate@, 0, value@)
                &&& final(self).www_authenticate_len == value@.len()
                &&& final(self).body@ == old(self).body@
                &&& final(self).body_len == old(self).body_len
            },
    {
        if value.len() > self.www_authenticate.len() {
            return Err(WsmanError::BufferTooSmall { need: value.len(), have: self.www_authenticate.len() });
        }
        copy_into(self.www_authenticate, 0, value);
        self.www_authenticate_len = value.len();
        Ok(())
    }

    /// Stores a reply body at the start of its buffer, or reports that it
    /// does not fit and leaves the buffers as they were.
    pub fn store_body(&mut self, body: &[u8]) -> (r: Result<(), WsmanError>)
        ensures
            body@.len() > old(self).body@.len() ==> r == Err::<(), WsmanError>(
                WsmanError::BufferTooSmall { need: body@.len() as usize, have: old(self).body@.len() as usize },
            ) && *final(self) == *old(self),
            body@.len() <= old(self).body@.len() ==> {
                &&& r is Ok
                &&& final(self).body@ == splice(old(self).body@, 0, body@)
                &&& final(self).body_len == body@.len()
                &&& final(self).www_authenticate@ == old(self).www_authenticate@
                &&& final(self).www_authenticate_len == old(self).www_authenticate_len
            },
    {
        if body.len() > self.body.len() {
            return Err(WsmanError::BufferTooSmall { need: body.len(), have: self.body.len() });
        }
        copy_into(self.body, 0, body);
        self.body_len = body.len();
        Ok(())
    }
}

/// What a transport learned of the reply besides its bytes.
#[derive(Debug, Clone, Copy)]
pub struct ResponseMeta {
    pub status: u16,
}

} // verus!
