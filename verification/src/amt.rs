//! Intel AMT class bindings over the WS-Management client.

pub mod general;
pub mod hostbasedsetup;
pub mod setupandconfiguration;

use vstd::prelude::*;
use vstd::utf8::*;
use crate::error::WsmanError;
use crate::parse::{extract_text, extract_u32, extracted_u32, fault_scan, has_fault};
use crate::amt::general::text_or_empty;

verus! {

/// What a method reply is read as: a SOAP fault with its reason text, the
/// value of its `ReturnValue` element, or, without one, a parse error.
pub open spec fn return_value_reply(xml: Seq<u8>, r: Result<u32, WsmanError>) -> bool {
    if fault_scan(xml, 0) {
        r matches Err(WsmanError::SoapFault(s)) && s@ == text_or_empty(xml, "Text"@)
    } else {
        match extracted_u32(xml, encode_utf8("ReturnValue"@)) {
            Some(v) => r == Ok::<u32, WsmanError>(v),
            None => r == Err::<u32, WsmanError>(WsmanError::Parse("missing ReturnValue")),
        }
    }
}

/// Reads the `ReturnValue` of a method reply.
pub(crate) fn read_return_value(xml: &[u8]) -> (r: Result<u32, WsmanError>)
    ensures
        return_value_reply(xml@, r),
{
    if has_fault(xml) {
        let text = match extract_text(xml, "Text") {
            Some(t) => t,
            None => String::new(),
        };
        return Err(WsmanError::SoapFault(text));
    }
    match extract_u32(xml, "ReturnValue") {
        Some(v) => Ok(v),
        None => Err(WsmanError::Parse("missing ReturnValue")),
    }
}

} // verus!
