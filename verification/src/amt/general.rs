//! `AMT_GeneralSettings`: the Get of the AMT general settings instance.

use vstd::prelude::*;
use vstd::utf8::*;
use crate::client::{Client, last_reply};
use crate::envelope::{too_small_error, build_get, get_envelope};
use crate::error::WsmanError;
use crate::parse::{extract_text, extracted_text, fault_scan, has_fault};
use crate::schema::{Namespace, resource_uri_of, DEFAULT_TIMEOUT};
use crate::selector::Selector;
use crate::text::str_eq;
use crate::transport::Transport;

verus! {

#[derive(Debug, Clone, Default, PartialEq, Eq)]
pub struct GeneralSettings {
    pub digest_realm: String,
    pub instance_id: String,
    pub host_name: String,
    pub domain_name: String,
    pub network_interface_enabled: bool,
}

/// The text of the first element named `local`, empty when there is none.
pub open spec fn text_or_empty(xml: Seq<u8>, local: Seq<char>) -> Seq<char> {
    match extracted_text(xml, encode_utf8(local)) {
        Some(t) => t,
        None => seq![],
    }
}

/// What a response is read as: a SOAP fault with its reason text, or the
/// settings its elements give (absent ones empty, the flag set only by the
/// text `true`).
pub open spec fn settings_reply(xml: Seq<u8>, r: Result<GeneralSettings, WsmanError>) -> bool {
    if fault_scan(xml, 0) {
        r matches Err(WsmanError::SoapFault(s)) && s@ == text_or_empty(xml, "Text"@)
    } else {
        r matches Ok(g) && {
            &&& g.digest_realm@ == text_or_empty(xml, "DigestRealm"@)
            &&& g.instance_id@ == text_or_empty(xml, "InstanceID"@)
            &&& g.host_name@ == text_or_empty(xml, "HostName"@)
            &&& g.domain_name@ == text_or_empty(xml, "DomainName"@)
            &&& g.network_interface_enabled == (extracted_text(xml, encode_utf8("NetworkInterfaceEnabled"@))
                == Some("true"@))
        }
    }
}

fn text_or_default(xml: &[u8], local: &str) -> (s: String)
    ensures
        s@ == text_or_empty(xml@, local@),
{
    match extract_text(xml, local) {
        Some(s) => s,
        None => String::new(),
    }
}

/// Reads a Get response of `AMT_GeneralSettings`.
pub fn parse(xml: &[u8]) -> (r: Result<GeneralSettings, WsmanError>)
    ensures
        settings_reply(xml@, r),
{
    if has_fault(xml) {
        return Err(WsmanError::SoapFault(text_or_default(xml, "Text")));
    }
    let enabled = match extract_text(xml, "NetworkInterfaceEnabled") {
        Some(s) => str_eq(s.as_str(), "true"),
        None => false,
    };
    Ok(GeneralSettings {
        digest_realm: text_or_default(xml, "DigestRealm"),
        instance_id: text_or_default(xml, "InstanceID"),
        host_name: text_or_default(xml, "HostName"),
        domain_name: text_or_default(xml, "DomainName"),
        network_interface_enabled: enabled,
    })
}

pub const REQUEST_BUF: usize = 2048;
pub const RESPONSE_BUF: usize = 4096;
pub const AUTH_BUF: usize = 1024;

/// The `AMT_GeneralSettings` service of a client.
pub struct Settings<'c, T: Transport> {
    client: &'c mut Client<T>,
}

impl<'c, T: Transport> Settings<'c, T> {
    /// The client the service sends through, as it stands.
    pub closed spec fn client_now(&self) -> Client<T> {
        *self.client
    }

    pub fn new(client: &'c mut Client<T>) -> (r: Self)
        ensures
            r.client_now() == *old(client),
    {
        Self { client }
    }

    /// Gets the settings instance.
    pub fn get(&mut self) -> (r: Result<GeneralSettings, WsmanError>)
        ensures
            ({
                let before = old(self).client_now();
                let after = final(self).client_now();
                let p0 = before.posts().len() as int;
                let env = get_envelope(
                        resource_uri_of(Namespace::Amt, "AMT_GeneralSettings"@),
                        seq![],
                        before.next_id(),
                        DEFAULT_TIMEOUT@,
                    );
                &&& after.next_id() == if before.next_id() == u64::MAX { 0 } else { (before.next_id() + 1) as u64 }
                &&& after.posts().len() >= p0
                &&& after.posts().take(p0) == before.posts()
                &&& if encode_utf8(env).len() > 2048 {
                    &&& after.posts() == before.posts()
                    &&& r == Err::<GeneralSettings, WsmanError>(too_small_error(env, 2048))
                } else {
                    &&& after.posts().len() > p0
                    &&& after.posts()[p0].body == encode_utf8(env)
                    &&& match last_reply(after.posts()) {
                        Some(reply) => settings_reply(reply, r),
                        None => r is Err,
                    }
                }
            }),
    {
        let uri = Namespace::Amt.resource_uri("AMT_GeneralSettings");
        let id = self.client.next_message_id();
        let none: [Selector; 0] = [];
        assert(none@ =~= Seq::<Selector>::empty());
        let mut req = [0u8; 2048];
        let req_len = build_get(uri.as_str(), none.as_slice(), id, None, &mut req)?;
        let reply = self.client.execute_reply(&req[0..req_len])?;
        parse(reply.as_slice())
    }
}

} // verus!
