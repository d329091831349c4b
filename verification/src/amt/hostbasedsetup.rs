//! `IPS_HostBasedSetupService`: the Setup method, which provisions AMT in
//! client control mode with a network administrator password.

use vstd::prelude::*;
use vstd::utf8::*;
use crate::amt::{read_return_value, return_value_reply};
use crate::client::{Client, last_reply};
use crate::envelope::{too_small_error, build_invoke, invoke_envelope};
use crate::error::WsmanError;
use crate::schema::{Namespace, resource_uri_of, DEFAULT_TIMEOUT};
use crate::selector::Selector;
use crate::text::{decimal, push_decimal};
use crate::transport::Transport;

verus! {

pub struct SetupInput {
    pub admin_password_hash: String,
    pub encryption_type: u32,
}

#[derive(Debug, Clone, PartialEq, Eq)]
pub struct SetupOutput {
    pub return_value: u32,
}

pub const RESOURCE_CLASS: &'static str = "IPS_HostBasedSetupService";
pub const NAMESPACE_URI: &'static str = "http://intel.com/wbem/wscim/1/ips-schema/1/IPS_HostBasedSetupService";
pub const ACTION_SETUP: &'static str = "http://intel.com/wbem/wscim/1/ips-schema/1/IPS_HostBasedSetupService/Setup";

/// The `Setup_INPUT` element for an encryption type and a password hash.
pub open spec fn setup_input_xml(encryption_type: u32, hash: Seq<char>) -> Seq<char> {
    "<h:Setup_INPUT xmlns:h=\""@ + NAMESPACE_URI@ + "\"><h:NetAdminPassEncryptionType>"@
        + decimal(encryption_type as nat)
        + "</h:NetAdminPassEncryptionType><h:NetworkAdminPassword>"@ + hash
        + "</h:NetworkAdminPassword></h:Setup_INPUT>"@
}

/// Renders the `Setup_INPUT` element of `input`.
pub fn setup_input(input: &SetupInput) -> (s: String)
    ensures
        s@ == setup_input_xml(input.encryption_type, input.admin_password_hash@),
{
    let mut s = String::from_str("<h:Setup_INPUT xmlns:h=\"");
    s.append(NAMESPACE_URI);
    s.append("\"><h:NetAdminPassEncryptionType>");
    push_decimal(&mut s, input.encryption_type as u64);
    s.append("</h:NetAdminPassEncryptionType><h:NetworkAdminPassword>");
    s.append(input.admin_password_hash.as_str());
    s.append("</h:NetworkAdminPassword></h:Setup_INPUT>");
    s
}

/// Reads a Setup reply: a fault, or the method's return value, which is
/// returned whatever it is.
pub fn parse_setup(xml: &[u8]) -> (r: Result<SetupOutput, WsmanError>)
    ensures
        match r {
            Ok(o) => return_value_reply(xml@, Ok(o.return_value)),
            Err(e) => return_value_reply(xml@, Err(e)),
        },
{
    match read_return_value(xml) {
        Ok(v) => Ok(SetupOutput { return_value: v }),
        Err(e) => Err(e),
    }
}

/// The host-based setup service of a client.
pub struct HostBasedSetupService<'c, T: Transport> {
    client: &'c mut Client<T>,
}

impl<'c, T: Transport> HostBasedSetupService<'c, T> {
    /// The client the service sends through, as it stands.
    pub closed spec fn client_now(&self) -> Client<T> {
        *self.client
    }

    pub fn new(client: &'c mut Client<T>) -> (r: Self)
        ensures
            r.client_now() == *old(client),
    {
        Self { client }
    }

    /// Invokes Setup with `input`.
    pub fn setup(&mut self, input: SetupInput) -> (r: Result<SetupOutput, WsmanError>)
        ensures
            ({
                let before = old(self).client_now();
                let after = final(self).client_now();
                let p0 = before.posts().len() as int;
                let env = invoke_envelope(
                        ACTION_SETUP@,
                        resource_uri_of(Namespace::Ips, RESOURCE_CLASS@),
                        setup_input_xml(input.encryption_type, input.admin_password_hash@),
                        seq![],
                        before.next_id(),
                        DEFAULT_TIMEOUT@,
                    );
                &&& after.next_id() == if before.next_id() == u64::MAX { 0 } else { (before.next_id() + 1) as u64 }
                &&& after.posts().len() >= p0
                &&& after.posts().take(p0) == before.posts()
                &&& if encode_utf8(env).len() > 2048 {
                    &&& after.posts() == before.posts()
                    &&& r == Err::<SetupOutput, WsmanError>(too_small_error(env, 2048))
                } else {
                    &&& after.posts().len() > p0
                    &&& after.posts()[p0].body == encode_utf8(env)
                    &&& match last_reply(after.posts()) {
                        Some(reply) => match r {
                            Ok(o) => return_value_reply(reply, Ok(o.return_value)),
                            Err(e) => return_value_reply(reply, Err(e)),
                        },
                        None => r is Err,
                    }
                }
            }),
    {
        let uri = Namespace::Ips.resource_uri(RESOURCE_CLASS);
        let id = self.client.next_message_id();
        let input_xml = setup_input(&input);
        let none: [Selector; 0] = [];
        assert(none@ =~= Seq::<Selector>::empty());
        let mut req = [0u8; 2048];
        proof {
            encode_utf8_valid_utf8(input_xml@);
            encode_utf8_decode_utf8(input_xml@);
        }
        let req_len = build_invoke(ACTION_SETUP, uri.as_str(), input_xml.as_str().as_bytes(), none.as_slice(), id, None, &mut req)?;
        let reply = self.client.execute_reply(&req[0..req_len])?;
        parse_setup(reply.as_slice())
    }
}

} // verus!
