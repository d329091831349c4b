//! `AMT_SetupAndConfigurationService`: the Unprovision method, which takes
//! AMT back out of a provisioning mode.

use vstd::prelude::*;
use vstd::utf8::*;
use crate::amt::{read_return_value, return_value_reply};
use crate::client::{Client, last_reply};
use crate::envelope::{too_small_error, build_invoke, invoke_envelope};
use crate::error::WsmanError;
use crate::schema::{Namespace, resource_uri_of, DEFAULT_TIMEOUT};
use crate::selector::Selector;
use crate::text::{decimal, push_decimal};
use crate::transport::Transport;

verus! {

/// The provisioning mode that Unprovision is asked to leave.
#[derive(Debug, Clone, Copy, PartialEq, Eq, Structural)]
pub enum ProvisioningMode {
    NotProvisioned,
    AdminControlMode,
}

/// The number the schema gives a provisioning mode.
pub open spec fn mode_number(m: ProvisioningMode) -> u32 {
    match m {
        ProvisioningMode::NotProvisioned => 1,
        ProvisioningMode::AdminControlMode => 2,
    }
}

impl ProvisioningMode {
    pub fn as_u32(self) -> (n: u32)
        ensures
            n == mode_number(self),
    {
        match self {
            ProvisioningMode::NotProvisioned => 1,
            ProvisioningMode::AdminControlMode => 2,
        }
    }
}

pub struct UnprovisionInput {
    pub mode: ProvisioningMode,
}

#[derive(Debug, Clone, PartialEq, Eq)]
pub struct UnprovisionOutput {
    pub return_value: u32,
}

pub const RESOURCE_CLASS: &'static str = "AMT_SetupAndConfigurationService";
pub const NAMESPACE_URI: &'static str = "http://intel.com/wbem/wscim/1/amt-schema/1/AMT_SetupAndConfigurationService";
pub const ACTION_UNPROVISION: &'static str = "http://intel.com/wbem/wscim/1/amt-schema/1/AMT_SetupAndConfigurationService/Unprovision";

/// The `Unprovision_INPUT` element for a provisioning mode.
pub open spec fn unprovision_input_xml(mode: ProvisioningMode) -> Seq<char> {
    "<s:Unprovision_INPUT xmlns:s=\""@ + NAMESPACE_URI@ + "\"><s:ProvisioningMode>"@
        + decimal(mode_number(mode) as nat)
        + "</s:ProvisioningMode></s:Unprovision_INPUT>"@
}

/// Renders the `Unprovision_INPUT` element of `input`.
pub fn unprovision_input(input: &UnprovisionInput) -> (s: String)
    ensures
        s@ == unprovision_input_xml(input.mode),
{
    let mut s = String::from_str("<s:Unprovision_INPUT xmlns:s=\"");
    s.append(NAMESPACE_URI);
    s.append("\"><s:ProvisioningMode>");
    push_decimal(&mut s, input.mode.as_u32() as u64);
    s.append("</s:ProvisioningMode></s:Unprovision_INPUT>");
    s
}

/// Reads an Unprovision reply: a fault, or the method's return value.
pub fn parse_unprovision(xml: &[u8]) -> (r: Result<UnprovisionOutput, WsmanError>)
    ensures
        match r {
            Ok(o) => return_value_reply(xml@, Ok(o.return_value)),
            Err(e) => return_value_reply(xml@, Err(e)),
        },
{
    match read_return_value(xml) {
        Ok(v) => Ok(UnprovisionOutput { return_value: v }),
        Err(e) => Err(e),
    }
}

/// The setup-and-configuration service of a client.
pub struct SetupAndConfigurationService<'c, T: Transport> {
    client: &'c mut Client<T>,
}

impl<'c, T: Transport> SetupAndConfigurationService<'c, T> {
    /// The client the service sends through, as it stands.
    pub closed spec fn client_now(&self) -> Client<T> {
        *self.client
    }

    pub fn new(client: &'c mut Client<T>) -> (r: Self)
        ensures
            r.client_now() == *old(client),
    {
        Self { client }
    }

    /// Invokes Unprovision with `input`.
    pub fn unprovision(&mut self, input: UnprovisionInput) -> (r: Result<UnprovisionOutput, WsmanError>)
        ensures
            ({
                let before = old(self).client_now();
                let after = final(self).client_now();
                let p0 = before.posts().len() as int;
                let env = invoke_envelope(
                        ACTION_UNPROVISION@,
                        resource_uri_of(Namespace::Amt, RESOURCE_CLASS@),
                        unprovision_input_xml(input.mode),
                        seq![],
                        before.next_id(),
                        DEFAULT_TIMEOUT@,
                    );
                &&& after.next_id() == if before.next_id() == u64::MAX { 0 } else { (before.next_id() + 1) as u64 }
                &&& after.posts().len() >= p0
                &&& after.posts().take(p0) == before.posts()
                &&& if encode_utf8(env).len() > 2048 {
                    &&& after.posts() == before.posts()
                    &&& r == Err::<UnprovisionOutput, WsmanError>(too_small_error(env, 2048))
                } else {
                    &&& after.posts().len() > p0
                    &&& after.posts()[p0].body == encode_utf8(env)
                    &&& match last_reply(after.posts()) {
                        Some(reply) => match r {
                            Ok(o) => return_value_reply(reply, Ok(o.return_value)),
                            Err(e) => return_value_reply(reply, Err(e)),
                        },
                        None => r is Err,
                    }
                }
            }),
    {
        let uri = Namespace::Amt.resource_uri(RESOURCE_CLASS);
        let id = self.client.next_message_id();
        let input_xml = unprovision_input(&input);
        let none: [Selector; 0] = [];
        assert(none@ =~= Seq::<Selector>::empty());
        let mut req = [0u8; 2048];
        proof {
            encode_utf8_valid_utf8(input_xml@);
            encode_utf8_decode_utf8(input_xml@);
        }
        let req_len = build_invoke(ACTION_UNPROVISION, uri.as_str(), input_xml.as_str().as_bytes(), none.as_slice(), id, None, &mut req)?;
        let reply = self.client.execute_reply(&req[0..req_len])?;
        parse_unprovision(reply.as_slice())
    }
}

} // verus!
