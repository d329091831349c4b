//! WS-Management schema constants: resource-URI namespaces and action URIs.

use vstd::prelude::*;
use vstd::string::StringExecFns;

verus! {

pub const DEFAULT_TIMEOUT: &'static str = "PT60S";

pub const WSA_ANONYMOUS: &'static str = "http://schemas.xmlsoap.org/ws/2004/08/addressing/role/anonymous";

/// The CIM schema families whose classes AMT exposes.
#[derive(Debug, Clone, Copy, PartialEq, Eq)]
pub enum Namespace {
    Amt,
    Ips,
    Cim,
}

/// The base URI of a namespace.
pub open spec fn namespace_base(ns: Namespace) -> Seq<char> {
    match ns {
        Namespace::Amt => "http://intel.com/wbem/wscim/1/amt-schema/1"@,
        Namespace::Ips => "http://intel.com/wbem/wscim/1/ips-schema/1"@,
        Namespace::Cim => "http://schemas.dmtf.org/wbem/wscim/1/cim-schema/2"@,
    }
}

/// The resource URI of `class` in namespace `ns`: the base, a slash, the class.
pub open spec fn resource_uri_of(ns: Namespace, class: Seq<char>) -> Seq<char> {
    namespace_base(ns) + seq!['/'] + class
}

impl Namespace {
    pub fn base(self) -> (r: &'static str)
        ensures
            r@ == namespace_base(self),
    {
        match self {
            Namespace::Amt => "http://intel.com/wbem/wscim/1/amt-schema/1",
            Namespace::Ips => "http://intel.com/wbem/wscim/1/ips-schema/1",
            Namespace::Cim => "http://schemas.dmtf.org/wbem/wscim/1/cim-schema/2",
        }
    }

    pub fn resource_uri(self, class: &str) -> (r: String)
        ensures
            r@ == resource_uri_of(self, class@),
    {
        let mut s = String::from_str(self.base());
        proof {
            reveal_strlit("/");
        }
        s.append("/");
        s.append(class);
        s
    }
}

/// The WS-Management operations, by action URI.
#[derive(Debug, Clone, Copy)]
pub enum Action {
    Get,
    Put,
    Enumerate,
    Pull,
    /// A class method, named by its fully qualified action URI.
    Invoke(&'static str),
}

/// The action URI of an operation.
pub open spec fn action_uri(a: Action) -> Seq<char> {
    match a {
        Action::Get => "http://schemas.xmlsoap.org/ws/2004/09/transfer/Get"@,
        Action::Put => "http://schemas.xmlsoap.org/ws/2004/09/transfer/Put"@,
        Action::Enumerate => "http://schemas.xmlsoap.org/ws/2004/09/enumeration/Enumerate"@,
        Action::Pull => "http://schemas.xmlsoap.org/ws/2004/09/enumeration/Pull"@,
        Action::Invoke(s) => s@,
    }
}

impl Action {
    pub fn uri(self) -> (r: &'static str)
        ensures
            r@ == action_uri(self),
    {
        match self {
            Action::Get => "http://schemas.xmlsoap.org/ws/2004/09/transfer/Get",
            Action::Put => "http://schemas.xmlsoap.org/ws/2004/09/transfer/Put",
            Action::Enumerate => "http://schemas.xmlsoap.org/ws/2004/09/enumeration/Enumerate",
            Action::Pull => "http://schemas.xmlsoap.org/ws/2004/09/enumeration/Pull",
            Action::Invoke(s) => s,
        }
    }
}

} // verus!
