//! Lookups and the pages they are answered from.

use vstd::prelude::*;
use vstd::string::*;

verus! {

/// The two lookups.
#[derive(Clone, Copy, Debug, PartialEq, Eq, Structural)]
pub enum Operation {
    /// From a subnet to the hostnames in it.
    Subnet,
    /// From an ASN to the hostnames in each subnet it announces.
    Asn,
}

/// One lookup to be made: an identifier and what to look it up as.
///
/// This is the model that contracts speak of; a lookup in progress holds the identifier as a
/// `String`.
pub struct Target {
    /// What the identifier is looked up as.
    pub operation: Operation,
    /// The ASN or the subnet, as it was given.
    pub identifier: Seq<char>,
}

/// The host of the registry.
pub open spec fn registry_host_text() -> Seq<char> {
    "bgp.he.net"@
}

/// The client identity sent with every request.
pub open spec fn client_identity_text() -> Seq<char> {
    "Mozilla/5.0 (Windows NT 10.0; Win64; x64) AppleWebKit/537.36 (KHTML, like Gecko) Chrome/58.0.3029.110 Safari/537.36"@
}

/// The address of the page that answers a lookup.
pub open spec fn page_key_text(operation: Operation, identifier: Seq<char>) -> Seq<char> {
    match operation {
        Operation::Subnet => "https://"@ + registry_host_text() + "/net/"@ + identifier + "#_dns"@,
        Operation::Asn => "https://"@ + registry_host_text() + "/"@ + identifier + "#_prefixes"@,
    }
}

/// The host of the registry.
pub fn registry_host() -> (r: &'static str)
    ensures
        r@ == registry_host_text(),
{
    "bgp.he.net"
}

/// The client identity sent with every request: the registry may refuse a client that it
/// does not know, so the library names a common browser.
pub fn client_identity() -> (r: &'static str)
    ensures
        r@ == client_identity_text(),
{
    "Mozilla/5.0 (Windows NT 10.0; Win64; x64) AppleWebKit/537.36 (KHTML, like Gecko) Chrome/58.0.3029.110 Safari/537.36"
}

/// The address of the page that answers the lookup of `identifier` as `operation`.
///
/// The identifier is placed in the address as it is.
pub fn page_key(operation: Operation, identifier: &str) -> (r: String)
    ensures
        r@ == page_key_text(operation, identifier@),
{
    let mut key = String::from_str("https://");
    key.append(registry_host());
    match operation {
        Operation::Subnet => {
            key.append("/net/");
            key.append(identifier);
            key.append("#_dns");
        },
        Operation::Asn => {
            key.append("/");
            key.append(identifier);
            key.append("#_prefixes");
        },
    }
    key
}

} // verus!
