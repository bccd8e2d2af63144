//! How the two machines find each other by name.
use crate::text::{self, trimmed};
use vstd::prelude::*;
use vstd::string::*;

verus! {

/// The type under which the master announces itself.
pub const SERVICE_TYPE: &'static str = "_smkb._udp.local.";

/// The name of this machine, given the contents of the file that holds it, or `default` where the
/// file cannot be read.
pub fn local_hostname(contents: Option<&str>, default: &str) -> (name: String)
    ensures
        name@ == (match contents {
            Some(s) => trimmed(s@),
            None => default@,
        }),
{
    match contents {
        Some(s) => text::trim(s).to_owned(),
        None => default.to_owned(),
    }
}

/// The name under which a machine is found on the local network.
pub fn service_hostname(host: &str) -> (name: String)
    ensures
        name@ == host@ + ".local."@,
{
    let mut name = host.to_owned();
    name.append(".local.");
    name
}

} // verus!
