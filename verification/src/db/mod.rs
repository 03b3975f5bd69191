//! The database: connection settings, rows and migrations.
use crate::text::{contains, has_text, occurs_at};
use vstd::prelude::*;

pub mod migrations;
pub mod models;

verus! {

/// A connection to `url` is encrypted: it does not ask for the contrary, and it does not go to
/// this machine or to the internal network.
pub open spec fn uses_tls(url: Seq<char>) -> bool {
    &&& !has_text(url, "sslmode=disable"@)
    &&& !has_text(url, "sslmode=allow"@)
    &&& !has_text(url, "localhost"@)
    &&& !has_text(url, "127.0.0.1"@)
    &&& !has_text(url, "10.200.0."@)
}

/// Whether to encrypt a connection to `url`. The mode that the address asks for comes first; without
/// one, connections to this machine and to the internal network are not encrypted.
pub fn should_use_tls(url: &str) -> (r: bool)
    ensures
        r == uses_tls(url@),
{
    if contains(url, "sslmode=disable") || contains(url, "sslmode=allow") {
        return false;
    }
    !contains(url, "localhost") && !contains(url, "127.0.0.1") && !contains(url, "10.200.0.")
}

/// An address that names this machine or the internal network, or asks not to be encrypted, is not,
/// wherever in the address that stands.
pub proof fn local_connections_are_not_encrypted(front: Seq<char>, mark: Seq<char>, rest: Seq<char>)
    requires
        mark == "localhost"@ || mark == "127.0.0.1"@ || mark == "10.200.0."@ || mark
            == "sslmode=disable"@ || mark == "sslmode=allow"@,
    ensures
        !uses_tls(front + mark + rest),
{
    let url = front + mark + rest;
    assert(url.subrange(front.len() as int, (front.len() + mark.len()) as int) =~= mark);
    assert(occurs_at(url, mark, front.len() as int));
}

}
