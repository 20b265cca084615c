//! How a session starts, and how keys are written down.
use vstd::prelude::*;

use crate::net::Role;
use crate::streamer::input::VirtualKey;

verus! {

/// How a session starts. `A` is the type of an address.
#[derive(Debug, PartialEq, Eq)]
pub enum Mode<A> {
    /// Wait for another side, and take the given role.
    Host(Role),
    /// Connect to the host at the address, and take the role that the host does not have.
    Client(A),
}

/// How a session starts that was asked for with these arguments: exactly one of the address of
/// the host and the role must be given.
pub fn choose_mode<A>(host_ip: Option<A>, role: Option<Role>) -> (mode: Option<Mode<A>>)
    ensures
        mode == match (host_ip, role) {
            (Some(ip), None) => Some(Mode::Client(ip)),
            (None, Some(role)) => Some(Mode::Host(role)),
            _ => None::<Mode<A>>,
        },
{
    match host_ip {
        Some(ip) => match role {
            None => Some(Mode::Client(ip)),
            Some(_) => None,
        },
        None => match role {
            Some(role) => Some(Mode::Host(role)),
            None => None,
        },
    }
}

/// The role of a client, whose host has the given role.
pub fn client_role(host_role: Role) -> (role: Role)
    ensures
        role == host_role.other(),
        role != host_role,
{
    host_role.opposite()
}

/// The character that a key press types: the first of its text. A key without text types none.
pub fn encode_key(text: Option<&str>) -> (key: Option<char>)
    requires
        text matches Some(text) ==> text@.len() > 0,
    ensures
        key == match text {
            Some(text) => Some(text@[0]),
            None => None::<char>,
        },
{
    match text {
        Some(text) => Some(text.get_char(0)),
        None => None,
    }
}

/// The key of the virtual keyboard that types the character.
pub fn decode_key<K>(key: char) -> (virtual_key: VirtualKey<K>)
    ensures
        virtual_key == VirtualKey::<K>::Unicode(key),
{
    VirtualKey::Unicode(key)
}

} // verus!
