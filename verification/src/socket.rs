//! The socket of a listening server: what may stand in its place, and its
//! permissions.

use vstd::prelude::*;

verus! {

/// What is at the path of the socket.
#[derive(Clone, Copy, Debug, PartialEq, Eq, Structural)]
pub enum Occupant {
    /// Nothing.
    Nothing,
    /// A socket, left by an earlier run.
    Socket,
    /// Anything else, a symbolic link to a socket too.
    Other,
    /// It could not be told.
    Unknown,
}

/// What to do before the socket is made.
#[derive(Clone, Copy, Debug, PartialEq, Eq, Structural)]
pub enum Clearing {
    /// Nothing.
    Proceed,
    /// Remove the stale socket.
    Remove,
    /// Refuse to touch what is there.
    Refuse,
    /// Report why it could not be told what is there.
    Report,
}

/// What to do about what is at the path of the socket. Only a socket is removed.
pub fn clearing(occupant: Occupant) -> (r: Clearing)
    ensures
        r == match occupant {
            Occupant::Nothing => Clearing::Proceed,
            Occupant::Socket => Clearing::Remove,
            Occupant::Other => Clearing::Refuse,
            Occupant::Unknown => Clearing::Report,
        },
{
    match occupant {
        Occupant::Nothing => Clearing::Proceed,
        Occupant::Socket => Clearing::Remove,
        Occupant::Other => Clearing::Refuse,
        Occupant::Unknown => Clearing::Report,
    }
}

/// The permissions of a socket that is made under `umask`.
pub open spec fn created_mode(umask: u32) -> u32 {
    0o777 & !umask
}

/// The file mode creation mask under which a socket gets the permissions in `mode`
/// at once, with no moment at which it has others.
pub fn socket_umask(mode: u32) -> (r: u32)
    ensures
        r == 0o777 & !(mode & 0o777),
        created_mode(r) == mode & 0o777,
{
    let kept: u32 = mode & 0o777;
    let umask: u32 = 0o777 & !kept;
    assert(0o777u32 & !umask == kept) by (bit_vector)
        requires
            kept == mode & 0o777,
            umask == 0o777 & !kept,
    ;
    umask
}

// ---------------------------------------------------------------------------
// Laws
// ---------------------------------------------------------------------------
/// What stands in the place of the socket is removed exactly where it is a socket, and
/// nothing else is ever touched.
pub proof fn law_only_a_socket_is_removed(occupant: Occupant, r: Clearing)
    requires
        call_ensures(clearing, (occupant,), r),
    ensures
        r is Remove <==> occupant is Socket,
        r is Proceed <==> occupant is Nothing,
        r is Refuse <==> occupant is Other,
        r is Report <==> occupant is Unknown,
{
}

/// A socket gets the permissions that were asked for, and no moment with others: of the
/// nine permission bits, those that the mask leaves out are those of the mode.
pub proof fn law_socket_permissions(mode: u32, umask: u32, bit: u32)
    requires
        call_ensures(socket_umask, (mode,), umask),
        bit < 9,
    ensures
        (umask >> bit) & 1 == 1 - ((mode >> bit) & 1),
        umask <= 0o777,
{
    assert((umask >> bit) & 1 == 1 - ((mode >> bit) & 1) && umask <= 0o777) by (bit_vector)
        requires
            bit < 9,
            umask == 0o777 & !(mode & 0o777),
    ;
}

} // verus!
