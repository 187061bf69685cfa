//! Destinations of `adb forward`.
//!
//! When the host runs `adb forward tcp:HOST_PORT tcp:DEVICE_PORT`, the host listens on
//! `HOST_PORT` and, for each incoming connection, sends an OPEN to the device with the service
//! name `tcp:DEVICE_PORT`. The device connects a socket to the destination that is named and
//! relays data in both directions over the ADB stream.
//!
//! Supported destination types:
//! - `tcp:PORT` - TCP connection to `127.0.0.1:PORT`.
//! - `localabstract:NAME` - abstract Unix domain socket.
//! - `localfilesystem:PATH` - pathname-bound Unix domain socket.

use crate::text::{
    begins_with, chars_of, decimal_text, is_number, number, parse_number, reading_undoes_writing,
    strip_prefix,
};
use vstd::prelude::*;

verus! {

/// How many bytes are read from a socket at once.
pub const SOCKET_READ_BUF_SIZE: usize = 4096;

/// Where a forwarded connection goes.
#[derive(Debug)]
pub enum Destination {
    /// A TCP port on 127.0.0.1.
    Tcp(u16),
    /// An abstract Unix domain socket.
    Abstract(String),
    /// A pathname-bound Unix domain socket.
    Path(String),
}

/// Where a forwarded connection goes, as a value.
pub enum DestinationView {
    Tcp(u16),
    Abstract(Seq<char>),
    Path(Seq<char>),
}

impl View for Destination {
    type V = DestinationView;

    open spec fn view(&self) -> DestinationView {
        match self {
            Destination::Tcp(port) => DestinationView::Tcp(*port),
            Destination::Abstract(name) => DestinationView::Abstract(name@),
            Destination::Path(path) => DestinationView::Path(path@),
        }
    }
}

/// Why a name is no destination.
#[derive(Clone, Copy, Debug, PartialEq, Eq, Structural)]
pub enum DestinationError {
    /// What follows `tcp:` is no port number.
    InvalidPort,
    /// The name begins with no supported type.
    Unsupported,
}

/// The port that a text spells: decimal digits, with or without a plus sign in front, for a
/// number of 16 bits.
pub open spec fn port_of(s: Seq<char>) -> Option<u16> {
    let digits = if s.len() > 0 && s[0] == '+' {
        s.skip(1)
    } else {
        s
    };
    if is_number(digits) && number(digits) <= u16::MAX {
        Some(number(digits) as u16)
    } else {
        None
    }
}

/// The destination that a service name stands for.
pub open spec fn destination_of(name: Seq<char>) -> Result<DestinationView, DestinationError> {
    if begins_with(name, "tcp:"@) {
        match port_of(name.skip("tcp:"@.len() as int)) {
            Some(port) => Ok(DestinationView::Tcp(port)),
            None => Err(DestinationError::InvalidPort),
        }
    } else if begins_with(name, "localabstract:"@) {
        Ok(DestinationView::Abstract(name.skip("localabstract:"@.len() as int)))
    } else if begins_with(name, "localfilesystem:"@) {
        Ok(DestinationView::Path(name.skip("localfilesystem:"@.len() as int)))
    } else {
        Err(DestinationError::Unsupported)
    }
}

/// Reads a port number.
fn parse_port(text: &str) -> (res: Option<u16>)
    ensures
        res == port_of(text@),
{
    let chars: Vec<char> = chars_of(text);
    let from: usize = if chars.len() > 0 && chars[0] == '+' {
        1
    } else {
        0
    };
    assert(chars@.skip(0) =~= text@);
    match parse_number(&chars, from, 0xffff) {
        Some(port) => Some(port as u16),
        None => None,
    }
}

/// Reads the destination that a service name stands for.
///
/// # Errors
///
/// Returns an error if the type of the destination is not supported, or the port is invalid.
pub fn parse_destination(name: &str) -> (res: Result<Destination, DestinationError>)
    ensures
        match res {
            Ok(destination) => destination_of(name@) == Ok::<DestinationView, DestinationError>(
                destination@,
            ),
            Err(e) => destination_of(name@) == Err::<DestinationView, DestinationError>(e),
        },
{
    if let Some(port) = strip_prefix(name, "tcp:") {
        return match parse_port(port) {
            Some(port) => Ok(Destination::Tcp(port)),
            None => Err(DestinationError::InvalidPort),
        };
    }
    if let Some(socket) = strip_prefix(name, "localabstract:") {
        return Ok(Destination::Abstract(socket.to_owned()));
    }
    if let Some(path) = strip_prefix(name, "localfilesystem:") {
        return Ok(Destination::Path(path.to_owned()));
    }
    Err(DestinationError::Unsupported)
}

/// Every port can be named, and with it the socket on that port, with zeros or a plus sign in front
/// or without; the name of a Unix socket is taken as it stands.
pub proof fn destinations_are_named(port: u16, zeros: nat, name: Seq<char>)
    ensures
        destination_of("tcp:"@ + decimal_text(port as nat)) == Ok::<
            DestinationView,
            DestinationError,
        >(DestinationView::Tcp(port)),
        destination_of("tcp:"@ + (Seq::new(zeros, |i: int| '0') + decimal_text(port as nat)))
            == Ok::<DestinationView, DestinationError>(DestinationView::Tcp(port)),
        destination_of("tcp:"@ + (seq!['+'] + decimal_text(port as nat))) == Ok::<
            DestinationView,
            DestinationError,
        >(DestinationView::Tcp(port)),
        destination_of("localabstract:"@ + name) == Ok::<DestinationView, DestinationError>(
            DestinationView::Abstract(name),
        ),
        destination_of("localfilesystem:"@ + name) == Ok::<DestinationView, DestinationError>(
            DestinationView::Path(name),
        ),
{
    reveal_strlit("tcp:");
    reveal_strlit("localabstract:");
    reveal_strlit("localfilesystem:");
    reading_undoes_writing(port as nat, zeros);
    lemma_prefix("tcp:"@, decimal_text(port as nat));
    let padded = Seq::new(zeros, |i: int| '0') + decimal_text(port as nat);
    lemma_prefix("tcp:"@, padded);
    assert(padded[0] != '+');
    let plus = seq!['+'] + decimal_text(port as nat);
    lemma_prefix("tcp:"@, plus);
    assert(plus.skip(1) =~= decimal_text(port as nat));
    lemma_prefix("localabstract:"@, name);
    lemma_prefix("localfilesystem:"@, name);
    let abstract_name = "localabstract:"@ + name;
    let path_name = "localfilesystem:"@ + name;
    assert(abstract_name[0] == 'l' && path_name[0] == 'l' && path_name[5] == 'f');
    if begins_with(abstract_name, "tcp:"@) {
        assert(abstract_name.take(4)[0] == 't');
    }
    if begins_with(path_name, "tcp:"@) {
        assert(path_name.take(4)[0] == 't');
    }
    if begins_with(path_name, "localabstract:"@) {
        assert(path_name.take(14)[5] == 'a');
    }
}

proof fn lemma_prefix(prefix: Seq<char>, rest: Seq<char>)
    ensures
        begins_with(prefix + rest, prefix),
        (prefix + rest).skip(prefix.len() as int) == rest,
{
    assert((prefix + rest).take(prefix.len() as int) =~= prefix);
    assert((prefix + rest).skip(prefix.len() as int) =~= rest);
}

/// A name that is taken for a destination is the name of that destination, so no two destinations
/// share a name; a port beyond 16 bits is none.
pub proof fn destinations_have_their_own_names(name: Seq<char>, n: nat)
    ensures
        match destination_of(name) {
            Ok(DestinationView::Tcp(port)) => exists|digits: Seq<char>|
                is_number(digits) && #[trigger] number(digits) == port && (name == "tcp:"@ + digits
                    || name == "tcp:"@ + seq!['+'] + digits),
            Ok(DestinationView::Abstract(socket)) => name == "localabstract:"@ + socket,
            Ok(DestinationView::Path(path)) => name == "localfilesystem:"@ + path,
            Err(DestinationError::InvalidPort) => begins_with(name, "tcp:"@),
            Err(DestinationError::Unsupported) => !begins_with(name, "tcp:"@) && !begins_with(
                name,
                "localabstract:"@,
            ) && !begins_with(name, "localfilesystem:"@),
        },
        n > u16::MAX ==> destination_of("tcp:"@ + decimal_text(n)) == Err::<
            DestinationView,
            DestinationError,
        >(DestinationError::InvalidPort),
{
    reveal_strlit("tcp:");
    reveal_strlit("localabstract:");
    reveal_strlit("localfilesystem:");
    reading_undoes_writing(n, 0);
    lemma_prefix("tcp:"@, decimal_text(n));
    match destination_of(name) {
        Ok(DestinationView::Tcp(port)) => {
            let rest = name.skip(4);
            let digits = if rest.len() > 0 && rest[0] == '+' {
                rest.skip(1)
            } else {
                rest
            };
            assert(is_number(digits) && number(digits) == port);
            assert(name =~= name.take(4) + rest);
            if rest.len() > 0 && rest[0] == '+' {
                assert(name =~= "tcp:"@ + seq!['+'] + digits);
            }
        },
        Ok(DestinationView::Abstract(socket)) => {
            assert(name =~= name.take(14) + socket);
        },
        Ok(DestinationView::Path(path)) => {
            assert(name =~= name.take(16) + path);
        },
        Err(_) => {},
    }
}

} // verus!
