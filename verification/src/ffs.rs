//! `FunctionFS` events, and the endpoints that systemd hands over.

use crate::text::{
    chars_of, decimal_text, is_digit_char, is_number, number, parse_number, reading_undoes_writing,
};
use vstd::prelude::*;
use vstd::std_specs::convert::TryFromSpecImpl;

verus! {

pub const FUNCTIONFS_BIND: u8 = 0;

pub const FUNCTIONFS_UNBIND: u8 = 1;

pub const FUNCTIONFS_ENABLE: u8 = 2;

pub const FUNCTIONFS_DISABLE: u8 = 3;

pub const FUNCTIONFS_SETUP: u8 = 4;

pub const FUNCTIONFS_SUSPEND: u8 = 5;

pub const FUNCTIONFS_RESUME: u8 = 6;

/// Representation of Linux' `usb_functionfs_event_type`
#[derive(Clone, Copy, Debug, PartialEq, Eq, Structural)]
pub enum UsbFunctionFsEventType {
    Bind,
    Unbind,
    Enable,
    Disable,
    Setup,
    Suspend,
    Resume,
}

/// A number that stands for no event type.
#[derive(Clone, Copy, Debug, PartialEq, Eq, Structural)]
pub struct UsbFunctionFsEventTypeError(pub u8);

/// The event type that a number stands for.
pub open spec fn event_type_of_number(n: u8) -> Result<
    UsbFunctionFsEventType,
    UsbFunctionFsEventTypeError,
> {
    if n == FUNCTIONFS_BIND {
        Ok(UsbFunctionFsEventType::Bind)
    } else if n == FUNCTIONFS_UNBIND {
        Ok(UsbFunctionFsEventType::Unbind)
    } else if n == FUNCTIONFS_ENABLE {
        Ok(UsbFunctionFsEventType::Enable)
    } else if n == FUNCTIONFS_DISABLE {
        Ok(UsbFunctionFsEventType::Disable)
    } else if n == FUNCTIONFS_SETUP {
        Ok(UsbFunctionFsEventType::Setup)
    } else if n == FUNCTIONFS_SUSPEND {
        Ok(UsbFunctionFsEventType::Suspend)
    } else if n == FUNCTIONFS_RESUME {
        Ok(UsbFunctionFsEventType::Resume)
    } else {
        Err(UsbFunctionFsEventTypeError(n))
    }
}

impl TryFromSpecImpl<u8> for UsbFunctionFsEventType {
    open spec fn obeys_try_from_spec() -> bool {
        true
    }

    open spec fn try_from_spec(v: u8) -> Result<Self, Self::Error> {
        event_type_of_number(v)
    }
}

impl TryFrom<u8> for UsbFunctionFsEventType {
    type Error = UsbFunctionFsEventTypeError;

    fn try_from(value: u8) -> (res: Result<Self, UsbFunctionFsEventTypeError>) {
        match value {
            FUNCTIONFS_BIND => Ok(UsbFunctionFsEventType::Bind),
            FUNCTIONFS_UNBIND => Ok(UsbFunctionFsEventType::Unbind),
            FUNCTIONFS_ENABLE => Ok(UsbFunctionFsEventType::Enable),
            FUNCTIONFS_DISABLE => Ok(UsbFunctionFsEventType::Disable),
            FUNCTIONFS_SETUP => Ok(UsbFunctionFsEventType::Setup),
            FUNCTIONFS_SUSPEND => Ok(UsbFunctionFsEventType::Suspend),
            FUNCTIONFS_RESUME => Ok(UsbFunctionFsEventType::Resume),
            other => Err(UsbFunctionFsEventTypeError(other)),
        }
    }
}

impl UsbFunctionFsEventType {
    /// The name of the event.
    pub fn name(&self) -> (res: &'static str)
        ensures
            res@ == match *self {
                UsbFunctionFsEventType::Bind => "Bind"@,
                UsbFunctionFsEventType::Unbind => "Unbind"@,
                UsbFunctionFsEventType::Enable => "Enable"@,
                UsbFunctionFsEventType::Disable => "Disable"@,
                UsbFunctionFsEventType::Setup => "Setup"@,
                UsbFunctionFsEventType::Suspend => "Suspend"@,
                UsbFunctionFsEventType::Resume => "Resume"@,
            },
    {
        match self {
            UsbFunctionFsEventType::Bind => "Bind",
            UsbFunctionFsEventType::Unbind => "Unbind",
            UsbFunctionFsEventType::Enable => "Enable",
            UsbFunctionFsEventType::Disable => "Disable",
            UsbFunctionFsEventType::Setup => "Setup",
            UsbFunctionFsEventType::Suspend => "Suspend",
            UsbFunctionFsEventType::Resume => "Resume",
        }
    }
}

/// How many bytes Linux' `usb_functionfs_event` takes: a control request, the type, and padding.
pub const EVENT_SIZE: usize = 12;

/// Where the type stands in an event, behind the control request.
pub const EVENT_TYPE_OFFSET: usize = 8;

/// Why bytes from ep0 are no event.
#[derive(Clone, Copy, Debug, PartialEq, Eq, Structural)]
pub enum EventError {
    /// Fewer bytes were read than an event takes.
    Short,
    /// The event has an unknown type.
    UnknownType(UsbFunctionFsEventTypeError),
}

/// The type of the event that bytes from ep0 hold.
pub open spec fn event_of(bytes: Seq<u8>) -> Result<UsbFunctionFsEventType, EventError> {
    if bytes.len() < EVENT_SIZE {
        Err(EventError::Short)
    } else {
        match event_type_of_number(bytes[EVENT_TYPE_OFFSET as int]) {
            Ok(event) => Ok(event),
            Err(e) => Err(EventError::UnknownType(e)),
        }
    }
}

/// Returns the type of the event that bytes from ep0 hold.
///
/// # Errors
///
/// Returns an error if the bytes are too few, or the event type is unknown.
pub fn decode_event(bytes: &[u8]) -> (res: Result<UsbFunctionFsEventType, EventError>)
    ensures
        res == event_of(bytes@),
{
    if bytes.len() < EVENT_SIZE {
        return Err(EventError::Short);
    }
    match UsbFunctionFsEventType::try_from(bytes[EVENT_TYPE_OFFSET]) {
        Ok(event) => Ok(event),
        Err(e) => Err(EventError::UnknownType(e)),
    }
}

/// Whether an event ends a connection: the interface was disabled, or the function unbound.
pub open spec fn ends_connection(event: UsbFunctionFsEventType) -> bool {
    event is Disable || event is Unbind
}

/// Whether an event ends a connection.
pub fn is_connection_end(event: UsbFunctionFsEventType) -> (res: bool)
    ensures
        res == ends_connection(event),
{
    match event {
        UsbFunctionFsEventType::Disable => true,
        UsbFunctionFsEventType::Unbind => true,
        _ => false,
    }
}

/// What to do about an event while the host is being waited for.
#[derive(Clone, Copy, Debug, PartialEq, Eq, Structural)]
pub enum EnableWait {
    /// The host enabled the interface: the connection begins.
    Enabled,
    /// Wait for the next event.
    Again,
    /// Ep0 gave no event: give up.
    Failed(EventError),
}

/// What to do about an event while the host is being waited for: only Enable ends the wait well.
pub fn wait_for_enable(event: Result<UsbFunctionFsEventType, EventError>) -> (res: EnableWait)
    ensures
        res == match event {
            Ok(UsbFunctionFsEventType::Enable) => EnableWait::Enabled,
            Ok(_) => EnableWait::Again,
            Err(e) => EnableWait::Failed(e),
        },
{
    match event {
        Ok(UsbFunctionFsEventType::Enable) => EnableWait::Enabled,
        Ok(_) => EnableWait::Again,
        Err(e) => EnableWait::Failed(e),
    }
}

/// The first descriptor that systemd hands over.
pub const SD_LISTEN_FDS_START: i32 = 3;

/// Why the endpoints cannot be taken over.
#[derive(Clone, Copy, Debug, PartialEq, Eq, Structural)]
pub enum ListenFdsError {
    /// `LISTEN_FDS` is no number.
    NotANumber,
    /// `LISTEN_FDS` announces another number of descriptors than the three endpoints.
    WrongCount(i32),
}

/// The descriptors of the three endpoints.
#[derive(Clone, Copy, Debug, PartialEq, Eq, Structural)]
pub struct UsbFds {
    /// The control endpoint.
    pub ep0: i32,
    /// The bulk endpoint from the host.
    pub bulk_out: i32,
    /// The bulk endpoint to the host.
    pub bulk_in: i32,
}

/// The number of 32 bits that a text spells in decimal digits, with or without a sign in front.
pub open spec fn signed_number(s: Seq<char>) -> Option<i32> {
    let signed = s.len() > 0 && (s[0] == '+' || s[0] == '-');
    let digits = if signed {
        s.skip(1)
    } else {
        s
    };
    let value = if signed && s[0] == '-' {
        0 - number(digits)
    } else {
        number(digits) as int
    };
    if is_number(digits) && i32::MIN <= value <= i32::MAX {
        Some(value as i32)
    } else {
        None
    }
}

/// Reads a signed decimal number.
fn parse_signed(text: &str) -> (res: Option<i32>)
    ensures
        res == signed_number(text@),
{
    let chars: Vec<char> = chars_of(text);
    let negative: bool = chars.len() > 0 && chars[0] == '-';
    let from: usize = if negative || (chars.len() > 0 && chars[0] == '+') {
        1
    } else {
        0
    };
    assert(chars@.skip(0) =~= text@);
    let max: u32 = if negative {
        0x8000_0000
    } else {
        0x7fff_ffff
    };
    match parse_number(&chars, from, max) {
        Some(n) => {
            let value: i64 = if negative {
                0 - n as i64
            } else {
                n as i64
            };
            Some(value as i32)
        },
        None => None,
    }
}

/// The endpoints that `LISTEN_FDS` announces.
pub open spec fn announced_fds(listen_fds: Seq<char>) -> Result<UsbFds, ListenFdsError> {
    match signed_number(listen_fds) {
        None => Err(ListenFdsError::NotANumber),
        Some(n) => if n == 3 {
            Ok(UsbFds { ep0: 3, bulk_out: 4, bulk_in: 5 })
        } else {
            Err(ListenFdsError::WrongCount(n))
        },
    }
}

/// Returns the descriptors passed by systemd via socket activation, given `LISTEN_FDS`.
///
/// # Errors
///
/// Returns an error if `LISTEN_FDS` is not parseable, or does not announce exactly 3 file
/// descriptors.
pub fn receive_usb_fds(listen_fds: &str) -> (res: Result<UsbFds, ListenFdsError>)
    ensures
        res == announced_fds(listen_fds@),
{
    match parse_signed(listen_fds) {
        None => Err(ListenFdsError::NotANumber),
        Some(n) => {
            if n != 3 {
                return Err(ListenFdsError::WrongCount(n));
            }
            Ok(
                UsbFds {
                    ep0: SD_LISTEN_FDS_START,
                    bulk_out: SD_LISTEN_FDS_START + 1,
                    bulk_in: SD_LISTEN_FDS_START + 2,
                },
            )
        },
    }
}

/// There are seven event types, with the numbers from 0 to 6; any other number is none, and the
/// error tells which.
pub proof fn seven_numbers_are_events(n: u8)
    ensures
        event_type_of_number(n) is Ok <==> n < 7,
        event_type_of_number(n) matches Err(e) ==> e.0 == n,
        event_type_of_number(2) == Ok::<UsbFunctionFsEventType, UsbFunctionFsEventTypeError>(
            UsbFunctionFsEventType::Enable,
        ),
        n != 2 ==> event_type_of_number(n) != Ok::<
            UsbFunctionFsEventType,
            UsbFunctionFsEventTypeError,
        >(UsbFunctionFsEventType::Enable),
        event_type_of_number(n) matches Ok(event) ==> (ends_connection(event) <==> n == 1 || n
            == 3),
{
}

/// An event has at least twelve bytes, and the ninth alone tells its type: bytes that agree there
/// hold the same event, whatever else they hold.
pub proof fn ninth_byte_tells_the_event(a: Seq<u8>, b: Seq<u8>)
    ensures
        a.len() < 12 <==> event_of(a) == Err::<UsbFunctionFsEventType, EventError>(
            EventError::Short,
        ),
        a.len() >= 12 ==> (event_of(a) is Ok <==> a[8] < 7),
        a.len() >= 12 && b.len() >= 12 && a[8] == b[8] ==> event_of(a) == event_of(b),
        a.len() >= 12 && b.len() >= 12 && event_of(a) == event_of(b) ==> a[8] == b[8],
{
}

/// Three descriptors are taken over, from number 3 on; where another number of them is announced,
/// the error tells how many, and a text that is no number announces none.
pub proof fn three_descriptors_are_taken_over(n: nat, text: Seq<char>, i: int)
    requires
        n <= i32::MAX,
    ensures
        n == 3 ==> announced_fds(decimal_text(n)) == Ok::<UsbFds, ListenFdsError>(
            UsbFds { ep0: 3, bulk_out: 4, bulk_in: 5 },
        ),
        n != 3 ==> announced_fds(decimal_text(n)) == Err::<UsbFds, ListenFdsError>(
            ListenFdsError::WrongCount(n as i32),
        ),
        announced_fds(seq!['+'] + decimal_text(n)) == announced_fds(decimal_text(n)),
        announced_fds(seq!['-'] + decimal_text(n)) == Err::<UsbFds, ListenFdsError>(
            ListenFdsError::WrongCount((0 - n) as i32),
        ),
        0 < i < text.len() && !('0' <= text[i] && text[i] <= '9') ==> announced_fds(text) == Err::<
            UsbFds,
            ListenFdsError,
        >(ListenFdsError::NotANumber),
        announced_fds(Seq::empty()) == Err::<UsbFds, ListenFdsError>(ListenFdsError::NotANumber),
{
    reading_undoes_writing(n, 0);
    assert((seq!['-'] + decimal_text(n)).skip(1) =~= decimal_text(n));
    assert((seq!['+'] + decimal_text(n)).skip(1) =~= decimal_text(n));
    if 0 < i < text.len() && !('0' <= text[i] && text[i] <= '9') {
        assert(text.skip(1)[i - 1] == text[i]);
        assert(!is_digit_char(text.skip(1)[i - 1]));
        assert(!is_digit_char(text[i]));
    }
}

} // verus!
