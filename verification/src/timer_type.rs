//! The kinds of alarm timers: the `TimerType` enumeration of the service's Protobuf
//! interface, and the kinds that the service actually stores.

use vstd::prelude::*;
use crate::error::{Code, Status, status_is};

verus! {

/// The kinds of timer that the Protobuf interface names.
#[derive(Clone, Copy, Debug, PartialEq, Eq, Structural)]
pub enum TimerType {
    Unknown,
    BypassReminder,
    Snooze,
}

/// A number that names no `TimerType`.
#[derive(Clone, Copy, Debug, PartialEq, Eq, Structural)]
pub struct UnknownEnumValue(pub i32);

impl TimerType {
    /// The number that encodes the kind on the wire.
    pub open spec fn spec_value(self) -> i32 {
        match self {
            TimerType::Unknown => 0,
            TimerType::BypassReminder => 1,
            TimerType::Snooze => 2,
        }
    }

    /// The name of the kind in the Protobuf definition.
    pub open spec fn spec_str_name(self) -> Seq<char> {
        match self {
            TimerType::Unknown => "TimerType_UNKNOWN"@,
            TimerType::BypassReminder => "TimerType_BYPASS_REMINDER"@,
            TimerType::Snooze => "TimerType_SNOOZE"@,
        }
    }

    /// The kind that the number `value` encodes, if any.
    pub open spec fn spec_from_value(value: i32) -> Option<TimerType> {
        if value == 0 {
            Some(TimerType::Unknown)
        } else if value == 1 {
            Some(TimerType::BypassReminder)
        } else if value == 2 {
            Some(TimerType::Snooze)
        } else {
            None
        }
    }

    /// The kind whose Protobuf name is `name`, if any.
    pub open spec fn spec_from_str_name(name: Seq<char>) -> Option<TimerType> {
        if name == "TimerType_UNKNOWN"@ {
            Some(TimerType::Unknown)
        } else if name == "TimerType_BYPASS_REMINDER"@ {
            Some(TimerType::BypassReminder)
        } else if name == "TimerType_SNOOZE"@ {
            Some(TimerType::Snooze)
        } else {
            None
        }
    }

    /// The number that encodes the kind on the wire.
    pub fn value(self) -> (v: i32)
        ensures
            v == self.spec_value(),
    {
        match self {
            TimerType::Unknown => 0,
            TimerType::BypassReminder => 1,
            TimerType::Snooze => 2,
        }
    }

    /// Decodes a wire number; a number that names no kind is an error that carries it.
    pub fn try_from_i32(value: i32) -> (r: Result<TimerType, UnknownEnumValue>)
        ensures
            r is Ok <==> TimerType::spec_from_value(value) is Some,
            r matches Ok(t) ==> TimerType::spec_from_value(value) == Some(t),
            r matches Err(e) ==> e.0 == value,
    {
        if value == 0 {
            Ok(TimerType::Unknown)
        } else if value == 1 {
            Ok(TimerType::BypassReminder)
        } else if value == 2 {
            Ok(TimerType::Snooze)
        } else {
            Err(UnknownEnumValue(value))
        }
    }

    /// The name of the kind in the Protobuf definition.
    pub fn as_str_name(&self) -> (name: &'static str)
        ensures
            name@ == self.spec_str_name(),
    {
        match self {
            TimerType::Unknown => "TimerType_UNKNOWN",
            TimerType::BypassReminder => "TimerType_BYPASS_REMINDER",
            TimerType::Snooze => "TimerType_SNOOZE",
        }
    }

    /// The kind whose Protobuf name is `name`, if any.
    pub fn from_str_name(name: &str) -> (t: Option<TimerType>)
        ensures
            t == TimerType::spec_from_str_name(name@),
    {
        let name = String::from_str(name);
        if name == String::from_str("TimerType_UNKNOWN") {
            Some(TimerType::Unknown)
        } else if name == String::from_str("TimerType_BYPASS_REMINDER") {
            Some(TimerType::BypassReminder)
        } else if name == String::from_str("TimerType_SNOOZE") {
            Some(TimerType::Snooze)
        } else {
            None
        }
    }
}

/// Reading back the Protobuf name of a kind gives the kind.
pub proof fn lemma_str_name_round_trip(t: TimerType)
    ensures
        TimerType::spec_from_str_name(t.spec_str_name()) == Some(t),
{
    reveal_strlit("TimerType_UNKNOWN");
    reveal_strlit("TimerType_BYPASS_REMINDER");
    reveal_strlit("TimerType_SNOOZE");
    assert("TimerType_UNKNOWN"@.len() == 17);
    assert("TimerType_BYPASS_REMINDER"@.len() == 25);
    assert("TimerType_SNOOZE"@.len() == 16);
}

/// Decoding the wire number of a kind gives the kind.
pub proof fn lemma_value_round_trip(t: TimerType)
    ensures
        TimerType::spec_from_value(t.spec_value()) == Some(t),
{
}

/// The kinds of timer that the service stores.
#[derive(Clone, Copy, Debug, PartialEq, Eq, Structural)]
pub enum KnownTimerType {
    Bypass,
    Snooze,
}

/// The message with which a request naming no stored kind of timer is refused.
pub open spec fn invalid_timer_type_message() -> Seq<char> {
    "Invalid \"timer_type\" value."@
}

impl KnownTimerType {
    /// The interface kind that a stored kind stands for.
    pub open spec fn timer_type(self) -> TimerType {
        match self {
            KnownTimerType::Bypass => TimerType::BypassReminder,
            KnownTimerType::Snooze => TimerType::Snooze,
        }
    }

    /// The stored kind for an interface kind; `Unknown` is refused as an invalid argument.
    pub fn try_from(value: TimerType) -> (r: Result<KnownTimerType, Status>)
        ensures
            r is Ok <==> value != TimerType::Unknown,
            r matches Ok(k) ==> k.timer_type() == value,
            r matches Err(s) ==> status_is(s, Code::InvalidArgument, invalid_timer_type_message()),
    {
        match value {
            TimerType::BypassReminder => Ok(KnownTimerType::Bypass),
            TimerType::Snooze => Ok(KnownTimerType::Snooze),
            TimerType::Unknown => Err(Status::invalid_argument("Invalid \"timer_type\" value.")),
        }
    }

    /// The name under which the kind is stored: the Protobuf name of its interface kind.
    pub fn as_string_name(&self) -> (name: String)
        ensures
            name@ == self.timer_type().spec_str_name(),
    {
        let t = match self {
            KnownTimerType::Bypass => TimerType::BypassReminder,
            KnownTimerType::Snooze => TimerType::Snooze,
        };
        String::from_str(t.as_str_name())
    }
}

} // verus!
