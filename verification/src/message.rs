use vstd::prelude::*;

verus! {

/// Identifies the type of protobuf message in a log entry.
#[derive(Debug, Clone, Copy, PartialEq, Eq, Hash, Structural)]
pub enum MessageId {
    /// Ignore this message.
    Blank,
    /// Unknown message type (try to guess by parsing).
    Unknown,
    /// Legacy SSL-Vision wrapper (2010 format).
    Vision2010,
    /// Game controller / referee message (2013+ format).
    Referee2013,
    /// SSL-Vision wrapper (2014+ format).
    Vision2014,
    /// Tracked vision data (2020+ format).
    VisionTracker2020,
    /// Index message (2021+ format).
    Index2021,
}

impl MessageId {
    /// The raw `i32` value that stands for this message type in a log file.
    pub open spec fn code(self) -> i32 {
        match self {
            MessageId::Blank => 0,
            MessageId::Unknown => 1,
            MessageId::Vision2010 => 2,
            MessageId::Referee2013 => 3,
            MessageId::Vision2014 => 4,
            MessageId::VisionTracker2020 => 5,
            MessageId::Index2021 => 6,
        }
    }

    /// The message type whose raw value is `value`, if there is one.
    pub open spec fn from_code(value: i32) -> Option<MessageId> {
        if value == 0 {
            Some(MessageId::Blank)
        } else if value == 1 {
            Some(MessageId::Unknown)
        } else if value == 2 {
            Some(MessageId::Vision2010)
        } else if value == 3 {
            Some(MessageId::Referee2013)
        } else if value == 4 {
            Some(MessageId::Vision2014)
        } else if value == 5 {
            Some(MessageId::VisionTracker2020)
        } else if value == 6 {
            Some(MessageId::Index2021)
        } else {
            None
        }
    }

    /// The name under which the message type is displayed.
    pub open spec fn name(self) -> Seq<char> {
        match self {
            MessageId::Blank => "Blank"@,
            MessageId::Unknown => "Unknown"@,
            MessageId::Vision2010 => "Vision2010"@,
            MessageId::Referee2013 => "Referee2013"@,
            MessageId::Vision2014 => "Vision2014"@,
            MessageId::VisionTracker2020 => "VisionTracker2020"@,
            MessageId::Index2021 => "Index2021"@,
        }
    }

    /// Convert from a raw `i32` value.
    ///
    /// Returns `None` for unrecognized values.
    pub fn from_i32(value: i32) -> (r: Option<Self>)
        ensures
            r == Self::from_code(value),
            r is Some <==> 0 <= value <= 6,
            r matches Some(id) ==> id.code() == value,
    {
        match value {
            0 => Some(MessageId::Blank),
            1 => Some(MessageId::Unknown),
            2 => Some(MessageId::Vision2010),
            3 => Some(MessageId::Referee2013),
            4 => Some(MessageId::Vision2014),
            5 => Some(MessageId::VisionTracker2020),
            6 => Some(MessageId::Index2021),
            _ => None,
        }
    }

    /// Convert to the raw `i32` value.
    pub fn as_i32(self) -> (r: i32)
        ensures
            r == self.code(),
            0 <= r <= 6,
            Self::from_code(r) == Some(self),
    {
        match self {
            MessageId::Blank => 0,
            MessageId::Unknown => 1,
            MessageId::Vision2010 => 2,
            MessageId::Referee2013 => 3,
            MessageId::Vision2014 => 4,
            MessageId::VisionTracker2020 => 5,
            MessageId::Index2021 => 6,
        }
    }

    /// The name under which the message type is displayed, as `Display` shows it.
    pub fn to_display_string(self) -> (s: String)
        ensures
            s@ == self.name(),
    {
        let s = match self {
            MessageId::Blank => "Blank",
            MessageId::Unknown => "Unknown",
            MessageId::Vision2010 => "Vision2010",
            MessageId::Referee2013 => "Referee2013",
            MessageId::Vision2014 => "Vision2014",
            MessageId::VisionTracker2020 => "VisionTracker2020",
            MessageId::Index2021 => "Index2021",
        };
        String::from_str(s)
    }
}

/// Converting a message type to its raw value and back gives the same message
/// type, and a raw value that names a message type is that type's raw value.
pub proof fn lemma_message_id_code_roundtrip(id: MessageId, value: i32)
    ensures
        MessageId::from_code(id.code()) == Some(id),
        MessageId::from_code(value) matches Some(v) ==> v.code() == value,
{
}

/// A single message read from or written to a log file.
#[derive(Debug, Clone)]
pub struct LogMessage {
    /// Receiver timestamp in nanoseconds since the Unix epoch.
    pub timestamp_ns: i64,
    /// The type of the protobuf payload.
    pub message_id: MessageId,
    /// The raw protobuf-encoded payload.
    pub payload: Vec<u8>,
}

/// What a log message holds, with its payload as a sequence of bytes.
pub struct LogMessageView {
    pub timestamp_ns: i64,
    pub message_id: MessageId,
    pub payload: Seq<u8>,
}

impl View for LogMessage {
    type V = LogMessageView;

    open spec fn view(&self) -> LogMessageView {
        LogMessageView {
            timestamp_ns: self.timestamp_ns,
            message_id: self.message_id,
            payload: self.payload@,
        }
    }
}

} // verus!
