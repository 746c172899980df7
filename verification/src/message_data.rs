//! The outbound message envelope: broadcasts carry UTF-8 text of the shape
//! `{"kind":"create"|"update"|"delete","data":<payload>}`, where the payload
//! is an opaque pre-serialized JSON string supplied by the caller. The hub
//! never interprets the payload; this module only frames it.

use vstd::prelude::*;
use vstd::string::StringExecFns;

verus! {

/// What kind of state change a broadcast announces.
pub enum MessageKind {
    Create,
    Update,
    Delete,
}

impl MessageKind {
    /// The wire label of this kind.
    pub open spec fn spec_label(self) -> Seq<char> {
        match self {
            MessageKind::Create => "create"@,
            MessageKind::Update => "update"@,
            MessageKind::Delete => "delete"@,
        }
    }

    /// The wire label of this kind.
    pub fn label(&self) -> (s: &'static str)
        ensures
            s@ == self.spec_label(),
    {
        match self {
            MessageKind::Create => "create",
            MessageKind::Update => "update",
            MessageKind::Delete => "delete",
        }
    }
}

/// The envelope text framing `data` under `kind`.
pub open spec fn envelope(kind: MessageKind, data: Seq<char>) -> Seq<char> {
    "{\"kind\":\""@ + kind.spec_label() + "\",\"data\":"@ + data + "}"@
}

/// One broadcast message before framing: its kind and its pre-serialized
/// JSON payload.
pub struct MessageData {
    pub kind: MessageKind,
    pub data: String,
}

impl MessageData {
    pub fn new(kind: MessageKind, data: String) -> (m: MessageData)
        ensures
            m.kind == kind,
            m.data == data,
    {
        MessageData { kind: kind, data: data }
    }

    pub fn create(data: String) -> (m: MessageData)
        ensures
            m.kind == MessageKind::Create,
            m.data == data,
    {
        MessageData::new(MessageKind::Create, data)
    }

    pub fn update(data: String) -> (m: MessageData)
        ensures
            m.kind == MessageKind::Update,
            m.data == data,
    {
        MessageData::new(MessageKind::Update, data)
    }

    pub fn delete(data: String) -> (m: MessageData)
        ensures
            m.kind == MessageKind::Delete,
            m.data == data,
    {
        MessageData::new(MessageKind::Delete, data)
    }

    /// The framed wire text: exactly the envelope around the payload.
    pub fn to_json(&self) -> (s: String)
        ensures
            s@ == envelope(self.kind, self.data@),
    {
        let mut s = String::new();
        s.append("{\"kind\":\"");
        s.append(self.kind.label());
        s.append("\",\"data\":");
        s.append(self.data.as_str());
        s.append("}");
        proof {
            assert(s@ =~= envelope(self.kind, self.data@));
        }
        s
    }
}

} // verus!
