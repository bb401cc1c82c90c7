//! Chat messages as they are stored and sent to a model.
use vstd::prelude::*;

verus! {

/// One message of a pet's chat history.
pub struct ChatMessage {
    pub id: String,
    pub role: String,
    pub content: String,
    pub timestamp: u64,
    pub source: String,
    pub vision_summary: Option<String>,
}

impl ChatMessage {
    pub fn new(id: &str, role: &str, content: &str, timestamp: u64, source: &str) -> (m: Self)
        ensures
            m.id@ == id@,
            m.role@ == role@,
            m.content@ == content@,
            m.timestamp == timestamp,
            m.source@ == source@,
            m.vision_summary is None,
    {
        ChatMessage {
            id: String::from_str(id),
            role: String::from_str(role),
            content: String::from_str(content),
            timestamp,
            source: String::from_str(source),
            vision_summary: None,
        }
    }

    /// A copy of this message.
    pub fn duplicate(&self) -> (m: Self)
        ensures
            m.id@ == self.id@,
            m.role@ == self.role@,
            m.content@ == self.content@,
            m.timestamp == self.timestamp,
            m.source@ == self.source@,
            m.vision_summary.is_some() == self.vision_summary.is_some(),
            m.vision_summary.is_some() ==> m.vision_summary->0@ == self.vision_summary->0@,
    {
        ChatMessage {
            id: self.id.clone(),
            role: self.role.clone(),
            content: self.content.clone(),
            timestamp: self.timestamp,
            source: self.source.clone(),
            vision_summary: match &self.vision_summary {
                Some(s) => Some(s.clone()),
                None => None,
            },
        }
    }
}

/// The messages `start..` of a history, each copied.
pub fn copy_from(messages: &Vec<ChatMessage>, start: usize) -> (res: Vec<ChatMessage>)
    requires
        start <= messages@.len(),
    ensures
        res@.len() == messages@.len() - start,
        forall|i: int|
            0 <= i < res@.len() ==> same_message(#[trigger] res@[i], messages@[start + i]),
{
    let mut out: Vec<ChatMessage> = Vec::new();
    let mut i: usize = start;
    while i < messages.len()
        invariant
            start <= i <= messages@.len(),
            out@.len() == i - start,
            forall|k: int|
                0 <= k < out@.len() ==> same_message(#[trigger] out@[k], messages@[start + k]),
        decreases messages@.len() - i,
    {
        out.push(messages[i].duplicate());
        i = i + 1;
    }
    out
}

/// Two messages with the same contents.
pub open spec fn same_message(a: ChatMessage, b: ChatMessage) -> bool {
    &&& a.id@ == b.id@
    &&& a.role@ == b.role@
    &&& a.content@ == b.content@
    &&& a.timestamp == b.timestamp
    &&& a.source@ == b.source@
    &&& a.vision_summary.is_some() == b.vision_summary.is_some()
    &&& a.vision_summary.is_some() ==> a.vision_summary->0@ == b.vision_summary->0@
}

} // verus!
