//! The structural events that the record filter consumes and produces, and
//! the element names it reads.

use vstd::prelude::*;
use crate::text::str_eq;

verus! {

/// The kinds of events the filter forwards without inspecting them.
#[derive(Clone, Copy, PartialEq, Eq, Debug)]
pub enum OtherKind {
    /// A self-closing element.
    Empty,
    /// A comment.
    Comment,
    /// A character-data section.
    CData,
    /// A document declaration.
    Declaration,
    /// A processing instruction.
    Instruction,
    /// A document-type declaration.
    DocType,
    /// A general entity reference standing on its own.
    GeneralRef,
}

/// One structural event of a markup document, with names and content held
/// as plain strings.
#[derive(Clone, PartialEq, Eq, Debug)]
pub enum Event {
    /// The start of an element; `attrs` is its raw attribute text, which the
    /// filter carries through without reading it.
    Start { name: String, attrs: String },
    /// The end of an element.
    End { name: String },
    /// Text content.
    Text { content: String },
    /// Any other event; the filter never looks inside it.
    Other { kind: OtherKind, content: String },
}

/// The mathematical value of an `Event`: the same shape over character
/// sequences.
#[verifier::ext_equal]
pub enum SpecEvent {
    Start { name: Seq<char>, attrs: Seq<char> },
    End { name: Seq<char> },
    Text { content: Seq<char> },
    Other { kind: OtherKind, content: Seq<char> },
}

impl View for Event {
    type V = SpecEvent;

    open spec fn view(&self) -> SpecEvent {
        match self {
            Event::Start { name, attrs } => SpecEvent::Start { name: name@, attrs: attrs@ },
            Event::End { name } => SpecEvent::End { name: name@ },
            Event::Text { content } => SpecEvent::Text { content: content@ },
            Event::Other { kind, content } => SpecEvent::Other {
                kind: *kind,
                content: content@,
            },
        }
    }
}

impl Event {
    /// An owned copy of the event.
    pub fn dup(&self) -> (e: Event)
        ensures
            e@ == self@,
    {
        match self {
            Event::Start { name, attrs } => Event::Start {
                name: name.clone(),
                attrs: attrs.clone(),
            },
            Event::End { name } => Event::End { name: name.clone() },
            Event::Text { content } => Event::Text { content: content.clone() },
            Event::Other { kind, content } => Event::Other {
                kind: *kind,
                content: content.clone(),
            },
        }
    }
}

/// The values of a sequence of events.
pub open spec fn events_view(evs: Seq<Event>) -> Seq<SpecEvent> {
    evs.map_values(|e: Event| e@)
}

/// The character sequences of a list of words.
pub open spec fn words_view(ws: Seq<String>) -> Seq<Seq<char>> {
    ws.map_values(|w: String| w@)
}

/// The name of the element that encloses the whole run of records.
pub open spec fn collection_name() -> Seq<char> {
    "tags"@
}

/// The name of one record element.
pub open spec fn record_name() -> Seq<char> {
    "tag"@
}

/// The name of an image-stimulus sub-element.
pub open spec fn img_name() -> Seq<char> {
    "nazw_obr"@
}

/// The name of a sound-stimulus sub-element.
pub open spec fn sound_name() -> Seq<char> {
    "nazw_dz"@
}

/// The name marks a stimulus sub-element: an image or sound reference whose
/// text is matched against the exclusion words.
pub open spec fn spec_is_sound_or_img(name: Seq<char>) -> bool {
    name == img_name() || name == sound_name()
}

/// Whether an element name marks a stimulus sub-element.
pub fn is_sound_or_img_tag(name: &str) -> (r: bool)
    ensures
        r == spec_is_sound_or_img(name@),
{
    str_eq(name, "nazw_obr") || str_eq(name, "nazw_dz")
}

} // verus!
