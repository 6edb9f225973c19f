//! The mathematical model of a writer: its state as a ghost record, and one
//! spec-level transition per event of the API.  The exec writer's contracts
//! say that each event method performs exactly the matching transition, so
//! everything the laws prove of the transitions holds of the writer.

use vstd::prelude::*;

verus! {

/// The writer's cursor: has anything been written at the current nesting
/// level since it was entered?  It is the only state needed to place commas.
#[derive(Clone, Copy)]
pub enum Cursor {
    /// No sibling written yet at this level: the next item must not be
    /// preceded by a comma.
    StartOfContainer,
    /// At least one sibling written at this level: the next item at the same
    /// level must be preceded by a comma.
    AfterValue,
}

/// The abstract state of a writer: nesting depth in spaces, rendering mode,
/// cursor, and the text accumulated so far.
#[verifier::ext_equal]
pub struct WriterModel {
    /// Current indentation, counted in spaces; two per nesting level.
    pub indent: int,
    /// Compact mode: all whitespace emission (indentation, spaces, newlines)
    /// is suppressed, punctuation is unchanged.
    pub compact: bool,
    pub cursor: Cursor,
    /// The output buffer; append-only.
    pub output: Seq<char>,
}

/// `n` space characters (none for a non-positive count).
pub open spec fn spaces(n: int) -> Seq<char> {
    Seq::new(if n < 0 { 0 } else { n as nat }, |i: int| ' ')
}

/// The comma owed by the cursor: one before every item that follows a sibling.
pub open spec fn comma_prefix(m: WriterModel) -> Seq<char> {
    match m.cursor {
        Cursor::AfterValue => seq![','],
        Cursor::StartOfContainer => seq![],
    }
}

/// What "emit indentation" produces: the current indent in spaces, or nothing
/// in compact mode.
pub open spec fn indent_text(m: WriterModel) -> Seq<char> {
    if m.compact {
        seq![]
    } else {
        spaces(m.indent)
    }
}

/// What "emit one space" produces: nothing in compact mode.
pub open spec fn space_text(m: WriterModel) -> Seq<char> {
    if m.compact {
        seq![]
    } else {
        seq![' ']
    }
}

/// What "emit a newline" produces: nothing in compact mode.
pub open spec fn newline_text(m: WriterModel) -> Seq<char> {
    if m.compact {
        seq![]
    } else {
        seq!['\n']
    }
}

/// The model `m` with its indentation changed to `n`.
pub open spec fn with_indent(m: WriterModel, n: int) -> WriterModel {
    WriterModel { indent: n, compact: m.compact, cursor: m.cursor, output: m.output }
}

/// Text of the document opener: comma if owed, indentation, `{`.
pub open spec fn start_emission(m: WriterModel) -> Seq<char> {
    comma_prefix(m) + indent_text(m) + seq!['{']
}

pub open spec fn step_start(m: WriterModel) -> WriterModel {
    WriterModel {
        indent: m.indent + 2,
        compact: m.compact,
        cursor: Cursor::StartOfContainer,
        output: m.output + start_emission(m),
    }
}

/// Text of the document closer: newline, the parent's indentation, `}`.
pub open spec fn end_emission(m: WriterModel) -> Seq<char> {
    newline_text(m) + indent_text(with_indent(m, m.indent - 2)) + seq!['}']
}

pub open spec fn step_end(m: WriterModel) -> WriterModel {
    WriterModel {
        indent: m.indent - 2,
        compact: m.compact,
        cursor: m.cursor,
        output: m.output + end_emission(m),
    }
}

/// Text of a named object opener: comma if owed, newline, indentation, the
/// name, `:`, one space, `{`.
pub open spec fn object_start_emission(m: WriterModel, name: Seq<char>) -> Seq<char> {
    comma_prefix(m) + newline_text(m) + indent_text(m) + name + seq![':'] + space_text(m)
        + seq!['{']
}

pub open spec fn step_object_start(m: WriterModel, name: Seq<char>) -> WriterModel {
    WriterModel {
        indent: m.indent + 2,
        compact: m.compact,
        cursor: Cursor::StartOfContainer,
        output: m.output + object_start_emission(m, name),
    }
}

/// Text of a named array opener: as an object opener, with `[`.
pub open spec fn array_start_emission(m: WriterModel, name: Seq<char>) -> Seq<char> {
    comma_prefix(m) + newline_text(m) + indent_text(m) + name + seq![':'] + space_text(m)
        + seq!['[']
}

pub open spec fn step_array_start(m: WriterModel, name: Seq<char>) -> WriterModel {
    WriterModel {
        indent: m.indent + 2,
        compact: m.compact,
        cursor: Cursor::StartOfContainer,
        output: m.output + array_start_emission(m, name),
    }
}

/// Text of an object closer: newline, the parent's indentation, `}`, and,
/// when the closer returns the writer to the top level, one trailing newline.
pub open spec fn object_end_emission(m: WriterModel) -> Seq<char> {
    newline_text(m) + indent_text(with_indent(m, m.indent - 2)) + seq!['}'] + (
    if m.indent - 2 == 0 {
        newline_text(m)
    } else {
        seq![]
    })
}

pub open spec fn step_object_end(m: WriterModel) -> WriterModel {
    WriterModel {
        indent: m.indent - 2,
        compact: m.compact,
        cursor: Cursor::AfterValue,
        output: m.output + object_end_emission(m),
    }
}

/// Text of an array closer: newline, the parent's indentation, `]`.
pub open spec fn array_end_emission(m: WriterModel) -> Seq<char> {
    newline_text(m) + indent_text(with_indent(m, m.indent - 2)) + seq![']']
}

pub open spec fn step_array_end(m: WriterModel) -> WriterModel {
    WriterModel {
        indent: m.indent - 2,
        compact: m.compact,
        cursor: Cursor::AfterValue,
        output: m.output + array_end_emission(m),
    }
}

/// Text of a key-value pair: comma if owed, newline, indentation, the key,
/// `:`, one space, the value.
pub open spec fn key_value_emission(m: WriterModel, key: Seq<char>, value: Seq<char>) -> Seq<
    char,
> {
    comma_prefix(m) + newline_text(m) + indent_text(m) + key + seq![':'] + space_text(m) + value
}

pub open spec fn step_key_value(m: WriterModel, key: Seq<char>, value: Seq<char>) -> WriterModel {
    WriterModel {
        indent: m.indent,
        compact: m.compact,
        cursor: Cursor::AfterValue,
        output: m.output + key_value_emission(m, key, value),
    }
}

/// Text of a bare element: comma if owed, newline, indentation, the value.
pub open spec fn element_emission(m: WriterModel, value: Seq<char>) -> Seq<char> {
    comma_prefix(m) + newline_text(m) + indent_text(m) + value
}

pub open spec fn step_element(m: WriterModel, value: Seq<char>) -> WriterModel {
    WriterModel {
        indent: m.indent,
        compact: m.compact,
        cursor: Cursor::AfterValue,
        output: m.output + element_emission(m, value),
    }
}

/// The transition of a raw append: the text goes to the buffer unchanged,
/// nothing else moves.
pub open spec fn step_write(m: WriterModel, text: Seq<char>) -> WriterModel {
    WriterModel {
        indent: m.indent,
        compact: m.compact,
        cursor: m.cursor,
        output: m.output + text,
    }
}

/// The state of a freshly constructed writer: top level, nothing written.
pub open spec fn init_model(compact: bool) -> WriterModel {
    WriterModel {
        indent: 0,
        compact: compact,
        cursor: Cursor::StartOfContainer,
        output: Seq::empty(),
    }
}

/// One structural event of the API, with its text tokens.  Ghost: the laws
/// quantify over sequences of these.
pub enum Event {
    Start,
    End,
    ObjectStart(Seq<char>),
    ArrayStart(Seq<char>),
    ObjectEnd,
    ArrayEnd,
    KeyValue(Seq<char>, Seq<char>),
    Element(Seq<char>),
}

/// The transition an event performs on a writer's state.
pub open spec fn step(m: WriterModel, e: Event) -> WriterModel {
    match e {
        Event::Start => step_start(m),
        Event::End => step_end(m),
        Event::ObjectStart(name) => step_object_start(m, name),
        Event::ArrayStart(name) => step_array_start(m, name),
        Event::ObjectEnd => step_object_end(m),
        Event::ArrayEnd => step_array_end(m),
        Event::KeyValue(key, value) => step_key_value(m, key, value),
        Event::Element(value) => step_element(m, value),
    }
}

/// The state after a whole sequence of events, first event first.
pub open spec fn run(m: WriterModel, events: Seq<Event>) -> WriterModel
    decreases events.len(),
{
    if events.len() == 0 {
        m
    } else {
        run(step(m, events[0]), events.drop_first())
    }
}

} // verus!
