//! The stateful writer.  [`JsonWriter`] is the event API; every method's
//! contract says that the call performs exactly the matching transition of
//! the model.  [`Context`] is the one implementation: it holds the nesting
//! depth, the mode, the cursor, and the output buffer.
//!
//! Callers are responsible for matching begin/end pairs in valid nesting
//! order; closing more containers than were opened is ruled out by the
//! preconditions (the depth may never drop below zero).  Both kinds of begin
//! event reset the cursor, so the first child of a container is never given a
//! leading comma inherited from the parent's last sibling.

use vstd::prelude::*;

use crate::model::Cursor;
use crate::model::WriterModel;
use crate::model::init_model;
use crate::model::step_array_end;
use crate::model::step_array_start;
use crate::model::step_element;
use crate::model::step_end;
use crate::model::step_key_value;
use crate::model::step_object_end;
use crate::model::step_object_start;
use crate::model::step_start;
use crate::model::step_write;
use crate::model::indent_text;
use crate::model::newline_text;
use crate::model::space_text;
use crate::model::spaces;

verus! {

/// The event API of a streaming writer.  Each method is chainable: it
/// returns the writer it was called on, so calls can be strung together.
/// The contracts are stated over the abstract state [`WriterModel`].
pub trait JsonWriter: Sized {
    /// The abstract state this writer is in.
    spec fn model(&self) -> WriterModel;

    /// Deepens the nesting by one level (two spaces).
    fn indent(&mut self) -> (ret: &mut Self)
        requires
            old(self).model().indent + 2 <= usize::MAX as int,
        ensures
            ret.model() == (WriterModel {
                indent: old(self).model().indent + 2,
                ..old(self).model()
            }),
            *final(self) == *final(ret),
    ;

    /// Shallows the nesting by one level (two spaces).
    fn deindent(&mut self) -> (ret: &mut Self)
        requires
            old(self).model().indent >= 2,
        ensures
            ret.model() == (WriterModel {
                indent: old(self).model().indent - 2,
                ..old(self).model()
            }),
            *final(self) == *final(ret),
    ;

    /// Emits the current indentation: one space per counted unit, nothing in
    /// compact mode.
    fn advance(&mut self) -> (ret: &mut Self)
        ensures
            ret.model() == step_write(old(self).model(), indent_text(old(self).model())),
            *final(self) == *final(ret),
    ;

    /// Emits one space, nothing in compact mode.
    fn write_one_space(&mut self) -> (ret: &mut Self)
        ensures
            ret.model() == step_write(old(self).model(), space_text(old(self).model())),
            *final(self) == *final(ret),
    ;

    /// Emits one newline, nothing in compact mode.
    fn write_new_line(&mut self) -> (ret: &mut Self)
        ensures
            ret.model() == step_write(old(self).model(), newline_text(old(self).model())),
            *final(self) == *final(ret),
    ;

    /// Opens the document: a comma if one is owed, the indentation, `{`;
    /// deepens the nesting and resets the cursor.
    fn json_start(&mut self) -> (ret: &mut Self)
        requires
            old(self).model().indent + 2 <= usize::MAX as int,
        ensures
            ret.model() == step_start(old(self).model()),
            *final(self) == *final(ret),
    ;

    /// Closes the document: a newline, the parent's indentation, `}`.
    fn json_end(&mut self) -> (ret: &mut Self)
        requires
            old(self).model().indent >= 2,
        ensures
            ret.model() == step_end(old(self).model()),
            *final(self) == *final(ret),
    ;

    /// Opens a named object: a comma if one is owed, a newline, the
    /// indentation, the name, `:`, one space, `{`; deepens the nesting and
    /// resets the cursor.
    fn json_objectstart(&mut self, value: &str) -> (ret: &mut Self)
        requires
            old(self).model().indent + 2 <= usize::MAX as int,
        ensures
            ret.model() == step_object_start(old(self).model(), value@),
            *final(self) == *final(ret),
    ;

    /// Opens a named array: as an object, with `[`.
    fn json_arraystart(&mut self, value: &str) -> (ret: &mut Self)
        requires
            old(self).model().indent + 2 <= usize::MAX as int,
        ensures
            ret.model() == step_array_start(old(self).model(), value@),
            *final(self) == *final(ret),
    ;

    /// Closes an object: a newline, the parent's indentation, `}`, and a
    /// trailing newline when this closes the outermost level; the next
    /// sibling at the parent's level owes a comma.
    fn json_objectend(&mut self) -> (ret: &mut Self)
        requires
            old(self).model().indent >= 2,
        ensures
            ret.model() == step_object_end(old(self).model()),
            *final(self) == *final(ret),
    ;

    /// Closes an array: a newline, the parent's indentation, `]`; the next
    /// sibling at the parent's level owes a comma.
    fn json_arrayend(&mut self) -> (ret: &mut Self)
        requires
            old(self).model().indent >= 2,
        ensures
            ret.model() == step_array_end(old(self).model()),
            *final(self) == *final(ret),
    ;

    /// Writes one key-value pair: a comma if one is owed, a newline, the
    /// indentation, the key, `:`, one space, the value.  The key and the
    /// value are taken as pre-formatted text and copied through verbatim.
    fn json_keyvalue(&mut self, key: &str, value: &str) -> (ret: &mut Self)
        ensures
            ret.model() == step_key_value(old(self).model(), key@, value@),
            *final(self) == *final(ret),
    ;

    /// Writes one bare element: a comma if one is owed, a newline, the
    /// indentation, the value taken as pre-formatted text.
    fn json_element(&mut self, value: &str) -> (ret: &mut Self)
        ensures
            ret.model() == step_element(old(self).model(), value@),
            *final(self) == *final(ret),
    ;
}

/// A writer over an in-memory buffer.  The mode is fixed at construction;
/// the buffer is the only externally observable artifact.
pub struct Context {
    indent: usize,
    compact: bool,
    state: Cursor,
    /// The accumulated document text.
    pub output: String,
}

impl Context {
    /// A fresh pretty-printing writer: top level, empty buffer.
    pub fn new() -> (c: Context)
        ensures
            c.model() == init_model(false),
    {
        Context::with_mode(false)
    }

    /// A fresh writer in the given mode: compact suppresses all whitespace
    /// emission for the life of the instance.
    pub fn with_mode(compact: bool) -> (c: Context)
        ensures
            c.model() == init_model(compact),
    {
        let c = Context {
            indent: 0,
            compact: compact,
            state: Cursor::StartOfContainer,
            output: String::new(),
        };
        proof {
            assert(c.model() =~= init_model(compact));
        }
        c
    }

    /// The accumulated document text; consumes the writer.
    pub fn into_output(self) -> (out: String)
        ensures
            out@ == self.model().output,
    {
        self.output
    }

    /// Appends raw text to the buffer; no punctuation or whitespace logic.
    pub fn write(&mut self, string: &str) -> (ret: &mut Self)
        ensures
            ret.model() == step_write(old(self).model(), string@),
            *final(self) == *final(ret),
    {
        self.output.append(string);
        proof {
            assert(self.model() =~= step_write(old(self).model(), string@));
        }
        self
    }
}

impl JsonWriter for Context {
    closed spec fn model(&self) -> WriterModel {
        WriterModel {
            indent: self.indent as int,
            compact: self.compact,
            cursor: self.state,
            output: self.output@,
        }
    }

    fn indent(&mut self) -> (ret: &mut Self) {
        self.indent = self.indent + 2;
        self
    }

    fn deindent(&mut self) -> (ret: &mut Self) {
        self.indent = self.indent - 2;
        self
    }

    fn advance(&mut self) -> (ret: &mut Self) {
        if !self.compact {
            let n: usize = self.indent;
            let mut i: usize = 0;
            while i < n
                invariant
                    i <= n,
                    n == old(self).indent,
                    self.indent == old(self).indent,
                    self.compact == old(self).compact,
                    !self.compact,
                    self.state == old(self).state,
                    self.output@ == old(self).output@ + spaces(i as int),
                decreases n - i,
            {
                self.output.append(" ");
                proof {
                    reveal_strlit(" ");
                    assert(old(self).output@ + spaces(i as int) + " "@ =~= old(self).output@
                        + spaces(i + 1 as int));
                }
                i = i + 1;
            }
            proof {
                assert(self.model() =~= step_write(
                    old(self).model(),
                    indent_text(old(self).model()),
                ));
            }
        } else {
            proof {
                assert(self.output@ =~= old(self).output@ + indent_text(old(self).model()));
                assert(self.model() =~= step_write(
                    old(self).model(),
                    indent_text(old(self).model()),
                ));
            }
        }
        self
    }

    fn write_one_space(&mut self) -> (ret: &mut Self) {
        if !self.compact {
            self.output.append(" ");
        }
        proof {
            reveal_strlit(" ");
            assert(self.output@ =~= old(self).output@ + space_text(old(self).model()));
            assert(self.model() =~= step_write(old(self).model(), space_text(old(self).model())));
        }
        self
    }

    fn write_new_line(&mut self) -> (ret: &mut Self) {
        if !self.compact {
            self.output.append("\n");
        }
        proof {
            reveal_strlit("\n");
            assert(self.output@ =~= old(self).output@ + newline_text(old(self).model()));
            assert(self.model() =~= step_write(old(self).model(), newline_text(old(self).model())));
        }
        self
    }

    fn json_start(&mut self) -> (ret: &mut Self) {
        match self.state {
            Cursor::AfterValue => {
                self.write(",");
            },
            Cursor::StartOfContainer => {},
        }
        self.advance();
        self.write("{");
        self.indent();
        self.state = Cursor::StartOfContainer;
        proof {
            reveal_strlit(",");
            reveal_strlit("{");
            assert(self.model().output =~= step_start(old(self).model()).output);
            assert(self.model() =~= step_start(old(self).model()));
        }
        self
    }

    fn json_end(&mut self) -> (ret: &mut Self) {
        self.write_new_line();
        self.deindent();
        self.advance();
        self.write("}");
        proof {
            reveal_strlit("}");
            assert(self.model().output =~= step_end(old(self).model()).output);
            assert(self.model() =~= step_end(old(self).model()));
        }
        self
    }

    fn json_objectstart(&mut self, value: &str) -> (ret: &mut Self) {
        match self.state {
            Cursor::AfterValue => {
                self.write(",");
            },
            Cursor::StartOfContainer => {},
        }
        self.write_new_line();
        self.advance();
        self.write(value);
        self.write(":");
        self.write_one_space();
        self.write("{");
        self.indent();
        self.state = Cursor::StartOfContainer;
        proof {
            reveal_strlit(",");
            reveal_strlit(":");
            reveal_strlit("{");
            assert(self.model().output =~= step_object_start(old(self).model(), value@).output);
            assert(self.model() =~= step_object_start(old(self).model(), value@));
        }
        self
    }

    fn json_arraystart(&mut self, value: &str) -> (ret: &mut Self) {
        match self.state {
            Cursor::AfterValue => {
                self.write(",");
            },
            Cursor::StartOfContainer => {},
        }
        self.write_new_line();
        self.advance();
        self.write(value);
        self.write(":");
        self.write_one_space();
        self.write("[");
        self.indent();
        self.state = Cursor::StartOfContainer;
        proof {
            reveal_strlit(",");
            reveal_strlit(":");
            reveal_strlit("[");
            assert(self.model().output =~= step_array_start(old(self).model(), value@).output);
            assert(self.model() =~= step_array_start(old(self).model(), value@));
        }
        self
    }

    fn json_objectend(&mut self) -> (ret: &mut Self) {
        self.write_new_line();
        self.deindent();
        self.advance();
        self.write("}");
        if self.indent == 0 {
            self.write_new_line();
        }
        self.state = Cursor::AfterValue;
        proof {
            reveal_strlit("}");
            assert(self.model().output =~= step_object_end(old(self).model()).output);
            assert(self.model() =~= step_object_end(old(self).model()));
        }
        self
    }

    fn json_arrayend(&mut self) -> (ret: &mut Self) {
        self.write_new_line();
        self.deindent();
        self.advance();
        self.write("]");
        self.state = Cursor::AfterValue;
        proof {
            reveal_strlit("]");
            assert(self.model().output =~= step_array_end(old(self).model()).output);
            assert(self.model() =~= step_array_end(old(self).model()));
        }
        self
    }

    fn json_keyvalue(&mut self, key: &str, value: &str) -> (ret: &mut Self) {
        match self.state {
            Cursor::AfterValue => {
                self.write(",");
            },
            Cursor::StartOfContainer => {},
        }
        self.write_new_line();
        self.advance();
        self.write(key);
        self.write(":");
        self.write_one_space();
        self.write(value);
        self.state = Cursor::AfterValue;
        proof {
            reveal_strlit(",");
            reveal_strlit(":");
            assert(self.model().output =~= step_key_value(old(self).model(), key@, value@).output);
            assert(self.model() =~= step_key_value(old(self).model(), key@, value@));
        }
        self
    }

    fn json_element(&mut self, value: &str) -> (ret: &mut Self) {
        match self.state {
            Cursor::AfterValue => {
                self.write(",");
            },
            Cursor::StartOfContainer => {},
        }
        self.write_new_line();
        self.advance();
        self.write(value);
        self.state = Cursor::AfterValue;
        proof {
            reveal_strlit(",");
            assert(self.model().output =~= step_element(old(self).model(), value@).output);
            assert(self.model() =~= step_element(old(self).model(), value@));
        }
        self
    }
}

} // verus!
