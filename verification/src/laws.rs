//! The global guarantees of the writer, proved of the model transitions that
//! every event method's contract pins down: balance of the indent level,
//! whitespace equivalence of the two rendering modes, comma placement and
//! sibling ordering, and the trailing newline at the top level.

use vstd::prelude::*;

use crate::model::Cursor;
use crate::model::Event;
use crate::model::WriterModel;
use crate::model::array_end_emission;
use crate::model::comma_prefix;
use crate::model::object_end_emission;
use crate::model::element_emission;
use crate::model::indent_text;
use crate::model::init_model;
use crate::model::key_value_emission;
use crate::model::newline_text;
use crate::model::run;
use crate::model::space_text;
use crate::model::spaces;
use crate::model::step;

verus! {

/// Does the event open a container (and so deepen the nesting)?
pub open spec fn is_begin(e: Event) -> bool {
    e is Start || e is ObjectStart || e is ArrayStart
}

/// Does the event close a container (and so shallow the nesting)?
pub open spec fn is_end(e: Event) -> bool {
    e is End || e is ObjectEnd || e is ArrayEnd
}

/// How many events of the sequence open a container.
pub open spec fn count_begins(events: Seq<Event>) -> int
    decreases events.len(),
{
    if events.len() == 0 {
        0
    } else {
        (if is_begin(events[0]) {
            1int
        } else {
            0int
        }) + count_begins(events.drop_first())
    }
}

/// How many events of the sequence close a container.
pub open spec fn count_ends(events: Seq<Event>) -> int
    decreases events.len(),
{
    if events.len() == 0 {
        0
    } else {
        (if is_end(events[0]) {
            1int
        } else {
            0int
        }) + count_ends(events.drop_first())
    }
}

/// A call sequence is well nested when no prefix of it closes more
/// containers than it has opened.
pub open spec fn well_nested(events: Seq<Event>) -> bool {
    forall|i: int|
        0 <= i <= events.len() ==> count_ends(#[trigger] events.take(i)) <= count_begins(
            events.take(i),
        )
}

/// The indent level moves in lockstep with the balance of begin and end
/// events: two spaces up per begin, two down per end, nothing else touches
/// it.  The mode never moves.
pub proof fn lemma_indent_tracks_counts(m: WriterModel, events: Seq<Event>)
    ensures
        run(m, events).indent == m.indent + 2 * (count_begins(events) - count_ends(events)),
        run(m, events).compact == m.compact,
    decreases events.len(),
{
    if events.len() == 0 {
    } else {
        lemma_indent_tracks_counts(step(m, events[0]), events.drop_first());
    }
}

/// Balance of the indent level: from the top level, the indent returns to
/// zero exactly when every begin event has a matching end event, and for a
/// well-nested sequence it never goes negative at any point.
pub proof fn lemma_depth_balance(compact: bool, events: Seq<Event>)
    ensures
        run(init_model(compact), events).indent == 2 * (count_begins(events) - count_ends(
            events,
        )),
        run(init_model(compact), events).indent == 0 <==> count_begins(events) == count_ends(
            events,
        ),
        well_nested(events) ==> forall|i: int|
            0 <= i <= events.len() ==> run(init_model(compact), #[trigger] events.take(i)).indent
                >= 0,
{
    lemma_indent_tracks_counts(init_model(compact), events);
    if well_nested(events) {
        assert forall|i: int| 0 <= i <= events.len() implies run(
            init_model(compact),
            #[trigger] events.take(i),
        ).indent >= 0 by {
            lemma_indent_tracks_counts(init_model(compact), events.take(i));
        }
    }
}

/// Running a sequence and then one more event is one more step.
pub proof fn lemma_run_snoc(m: WriterModel, events: Seq<Event>, e: Event)
    ensures
        run(m, events.push(e)) == step(run(m, events), e),
    decreases events.len(),
{
    if events.len() == 0 {
        assert(events.push(e)[0] == e);
        assert(events.push(e).drop_first() =~= Seq::<Event>::empty());
        assert(run(m, events.push(e)) == run(step(m, e), events.push(e).drop_first()));
        assert(run(m, events.push(e)) == step(m, e));
        assert(run(m, events) == m);
    } else {
        assert(events.push(e)[0] == events[0]);
        assert(events.push(e).drop_first() =~= events.drop_first().push(e));
        lemma_run_snoc(step(m, events[0]), events.drop_first(), e);
        assert(run(m, events.push(e)) == run(step(m, events[0]), events.drop_first().push(e)));
        assert(run(m, events) == run(step(m, events[0]), events.drop_first()));
    }
}

/// Every step appends to the buffer and removes nothing.
pub proof fn lemma_step_append_only(m: WriterModel, e: Event)
    ensures
        m.output.is_prefix_of(step(m, e).output),
{
    assert(step(m, e).output.subrange(0, m.output.len() as int) =~= m.output);
}

/// The buffer is append-only: whatever a writer has emitted stays, as a
/// prefix, through every later event.  Output order is call order.
pub proof fn lemma_output_append_only(m: WriterModel, events: Seq<Event>)
    ensures
        m.output.is_prefix_of(run(m, events).output),
    decreases events.len(),
{
    if events.len() == 0 {
        assert(m.output.is_prefix_of(m.output));
    } else {
        lemma_step_append_only(m, events[0]);
        lemma_output_append_only(step(m, events[0]), events.drop_first());
        assert(run(m, events).output.subrange(0, m.output.len() as int) =~= m.output);
    }
}

/// The whitespace the writer ever emits on its own: spaces and newlines.
pub open spec fn is_ws(c: char) -> bool {
    c == ' ' || c == '\n'
}

/// The text with every space and newline removed.
pub open spec fn strip_ws(s: Seq<char>) -> Seq<char>
    decreases s.len(),
{
    if s.len() == 0 {
        seq![]
    } else if is_ws(s[0]) {
        strip_ws(s.drop_first())
    } else {
        seq![s[0]] + strip_ws(s.drop_first())
    }
}

/// Stripping distributes over concatenation.
pub proof fn lemma_strip_ws_add(a: Seq<char>, b: Seq<char>)
    ensures
        strip_ws(a + b) == strip_ws(a) + strip_ws(b),
    decreases a.len(),
{
    if a.len() == 0 {
        assert(a + b =~= b);
        assert(strip_ws(a) + strip_ws(b) =~= strip_ws(b));
    } else {
        assert((a + b)[0] == a[0]);
        assert((a + b).drop_first() =~= a.drop_first() + b);
        lemma_strip_ws_add(a.drop_first(), b);
        if !is_ws(a[0]) {
            assert(seq![a[0]] + (strip_ws(a.drop_first()) + strip_ws(b)) =~= (seq![a[0]]
                + strip_ws(a.drop_first())) + strip_ws(b));
        }
    }
}

/// Text that is nothing but whitespace strips to nothing.
pub proof fn lemma_strip_ws_all(s: Seq<char>)
    requires
        forall|i: int| 0 <= i < s.len() ==> is_ws(s[i]),
    ensures
        strip_ws(s) == Seq::<char>::empty(),
    decreases s.len(),
{
    if s.len() != 0 {
        lemma_strip_ws_all(s.drop_first());
    }
}

/// Text that holds no whitespace strips to itself.
pub proof fn lemma_strip_ws_none(s: Seq<char>)
    requires
        forall|i: int| 0 <= i < s.len() ==> !is_ws(s[i]),
    ensures
        strip_ws(s) == s,
    decreases s.len(),
{
    if s.len() != 0 {
        lemma_strip_ws_none(s.drop_first());
        assert(seq![s[0]] + s.drop_first() =~= s);
    }
}

/// A text token free of spaces and newlines.
pub open spec fn ws_free(s: Seq<char>) -> bool {
    forall|i: int| 0 <= i < s.len() ==> !is_ws(s[i])
}

/// An event whose text tokens are free of spaces and newlines.
pub open spec fn event_ws_free(e: Event) -> bool {
    match e {
        Event::Start => true,
        Event::End => true,
        Event::ObjectStart(name) => ws_free(name),
        Event::ArrayStart(name) => ws_free(name),
        Event::ObjectEnd => true,
        Event::ArrayEnd => true,
        Event::KeyValue(key, value) => ws_free(key) && ws_free(value),
        Event::Element(value) => ws_free(value),
    }
}

pub open spec fn events_ws_free(events: Seq<Event>) -> bool {
    forall|i: int| 0 <= i < events.len() ==> event_ws_free(#[trigger] events[i])
}

/// The relation the two modes keep in lockstep: same depth, same cursor, and
/// the compact buffer is the pretty buffer with its whitespace stripped.
pub open spec fn modes_agree(mp: WriterModel, mc: WriterModel) -> bool {
    &&& !mp.compact
    &&& mc.compact
    &&& mp.indent == mc.indent
    &&& mp.cursor == mc.cursor
    &&& strip_ws(mp.output) == mc.output
}

/// One whitespace-free event keeps the two modes in lockstep.
#[verifier::rlimit(60)]
#[verifier::spinoff_prover]
proof fn lemma_modes_agree_step(mp: WriterModel, mc: WriterModel, e: Event)
    requires
        modes_agree(mp, mc),
        event_ws_free(e),
    ensures
        modes_agree(step(mp, e), step(mc, e)),
{
    assert forall|i: int| 0 <= i < spaces(mp.indent).len() implies is_ws(spaces(mp.indent)[i]) by {}
    lemma_strip_ws_all(spaces(mp.indent));
    lemma_strip_ws_all(seq!['\n']);
    lemma_strip_ws_all(seq![' ']);
    lemma_strip_ws_all(spaces(mp.indent - 2));
    lemma_strip_ws_none(seq![',']);
    lemma_strip_ws_none(seq![':']);
    lemma_strip_ws_none(seq!['{']);
    lemma_strip_ws_none(seq!['}']);
    lemma_strip_ws_none(seq!['[']);
    lemma_strip_ws_none(seq![']']);
    lemma_strip_ws_none(Seq::<char>::empty());
    match e {
        Event::Start => {
            lemma_strip_ws_add(mp.output, comma_prefix(mp));
            lemma_strip_ws_add(mp.output + comma_prefix(mp), indent_text(mp));
            lemma_strip_ws_add(mp.output + comma_prefix(mp) + indent_text(mp), seq!['{']);
            assert(step(mp, e).output =~= mp.output + comma_prefix(mp) + indent_text(mp)
                + seq!['{']);
            assert(step(mc, e).output =~= mc.output + comma_prefix(mc) + seq!['{']);
            assert(strip_ws(step(mp, e).output) =~= step(mc, e).output);
        },
        Event::End => {
            lemma_strip_ws_add(mp.output, newline_text(mp));
            lemma_strip_ws_add(mp.output + newline_text(mp), spaces(mp.indent - 2));
            lemma_strip_ws_add(mp.output + newline_text(mp) + spaces(mp.indent - 2), seq!['}']);
            assert(step(mp, e).output =~= mp.output + newline_text(mp) + spaces(mp.indent - 2)
                + seq!['}']);
            assert(step(mc, e).output =~= mc.output + seq!['}']);
            assert(strip_ws(step(mp, e).output) =~= step(mc, e).output);
        },
        Event::ObjectStart(name) => {
            lemma_strip_ws_none(name);
            lemma_strip_ws_add(mp.output, comma_prefix(mp));
            lemma_strip_ws_add(mp.output + comma_prefix(mp), newline_text(mp));
            lemma_strip_ws_add(mp.output + comma_prefix(mp) + newline_text(mp), indent_text(mp));
            lemma_strip_ws_add(
                mp.output + comma_prefix(mp) + newline_text(mp) + indent_text(mp),
                name,
            );
            lemma_strip_ws_add(
                mp.output + comma_prefix(mp) + newline_text(mp) + indent_text(mp) + name,
                seq![':'],
            );
            lemma_strip_ws_add(
                mp.output + comma_prefix(mp) + newline_text(mp) + indent_text(mp) + name
                    + seq![':'],
                space_text(mp),
            );
            lemma_strip_ws_add(
                mp.output + comma_prefix(mp) + newline_text(mp) + indent_text(mp) + name
                    + seq![':'] + space_text(mp),
                seq!['{'],
            );
            assert(step(mp, e).output =~= mp.output + comma_prefix(mp) + newline_text(mp)
                + indent_text(mp) + name + seq![':'] + space_text(mp) + seq!['{']);
            assert(step(mc, e).output =~= mc.output + comma_prefix(mc) + name + seq![':']
                + seq!['{']);
            assert(strip_ws(step(mp, e).output) =~= step(mc, e).output);
        },
        Event::ArrayStart(name) => {
            lemma_strip_ws_none(name);
            lemma_strip_ws_add(mp.output, comma_prefix(mp));
            lemma_strip_ws_add(mp.output + comma_prefix(mp), newline_text(mp));
            lemma_strip_ws_add(mp.output + comma_prefix(mp) + newline_text(mp), indent_text(mp));
            lemma_strip_ws_add(
                mp.output + comma_prefix(mp) + newline_text(mp) + indent_text(mp),
                name,
            );
            lemma_strip_ws_add(
                mp.output + comma_prefix(mp) + newline_text(mp) + indent_text(mp) + name,
                seq![':'],
            );
            lemma_strip_ws_add(
                mp.output + comma_prefix(mp) + newline_text(mp) + indent_text(mp) + name
                    + seq![':'],
                space_text(mp),
            );
            lemma_strip_ws_add(
                mp.output + comma_prefix(mp) + newline_text(mp) + indent_text(mp) + name
                    + seq![':'] + space_text(mp),
                seq!['['],
            );
            assert(step(mp, e).output =~= mp.output + comma_prefix(mp) + newline_text(mp)
                + indent_text(mp) + name + seq![':'] + space_text(mp) + seq!['[']);
            assert(step(mc, e).output =~= mc.output + comma_prefix(mc) + name + seq![':']
                + seq!['[']);
            assert(strip_ws(step(mp, e).output) =~= step(mc, e).output);
        },
        Event::ObjectEnd => {
            lemma_strip_ws_add(mp.output, newline_text(mp));
            lemma_strip_ws_add(mp.output + newline_text(mp), spaces(mp.indent - 2));
            lemma_strip_ws_add(mp.output + newline_text(mp) + spaces(mp.indent - 2), seq!['}']);
            lemma_strip_ws_add(
                mp.output + newline_text(mp) + spaces(mp.indent - 2) + seq!['}'],
                if mp.indent - 2 == 0 {
                    newline_text(mp)
                } else {
                    seq![]
                },
            );
            assert(step(mp, e).output =~= mp.output + newline_text(mp) + spaces(mp.indent - 2)
                + seq!['}'] + (if mp.indent - 2 == 0 {
                newline_text(mp)
            } else {
                seq![]
            }));
            assert(step(mc, e).output =~= mc.output + seq!['}']);
            assert(strip_ws(step(mp, e).output) =~= step(mc, e).output);
        },
        Event::ArrayEnd => {
            lemma_strip_ws_add(mp.output, newline_text(mp));
            lemma_strip_ws_add(mp.output + newline_text(mp), spaces(mp.indent - 2));
            lemma_strip_ws_add(mp.output + newline_text(mp) + spaces(mp.indent - 2), seq![']']);
            assert(step(mp, e).output =~= mp.output + newline_text(mp) + spaces(mp.indent - 2)
                + seq![']']);
            assert(step(mc, e).output =~= mc.output + seq![']']);
            assert(strip_ws(step(mp, e).output) =~= step(mc, e).output);
        },
        Event::KeyValue(key, value) => {
            lemma_strip_ws_none(key);
            lemma_strip_ws_none(value);
            lemma_strip_ws_add(mp.output, comma_prefix(mp));
            lemma_strip_ws_add(mp.output + comma_prefix(mp), newline_text(mp));
            lemma_strip_ws_add(mp.output + comma_prefix(mp) + newline_text(mp), indent_text(mp));
            lemma_strip_ws_add(
                mp.output + comma_prefix(mp) + newline_text(mp) + indent_text(mp),
                key,
            );
            lemma_strip_ws_add(
                mp.output + comma_prefix(mp) + newline_text(mp) + indent_text(mp) + key,
                seq![':'],
            );
            lemma_strip_ws_add(
                mp.output + comma_prefix(mp) + newline_text(mp) + indent_text(mp) + key
                    + seq![':'],
                space_text(mp),
            );
            lemma_strip_ws_add(
                mp.output + comma_prefix(mp) + newline_text(mp) + indent_text(mp) + key
                    + seq![':'] + space_text(mp),
                value,
            );
            assert(step(mp, e).output =~= mp.output + comma_prefix(mp) + newline_text(mp)
                + indent_text(mp) + key + seq![':'] + space_text(mp) + value);
            assert(step(mc, e).output =~= mc.output + comma_prefix(mc) + key + seq![':'] + value);
            assert(strip_ws(step(mp, e).output) =~= step(mc, e).output);
        },
        Event::Element(value) => {
            lemma_strip_ws_none(value);
            lemma_strip_ws_add(mp.output, comma_prefix(mp));
            lemma_strip_ws_add(mp.output + comma_prefix(mp), newline_text(mp));
            lemma_strip_ws_add(mp.output + comma_prefix(mp) + newline_text(mp), indent_text(mp));
            lemma_strip_ws_add(
                mp.output + comma_prefix(mp) + newline_text(mp) + indent_text(mp),
                value,
            );
            assert(step(mp, e).output =~= mp.output + comma_prefix(mp) + newline_text(mp)
                + indent_text(mp) + value);
            assert(step(mc, e).output =~= mc.output + comma_prefix(mc) + value);
            assert(strip_ws(step(mp, e).output) =~= step(mc, e).output);
        },
    }
}

/// The lockstep relation survives a whole sequence of whitespace-free
/// events.
proof fn lemma_modes_agree_run(mp: WriterModel, mc: WriterModel, events: Seq<Event>)
    requires
        modes_agree(mp, mc),
        events_ws_free(events),
    ensures
        modes_agree(run(mp, events), run(mc, events)),
    decreases events.len(),
{
    if events.len() != 0 {
        assert(event_ws_free(events[0]));
        lemma_modes_agree_step(mp, mc, events[0]);
        assert forall|i: int| 0 <= i < events.drop_first().len() implies event_ws_free(
            #[trigger] events.drop_first()[i],
        ) by {
            assert(events.drop_first()[i] == events[i + 1]);
        }
        lemma_modes_agree_run(step(mp, events[0]), step(mc, events[0]), events.drop_first());
    }
}

/// A sibling item that opens no nesting of its own: a key-value pair or a
/// bare element.
pub open spec fn is_leaf_item(e: Event) -> bool {
    e is KeyValue || e is Element
}

pub open spec fn all_leaf(items: Seq<Event>) -> bool {
    forall|i: int| 0 <= i < items.len() ==> is_leaf_item(#[trigger] items[i])
}

/// A throwaway state with the given depth and mode, to evaluate the
/// emission helpers at; they read nothing else.
pub open spec fn mode_model(indent: int, compact: bool) -> WriterModel {
    WriterModel {
        indent: indent,
        compact: compact,
        cursor: Cursor::StartOfContainer,
        output: seq![],
    }
}

/// The text of one sibling item without its comma: what the item emits when
/// it is the first of its container.
pub open spec fn leaf_text(indent: int, compact: bool, e: Event) -> Seq<char> {
    match e {
        Event::KeyValue(key, value) => newline_text(mode_model(indent, compact)) + indent_text(
            mode_model(indent, compact),
        ) + key + seq![':'] + space_text(mode_model(indent, compact)) + value,
        Event::Element(value) => newline_text(mode_model(indent, compact)) + indent_text(
            mode_model(indent, compact),
        ) + value,
        _ => seq![],
    }
}

/// The items second and later of a container, each preceded by exactly one
/// comma.
pub open spec fn joined_rest(indent: int, compact: bool, items: Seq<Event>) -> Seq<char>
    decreases items.len(),
{
    if items.len() == 0 {
        seq![]
    } else {
        seq![','] + leaf_text(indent, compact, items[0]) + joined_rest(
            indent,
            compact,
            items.drop_first(),
        )
    }
}

/// A container's sibling items in call order: the first without a comma,
/// every later one preceded by exactly one comma.
pub open spec fn joined_items(indent: int, compact: bool, items: Seq<Event>) -> Seq<char> {
    if items.len() == 0 {
        seq![]
    } else {
        leaf_text(indent, compact, items[0]) + joined_rest(indent, compact, items.drop_first())
    }
}

/// After at least one sibling, every further leaf item emits one comma and
/// then its own text.
proof fn lemma_comma_rest(m: WriterModel, items: Seq<Event>)
    requires
        m.cursor is AfterValue,
        all_leaf(items),
    ensures
        run(m, items).output == m.output + joined_rest(m.indent, m.compact, items),
        run(m, items).indent == m.indent,
        run(m, items).compact == m.compact,
        run(m, items).cursor is AfterValue,
    decreases items.len(),
{
    if items.len() == 0 {
        assert(m.output + joined_rest(m.indent, m.compact, items) =~= m.output);
    } else {
        let e = items[0];
        assert(is_leaf_item(e));
        let m1 = step(m, e);
        assert(m1.output =~= m.output + (seq![','] + leaf_text(m.indent, m.compact, e)));
        assert forall|i: int| 0 <= i < items.drop_first().len() implies is_leaf_item(
            #[trigger] items.drop_first()[i],
        ) by {
            assert(items.drop_first()[i] == items[i + 1]);
        }
        lemma_comma_rest(m1, items.drop_first());
        assert(run(m, items).output =~= m.output + joined_rest(m.indent, m.compact, items));
    }
}

/// Comma placement: from the start of a container, a sequence of sibling
/// leaf items renders as the items' own texts in call order, with exactly
/// one comma immediately before the second and every later item and none
/// before the first.  The depth and the mode are untouched; after at least
/// one item the next sibling owes a comma.
pub proof fn lemma_comma_placement(m: WriterModel, items: Seq<Event>)
    requires
        m.cursor is StartOfContainer,
        all_leaf(items),
    ensures
        run(m, items).output == m.output + joined_items(m.indent, m.compact, items),
        run(m, items).indent == m.indent,
        run(m, items).compact == m.compact,
        items.len() > 0 ==> run(m, items).cursor is AfterValue,
        items.len() == 0 ==> run(m, items).cursor is StartOfContainer,
{
    if items.len() == 0 {
        assert(m.output + joined_items(m.indent, m.compact, items) =~= m.output);
    } else {
        let e = items[0];
        assert(is_leaf_item(e));
        let m1 = step(m, e);
        assert(m1.output =~= m.output + leaf_text(m.indent, m.compact, e));
        assert forall|i: int| 0 <= i < items.drop_first().len() implies is_leaf_item(
            #[trigger] items.drop_first()[i],
        ) by {
            assert(items.drop_first()[i] == items[i + 1]);
        }
        lemma_comma_rest(m1, items.drop_first());
        assert(run(m, items).output =~= m.output + joined_items(m.indent, m.compact, items));
    }
}

/// How many times a character occurs in a text.
pub open spec fn count_char(s: Seq<char>, c: char) -> int
    decreases s.len(),
{
    if s.len() == 0 {
        0
    } else {
        (if s[0] == c {
            1int
        } else {
            0int
        }) + count_char(s.drop_first(), c)
    }
}

pub proof fn lemma_count_char_add(a: Seq<char>, b: Seq<char>, c: char)
    ensures
        count_char(a + b, c) == count_char(a, c) + count_char(b, c),
    decreases a.len(),
{
    if a.len() == 0 {
        assert(a + b =~= b);
    } else {
        assert((a + b)[0] == a[0]);
        assert((a + b).drop_first() =~= a.drop_first() + b);
        lemma_count_char_add(a.drop_first(), b, c);
    }
}

pub proof fn lemma_count_char_none(s: Seq<char>, c: char)
    requires
        forall|i: int| 0 <= i < s.len() ==> s[i] != c,
    ensures
        count_char(s, c) == 0,
    decreases s.len(),
{
    if s.len() != 0 {
        lemma_count_char_none(s.drop_first(), c);
    }
}

/// A text token with no comma of its own.
pub open spec fn comma_free(s: Seq<char>) -> bool {
    forall|i: int| 0 <= i < s.len() ==> s[i] != ','
}

/// An event whose text tokens hold no commas.
pub open spec fn event_comma_free(e: Event) -> bool {
    match e {
        Event::Start => true,
        Event::End => true,
        Event::ObjectStart(name) => comma_free(name),
        Event::ArrayStart(name) => comma_free(name),
        Event::ObjectEnd => true,
        Event::ArrayEnd => true,
        Event::KeyValue(key, value) => comma_free(key) && comma_free(value),
        Event::Element(value) => comma_free(value),
    }
}

pub open spec fn events_comma_free(items: Seq<Event>) -> bool {
    forall|i: int| 0 <= i < items.len() ==> event_comma_free(#[trigger] items[i])
}

/// The text of a single comma-free leaf item holds no comma.
proof fn lemma_leaf_text_comma_count(indent: int, compact: bool, e: Event)
    requires
        is_leaf_item(e),
        event_comma_free(e),
    ensures
        count_char(leaf_text(indent, compact, e), ',') == 0,
{
    let mm = mode_model(indent, compact);
    lemma_count_char_none(newline_text(mm), ',');
    lemma_count_char_none(indent_text(mm), ',');
    lemma_count_char_none(space_text(mm), ',');
    lemma_count_char_none(seq![':'], ',');
    match e {
        Event::KeyValue(key, value) => {
            lemma_count_char_none(key, ',');
            lemma_count_char_none(value, ',');
            lemma_count_char_add(newline_text(mm), indent_text(mm), ',');
            lemma_count_char_add(newline_text(mm) + indent_text(mm), key, ',');
            lemma_count_char_add(newline_text(mm) + indent_text(mm) + key, seq![':'], ',');
            lemma_count_char_add(
                newline_text(mm) + indent_text(mm) + key + seq![':'],
                space_text(mm),
                ',',
            );
            lemma_count_char_add(
                newline_text(mm) + indent_text(mm) + key + seq![':'] + space_text(mm),
                value,
                ',',
            );
        },
        Event::Element(value) => {
            lemma_count_char_none(value, ',');
            lemma_count_char_add(newline_text(mm), indent_text(mm), ',');
            lemma_count_char_add(newline_text(mm) + indent_text(mm), value, ',');
        },
        _ => {},
    }
}

/// Every item of the rest contributes exactly its one leading comma.
proof fn lemma_joined_rest_count(indent: int, compact: bool, items: Seq<Event>)
    requires
        all_leaf(items),
        events_comma_free(items),
    ensures
        count_char(joined_rest(indent, compact, items), ',') == items.len(),
    decreases items.len(),
{
    if items.len() != 0 {
        assert(seq![','].drop_first() =~= Seq::<char>::empty());
        assert(count_char(Seq::<char>::empty(), ',') == 0);
        assert(count_char(seq![','], ',') == 1);
        lemma_leaf_text_comma_count(indent, compact, items[0]);
        lemma_count_char_add(seq![','], leaf_text(indent, compact, items[0]), ',');
        lemma_count_char_add(
            seq![','] + leaf_text(indent, compact, items[0]),
            joined_rest(indent, compact, items.drop_first()),
            ',',
        );
        assert forall|i: int| 0 <= i < items.drop_first().len() implies is_leaf_item(
            #[trigger] items.drop_first()[i],
        ) && event_comma_free(items.drop_first()[i]) by {
            assert(items.drop_first()[i] == items[i + 1]);
        }
        lemma_joined_rest_count(indent, compact, items.drop_first());
        assert(seq![','] + leaf_text(indent, compact, items[0]) + joined_rest(
            indent,
            compact,
            items.drop_first(),
        ) =~= (seq![','] + leaf_text(indent, compact, items[0])) + joined_rest(
            indent,
            compact,
            items.drop_first(),
        ));
    }
}

/// Comma count: a container with `N >= 1` sibling leaf items whose tokens
/// hold no commas gains exactly `N - 1` commas, one before each item but the
/// first.
pub proof fn lemma_comma_count(m: WriterModel, items: Seq<Event>)
    requires
        m.cursor is StartOfContainer,
        all_leaf(items),
        events_comma_free(items),
        items.len() >= 1,
    ensures
        count_char(run(m, items).output, ',') == count_char(m.output, ',') + items.len() - 1,
{
    lemma_comma_placement(m, items);
    lemma_leaf_text_comma_count(m.indent, m.compact, items[0]);
    assert forall|i: int| 0 <= i < items.drop_first().len() implies is_leaf_item(
        #[trigger] items.drop_first()[i],
    ) && event_comma_free(items.drop_first()[i]) by {
        assert(items.drop_first()[i] == items[i + 1]);
    }
    lemma_joined_rest_count(m.indent, m.compact, items.drop_first());
    lemma_count_char_add(
        leaf_text(m.indent, m.compact, items[0]),
        joined_rest(m.indent, m.compact, items.drop_first()),
        ',',
    );
    lemma_count_char_add(m.output, joined_items(m.indent, m.compact, items), ',');
}

/// Sibling ordering: of the leaf items of one container, each later one is
/// emitted strictly after the one before it; the buffer after `k` items is a
/// prefix of the buffer after `k + 1`, which is strictly longer from the
/// second item on.
pub proof fn lemma_sibling_order(m: WriterModel, items: Seq<Event>, k: int)
    requires
        m.cursor is StartOfContainer,
        all_leaf(items),
        0 <= k < items.len(),
    ensures
        run(m, items.take(k)).output.is_prefix_of(run(m, items.take(k + 1)).output),
        k >= 1 ==> run(m, items.take(k + 1)).output.len() > run(m, items.take(k)).output.len(),
{
    assert(items.take(k + 1) =~= items.take(k).push(items[k]));
    lemma_run_snoc(m, items.take(k), items[k]);
    let mk = run(m, items.take(k));
    lemma_step_append_only(mk, items[k]);
    assert forall|i: int| 0 <= i < items.take(k).len() implies is_leaf_item(
        #[trigger] items.take(k)[i],
    ) by {
        assert(items.take(k)[i] == items[i]);
    }
    lemma_comma_placement(m, items.take(k));
    if k >= 1 {
        assert(mk.cursor is AfterValue);
        assert(is_leaf_item(items[k]));
        match items[k] {
            Event::KeyValue(key, value) => {
                assert(key_value_emission(mk, key, value).len() >= 1);
            },
            Event::Element(value) => {
                assert(element_emission(mk, value).len() >= 1);
            },
            _ => {},
        }
    }
}

/// One complete sibling of a container: a key-value pair, a bare element,
/// or a whole nested container with its own siblings inside.  Flattening a
/// sequence of these gives every well-nested call sequence a container's
/// children can make.
pub enum Sibling {
    Pair(Seq<char>, Seq<char>),
    Item(Seq<char>),
    ObjectBlock(Seq<char>, Seq<Sibling>),
    ArrayBlock(Seq<char>, Seq<Sibling>),
}

/// The events one sibling makes against the writer, in order.
pub open spec fn sib_events(s: Sibling) -> Seq<Event>
    decreases s,
{
    match s {
        Sibling::Pair(key, value) => seq![Event::KeyValue(key, value)],
        Sibling::Item(value) => seq![Event::Element(value)],
        Sibling::ObjectBlock(name, kids) => seq![Event::ObjectStart(name)] + sibs_events(kids)
            + seq![Event::ObjectEnd],
        Sibling::ArrayBlock(name, kids) => seq![Event::ArrayStart(name)] + sibs_events(kids)
            + seq![Event::ArrayEnd],
    }
}

pub open spec fn sibs_events(ss: Seq<Sibling>) -> Seq<Event>
    decreases ss,
{
    if ss.len() == 0 {
        seq![]
    } else {
        sib_events(ss[0]) + sibs_events(ss.drop_first())
    }
}

/// The text of one whole sibling without its comma, opener through closer,
/// children joined by commas inside.
pub open spec fn sib_text(indent: int, compact: bool, s: Sibling) -> Seq<char>
    decreases s,
{
    match s {
        Sibling::Pair(key, value) => leaf_text(indent, compact, Event::KeyValue(key, value)),
        Sibling::Item(value) => leaf_text(indent, compact, Event::Element(value)),
        Sibling::ObjectBlock(name, kids) => newline_text(mode_model(indent, compact))
            + indent_text(mode_model(indent, compact)) + name + seq![':'] + space_text(
            mode_model(indent, compact),
        ) + seq!['{'] + sibs_texts(indent + 2, compact, kids) + newline_text(
            mode_model(indent, compact),
        ) + indent_text(mode_model(indent, compact)) + seq!['}'] + (if indent == 0 {
            newline_text(mode_model(indent, compact))
        } else {
            seq![]
        }),
        Sibling::ArrayBlock(name, kids) => newline_text(mode_model(indent, compact))
            + indent_text(mode_model(indent, compact)) + name + seq![':'] + space_text(
            mode_model(indent, compact),
        ) + seq!['['] + sibs_texts(indent + 2, compact, kids) + newline_text(
            mode_model(indent, compact),
        ) + indent_text(mode_model(indent, compact)) + seq![']'],
    }
}

/// The siblings second and later of a container, each preceded by exactly
/// one comma.
pub open spec fn sibs_texts_rest(indent: int, compact: bool, ss: Seq<Sibling>) -> Seq<char>
    decreases ss,
{
    if ss.len() == 0 {
        seq![]
    } else {
        seq![','] + sib_text(indent, compact, ss[0]) + sibs_texts_rest(
            indent,
            compact,
            ss.drop_first(),
        )
    }
}

/// A container's siblings in call order: the first without a comma, every
/// later one preceded by exactly one comma.
pub open spec fn sibs_texts(indent: int, compact: bool, ss: Seq<Sibling>) -> Seq<char>
    decreases ss,
{
    if ss.len() == 0 {
        seq![]
    } else {
        sib_text(indent, compact, ss[0]) + sibs_texts_rest(indent, compact, ss.drop_first())
    }
}

/// Running one event alone is one step.
pub proof fn lemma_run_one(m: WriterModel, e: Event)
    ensures
        run(m, seq![e]) == step(m, e),
{
    assert(seq![e][0] == e);
    assert(seq![e].drop_first() =~= Seq::<Event>::empty());
    assert(run(m, seq![e]) == run(step(m, e), seq![e].drop_first()));
}

/// Running a concatenation is running the two halves in turn.
pub proof fn lemma_run_append(m: WriterModel, s1: Seq<Event>, s2: Seq<Event>)
    ensures
        run(m, s1 + s2) == run(run(m, s1), s2),
    decreases s1.len(),
{
    if s1.len() == 0 {
        assert(s1 + s2 =~= s2);
    } else {
        assert((s1 + s2)[0] == s1[0]);
        assert((s1 + s2).drop_first() =~= s1.drop_first() + s2);
        lemma_run_append(step(m, s1[0]), s1.drop_first(), s2);
        assert(run(m, s1 + s2) == run(step(m, s1[0]), s1.drop_first() + s2));
        assert(run(m, s1) == run(step(m, s1[0]), s1.drop_first()));
    }
}

/// One whole sibling, nested or not, emits the comma its cursor owes and
/// then its own text; the depth and mode end where they began and the next
/// sibling owes a comma.
pub proof fn lemma_sibling_text(m: WriterModel, s: Sibling)
    ensures
        run(m, sib_events(s)).output == m.output + comma_prefix(m) + sib_text(
            m.indent,
            m.compact,
            s,
        ),
        run(m, sib_events(s)).indent == m.indent,
        run(m, sib_events(s)).compact == m.compact,
        run(m, sib_events(s)).cursor is AfterValue,
    decreases s, 1nat,
{
    match s {
        Sibling::Pair(key, value) => {
            lemma_run_one(m, Event::KeyValue(key, value));
            assert(run(m, sib_events(s)).output =~= m.output + comma_prefix(m) + sib_text(
                m.indent,
                m.compact,
                s,
            ));
        },
        Sibling::Item(value) => {
            lemma_run_one(m, Event::Element(value));
            assert(run(m, sib_events(s)).output =~= m.output + comma_prefix(m) + sib_text(
                m.indent,
                m.compact,
                s,
            ));
        },
        Sibling::ObjectBlock(name, kids) => {
            lemma_object_block_text(m, name, kids);
        },
        Sibling::ArrayBlock(name, kids) => {
            lemma_array_block_text(m, name, kids);
        },
    }
}

/// The previous law, spelled out for a nested object.
#[verifier::rlimit(80)]
#[verifier::spinoff_prover]
proof fn lemma_object_block_text(m: WriterModel, name: Seq<char>, kids: Seq<Sibling>)
    ensures
        run(m, sib_events(Sibling::ObjectBlock(name, kids))).output == m.output + comma_prefix(m)
            + sib_text(m.indent, m.compact, Sibling::ObjectBlock(name, kids)),
        run(m, sib_events(Sibling::ObjectBlock(name, kids))).indent == m.indent,
        run(m, sib_events(Sibling::ObjectBlock(name, kids))).compact == m.compact,
        run(m, sib_events(Sibling::ObjectBlock(name, kids))).cursor is AfterValue,
    decreases Sibling::ObjectBlock(name, kids), 0nat,
{
    let s = Sibling::ObjectBlock(name, kids);
    let mm = mode_model(m.indent, m.compact);
    let open_t = newline_text(mm) + indent_text(mm) + name + seq![':'] + space_text(mm)
        + seq!['{'];
    let close_t = newline_text(mm) + indent_text(mm) + seq!['}'] + (if m.indent == 0 {
        newline_text(mm)
    } else {
        seq![]
    });
    let open = Event::ObjectStart(name);
    lemma_run_append(m, seq![open] + sibs_events(kids), seq![Event::ObjectEnd]);
    lemma_run_append(m, seq![open], sibs_events(kids));
    lemma_run_one(m, open);
    let m1 = step(m, open);
    assert(m1.output =~= m.output + comma_prefix(m) + open_t);
    lemma_siblings_text(m1, kids);
    let m2 = run(m1, sibs_events(kids));
    assert(m2.indent == m.indent + 2);
    lemma_run_one(m2, Event::ObjectEnd);
    assert(run(m, sib_events(s)) == step(m2, Event::ObjectEnd));
    assert(object_end_emission(m2) =~= close_t);
    assert(step(m2, Event::ObjectEnd).output =~= m1.output + sibs_texts(
        m.indent + 2,
        m.compact,
        kids,
    ) + close_t);
    assert(sib_text(m.indent, m.compact, s) =~= open_t + sibs_texts(m.indent + 2, m.compact, kids)
        + close_t);
    assert(step(m2, Event::ObjectEnd).output =~= m.output + comma_prefix(m) + sib_text(
        m.indent,
        m.compact,
        s,
    ));
}

/// The previous law, spelled out for a nested array.
#[verifier::rlimit(80)]
#[verifier::spinoff_prover]
proof fn lemma_array_block_text(m: WriterModel, name: Seq<char>, kids: Seq<Sibling>)
    ensures
        run(m, sib_events(Sibling::ArrayBlock(name, kids))).output == m.output + comma_prefix(m)
            + sib_text(m.indent, m.compact, Sibling::ArrayBlock(name, kids)),
        run(m, sib_events(Sibling::ArrayBlock(name, kids))).indent == m.indent,
        run(m, sib_events(Sibling::ArrayBlock(name, kids))).compact == m.compact,
        run(m, sib_events(Sibling::ArrayBlock(name, kids))).cursor is AfterValue,
    decreases Sibling::ArrayBlock(name, kids), 0nat,
{
    let s = Sibling::ArrayBlock(name, kids);
    let mm = mode_model(m.indent, m.compact);
    let open_t = newline_text(mm) + indent_text(mm) + name + seq![':'] + space_text(mm)
        + seq!['['];
    let close_t = newline_text(mm) + indent_text(mm) + seq![']'];
    let open = Event::ArrayStart(name);
    lemma_run_append(m, seq![open] + sibs_events(kids), seq![Event::ArrayEnd]);
    lemma_run_append(m, seq![open], sibs_events(kids));
    lemma_run_one(m, open);
    let m1 = step(m, open);
    assert(m1.output =~= m.output + comma_prefix(m) + open_t);
    lemma_siblings_text(m1, kids);
    let m2 = run(m1, sibs_events(kids));
    assert(m2.indent == m.indent + 2);
    lemma_run_one(m2, Event::ArrayEnd);
    assert(run(m, sib_events(s)) == step(m2, Event::ArrayEnd));
    assert(array_end_emission(m2) =~= close_t);
    assert(step(m2, Event::ArrayEnd).output =~= m1.output + sibs_texts(
        m.indent + 2,
        m.compact,
        kids,
    ) + close_t);
    assert(sib_text(m.indent, m.compact, s) =~= open_t + sibs_texts(m.indent + 2, m.compact, kids)
        + close_t);
    assert(step(m2, Event::ArrayEnd).output =~= m.output + comma_prefix(m) + sib_text(
        m.indent,
        m.compact,
        s,
    ));
}

/// After at least one sibling, every further sibling emits one comma and
/// then its own text.
pub proof fn lemma_siblings_rest(m: WriterModel, ss: Seq<Sibling>)
    requires
        m.cursor is AfterValue,
    ensures
        run(m, sibs_events(ss)).output == m.output + sibs_texts_rest(m.indent, m.compact, ss),
        run(m, sibs_events(ss)).indent == m.indent,
        run(m, sibs_events(ss)).compact == m.compact,
        run(m, sibs_events(ss)).cursor is AfterValue,
    decreases ss, 2nat,
{
    if ss.len() == 0 {
        assert(m.output + sibs_texts_rest(m.indent, m.compact, ss) =~= m.output);
    } else {
        lemma_run_append(m, sib_events(ss[0]), sibs_events(ss.drop_first()));
        lemma_sibling_text(m, ss[0]);
        let m1 = run(m, sib_events(ss[0]));
        lemma_siblings_rest(m1, ss.drop_first());
        assert(run(m, sibs_events(ss)).output =~= m.output + sibs_texts_rest(
            m.indent,
            m.compact,
            ss,
        ));
    }
}

/// Comma placement in full generality: from the start of a container, its
/// siblings — pairs, elements and nested containers alike — render as their
/// own texts in call order, with exactly one comma immediately before the
/// second and every later sibling at this level and none before the first.
pub proof fn lemma_siblings_text(m: WriterModel, ss: Seq<Sibling>)
    requires
        m.cursor is StartOfContainer,
    ensures
        run(m, sibs_events(ss)).output == m.output + sibs_texts(m.indent, m.compact, ss),
        run(m, sibs_events(ss)).indent == m.indent,
        run(m, sibs_events(ss)).compact == m.compact,
        ss.len() > 0 ==> run(m, sibs_events(ss)).cursor is AfterValue,
        ss.len() == 0 ==> run(m, sibs_events(ss)).cursor is StartOfContainer,
    decreases ss, 2nat,
{
    if ss.len() == 0 {
        assert(m.output + sibs_texts(m.indent, m.compact, ss) =~= m.output);
    } else {
        lemma_run_append(m, sib_events(ss[0]), sibs_events(ss.drop_first()));
        lemma_sibling_text(m, ss[0]);
        let m1 = run(m, sib_events(ss[0]));
        lemma_siblings_rest(m1, ss.drop_first());
        assert(run(m, sibs_events(ss)).output =~= m.output + sibs_texts(m.indent, m.compact, ss));
    }
}

pub proof fn lemma_sibs_events_append(a: Seq<Sibling>, b: Seq<Sibling>)
    ensures
        sibs_events(a + b) == sibs_events(a) + sibs_events(b),
    decreases a.len(),
{
    if a.len() == 0 {
        assert(a + b =~= b);
        assert(sibs_events(a) + sibs_events(b) =~= sibs_events(b));
    } else {
        assert((a + b)[0] == a[0]);
        assert((a + b).drop_first() =~= a.drop_first() + b);
        lemma_sibs_events_append(a.drop_first(), b);
        assert(sibs_events(a + b) =~= sibs_events(a) + sibs_events(b));
    }
}

/// Sibling ordering in full generality: of a container's siblings, nested
/// containers included, each later one is emitted strictly after the one
/// before it; the buffer after `k` siblings is a prefix of the buffer after
/// `k + 1`, which is strictly longer from the second sibling on.
pub proof fn lemma_sibling_block_order(m: WriterModel, ss: Seq<Sibling>, k: int)
    requires
        m.cursor is StartOfContainer,
        0 <= k < ss.len(),
    ensures
        run(m, sibs_events(ss.take(k))).output.is_prefix_of(
            run(m, sibs_events(ss.take(k + 1))).output,
        ),
        k >= 1 ==> run(m, sibs_events(ss.take(k + 1))).output.len() > run(
            m,
            sibs_events(ss.take(k)),
        ).output.len(),
{
    assert(ss.take(k + 1) =~= ss.take(k) + seq![ss[k]]);
    lemma_sibs_events_append(ss.take(k), seq![ss[k]]);
    assert(seq![ss[k]][0] == ss[k]);
    assert(seq![ss[k]].drop_first() =~= Seq::<Sibling>::empty());
    assert(sibs_events(Seq::<Sibling>::empty()) =~= Seq::<Event>::empty());
    assert(sibs_texts_rest(run(m, sibs_events(ss.take(k))).indent, m.compact, Seq::<
        Sibling,
    >::empty()) =~= Seq::<char>::empty());
    assert(sibs_events(seq![ss[k]]) =~= sib_events(ss[k]));
    lemma_run_append(m, sibs_events(ss.take(k)), sib_events(ss[k]));
    let mk = run(m, sibs_events(ss.take(k)));
    lemma_siblings_text(m, ss.take(k));
    lemma_sibling_text(mk, ss[k]);
    assert(run(m, sibs_events(ss.take(k + 1))).output.subrange(0, mk.output.len() as int)
        =~= mk.output);
}

/// Mode equivalence: for any event sequence whose text tokens hold no spaces
/// or newlines, the pretty output with all whitespace stripped is exactly
/// the compact output.  Punctuation does not depend on the mode.
pub proof fn lemma_compact_is_stripped_pretty(events: Seq<Event>)
    requires
        events_ws_free(events),
    ensures
        strip_ws(run(init_model(false), events).output) == run(init_model(true), events).output,
{
    assert(strip_ws(init_model(false).output) =~= init_model(true).output);
    lemma_modes_agree_run(init_model(false), init_model(true), events);
}

/// Trailing newline: when the last event closes an object and that closer
/// returns the writer to the top level, the pretty output ends with the
/// closing brace followed by exactly one newline, and the compact output
/// ends with the closing brace and no newline at all.
pub proof fn lemma_trailing_newline(compact: bool, events: Seq<Event>)
    requires
        events.len() > 0,
        events.last() == Event::ObjectEnd,
        run(init_model(compact), events.drop_last()).indent == 2,
    ensures
        run(init_model(compact), events).output.len() >= 1,
        !compact ==> run(init_model(compact), events).output.len() >= 2,
        !compact ==> run(init_model(compact), events).output.last() == '\n',
        !compact ==> run(init_model(compact), events).output[run(
            init_model(compact),
            events,
        ).output.len() - 2] == '}',
        compact ==> run(init_model(compact), events).output.last() == '}',
{
    assert(events =~= events.drop_last().push(events.last()));
    lemma_run_snoc(init_model(compact), events.drop_last(), events.last());
    let m = run(init_model(compact), events.drop_last());
    lemma_indent_tracks_counts(init_model(compact), events.drop_last());
    assert(m.compact == compact);
    let out = step(m, Event::ObjectEnd).output;
    if compact {
        assert(out =~= m.output + seq!['}']);
    } else {
        assert(spaces(0) =~= Seq::<char>::empty());
        assert(out =~= m.output + seq!['\n', '}', '\n']);
    }
}

} // verus!
