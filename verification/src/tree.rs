//! A small value-tree builder layered over the writer: a tree of objects,
//! arrays, strings and numbers, rendered by driving the event API.  The
//! builder owns no punctuation or layout logic of its own; its contract says
//! the output is exactly the fold of the writer's transitions over the tree.
//!
//! Entries are kept in insertion order and rendered in that order; adding
//! the same key twice keeps both entries.  String values and keys are taken
//! as pre-formatted text (any quoting is the caller's concern); numbers are
//! rendered in decimal.  An object standing under a key is rendered under
//! that key; an object standing as an array element is rendered under its
//! own name, and an array nested directly in an array under an empty name,
//! since every container of the event API is named.

use vstd::prelude::*;

use crate::model::WriterModel;
use crate::model::init_model;
use crate::model::step_array_end;
use crate::model::step_array_start;
use crate::model::step_element;
use crate::model::step_end;
use crate::model::step_key_value;
use crate::model::step_object_end;
use crate::model::step_object_start;
use crate::model::step_start;
use crate::writer::Context;
use crate::writer::JsonWriter;

verus! {

/// One value of the tree: a nested array, a pre-formatted string token, a
/// number, or a nested object.
pub enum ValueType {
    Array(Vec<ValueType>),
    String(String),
    Number(i32),
    Object(Object),
}

/// A named object under construction: its entries in insertion order.
pub struct Object {
    /// The name the object is rendered under when nothing else names it.
    pub name: String,
    /// The key-value entries, in the order they were added.
    pub entries: Vec<(String, ValueType)>,
}

/// The larger of two heights.
pub open spec fn nat_max(a: nat, b: nat) -> nat {
    if a >= b {
        a
    } else {
        b
    }
}

/// How deeply a value nests containers: the writer's depth grows by two per
/// unit while the value is rendered.
pub open spec fn value_height(v: ValueType) -> nat
    decreases v,
{
    match v {
        ValueType::String(_) => 0,
        ValueType::Number(_) => 0,
        ValueType::Array(a) => 1 + elems_height(a@),
        ValueType::Object(o) => 1 + entries_height(o.entries@),
    }
}

pub open spec fn elems_height(s: Seq<ValueType>) -> nat
    decreases s,
{
    if s.len() == 0 {
        0
    } else {
        nat_max(value_height(s[0]), elems_height(s.drop_first()))
    }
}

pub open spec fn entries_height(s: Seq<(String, ValueType)>) -> nat
    decreases s,
{
    if s.len() == 0 {
        0
    } else {
        nat_max(value_height(s[0].1), entries_height(s.drop_first()))
    }
}

proof fn lemma_entry_height(s: Seq<(String, ValueType)>, i: int)
    requires
        0 <= i < s.len(),
    ensures
        value_height(s[i].1) <= entries_height(s),
    decreases i,
{
    if i > 0 {
        lemma_entry_height(s.drop_first(), i - 1);
        assert(s.drop_first()[i - 1] == s[i]);
    }
}

proof fn lemma_elem_height(s: Seq<ValueType>, i: int)
    requires
        0 <= i < s.len(),
    ensures
        value_height(s[i]) <= elems_height(s),
    decreases i,
{
    if i > 0 {
        lemma_elem_height(s.drop_first(), i - 1);
        assert(s.drop_first()[i - 1] == s[i]);
    }
}

/// The decimal digit character for `d`.
pub open spec fn dec_digit(d: int) -> char {
    if d == 0 {
        '0'
    } else if d == 1 {
        '1'
    } else if d == 2 {
        '2'
    } else if d == 3 {
        '3'
    } else if d == 4 {
        '4'
    } else if d == 5 {
        '5'
    } else if d == 6 {
        '6'
    } else if d == 7 {
        '7'
    } else if d == 8 {
        '8'
    } else {
        '9'
    }
}

/// The decimal rendering of a non-negative number, most significant digit
/// first, no leading zeros.
pub open spec fn dec_nat(n: int) -> Seq<char>
    decreases n,
{
    if n <= 9 {
        seq![dec_digit(n)]
    } else {
        dec_nat(n / 10).push(dec_digit(n % 10))
    }
}

/// The decimal rendering of a number, with a leading minus sign when it is
/// negative.
pub open spec fn dec_i32(n: int) -> Seq<char> {
    if n < 0 {
        seq!['-'] + dec_nat(-n)
    } else {
        dec_nat(n)
    }
}

/// The writer state after one entry of an object is rendered under its key.
pub open spec fn render_entry(m: WriterModel, key: Seq<char>, v: ValueType) -> WriterModel
    decreases v,
{
    match v {
        ValueType::String(s) => step_key_value(m, key, s@),
        ValueType::Number(n) => step_key_value(m, key, dec_i32(n as int)),
        ValueType::Array(a) => step_array_end(render_elems(step_array_start(m, key), a@)),
        ValueType::Object(o) => step_object_end(
            render_entries(step_object_start(m, key), o.entries@),
        ),
    }
}

/// The writer state after an object's entries are rendered in order.
pub open spec fn render_entries(m: WriterModel, s: Seq<(String, ValueType)>) -> WriterModel
    decreases s,
{
    if s.len() == 0 {
        m
    } else {
        render_entries(render_entry(m, s[0].0@, s[0].1), s.drop_first())
    }
}

/// The writer state after one array element is rendered.
pub open spec fn render_elem(m: WriterModel, v: ValueType) -> WriterModel
    decreases v,
{
    match v {
        ValueType::String(s) => step_element(m, s@),
        ValueType::Number(n) => step_element(m, dec_i32(n as int)),
        ValueType::Array(a) => step_array_end(render_elems(step_array_start(m, seq![]), a@)),
        ValueType::Object(o) => step_object_end(
            render_entries(step_object_start(m, o.name@), o.entries@),
        ),
    }
}

/// The writer state after an array's elements are rendered in order.
pub open spec fn render_elems(m: WriterModel, s: Seq<ValueType>) -> WriterModel
    decreases s,
{
    if s.len() == 0 {
        m
    } else {
        render_elems(render_elem(m, s[0]), s.drop_first())
    }
}

/// The writer state after a whole object is rendered under the given name.
pub open spec fn render_object(m: WriterModel, name: Seq<char>, s: Seq<(String, ValueType)>)
    -> WriterModel {
    step_object_end(render_entries(step_object_start(m, name), s))
}

/// The writer state after a whole document: open the document, render the
/// object under its own name, close the document.
pub open spec fn render_document(o: Object, compact: bool) -> WriterModel {
    step_end(render_object(step_start(init_model(compact)), o.name@, o.entries@))
}

/// Rendering an entry leaves the depth and the mode where they were.
pub proof fn lemma_render_entry_shape(m: WriterModel, key: Seq<char>, v: ValueType)
    ensures
        render_entry(m, key, v).indent == m.indent,
        render_entry(m, key, v).compact == m.compact,
    decreases v,
{
    match v {
        ValueType::Array(a) => {
            lemma_render_elems_shape(step_array_start(m, key), a@);
        },
        ValueType::Object(o) => {
            lemma_render_entries_shape(step_object_start(m, key), o.entries@);
        },
        _ => {},
    }
}

pub proof fn lemma_render_entries_shape(m: WriterModel, s: Seq<(String, ValueType)>)
    ensures
        render_entries(m, s).indent == m.indent,
        render_entries(m, s).compact == m.compact,
    decreases s,
{
    if s.len() != 0 {
        lemma_render_entry_shape(m, s[0].0@, s[0].1);
        lemma_render_entries_shape(render_entry(m, s[0].0@, s[0].1), s.drop_first());
    }
}

pub proof fn lemma_render_elem_shape(m: WriterModel, v: ValueType)
    ensures
        render_elem(m, v).indent == m.indent,
        render_elem(m, v).compact == m.compact,
    decreases v,
{
    match v {
        ValueType::Array(a) => {
            lemma_render_elems_shape(step_array_start(m, seq![]), a@);
        },
        ValueType::Object(o) => {
            lemma_render_entries_shape(step_object_start(m, o.name@), o.entries@);
        },
        _ => {},
    }
}

pub proof fn lemma_render_elems_shape(m: WriterModel, s: Seq<ValueType>)
    ensures
        render_elems(m, s).indent == m.indent,
        render_elems(m, s).compact == m.compact,
    decreases s,
{
    if s.len() != 0 {
        lemma_render_elem_shape(m, s[0]);
        lemma_render_elems_shape(render_elem(m, s[0]), s.drop_first());
    }
}

/// Rendering the entries of a sequence and then one more is one more entry.
proof fn lemma_render_entries_snoc(
    m: WriterModel,
    s: Seq<(String, ValueType)>,
    p: (String, ValueType),
)
    ensures
        render_entries(m, s.push(p)) == render_entry(render_entries(m, s), p.0@, p.1),
    decreases s,
{
    if s.len() == 0 {
        assert(s.push(p)[0] == p);
        assert(s.push(p).drop_first() =~= Seq::<(String, ValueType)>::empty());
        assert(render_entries(m, s.push(p)) == render_entries(
            render_entry(m, p.0@, p.1),
            s.push(p).drop_first(),
        ));
        assert(render_entries(m, s) == m);
    } else {
        assert(s.push(p)[0] == s[0]);
        assert(s.push(p).drop_first() =~= s.drop_first().push(p));
        lemma_render_entries_snoc(render_entry(m, s[0].0@, s[0].1), s.drop_first(), p);
        assert(render_entries(m, s.push(p)) == render_entries(
            render_entry(m, s[0].0@, s[0].1),
            s.drop_first().push(p),
        ));
        assert(render_entries(m, s) == render_entries(
            render_entry(m, s[0].0@, s[0].1),
            s.drop_first(),
        ));
    }
}

proof fn lemma_render_elems_snoc(m: WriterModel, s: Seq<ValueType>, v: ValueType)
    ensures
        render_elems(m, s.push(v)) == render_elem(render_elems(m, s), v),
    decreases s,
{
    if s.len() == 0 {
        assert(s.push(v)[0] == v);
        assert(s.push(v).drop_first() =~= Seq::<ValueType>::empty());
        assert(render_elems(m, s.push(v)) == render_elems(
            render_elem(m, v),
            s.push(v).drop_first(),
        ));
        assert(render_elems(m, s) == m);
    } else {
        assert(s.push(v)[0] == s[0]);
        assert(s.push(v).drop_first() =~= s.drop_first().push(v));
        lemma_render_elems_snoc(render_elem(m, s[0]), s.drop_first(), v);
        assert(render_elems(m, s.push(v)) == render_elems(
            render_elem(m, s[0]),
            s.drop_first().push(v),
        ));
        assert(render_elems(m, s) == render_elems(render_elem(m, s[0]), s.drop_first()));
    }
}

/// One decimal digit as text.
fn digit_token(d: u32) -> (t: &'static str)
    requires
        d <= 9,
    ensures
        t@ == seq![dec_digit(d as int)],
{
    if d == 0 {
        proof {
            reveal_strlit("0");
            assert("0"@ =~= seq![dec_digit(0)]);
        }
        "0"
    } else if d == 1 {
        proof {
            reveal_strlit("1");
            assert("1"@ =~= seq![dec_digit(1)]);
        }
        "1"
    } else if d == 2 {
        proof {
            reveal_strlit("2");
            assert("2"@ =~= seq![dec_digit(2)]);
        }
        "2"
    } else if d == 3 {
        proof {
            reveal_strlit("3");
            assert("3"@ =~= seq![dec_digit(3)]);
        }
        "3"
    } else if d == 4 {
        proof {
            reveal_strlit("4");
            assert("4"@ =~= seq![dec_digit(4)]);
        }
        "4"
    } else if d == 5 {
        proof {
            reveal_strlit("5");
            assert("5"@ =~= seq![dec_digit(5)]);
        }
        "5"
    } else if d == 6 {
        proof {
            reveal_strlit("6");
            assert("6"@ =~= seq![dec_digit(6)]);
        }
        "6"
    } else if d == 7 {
        proof {
            reveal_strlit("7");
            assert("7"@ =~= seq![dec_digit(7)]);
        }
        "7"
    } else if d == 8 {
        proof {
            reveal_strlit("8");
            assert("8"@ =~= seq![dec_digit(8)]);
        }
        "8"
    } else {
        proof {
            reveal_strlit("9");
            assert("9"@ =~= seq![dec_digit(9)]);
        }
        "9"
    }
}

/// Appends the decimal digits of `n`, most significant first.
fn push_digits(s: &mut String, n: u32)
    ensures
        final(s)@ == old(s)@ + dec_nat(n as int),
    decreases n,
{
    if n <= 9 {
        let t = digit_token(n);
        s.append(t);
    } else {
        push_digits(s, n / 10);
        let t = digit_token(n % 10);
        s.append(t);
        proof {
            assert(old(s)@ + dec_nat((n / 10) as int) + seq![dec_digit((n % 10) as int)] =~= old(
                s,
            )@ + dec_nat(n as int));
        }
    }
}

/// The decimal rendering of a number as owned text.
fn number_string(n: i32) -> (s: String)
    ensures
        s@ == dec_i32(n as int),
{
    let mut s = String::new();
    if n < 0 {
        s.append("-");
        let mag: u32 = (-(n as i64)) as u32;
        push_digits(&mut s, mag);
        proof {
            reveal_strlit("-");
            assert(s@ =~= dec_i32(n as int));
        }
    } else {
        push_digits(&mut s, n as u32);
        proof {
            assert(s@ =~= dec_i32(n as int));
        }
    }
    s
}

/// Renders one entry under its key.
fn emit_entry(c: &mut Context, key: &str, v: &ValueType)
    requires
        old(c).model().indent >= 0,
        old(c).model().indent + 2 * (1 + value_height(*v)) <= usize::MAX as int,
    ensures
        final(c).model() == render_entry(old(c).model(), key@, *v),
    decreases *v,
{
    match v {
        ValueType::String(s) => {
            c.json_keyvalue(key, s.as_str());
        },
        ValueType::Number(n) => {
            let t = number_string(*n);
            c.json_keyvalue(key, t.as_str());
        },
        ValueType::Array(a) => {
            c.json_arraystart(key);
            emit_elements(c, a);
            proof {
                lemma_render_elems_shape(step_array_start(old(c).model(), key@), a@);
            }
            c.json_arrayend();
        },
        ValueType::Object(o) => {
            c.json_objectstart(key);
            emit_entries(c, &o.entries);
            proof {
                lemma_render_entries_shape(step_object_start(old(c).model(), key@), o.entries@);
            }
            c.json_objectend();
        },
    }
}

/// Renders an object's entries in insertion order.
fn emit_entries(c: &mut Context, entries: &Vec<(String, ValueType)>)
    requires
        old(c).model().indent >= 0,
        old(c).model().indent + 2 * (1 + entries_height(entries@)) <= usize::MAX as int,
    ensures
        final(c).model() == render_entries(old(c).model(), entries@),
    decreases entries@,
{
    let n: usize = entries.len();
    let mut i: usize = 0;
    while i < n
        invariant
            i <= n,
            n == entries@.len(),
            old(c).model().indent >= 0,
            old(c).model().indent + 2 * (1 + entries_height(entries@)) <= usize::MAX as int,
            c.model() == render_entries(old(c).model(), entries@.take(i as int)),
        decreases n - i,
    {
        proof {
            assert forall|j: int| 0 <= j < entries@.take(i as int).len() implies entries@.take(
                i as int,
            )[j] == entries@[j] by {}
            lemma_render_entries_shape(old(c).model(), entries@.take(i as int));
            lemma_entry_height(entries@, i as int);
        }
        let pair = &entries[i];
        proof {
            assert(decreases_to!(entries@ => entries@[i as int]));
        }
        emit_entry(c, pair.0.as_str(), &pair.1);
        proof {
            assert(entries@.take(i + 1 as int) =~= entries@.take(i as int).push(
                entries@[i as int],
            ));
            lemma_render_entries_snoc(old(c).model(), entries@.take(i as int), entries@[i as int]);
        }
        i = i + 1;
    }
    proof {
        assert(entries@.take(n as int) =~= entries@);
    }
}

/// Renders one array element.
fn emit_element(c: &mut Context, v: &ValueType)
    requires
        old(c).model().indent >= 0,
        old(c).model().indent + 2 * (1 + value_height(*v)) <= usize::MAX as int,
    ensures
        final(c).model() == render_elem(old(c).model(), *v),
    decreases *v,
{
    match v {
        ValueType::String(s) => {
            c.json_element(s.as_str());
        },
        ValueType::Number(n) => {
            let t = number_string(*n);
            c.json_element(t.as_str());
        },
        ValueType::Array(a) => {
            c.json_arraystart("");
            proof {
                reveal_strlit("");
                assert(""@ =~= Seq::<char>::empty());
            }
            emit_elements(c, a);
            proof {
                lemma_render_elems_shape(
                    step_array_start(old(c).model(), Seq::<char>::empty()),
                    a@,
                );
            }
            c.json_arrayend();
        },
        ValueType::Object(o) => {
            c.json_objectstart(o.name.as_str());
            emit_entries(c, &o.entries);
            proof {
                lemma_render_entries_shape(
                    step_object_start(old(c).model(), o.name@),
                    o.entries@,
                );
            }
            c.json_objectend();
        },
    }
}

/// Renders an array's elements in order.
fn emit_elements(c: &mut Context, elems: &Vec<ValueType>)
    requires
        old(c).model().indent >= 0,
        old(c).model().indent + 2 * (1 + elems_height(elems@)) <= usize::MAX as int,
    ensures
        final(c).model() == render_elems(old(c).model(), elems@),
    decreases elems@,
{
    let n: usize = elems.len();
    let mut i: usize = 0;
    while i < n
        invariant
            i <= n,
            n == elems@.len(),
            old(c).model().indent >= 0,
            old(c).model().indent + 2 * (1 + elems_height(elems@)) <= usize::MAX as int,
            c.model() == render_elems(old(c).model(), elems@.take(i as int)),
        decreases n - i,
    {
        proof {
            lemma_render_elems_shape(old(c).model(), elems@.take(i as int));
            lemma_elem_height(elems@, i as int);
        }
        let v = &elems[i];
        proof {
            assert(decreases_to!(elems@ => elems@[i as int]));
        }
        emit_element(c, v);
        proof {
            assert(elems@.take(i + 1 as int) =~= elems@.take(i as int).push(elems@[i as int]));
            lemma_render_elems_snoc(old(c).model(), elems@.take(i as int), elems@[i as int]);
        }
        i = i + 1;
    }
    proof {
        assert(elems@.take(n as int) =~= elems@);
    }
}

impl Object {
    /// A fresh object with no entries.
    pub fn new(name: &str) -> (o: Object)
        ensures
            o.name@ == name@,
            o.entries@ == Seq::<(String, ValueType)>::empty(),
    {
        Object { name: name.to_owned(), entries: Vec::new() }
    }

    /// Appends one entry; insertion order is kept, duplicates are kept.
    pub fn add(self, key: &str, value: ValueType) -> (o: Object)
        ensures
            o.name@ == self.name@,
            o.entries@.len() == self.entries@.len() + 1,
            o.entries@.subrange(0, self.entries@.len() as int) == self.entries@,
            o.entries@.last().0@ == key@,
            o.entries@.last().1 == value,
    {
        let mut entries = self.entries;
        let owned_key = key.to_owned();
        proof {
            assert(owned_key@ == key@);
        }
        entries.push((owned_key, value));
        Object { name: self.name, entries }
    }

    /// Renders this object, under its own name, into the given writer and
    /// hands back the accumulated document text.
    pub fn generate(self, context: Context) -> (out: String)
        requires
            context.model().indent >= 0,
            context.model().indent + 2 * (2 + entries_height(self.entries@)) <= usize::MAX as int,
        ensures
            out@ == render_object(context.model(), self.name@, self.entries@).output,
    {
        let mut c = context;
        c.json_objectstart(self.name.as_str());
        emit_entries(&mut c, &self.entries);
        proof {
            lemma_render_entries_shape(
                step_object_start(context.model(), self.name@),
                self.entries@,
            );
        }
        c.json_objectend();
        c.into_output()
    }
}

/// Renders a whole document in the given mode: the document opener, the
/// object under its own name, the document closer.
pub fn generate(json: Object, compact: bool) -> (out: String)
    requires
        6 + 2 * entries_height(json.entries@) <= usize::MAX as int,
    ensures
        out@ == render_document(json, compact).output,
{
    let mut context = Context::with_mode(compact);
    context.json_start();
    context.json_objectstart(json.name.as_str());
    emit_entries(&mut context, &json.entries);
    proof {
        lemma_render_entries_shape(
            step_object_start(step_start(init_model(compact)), json.name@),
            json.entries@,
        );
    }
    context.json_objectend();
    context.json_end();
    context.into_output()
}

} // verus!
