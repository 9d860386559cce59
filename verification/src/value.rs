//! Runtime values and their mathematical model.
//!
//! A `Value` is the executable representation the evaluator works with.
//! Its ghost counterpart `ValModel` replaces strings and vectors by
//! sequences, so contracts can state equality, truthiness and rendering
//! over plain mathematical structures.

use vstd::prelude::*;
use crate::num::{Num, render_units};
use crate::text::{digit_char, hex_char};

verus! {

/// A runtime value: the result of evaluating an expression.
#[derive(Debug, PartialEq)]
pub enum Value {
    Null,
    Bool(bool),
    Number(Num),
    Str(String),
    Array(Vec<Value>),
    Object(Vec<(String, Value)>),
}

/// The mathematical model of a value: numbers as scaled integers, text as
/// character sequences, collections as sequences.
#[verifier::ext_equal]
pub enum ValModel {
    Null,
    Bool(bool),
    Num(int),
    Str(Seq<char>),
    Arr(Seq<ValModel>),
    Obj(Seq<(Seq<char>, ValModel)>),
}

impl Value {
    /// The model of this value.
    pub open spec fn model(self) -> ValModel
        decreases self,
    {
        match self {
            Value::Null => ValModel::Null,
            Value::Bool(b) => ValModel::Bool(b),
            Value::Number(n) => ValModel::Num(n.spec_units()),
            Value::Str(s) => ValModel::Str(s@),
            Value::Array(a) => ValModel::Arr(arr_model(a@)),
            Value::Object(o) => ValModel::Obj(entries_model(o@)),
        }
    }

    /// Truthiness: null, false, zero, and empty text or collections are
    /// false; everything else is true.
    pub fn truthy(&self) -> (r: bool)
        ensures
            r == vm_truthy(self.model()),
    {
        match self {
            Value::Null => false,
            Value::Bool(b) => *b,
            Value::Number(n) => n.units != 0,
            Value::Str(s) => !s.as_str().is_empty(),
            Value::Array(a) => a.len() != 0,
            Value::Object(o) => o.len() != 0,
        }
    }

    /// Structural copy: the copy has the same model as the original.
    pub fn duplicate(&self) -> (r: Value)
        ensures
            r.model() == self.model(),
        decreases self,
    {
        match self {
            Value::Null => Value::Null,
            Value::Bool(b) => Value::Bool(*b),
            Value::Number(n) => Value::Number(*n),
            Value::Str(s) => Value::Str(s.clone()),
            Value::Array(a) => {
                let mut out: Vec<Value> = Vec::new();
                let mut i: usize = 0;
                while i < a.len()
                    invariant
                        i <= a.len(),
                        self is Array && self->Array_0 == *a,
                        out@.len() == i as int,
                        forall|j: int| 0 <= j < i as int ==> out@[j].model() == a@[j].model(),
                    decreases a.len() - i,
                {
                    let d = a[i].duplicate();
                    out.push(d);
                    i = i + 1;
                }
                let result = Value::Array(out);
                proof {
                    assert forall|j: int| 0 <= j < out@.len() implies arr_model(out@)[j]
                        == arr_model(a@)[j] by {}
                    assert(arr_model(out@) =~= arr_model(a@));
                }
                result
            },
            Value::Object(o) => {
                let mut out: Vec<(String, Value)> = Vec::new();
                let mut i: usize = 0;
                while i < o.len()
                    invariant
                        i <= o.len(),
                        self is Object && self->Object_0 == *o,
                        out@.len() == i as int,
                        forall|j: int| 0 <= j < i as int ==> out@[j].0@ == o@[j].0@
                            && out@[j].1.model() == o@[j].1.model(),
                    decreases o.len() - i,
                {
                    let k = o[i].0.clone();
                    let v = o[i].1.duplicate();
                    out.push((k, v));
                    i = i + 1;
                }
                let result = Value::Object(out);
                proof {
                    assert forall|j: int| 0 <= j < out@.len() implies entries_model(out@)[j]
                        == entries_model(o@)[j] by {}
                    assert(entries_model(out@) =~= entries_model(o@));
                }
                result
            },
        }
    }

    /// Structural equality of two values: exact on numbers, pointwise and
    /// order-sensitive on arrays, key-and-value-sensitive on objects.
    pub fn equal_to(&self, other: &Value) -> (r: bool)
        ensures
            r == vm_equal(self.model(), other.model()),
        decreases self,
    {
        match (self, other) {
            (Value::Null, Value::Null) => true,
            (Value::Bool(l), Value::Bool(r)) => {
                proof {
                    assert(self.model() == ValModel::Bool(*l));
                    assert(other.model() == ValModel::Bool(*r));
                }
                *l == *r
            },
            (Value::Number(l), Value::Number(r)) => {
                proof {
                    assert(self.model() == ValModel::Num(l.spec_units()));
                    assert(other.model() == ValModel::Num(r.spec_units()));
                }
                l.units == r.units
            },
            (Value::Str(l), Value::Str(r)) => {
                proof {
                    assert(self.model() == ValModel::Str(l@));
                    assert(other.model() == ValModel::Str(r@));
                }
                *l == *r
            },
            (Value::Array(l), Value::Array(r)) => {
                if l.len() != r.len() {
                    return false;
                }
                let mut i: usize = 0;
                while i < l.len()
                    invariant
                        i <= l.len(),
                        l@.len() == r@.len(),
                        self is Array && self->Array_0 == *l,
                        other is Array && other->Array_0 == *r,
                        forall|j: int| 0 <= j < i as int ==> vm_equal(
                            l@[j].model(),
                            r@[j].model(),
                        ),
                    decreases l.len() - i,
                {
                    let eq = l[i].equal_to(&r[i]);
                    if !eq {
                        proof {
                            assert(!vm_equal(
                                self.model()->Arr_0[i as int],
                                other.model()->Arr_0[i as int],
                            ));
                        }
                        return false;
                    }
                    i = i + 1;
                }
                proof {
                    let lm = self.model()->Arr_0;
                    let rm = other.model()->Arr_0;
                    assert forall|j: int| 0 <= j < lm.len() implies vm_equal(
                        #[trigger] lm[j],
                        rm[j],
                    ) by {
                        assert(lm[j] == l@[j].model());
                        assert(rm[j] == r@[j].model());
                    }
                }
                true
            },
            (Value::Object(l), Value::Object(r)) => {
                if l.len() != r.len() {
                    return false;
                }
                let mut i: usize = 0;
                while i < l.len()
                    invariant
                        i <= l.len(),
                        l@.len() == r@.len(),
                        self is Object && self->Object_0 == *l,
                        other is Object && other->Object_0 == *r,
                        forall|j: int| 0 <= j < i as int ==> match vm_lookup(
                            other.model()->Obj_0,
                            (#[trigger] l@[j]).0@,
                        ) {
                            Some(rv) => vm_equal(l@[j].1.model(), rv),
                            None => false,
                        },
                    decreases l.len() - i,
                {
                    let found = obj_find(r, &l[i].0);
                    proof {
                        assert((entries_model(l@)[i as int]).0 == l@[i as int].0@);
                        assert(other.model()->Obj_0 == entries_model(r@));
                    }
                    match found {
                        Some(rv) => {
                            let eq = l[i].1.equal_to(rv);
                            if !eq {
                                proof {
                                    assert((entries_model(l@)[i as int]).1 == l@[
                                        i as int
                                    ].1.model());
                                    assert(!vm_equal(self.model(), other.model()));
                                }
                                return false;
                            }
                        },
                        None => {
                            proof {
                                assert(!vm_equal(self.model(), other.model()));
                            }
                            return false;
                        },
                    }
                    i = i + 1;
                }
                proof {
                    let lm = self.model()->Obj_0;
                    let rm = other.model()->Obj_0;
                    assert forall|j: int| 0 <= j < lm.len() implies match vm_lookup(
                        rm,
                        (#[trigger] lm[j]).0,
                    ) {
                        Some(rv) => vm_equal(lm[j].1, rv),
                        None => false,
                    } by {
                        assert(lm[j] == (l@[j].0@, l@[j].1.model()));
                    }
                }
                true
            },
            _ => false,
        }
    }
}

/// The models of the elements of an array, in order.
pub open spec fn arr_model(s: Seq<Value>) -> Seq<ValModel>
    decreases s,
{
    Seq::new(
        s.len(),
        |i: int|
            if 0 <= i < s.len() {
                s[i].model()
            } else {
                ValModel::Null
            },
    )
}

/// The models of the entries of an object, in order.
pub open spec fn entries_model(s: Seq<(String, Value)>) -> Seq<(Seq<char>, ValModel)>
    decreases s,
{
    Seq::new(
        s.len(),
        |i: int|
            if 0 <= i < s.len() {
                (s[i].0@, s[i].1.model())
            } else {
                (Seq::empty(), ValModel::Null)
            },
    )
}

/// First entry of the object model whose key is `key`, if any.
pub open spec fn vm_lookup(entries: Seq<(Seq<char>, ValModel)>, key: Seq<char>) -> Option<
    ValModel,
>
    decreases entries.len(),
{
    if entries.len() == 0 {
        None
    } else if entries[0].0 == key {
        Some(entries[0].1)
    } else {
        vm_lookup(entries.drop_first(), key)
    }
}

/// Truthiness over the model.
pub open spec fn vm_truthy(v: ValModel) -> bool {
    match v {
        ValModel::Null => false,
        ValModel::Bool(b) => b,
        ValModel::Num(u) => u != 0,
        ValModel::Str(s) => s.len() > 0,
        ValModel::Arr(a) => a.len() > 0,
        ValModel::Obj(o) => o.len() > 0,
    }
}

/// Structural equality over the model: exact on numbers; arrays must match
/// pointwise in order; objects must have equal entry counts and every key
/// of the left side must be present on the right with an equal value.
pub open spec fn vm_equal(a: ValModel, b: ValModel) -> bool
    decreases a,
{
    match (a, b) {
        (ValModel::Null, ValModel::Null) => true,
        (ValModel::Bool(l), ValModel::Bool(r)) => l == r,
        (ValModel::Num(l), ValModel::Num(r)) => l == r,
        (ValModel::Str(l), ValModel::Str(r)) => l == r,
        (ValModel::Arr(l), ValModel::Arr(r)) => l.len() == r.len() && (forall|i: int|
            0 <= i < l.len() ==> vm_equal(#[trigger] l[i], r[i])),
        (ValModel::Obj(l), ValModel::Obj(r)) => l.len() == r.len() && (forall|i: int|
            0 <= i < l.len() ==> match vm_lookup(r, (#[trigger] l[i]).0) {
                Some(rv) => vm_equal(l[i].1, rv),
                None => false,
            }),
        _ => false,
    }
}

/// Find the first entry with the given key in an object's entry list.
pub fn obj_find<'a>(entries: &'a Vec<(String, Value)>, key: &String) -> (r: Option<&'a Value>)
    ensures
        match r {
            Some(v) => vm_lookup(entries_model(entries@), key@) == Some(v.model()),
            None => vm_lookup(entries_model(entries@), key@) is None,
        },
{
    let ghost m = entries_model(entries@);
    proof {
        assert(m.skip(0) =~= m);
    }
    let mut i: usize = 0;
    while i < entries.len()
        invariant
            i <= entries.len(),
            m == entries_model(entries@),
            m.len() == entries@.len(),
            forall|j: int| 0 <= j < m.len() ==> #[trigger] m[j] == (
                entries@[j].0@,
                entries@[j].1.model(),
            ),
            vm_lookup(m, key@) == vm_lookup(m.skip(i as int), key@),
        decreases entries.len() - i,
    {
        if entries[i].0 == *key {
            proof {
                assert(m.skip(i as int)[0] == m[i as int]);
            }
            return Some(&entries[i].1);
        }
        proof {
            assert(m.skip(i as int)[0] == m[i as int]);
            assert(m.skip(i as int).drop_first() =~= m.skip(i as int + 1));
        }
        i = i + 1;
    }
    proof {
        assert(m.skip(i as int).len() == 0);
    }
    None
}

/// The text a value contributes to a rendered template: strings verbatim,
/// scalars in their plain form, collections in their structural form.
pub open spec fn vm_render(v: ValModel) -> Seq<char> {
    match v {
        ValModel::Str(s) => s,
        ValModel::Num(u) => render_units(u),
        ValModel::Bool(b) => if b {
            "true"@
        } else {
            "false"@
        },
        ValModel::Null => "null"@,
        ValModel::Arr(_) => vm_json(v),
        ValModel::Obj(_) => vm_json(v),
    }
}

/// The escape sequence one character contributes inside a quoted string.
pub open spec fn escape_char(c: char) -> Seq<char> {
    if c == '"' {
        seq!['\\', '"']
    } else if c == '\\' {
        seq!['\\', '\\']
    } else if c == '\n' {
        seq!['\\', 'n']
    } else if c == '\r' {
        seq!['\\', 'r']
    } else if c == '\t' {
        seq!['\\', 't']
    } else if c == '\u{8}' {
        seq!['\\', 'b']
    } else if c == '\u{c}' {
        seq!['\\', 'f']
    } else if (c as u32) < 0x20 {
        seq!['\\', 'u', '0', '0', digit_char(((c as u32) / 16) as nat), hex_char(
            ((c as u32) % 16) as nat,
        )]
    } else {
        seq![c]
    }
}

/// A whole character sequence, escaped for a quoted string.
pub open spec fn escape_text(s: Seq<char>) -> Seq<char>
    decreases s.len(),
{
    if s.len() == 0 {
        Seq::empty()
    } else {
        escape_char(s[0]) + escape_text(s.drop_first())
    }
}

/// The structural rendering of a value: double-quoted escaped strings,
/// square-bracketed comma-separated arrays, curly-braced objects with
/// quoted keys.
pub open spec fn vm_json(v: ValModel) -> Seq<char>
    decreases v,
{
    match v {
        ValModel::Null => "null"@,
        ValModel::Bool(b) => if b {
            "true"@
        } else {
            "false"@
        },
        ValModel::Num(u) => render_units(u),
        ValModel::Str(s) => seq!['"'] + escape_text(s) + seq!['"'],
        ValModel::Arr(items) => seq!['['] + vm_json_items(items, 0) + seq![']'],
        ValModel::Obj(entries) => seq!['{'] + vm_json_entries(entries, 0) + seq!['}'],
    }
}

/// The comma-separated renderings of the items from position `i` on.
pub open spec fn vm_json_items(items: Seq<ValModel>, i: int) -> Seq<char>
    decreases items, items.len() - i,
{
    if i < 0 || i >= items.len() {
        Seq::empty()
    } else {
        (if i > 0 {
            seq![',']
        } else {
            Seq::empty()
        }) + vm_json(items[i]) + vm_json_items(items, i + 1)
    }
}

/// The comma-separated renderings of the entries from position `i` on.
pub open spec fn vm_json_entries(entries: Seq<(Seq<char>, ValModel)>, i: int) -> Seq<char>
    decreases entries, entries.len() - i,
{
    if i < 0 || i >= entries.len() {
        Seq::empty()
    } else {
        (if i > 0 {
            seq![',']
        } else {
            Seq::empty()
        }) + seq!['"'] + escape_text(entries[i].0) + seq!['"', ':'] + vm_json(entries[i].1)
            + vm_json_entries(entries, i + 1)
    }
}


/// Append one character's escape sequence to `out`.
fn push_escaped_char(out: &mut String, c: char)
    ensures
        final(out)@ == old(out)@ + escape_char(c),
{
    proof {
        reveal_strlit("\\\"");
        reveal_strlit("\\\\");
        reveal_strlit("\\n");
        reveal_strlit("\\r");
        reveal_strlit("\\t");
        reveal_strlit("\\b");
        reveal_strlit("\\f");
        reveal_strlit("\\u00");
    }
    if c == '"' {
        out.append("\\\"");
    } else if c == '\\' {
        out.append("\\\\");
    } else if c == '\n' {
        out.append("\\n");
    } else if c == '\r' {
        out.append("\\r");
    } else if c == '\t' {
        out.append("\\t");
    } else if c == '\u{8}' {
        out.append("\\b");
    } else if c == '\u{c}' {
        out.append("\\f");
    } else if (c as u32) < 0x20 {
        out.append("\\u00");
        let code: u32 = c as u32;
        out.append(crate::text::digit_text((code / 16) as u64));
        out.append(crate::text::hex_text((code % 16) as u64));
        proof {
            assert(final(out)@ =~= old(out)@ + escape_char(c));
        }
    } else {
        crate::text::push_char(out, c);
    }
}

/// Append the escaped form of a whole string to `out`.
fn push_escaped(out: &mut String, s: &str)
    ensures
        final(out)@ == old(out)@ + escape_text(s@),
{
    let cs = crate::text::str_to_chars(s);
    proof {
        assert(s@.skip(0) =~= s@);
    }
    let mut i: usize = 0;
    while i < cs.len()
        invariant
            i <= cs.len(),
            cs@ == s@,
            out@ + escape_text(s@.skip(i as int)) == old(out)@ + escape_text(s@),
        decreases cs.len() - i,
    {
        proof {
            assert(s@.skip(i as int)[0] == s@[i as int]);
            assert(s@.skip(i as int).drop_first() =~= s@.skip(i as int + 1));
        }
        push_escaped_char(out, cs[i]);
        proof {
            assert(out@ + escape_text(s@.skip(i as int + 1)) =~= old(out)@ + escape_text(s@));
        }
        i = i + 1;
    }
    proof {
        assert(s@.skip(i as int) =~= Seq::empty());
        assert(out@ =~= old(out)@ + escape_text(s@));
    }
}

impl Value {
    /// Append the structural rendering of this value to `out`.
    fn push_json(&self, out: &mut String)
        ensures
            final(out)@ == old(out)@ + vm_json(self.model()),
        decreases self,
    {
        proof {
            reveal_strlit("null");
            reveal_strlit("true");
            reveal_strlit("false");
            reveal_strlit("\"");
            reveal_strlit("[");
            reveal_strlit("]");
            reveal_strlit("{");
            reveal_strlit("}");
            reveal_strlit(",");
            reveal_strlit(":");
        }
        match self {
            Value::Null => out.append("null"),
            Value::Bool(b) => {
                if *b {
                    out.append("true")
                } else {
                    out.append("false")
                }
            },
            Value::Number(n) => {
                let t = n.render();
                out.append(t.as_str());
            },
            Value::Str(s) => {
                out.append("\"");
                push_escaped(out, s.as_str());
                out.append("\"");
                proof {
                    assert(out@ =~= old(out)@ + vm_json(self.model()));
                }
            },
            Value::Array(a) => {
                out.append("[");
                let ghost base = out@;
                let ghost am = arr_model(a@);
                let mut i: usize = 0;
                while i < a.len()
                    invariant
                        i <= a.len(),
                        self is Array && self->Array_0 == *a,
                        am == arr_model(a@),
                        am.len() == a@.len(),
                        out@ + vm_json_items(am, i as int) == base + vm_json_items(am, 0),
                    decreases a.len() - i,
                {
                    proof {
                        reveal_strlit(",");
                    }
                    if i > 0 {
                        out.append(",");
                    }
                    a[i].push_json(out);
                    proof {
                        assert(am[i as int] == a@[i as int].model());
                        assert(out@ + vm_json_items(am, i as int + 1) =~= base + vm_json_items(
                            am,
                            0,
                        ));
                    }
                    i = i + 1;
                }
                out.append("]");
                proof {
                    assert(vm_json_items(am, i as int) =~= Seq::empty());
                    assert(out@ =~= old(out)@ + vm_json(self.model()));
                }
            },
            Value::Object(o) => {
                out.append("{");
                let ghost base = out@;
                let ghost em = entries_model(o@);
                let mut i: usize = 0;
                while i < o.len()
                    invariant
                        i <= o.len(),
                        self is Object && self->Object_0 == *o,
                        em == entries_model(o@),
                        em.len() == o@.len(),
                        out@ + vm_json_entries(em, i as int) == base + vm_json_entries(em, 0),
                    decreases o.len() - i,
                {
                    proof {
                        reveal_strlit("\"");
                        reveal_strlit(",");
                        reveal_strlit(":");
                    }
                    if i > 0 {
                        out.append(",");
                    }
                    out.append("\"");
                    push_escaped(out, o[i].0.as_str());
                    out.append("\"");
                    out.append(":");
                    o[i].1.push_json(out);
                    proof {
                        assert(em[i as int] == (o@[i as int].0@, o@[i as int].1.model()));
                        assert(out@ + vm_json_entries(em, i as int + 1) =~= base + vm_json_entries(
                            em,
                            0,
                        ));
                    }
                    i = i + 1;
                }
                out.append("}");
                proof {
                    assert(vm_json_entries(em, i as int) =~= Seq::empty());
                    assert(out@ =~= old(out)@ + vm_json(self.model()));
                }
            },
        }
    }

    /// The text this value contributes to a rendered template.
    pub fn render(&self) -> (r: String)
        ensures
            r@ == vm_render(self.model()),
    {
        proof {
            reveal_strlit("null");
            reveal_strlit("true");
            reveal_strlit("false");
        }
        match self {
            Value::Str(s) => s.clone(),
            Value::Number(n) => n.render(),
            Value::Bool(b) => {
                if *b {
                    String::from_str("true")
                } else {
                    String::from_str("false")
                }
            },
            Value::Null => String::from_str("null"),
            Value::Array(_) => {
                let mut out = String::new();
                self.push_json(&mut out);
                out
            },
            Value::Object(_) => {
                let mut out = String::new();
                self.push_json(&mut out);
                out
            },
        }
    }
}


/// A well-formed value: object keys are pairwise distinct at every level.
pub open spec fn vm_wf(v: ValModel) -> bool
    decreases v,
{
    match v {
        ValModel::Arr(items) => forall|i: int| 0 <= i < items.len() ==> vm_wf(#[trigger] items[i]),
        ValModel::Obj(entries) => (forall|i: int, j: int|
            0 <= i < j < entries.len() ==> (#[trigger] entries[i]).0 != (
            #[trigger] entries[j]).0) && (forall|i: int|
            0 <= i < entries.len() ==> vm_wf((#[trigger] entries[i]).1)),
        _ => true,
    }
}

/// In an object with distinct keys, looking an entry's key up finds that
/// entry.
pub proof fn lemma_lookup_own_key(entries: Seq<(Seq<char>, ValModel)>, i: int)
    requires
        0 <= i < entries.len(),
        forall|a: int, b: int| 0 <= a < b < entries.len() ==> (#[trigger] entries[a]).0 != (
        #[trigger] entries[b]).0,
    ensures
        vm_lookup(entries, entries[i].0) == Some(entries[i].1),
    decreases entries.len(),
{
    if i == 0 {
    } else {
        assert(entries[0].0 != entries[i].0);
        let rest = entries.drop_first();
        assert(forall|a: int, b: int| 0 <= a < b < rest.len() ==> (#[trigger] rest[a]).0 != (
        #[trigger] rest[b]).0) by {
            assert(forall|a: int| 0 <= a < rest.len() ==> #[trigger] rest[a] == entries[a + 1]);
        }
        assert(rest[i - 1] == entries[i]);
        lemma_lookup_own_key(rest, i - 1);
    }
}

/// Structural equality is reflexive on well-formed values: with object
/// keys distinct, every value equals itself, recursing through arrays and
/// objects.
pub proof fn lemma_equal_reflexive(a: ValModel)
    requires
        vm_wf(a),
    ensures
        vm_equal(a, a),
    decreases a,
{
    match a {
        ValModel::Arr(items) => {
            assert forall|i: int| 0 <= i < items.len() implies vm_equal(
                #[trigger] items[i],
                items[i],
            ) by {
                lemma_equal_reflexive(items[i]);
            }
        },
        ValModel::Obj(entries) => {
            assert forall|i: int| 0 <= i < entries.len() implies match vm_lookup(
                entries,
                (#[trigger] entries[i]).0,
            ) {
                Some(rv) => vm_equal(entries[i].1, rv),
                None => false,
            } by {
                lemma_lookup_own_key(entries, i);
                lemma_equal_reflexive(entries[i].1);
            }
        },
        _ => {},
    }
}

} // verus!
