use vstd::prelude::*;
use vstd::string::StringSliceAdditionalSpecFns;

use crate::errors::{column_of, get_position_from_span, line_of, push_char, Error, ErrorType};
use crate::eval::{context_field_of, missing_variable_message, same_text, context_field, ContextField, RawEvalError, MISSING_VARIABLE};
use crate::offsets::{byte_len, byte_offset, char_len_exec, chars_in, lemma_byte_mono, lemma_byte_step, text_in};
use crate::span::{chars_of, Span};

verus! {

/// The value of the last entry named `k`, if any.
pub open spec fn find<V>(s: Seq<(String, V)>, k: Seq<char>) -> Option<V>
    decreases s.len(),
{
    if s.len() == 0 {
        None
    } else if s.last().0@ == k {
        Some(s.last().1)
    } else {
        find(s.drop_last(), k)
    }
}

/// The values that the statements of one point have given to names. A
/// later entry for a name stands over an earlier one.
#[derive(Clone, Debug)]
pub struct VariableTable<V> {
    pub entries: Vec<(String, V)>,
}

impl<V> View for VariableTable<V> {
    type V = Map<Seq<char>, V>;

    open spec fn view(&self) -> Map<Seq<char>, V> {
        Map::new(|k: Seq<char>| find(self.entries@, k) is Some, |k: Seq<char>| find(self.entries@, k)->Some_0)
    }
}

proof fn lemma_find_update<V>(s: Seq<(String, V)>, j: int, e: (String, V), k: Seq<char>)
    requires
        0 <= j < s.len(),
        s[j].0@ == e.0@,
        forall|i: int| j < i < s.len() ==> (#[trigger] s[i]).0@ != e.0@,
    ensures
        find(s.update(j, e), k) == if k == e.0@ {
            Some(e.1)
        } else {
            find(s, k)
        },
    decreases s.len(),
{
    let u = s.update(j, e);
    assert(u.drop_last() =~= if j == s.len() - 1 {
        s.drop_last()
    } else {
        s.drop_last().update(j, e)
    });
    if j < s.len() - 1 {
        assert(s.last() == s[s.len() - 1]);
        lemma_find_update(s.drop_last(), j, e, k);
    }
}

impl<V: Copy> VariableTable<V> {
    /// A table with no names.
    pub fn new() -> (r: Self)
        ensures
            r@ == Map::<Seq<char>, V>::empty(),
    {
        let r = VariableTable { entries: Vec::new() };
        assert(r@ =~= Map::<Seq<char>, V>::empty());
        r
    }

    /// Index of the last entry named `name`.
    fn position(&self, name: &str) -> (r: Option<usize>)
        ensures
            match r {
                Some(j) => j < self.entries@.len() && self.entries@[j as int].0@ == name@ && forall|i: int|
                    j < i < self.entries@.len() ==> (#[trigger] self.entries@[i]).0@ != name@,
                None => find(self.entries@, name@) is None,
            },
    {
        let mut i = self.entries.len();
        proof {
            assert(self.entries@.subrange(0, i as int) =~= self.entries@);
        }
        while i > 0
            invariant
                i <= self.entries@.len(),
                forall|m: int| i <= m < self.entries@.len() ==> (#[trigger] self.entries@[m]).0@ != name@,
                find(self.entries@, name@) == find(self.entries@.subrange(0, i as int), name@),
            decreases i,
        {
            if same_text(self.entries[i - 1].0.as_str(), name) {
                return Some(i - 1);
            }
            proof {
                let s = self.entries@.subrange(0, i as int);
                assert(s.drop_last() =~= self.entries@.subrange(0, i - 1));
                assert(s.last() == self.entries@[i - 1]);
            }
            i = i - 1;
        }
        proof {
            assert(self.entries@.subrange(0, 0) =~= Seq::<(String, V)>::empty());
        }
        None
    }

    /// The value of `name`, if it has one.
    pub fn get(&self, name: &str) -> (r: Option<V>)
        ensures
            r == (if self@.contains_key(name@) {
                Some(self@[name@])
            } else {
                None
            }),
    {
        match self.position(name) {
            Some(j) => {
                proof {
                    assert(self.entries@.update(j as int, self.entries@[j as int]) =~= self.entries@);
                    lemma_find_update(self.entries@, j as int, self.entries@[j as int], name@);
                }
                Some(self.entries[j].1)
            },
            None => None,
        }
    }

    /// The value of `name`, or `default` if it has none.
    pub fn value_or(&self, name: &str, default: V) -> (r: V)
        ensures
            r == (if self@.contains_key(name@) {
                self@[name@]
            } else {
                default
            }),
    {
        match self.get(name) {
            Some(v) => v,
            None => default,
        }
    }

    /// Gives `name` the value `value`, over any value it had.
    pub fn insert(&mut self, name: String, value: V)
        ensures
            final(self)@ == old(self)@.insert(name@, value),
    {
        let ghost old_entries = self.entries@;
        match self.position(name.as_str()) {
            Some(j) => {
                let ghost e = (name, value);
                self.entries.set(j, (name, value));
                proof {
                    assert(self.entries@ == old_entries.update(j as int, e));
                    assert forall|k: Seq<char>| #[trigger] find(self.entries@, k) == (if k == e.0@ {
                        Some(value)
                    } else {
                        find(old_entries, k)
                    }) by {
                        lemma_find_update(old_entries, j as int, e, k);
                    }
                }
            },
            None => {
                self.entries.push((name, value));
                proof {
                    assert(self.entries@.drop_last() =~= old_entries);
                }
            },
        }
        assert(self@ =~= old(self)@.insert(name@, value));
    }
}

/// What a variable name reads: an input of the point, or a value that an
/// earlier statement gave it.
#[derive(Clone, Copy, Debug, PartialEq, Eq)]
pub enum Binding<V> {
    Context(ContextField),
    Value(V),
}

/// Resolves a variable at `span`: the point's inputs come first, so no
/// statement can hide them; then the values of earlier statements.
pub fn resolve_variable<V: Copy>(name: &str, table: &VariableTable<V>, span: Span) -> (r: Result<Binding<V>, RawEvalError>)
    ensures
        match context_field_of(name@) {
            Some(f) => r == Ok::<Binding<V>, RawEvalError>(Binding::Context(f)),
            None => if table@.contains_key(name@) {
                r == Ok::<Binding<V>, RawEvalError>(Binding::Value(table@[name@]))
            } else {
                &&& r is Err
                &&& r->Err_0.error@ == missing_variable_message(name@)
                &&& r->Err_0.span == span
                &&& r->Err_0.id == MISSING_VARIABLE
            },
        },
{
    match context_field(name) {
        Some(f) => Ok(Binding::Context(f)),
        None => match table.get(name) {
            Some(v) => Ok(Binding::Value(v)),
            None => {
                let mut s = String::from_str("Cannot find variable '");
                s.append(name);
                s.append("'. Are you using it too early?");
                Err(RawEvalError { error: s, span, id: MISSING_VARIABLE })
            },
        },
    }
}

/// The table after a statement assigning `name` ended with `outcome`: a
/// failed statement leaves it as it was.
pub open spec fn after_outcome<V>(t: Map<Seq<char>, V>, name: Seq<char>, outcome: Result<V, RawEvalError>) -> Map<Seq<char>, V> {
    match outcome {
        Ok(v) => t.insert(name, v),
        Err(_) => t,
    }
}

/// Records how one statement assigning `name` ended: a value goes into the
/// table; an error goes, with its line and column in `text`, to `errors`.
pub fn record_outcome<V: Copy>(
    table: &mut VariableTable<V>,
    errors: &mut Vec<Error>,
    name: String,
    outcome: Result<V, RawEvalError>,
    text: &str,
)
    requires
        outcome is Err ==> outcome->Err_0.span.start <= text.spec_bytes().len() && text.spec_bytes().len() < usize::MAX,
    ensures
        final(table)@ == after_outcome(old(table)@, name@, outcome),
        match outcome {
            Ok(_) => final(errors)@ == old(errors)@,
            Err(e) => {
                &&& final(errors)@.len() == old(errors)@.len() + 1
                &&& final(errors)@.drop_last() == old(errors)@
                &&& final(errors)@.last().line_number as int == line_of(text.spec_bytes(), e.span.start as int)
                &&& final(errors)@.last().col_number as int == column_of(text.spec_bytes(), e.span.start as int)
                &&& final(errors)@.last().reason@ == e.error@
                &&& final(errors)@.last().error_type == ErrorType::EvaluationError
                &&& final(errors)@.last().id == e.id
            },
        },
{
    match outcome {
        Ok(v) => {
            table.insert(name, v);
        },
        Err(e) => {
            let loc = get_position_from_span(e.span, text);
            errors.push(Error { line_number: loc.0, col_number: loc.1, reason: e.error, error_type: ErrorType::EvaluationError, id: e.id });
            proof {
                assert(final(errors)@.drop_last() =~= old(errors)@);
            }
        },
    }
}

/// The characters of `text` that start within `span`, a range of byte
/// offsets.
pub fn text_of(span: Span, text: &str) -> (r: String)
    ensures
        r@ == text_in(text@, span.start as int, span.end as int),
{
    let chars = chars_of(text);
    let n = text.as_bytes().len();
    proof {
        lemma_byte_mono(chars@, 0, chars@.len() as int);
    }
    let mut out = String::new();
    let mut i: usize = 0;
    let mut b: usize = 0;
    while i < chars.len()
        invariant
            chars@ == text@,
            n == byte_len(text@),
            i <= chars@.len(),
            b == byte_offset(text@, i as int),
            out@ == chars_in(text@, span.start as int, span.end as int, i as int),
        decreases chars@.len() - i,
    {
        proof {
            lemma_byte_step(text@, i as int);
            lemma_byte_mono(text@, i + 1, chars@.len() as int);
        }
        if span.start <= b && b < span.end {
            push_char(&mut out, chars[i]);
        }
        b = b + char_len_exec(chars[i]);
        i = i + 1;
    }
    out
}

} // verus!

verus! {

/// When a later statement assigns a name again, the table holds the later
/// value, whatever the earlier one was.
pub proof fn lemma_redefinition_overwrites<V>(t: Map<Seq<char>, V>, name: Seq<char>, first: V, second: V)
    ensures
        after_outcome(after_outcome(t, name, Ok(first)), name, Ok(second)) == t.insert(name, second),
        after_outcome(after_outcome(t, name, Ok(first)), name, Ok(second))[name] == second,
{
    assert(t.insert(name, first).insert(name, second) =~= t.insert(name, second));
}

/// A statement that fails leaves the table as it was: its name stays
/// unset if it was.
pub proof fn lemma_failure_leaves_unset<V>(t: Map<Seq<char>, V>, name: Seq<char>, e: RawEvalError)
    ensures
        after_outcome(t, name, Err(e)) == t,
        !t.contains_key(name) ==> !after_outcome(t, name, Err(e)).contains_key(name),
{
}

} // verus!
