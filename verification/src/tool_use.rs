//! A tool call requested by the model, and its one-line rendering.

use serde_json::Value;
use vstd::prelude::*;

verus! {

broadcast use vstd::seq_lib::group_seq_properties;

/// A JSON value, as `serde_json` represents it.
#[verifier::external_type_specification]
#[verifier::external_body]
pub struct ExValue(Value);

/// `Value::clone` (derived in `serde_json`) copies the value: the copy is
/// the same value.
pub assume_specification[ <Value as Clone>::clone ](value: &Value) -> (copy: Value)
    ensures
        copy == *value,
;

/// `Value::eq` (derived in `serde_json`) finds a value equal to itself; JSON
/// numbers are never NaN there. Of values that differ as written, whether
/// `==` holds (as for `0.0` and `-0.0`) is not stated.
pub assume_specification[ <Value as PartialEq>::eq ](a: &Value, b: &Value) -> (equal: bool)
    ensures
        *a == *b ==> equal,
;

/// A tool call: which tool, with which JSON arguments.
#[derive(Debug, Clone, PartialEq)]
pub struct ToolUse {
    pub id: String,
    pub name: String,
    pub args: Value,
    pub signature: Option<String>,
}

/// The ellipsis that ends an elided text.
pub open spec fn ellipsis() -> char {
    '\u{2026}'
}

/// `s` itself when it has at most `max` characters; otherwise its first
/// `max - 1` characters (none when `max` is 0) followed by an ellipsis.
pub open spec fn elided(s: Seq<char>, max: nat) -> Seq<char> {
    if s.len() <= max {
        s
    } else {
        s.take(if max >= 1 {
            max - 1
        } else {
            0
        }) + seq![ellipsis()]
    }
}

/// Shortens `s` to at most `max` characters, marking a cut with an ellipsis.
pub fn elide(s: &str, max: usize) -> (out: String)
    ensures
        out@ == elided(s@, max as nat),
{
    let count = s.unicode_len();
    if count <= max {
        return String::from_str(s);
    }
    let keep = if max >= 1 {
        max - 1
    } else {
        0
    };
    let mut out = String::from_str(s.substring_char(0, keep));
    let mark = "\u{2026}";
    proof {
        reveal_strlit("\u{2026}");
    }
    out.append(mark);
    out
}

/// An elided text is the text itself when it fits; otherwise it has at most
/// `max` characters (just the ellipsis when `max` is 0) and begins as the
/// text does.
pub proof fn lemma_elided_fits(s: Seq<char>, max: nat)
    ensures
        s.len() <= max ==> elided(s, max) == s,
        s.len() > max ==> elided(s, max).len() == (if max >= 1 {
            max
        } else {
            1
        }),
        s.len() > max ==> elided(s, max).drop_last() == s.take(elided(s, max).len() - 1),
{
    if s.len() > max {
        assert(elided(s, max).drop_last() =~= s.take(elided(s, max).len() - 1));
    }
}

/// The rendered `name=value` items of the fields whose value is not null,
/// in order; each value is elided to 16 characters.
pub open spec fn arg_items(fields: Seq<(Seq<char>, Option<Seq<char>>)>) -> Seq<Seq<char>>
    decreases fields.len(),
{
    if fields.len() == 0 {
        Seq::empty()
    } else {
        let rest = arg_items(fields.drop_last());
        match fields.last().1 {
            Some(text) => rest.push(fields.last().0 + seq!['='] + elided(text, 16)),
            None => rest,
        }
    }
}

/// Whether a field has a value (is not JSON null).
pub open spec fn has_value(field: (Seq<char>, Option<Seq<char>>)) -> bool {
    field.1 is Some
}

/// The `key=value` text of a field with a value, the value elided to 16
/// characters.
pub open spec fn item_text(field: (Seq<char>, Option<Seq<char>>)) -> Seq<char> {
    field.0 + seq!['='] + elided(field.1->0, 16)
}

/// The rendered items are exactly one per field that has a value, in the
/// fields' order: as many items as such fields, the j-th item being the key
/// and elided value of the j-th such field.
pub proof fn lemma_one_item_per_field_with_value(fields: Seq<(Seq<char>, Option<Seq<char>>)>)
    ensures
        arg_items(fields) == fields.filter(|f: (Seq<char>, Option<Seq<char>>)| has_value(f)).map_values(
            |f: (Seq<char>, Option<Seq<char>>)| item_text(f),
        ),
        arg_items(fields).len() == fields.filter(
            |f: (Seq<char>, Option<Seq<char>>)| has_value(f),
        ).len(),
        forall|j: int|
            0 <= j < arg_items(fields).len() ==> #[trigger] arg_items(fields)[j] == item_text(
                fields.filter(|f: (Seq<char>, Option<Seq<char>>)| has_value(f))[j],
            ),
    decreases fields.len(),
{
    let pred = |f: (Seq<char>, Option<Seq<char>>)| has_value(f);
    let text = |f: (Seq<char>, Option<Seq<char>>)| item_text(f);
    reveal_with_fuel(Seq::filter, 1);
    if fields.len() == 0 {
        assert(fields.filter(pred) =~= Seq::<(Seq<char>, Option<Seq<char>>)>::empty());
        assert(fields.filter(pred).map_values(text) =~= Seq::<Seq<char>>::empty());
    } else {
        lemma_one_item_per_field_with_value(fields.drop_last());
        let rest = fields.drop_last().filter(pred);
        if has_value(fields.last()) {
            assert(fields.filter(pred) == rest.push(fields.last()));
            assert(rest.push(fields.last()).map_values(text) =~= rest.map_values(text).push(
                text(fields.last()),
            ));
        } else {
            assert(fields.filter(pred) == rest);
        }
    }
}

/// Items joined with ", ".
pub open spec fn joined(items: Seq<Seq<char>>) -> Seq<char>
    decreases items.len(),
{
    if items.len() == 0 {
        Seq::empty()
    } else if items.len() == 1 {
        items[0]
    } else {
        joined(items.drop_last()) + seq![',', ' '] + items.last()
    }
}

/// The total length of a list of texts.
pub open spec fn total_chars(items: Seq<Seq<char>>) -> nat
    decreases items.len(),
{
    if items.len() == 0 {
        0
    } else {
        total_chars(items.drop_last()) + items.last().len()
    }
}

/// Joining keeps every character of every item and adds two characters
/// (", ") between each pair of neighbours; it ends with the last item, and
/// joining one more item appends ", " and that item.
pub proof fn lemma_joined_keeps_items(items: Seq<Seq<char>>)
    requires
        items.len() > 0,
    ensures
        joined(items).len() == total_chars(items) + 2 * (items.len() - 1),
        joined(items).skip(joined(items).len() - items.last().len()) == items.last(),
        forall|x: Seq<char>| #[trigger] joined(items.push(x)) == joined(items) + seq![',', ' '] + x,
    decreases items.len(),
{
    assert forall|x: Seq<char>| #[trigger] joined(items.push(x)) == joined(items) + seq![',', ' ']
        + x by {
        assert(items.push(x).drop_last() =~= items);
    }
    if items.len() > 1 {
        lemma_joined_keeps_items(items.drop_last());
        let prev = joined(items.drop_last());
        assert(joined(items) == prev + seq![',', ' '] + items.last());
        assert(joined(items).skip(joined(items).len() - items.last().len()) =~= items.last());
    } else {
        assert(total_chars(items.drop_last()) == 0);
        assert(joined(items).skip(0) =~= items[0]);
    }
}

/// The one-line rendering of a call of `name`: the name alone, or, when the
/// arguments are a JSON object with non-null fields, the name followed by
/// those fields in parentheses.
pub open spec fn tool_call_text(
    name: Seq<char>,
    fields: Option<Seq<(Seq<char>, Option<Seq<char>>)>>,
) -> Seq<char> {
    match fields {
        Some(f) => if arg_items(f).len() == 0 {
            name
        } else {
            name + seq!['('] + joined(arg_items(f)) + seq![')']
        },
        None => name,
    }
}

/// The text of a field: its key, and its value's JSON text or `None` for null.
pub open spec fn field_text(field: (String, Option<String>)) -> (Seq<char>, Option<Seq<char>>) {
    (
        field.0@,
        match field.1 {
            Some(t) => Some(t@),
            None => None,
        },
    )
}

/// The fields of an argument object, if any, as text.
pub open spec fn fields_view(fields: Option<Vec<(String, Option<String>)>>) -> Option<
    Seq<(Seq<char>, Option<Seq<char>>)>,
> {
    match fields {
        Some(f) => Some(f@.map_values(|x: (String, Option<String>)| field_text(x))),
        None => None,
    }
}

/// Renders a call of `name` from the fields of its JSON argument object
/// (`None` when the arguments are not an object); a field's value is its
/// compact JSON text, or `None` for JSON null.
#[verifier::spinoff_prover]
#[verifier::rlimit(60)]
pub fn render_tool_call(name: &str, fields: Option<Vec<(String, Option<String>)>>) -> (out: String)
    ensures
        out@ == tool_call_text(name@, fields_view(fields)),
        fields is None ==> out@ == name@,
        fields is Some ==> ({
            let items = fields_view(fields)->0.filter(
                |f: (Seq<char>, Option<Seq<char>>)| has_value(f),
            ).map_values(|f: (Seq<char>, Option<Seq<char>>)| item_text(f));
            out@ == if items.len() == 0 {
                name@
            } else {
                name@ + seq!['('] + joined(items) + seq![')']
            }
        }),
{
    let ghost all = fields_view(fields);
    proof {
        if all is Some {
            lemma_one_item_per_field_with_value(all->0);
        }
    }
    let mut out = String::from_str(name);
    if let Some(fields) = fields {
        let ghost plain = fields@.map_values(|x: (String, Option<String>)| field_text(x));
        let n = fields.len();
        let mut first = true;
        let mut i: usize = 0;
        while i < n
            invariant
                n == fields@.len(),
                plain == fields@.map_values(|x: (String, Option<String>)| field_text(x)),
                i <= n,
                first == (arg_items(plain.take(i as int)).len() == 0),
                out@ == (if first {
                    name@
                } else {
                    name@ + seq!['('] + joined(arg_items(plain.take(i as int)))
                }),
            decreases n - i,
        {
            proof {
                assert(plain.take(i + 1).drop_last() =~= plain.take(i as int));
                assert(plain[i as int] == field_text(fields@[i as int]));
            }
            let ghost items = arg_items(plain.take(i as int));
            proof {
                reveal_strlit("(");
                reveal_strlit(", ");
                reveal_strlit("=");
            }
            match &fields[i].1 {
                None => {
                    assert(arg_items(plain.take(i + 1)) == items);
                },
                Some(text) => {
                    let ghost before = out@;
                    if first {
                        out.append("(");
                    } else {
                        out.append(", ");
                    }
                    first = false;
                    out.append(fields[i].0.as_str());
                    out.append("=");
                    let shown = elide(text.as_str(), 16);
                    out.append(shown.as_str());
                    proof {
                        let item = fields@[i as int].0@ + seq!['='] + elided(text@, 16);
                        assert(arg_items(plain.take(i + 1)) == items.push(item));
                        if items.len() == 0 {
                            assert(joined(items.push(item)) == item);
                            assert(out@ =~= name@ + seq!['('] + item);
                        } else {
                            assert(items.push(item).drop_last() =~= items);
                            assert(out@ =~= name@ + seq!['('] + joined(items) + seq![',', ' ']
                                + item);
                        }
                    }
                },
            }
            i += 1;
        }
        if !first {
            proof {
                reveal_strlit(")");
            }
            out.append(")");
        }
        proof {
            assert(plain.take(n as int) =~= plain);
        }
    }
    out
}

/// What a JSON value holds as an object: its fields in the object's order,
/// each as its key and, for a non-null value, the value's compact JSON text
/// (`None` for null); `None` when the value is not an object.
pub uninterp spec fn json_object_fields(value: Value) -> Option<Seq<(Seq<char>, Option<Seq<char>>)>>;

/// Hands out the fields of `value` when it is a JSON object, in the order in
/// which `serde_json::Map` iterates them, each value mapped to its compact
/// JSON text (`Value`'s `Display`) or to `None` when it is `Value::Null`.
/// The result is what `json_object_fields` names for `value`.
#[verifier::external_body]
fn read_object_fields(value: &Value) -> (fields: Option<Vec<(String, Option<String>)>>)
    ensures
        fields_view(fields) == json_object_fields(*value),
{
    let Value::Object(map) = value else { return None };
    let mut fields = Vec::with_capacity(map.len());
    for (key, item) in map {
        let text = match item {
            Value::Null => None,
            other => Some(other.to_string()),
        };
        fields.push((key.clone(), text));
    }
    Some(fields)
}

/// The fields of a JSON argument object, in order, each with its compact JSON
/// text or `None` for null; `None` when the arguments are not an object.
fn argument_fields(args: &Value) -> (fields: Option<Vec<(String, Option<String>)>>)
    ensures
        fields_view(fields) == json_object_fields(*args),
{
    read_object_fields(args)
}

impl ToolUse {
    /// The call on one line: the tool's name, then its non-null arguments as
    /// `key=value` in parentheses, each value's JSON text elided to 16
    /// characters.
    pub fn display_string(&self) -> (out: String)
        ensures
            out@ == tool_call_text(self.name@, json_object_fields(self.args)),
    {
        let fields = argument_fields(&self.args);
        let ghost f = fields_view(fields);
        let out = render_tool_call(self.name.as_str(), fields);
        proof {
            assert(out@ == tool_call_text(self.name@, f));
        }
        out
    }
}

} // verus!
