use vstd::prelude::*;
use crate::text::{push_str, string_of_chars};

verus! {

/// A JSON value. A number keeps the text that it was written with; an
/// object keeps its members in order.
#[derive(Debug)]
pub enum JsonValue {
    Null,
    Bool(bool),
    Number(String),
    Str(String),
    Array(Vec<JsonValue>),
    Object(Vec<(String, JsonValue)>),
}

/// The JSON string literal of `s`: quoted, with its escapes.
pub uninterp spec fn quoted(s: Seq<char>) -> Seq<char>;

/// Relies on `serde_json::to_string` for a string: the JSON literal of the
/// string, which depends on its characters alone.
#[verifier::external_body]
fn quote(s: &String) -> (r: String)
    ensures
        r@ == quoted(s@),
{
    serde_json::to_string(s).unwrap_or_default()
}

pub open spec fn spaces(n: nat) -> Seq<char> {
    Seq::new(n, |i: int| ' ')
}

/// The parts joined by `sep`.
pub open spec fn join(parts: Seq<Seq<char>>, sep: Seq<char>) -> Seq<char>
    decreases parts.len(),
{
    if parts.len() == 0 {
        Seq::empty()
    } else if parts.len() == 1 {
        parts[0]
    } else {
        join(parts.drop_last(), sep) + sep + parts.last()
    }
}

pub open spec fn is_primitive(v: JsonValue) -> bool {
    !(v is Array || v is Object)
}

/// The text of a null, boolean, number or string.
pub open spec fn leaf_text(v: JsonValue) -> Seq<char> {
    match v {
        JsonValue::Null => "null"@,
        JsonValue::Bool(b) => if b {
            "true"@
        } else {
            "false"@
        },
        JsonValue::Number(t) => t@,
        JsonValue::Str(s) => quoted(s@),
        _ => Seq::empty(),
    }
}

/// The members of an object, each as `"key": value`; inside an array on
/// one line, elsewhere each on a line indented by `indent + 1` spaces.
pub open spec fn member_parts(m: Seq<(String, JsonValue)>, in_array: bool, indent: nat) -> Seq<
    Seq<char>,
>
    decreases m,
{
    Seq::new(
        m.len(),
        |i: int|
            if 0 <= i < m.len() {
                if in_array {
                    seq!['"'] + m[i].0@ + "\": "@ + format_spec(m[i].1, true, indent)
                } else {
                    spaces(indent + 1) + seq!['"'] + m[i].0@ + "\": "@ + format_spec(
                        m[i].1,
                        false,
                        indent + 1,
                    )
                }
            } else {
                Seq::empty()
            },
    )
}

/// The elements of an array, each laid out as inside an array.
pub open spec fn element_parts(a: Seq<JsonValue>, indent: nat) -> Seq<Seq<char>>
    decreases a,
{
    Seq::new(
        a.len(),
        |i: int|
            if 0 <= i < a.len() {
                format_spec(a[i], true, indent)
            } else {
                Seq::empty()
            },
    )
}

/// Each part preceded by `n` spaces.
pub open spec fn indented(parts: Seq<Seq<char>>, n: nat) -> Seq<Seq<char>> {
    Seq::new(parts.len(), |i: int| spaces(n) + parts[i])
}

/// The layout of `v` at nesting depth `indent`, `in_array` telling whether it
/// stands inside an array.
///
/// Inside an array an object is written on one line, `{"k": v, "k2": v2}`.
/// Elsewhere it takes a line per member, each indented by `indent + 1`
/// spaces, and its closing brace is indented by `indent`. An array inside an
/// array is written on one line, `[a,b]`; elsewhere it is too when all its
/// elements are primitive, and otherwise takes a line per element, each
/// indented by `2 * indent` spaces.
pub open spec fn format_spec(v: JsonValue, in_array: bool, indent: nat) -> Seq<char>
    decreases v,
{
    match v {
        JsonValue::Object(m) => if in_array {
            seq!['{'] + join(member_parts(m@, true, indent), ", "@) + seq!['}']
        } else {
            "{\n"@ + join(member_parts(m@, false, indent), ",\n"@) + seq!['\n'] + spaces(indent)
                + seq!['}']
        },
        JsonValue::Array(a) => {
            let all_prim = forall|i: int| 0 <= i < a@.len() ==> is_primitive(#[trigger] a@[i]);
            let items = element_parts(a@, if in_array { indent } else { indent + 1 });
            if in_array || all_prim {
                seq!['['] + join(items, seq![',']) + seq![']']
            } else {
                "[\n"@ + join(indented(items, 2 * indent), ",\n"@) + seq![']']
            }
        },
        _ => leaf_text(v),
    }
}

/// The nesting depths that formatting `v` reaches fit in a `usize`.
pub open spec fn indent_fits(v: JsonValue, in_array: bool, indent: nat) -> bool
    decreases v,
{
    let inner = if in_array { indent } else { indent + 1 };
    match v {
        JsonValue::Object(m) => (in_array || indent < usize::MAX) && forall|i: int|
            0 <= i < m@.len() ==> indent_fits(#[trigger] m@[i].1, in_array, inner),
        JsonValue::Array(a) => (in_array || indent < usize::MAX) && forall|i: int|
            0 <= i < a@.len() ==> indent_fits(#[trigger] a@[i], true, inner),
        _ => true,
    }
}

/// `s` with every `": "` replaced by `":"`, left to right.
pub open spec fn strip_colon_space(s: Seq<char>) -> Seq<char>
    decreases s.len(),
{
    if s.len() == 0 {
        s
    } else if s.len() >= 2 && s[0] == ':' && s[1] == ' ' {
        seq![':'] + strip_colon_space(s.subrange(2, s.len() as int))
    } else {
        seq![s[0]] + strip_colon_space(s.drop_first())
    }
}

proof fn lemma_join_step(parts: Seq<Seq<char>>, sep: Seq<char>, i: int)
    requires
        0 <= i < parts.len(),
    ensures
        join(parts.take(i + 1), sep) == if i == 0 {
            parts[0]
        } else {
            join(parts.take(i), sep) + sep + parts[i]
        },
{
    assert(parts.take(i + 1).drop_last() =~= parts.take(i));
    assert(parts.take(i + 1).last() == parts[i]);
}

fn push_spaces(out: &mut Vec<char>, n: usize, times: usize)
    ensures
        final(out)@ == old(out)@ + spaces(n as nat * times as nat),
{
    let mut k: usize = 0;
    let ghost start = out@;
    while k < times
        invariant
            k <= times,
            out@ =~= start + spaces(n as nat * k as nat),
        decreases times - k,
    {
        let mut j: usize = 0;
        while j < n
            invariant
                j <= n,
                k < times,
                out@ =~= start + spaces(n as nat * k as nat + j as nat),
            decreases n - j,
        {
            out.push(' ');
            j = j + 1;
        }
        assert(n as nat * k as nat + n as nat == n as nat * (k + 1) as nat) by (nonlinear_arith);
        k = k + 1;
    }
}

/// Whether formatting `v` at depth `indent` keeps every depth within a `usize`.
pub fn check_indent(v: &JsonValue, in_array: bool, indent: usize) -> (r: bool)
    ensures
        r == indent_fits(*v, in_array, indent as nat),
    decreases v,
{
    match v {
        JsonValue::Object(m) => {
            if !in_array && indent == usize::MAX {
                return false;
            }
            let inner = if in_array { indent } else { indent + 1 };
            let mut i: usize = 0;
            while i < m.len()
                invariant
                    *v == JsonValue::Object(*m),
                    inner == if in_array { indent as nat } else { indent as nat + 1 },
                    forall|j: int| 0 <= j < i ==> indent_fits(#[trigger] m@[j].1, in_array, inner as nat),
                decreases m@.len() - i,
            {
                proof {
                    vstd::std_specs::vec::axiom_vec_index_decreases(*m, i as int);
                    assert(decreases_to!(*v => (*v)->Object_0));
                    assert(decreases_to!(*m => m[i as int]));
                    assert(decreases_to!(m[i as int] => m[i as int].1));
                }
                if !check_indent(&m[i].1, in_array, inner) {
                    return false;
                }
                i = i + 1;
            }
            true
        },
        JsonValue::Array(a) => {
            if !in_array && indent == usize::MAX {
                return false;
            }
            let inner = if in_array { indent } else { indent + 1 };
            let mut i: usize = 0;
            while i < a.len()
                invariant
                    *v == JsonValue::Array(*a),
                    inner == if in_array { indent as nat } else { indent as nat + 1 },
                    forall|j: int| 0 <= j < i ==> indent_fits(#[trigger] a@[j], true, inner as nat),
                decreases a@.len() - i,
            {
                proof {
                    vstd::std_specs::vec::axiom_vec_index_decreases(*a, i as int);
                    assert(decreases_to!(*v => (*v)->Array_0));
                    assert(decreases_to!(*a => a[i as int]));
                }
                if !check_indent(&a[i], true, inner) {
                    return false;
                }
                i = i + 1;
            }
            true
        },
        _ => true,
    }
}

/// Whether every element of `a` is a primitive.
fn all_primitive(a: &Vec<JsonValue>) -> (r: bool)
    ensures
        r == forall|i: int| 0 <= i < a@.len() ==> is_primitive(#[trigger] a@[i]),
{
    let mut i: usize = 0;
    while i < a.len()
        invariant
            forall|j: int| 0 <= j < i ==> is_primitive(#[trigger] a@[j]),
        decreases a@.len() - i,
    {
        match &a[i] {
            JsonValue::Array(_) | JsonValue::Object(_) => {
                return false;
            },
            _ => {},
        }
        i = i + 1;
    }
    true
}

/// Appends the layout of `v` (see `format_spec`).
fn write_value(v: &JsonValue, in_array: bool, indent: usize, out: &mut Vec<char>)
    requires
        indent_fits(*v, in_array, indent as nat),
    ensures
        final(out)@ == old(out)@ + format_spec(*v, in_array, indent as nat),
    decreases v,
{
    match v {
        JsonValue::Null => push_str(out, "null"),
        JsonValue::Bool(b) => {
            if *b {
                push_str(out, "true");
            } else {
                push_str(out, "false");
            }
        },
        JsonValue::Number(t) => push_str(out, t.as_str()),
        JsonValue::Str(st) => {
            let q = quote(st);
            push_str(out, q.as_str());
        },
        JsonValue::Object(m) => {
            let inner: usize = if in_array { indent } else { indent + 1 };
            let ghost parts = member_parts(m@, in_array, indent as nat);
            let ghost sep = if in_array { ", "@ } else { ",\n"@ };
            if in_array {
                out.push('{');
            } else {
                push_str(out, "{\n");
            }
            let ghost start = out@;
            let mut i: usize = 0;
            while i < m.len()
                invariant
                    *v == JsonValue::Object(*m),
                    indent_fits(*v, in_array, indent as nat),
                    inner == if in_array { indent as nat } else { indent as nat + 1 },
                    sep == if in_array { ", "@ } else { ",\n"@ },
                    parts == member_parts(m@, in_array, indent as nat),
                    i <= m@.len(),
                    out@ == start + join(parts.take(i as int), sep),
                decreases m@.len() - i,
            {
                proof {
                    vstd::std_specs::vec::axiom_vec_index_decreases(*m, i as int);
                    assert(decreases_to!(*v => (*v)->Object_0));
                    assert(decreases_to!(*m => m[i as int]));
                    assert(decreases_to!(m[i as int] => m[i as int].1));
                    assert(indent_fits(m@[i as int].1, in_array, inner as nat));
                    lemma_join_step(parts, sep, i as int);
                }
                let ghost before = out@;
                if i > 0 {
                    if in_array {
                        push_str(out, ", ");
                    } else {
                        push_str(out, ",\n");
                    }
                }
                if !in_array {
                    push_spaces(out, 1, inner);
                }
                out.push('"');
                push_str(out, m[i].0.as_str());
                push_str(out, "\": ");
                write_value(&m[i].1, in_array, inner, out);
                proof {
                    assert(1 * inner as nat == inner as nat);
                    if i > 0 {
                        assert(out@ =~= before + sep + parts[i as int]);
                    } else {
                        assert(out@ =~= before + parts[i as int]);
                    }
                }
                i = i + 1;
            }
            assert(parts.take(m@.len() as int) =~= parts);
            if in_array {
                out.push('}');
            } else {
                out.push('\n');
                push_spaces(out, 1, indent);
                out.push('}');
                assert(1 * indent as nat == indent as nat);
            }
            assert(out@ =~= old(out)@ + format_spec(*v, in_array, indent as nat));
        },
        JsonValue::Array(a) => {
            let inner: usize = if in_array { indent } else { indent + 1 };
            let all_prim = all_primitive(a);
            let lines = !in_array && !all_prim;
            let ghost items = element_parts(a@, inner as nat);
            let ghost parts = if lines {
                indented(items, 2 * indent as nat)
            } else {
                items
            };
            let ghost sep = if lines { ",\n"@ } else { seq![','] };
            if lines {
                push_str(out, "[\n");
            } else {
                out.push('[');
            }
            let ghost start = out@;
            let mut i: usize = 0;
            while i < a.len()
                invariant
                    *v == JsonValue::Array(*a),
                    indent_fits(*v, in_array, indent as nat),
                    inner == if in_array { indent as nat } else { indent as nat + 1 },
                    sep == if lines { ",\n"@ } else { seq![','] },
                    items == element_parts(a@, inner as nat),
                    parts == if lines {
                        indented(items, 2 * indent as nat)
                    } else {
                        items
                    },
                    i <= a@.len(),
                    out@ == start + join(parts.take(i as int), sep),
                decreases a@.len() - i,
            {
                proof {
                    vstd::std_specs::vec::axiom_vec_index_decreases(*a, i as int);
                    assert(decreases_to!(*v => (*v)->Array_0));
                    assert(decreases_to!(*a => a[i as int]));
                    assert(indent_fits(a@[i as int], true, inner as nat));
                    lemma_join_step(parts, sep, i as int);
                }
                let ghost before = out@;
                if i > 0 {
                    if lines {
                        push_str(out, ",\n");
                    } else {
                        out.push(',');
                    }
                }
                if lines {
                    push_spaces(out, 2, indent);
                }
                write_value(&a[i], true, inner, out);
                proof {
                    if i > 0 {
                        assert(out@ =~= before + sep + parts[i as int]);
                    } else {
                        assert(out@ =~= before + parts[i as int]);
                    }
                }
                i = i + 1;
            }
            assert(parts.take(a@.len() as int) =~= parts);
            out.push(']');
            assert(out@ =~= old(out)@ + format_spec(*v, in_array, indent as nat));
        },
    }
}

/// Replaces every `": "` in `s` by `":"`, left to right.
pub fn strip_colon_space_chars(s: &Vec<char>) -> (r: Vec<char>)
    ensures
        r@ == strip_colon_space(s@),
{
    let mut out: Vec<char> = Vec::new();
    let mut i: usize = 0;
    assert(s@.subrange(0, s@.len() as int) =~= s@);
    assert(out@ + strip_colon_space(s@) =~= strip_colon_space(s@));
    while i < s.len()
        invariant
            i <= s@.len(),
            out@ + strip_colon_space(s@.subrange(i as int, s@.len() as int)) == strip_colon_space(s@),
        decreases s@.len() - i,
    {
        let ghost rest = s@.subrange(i as int, s@.len() as int);
        if i + 1 < s.len() && s[i] == ':' && s[i + 1] == ' ' {
            out.push(':');
            assert(rest.subrange(2, rest.len() as int) =~= s@.subrange(i + 2, s@.len() as int));
            assert(out@ + strip_colon_space(s@.subrange(i + 2, s@.len() as int)) =~= strip_colon_space(s@));
            i = i + 2;
        } else {
            out.push(s[i]);
            assert(rest.drop_first() =~= s@.subrange(i + 1, s@.len() as int));
            assert(out@ + strip_colon_space(s@.subrange(i + 1, s@.len() as int)) =~= strip_colon_space(s@));
            i = i + 1;
        }
    }
    assert(s@.subrange(i as int, s@.len() as int) =~= Seq::<char>::empty());
    assert(out@ =~= out@ + strip_colon_space(Seq::<char>::empty()));
    out
}

/// Lays `value` out at nesting depth `indent` (see `format_spec`).
pub fn format_custom(value: &JsonValue, in_array: bool, indent: usize) -> (r: String)
    requires
        indent_fits(*value, in_array, indent as nat),
    ensures
        r@ == format_spec(*value, in_array, indent as nat),
{
    let mut out: Vec<char> = Vec::new();
    write_value(value, in_array, indent, &mut out);
    assert(out@ =~= format_spec(*value, in_array, indent as nat));
    string_of_chars(&out)
}

/// The text of a whole document: its layout from the top level, with every
/// `": "` then replaced by `":"`. `None` only when the nesting is deeper than
/// a `usize` can count.
pub fn format_document(value: &JsonValue) -> (r: Option<String>)
    ensures
        r is Some <==> indent_fits(*value, false, 0),
        r matches Some(t) ==> t@ == strip_colon_space(format_spec(*value, false, 0)),
{
    if !check_indent(value, false, 0) {
        return None;
    }
    let mut out: Vec<char> = Vec::new();
    write_value(value, false, 0, &mut out);
    assert(out@ =~= format_spec(*value, false, 0));
    let stripped = strip_colon_space_chars(&out);
    Some(string_of_chars(&stripped))
}

} // verus!
