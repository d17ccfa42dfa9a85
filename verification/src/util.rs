//! The printed form of values.
//!
//! A value prints as text in which each number holds one place. How a
//! number is written in decimal is left to the caller, who puts the text of
//! each number in its place.

use vstd::prelude::*;
use crate::model::ParamSpec;
use crate::model::Sexp;
use crate::number::Number;
use crate::parse::LambdaParams;
use crate::parse::Value;
use crate::parse::lemma_views;
use crate::parse::views;
use vstd::string::StringExecFns;

verus! {

/// A piece of printed output: text, or a number to be written out.
#[derive(Debug, PartialEq)]
pub enum Fragment {
    Text(String),
    Number(Number),
}

/// One place of the printed form: a character, or a number.
pub enum Glyph {
    Char(char),
    Number(Number),
}

/// The places that a text takes.
pub open spec fn text_glyphs(text: Seq<char>) -> Seq<Glyph>
    decreases text.len(),
{
    if text.len() == 0 {
        Seq::empty()
    } else {
        text_glyphs(text.drop_last()).push(glyph_of(text.last()))
    }
}

/// The place that a character takes.
pub open spec fn glyph_of(c: char) -> Glyph {
    Glyph::Char(c)
}

/// The places that a fragment takes.
pub open spec fn fragment_glyphs(fragment: Fragment) -> Seq<Glyph> {
    match fragment {
        Fragment::Text(text) => text_glyphs(text@),
        Fragment::Number(n) => seq![Glyph::Number(n)],
    }
}

/// The places that a sequence of fragments takes.
pub open spec fn glyphs_of(fragments: Seq<Fragment>) -> Seq<Glyph>
    decreases fragments.len(),
{
    if fragments.len() == 0 {
        Seq::empty()
    } else {
        glyphs_of(fragments.drop_last()) + fragment_glyphs(fragments.last())
    }
}

/// The first `n` names, each with a space before it.
pub open spec fn spaced(names: Seq<Seq<char>>, n: int) -> Seq<char>
    decreases n,
{
    if n <= 0 || n > names.len() {
        Seq::empty()
    } else {
        spaced(names, n - 1) + " "@ + names[n - 1]
    }
}

/// The names of one class with the marker that opens it, each with a space
/// before it; nothing for a class without names.
pub open spec fn class_text(marker: Seq<char>, names: Seq<Seq<char>>) -> Seq<char> {
    if names.len() == 0 {
        Seq::empty()
    } else {
        " "@ + marker + spaced(names, names.len() as int)
    }
}

/// A parameter list as it can be written: the required names, then each
/// other class that has names behind its marker.
pub open spec fn params_text(params: ParamSpec) -> Seq<char> {
    let all = spaced(params.required, params.required.len() as int) + class_text(
        "&optional"@,
        params.optional,
    ) + class_text("&key"@, params.keyword) + (match params.rest {
        Some(rest) => " &rest "@ + rest,
        None => Seq::empty(),
    });
    if all.len() > 0 {
        all.skip(1)
    } else {
        all
    }
}

/// The printed form of a value: `nil`, `t`, a number in its place, a string
/// between double quotes, a symbol as it is, `<lambda (params)>` or
/// `<macro (params)>` for a function or a macro, and a list between
/// parentheses with a space between its elements.
pub open spec fn rendering(value: Sexp) -> Seq<Glyph>
    decreases value,
{
    match value {
        Sexp::Nil => text_glyphs("nil"@),
        Sexp::T => text_glyphs("t"@),
        Sexp::Number(n) => seq![Glyph::Number(n)],
        Sexp::Str(s) => text_glyphs("\""@ + s + "\""@),
        Sexp::Symbol(s) => text_glyphs(s),
        Sexp::Lambda { params, body, is_macro } => text_glyphs(
            (if is_macro {
                "<macro ("@
            } else {
                "<lambda ("@
            }) + params_text(params) + ")>"@,
        ),
        Sexp::List(items) => text_glyphs("("@) + joined(items, items.len() as int) + text_glyphs(
            ")"@,
        ),
    }
}

/// The printed forms of the first `n` elements, with a space between them.
pub open spec fn joined(items: Seq<Sexp>, n: int) -> Seq<Glyph>
    decreases items, n,
{
    if n <= 0 || n > items.len() {
        Seq::empty()
    } else if n == 1 {
        rendering(items[0])
    } else {
        joined(items, n - 1) + text_glyphs(" "@) + rendering(items[n - 1])
    }
}

/// Text after text takes the places of both.
proof fn lemma_text_glyphs_concat(a: Seq<char>, b: Seq<char>)
    ensures
        text_glyphs(a + b) == text_glyphs(a) + text_glyphs(b),
    decreases b.len(),
{
    if b.len() == 0 {
    } else {
        lemma_text_glyphs_concat(a, b.drop_last());
        assert((a + b).drop_last() =~= a + b.drop_last());
    }
}

/// One more fragment takes its places after the others.
proof fn lemma_glyphs_push(fragments: Seq<Fragment>, fragment: Fragment)
    ensures
        glyphs_of(fragments.push(fragment)) == glyphs_of(fragments) + fragment_glyphs(fragment),
{
    assert(fragments.push(fragment).drop_last() =~= fragments);
}

/// Adds text to the output, to its last fragment if that is text.
fn push_text(out: &mut Vec<Fragment>, text: &str)
    ensures
        glyphs_of(final(out)@) == glyphs_of(old(out)@) + text_glyphs(text@),
{
    let ghost before = out@;
    match out.pop() {
        Some(Fragment::Text(mut last)) => {
            let ghost head = out@;
            let ghost was = last@;
            last.append(text);
            proof {
                lemma_glyphs_push(head, Fragment::Text(last));
                lemma_text_glyphs_concat(was, text@);
            }
            out.push(Fragment::Text(last));
        },
        Some(other) => {
            out.push(other);
            assert(out@ =~= before);
            let fragment = Fragment::Text(String::from_str(text));
            proof {
                lemma_glyphs_push(out@, fragment);
            }
            out.push(fragment);
        },
        None => {
            let fragment = Fragment::Text(String::from_str(text));
            proof {
                lemma_glyphs_push(out@, fragment);
            }
            out.push(fragment);
        },
    }
}

/// Adds each name with a space before it to a text.
fn append_spaced(text: &mut String, names: &Vec<String>)
    ensures
        final(text)@ == old(text)@ + spaced(names.deep_view(), names.len() as int),
{
    let mut i: usize = 0;
    while i < names.len()
        invariant
            i <= names.len(),
            text@ == old(text)@ + spaced(names.deep_view(), i as int),
        decreases names.len() - i,
    {
        text.append(" ");
        text.append(names[i].as_str());
        i += 1;
    }
}

/// Adds the names of a class behind its marker to a text.
fn append_class(text: &mut String, marker: &str, names: &Vec<String>)
    ensures
        final(text)@ == old(text)@ + class_text(marker@, names.deep_view()),
{
    if names.len() > 0 {
        text.append(" ");
        text.append(marker);
        append_spaced(text, names);
    }
}

/// Writes a parameter list.
pub fn params_to_string(params: &LambdaParams) -> (r: String)
    ensures
        r@ == params_text(params@),
{
    let mut all = String::from_str("");
    proof {
        reveal_strlit("");
    }
    append_spaced(&mut all, &params.required);
    append_class(&mut all, "&optional", &params.optional);
    append_class(&mut all, "&key", &params.keyword);
    match &params.rest {
        Some(rest) => {
            all.append(" &rest ");
            all.append(rest.as_str());
        },
        None => {},
    }
    let n = all.as_str().unicode_len();
    if n > 0 {
        String::from_str(all.as_str().substring_char(1, n))
    } else {
        all
    }
}

/// The names with a space between them.
pub open spec fn joined_names(names: Seq<Seq<char>>) -> Seq<char> {
    let all = spaced(names, names.len() as int);
    if all.len() > 0 {
        all.skip(1)
    } else {
        all
    }
}

/// The four classes of a parameter list, each between brackets behind its
/// name.
pub open spec fn params_description(params: ParamSpec) -> Seq<char> {
    "required: ["@ + joined_names(params.required) + "], optional: ["@ + joined_names(
        params.optional,
    ) + "], keyword: ["@ + joined_names(params.keyword) + "], rest: ["@ + (match params.rest {
        Some(rest) => rest,
        None => Seq::empty(),
    }) + "]"@
}

/// Writes names with a space between them.
fn join_names(names: &Vec<String>) -> (r: String)
    ensures
        r@ == joined_names(names.deep_view()),
{
    let mut all = String::from_str("");
    proof {
        reveal_strlit("");
    }
    append_spaced(&mut all, names);
    let n = all.as_str().unicode_len();
    if n > 0 {
        String::from_str(all.as_str().substring_char(1, n))
    } else {
        all
    }
}

impl LambdaParams {
    /// Writes the parameters class by class.
    pub fn describe(&self) -> (r: String)
        ensures
            r@ == params_description(self@),
    {
        let mut out = String::from_str("required: [");
        out.append(join_names(&self.required).as_str());
        out.append("], optional: [");
        out.append(join_names(&self.optional).as_str());
        out.append("], keyword: [");
        out.append(join_names(&self.keyword).as_str());
        out.append("], rest: [");
        match &self.rest {
            Some(rest) => {
                out.append(rest.as_str());
            },
            None => {},
        }
        out.append("]");
        out
    }
}

/// Adds the printed form of a value to the output.
fn render(value: &Value, out: &mut Vec<Fragment>)
    ensures
        glyphs_of(final(out)@) == glyphs_of(old(out)@) + rendering(value@),
    decreases value,
{
    let ghost start = glyphs_of(out@);
    match value {
        Value::Nil => push_text(out, "nil"),
        Value::T => push_text(out, "t"),
        Value::Number(n) => {
            proof {
                lemma_glyphs_push(out@, Fragment::Number(*n));
            }
            out.push(Fragment::Number(*n));
        },
        Value::String(s) => {
            push_text(out, "\"");
            push_text(out, s.as_str());
            push_text(out, "\"");
            proof {
                lemma_text_glyphs_concat("\""@, s@);
                lemma_text_glyphs_concat("\""@ + s@, "\""@);
            }
        },
        Value::Symbol(s) => push_text(out, s.as_str()),
        Value::Lambda { params, body, is_macro } => {
            let open = if *is_macro {
                "<macro ("
            } else {
                "<lambda ("
            };
            let inner = params_to_string(params);
            push_text(out, open);
            push_text(out, inner.as_str());
            push_text(out, ")>");
            proof {
                lemma_text_glyphs_concat(open@, inner@);
                lemma_text_glyphs_concat(open@ + inner@, ")>"@);
            }
        },
        Value::List(items) => {
            let ghost trees = views(items@);
            proof {
                lemma_views(items@);
            }
            push_text(out, "(");
            let mut i: usize = 0;
            while i < items.len()
                invariant
                    i <= items.len(),
                    value is List,
                    value->List_0 == *items,
                    trees == views(items@),
                    trees.len() == items.len(),
                    glyphs_of(out@) == start + text_glyphs("("@) + joined(trees, i as int),
                decreases items.len() - i,
            {
                proof {
                    lemma_views(items@);
                }
                let ghost next = i + 1;
                if i > 0 {
                    push_text(out, " ");
                }
                render(&items[i], out);
                assert(glyphs_of(out@) =~= start + text_glyphs("("@) + joined(trees, next as int));
                i += 1;
            }
            push_text(out, ")");
        },
    }
}

/// The printed form of a value, as fragments.
pub fn value_to_fragments(value: &Value) -> (r: Vec<Fragment>)
    ensures
        glyphs_of(r@) == rendering(value@),
{
    let mut out: Vec<Fragment> = Vec::new();
    render(value, &mut out);
    out
}

} // verus!
