//! Plain-text extraction and template-argument lookup over a parsed
//! document tree.

use vstd::prelude::*;
use vstd::string::StringExecFns;

verus! {

/// The parts of a parsed document node that this library's logic reads:
/// the text of text nodes, the children of formatting wrappers and
/// paragraphs, and the name and value of template arguments. Every other
/// node kind carries nothing the extraction or lookup below looks at.
#[derive(Debug, PartialEq)]
pub enum Element {
    Text(String),
    Formatted(Vec<Element>),
    Paragraph(Vec<Element>),
    TemplateArgument(String, Vec<Element>),
    Other,
}

/// The plain text contained in one node: text nodes contribute their text,
/// wrappers and template arguments the concatenated text of their children.
pub open spec fn plain_text_of(e: Element) -> Seq<char>
    decreases e, 0int,
{
    match e {
        Element::Text(t) => t@,
        Element::Formatted(c) => plain_text_from(c@, 0),
        Element::Paragraph(c) => plain_text_from(c@, 0),
        Element::TemplateArgument(_name, v) => plain_text_from(v@, 0),
        Element::Other => Seq::empty(),
    }
}

/// The concatenated plain text of the nodes of `s` from position `i` on.
pub open spec fn plain_text_from(s: Seq<Element>, i: int) -> Seq<char>
    decreases s, s.len() - i + 1,
{
    if i < 0 || i >= s.len() {
        Seq::empty()
    } else {
        plain_text_of(s[i]) + plain_text_from(s, i + 1)
    }
}

/// Extract plain text (Paragraph and Text nodes) from a list of nodes and concatenate it.
pub fn extract_plain_text(content: &[Element]) -> (r: String)
    ensures
        r@ == plain_text_from(content@, 0),
    decreases content@,
{
    let mut result = String::new();
    let n = content.len();
    let mut i: usize = 0;
    while i < n
        invariant
            n == content@.len(),
            i <= n,
            result@ + plain_text_from(content@, i as int) == plain_text_from(content@, 0),
        decreases content@, n - i,
    {
        proof {
            assert(decreases_to!(content@ => content@[i as int]));
        }
        match &content[i] {
            Element::Text(t) => {
                result.append(t.as_str());
            },
            Element::Formatted(c) => {
                let sub = extract_plain_text(c.as_slice());
                result.append(sub.as_str());
            },
            Element::Paragraph(c) => {
                let sub = extract_plain_text(c.as_slice());
                result.append(sub.as_str());
            },
            Element::TemplateArgument(_name, v) => {
                let sub = extract_plain_text(v.as_slice());
                result.append(sub.as_str());
            },
            Element::Other => {},
        }
        proof {
            assert(plain_text_from(content@, i as int) == plain_text_of(content@[i as int])
                + plain_text_from(content@, i + 1));
            assert(result@ + plain_text_from(content@, i + 1) =~= plain_text_from(content@, 0));
        }
        i = i + 1;
    }
    result
}

/// What str::trim returns for a given character sequence.
pub uninterp spec fn trim_of(s: Seq<char>) -> Seq<char>;

/// What str::to_lowercase returns for a given character sequence.
pub uninterp spec fn lower_of(s: Seq<char>) -> Seq<char>;

/// Relies on str::trim: leading and trailing whitespace removed, a result
/// that depends on the characters alone.
#[verifier::external_body]
fn str_trim(s: &str) -> (r: &str)
    ensures
        r@ == trim_of(s@),
{
    s.trim()
}

/// Relies on str::to_lowercase: the result depends on the characters alone.
#[verifier::external_body]
fn str_lower(s: &str) -> (r: String)
    ensures
        r@ == lower_of(s@),
{
    s.to_lowercase()
}

/// The views of a list of names.
pub open spec fn name_views(names: Seq<String>) -> Seq<Seq<char>> {
    names.map_values(|s: String| s@)
}

/// Whether a node is a template argument whose name, trimmed and lowercased,
/// is one of the given names.
pub open spec fn arg_matches(e: Element, names: Seq<Seq<char>>) -> bool {
    e matches Element::TemplateArgument(name, _value) && names.contains(
        lower_of(trim_of(name@)),
    )
}

/// The first node of `s`, from position `i` on, that `arg_matches` the names.
pub open spec fn spec_find_arg(s: Seq<Element>, names: Seq<Seq<char>>, i: int) -> Option<
    Element,
>
    decreases s.len() - i,
{
    if i < 0 || i >= s.len() {
        None
    } else if arg_matches(s[i], names) {
        Some(s[i])
    } else {
        spec_find_arg(s, names, i + 1)
    }
}

/// Whether `x` is one of the strings of `names`.
fn contains_string(names: &[String], x: &String) -> (r: bool)
    ensures
        r == name_views(names@).contains(x@),
{
    let n = names.len();
    let mut i: usize = 0;
    while i < n
        invariant
            n == names@.len(),
            i <= n,
            forall|j: int| 0 <= j < i ==> name_views(names@)[j] != x@,
        decreases n - i,
    {
        if names[i].eq(x) {
            assert(name_views(names@)[i as int] == x@);
            return true;
        }
        i = i + 1;
    }
    assert(forall|j: int| 0 <= j < names@.len() ==> name_views(names@)[j] != x@);
    false
}

/// Returns the template argument with a matching name (lowercase) from a list.
pub fn find_arg<'a>(content: &'a [Element], names: &[String]) -> (r: Option<&'a Element>)
    ensures
        match r {
            Some(e) => spec_find_arg(content@, name_views(names@), 0) == Some(*e),
            None => spec_find_arg(content@, name_views(names@), 0) is None,
        },
{
    let n = content.len();
    let mut i: usize = 0;
    while i < n
        invariant
            n == content@.len(),
            i <= n,
            spec_find_arg(content@, name_views(names@), 0) == spec_find_arg(
                content@,
                name_views(names@),
                i as int,
            ),
        decreases n - i,
    {
        let found: bool = match &content[i] {
            Element::TemplateArgument(name, _value) => {
                let trimmed = str_trim(name.as_str());
                let lowered = str_lower(trimmed);
                contains_string(names, &lowered)
            },
            _ => false,
        };
        if found {
            assert(arg_matches(content@[i as int], name_views(names@)));
            return Some(&content[i]);
        }
        assert(!arg_matches(content@[i as int], name_views(names@)));
        i = i + 1;
    }
    None
}

} // verus!
