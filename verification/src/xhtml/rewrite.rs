//! The rewriting of a file's text before it is parsed and after it is
//! serialised, which keeps XHTML what an HTML parser and serialiser would
//! make HTML of: empty `span` elements and void elements stay closed.

use vstd::prelude::*;

verus! {

/// The error of `Regex::new`; only passed on.
#[verifier::external_type_specification]
#[verifier::external_body]
pub struct ExRegexError(regex::Error);

/// Whether `Regex::new` of the crate `regex` accepts the pattern.
pub uninterp spec fn regex_compiles(pattern: Seq<char>) -> bool;

/// The text that `Regex::replace_all` gives for `text` where the pattern
/// compiles: every match replaced by `replacement`, in which `$1` stands
/// for what the first group matched.
pub uninterp spec fn regex_replaced(
    pattern: Seq<char>,
    text: Seq<char>,
    replacement: Seq<char>,
) -> Seq<char>;

/// Replaces every match of `pattern` in `text`: `Regex::new` on the
/// pattern, then `replace_all`. Fails exactly where the pattern does not
/// compile. The contract names the result; it claims only that the same
/// three texts give the same result.
#[verifier::external_body]
pub(crate) fn replace_all(pattern: &str, text: &str, replacement: &str) -> (out: Result<
    String,
    regex::Error,
>)
    ensures
        out is Ok <==> regex_compiles(pattern@),
        out matches Ok(s) ==> s@ == regex_replaced(pattern@, text@, replacement@),
{
    let re = regex::Regex::new(pattern)?;
    Ok(re.replace_all(text, replacement).into_owned())
}

/// A `span` element that closes itself.
pub const SELF_CLOSING_SPAN: &'static str = "<span([^>]*?)/>";

/// A `span` element with nothing in it.
pub const EMPTY_SPAN: &'static str = "<span([^>]*?)></span>";

/// The entity that the serialiser writes for a no-break space.
pub const NBSP_ENTITY: &'static str = "&nbsp;";

/// The text with every self-closing `span` opened and closed, as the
/// parser needs it.
pub open spec fn spec_expand_spans(text: Seq<char>) -> Seq<char> {
    regex_replaced(SELF_CLOSING_SPAN@, text, "<span$1></span>"@)
}

/// Rewrites `<span…/>` to `<span…></span>`: an HTML parser would take the
/// first for an opening tag and put what follows inside the element.
pub fn expand_spans(text: &str) -> (out: Result<String, regex::Error>)
    ensures
        out is Ok <==> regex_compiles(SELF_CLOSING_SPAN@),
        out matches Ok(s) ==> s@ == spec_expand_spans(text@),
{
    replace_all(SELF_CLOSING_SPAN, text, "<span$1></span>")
}

/// The pattern for the opening tag of the element `tag`.
pub open spec fn tag_pattern(tag: Seq<char>) -> Seq<char> {
    "(<"@ + tag + "[^>]*?)>"@
}

/// The text with every tag of the element `tag` closed in itself.
pub open spec fn spec_close_tag(text: Seq<char>, tag: Seq<char>) -> Seq<char> {
    regex_replaced(tag_pattern(tag), text, "$1/>"@)
}

/// Rewrites `<tag…>` to `<tag…/>`.
pub fn close_tag(text: &str, tag: &str) -> (out: Result<String, regex::Error>)
    ensures
        out is Ok <==> regex_compiles(tag_pattern(tag@)),
        out matches Ok(s) ==> s@ == spec_close_tag(text@, tag@),
{
    let mut pattern = crate::text::joined("(<", tag);
    pattern.append("[^>]*?)>");
    replace_all(pattern.as_str(), text, "$1/>")
}

/// The text with the tags of all void elements closed: `br`, `hr`, `img`,
/// `input`, `link` and `meta`, in this order.
pub open spec fn spec_close_void_elements(text: Seq<char>) -> Seq<char> {
    spec_close_tag(
        spec_close_tag(
            spec_close_tag(
                spec_close_tag(spec_close_tag(spec_close_tag(text, "br"@), "hr"@), "img"@),
                "input"@,
            ),
            "link"@,
        ),
        "meta"@,
    )
}

/// Whether all the patterns compile that the rewriting after serialising
/// uses.
pub open spec fn fixup_patterns_compile() -> bool {
    &&& regex_compiles(tag_pattern("br"@))
    &&& regex_compiles(tag_pattern("hr"@))
    &&& regex_compiles(tag_pattern("img"@))
    &&& regex_compiles(tag_pattern("input"@))
    &&& regex_compiles(tag_pattern("link"@))
    &&& regex_compiles(tag_pattern("meta"@))
    &&& regex_compiles(NBSP_ENTITY@)
    &&& regex_compiles(EMPTY_SPAN@)
}

/// What is written to the file for the text that the serialiser gave:
/// void elements closed, every `&nbsp;` replaced by the no-break space
/// itself, and every empty `span` closed in itself, in this order.
pub open spec fn spec_xhtml_fixups(html: Seq<char>) -> Seq<char> {
    regex_replaced(
        EMPTY_SPAN@,
        regex_replaced(NBSP_ENTITY@, spec_close_void_elements(html), "\u{00A0}"@),
        "<span$1/>"@,
    )
}

/// Turns serialised HTML into the XHTML that is written to the file.
pub fn xhtml_fixups(html: &str) -> (out: Result<String, regex::Error>)
    ensures
        out is Ok <==> fixup_patterns_compile(),
        out matches Ok(s) ==> s@ == spec_xhtml_fixups(html@),
{
    let text = close_tag(html, "br")?;
    let text = close_tag(text.as_str(), "hr")?;
    let text = close_tag(text.as_str(), "img")?;
    let text = close_tag(text.as_str(), "input")?;
    let text = close_tag(text.as_str(), "link")?;
    let text = close_tag(text.as_str(), "meta")?;
    let text = replace_all(NBSP_ENTITY, text.as_str(), "\u{00A0}")?;
    replace_all(EMPTY_SPAN, text.as_str(), "<span$1/>")
}

} // verus!
