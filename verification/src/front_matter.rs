//! Splitting a markdown document into its YAML front matter and its body,
//! with gray_matter.

use vstd::prelude::*;

verus! {

#[verifier::external_type_specification]
#[verifier::external_body]
pub struct ExPod(gray_matter::Pod);

/// What gray_matter's `Matter::<YAML>::parse(text)` makes of `text`: whether
/// it found front matter (its `data` is `Some`), and the document's content
/// with the front matter and its delimiters taken out.
pub uninterp spec fn front_matter_split(text: Seq<char>) -> (bool, Seq<char>);

/// A document split into its front matter data and its content.
pub struct ParsedDocument {
    pub data: Option<gray_matter::Pod>,
    pub content: String,
}

/// Calls gray_matter's `Matter::<YAML>::new().parse(text)`; claims that whether
/// `data` is present, and the content, are the named `front_matter_split`.
#[verifier::external_body]
fn matter_parse(text: &str) -> (r: (Option<gray_matter::Pod>, String))
    ensures
        r.0.is_some() == front_matter_split(text@).0,
        r.1@ == front_matter_split(text@).1,
{
    let parsed = gray_matter::Matter::<gray_matter::engine::YAML>::new().parse(text);
    (parsed.data, parsed.content)
}

/// Splits a markdown document into its YAML front matter and its body.
pub fn parse_document(text: &str) -> (r: ParsedDocument)
    ensures
        r.data.is_some() == front_matter_split(text@).0,
        r.content@ == front_matter_split(text@).1,
{
    let (data, content) = matter_parse(text);
    ParsedDocument { data, content }
}

} // verus!
