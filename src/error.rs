//! The error kinds that page, tag, link and search operations return.

use vstd::prelude::*;

verus! {

#[derive(Debug)]
pub enum WikiError {
    /// A page, template or tag is absent.
    NotFound,
    /// `create` collides with an existing page.
    AlreadyExists,
    /// A tag change was asked of a page without a `---` ... `---` block.
    InvalidFrontmatter,
    /// The file system or the search index failed; the text says how.
    IOError(String),
    /// A date or a commit identifier did not parse; the text is the token.
    ParseError(String),
    /// A collaborator program is missing or failed.
    ExternalToolError(String),
}

} // verus!
