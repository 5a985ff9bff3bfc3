//! Small helpers around the chunking.

pub mod parsers;

use vstd::prelude::*;
use crate::chunking::text::contains_text;

verus! {

/// The collection name used for a path that has no final component.
pub const DEFAULT_COLLECTION_NAME: &'static str = "code-sherpa";

/// `std::path::Path::file_name` of `path`, as text: the final component of
/// the path, if it has one. It is claimed that the component is a part of the
/// path and is not empty, since a path has no empty component: repeated
/// separators are ignored when it is read. Nothing is claimed of which paths
/// have a final component, nor of where it ends.
#[verifier::external_body]
fn final_component(path: &str) -> (component: Option<String>)
    ensures
        match component {
            Some(name) => name@.len() > 0 && contains_text(path@, name@),
            None => true,
        },
{
    let name = std::path::Path::new(path).file_name()?;
    Some(name.to_str()?.to_owned())
}

/// The name for a collection, given the final component of a path.
pub open spec fn collection_name_of(component: Option<Seq<char>>) -> Seq<char> {
    match component {
        Some(name) => name,
        None => DEFAULT_COLLECTION_NAME@,
    }
}

/// A text that may be missing, as plain values.
pub open spec fn text_view(text: Option<String>) -> Option<Seq<char>> {
    match text {
        Some(present) => Some(present@),
        None => None,
    }
}

/// The name of the collection for a path whose final component is
/// `component`: that component, or `DEFAULT_COLLECTION_NAME` where the path
/// has none.
pub fn collection_name_from(component: Option<String>) -> (name: String)
    ensures
        name@ == collection_name_of(text_view(component)),
{
    match component {
        Some(text) => text,
        None => DEFAULT_COLLECTION_NAME.to_owned(),
    }
}

/// The name of the collection that holds the chunks of the code base at
/// `path`: the final component of the path, which is a part of it, or
/// `DEFAULT_COLLECTION_NAME` where the path has none. The name is never
/// empty.
pub fn path_to_collection_name(path: &str) -> (name: String)
    ensures
        name@ == DEFAULT_COLLECTION_NAME@ || contains_text(path@, name@),
        name@.len() > 0,
{
    proof {
        reveal_strlit("code-sherpa");
    }
    collection_name_from(final_component(path))
}

} // verus!
