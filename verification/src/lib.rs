//! A verified bidirectional mapping between a flat stream of structural
//! events and a strictly nested document tree.
use vstd::prelude::*;

pub mod builder;
pub mod builder_spec;
pub mod events;
pub mod laws;
pub mod lower;
pub mod lower_spec;
pub mod model;
pub mod roundtrip;

verus! {

/// The two passes of the converter core, as associated functions: the
/// tree builder (parse direction) and the tree lowering (generate
/// direction).
pub struct Transformer;

/// Returns whether a file extension names a document format the
/// surrounding conversion layer accepts.
pub fn supported_format(file_extension: &str) -> (r: bool)
    ensures
        r == (file_extension@ == "md"@ || file_extension@ == "html"@ || file_extension@ == "htm"@
            || file_extension@ == "txt"@ || file_extension@ == "pdf"@ || file_extension@
            == "json"@),
{
    str_eq(file_extension, "md") || str_eq(file_extension, "html") || str_eq(file_extension, "htm")
        || str_eq(file_extension, "txt") || str_eq(file_extension, "pdf") || str_eq(
        file_extension,
        "json",
    )
}

/// Character-for-character equality of two string slices.
pub fn str_eq(a: &str, b: &str) -> (r: bool)
    ensures
        r == (a@ == b@),
{
    let na = a.unicode_len();
    let nb = b.unicode_len();
    if na != nb {
        proof {
            assert(a@ != b@) by {
                assert(a@.len() != b@.len());
            }
        }
        return false;
    }
    let mut i: usize = 0;
    while i < na
        invariant
            na == a@.len(),
            nb == b@.len(),
            na == nb,
            0 <= i <= na,
            forall|j: int| 0 <= j < i ==> a@[j] == b@[j],
        decreases na - i,
    {
        if a.get_char(i) != b.get_char(i) {
            return false;
        }
        i = i + 1;
    }
    proof {
        assert(a@ =~= b@);
    }
    true
}

} // verus!
