// Extract identifier-like tokens' naming conventions and convert between
// them: classification, word segmentation and recomposition, with the
// command-line tool's filtering, output shaping and word capturing around it.

use vstd::prelude::*;

pub mod chars;
pub mod conversion;
pub mod convertion;
pub mod detector;
pub mod extraction;
pub mod laws;
pub mod naming_case;
pub mod words;

pub use crate::conversion::{default_options, Convertor, Filter};
pub use crate::detector::{
    is_camel, is_kebab, is_pascal, is_screaming_snake, is_single_word, is_snake, which_case,
};
pub use crate::extraction::{apply_eof_on_text, trim_text_with_logical_eof, Captor};
pub use crate::naming_case::{from, from_hungarian_notation, NamingCase};

verus! {

/// Turn a vector of borrowed strings into a vector of owned strings,
/// preserving contents and order.
pub fn to_string_vec(ori: Vec<&str>) -> (r: Vec<String>)
    ensures
        r.deep_view() == ori.deep_view(),
{
    let mut r: Vec<String> = Vec::new();
    let mut i: usize = 0;
    while i < ori.len()
        invariant
            i <= ori.len(),
            r@.len() == i,
            forall|k: int| 0 <= k < i ==> r@[k]@ == ori@[k]@,
        decreases ori.len() - i,
    {
        r.push(ori[i].to_owned());
        i = i + 1;
    }
    proof {
        assert(r.deep_view() =~~= ori.deep_view());
    }
    r
}

} // verus!
