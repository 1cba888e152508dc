//! Where each component's log is persisted.
//!
//! The log files live under one output directory, named after the component
//! in lower case with a CSV extension.  Writing the files is I/O and happens
//! outside this library; the path computation is verified here.

use vstd::prelude::*;
use vstd::string::StringExecFns;

verus! {

/// What `str::to_lowercase` returns for the given characters.
pub uninterp spec fn lower_of(s: Seq<char>) -> Seq<char>;

/// Relies on `str::to_lowercase`: the result depends on the characters
/// alone, and an empty string stays empty.
#[verifier::external_body]
fn lowercase(s: &str) -> (r: String)
    ensures
        r@ == lower_of(s@),
        s@.len() == 0 ==> r@.len() == 0,
{
    s.to_lowercase()
}

/// The CSV path for a component: the output directory, the lower-cased
/// component name, and the CSV extension.
pub fn concat_path(component_name: &str) -> (r: String)
    ensures
        r@ == "output/"@ + lower_of(component_name@) + ".csv"@,
{
    let mut path = String::from_str("output/");
    let file_name = lowercase(component_name);
    path.append(file_name.as_str());
    path.append(".csv");
    path
}

} // verus!
