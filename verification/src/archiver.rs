//! The archive extractor: how the external archiver is invoked.

use vstd::prelude::*;
use crate::text::string_views;

verus! {

/// The arguments that make the archiver extract `archive` into `target_dir`
/// and answer every question with yes. The output switch and the directory
/// form one argument.
pub open spec fn extraction_arguments(archive: Seq<char>, target_dir: Seq<char>) -> Seq<Seq<char>> {
    seq!["x"@, archive, "-o"@ + target_dir, "-y"@]
}

/// Builds the arguments of an extraction.
pub fn extract_arguments(archive: &str, target_dir: &str) -> (args: Vec<String>)
    ensures
        string_views(args@) == extraction_arguments(archive@, target_dir@),
{
    let mut output = String::from_str("-o");
    output.append(target_dir);
    let mut args: Vec<String> = Vec::new();
    args.push(String::from_str("x"));
    args.push(archive.to_owned());
    args.push(output);
    args.push(String::from_str("-y"));
    assert(string_views(args@) =~= extraction_arguments(archive@, target_dir@));
    args
}

} // verus!
