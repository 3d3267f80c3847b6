use vstd::prelude::*;

use crate::text::text_to_string;
use vstd::string::{StrSliceExecFns, StringExecFns};

verus! {

/// The report of a finished command: `OK` or `Error(<status>)`, then its
/// standard output and its standard error, each under a heading.
pub open spec fn output_report(success: bool, status: Seq<char>, stdout: Seq<char>, stderr: Seq<char>) -> Seq<
    char,
> {
    let head = if success {
        "OK"@
    } else {
        "Error("@ + status + ")"@
    };
    head + "\n        Stdout:\n        "@ + stdout + "\n\n        Stderr:\n        "@ + stderr + "\n        "@
}

/// Writes the report of a finished command; `status` is how its exit status prints.
pub fn stringify_output(success: bool, status: &str, stdout: &str, stderr: &str) -> (r: String)
    ensures
        r@ == output_report(success, status@, stdout@, stderr@),
{
    let mut r = if success {
        text_to_string("OK")
    } else {
        let mut h = text_to_string("Error(");
        h.append(status);
        h.append(")");
        h
    };
    r.append("\n        Stdout:\n        ");
    r.append(stdout);
    r.append("\n\n        Stderr:\n        ");
    r.append(stderr);
    r.append("\n        ");
    r
}

} // verus!
