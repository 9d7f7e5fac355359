//! Saving files: where contents are written before they replace a file.

use crate::text::push_decimal;
use vstd::prelude::*;

verus! {

/// The name of the temporary file for a file of the given name in the process `pid`. It is hidden,
/// and names the file and the process. A path that ends in no name is called `store`.
pub open spec fn temp_name_of(file_name: Option<Seq<char>>, pid: u32) -> Seq<char> {
    "."@ + (match file_name {
        Some(name) => name,
        None => "store"@,
    }) + ".tmp."@ + crate::text::decimal(pid as nat)
}

/// The name of the file that is written first and then renamed to `file_name`, in the same
/// directory.
pub fn temp_name(file_name: Option<&str>, pid: u32) -> (r: String)
    ensures
        r@ == temp_name_of(
            match file_name {
                Some(name) => Some(name@),
                None => None,
            },
            pid,
        ),
{
    let mut out: String = ".".to_owned();
    match file_name {
        Some(name) => out.append(name),
        None => out.append("store"),
    }
    out.append(".tmp.");
    push_decimal(&mut out, pid as usize);
    out
}

/// In one process, different files have different temporary files.
pub proof fn lemma_temp_names_differ(a: Seq<char>, b: Seq<char>, pid: u32)
    requires
        temp_name_of(Some(a), pid) == temp_name_of(Some(b), pid),
    ensures
        a == b,
{
    let end = ".tmp."@ + crate::text::decimal(pid as nat);
    let x = temp_name_of(Some(a), pid);
    reveal_strlit(".");
    assert(x =~= "."@ + a + end);
    assert(x =~= "."@ + b + end);
    assert(x.len() == 1 + a.len() + end.len());
    assert(x.subrange(1, x.len() - end.len()) =~= a);
    assert(x.subrange(1, x.len() - end.len()) =~= b);
}

} // verus!
