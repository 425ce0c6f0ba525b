//! Paths as texts: how the name of a file is put under a directory.

use vstd::prelude::*;
use vstd::string::*;

verus! {

/// The path of `child` under the directory `dir`: the two with one slash
/// between them. A `child` that begins with a slash is a path from the root
/// and stands for itself. An empty `dir` stands for the current directory
/// and adds nothing; a `dir` that ends in a slash gets no second one.
pub open spec fn joined_path(dir: Seq<char>, child: Seq<char>) -> Seq<char> {
    if child.len() > 0 && child[0] == '/' {
        child
    } else if dir.len() == 0 {
        child
    } else if dir.last() == '/' {
        dir + child
    } else {
        dir + "/"@ + child
    }
}

/// The path of `child` under the directory `dir`.
pub fn join_path(dir: &str, child: &str) -> (r: String)
    ensures
        r@ == joined_path(dir@, child@),
{
    let n = dir.unicode_len();
    if n == 0 || (child.unicode_len() > 0 && child.get_char(0) == '/') {
        return child.to_owned();
    }
    let mut path = dir.to_owned();
    if dir.get_char(n - 1) != '/' {
        path.append("/");
    }
    path.append(child);
    path
}

} // verus!
