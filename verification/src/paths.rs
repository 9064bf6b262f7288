//! Paths as texts.
use vstd::prelude::*;
use vstd::string::*;
use crate::text::{concat, concat3};

verus! {

/// Whether a path starts at the root.
pub open spec fn is_absolute(path: Seq<char>) -> bool {
    path.len() > 0 && path[0] == '/'
}

/// A path seen from a directory: an absolute path is itself, any other stands under the
/// directory.
pub open spec fn seen_from(dir: Seq<char>, path: Seq<char>) -> Seq<char> {
    if is_absolute(path) || dir.len() == 0 {
        path
    } else if dir.last() == '/' {
        dir + path
    } else {
        dir + "/"@ + path
    }
}

/// A path seen from a directory.
pub fn join(dir: &str, path: &str) -> (r: String)
    ensures
        r@ == seen_from(dir@, path@),
{
    let absolute = path.unicode_len() > 0 && path.get_char(0) == '/';
    let n: usize = dir.unicode_len();
    if absolute || n == 0 {
        path.to_owned()
    } else if dir.get_char(n - 1) == '/' {
        concat(dir, path)
    } else {
        concat3(dir, "/", path)
    }
}

/// An absolute path stands for itself wherever it is seen from; another one stands in the
/// directory, with one slash between them.
pub proof fn law_paths_seen_from_a_directory(dir: &str, path: &str, r: String)
    requires
        call_ensures(join, (dir, path), r),
    ensures
        path@.len() > 0 && path@[0] == '/' ==> r@ == path@,
        dir@.len() == 0 ==> r@ == path@,
        dir@.len() > 0 && (path@.len() == 0 || path@[0] != '/') && dir@.last() == '/' ==> r@ == dir@
            + path@,
        dir@.len() > 0 && (path@.len() == 0 || path@[0] != '/') && dir@.last() != '/' ==> r@ == dir@
            + seq!['/'] + path@,
{
    reveal_strlit("/");
    assert("/"@ =~= seq!['/']);
}

} // verus!
