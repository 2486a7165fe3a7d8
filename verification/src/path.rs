//! Unix paths as text, joined the way `Path::join` joins them.
use vstd::prelude::*;
use vstd::string::*;

verus! {

/// `base` joined with `part`: an absolute `part` replaces `base`; otherwise a
/// `/` separates them unless `base` is empty or already ends in `/`.
pub open spec fn path_join(base: Seq<char>, part: Seq<char>) -> Seq<char> {
    if part.len() > 0 && part[0] == '/' {
        part
    } else if base.len() == 0 || base.last() == '/' {
        base + part
    } else {
        base + seq!['/'] + part
    }
}

/// Joins a path component to a base path.
pub fn join_path(base: &str, part: &str) -> (r: String)
    ensures
        r@ == path_join(base@, part@),
{
    let np: usize = part.unicode_len();
    if np > 0 && part.get_char(0) == '/' {
        return part.to_owned();
    }
    let nb: usize = base.unicode_len();
    let mut r = base.to_owned();
    if !(nb == 0 || base.get_char(nb - 1) == '/') {
        proof {
            reveal_strlit("/");
        }
        r.append("/");
    }
    r.append(part);
    r
}

/// A joined path is absolute when its base is.
pub proof fn lemma_join_keeps_absolute(base: Seq<char>, part: Seq<char>)
    requires
        crate::model::is_absolute_path(base),
    ensures
        crate::model::is_absolute_path(path_join(base, part)),
{
    if !(part.len() > 0 && part[0] == '/') {
        if base.len() == 0 || base.last() == '/' {
            assert((base + part)[0] == base[0]);
        } else {
            assert((base + seq!['/'] + part)[0] == base[0]);
        }
    }
}

} // verus!
