//! File names, stems and extensions of paths given as text.

use vstd::prelude::*;
use vstd::string::StrSliceExecFns;
use crate::text::{chars_of, same_text};

verus! {

/// The final component of a path as `std::path::Path` parses it on the
/// platform the crate is built for, if the path has one.
pub uninterp spec fn path_file_name(path: Seq<char>) -> Option<Seq<char>>;

/// The position of the last `.` in a file name, or -1 where it has none.
pub open spec fn last_dot(name: Seq<char>) -> int
    decreases name.len(),
{
    if name.len() == 0 {
        -1
    } else if name.last() == '.' {
        name.len() - 1
    } else {
        last_dot(name.drop_last())
    }
}

/// The stem of a file name: what stands before its last `.`, or the whole
/// name where the only `.` leads it or it has none.
pub open spec fn name_stem(name: Seq<char>) -> Seq<char> {
    if last_dot(name) <= 0 {
        name
    } else {
        name.take(last_dot(name))
    }
}

/// The extension of a file name: what follows its last `.`, where that `.`
/// does not lead the name.
pub open spec fn name_extension(name: Seq<char>) -> Option<Seq<char>> {
    if last_dot(name) <= 0 {
        None
    } else {
        Some(name.skip(last_dot(name) + 1))
    }
}

/// The stem of the final component of a path.
pub open spec fn path_stem(path: Seq<char>) -> Option<Seq<char>> {
    match path_file_name(path) {
        Some(name) => Some(name_stem(name)),
        None => None,
    }
}

/// The extension of the final component of a path.
pub open spec fn path_extension(path: Seq<char>) -> Option<Seq<char>> {
    match path_file_name(path) {
        Some(name) => name_extension(name),
        None => None,
    }
}

/// The last `.` of a name is a `.`, and none follows it.
pub proof fn lemma_last_dot(name: Seq<char>)
    ensures
        -1 <= last_dot(name) < name.len(),
        last_dot(name) >= 0 ==> name[last_dot(name)] == '.',
        forall|i: int| last_dot(name) < i < name.len() ==> name[i] != '.',
    decreases name.len(),
{
    if name.len() > 0 && name.last() != '.' {
        let front = name.drop_last();
        lemma_last_dot(front);
        assert forall|i: int| last_dot(name) < i < name.len() implies name[i] != '.' by {
            if i < front.len() {
                assert(front[i] == name[i]);
            }
        }
    }
}

/// Calls `std::path::Path::file_name` on the path and hands back the
/// component as text. Trusted: the result is the final component that std
/// finds in the path, `None` where std finds none.
#[verifier::external_body]
pub(crate) fn final_component(path: &str) -> (r: Option<String>)
    ensures
        r.deep_view() == path_file_name(path@),
{
    std::path::Path::new(path).file_name().and_then(|name| name.to_str()).map(|name| name.to_string())
}

/// The position of the last `.` in `name`, if it has one.
fn find_last_dot(name: &Vec<char>) -> (r: Option<usize>)
    ensures
        match r {
            Some(at) => at as int == last_dot(name@) && at < name.len(),
            None => last_dot(name@) == -1,
        },
{
    let mut end: usize = name.len();
    proof {
        assert(name@.take(end as int) =~= name@);
    }
    while end > 0
        invariant
            end <= name.len(),
            last_dot(name@) == last_dot(name@.take(end as int)) || (last_dot(name@) >= end),
            forall|i: int| end <= i < name.len() ==> name@[i] != '.',
        decreases end,
    {
        proof {
            lemma_last_dot(name@);
            assert(name@.take(end as int).drop_last() =~= name@.take(end - 1));
        }
        if name[end - 1] == '.' {
            return Some(end - 1);
        }
        end -= 1;
    }
    proof {
        lemma_last_dot(name@);
    }
    None
}

/// The stem of a file name.
pub fn stem_of_name(name: &str) -> (r: String)
    ensures
        r@ == name_stem(name@),
{
    let chars = chars_of(name);
    match find_last_dot(&chars) {
        Some(at) => {
            if at == 0 {
                name.to_owned()
            } else {
                let front = name.substring_char(0, at);
                proof {
                    assert(name@.take(at as int) =~= name@.subrange(0, at as int));
                }
                front.to_owned()
            }
        },
        None => name.to_owned(),
    }
}

/// The stem of the final component of `path`.
pub fn file_stem(path: &str) -> (r: Option<String>)
    ensures
        r.deep_view() == path_stem(path@),
{
    match final_component(path) {
        Some(name) => Some(stem_of_name(name.as_str())),
        None => None,
    }
}

/// The extension of a file name.
pub fn extension_of_name(name: &str) -> (r: Option<String>)
    ensures
        r.deep_view() == name_extension(name@),
{
    let chars = chars_of(name);
    match find_last_dot(&chars) {
        Some(at) => {
            if at == 0 {
                None
            } else {
                let rest = name.substring_char(at + 1, chars.len());
                proof {
                    assert(name@.skip(at + 1) =~= name@.subrange(at + 1, name@.len() as int));
                }
                Some(rest.to_owned())
            }
        },
        None => None,
    }
}

/// The extension of the final component of `path`.
pub fn extension(path: &str) -> (r: Option<String>)
    ensures
        r.deep_view() == path_extension(path@),
{
    match final_component(path) {
        Some(name) => extension_of_name(name.as_str()),
        None => None,
    }
}

/// Whether the final component of `path` has the extension `wanted`.
pub fn has_extension(path: &str, wanted: &str) -> (r: bool)
    ensures
        r == (path_extension(path@) == Some(wanted@)),
{
    match extension(path) {
        Some(found) => same_text(found.as_str(), wanted),
        None => false,
    }
}

} // verus!
