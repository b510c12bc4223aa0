//! From the file names of a queries directory to module names.

use vstd::prelude::*;

verus! {

/// The extension of a query file.
pub open spec fn extension() -> Seq<char> {
    seq!['.', 's', 'q', 'l']
}

/// A character that no module name may hold: a dot or a path separator.
pub open spec fn is_separator(c: char) -> bool {
    c == '.' || c == '/' || c == '\\'
}

/// The module that a file of this name contributes: the name without the
/// extension `.sql`. There is none unless the name ends in the extension
/// and holds, before it, at least one character and neither a dot nor a path
/// separator.
pub open spec fn module_name_of(file_name: Seq<char>) -> Option<Seq<char>> {
    let stem = file_name.subrange(0, file_name.len() - 4);
    if file_name.len() > 4 && file_name.subrange(file_name.len() - 4, file_name.len() as int)
        == extension() && forall|i: int| 0 <= i < stem.len() ==> !is_separator(#[trigger] stem[i]) {
        Some(stem)
    } else {
        None
    }
}

/// The module that a file contributes, if its name is one of a query file
/// (see [`module_name_of`]).
pub fn module_name(file_name: &str) -> (r: Option<String>)
    ensures
        match r {
            Some(name) => module_name_of(file_name@) == Some(name@),
            None => module_name_of(file_name@).is_none(),
        },
{
    let len = file_name.unicode_len();
    if len <= 4 {
        return None;
    }
    let ghost tail = file_name@.subrange(len - 4, len as int);
    if file_name.get_char(len - 4) != '.' || file_name.get_char(len - 3) != 's'
        || file_name.get_char(len - 2) != 'q' || file_name.get_char(len - 1) != 'l' {
        assert(tail[0] == file_name@[len - 4] && tail[1] == file_name@[len - 3] && tail[2]
            == file_name@[len - 2] && tail[3] == file_name@[len - 1]);
        return None;
    }
    assert(tail =~= extension());
    let ghost stem = file_name@.subrange(0, len - 4);
    let mut i: usize = 0;
    while i < len - 4
        invariant
            i <= len - 4,
            len == file_name@.len(),
            stem == file_name@.subrange(0, len - 4),
            forall|k: int| 0 <= k < i ==> !is_separator(#[trigger] stem[k]),
        decreases len - i,
    {
        let c = file_name.get_char(i);
        if c == '.' || c == '/' || c == '\\' {
            assert(is_separator(stem[i as int]));
            return None;
        }
        i += 1;
    }
    Some(file_name.substring_char(0, len - 4).to_owned())
}

} // verus!
