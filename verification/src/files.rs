//! Which files are note files: the mapping from a file name's extension to
//! the dialect it is written in.
//!
//! Walking a directory tree is I/O and lives with the caller; the caller
//! hands each candidate's file name (the final path component) to
//! [`file_type_of_name`] and keeps the files for which it knows a dialect.

use vstd::prelude::*;

use crate::grammar::rfind_char;
use crate::model::FileType;

verus! {

/// The extension of a file name: what follows the last dot, unless the dot
/// is the first character (a hidden file) or there is none.
pub open spec fn extension_of(name: Seq<char>) -> Option<Seq<char>> {
    match rfind_char(name, '.', name.len() as int) {
        Some(d) => if d > 0 {
            Some(name.subrange(d + 1, name.len() as int))
        } else {
            None
        },
        None => None,
    }
}

/// The dialect that an extension names.
pub open spec fn file_type_of_ext(ext: Seq<char>) -> Option<FileType> {
    if ext == seq!['o', 'r', 'g'] {
        Some(FileType::Org)
    } else if ext == seq!['m', 'd'] {
        Some(FileType::Md)
    } else {
        None
    }
}

/// The dialect that a file name's extension names, if any.
pub open spec fn file_type_spec(name: Seq<char>) -> Option<FileType> {
    match extension_of(name) {
        Some(e) => file_type_of_ext(e),
        None => None,
    }
}

/// Decide from a file name (the final path component) which dialect the file
/// is written in: `org` for the outline dialect, `md` for the lightweight
/// dialect, `None` for anything else.
pub fn file_type_of_name(name: &str) -> (r: Option<FileType>)
    ensures
        r == file_type_spec(name@),
{
    let n = name.unicode_len();
    let mut d: usize = n;
    while d > 0 && name.get_char(d - 1) != '.'
        invariant
            d <= n,
            n == name@.len(),
            rfind_char(name@, '.', n as int) == rfind_char(name@, '.', d as int),
        decreases d,
    {
        d -= 1;
    }
    proof {
        if d > 0 {
            assert(rfind_char(name@, '.', d as int) == Some(d - 1));
        }
    }
    if d <= 1 {
        // no dot, or only a leading one
        return None;
    }
    let elen = n - d;
    if elen == 3 && name.get_char(d) == 'o' && name.get_char(d + 1) == 'r' && name.get_char(d + 2)
        == 'g' {
        proof {
            assert(name@.subrange(d as int, n as int) =~= seq!['o', 'r', 'g']);
        }
        Some(FileType::Org)
    } else if elen == 2 && name.get_char(d) == 'm' && name.get_char(d + 1) == 'd' {
        proof {
            assert(name@.subrange(d as int, n as int) =~= seq!['m', 'd']);
        }
        Some(FileType::Md)
    } else {
        proof {
            let e = name@.subrange(d as int, n as int);
            assert(e.len() == n - d);
            if e == seq!['o', 'r', 'g'] {
                assert(e[0] == 'o' && e[1] == 'r' && e[2] == 'g');
                assert(name@[d as int] == 'o' && name@[d + 1] == 'r' && name@[d + 2] == 'g');
            }
            if e == seq!['m', 'd'] {
                assert(e[0] == 'm' && e[1] == 'd');
                assert(name@[d as int] == 'm' && name@[d + 1] == 'd');
            }
        }
        None
    }
}

} // verus!
