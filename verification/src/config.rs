//! The configuration of the host application: the directory that holds the
//! note files, with `~` expanded to the user's home directory.
//!
//! Reading and writing the configuration file is I/O and lives with the
//! caller; this module holds the configuration record and the tilde
//! expansion, which is pure computation on path strings.

use vstd::prelude::*;

verus! {

/// The one configuration setting: where the note files live.
#[derive(Debug, PartialEq)]
pub struct Config {
    pub notes_dir: String,
}

impl Default for Config {
    fn default() -> (c: Config)
        ensures
            c.notes_dir@ == Seq::<char>::empty(),
    {
        Config { notes_dir: String::new() }
    }
}

/// Whether a path begins with a tilde component, so that expanding it needs
/// the home directory.
pub open spec fn path_has_tilde(path: Seq<char>) -> bool {
    path == seq!['~'] || (path.len() >= 2 && path[0] == '~' && path[1] == '/')
}

/// Test whether a path begins with a tilde component. Only such a path makes
/// [`expand_tilde`] consult the home directory: on any other path the
/// expansion is the identity.
pub fn has_tilde_prefix(path: &str) -> (b: bool)
    ensures
        b == path_has_tilde(path@),
        !b ==> forall|home: Seq<char>| tilde_expanded(path@, home) == path@,
{
    let n = path.unicode_len();
    let b = (n == 1 && path.get_char(0) == '~') || (n >= 2 && path.get_char(0) == '~'
        && path.get_char(1) == '/');
    proof {
        if n == 1 && path@[0] == '~' {
            assert(path@ =~= seq!['~']);
        }
        if path@ == seq!['~'] {
            assert(path@.len() == 1 && path@[0] == '~');
        }
    }
    b
}

/// What expanding a leading tilde against a home directory yields: `~` alone
/// becomes the home directory; `~/rest` becomes the home directory, a
/// separator and the rest — except that a root home directory contributes no
/// extra separator; any other path is left as it is.
pub open spec fn tilde_expanded(path: Seq<char>, home: Seq<char>) -> Seq<char> {
    if path == seq!['~'] {
        home
    } else if path.len() >= 2 && path[0] == '~' && path[1] == '/' {
        if home == seq!['/'] {
            path.subrange(2, path.len() as int)
        } else {
            home + seq!['/'] + path.subrange(2, path.len() as int)
        }
    } else {
        path
    }
}

/// Expand a leading `~` path component against the home directory.
pub fn expand_tilde(path: &str, home: &str) -> (r: String)
    ensures
        r@ == tilde_expanded(path@, home@),
{
    let n = path.unicode_len();
    if n == 1 && path.get_char(0) == '~' {
        proof {
            assert(path@ =~= seq!['~']);
        }
        String::from_str(home)
    } else if n >= 2 && path.get_char(0) == '~' && path.get_char(1) == '/' {
        let hn = home.unicode_len();
        if hn == 1 && home.get_char(0) == '/' {
            proof {
                assert(home@ =~= seq!['/']);
                assert(path@ != seq!['~']);
            }
            String::from_str(path.substring_char(2, n))
        } else {
            let mut out = String::from_str(home);
            out.append("/");
            out.append(path.substring_char(2, n));
            proof {
                reveal_strlit("/");
                assert("/"@ =~= seq!['/']);
                assert(home@ != seq!['/']);
                assert(path@ != seq!['~']);
                assert(out@ =~= home@ + seq!['/'] + path@.subrange(2, path@.len() as int));
            }
            out
        }
    } else {
        proof {
            assert(path@ != seq!['~']);
            assert(!(path@.len() >= 2 && path@[0] == '~' && path@[1] == '/'));
        }
        String::from_str(path)
    }
}

} // verus!
