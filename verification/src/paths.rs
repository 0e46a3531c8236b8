//! The text work in expanding `~` in paths; joining to the home directory is the host's.
use vstd::prelude::*;
use crate::text::chars_of;

verus! {

/// `s` without the `/` characters at its start.
pub open spec fn trim_leading_slashes(s: Seq<char>) -> Seq<char>
    decreases s.len(),
{
    if s.len() > 0 && s[0] == '/' {
        trim_leading_slashes(s.drop_first())
    } else {
        s
    }
}

/// For a path that starts with `~`: what to join to the home directory, that is the rest
/// of the path without its leading `/` characters. `None` for any other path, which is
/// used as it stands.
pub open spec fn tilde_part(path: Seq<char>) -> Option<Seq<char>> {
    if path.len() > 0 && path[0] == '~' {
        Some(trim_leading_slashes(path.drop_first()))
    } else {
        None
    }
}

/// What to join to the home directory for a path that starts with `~`, or `None` when it
/// does not; see `tilde_part`.
pub fn tilde_relative(path: &str) -> (r: Option<String>)
    ensures
        match tilde_part(path@) {
            Some(rest) => r matches Some(s) && s@ == rest,
            None => r is None,
        },
{
    let chars = chars_of(path);
    if chars.len() == 0 || chars[0] != '~' {
        return None;
    }
    let mut i: usize = 1;
    proof {
        assert(chars@.subrange(1, chars@.len() as int) =~= path@.drop_first());
    }
    while i < chars.len() && chars[i] == '/'
        invariant
            1 <= i <= chars@.len(),
            chars@ == path@,
            trim_leading_slashes(chars@.subrange(i as int, chars@.len() as int))
                == trim_leading_slashes(path@.drop_first()),
        decreases chars@.len() - i,
    {
        proof {
            assert(chars@.subrange(i as int, chars@.len() as int).drop_first()
                =~= chars@.subrange(i + 1, chars@.len() as int));
        }
        i += 1;
    }
    Some(crate::text::string_of(&chars, i, chars.len()))
}

/// For a path that starts with `~/`: the rest of it, to be joined to the home directory.
/// `None` for any other path.
pub open spec fn home_part(path: Seq<char>) -> Option<Seq<char>> {
    if path.len() >= 2 && path[0] == '~' && path[1] == '/' {
        Some(path.subrange(2, path.len() as int))
    } else {
        None
    }
}

/// What to join to the home directory for a path that starts with `~/`; see `home_part`.
pub fn home_relative(path: &str) -> (r: Option<String>)
    ensures
        match home_part(path@) {
            Some(rest) => r matches Some(s) && s@ == rest,
            None => r is None,
        },
{
    let chars = chars_of(path);
    if chars.len() >= 2 && chars[0] == '~' && chars[1] == '/' {
        Some(crate::text::string_of(&chars, 2, chars.len()))
    } else {
        None
    }
}

} // verus!
