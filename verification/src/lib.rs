//! Core of a live MIDI melody recorder: a session recorder that splits a
//! stream of timestamped performance events into discrete recordings
//! separated by idle gaps, while mirroring every event onto a relay queue
//! for real-time monitoring.

use vstd::prelude::*;
use vstd::string::StrSliceExecFns;

pub mod events;
pub mod notation;
pub mod queue;
pub mod recorder;

verus! {

/// The suffix of `s` that follows its last `'/'` (all of `s` if there is none).
pub open spec fn after_last_slash(s: Seq<char>) -> Seq<char>
    decreases s.len(),
{
    if s.len() == 0 {
        s
    } else if s[s.len() - 1] == '/' {
        Seq::empty()
    } else {
        after_last_slash(s.drop_last()).push(s[s.len() - 1])
    }
}

/// The prefix of `s` that precedes its first `'.'` (all of `s` if there is none).
pub open spec fn before_first_dot(s: Seq<char>) -> Seq<char>
    decreases s.len(),
{
    if s.len() == 0 {
        s
    } else if s[0] == '.' {
        Seq::empty()
    } else {
        seq![s[0]] + before_first_dot(s.drop_first())
    }
}

/// `after_last_slash` keeps exactly the characters past position `start`,
/// when `start` sits right after the last `'/'` of `s` (or at 0 if `s` has
/// none).
proof fn lemma_after_last_slash_subrange(s: Seq<char>, start: int)
    requires
        0 <= start <= s.len(),
        start == 0 || s[start - 1] == '/',
        forall|k: int| start <= k < s.len() ==> s[k] != '/',
    ensures
        after_last_slash(s) =~= s.subrange(start, s.len() as int),
    decreases s.len(),
{
    if s.len() == 0 {
    } else if s[s.len() - 1] == '/' {
        assert(start == s.len());
    } else {
        assert(start < s.len());
        lemma_after_last_slash_subrange(s.drop_last(), start);
        assert(after_last_slash(s) =~= s.subrange(start, s.len() as int));
    }
}

/// `before_first_dot` keeps exactly the characters before position `end`,
/// when `end` is the position of the first `'.'` of `s` (or `s.len()` if
/// `s` has none).
proof fn lemma_before_first_dot_subrange(s: Seq<char>, end: int)
    requires
        0 <= end <= s.len(),
        forall|k: int| 0 <= k < end ==> s[k] != '.',
        end == s.len() || s[end] == '.',
    ensures
        before_first_dot(s) =~= s.subrange(0, end),
    decreases s.len(),
{
    if s.len() == 0 {
    } else if s[0] == '.' {
        assert(end == 0);
    } else {
        assert(end >= 1);
        lemma_before_first_dot_subrange(s.drop_first(), end - 1);
        assert(seq![s[0]] + s.drop_first().subrange(0, end - 1) =~= s.subrange(0, end));
    }
}

/// The file name of the path `s` spells: its last `'/'`-separated segment
/// that is neither empty nor `"."` — so trailing separators and `"."`
/// segments are ignored, the way a path's file name is found. `None` when
/// no such segment remains (empty path, all separators) or when that
/// segment is the parent-directory segment `".."`.
pub open spec fn file_name_of(s: Seq<char>) -> Option<Seq<char>>
    decreases s.len(),
{
    if s.len() == 0 {
        None
    } else if s[s.len() - 1] == '/' {
        file_name_of(s.drop_last())
    } else {
        let name = after_last_slash(s);
        if name == seq!['.'] {
            file_name_of(s.drop_last())
        } else if name == seq!['.', '.'] {
            None
        } else {
            Some(name)
        }
    }
}

/// The name a file goes by without directories or extensions: the file
/// name of `path` (see [`file_name_of`]) cut at its first `'.'`. The path
/// must have a file name at all; a path without one (empty, all
/// separators, or ending in a `".."` segment) is a caller error.
pub fn filename_sans_suffix(path: &str) -> (r: String)
    requires
        file_name_of(path@) is Some,
    ensures
        r@ == before_first_dot(file_name_of(path@).unwrap()),
{
    let len: usize = path.unicode_len();
    let mut end: usize = len;
    proof {
        assert(path@.subrange(0, len as int) =~= path@);
    }
    while end > 0 && (path.get_char(end - 1) == '/' || (path.get_char(end - 1) == '.' && (end
        == 1 || path.get_char(end - 2) == '/')))
        invariant
            len == path@.len(),
            end <= len,
            file_name_of(path@.subrange(0, end as int)) == file_name_of(path@),
        decreases end,
    {
        proof {
            let pre = path@.subrange(0, end as int);
            assert(pre.drop_last() =~= path@.subrange(0, end - 1));
            if path@[end - 1] == '.' && (end == 1 || path@[end - 2] == '/') {
                lemma_after_last_slash_subrange(pre, end - 1);
                assert(after_last_slash(pre) =~= seq!['.']);
            }
        }
        end = end - 1;
    }
    if end == 0 {
        proof {
            // ruled out by the precondition: the path has a file name
            assert(path@.subrange(0, 0).len() == 0);
            assert(false);
        }
        return String::new();
    }
    let mut start: usize = end;
    while start > 0 && path.get_char(start - 1) != '/'
        invariant
            len == path@.len(),
            start <= end <= len,
            0 < end,
            forall|k: int| start <= k < end ==> path@[k] != '/',
        decreases start,
    {
        start = start - 1;
    }
    proof {
        let pre = path@.subrange(0, end as int);
        lemma_after_last_slash_subrange(pre, start as int);
        assert(after_last_slash(pre) =~= path@.subrange(start as int, end as int));
    }
    if end - start == 2 && path.get_char(start) == '.' && path.get_char(start + 1) == '.' {
        proof {
            // ruled out by the precondition: a path ending in a ".."
            // segment has no file name
            let pre = path@.subrange(0, end as int);
            assert(after_last_slash(pre) =~= seq!['.', '.']);
            assert(false);
        }
        return String::new();
    }
    proof {
        let pre = path@.subrange(0, end as int);
        let name = after_last_slash(pre);
        assert(name == path@.subrange(start as int, end as int));
        assert(name.len() == end - start);
        assert(seq!['.'].len() == 1);
        assert(seq!['.'][0] == '.');
        assert(seq!['.', '.'].len() == 2);
        assert(seq!['.', '.'][0] == '.');
        assert(seq!['.', '.'][1] == '.');
        if name == seq!['.'] {
            // a lone "." segment would have been peeled by the first loop
            assert(end == start + 1);
            assert(end == 1 || path@[end - 2] == '/');
            assert(path@[end - 1] == name[0]);
            assert(false);
        }
        if name == seq!['.', '.'] {
            // the ".." segment was returned on just above
            assert(path@[start as int] == name[0]);
            assert(path@[start + 1] == name[1]);
            assert(false);
        }
        assert(file_name_of(path@) == Some(path@.subrange(start as int, end as int)));
    }
    let mut dot: usize = start;
    while dot < end && path.get_char(dot) != '.'
        invariant
            len == path@.len(),
            start <= dot <= end <= len,
            forall|k: int| start <= k < dot ==> path@[k] != '.',
        decreases end - dot,
    {
        dot = dot + 1;
    }
    let stem = path.substring_char(start, dot);
    proof {
        let name = path@.subrange(start as int, end as int);
        lemma_before_first_dot_subrange(name, dot - start);
        assert(name.subrange(0, dot - start) =~= path@.subrange(start as int, dot as int));
    }
    stem.to_owned()
}

} // verus!


