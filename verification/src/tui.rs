//! Parsing of the text commands the keyboard flow uses.

use vstd::prelude::*;
use vstd::string::StrSliceExecFns;

use crate::agent::Direction;

verus! {

/// The index of the first space at or after `i`, or the end.
pub open spec fn next_space(s: Seq<char>, i: int) -> int
    decreases s.len() - i,
{
    if i < 0 || i >= s.len() {
        s.len() as int
    } else if s[i] == ' ' {
        i
    } else {
        next_space(s, i + 1)
    }
}

/// The index of the first non-space at or after `i`, or the end.
pub open spec fn next_token(s: Seq<char>, i: int) -> int
    decreases s.len() - i,
{
    if i < 0 || i >= s.len() {
        s.len() as int
    } else if s[i] != ' ' {
        i
    } else {
        next_token(s, i + 1)
    }
}

/// Which direction a single letter names.
pub open spec fn direction_of(c: char) -> Option<Direction> {
    if c == 'n' {
        Some(Direction::North)
    } else if c == 's' {
        Some(Direction::South)
    } else if c == 'e' {
        Some(Direction::East)
    } else if c == 'w' {
        Some(Direction::West)
    } else {
        None
    }
}

/// The direction named by the second space-separated token of a command,
/// provided that token is a single letter naming one.
pub open spec fn parse_direction_spec(s: Seq<char>) -> Option<Direction> {
    let first = next_token(s, 0);
    let gap = next_space(s, first);
    let second = next_token(s, gap);
    if second < s.len() && next_space(s, second) == second + 1 {
        direction_of(s[second])
    } else {
        None
    }
}

/// Reads the direction from the second token of a command such as `mv n`.
pub fn parse_direction(cmd: &str) -> (r: Option<Direction>)
    ensures
        r == parse_direction_spec(cmd@),
{
    let ghost s = cmd@;
    let len = cmd.unicode_len();
    let mut i: usize = 0;
    while i < len && cmd.get_char(i) == ' '
        invariant
            0 <= i <= len,
            len == s.len(),
            s == cmd@,
            next_token(s, 0) == next_token(s, i as int),
        decreases len - i,
    {
        i += 1;
    }
    proof {
        assert(next_token(s, 0) == i as int);
    }
    while i < len && cmd.get_char(i) != ' '
        invariant
            0 <= i <= len,
            len == s.len(),
            s == cmd@,
            next_space(s, next_token(s, 0)) == next_space(s, i as int),
        decreases len - i,
    {
        i += 1;
    }
    proof {
        assert(next_space(s, next_token(s, 0)) == i as int);
    }
    let ghost gap = next_space(s, next_token(s, 0));
    while i < len && cmd.get_char(i) == ' '
        invariant
            0 <= i <= len,
            len == s.len(),
            s == cmd@,
            gap == next_space(s, next_token(s, 0)),
            next_token(s, gap) == next_token(s, i as int),
        decreases len - i,
    {
        i += 1;
    }
    proof {
        assert(next_token(s, gap) == i as int);
    }
    if i >= len {
        return None;
    }
    let c = cmd.get_char(i);
    let single = i + 1 == len || cmd.get_char(i + 1) == ' ';
    proof {
        assert(next_space(s, i as int) == next_space(s, i as int + 1));
        if i as int + 1 == s.len() || s[i as int + 1] == ' ' {
            assert(next_space(s, i as int + 1) == i as int + 1);
        } else {
            lemma_next_space_bound(s, i as int + 1);
        }
    }
    if !single {
        return None;
    }
    if c == 'n' {
        Some(Direction::North)
    } else if c == 's' {
        Some(Direction::South)
    } else if c == 'e' {
        Some(Direction::East)
    } else if c == 'w' {
        Some(Direction::West)
    } else {
        None
    }
}

/// The first space at or after an index is no earlier than that index, and
/// strictly later when the index holds no space.
proof fn lemma_next_space_bound(s: Seq<char>, i: int)
    requires
        0 <= i <= s.len(),
    ensures
        next_space(s, i) >= i,
        i < s.len() && s[i] != ' ' ==> next_space(s, i) > i,
    decreases s.len() - i,
{
    if i < s.len() && s[i] != ' ' {
        lemma_next_space_bound(s, i + 1);
    }
}

} // verus!
