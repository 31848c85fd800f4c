//! Reading the target out of a request's first line.
use vstd::prelude::*;
use crate::text::{before_first, lemma_before_first_at, push_span};

verus! {

/// Unicode white space, as `char::is_whitespace` documents it.
pub open spec fn is_space(c: char) -> bool {
    let u = c as u32;
    ||| 0x09 <= u <= 0x0d
    ||| u == 0x20
    ||| u == 0x85
    ||| u == 0xa0
    ||| u == 0x1680
    ||| 0x2000 <= u <= 0x200a
    ||| u == 0x2028
    ||| u == 0x2029
    ||| u == 0x202f
    ||| u == 0x205f
    ||| u == 0x3000
}

/// Whether `c` is white space.
pub fn space(c: char) -> (r: bool)
    ensures
        r == is_space(c),
{
    let u = c as u32;
    (0x09 <= u && u <= 0x0d) || u == 0x20 || u == 0x85 || u == 0xa0 || u == 0x1680 || (0x2000
        <= u && u <= 0x200a) || u == 0x2028 || u == 0x2029 || u == 0x202f || u == 0x205f || u
        == 0x3000
}

/// The first index at or after `i` that holds no white space (or the length).
pub open spec fn skip_spaces(s: Seq<char>, i: int) -> int
    decreases s.len() - i,
{
    if i < 0 || i >= s.len() || !is_space(s[i]) {
        i
    } else {
        skip_spaces(s, i + 1)
    }
}

/// The first index at or after `i` that holds white space (or the length).
pub open spec fn skip_word(s: Seq<char>, i: int) -> int
    decreases s.len() - i,
{
    if i < 0 || i >= s.len() || is_space(s[i]) {
        i
    } else {
        skip_word(s, i + 1)
    }
}

/// The first line of a request: the text before its first line feed.
pub open spec fn first_line(request: Seq<char>) -> Seq<char> {
    before_first(request, '\n')
}

/// The request target: the second white-space-separated word of the first line,
/// if there is one.
pub open spec fn target_of(request: Seq<char>) -> Option<Seq<char>> {
    let line = first_line(request);
    let method_start = skip_spaces(line, 0);
    let method_end = skip_word(line, method_start);
    let start = skip_spaces(line, method_end);
    let end = skip_word(line, start);
    if start < end {
        Some(line.subrange(start, end))
    } else {
        None
    }
}

/// `skip_spaces` (or, with `word`, `skip_word`) over `s[..end]`, from `i`.
fn skip(s: &Vec<char>, end: usize, i: usize, word: bool) -> (r: usize)
    requires
        i <= end <= s@.len(),
    ensures
        i <= r <= end,
        r as int == if word {
            skip_word(s@.subrange(0, end as int), i as int)
        } else {
            skip_spaces(s@.subrange(0, end as int), i as int)
        },
{
    let ghost line = s@.subrange(0, end as int);
    let mut j: usize = i;
    while j < end && space(s[j]) != word
        invariant
            i <= j <= end <= s@.len(),
            line == s@.subrange(0, end as int),
            (if word {
                skip_word(line, i as int)
            } else {
                skip_spaces(line, i as int)
            }) == (if word {
                skip_word(line, j as int)
            } else {
                skip_spaces(line, j as int)
            }),
        decreases end - j,
    {
        assert(line[j as int] == s@[j as int]);
        j = j + 1;
    }
    if j < end {
        assert(line[j as int] == s@[j as int]);
    }
    j
}

/// The target of a request, or `None` when its first line has fewer than two
/// words.
pub fn request_target(request: &Vec<char>) -> (r: Option<Vec<char>>)
    ensures
        r matches Some(t) ==> target_of(request@) == Some(t@),
        r is None ==> target_of(request@) is None,
{
    let mut end: usize = 0;
    while end < request.len() && request[end] != '\n'
        invariant
            end <= request@.len(),
            forall|k: int| 0 <= k < end ==> request@[k] != '\n',
        decreases request@.len() - end,
    {
        end = end + 1;
    }
    proof { lemma_before_first_at(request@, '\n', end as int); }
    let method_start = skip(request, end, 0, false);
    let method_end = skip(request, end, method_start, true);
    let start = skip(request, end, method_end, false);
    let stop = skip(request, end, start, true);
    if start < stop {
        let mut t: Vec<char> = Vec::new();
        push_span(&mut t, request, start, stop);
        assert(t@ =~= request@.subrange(0, end as int).subrange(start as int, stop as int));
        Some(t)
    } else {
        None
    }
}

} // verus!
