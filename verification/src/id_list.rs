//! Identifier lists: plain text with one identifier per line.

use vstd::prelude::*;
use vstd::slice::slice_subrange;
use crate::text::{chars_of, string_of, trim_bounds, trimmed};

verus! {

/// The character that ends a line.
pub const LINE_FEED: char = '\n';

/// Length of the first line: the number of characters before the first line
/// feed, or the length of the text where it holds none.
pub open spec fn line_len(s: Seq<char>) -> nat
    decreases s.len(),
{
    if s.len() == 0 || s[0] == LINE_FEED {
        0
    } else {
        1 + line_len(s.skip(1))
    }
}

/// The identifiers that a text lists: each line with the white space taken
/// off both ends, in the lines' order, without the lines of which nothing is
/// left.
pub open spec fn id_lines(s: Seq<char>) -> Seq<Seq<char>>
    decreases s.len(),
{
    let n = line_len(s);
    let id = trimmed(s.take(n as int));
    let first = if id.len() > 0 {
        seq![id]
    } else {
        Seq::empty()
    };
    if n >= s.len() {
        first
    } else {
        first + id_lines(s.skip(n as int + 1))
    }
}

/// The text of each string.
pub open spec fn texts(strings: Seq<String>) -> Seq<Seq<char>> {
    Seq::new(strings.len(), |i: int| strings[i]@)
}

/// The first line ends where the first line feed stands.
proof fn lemma_line_len(s: Seq<char>, k: int)
    requires
        0 <= k <= s.len(),
        forall|i: int| 0 <= i < k ==> s[i] != LINE_FEED,
        k == s.len() || s[k] == LINE_FEED,
    ensures
        line_len(s) == k,
    decreases k,
{
    if k > 0 {
        let rest = s.skip(1);
        assert forall|i: int| 0 <= i < k - 1 implies rest[i] != LINE_FEED by {
            assert(rest[i] == s[i + 1]);
        }
        lemma_line_len(rest, k - 1);
    }
}

/// Reads an identifier list.
///
/// Every line gives one identifier: the line without the white space at its
/// ends. Lines that are empty or hold only white space give none. A line feed
/// ends a line; the last line need not have one.
pub fn parse_record_ids(text: &str) -> (id_list: Vec<String>)
    ensures
        texts(id_list@) == id_lines(text@),
{
    let chars = chars_of(text);
    let n = chars.len();
    let mut id_list: Vec<String> = Vec::new();
    let mut start: usize = 0;
    assert(chars@.skip(0) == chars@);
    assert(texts(id_list@) + id_lines(chars@) == id_lines(chars@));
    loop
        invariant_except_break
            texts(id_list@) + id_lines(chars@.skip(start as int)) == id_lines(chars@),
        invariant
            start <= n,
            n == chars@.len(),
            chars@ == text@,
        ensures
            texts(id_list@) == id_lines(chars@),
        decreases n - start,
    {
        let ghost rest = chars@.skip(start as int);
        let ghost before = texts(id_list@);
        let mut end = start;
        while end < n && chars[end] != LINE_FEED
            invariant
                start <= end <= n,
                n == chars@.len(),
                forall|i: int| start <= i < end ==> chars@[i] != LINE_FEED,
            decreases n - end,
        {
            end = end + 1;
        }
        proof {
            lemma_line_len(rest, end - start);
            assert(rest.take(end - start) == chars@.subrange(start as int, end as int));
            if end < n {
                assert(rest.skip(end - start + 1) == chars@.skip(end + 1));
            }
        }
        let (a, b) = trim_bounds(&chars, start, end);
        if a < b {
            let id = string_of(slice_subrange(chars.as_slice(), a, b));
            id_list.push(id);
            assert(texts(id_list@) == before + seq![id@]);
        }
        if end == n {
            break ;
        }
        start = end + 1;
    }
    id_list
}

} // verus!
