//! The log segment store's conventions: how a segment file is named, how a
//! message is written into it, and how a segment's token count is recovered
//! from its text.

use crate::gpt::{spec_estimate_tokens, CHARS_PER_TOKEN};
use crate::text::{
    append_chars, chars_of, decimal, decimal_chars, first_occurrence, lemma_decimal_round_trip,
    lemma_first_occurrence, lemma_first_occurrence_is, matches_at, occurs_at, parse_decimal,
    parse_usize, string_of,
};
use vstd::prelude::*;

verus! {

/// What a segment file's name starts with.
pub open spec fn name_prefix() -> Seq<char> {
    "messages_"@
}

/// What a segment file's name ends with.
pub open spec fn name_suffix() -> Seq<char> {
    ".txt"@
}

/// What stands before a message's text in its line.
pub open spec fn content_marker() -> Seq<char> {
    "content: "@
}

/// The line break that ends every entry.
pub open spec fn line_break() -> Seq<char> {
    seq!['\n']
}

/// The name of the file that holds the segment `index`.
pub open spec fn spec_segment_file_name(index: nat) -> Seq<char> {
    name_prefix() + decimal(index) + name_suffix()
}

/// `s` without any of the copies of `p` that it starts with.
pub open spec fn strip_prefix_all(s: Seq<char>, p: Seq<char>) -> Seq<char>
    decreases s.len(),
{
    if p.len() > 0 && occurs_at(s, p, 0) {
        strip_prefix_all(s.skip(p.len() as int), p)
    } else {
        s
    }
}

/// `s` without any of the copies of `p` that it ends with.
pub open spec fn strip_suffix_all(s: Seq<char>, p: Seq<char>) -> Seq<char>
    decreases s.len(),
{
    if p.len() > 0 && occurs_at(s, p, s.len() - p.len()) {
        strip_suffix_all(s.take(s.len() - p.len()), p)
    } else {
        s
    }
}

/// The segment index that a file name carries: the name starts with
/// `messages_` and ends with `.txt`, and what is left between them, once every
/// further copy of the two is taken away, is an unsigned decimal number that
/// fits in `usize`.
pub open spec fn spec_segment_index(name: Seq<char>) -> Option<usize> {
    if occurs_at(name, name_prefix(), 0) && occurs_at(
        name,
        name_suffix(),
        name.len() - name_suffix().len(),
    ) {
        match parse_decimal(strip_suffix_all(strip_prefix_all(name, name_prefix()), name_suffix())) {
            Some(n) => if n <= usize::MAX {
                Some(n as usize)
            } else {
                None
            },
            None => None,
        }
    } else {
        None
    }
}

/// Whether `needle` stands in `hay[from..to]` at `at`, is the same question
/// asked of that window alone.
pub proof fn lemma_occurs_in_window(
    hay: Seq<char>,
    needle: Seq<char>,
    from: int,
    to: int,
    at: int,
)
    requires
        0 <= from <= at,
        at + needle.len() <= to <= hay.len(),
    ensures
        occurs_at(hay.subrange(from, to), needle, at - from) == occurs_at(hay, needle, at),
{
    let window = hay.subrange(from, to);
    assert(window.subrange(at - from, at - from + needle.len()) == hay.subrange(
        at,
        at + needle.len(),
    ));
}

/// Builds the name of the file that holds the segment `index`:
/// `messages_<index>.txt`.
pub fn segment_file_name(index: usize) -> (name: String)
    ensures
        name@ == spec_segment_file_name(index as nat),
{
    let mut chars = chars_of("messages_");
    let digits = decimal_chars(index);
    append_chars(&mut chars, &digits);
    let suffix = chars_of(".txt");
    append_chars(&mut chars, &suffix);
    let name = string_of(&chars, 0, chars.len());
    assert(chars@.subrange(0, chars.len() as int) == chars@);
    name
}

/// Reads the segment index out of a file name, if the name is a segment's.
pub fn segment_index(name: &str) -> (r: Option<usize>)
    ensures
        r == spec_segment_index(name@),
{
    let chars = chars_of(name);
    let prefix = chars_of("messages_");
    let suffix = chars_of(".txt");
    proof {
        reveal_strlit("messages_");
        reveal_strlit(".txt");
    }
    let len = chars.len();
    if !matches_at(&chars, &prefix, 0) {
        return None;
    }
    if len < suffix.len() || !matches_at(&chars, &suffix, len - suffix.len()) {
        return None;
    }
    assert(chars@.subrange(0, len as int) == chars@);
    let mut a: usize = 0;
    while a <= len && matches_at(&chars, &prefix, a)
        invariant
            a <= len,
            len == chars.len(),
            prefix@ == name_prefix(),
            prefix@.len() == 9,
            strip_prefix_all(chars@, name_prefix()) == strip_prefix_all(
                chars@.subrange(a as int, len as int),
                name_prefix(),
            ),
            a + prefix@.len() > len ==> !occurs_at(
                chars@.subrange(a as int, len as int),
                name_prefix(),
                0,
            ),
        decreases len - a,
    {
        proof {
            lemma_occurs_in_window(chars@, prefix@, a as int, len as int, a as int);
            assert(chars@.subrange(a as int, len as int).skip(9) == chars@.subrange(
                a + 9,
                len as int,
            ));
        }
        a += prefix.len();
    }
    proof {
        if a + 9 <= len {
            lemma_occurs_in_window(chars@, prefix@, a as int, len as int, a as int);
        }
    }
    let ghost middle = chars@.subrange(a as int, len as int);
    let mut b: usize = len;
    while b - a >= suffix.len() && matches_at(&chars, &suffix, b - suffix.len())
        invariant
            a <= b <= len,
            len == chars.len(),
            suffix@ == name_suffix(),
            suffix@.len() == 4,
            middle == chars@.subrange(a as int, len as int),
            strip_suffix_all(middle, name_suffix()) == strip_suffix_all(
                chars@.subrange(a as int, b as int),
                name_suffix(),
            ),
        decreases b - a,
    {
        proof {
            lemma_occurs_in_window(chars@, suffix@, a as int, b as int, b - 4);
            assert(chars@.subrange(a as int, b as int).take(b - a - 4) == chars@.subrange(
                a as int,
                b - 4,
            ));
        }
        b -= suffix.len();
    }
    proof {
        if b - a >= 4 {
            lemma_occurs_in_window(chars@, suffix@, a as int, b as int, b - 4);
        }
        assert(strip_suffix_all(middle, name_suffix()) == chars@.subrange(a as int, b as int));
    }
    parse_usize(&chars, a, b)
}

/// The name that a segment is stored under carries that segment's index, and
/// no other.
pub proof fn lemma_segment_name_round_trip(index: usize)
    ensures
        spec_segment_index(spec_segment_file_name(index as nat)) == Some(index),
{
    reveal_strlit("messages_");
    reveal_strlit(".txt");
    lemma_decimal_round_trip(index as nat);
    let digits = decimal(index as nat);
    let name = spec_segment_file_name(index as nat);
    let p = name_prefix();
    let s = name_suffix();
    assert(name.subrange(0, 9) == p);
    assert(name.subrange(name.len() - 4, name.len() as int) == s);
    let after = name.skip(9);
    assert(after == digits + s);
    assert(after[0] == digits[0]);
    assert(crate::text::digit_value(digits[0]) is Some);
    assert(!occurs_at(after, p, 0)) by {
        if occurs_at(after, p, 0) {
            assert(after.subrange(0, 9)[0] == p[0]);
        }
    }
    assert(strip_prefix_all(after, p) == after);
    assert(strip_prefix_all(name, p) == after);
    assert(occurs_at(after, s, after.len() - 4)) by {
        assert(after.subrange(after.len() - 4, after.len() as int) == s);
    }
    assert(after.take(after.len() - 4) == digits);
    assert(crate::text::digit_value(digits.last()) is Some);
    assert(!occurs_at(digits, s, digits.len() - 4)) by {
        if occurs_at(digits, s, digits.len() - 4) {
            assert(digits.subrange(digits.len() - 4, digits.len() as int)[3] == s[3]);
        }
    }
    assert(strip_suffix_all(digits, s) == digits);
    assert(strip_suffix_all(after, s) == digits);
}

/// The line that records one message: its time stamp, its author and its text.
pub open spec fn spec_format_line(
    timestamp: Seq<char>,
    author: Seq<char>,
    content: Seq<char>,
) -> Seq<char> {
    line_head(timestamp, author) + content
}

/// What stands in a message's line before the marker of its text.
pub open spec fn line_intro(timestamp: Seq<char>, author: Seq<char>) -> Seq<char> {
    "timestamp: "@ + timestamp + ", author: "@ + author + ", "@
}

/// What stands in a message's line before its text.
pub open spec fn line_head(timestamp: Seq<char>, author: Seq<char>) -> Seq<char> {
    line_intro(timestamp, author) + content_marker()
}

/// The entry that is appended to a segment for one message: its line and a
/// line break.
pub open spec fn spec_format_entry(
    timestamp: Seq<char>,
    author: Seq<char>,
    content: Seq<char>,
) -> Seq<char> {
    spec_format_line(timestamp, author, content) + line_break()
}

/// Formats the entry that is appended to the active segment for one message:
/// `timestamp: <timestamp>, author: <author>, content: <content>` and a line
/// break.
pub fn format_entry(timestamp: &str, author: &str, content: &str) -> (entry: String)
    ensures
        entry@ == spec_format_entry(timestamp@, author@, content@),
{
    let mut entry = String::from_str("timestamp: ");
    entry.append(timestamp);
    entry.append(", author: ");
    entry.append(author);
    entry.append(", ");
    entry.append("content: ");
    entry.append(content);
    entry.append("\n");
    proof {
        reveal_strlit("\n");
        assert("\n"@ == line_break());
        assert(entry@ == spec_format_entry(timestamp@, author@, content@));
    }
    entry
}

/// The message text that a line of a segment holds: all that follows the
/// first `content: `, up to the line's end. A line without `content: ` holds
/// none.
pub open spec fn spec_line_content(line: Seq<char>) -> Option<Seq<char>> {
    match first_occurrence(line, content_marker(), 0) {
        None => None,
        Some(at) => Some(line.skip(at + content_marker().len())),
    }
}

/// The tokens that one line of a segment counts for.
pub open spec fn spec_line_tokens(line: Seq<char>) -> nat {
    match spec_line_content(line) {
        Some(content) => spec_estimate_tokens(content),
        None => 0,
    }
}

/// The token count of a segment, recovered from its text: the sum, over its
/// lines, of the estimate for the message text that each line holds.
pub open spec fn spec_replay_tokens(text: Seq<char>) -> nat
    decreases text.len(),
{
    if text.len() == 0 {
        0
    } else {
        match first_occurrence(text, line_break(), 0) {
            None => spec_line_tokens(text),
            Some(at) => if 0 <= at < text.len() {
                spec_line_tokens(text.take(at)) + spec_replay_tokens(text.skip(at + 1))
            } else {
                0
            },
        }
    }
}

/// Finds the first place in `hay[from..to]` where `needle` stands.
pub fn find_within(hay: &Vec<char>, needle: &Vec<char>, from: usize, to: usize) -> (r: Option<
    usize,
>)
    requires
        from <= to <= hay.len(),
    ensures
        match r {
            Some(at) => {
                &&& from <= at
                &&& at + needle.len() <= to
                &&& first_occurrence(hay@.subrange(from as int, to as int), needle@, 0) == Some(
                    at - from,
                )
            },
            None => first_occurrence(hay@.subrange(from as int, to as int), needle@, 0) is None,
        },
{
    let ghost window = hay@.subrange(from as int, to as int);
    if needle.len() > to - from {
        return None;
    }
    let last: usize = to - needle.len();
    let mut i: usize = from;
    loop
        invariant
            from <= i <= last,
            last == to - needle.len(),
            to <= hay.len(),
            window == hay@.subrange(from as int, to as int),
            first_occurrence(window, needle@, 0) == first_occurrence(window, needle@, i - from),
        decreases last - i,
    {
        proof {
            lemma_occurs_in_window(hay@, needle@, from as int, to as int, i as int);
        }
        if matches_at(hay, needle, i) {
            return Some(i);
        }
        if i == last {
            assert(first_occurrence(window, needle@, i + 1 - from) is None);
            return None;
        }
        i += 1;
    }
}

/// Counts the tokens of the line `chars[from..to]`.
pub fn line_tokens(chars: &Vec<char>, from: usize, to: usize, marker: &Vec<char>) -> (tokens: usize)
    requires
        from <= to <= chars.len(),
        marker@ == content_marker(),
    ensures
        tokens as nat == spec_line_tokens(chars@.subrange(from as int, to as int)),
        tokens <= to - from,
{
    let ghost line = chars@.subrange(from as int, to as int);
    match find_within(chars, marker, from, to) {
        None => 0,
        Some(at) => {
            let start: usize = at + marker.len();
            assert(line.skip(at - from + marker@.len()) == chars@.subrange(
                start as int,
                to as int,
            ));
            (to - start) / CHARS_PER_TOKEN
        },
    }
}

/// Recovers a segment's token count from its text, line by line.
pub fn replay_tokens(chars: &Vec<char>) -> (tokens: usize)
    ensures
        tokens as nat == spec_replay_tokens(chars@),
        tokens <= chars.len(),
{
    let marker = chars_of("content: ");
    let mut breaker: Vec<char> = Vec::new();
    breaker.push('\n');
    assert(breaker@ == line_break());
    let len = chars.len();
    let mut pos: usize = 0;
    let mut total: usize = 0;
    assert(chars@.subrange(0, len as int) == chars@);
    while pos < len
        invariant
            pos <= len,
            len == chars.len(),
            total <= pos,
            marker@ == content_marker(),
            breaker@ == line_break(),
            total + spec_replay_tokens(chars@.subrange(pos as int, len as int))
                == spec_replay_tokens(chars@),
        decreases len - pos,
    {
        let ghost text = chars@.subrange(pos as int, len as int);
        match find_within(chars, &breaker, pos, len) {
            None => {
                let t = line_tokens(chars, pos, len, &marker);
                total += t;
                pos = len;
                assert(chars@.subrange(len as int, len as int).len() == 0);
            },
            Some(at) => {
                assert(text.take(at - pos) == chars@.subrange(pos as int, at as int));
                assert(text.skip(at - pos + 1) == chars@.subrange(at + 1, len as int));
                let t = line_tokens(chars, pos, at, &marker);
                total += t;
                pos = at + 1;
            },
        }
    }
    total
}

/// A line break stands at `at` exactly where the character there is one.
pub proof fn lemma_break_at(text: Seq<char>, at: int)
    ensures
        occurs_at(text, line_break(), at) == (0 <= at < text.len() && text[at] == '\n'),
{
    if 0 <= at < text.len() {
        assert(text.subrange(at, at + 1) == seq![text[at]]);
        if text[at] != '\n' {
            assert(text.subrange(at, at + 1)[0] != line_break()[0]);
        }
    }
}

/// Whether a message can be read back from the line that records it: no
/// field holds a line break, and `content: ` occurs neither in the time
/// stamp nor in the author's name. The text may hold anything but a line
/// break.
pub open spec fn replayable(timestamp: Seq<char>, author: Seq<char>, content: Seq<char>) -> bool {
    &&& !timestamp.contains('\n')
    &&& !author.contains('\n')
    &&& !content.contains('\n')
    &&& forall|j: int| !occurs_at(timestamp, content_marker(), j)
    &&& forall|j: int| !occurs_at(author, content_marker(), j)
}

/// What stands before the text in the line of a message that can be read
/// back holds no line break, and `content: ` only at its end.
pub proof fn lemma_line_head_is_clean(timestamp: Seq<char>, author: Seq<char>)
    requires
        !timestamp.contains('\n'),
        !author.contains('\n'),
        forall|j: int| !occurs_at(timestamp, content_marker(), j),
        forall|j: int| !occurs_at(author, content_marker(), j),
    ensures
        !line_head(timestamp, author).contains('\n'),
        forall|j: int| !occurs_at(line_intro(timestamp, author), content_marker(), j),
{
    reveal_strlit("timestamp: ");
    reveal_strlit(", author: ");
    reveal_strlit(", ");
    reveal_strlit("content: ");
    let a = "timestamp: "@;
    let b = ", author: "@;
    let c = ", "@;
    let m = content_marker();
    let intro = line_intro(timestamp, author);
    let head = line_head(timestamp, author);
    let a1 = 11 + timestamp.len();
    let a2 = a1 + 10;
    let a3 = a2 + author.len();
    assert(intro.len() == a3 + 2);
    assert forall|j: int| 0 <= j < intro.len() implies intro[j] == (if j < 11 {
        a[j]
    } else if j < a1 {
        timestamp[j - 11]
    } else if j < a2 {
        b[j - a1]
    } else if j < a3 {
        author[j - a2]
    } else {
        c[j - a3]
    }) by {}
    assert forall|j: int| 0 <= j < head.len() implies head[j] != '\n' by {
        if j < intro.len() {
            assert(head[j] == intro[j]);
            if 11 <= j < a1 {
                assert(timestamp.contains(timestamp[j - 11]));
            } else if a2 <= j < a3 {
                assert(author.contains(author[j - a2]));
            }
        } else {
            assert(head[j] == m[j - intro.len()]);
        }
    }
    assert forall|j: int| !occurs_at(intro, m, j) by {
        if occurs_at(intro, m, j) {
            let found = intro.subrange(j, j + 9);
            assert(found[0] == intro[j]);
            if 11 <= j < a1 {
                if j + 9 <= a1 {
                    assert(timestamp.subrange(j - 11, j - 11 + 9) == found);
                    assert(occurs_at(timestamp, m, j - 11));
                } else {
                    assert(found[a1 - j] == intro[a1 as int]);
                }
            } else if a2 <= j < a3 {
                if j + 9 <= a3 {
                    assert(author.subrange(j - a2, j - a2 + 9) == found);
                    assert(occurs_at(author, m, j - a2));
                } else {
                    assert(found[a3 - j] == intro[a3 as int]);
                }
            }
        }
    }
}

/// The line of a message that can be read back holds the message's text,
/// whatever the text is, and no line break.
pub proof fn lemma_line_gives_content(timestamp: Seq<char>, author: Seq<char>, content: Seq<char>)
    requires
        replayable(timestamp, author, content),
    ensures
        spec_line_content(spec_format_line(timestamp, author, content)) == Some(content),
        !spec_format_line(timestamp, author, content).contains('\n'),
{
    reveal_strlit("content: ");
    lemma_line_head_is_clean(timestamp, author);
    let intro = line_intro(timestamp, author);
    let head = line_head(timestamp, author);
    let m = content_marker();
    let line = spec_format_line(timestamp, author, content);
    let at = intro.len() as int;
    assert(line == intro + m + content);
    assert(occurs_at(line, m, at)) by {
        assert(line.subrange(at, at + 9) == m);
    }
    assert forall|j: int| 0 <= j < at implies !occurs_at(line, m, j) by {
        if occurs_at(line, m, j) {
            if j + 9 <= at {
                assert(intro.subrange(j, j + 9) == line.subrange(j, j + 9));
                assert(occurs_at(intro, m, j));
            } else {
                let k = at - j;
                assert(line.subrange(j, j + 9)[k] == line[at]);
                assert(line[at] == m[0]);
                assert(m[k] == 'c');
            }
        }
    }
    lemma_first_occurrence_is(line, m, 0, at);
    assert(line.skip(at + 9) == content);
    assert forall|j: int| 0 <= j < line.len() implies line[j] != '\n' by {
        if j < head.len() {
            assert(line[j] == head[j]);
            assert(head.contains(head[j]));
        } else {
            assert(line[j] == content[j - head.len()]);
            assert(content.contains(content[j - head.len()]));
        }
    }
}

/// A segment that holds the entry of one message that can be read back counts
/// for the tokens of that message's text.
pub proof fn lemma_replay_of_entry(timestamp: Seq<char>, author: Seq<char>, content: Seq<char>)
    requires
        replayable(timestamp, author, content),
    ensures
        spec_replay_tokens(spec_format_entry(timestamp, author, content)) == spec_estimate_tokens(
            content,
        ),
{
    let line = spec_format_line(timestamp, author, content);
    let entry = spec_format_entry(timestamp, author, content);
    let at = line.len() as int;
    lemma_line_gives_content(timestamp, author, content);
    lemma_break_at(entry, at);
    assert forall|j: int| 0 <= j < at implies !occurs_at(entry, line_break(), j) by {
        lemma_break_at(entry, j);
        if entry[j] == '\n' {
            assert(line[j] == '\n');
            assert(line.contains(line[j]));
        }
    }
    lemma_first_occurrence_is(entry, line_break(), 0, at);
    assert(entry.take(at) == line);
    assert(entry.skip(at + 1).len() == 0);
    assert(spec_replay_tokens(entry.skip(at + 1)) == 0);
    assert(entry.len() > 0);
    assert(spec_replay_tokens(entry) == spec_line_tokens(entry.take(at)) + spec_replay_tokens(
        entry.skip(at + 1),
    ));
}

/// The count of a text that follows whole lines is added to theirs: where `a`
/// is empty or ends with a line break, the tokens recovered from `a` followed
/// by `b` are those of `a` and those of `b`.
pub proof fn lemma_replay_concat(a: Seq<char>, b: Seq<char>)
    requires
        a.len() == 0 || a.last() == '\n',
    ensures
        spec_replay_tokens(a + b) == spec_replay_tokens(a) + spec_replay_tokens(b),
    decreases a.len(),
{
    if a.len() == 0 {
        assert(a + b == b);
    } else {
        let whole = a + b;
        lemma_first_occurrence(a, line_break(), 0);
        lemma_break_at(a, a.len() - 1);
        let at = first_occurrence(a, line_break(), 0).unwrap();
        lemma_break_at(a, at);
        lemma_break_at(whole, at);
        assert forall|j: int| 0 <= j < at implies !occurs_at(whole, line_break(), j) by {
            lemma_break_at(whole, j);
            lemma_break_at(a, j);
        }
        lemma_first_occurrence_is(whole, line_break(), 0, at);
        assert(whole.take(at) == a.take(at));
        assert(whole.skip(at + 1) == a.skip(at + 1) + b);
        let tail = a.skip(at + 1);
        if tail.len() > 0 {
            assert(tail.last() == a.last());
        }
        lemma_replay_concat(tail, b);
    }
}

} // verus!
