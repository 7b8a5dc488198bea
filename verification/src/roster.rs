//! Reading the list of competitors from a text: one name on a line. Blank
//! space around a name is dropped, and so is a line that holds nothing else.

use crate::names::texts_of;
use vstd::prelude::*;

verus! {

/// The blank characters: those that Unicode marks as `White_Space`.
pub open spec fn is_space(c: char) -> bool {
    let code = c as u32;
    ||| 0x09 <= code <= 0x0D
    ||| code == 0x20
    ||| code == 0x85
    ||| code == 0xA0
    ||| code == 0x1680
    ||| 0x2000 <= code <= 0x200A
    ||| code == 0x2028
    ||| code == 0x2029
    ||| code == 0x202F
    ||| code == 0x205F
    ||| code == 0x3000
}

/// The line without the blank characters at its two ends.
pub open spec fn trimmed(line: Seq<char>) -> Seq<char>
    decreases line.len(),
{
    if line.len() == 0 {
        line
    } else if is_space(line.first()) {
        trimmed(line.drop_first())
    } else if is_space(line.last()) {
        trimmed(line.drop_last())
    } else {
        line
    }
}

/// The length of the first line: the place of the first line feed, or the
/// length of the text where it has none.
pub open spec fn first_break(text: Seq<char>) -> int
    decreases text.len(),
{
    if text.len() == 0 || text[0] == '\n' {
        0
    } else {
        1 + first_break(text.drop_first())
    }
}

/// The names that a text holds: its lines, trimmed, without the lines that
/// are empty then.
pub open spec fn names_in(text: Seq<char>) -> Seq<Seq<char>>
    decreases text.len(),
{
    if text.len() == 0 {
        Seq::empty()
    } else {
        let end = first_break(text);
        let name = trimmed(text.take(end));
        let rest = if 0 <= end < text.len() {
            text.skip(end + 1)
        } else {
            Seq::empty()
        };
        if name.len() > 0 {
            seq![name] + names_in(rest)
        } else {
            names_in(rest)
        }
    }
}

/// The first line ends at the first line feed.
pub proof fn lemma_first_break(text: Seq<char>, end: int)
    requires
        0 <= end <= text.len(),
        forall|i: int| 0 <= i < end ==> text[i] != '\n',
        end == text.len() || text[end] == '\n',
    ensures
        first_break(text) == end,
    decreases text.len(),
{
    if end > 0 {
        lemma_first_break(text.drop_first(), end - 1);
    }
}

/// A line of blank characters alone is trimmed to nothing.
pub proof fn lemma_trimmed_blank(line: Seq<char>)
    requires
        forall|i: int| 0 <= i < line.len() ==> is_space(line[i]),
    ensures
        trimmed(line).len() == 0,
    decreases line.len(),
{
    if line.len() > 0 {
        lemma_trimmed_blank(line.drop_first());
    }
}

/// Trimming keeps what stands between the first and the last character
/// that is not blank.
pub proof fn lemma_trimmed(line: Seq<char>, from: int, to: int)
    requires
        0 <= from < to <= line.len(),
        forall|i: int| 0 <= i < from ==> is_space(line[i]),
        forall|i: int| to <= i < line.len() ==> is_space(line[i]),
        !is_space(line[from]),
        !is_space(line[to - 1]),
    ensures
        trimmed(line) == line.subrange(from, to),
    decreases line.len(),
{
    if from > 0 {
        lemma_trimmed(line.drop_first(), from - 1, to - 1);
        assert(line.drop_first().subrange(from - 1, to - 1) =~= line.subrange(from, to));
    } else if to < line.len() {
        lemma_trimmed(line.drop_last(), from, to);
        assert(line.drop_last().subrange(from, to) =~= line.subrange(from, to));
    } else {
        assert(line.subrange(0, line.len() as int) =~= line);
    }
}

/// Executable form of `is_space`.
pub fn is_space_char(c: char) -> (blank: bool)
    ensures
        blank == is_space(c),
{
    let code: u32 = c as u32;
    (0x09 <= code && code <= 0x0D) || code == 0x20 || code == 0x85 || code == 0xA0 || code
        == 0x1680 || (0x2000 <= code && code <= 0x200A) || code == 0x2028 || code == 0x2029
        || code == 0x202F || code == 0x205F || code == 0x3000
}

/// The characters of a text, one by one.
fn chars_of(text: &str) -> (chars: Vec<char>)
    ensures
        chars@ == text@,
{
    let mut chars: Vec<char> = Vec::new();
    for c in it: text.chars()
        invariant
            it.seq() == text@,
            chars@ == text@.take(it.index() as int),
    {
        chars.push(c);
        assert(chars@ =~= text@.take(it.index() + 1));
    }
    assert(text@.take(text@.len() as int) =~= text@);
    chars
}

/// Reads the names of the competitors from a text that holds one name on a
/// line. The names come in the order of their lines.
pub fn parse_team_names(text: &str) -> (names: Vec<String>)
    ensures
        texts_of(names@) == names_in(text@),
{
    let chars = chars_of(text);
    let mut names: Vec<String> = Vec::new();
    let mut pos: usize = 0;
    assert(text@.skip(0) =~= text@);
    while pos < chars.len()
        invariant
            pos <= chars.len(),
            chars@ == text@,
            texts_of(names@) + names_in(text@.skip(pos as int)) == names_in(text@),
        decreases chars.len() - pos,
    {
        let ghost left = text@.skip(pos as int);
        let ghost before = texts_of(names@);
        let mut end: usize = pos;
        while end < chars.len() && chars[end] != '\n'
            invariant
                pos <= end <= chars.len(),
                forall|i: int| pos <= i < end ==> chars@[i] != '\n',
            decreases chars.len() - end,
        {
            end += 1;
        }
        let mut from: usize = pos;
        while from < end && is_space_char(chars[from])
            invariant
                pos <= from <= end <= chars.len(),
                forall|i: int| pos <= i < from ==> is_space(chars@[i]),
            decreases end - from,
        {
            from += 1;
        }
        let mut to: usize = end;
        while to > from && is_space_char(chars[to - 1])
            invariant
                from <= to <= end <= chars.len(),
                forall|i: int| to <= i < end ==> is_space(chars@[i]),
            decreases to - from,
        {
            to -= 1;
        }
        let ghost line = left.take(end - pos);
        proof {
            lemma_first_break(left, end - pos);
            assert(line =~= text@.subrange(pos as int, end as int));
            if from < to {
                lemma_trimmed(line, from - pos, to - pos);
                assert(line.subrange(from - pos, to - pos) =~= text@.subrange(
                    from as int,
                    to as int,
                ));
            } else {
                lemma_trimmed_blank(line);
            }
        }
        if from < to {
            let name = String::from_str(text.substring_char(from, to));
            names.push(name);
            assert(texts_of(names@) =~= before + seq![name@]);
        }
        let next: usize = if end < chars.len() {
            end + 1
        } else {
            end
        };
        proof {
            if end < chars.len() {
                assert(left.skip(end - pos + 1) =~= text@.skip(next as int));
            } else {
                assert(text@.skip(next as int) =~= Seq::<char>::empty());
            }
            assert(texts_of(names@) + names_in(text@.skip(next as int)) =~= before + names_in(
                left,
            ));
        }
        pos = next;
    }
    assert(texts_of(names@) + names_in(text@.skip(pos as int)) =~= texts_of(names@));
    names
}

} // verus!
