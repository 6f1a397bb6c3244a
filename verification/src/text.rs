//! Text as a sequence of characters: searching, replacing, trimming, joining.

use vstd::prelude::*;
use vstd::utf8::{encode_utf8, valid_utf8};

verus! {

/// `String::push`: the character is appended.
pub assume_specification[ String::push ](text: &mut String, c: char)
    ensures
        final(text)@ == old(text)@.push(c),
;

/// What the error of `String::from_utf8` says of bytes that are no text.
pub uninterp spec fn utf8_complaint(bytes: Seq<u8>) -> Seq<char>;

/// Calls `String::from_utf8`: the text that the bytes encode where they are valid
/// UTF-8, and otherwise an error. What the error displays depends on the bytes
/// alone; nothing is claimed of its wording.
#[verifier::external_body]
pub(crate) fn decoded(bytes: Vec<u8>) -> (text: Result<String, String>)
    ensures
        match text {
            Ok(chars) => valid_utf8(bytes@) && encode_utf8(chars@) == bytes@,
            Err(cause) => !valid_utf8(bytes@) && cause@ == utf8_complaint(bytes@),
        },
{
    String::from_utf8(bytes).map_err(|error| error.to_string())
}

/// Whether `pattern` occurs in `text` with its first character at `at`.
pub open spec fn occurs_at(text: Seq<char>, pattern: Seq<char>, at: int) -> bool {
    &&& 0 <= at
    &&& at + pattern.len() <= text.len()
    &&& text.subrange(at, at + pattern.len()) == pattern
}

/// Whether `pattern` occurs in `text`.
pub open spec fn occurs_in(text: Seq<char>, pattern: Seq<char>) -> bool {
    exists|at: int| occurs_at(text, pattern, at)
}

/// Whether `text` begins with `prefix`.
pub open spec fn begins(text: Seq<char>, prefix: Seq<char>) -> bool {
    occurs_at(text, prefix, 0)
}

/// `text` with every occurrence of `pattern`, taken from the left and without
/// overlaps, replaced by `with`.
pub open spec fn replaced(text: Seq<char>, pattern: Seq<char>, with: Seq<char>) -> Seq<char>
    decreases text.len(),
{
    if pattern.len() == 0 || text.len() == 0 {
        text
    } else if begins(text, pattern) {
        with + replaced(text.skip(pattern.len() as int), pattern, with)
    } else {
        seq![text[0]] + replaced(text.skip(1), pattern, with)
    }
}

/// The characters with the Unicode property `White_Space`.
pub open spec fn is_white_space(c: char) -> bool {
    ||| '\u{9}' <= c <= '\u{d}'
    ||| c == '\u{20}'
    ||| c == '\u{85}'
    ||| c == '\u{a0}'
    ||| c == '\u{1680}'
    ||| '\u{2000}' <= c <= '\u{200a}'
    ||| c == '\u{2028}'
    ||| c == '\u{2029}'
    ||| c == '\u{202f}'
    ||| c == '\u{205f}'
    ||| c == '\u{3000}'
}

/// `text` without the white space that it begins with.
pub open spec fn trimmed_start(text: Seq<char>) -> Seq<char>
    decreases text.len(),
{
    if text.len() > 0 && is_white_space(text[0]) {
        trimmed_start(text.skip(1))
    } else {
        text
    }
}

/// `text` without the white space that it ends with.
pub open spec fn trimmed_end(text: Seq<char>) -> Seq<char>
    decreases text.len(),
{
    if text.len() > 0 && is_white_space(text.last()) {
        trimmed_end(text.drop_last())
    } else {
        text
    }
}

/// `text` without the white space around it.
pub open spec fn trimmed(text: Seq<char>) -> Seq<char> {
    trimmed_end(trimmed_start(text))
}

/// The parts one after the other, with `separator` between each two.
pub open spec fn joined(parts: Seq<Seq<char>>, separator: Seq<char>) -> Seq<char>
    decreases parts.len(),
{
    if parts.len() == 0 {
        Seq::empty()
    } else if parts.len() == 1 {
        parts[0]
    } else {
        joined(parts.drop_last(), separator) + separator + parts.last()
    }
}

/// The texts of a list of strings.
pub open spec fn views(parts: Seq<String>) -> Seq<Seq<char>> {
    parts.map_values(|part: String| part@)
}

/// The text of an optional string slice.
pub open spec fn optional_view(text: Option<&str>) -> Option<Seq<char>> {
    match text {
        Some(chars) => Some(chars@),
        None => None,
    }
}

/// The text of an optional string.
pub open spec fn optional_text(text: Option<String>) -> Option<Seq<char>> {
    match text {
        Some(chars) => Some(chars@),
        None => None,
    }
}

/// The characters of `text`.
pub(crate) fn chars_of(text: &str) -> (chars: Vec<char>)
    ensures
        chars@ == text@,
{
    let mut chars: Vec<char> = Vec::new();
    for c in it: text.chars()
        invariant
            chars@ == it.seq().take(it.index()),
    {
        chars.push(c);
    }
    chars
}

/// The text made of the characters from `from` up to `to`.
pub(crate) fn text_of(chars: &Vec<char>, from: usize, to: usize) -> (text: String)
    requires
        from <= to <= chars@.len(),
    ensures
        text@ == chars@.subrange(from as int, to as int),
{
    let mut text = String::new();
    let mut i: usize = from;
    while i < to
        invariant
            from <= i <= to <= chars@.len(),
            text@ == chars@.subrange(from as int, i as int),
        decreases to - i,
    {
        text.push(chars[i]);
        i += 1;
    }
    text
}

/// Whether two texts are the same.
pub(crate) fn same_text(a: &str, b: &str) -> (same: bool)
    ensures
        same == (a@ == b@),
{
    a.to_owned() == b.to_owned()
}

/// One text after the other.
pub(crate) fn concat(a: &str, b: &str) -> (text: String)
    ensures
        text@ == a@ + b@,
{
    let mut text = a.to_owned();
    text.append(b);
    text
}

/// Three texts one after the other.
pub(crate) fn concat3(a: &str, b: &str, c: &str) -> (text: String)
    ensures
        text@ == a@ + b@ + c@,
{
    let mut text = a.to_owned();
    text.append(b);
    text.append(c);
    text
}

/// Whether `pattern` occurs in `text` at `at`.
fn pattern_at(text: &Vec<char>, pattern: &Vec<char>, at: usize) -> (found: bool)
    requires
        at <= text@.len(),
    ensures
        found == occurs_at(text@, pattern@, at as int),
{
    let length = text.len();
    if pattern.len() > length - at {
        return false;
    }
    let mut i: usize = 0;
    while i < pattern.len()
        invariant
            i <= pattern@.len(),
            at + pattern@.len() <= text@.len(),
            text@.len() == length,
            forall|j: int| 0 <= j < i ==> #[trigger] pattern@[j] == text@[at + j],
        decreases pattern@.len() - i,
    {
        if text[at + i] != pattern[i] {
            assert(text@.subrange(at as int, at + pattern@.len())[i as int] != pattern@[i as int]);
            return false;
        }
        i += 1;
    }
    assert(text@.subrange(at as int, at + pattern@.len()) =~= pattern@);
    true
}

/// Whether `text` begins with `prefix`.
pub(crate) fn starts_with(text: &str, prefix: &str) -> (found: bool)
    ensures
        found == begins(text@, prefix@),
{
    let chars = chars_of(text);
    let wanted = chars_of(prefix);
    pattern_at(&chars, &wanted, 0)
}

/// Whether `pattern` occurs in `text`.
pub(crate) fn contains(text: &str, pattern: &str) -> (found: bool)
    ensures
        found == occurs_in(text@, pattern@),
{
    let chars = chars_of(text);
    let wanted = chars_of(pattern);
    let mut at: usize = 0;
    loop
        invariant
            chars@ == text@,
            wanted@ == pattern@,
            at <= chars@.len(),
            forall|i: int| 0 <= i < at ==> !occurs_at(chars@, wanted@, i),
        decreases chars@.len() - at,
    {
        if pattern_at(&chars, &wanted, at) {
            return true;
        }
        if at == chars.len() {
            return false;
        }
        at += 1;
    }
}

/// `text` with every occurrence of `pattern` replaced by `with`.
pub(crate) fn replace(text: &str, pattern: &str, with: &str) -> (result: String)
    requires
        pattern@.len() > 0,
    ensures
        result@ == replaced(text@, pattern@, with@),
{
    let chars = chars_of(text);
    let wanted = chars_of(pattern);
    let mut result = String::new();
    let mut i: usize = 0;
    assert(chars@.skip(0) =~= chars@);
    while i < chars.len()
        invariant
            i <= chars@.len(),
            wanted@ == pattern@,
            wanted@.len() > 0,
            result@ + replaced(chars@.skip(i as int), wanted@, with@) == replaced(
                chars@,
                wanted@,
                with@,
            ),
        decreases chars@.len() - i,
    {
        let ghost rest = chars@.skip(i as int);
        let ghost before = result@;
        let found = pattern_at(&chars, &wanted, i);
        proof {
            if i + wanted@.len() <= chars@.len() {
                assert(rest.subrange(0, wanted@.len() as int) =~= chars@.subrange(
                    i as int,
                    i + wanted@.len(),
                ));
            }
            assert(found == begins(rest, wanted@));
        }
        if found {
            result.append(with);
            proof {
                assert(rest.skip(wanted@.len() as int) =~= chars@.skip(i + wanted@.len()));
                assert(before + (with@ + replaced(chars@.skip(i + wanted@.len()), wanted@, with@))
                    =~= result@ + replaced(chars@.skip(i + wanted@.len()), wanted@, with@));
            }
            i += wanted.len();
        } else {
            result.push(chars[i]);
            proof {
                assert(rest.skip(1) =~= chars@.skip(i + 1));
                assert(before + (seq![rest[0]] + replaced(chars@.skip(i + 1), wanted@, with@))
                    =~= result@ + replaced(chars@.skip(i + 1), wanted@, with@));
            }
            i += 1;
        }
    }
    assert(chars@.skip(i as int) =~= Seq::<char>::empty());
    assert(result@ + Seq::<char>::empty() =~= result@);
    result
}

fn white_space(c: char) -> (found: bool)
    ensures
        found == is_white_space(c),
{
    ('\u{9}' <= c && c <= '\u{d}') || c == '\u{20}' || c == '\u{85}' || c == '\u{a0}' || c
        == '\u{1680}' || ('\u{2000}' <= c && c <= '\u{200a}') || c == '\u{2028}' || c == '\u{2029}'
        || c == '\u{202f}' || c == '\u{205f}' || c == '\u{3000}'
}

/// `text` without the white space around it.
pub fn trim(text: &str) -> (result: String)
    ensures
        result@ == trimmed(text@),
{
    let chars = chars_of(text);
    let mut from: usize = 0;
    assert(chars@.skip(0) =~= chars@);
    while from < chars.len() && white_space(chars[from])
        invariant
            from <= chars@.len(),
            trimmed_start(chars@.skip(from as int)) == trimmed_start(chars@),
        decreases chars@.len() - from,
    {
        assert(chars@.skip(from as int).skip(1) =~= chars@.skip(from + 1));
        from += 1;
    }
    let ghost kept = chars@.skip(from as int);
    assert(trimmed_start(chars@) == kept);
    let mut to: usize = chars.len();
    assert(chars@.subrange(from as int, to as int) =~= kept);
    while from < to && white_space(chars[to - 1])
        invariant
            from <= to <= chars@.len(),
            trimmed_end(chars@.subrange(from as int, to as int)) == trimmed_end(kept),
        decreases to,
    {
        assert(chars@.subrange(from as int, to as int).drop_last() =~= chars@.subrange(
            from as int,
            to - 1,
        ));
        to -= 1;
    }
    text_of(&chars, from, to)
}

/// The position of the last `c` in `chars`.
pub(crate) fn last_position(chars: &Vec<char>, c: char) -> (position: Option<usize>)
    ensures
        match position {
            Some(at) => {
                &&& at < chars@.len()
                &&& chars@[at as int] == c
                &&& forall|i: int| at < i < chars@.len() ==> chars@[i] != c
            },
            None => !chars@.contains(c),
        },
{
    let mut end: usize = chars.len();
    while end > 0
        invariant
            end <= chars@.len(),
            forall|i: int| end <= i < chars@.len() ==> chars@[i] != c,
        decreases end,
    {
        end -= 1;
        if chars[end] == c {
            return Some(end);
        }
    }
    None
}

/// The parts one after the other, with `separator` between each two.
pub(crate) fn join(parts: &Vec<String>, separator: &str) -> (text: String)
    ensures
        text@ == joined(views(parts@), separator@),
{
    let mut text = String::new();
    let mut i: usize = 0;
    while i < parts.len()
        invariant
            i <= parts@.len(),
            text@ == joined(views(parts@).take(i as int), separator@),
        decreases parts@.len() - i,
    {
        let ghost next = views(parts@).take(i + 1);
        assert(next.drop_last() =~= views(parts@).take(i as int));
        if i > 0 {
            text.append(separator);
        }
        text.append(parts[i].as_str());
        proof {
            assert(next.last() == parts@[i as int]@);
            if i == 0 {
                assert(text@ =~= next[0]);
            }
        }
        i += 1;
    }
    assert(views(parts@).take(i as int) =~= views(parts@));
    text
}

/// A text holds a pattern exactly where it is something before the pattern, the
/// pattern, and something behind it.
pub proof fn law_pattern_occurs_between(text: Seq<char>, pattern: Seq<char>)
    ensures
        occurs_in(text, pattern) <==> exists|before: Seq<char>, after: Seq<char>|
            text == #[trigger] (before + pattern + after),
{
    if occurs_in(text, pattern) {
        let at = choose|at: int| occurs_at(text, pattern, at);
        let before = text.take(at);
        let after = text.skip(at + pattern.len());
        assert(text.subrange(at, at + pattern.len()) == pattern);
        assert(text =~= before + pattern + after);
    }
    if exists|before: Seq<char>, after: Seq<char>| text == #[trigger] (before + pattern + after) {
        let (before, after) = choose|before: Seq<char>, after: Seq<char>|
            text == #[trigger] (before + pattern + after);
        let at = before.len() as int;
        assert(text.subrange(at, at + pattern.len()) =~= pattern);
        assert(occurs_at(text, pattern, at));
    }
}

/// A text begins with a prefix exactly where it is the prefix and something
/// behind it.
pub proof fn law_prefix_comes_first(text: Seq<char>, prefix: Seq<char>)
    ensures
        begins(text, prefix) <==> exists|after: Seq<char>| text == #[trigger] (prefix + after),
{
    if begins(text, prefix) {
        assert(text.subrange(0, prefix.len() as int) == prefix);
        assert(text =~= prefix + text.skip(prefix.len() as int));
    }
    if exists|after: Seq<char>| text == #[trigger] (prefix + after) {
        let after = choose|after: Seq<char>| text == #[trigger] (prefix + after);
        assert(text.subrange(0, prefix.len() as int) =~= prefix);
    }
}

/// Where a pattern first occurs, what stands before it is kept, the pattern is
/// replaced, and what stands behind it is treated alike.
pub proof fn law_first_occurrence_is_replaced(
    text: Seq<char>,
    pattern: Seq<char>,
    with: Seq<char>,
    at: int,
)
    requires
        pattern.len() > 0,
        occurs_at(text, pattern, at),
        forall|i: int| 0 <= i < at ==> !occurs_at(text, pattern, i),
    ensures
        replaced(text, pattern, with) == text.take(at) + with + replaced(
            text.skip(at + pattern.len()),
            pattern,
            with,
        ),
    decreases at,
{
    let n = pattern.len() as int;
    if at == 0 {
        assert(text.take(0) + with =~= with);
    } else {
        let rest = text.skip(1);
        assert(!occurs_at(text, pattern, 0));
        assert(rest.subrange(at - 1, at - 1 + n) =~= text.subrange(at, at + n));
        assert forall|i: int| 0 <= i < at - 1 implies !occurs_at(rest, pattern, i) by {
            if occurs_at(rest, pattern, i) {
                assert(rest.subrange(i, i + n) =~= text.subrange(i + 1, i + 1 + n));
                assert(occurs_at(text, pattern, i + 1));
            }
        }
        law_first_occurrence_is_replaced(rest, pattern, with, at - 1);
        assert(rest.skip(at - 1 + n) =~= text.skip(at + n));
        assert(seq![text[0]] + (rest.take(at - 1) + with + replaced(text.skip(at + n), pattern, with))
            =~= text.take(at) + with + replaced(text.skip(at + n), pattern, with));
    }
}

/// A text that does not hold a pattern is kept.
pub proof fn law_nothing_else_is_replaced(text: Seq<char>, pattern: Seq<char>, with: Seq<char>)
    requires
        !occurs_in(text, pattern),
    ensures
        replaced(text, pattern, with) == text,
    decreases text.len(),
{
    if text.len() > 0 && pattern.len() > 0 {
        let rest = text.skip(1);
        let n = pattern.len() as int;
        assert(!occurs_at(text, pattern, 0));
        assert forall|at: int| !occurs_at(rest, pattern, at) by {
            if occurs_at(rest, pattern, at) {
                assert(rest.subrange(at, at + n) =~= text.subrange(at + 1, at + 1 + n));
                assert(occurs_at(text, pattern, at + 1));
            }
        }
        law_nothing_else_is_replaced(rest, pattern, with);
        assert(seq![text[0]] + rest =~= text);
    }
}

/// Replacing one character by another changes each of those characters and
/// nothing else.
pub proof fn law_character_is_replaced_everywhere(text: Seq<char>, from: char, to: char)
    ensures
        replaced(text, seq![from], seq![to]).len() == text.len(),
        forall|i: int|
            0 <= i < text.len() ==> #[trigger] replaced(text, seq![from], seq![to])[i] == if text[i]
                == from {
                to
            } else {
                text[i]
            },
    decreases text.len(),
{
    if text.len() > 0 {
        let rest = text.skip(1);
        let result = replaced(text, seq![from], seq![to]);
        law_character_is_replaced_everywhere(rest, from, to);
        assert(begins(text, seq![from]) <==> text[0] == from) by {
            assert(text.subrange(0, 1) =~= seq![text[0]]);
            assert(seq![text[0]][0] == text[0] && seq![from][0] == from);
        }
        let first = if text[0] == from {
            to
        } else {
            text[0]
        };
        assert(result =~= seq![first] + replaced(rest, seq![from], seq![to]));
        assert forall|i: int| 0 <= i < text.len() implies #[trigger] result[i] == if text[i]
            == from {
            to
        } else {
            text[i]
        } by {
            if i > 0 {
                assert(result[i] == replaced(rest, seq![from], seq![to])[i - 1]);
                assert(rest[i - 1] == text[i]);
            }
        }
    }
}

/// Whether a text is made of white space alone.
pub open spec fn is_blank(text: Seq<char>) -> bool {
    forall|i: int| 0 <= i < text.len() ==> is_white_space(#[trigger] text[i])
}

proof fn lemma_trimmed_start(text: Seq<char>)
    ensures
        trimmed_start(text).len() <= text.len(),
        trimmed_start(text) == text.skip(text.len() - trimmed_start(text).len()),
        is_blank(text.take(text.len() - trimmed_start(text).len())),
        trimmed_start(text).len() > 0 ==> !is_white_space(trimmed_start(text)[0]),
    decreases text.len(),
{
    if text.len() > 0 && is_white_space(text[0]) {
        let rest = text.skip(1);
        lemma_trimmed_start(rest);
        let kept = trimmed_start(text);
        let n = text.len() - kept.len();
        assert(rest.skip(n - 1) =~= text.skip(n));
        assert forall|i: int| 0 <= i < n implies is_white_space(#[trigger] text.take(n)[i]) by {
            if i > 0 {
                assert(rest.take(n - 1)[i - 1] == text[i]);
            }
        }
    } else {
        assert(text.skip(0) =~= text);
    }
}

proof fn lemma_trimmed_end(text: Seq<char>)
    ensures
        trimmed_end(text).len() <= text.len(),
        trimmed_end(text) == text.take(trimmed_end(text).len() as int),
        is_blank(text.skip(trimmed_end(text).len() as int)),
        trimmed_end(text).len() > 0 ==> !is_white_space(trimmed_end(text).last()),
    decreases text.len(),
{
    if text.len() > 0 && is_white_space(text.last()) {
        let rest = text.drop_last();
        lemma_trimmed_end(rest);
        let n = trimmed_end(text).len() as int;
        assert(rest.take(n) =~= text.take(n));
        assert forall|i: int| 0 <= i < text.len() - n implies is_white_space(
            #[trigger] text.skip(n)[i],
        ) by {
            if i < rest.len() - n {
                assert(rest.skip(n)[i] == text[i + n]);
            }
        }
    } else {
        assert(text.take(text.len() as int) =~= text);
        assert(text.skip(text.len() as int) =~= Seq::empty());
    }
}

/// Trimming takes away white space around a text and nothing else, and all of
/// it.
pub proof fn law_white_space_around_is_taken_away(text: Seq<char>)
    ensures
        exists|before: Seq<char>, after: Seq<char>|
            text == #[trigger] (before + trimmed(text) + after) && is_blank(before) && is_blank(
                after,
            ),
        trimmed(text).len() > 0 ==> !is_white_space(trimmed(text)[0]) && !is_white_space(
            trimmed(text).last(),
        ),
{
    let kept = trimmed_start(text);
    lemma_trimmed_start(text);
    lemma_trimmed_end(kept);
    let before = text.take(text.len() - kept.len());
    let after = kept.skip(trimmed(text).len() as int);
    assert(text =~= before + trimmed(text) + after);
    if trimmed(text).len() > 0 {
        assert(trimmed(text)[0] == kept[0]);
    }
}

/// A text is the same for a trim whatever white space stands around it.
pub proof fn law_white_space_plays_no_part(before: Seq<char>, text: Seq<char>, after: Seq<char>)
    requires
        is_blank(before),
        is_blank(after),
        text.len() > 0 ==> !is_white_space(text[0]) && !is_white_space(text.last()),
    ensures
        trimmed(before + text + after) == text,
    decreases before.len() + after.len(),
{
    let whole = before + text + after;
    if text.len() == 0 {
        lemma_trimmed_start(whole);
        lemma_trimmed_end(trimmed_start(whole));
        let kept = trimmed(whole);
        if kept.len() > 0 {
            let start = whole.len() - trimmed_start(whole).len();
            assert(kept[0] == whole[start]);
            assert(is_white_space(whole[start])) by {
                if start < before.len() {
                    assert(is_white_space(before[start]));
                } else {
                    assert(is_white_space(after[start - before.len()]));
                }
            }
        }
        assert(kept =~= text);
    } else if before.len() > 0 {
        assert(is_white_space(before[0]));
        assert forall|i: int| 0 <= i < before.skip(1).len() implies is_white_space(
            #[trigger] before.skip(1)[i],
        ) by {
            assert(is_white_space(before[i + 1]));
        }
        assert(whole.skip(1) =~= before.skip(1) + text + after);
        law_white_space_plays_no_part(before.skip(1), text, after);
    } else if after.len() > 0 {
        let shorter = after.drop_last();
        assert forall|i: int| 0 <= i < shorter.len() implies is_white_space(
            #[trigger] shorter[i],
        ) by {
            assert(is_white_space(after[i]));
        }
        law_white_space_plays_no_part(before, text, shorter);
        assert(whole[0] == text[0]);
        assert(whole.last() == after[after.len() - 1]);
        assert(whole.drop_last() =~= before + text + shorter);
        assert((before + text + shorter)[0] == text[0]);
    } else {
        assert(whole =~= text);
    }
}

/// Blanks, tabs and line ends are white space; no other ASCII character that is
/// printed is, and none beyond the ideographic space.
pub proof fn law_white_space_is_what_separates_words(c: char)
    ensures
        c == ' ' || c == '\t' || c == '\n' || c == '\r' ==> is_white_space(c),
        '!' <= c <= '~' ==> !is_white_space(c),
        c > '\u{3000}' ==> !is_white_space(c),
{
}

/// What stands between the occurrences of a character.
pub open spec fn cut(text: Seq<char>, c: char) -> Seq<Seq<char>>
    decreases text.len(),
{
    if text.len() == 0 {
        seq![Seq::empty()]
    } else {
        let pieces = cut(text.drop_last(), c);
        if text.last() == c {
            pieces.push(Seq::empty())
        } else {
            pieces.drop_last().push(pieces.last().push(text.last()))
        }
    }
}

proof fn lemma_cut_continued(text: Seq<char>, part: Seq<char>, c: char)
    requires
        !part.contains(c),
    ensures
        cut(text, c).len() > 0,
        cut(text + part, c) == cut(text, c).drop_last().push(cut(text, c).last() + part),
    decreases text.len() + part.len(),
{
    if part.len() == 0 {
        assert(text + part =~= text);
        if text.len() > 0 {
            lemma_cut_continued(text.drop_last(), Seq::empty(), c);
        }
        assert(cut(text, c).last() + part =~= cut(text, c).last());
        assert(cut(text, c).drop_last().push(cut(text, c).last()) =~= cut(text, c));
    } else {
        let shorter = part.drop_last();
        assert(part.contains(part[part.len() - 1]));
        assert forall|i: int| 0 <= i < shorter.len() implies shorter[i] != c by {
            assert(part.contains(part[i]));
        }
        lemma_cut_continued(text, shorter, c);
        assert((text + part).drop_last() =~= text + shorter);
        let pieces = cut(text, c);
        let before = cut(text + shorter, c);
        assert(before.drop_last() =~= pieces.drop_last());
        assert((pieces.last() + shorter).push(part.last()) =~= pieces.last() + part);
    }
}

/// A joined list is cut into its parts again, where none of them holds the
/// character that they are joined with.
pub proof fn law_joined_parts_are_cut_again(parts: Seq<Seq<char>>, c: char)
    requires
        parts.len() > 0,
        forall|i: int| 0 <= i < parts.len() ==> !(#[trigger] parts[i]).contains(c),
    ensures
        cut(joined(parts, seq![c]), c) == parts,
    decreases parts.len(),
{
    let text = joined(parts, seq![c]);
    let nothing = Seq::<char>::empty();
    if parts.len() == 1 {
        lemma_cut_continued(nothing, parts[0], c);
        assert(nothing + parts[0] =~= text);
        assert(nothing + parts[0] =~= parts[0]);
        assert(cut(nothing, c).drop_last() =~= Seq::empty());
        assert(cut(text, c) =~= parts);
    } else {
        let shorter = parts.drop_last();
        assert forall|i: int| 0 <= i < shorter.len() implies !(#[trigger] shorter[i]).contains(
            c,
        ) by {
            assert(!parts[i].contains(c));
        }
        law_joined_parts_are_cut_again(shorter, c);
        let front = joined(shorter, seq![c]);
        let opened = front + seq![c];
        assert(opened.drop_last() =~= front);
        assert(opened.last() == c);
        assert(!parts[parts.len() - 1].contains(c));
        lemma_cut_continued(opened, parts.last(), c);
        assert(cut(opened, c) == shorter.push(nothing));
        assert(shorter.push(nothing).drop_last() =~= shorter);
        assert(nothing + parts.last() =~= parts.last());
        assert(shorter.push(parts.last()) =~= parts);
    }
}

/// Whether a text ends with another.
pub open spec fn ends(text: Seq<char>, tail: Seq<char>) -> bool {
    tail.len() <= text.len() && text.skip(text.len() - tail.len()) == tail
}

/// What stands behind a text changes nothing of how it ends.
pub(crate) proof fn lemma_ends_behind(head: Seq<char>, text: Seq<char>, tail: Seq<char>)
    requires
        ends(text, tail),
    ensures
        ends(head + text, tail),
{
    assert((head + text).skip(head.len() + text.len() - tail.len()) =~= text.skip(
        text.len() - tail.len(),
    ));
}

} // verus!
