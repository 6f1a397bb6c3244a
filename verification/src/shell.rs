//! Commands shown to the user in a form that a shell reads back.

use vstd::prelude::*;

use crate::text::{
    begins, chars_of, concat, join, joined, law_nothing_else_is_replaced, occurs_at, replace,
    replaced, views,
};

verus! {

/// The characters that a shell takes as they are.
pub open spec fn is_plain(c: char) -> bool {
    ||| 'a' <= c <= 'z'
    ||| 'A' <= c <= 'Z'
    ||| '0' <= c <= '9'
    ||| c == '/' || c == '.' || c == '_' || c == '-' || c == ':' || c == '='
}

/// Whether a shell takes all of `segment` as it is.
pub open spec fn all_plain(segment: Seq<char>) -> bool {
    forall|i: int| 0 <= i < segment.len() ==> is_plain(#[trigger] segment[i])
}

/// How a segment is shown: as it is where that is safe, and otherwise between
/// single quotes, with each single quote of its own written as `'"'"'`.
pub open spec fn escaped(segment: Seq<char>) -> Seq<char> {
    if segment.len() == 0 {
        "''"@
    } else if all_plain(segment) {
        segment
    } else {
        "'"@ + replaced(segment, "'"@, "'\"'\"'"@) + "'"@
    }
}

/// How a list of segments is shown: each by itself, with blanks between them.
pub open spec fn shown(segments: Seq<Seq<char>>) -> Seq<char> {
    joined(segments.map_values(|segment: Seq<char>| escaped(segment)), " "@)
}

/// How a command is shown.
pub open spec fn command_text(program: Seq<char>, args: Seq<Seq<char>>) -> Seq<char> {
    shown(seq![program] + args)
}

/// The texts of a list of string slices.
pub open spec fn slice_views(args: Seq<&str>) -> Seq<Seq<char>> {
    args.map_values(|arg: &str| arg@)
}

fn plain(c: char) -> (found: bool)
    ensures
        found == is_plain(c),
{
    ('a' <= c && c <= 'z') || ('A' <= c && c <= 'Z') || ('0' <= c && c <= '9') || c == '/' || c
        == '.' || c == '_' || c == '-' || c == ':' || c == '='
}

/// One segment of a command, in a form that a shell reads back.
pub fn shell_escape(segment: &str) -> (result: String)
    ensures
        result@ == escaped(segment@),
{
    let chars = chars_of(segment);
    if chars.len() == 0 {
        return "''".to_owned();
    }
    let mut i: usize = 0;
    while i < chars.len()
        invariant
            i <= chars@.len(),
            chars@ == segment@,
            chars@.len() > 0,
            forall|j: int| 0 <= j < i ==> is_plain(#[trigger] chars@[j]),
        decreases chars@.len() - i,
    {
        if !plain(chars[i]) {
            proof {
                reveal_strlit("'");
            }
            let inner = replace(segment, "'", "'\"'\"'");
            return concat(concat("'", inner.as_str()).as_str(), "'");
        }
        i += 1;
    }
    segment.to_owned()
}

/// A program and its arguments, in a form that a shell reads back.
pub fn format_args_iter(program: &str, args: &[&str]) -> (result: String)
    ensures
        result@ == command_text(program@, slice_views(args@)),
{
    let mut parts: Vec<String> = Vec::new();
    parts.push(shell_escape(program));
    let ghost all = seq![program@] + slice_views(args@);
    let ghost wanted = all.map_values(|segment: Seq<char>| escaped(segment));
    let mut i: usize = 0;
    while i < args.len()
        invariant
            i <= args@.len(),
            all == seq![program@] + slice_views(args@),
            wanted == all.map_values(|segment: Seq<char>| escaped(segment)),
            views(parts@) =~= wanted.take(i + 1),
        decreases args@.len() - i,
    {
        let ghost before = views(parts@);
        parts.push(shell_escape(args[i]));
        proof {
            assert(all[i + 1] == slice_views(args@)[i as int]);
            assert(views(parts@) =~= before.push(escaped(args@[i as int]@)));
            assert(wanted.take(i + 2) =~= wanted.take(i + 1).push(wanted[i + 1]));
        }
        i += 1;
    }
    assert(wanted.take(i + 1) =~= wanted);
    join(&parts, " ")
}

/// A command whose arguments are owned strings.
pub fn format_command(program: &str, args: &[String]) -> (result: String)
    ensures
        result@ == command_text(program@, views(args@)),
{
    let mut slices: Vec<&str> = Vec::new();
    let mut i: usize = 0;
    while i < args.len()
        invariant
            i <= args@.len(),
            slice_views(slices@) =~= views(args@).take(i as int),
        decreases args@.len() - i,
    {
        let ghost before = slice_views(slices@);
        slices.push(args[i].as_str());
        proof {
            assert(slice_views(slices@) =~= before.push(args@[i as int]@));
            assert(views(args@).take(i + 1) =~= views(args@).take(i as int).push(
                args@[i as int]@,
            ));
        }
        i += 1;
    }
    assert(slice_views(slices@) =~= views(args@));
    format_args_iter(program, slices.as_slice())
}

/// A command whose arguments are string slices.
pub fn format_command_refs(program: &str, args: &[&str]) -> (result: String)
    ensures
        result@ == command_text(program@, slice_views(args@)),
{
    format_args_iter(program, args)
}

/// What a shell is inside of while it reads a line.
pub enum Quoting {
    Bare,
    Single,
    Double,
}

/// The words that a shell reads from the rest of a line, where `word` is the
/// word that it is in the middle of. Nothing where the line ends inside quotes
/// or holds a character that the shell would act on.
pub open spec fn read_words(
    line: Seq<char>,
    quoting: Quoting,
    word: Option<Seq<char>>,
) -> Option<Seq<Seq<char>>>
    decreases line.len(),
{
    let begun = match word {
        Some(chars) => chars,
        None => Seq::empty(),
    };
    if line.len() == 0 {
        match (quoting, word) {
            (Quoting::Bare, Some(chars)) => Some(seq![chars]),
            (Quoting::Bare, None) => Some(Seq::empty()),
            _ => None,
        }
    } else {
        let c = line[0];
        let rest = line.skip(1);
        match quoting {
            Quoting::Bare => if c == ' ' {
                match (word, read_words(rest, Quoting::Bare, None)) {
                    (Some(chars), Some(words)) => Some(seq![chars] + words),
                    (None, words) => words,
                    (Some(_), None) => None,
                }
            } else if c == '\'' {
                read_words(rest, Quoting::Single, Some(begun))
            } else if c == '"' {
                read_words(rest, Quoting::Double, Some(begun))
            } else if is_plain(c) {
                read_words(rest, Quoting::Bare, Some(begun.push(c)))
            } else {
                None
            },
            Quoting::Single => if c == '\'' {
                read_words(rest, Quoting::Bare, Some(begun))
            } else {
                read_words(rest, Quoting::Single, Some(begun.push(c)))
            },
            Quoting::Double => if c == '"' {
                read_words(rest, Quoting::Bare, Some(begun))
            } else if c == '$' || c == '`' || c == '\\' {
                None
            } else {
                read_words(rest, Quoting::Double, Some(begun.push(c)))
            },
        }
    }
}

/// The words that a shell reads from a line.
pub open spec fn shell_words(line: Seq<char>) -> Option<Seq<Seq<char>>> {
    read_words(line, Quoting::Bare, None)
}

proof fn lemma_read_plain(segment: Seq<char>, tail: Seq<char>, begun: Seq<char>)
    requires
        all_plain(segment),
    ensures
        read_words(segment + tail, Quoting::Bare, Some(begun)) == read_words(
            tail,
            Quoting::Bare,
            Some(begun + segment),
        ),
    decreases segment.len(),
{
    if segment.len() == 0 {
        assert(segment + tail =~= tail);
        assert(begun + segment =~= begun);
    } else {
        let line = segment + tail;
        let rest = segment.skip(1);
        assert(line.skip(1) =~= rest + tail);
        assert(is_plain(segment[0]));
        assert forall|i: int| 0 <= i < rest.len() implies is_plain(#[trigger] rest[i]) by {
            assert(is_plain(segment[i + 1]));
        }
        lemma_read_plain(rest, tail, begun.push(segment[0]));
        assert(begun.push(segment[0]) + rest =~= begun + segment);
    }
}

proof fn lemma_read_quoted(segment: Seq<char>, tail: Seq<char>, begun: Seq<char>)
    ensures
        read_words(
            replaced(segment, "'"@, "'\"'\"'"@) + ("'"@ + tail),
            Quoting::Single,
            Some(begun),
        ) == read_words(tail, Quoting::Bare, Some(begun + segment)),
    decreases segment.len(),
{
    reveal_strlit("'");
    reveal_strlit("'\"'\"'");
    let quote = "'"@;
    let end = quote + tail;
    assert(quote =~= seq!['\'']);
    if segment.len() == 0 {
        let line = replaced(segment, quote, "'\"'\"'"@) + end;
        assert(line =~= end);
        assert(line[0] == '\'');
        assert(line.skip(1) =~= tail);
        assert(begun + segment =~= begun);
    } else {
        let rest = segment.skip(1);
        let inner = replaced(rest, quote, "'\"'\"'"@);
        let line = replaced(segment, quote, "'\"'\"'"@) + end;
        lemma_read_quoted(rest, tail, begun.push(segment[0]));
        assert(begun.push(segment[0]) + rest =~= begun + segment);
        assert(begins(segment, quote) <==> segment[0] == '\'') by {
            assert(segment.subrange(0, 1) =~= seq![segment[0]]);
            if segment[0] != '\'' {
                assert(segment.subrange(0, 1)[0] != quote[0]);
            }
        }
        if segment[0] == '\'' {
            assert(line =~= "'\"'\"'"@ + (inner + end));
            let after = inner + end;
            let l1 = line.skip(1);
            let l2 = l1.skip(1);
            let l3 = l2.skip(1);
            let l4 = l3.skip(1);
            assert(l4.skip(1) =~= after);
            assert(line[0] == '\'' && l1[0] == '"' && l2[0] == '\'' && l3[0] == '"' && l4[0]
                == '\'');
            let more = begun.push('\'');
            assert(read_words(l4, Quoting::Bare, Some(more)) == read_words(
                after,
                Quoting::Single,
                Some(more),
            ));
            assert(read_words(l3, Quoting::Double, Some(more)) == read_words(
                l4,
                Quoting::Bare,
                Some(more),
            ));
            assert(read_words(l2, Quoting::Double, Some(begun)) == read_words(
                l3,
                Quoting::Double,
                Some(more),
            ));
            assert(read_words(l1, Quoting::Bare, Some(begun)) == read_words(
                l2,
                Quoting::Double,
                Some(begun),
            ));
        } else {
            assert(line =~= seq![segment[0]] + (inner + end));
            assert(line.skip(1) =~= inner + end);
        }
    }
}

proof fn lemma_read_escaped(segment: Seq<char>, tail: Seq<char>)
    ensures
        read_words(escaped(segment) + tail, Quoting::Bare, None) == read_words(
            tail,
            Quoting::Bare,
            Some(segment),
        ),
{
    reveal_strlit("'");
    reveal_strlit("''");
    let line = escaped(segment) + tail;
    let nothing = Seq::<char>::empty();
    if segment.len() == 0 {
        assert(line[0] == '\'');
        let l1 = line.skip(1);
        assert(l1[0] == '\'');
        assert(l1.skip(1) =~= tail);
        assert(read_words(l1, Quoting::Single, Some(nothing)) == read_words(
            tail,
            Quoting::Bare,
            Some(nothing),
        ));
        assert(segment =~= nothing);
    } else if all_plain(segment) {
        let rest = segment.skip(1);
        assert(is_plain(segment[0]));
        assert forall|i: int| 0 <= i < rest.len() implies is_plain(#[trigger] rest[i]) by {
            assert(is_plain(segment[i + 1]));
        }
        assert(line.skip(1) =~= rest + tail);
        lemma_read_plain(rest, tail, nothing.push(segment[0]));
        assert(nothing.push(segment[0]) + rest =~= segment);
    } else {
        let inner = replaced(segment, "'"@, "'\"'\"'"@);
        assert(line.skip(1) =~= inner + ("'"@ + tail));
        assert(line[0] == '\'');
        lemma_read_quoted(segment, tail, nothing);
        assert(nothing + segment =~= segment);
    }
}

proof fn lemma_joined_from_the_front(parts: Seq<Seq<char>>, separator: Seq<char>)
    requires
        parts.len() >= 2,
    ensures
        joined(parts, separator) == parts[0] + separator + joined(parts.skip(1), separator),
    decreases parts.len(),
{
    let rest = parts.skip(1);
    if parts.len() == 2 {
        assert(parts.drop_last().len() == 1);
        assert(joined(parts.drop_last(), separator) == parts[0]);
        assert(joined(rest, separator) == parts[1]);
    } else {
        lemma_joined_from_the_front(parts.drop_last(), separator);
        assert(parts.drop_last().skip(1) =~= rest.drop_last());
        assert(joined(parts, separator) =~= parts[0] + separator + joined(rest, separator));
    }
}

/// A shell that reads the shown form of a list of segments reads those
/// segments: each is one word, and none of them is changed.
pub proof fn law_shell_reads_back(segments: Seq<Seq<char>>)
    ensures
        shell_words(shown(segments)) == Some(segments),
    decreases segments.len(),
{
    reveal_strlit(" ");
    let parts = segments.map_values(|segment: Seq<char>| escaped(segment));
    if segments.len() == 0 {
        assert(segments =~= Seq::empty());
    } else if segments.len() == 1 {
        lemma_read_escaped(segments[0], Seq::empty());
        assert(escaped(segments[0]) + Seq::<char>::empty() =~= shown(segments));
        assert(segments =~= seq![segments[0]]);
    } else {
        let rest = segments.skip(1);
        law_shell_reads_back(rest);
        lemma_joined_from_the_front(parts, " "@);
        assert(parts.skip(1) =~= rest.map_values(|segment: Seq<char>| escaped(segment)));
        let tail = " "@ + shown(rest);
        assert(shown(segments) =~= escaped(segments[0]) + tail);
        lemma_read_escaped(segments[0], tail);
        assert(tail[0] == ' ');
        assert(tail.skip(1) =~= shown(rest));
        assert(seq![segments[0]] + rest =~= segments);
    }
}

proof fn lemma_quoting_only_adds(segment: Seq<char>)
    ensures
        replaced(segment, "'"@, "'\"'\"'"@).len() >= segment.len(),
    decreases segment.len(),
{
    reveal_strlit("'");
    reveal_strlit("'\"'\"'");
    if segment.len() > 0 {
        lemma_quoting_only_adds(segment.skip(1));
    }
}

/// A segment is shown as it is exactly where it is made of ASCII letters and
/// digits and a few marks that a shell takes for themselves, and of one at least.
pub proof fn law_plain_segment_is_shown_as_it_is(segment: Seq<char>)
    ensures
        escaped(segment) == segment <==> segment.len() > 0 && forall|i: int|
            0 <= i < segment.len() ==> {
                let c = #[trigger] segment[i];
                ||| 'a' <= c <= 'z' || 'A' <= c <= 'Z' || '0' <= c <= '9'
                ||| "/._-:="@.contains(c)
            },
{
    reveal_strlit("/._-:=");
    reveal_strlit("''");
    reveal_strlit("'");
    let marks = "/._-:="@;
    assert(marks[0] == '/' && marks[1] == '.' && marks[2] == '_' && marks[3] == '-' && marks[4]
        == ':' && marks[5] == '=');
    assert forall|c: char| marks.contains(c) <==> c == '/' || c == '.' || c == '_' || c == '-' || c
        == ':' || c == '=' by {
        if marks.contains(c) {
            let k = choose|k: int| 0 <= k < marks.len() && marks[k] == c;
            assert(k == 0 || k == 1 || k == 2 || k == 3 || k == 4 || k == 5);
        }
    }
    if segment.len() > 0 && !all_plain(segment) {
        lemma_quoting_only_adds(segment);
        assert(escaped(segment).len() > segment.len());
        let i = choose|i: int| 0 <= i < segment.len() && !is_plain(#[trigger] segment[i]);
        assert(!marks.contains(segment[i]));
    }
}

/// A segment that is not shown as it is stands between single quotes; one that
/// holds no single quote of its own stands there as it is.
pub proof fn law_quoted_segment_stands_between_quotes(segment: Seq<char>)
    requires
        escaped(segment) != segment,
    ensures
        escaped(segment).len() >= 2,
        escaped(segment)[0] == '\'',
        escaped(segment).last() == '\'',
        !segment.contains('\'') ==> escaped(segment) == seq!['\''] + segment + seq!['\''],
{
    reveal_strlit("'");
    reveal_strlit("''");
    if segment.len() == 0 {
        assert(escaped(segment) =~= seq!['\''] + segment + seq!['\'']);
    } else if !segment.contains('\'') {
        assert forall|at: int| !occurs_at(segment, "'"@, at) by {
            if occurs_at(segment, "'"@, at) {
                assert(segment.subrange(at, at + 1)[0] == '\'');
                assert(segment.contains(segment[at]));
            }
        }
        law_nothing_else_is_replaced(segment, "'"@, "'\"'\"'"@);
        assert(escaped(segment) =~= seq!['\''] + segment + seq!['\'']);
    }
}

} // verus!
