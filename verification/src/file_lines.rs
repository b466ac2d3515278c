//! The content of a file, tidied line by line, stands for the same graph
//! as the content itself.

use crate::dot_graph::{kept_ascii_lines, kept_lines, normalize, parse_document, tidy_lines};
use crate::round_trip::{
    lemma_empty_line, lemma_kept_lines_both, lemma_line_content_more, lemma_lines_crlf,
    lemma_lines_single, lemma_marks, text_lines,
};
use crate::statement::line_content;
use crate::text::{
    find, is_ascii_whitespace, is_whitespace, join, lemma_find, lemma_find_is, occurs_at, split,
    trim_ascii, trim_ascii_end, trim_ascii_start,
};
use crate::text_laws::{
    lemma_find_one, lemma_find_one_is, lemma_split_joined, lemma_split_longer, lemma_split_some,
    lemma_split_whole, lemma_trim_start_more,
};
use vstd::prelude::*;

verus! {

/// The white space of ASCII is white space, and no part of the mark that
/// opens a comment.
proof fn lemma_ascii_white(w: char)
    requires
        is_ascii_whitespace(w),
    ensures
        is_whitespace(w),
        w != '/',
{
}

/// White space before a line changes nothing of what the line holds.
proof fn lemma_line_content_before(line: Seq<char>, w: char)
    requires
        is_whitespace(w),
    ensures
        line_content(seq![w] + line) == line_content(line),
{
    lemma_marks();
    let longer = seq![w] + line;
    let mark = "//"@;
    lemma_find(line, mark);
    lemma_find(longer, mark);
    assert forall|j: int| occurs_at(longer, mark, j + 1) == occurs_at(line, mark, j) by {
        if 0 <= j && j + 2 <= line.len() {
            assert(longer.subrange(j + 1, j + 3) =~= line.subrange(j, j + 2));
        }
    }
    assert(!occurs_at(longer, mark, 0)) by {
        if longer.len() >= 2 {
            assert(longer.subrange(0, 2)[0] == longer[0]);
        }
    }
    match find(line, mark) {
        Some(p) => {
            assert(occurs_at(longer, mark, p + 1));
            assert forall|j: int| 0 <= j < p + 1 implies !occurs_at(longer, mark, j) by {
                if j > 0 {
                    assert(occurs_at(longer, mark, (j - 1) + 1) == occurs_at(line, mark, j - 1));
                }
            }
            lemma_find_is(longer, mark, p + 1);
            assert(longer.subrange(0, p + 1) =~= seq![w] + line.subrange(0, p));
            lemma_trim_start_more(line.subrange(0, p), w);
        },
        None => {
            if find(longer, mark) is Some {
                let i = find(longer, mark).unwrap();
                assert(occurs_at(longer, mark, (i - 1) + 1) == occurs_at(line, mark, i - 1));
            }
            lemma_trim_start_more(line, w);
        },
    }
}

/// One more character before a text, other than the separator, lengthens
/// its first piece and leaves the others.
proof fn lemma_split_prefixed(x: Seq<char>, c: char, more: char)
    requires
        more != c,
    ensures
        split(x, seq![c]).len() >= 1,
        split(seq![more] + x, seq![c]) == seq![seq![more] + split(x, seq![c])[0]] + split(
            x,
            seq![c],
        ).drop_first(),
{
    let sep = seq![c];
    let longer = seq![more] + x;
    lemma_split_some(x, sep);
    lemma_find_one(x, c);
    match find(x, sep) {
        Some(i) => {
            assert forall|j: int| 0 <= j < i + 1 implies #[trigger] longer[j] != c by {
                if j > 0 {
                    assert(longer[j] == x[j - 1]);
                }
            }
            assert(longer[i + 1] == x[i]);
            lemma_find_one_is(longer, c, i + 1);
            assert(longer.subrange(i + 2, longer.len() as int) =~= x.subrange(
                i + 1,
                x.len() as int,
            ));
            assert(longer.subrange(0, i + 1) =~= seq![more] + x.subrange(0, i));
            let tail = split(x.subrange(i + 1, x.len() as int), sep);
            assert(split(x, sep) =~= seq![x.subrange(0, i)] + tail);
            assert(split(x, sep).drop_first() =~= tail);
            assert(split(longer, sep) =~= seq![seq![more] + x.subrange(0, i)] + tail);
        },
        None => {
            assert forall|j: int| 0 <= j < longer.len() implies #[trigger] longer[j] != c by {
                if j > 0 {
                    assert(longer[j] == x[j - 1]);
                }
            }
            lemma_find_one(longer, c);
            assert(split(x, sep).drop_first() =~= Seq::empty());
            assert(split(longer, sep) =~= seq![seq![more] + split(x, sep)[0]] + split(
                x,
                sep,
            ).drop_first());
        },
    }
}

/// One line is kept if anything is left of it.
proof fn lemma_kept_single(line: Seq<char>)
    ensures
        kept_lines(seq![line]) == if line_content(line).len() == 0 {
            Seq::<Seq<char>>::empty()
        } else {
            seq![line_content(line)]
        },
{
    let lines = seq![line];
    assert(lines.drop_last() =~= Seq::empty());
    assert(kept_lines(lines.drop_last()) =~= Seq::empty());
    assert(lines.last() == line);
    if line_content(line).len() != 0 {
        assert(kept_lines(lines) =~= seq![line_content(line)]);
    }
}

/// ASCII white space before a text adds no line and changes none.
proof fn lemma_lines_before(x: Seq<char>, w: char)
    requires
        is_ascii_whitespace(w),
    ensures
        text_lines(seq![w] + x) == text_lines(x),
{
    lemma_marks();
    lemma_empty_line();
    lemma_ascii_white(w);
    let nothing = Seq::<char>::empty();
    if w == '\n' {
        assert(seq![w] + x =~= nothing + seq!['\n'] + x);
        lemma_split_joined(nothing, x, '\n');
        lemma_split_whole(nothing, '\n');
        lemma_kept_lines_both(seq![nothing], split(x, "\n"@));
        lemma_kept_single(nothing);
        assert(Seq::<Seq<char>>::empty() + text_lines(x) =~= text_lines(x));
    } else {
        lemma_split_prefixed(x, '\n', w);
        let lines = split(x, "\n"@);
        let first = lines[0];
        let others = lines.drop_first();
        assert(lines =~= seq![first] + others);
        lemma_kept_lines_both(seq![first], others);
        lemma_kept_lines_both(seq![seq![w] + first], others);
        lemma_kept_single(first);
        lemma_kept_single(seq![w] + first);
        lemma_line_content_before(first, w);
    }
}

/// ASCII white space behind a text adds no line and changes none.
proof fn lemma_lines_behind(x: Seq<char>, w: char)
    requires
        is_ascii_whitespace(w),
    ensures
        text_lines(x.push(w)) == text_lines(x),
{
    lemma_marks();
    lemma_empty_line();
    lemma_ascii_white(w);
    let nothing = Seq::<char>::empty();
    if w == '\n' {
        assert(x.push(w) =~= x + seq!['\n'] + nothing);
        lemma_split_joined(x, nothing, '\n');
        lemma_split_whole(nothing, '\n');
        lemma_kept_lines_both(split(x, "\n"@), seq![nothing]);
        lemma_kept_single(nothing);
        assert(text_lines(x) + Seq::<Seq<char>>::empty() =~= text_lines(x));
    } else {
        lemma_split_longer(x, '\n', w);
        let lines = split(x, "\n"@);
        let longer = lines.drop_last().push(lines.last().push(w));
        lemma_line_content_more(lines.last(), w);
        assert(longer.drop_last() =~= lines.drop_last());
        assert(longer.last() == lines.last().push(w));
        assert(kept_lines(longer) == kept_lines(lines));
    }
}

/// A text has the lines that it has without the ASCII white space at its
/// beginning.
proof fn lemma_lines_trim_start(x: Seq<char>)
    ensures
        text_lines(trim_ascii_start(x)) == text_lines(x),
    decreases x.len(),
{
    if x.len() > 0 && is_ascii_whitespace(x[0]) {
        lemma_lines_trim_start(x.drop_first());
        lemma_lines_before(x.drop_first(), x[0]);
        assert(seq![x[0]] + x.drop_first() =~= x);
    }
}

/// A text has the lines that it has without the ASCII white space at its
/// end.
proof fn lemma_lines_trim_end(x: Seq<char>)
    ensures
        text_lines(trim_ascii_end(x)) == text_lines(x),
    decreases x.len(),
{
    if x.len() > 0 && is_ascii_whitespace(x.last()) {
        lemma_lines_trim_end(x.drop_last());
        lemma_lines_behind(x.drop_last(), x.last());
        assert(x.drop_last().push(x.last()) =~= x);
    }
}

/// A text has the lines that it has without the ASCII white space around
/// it.
pub proof fn lemma_lines_trimmed(x: Seq<char>)
    ensures
        text_lines(trim_ascii(x)) == text_lines(x),
{
    lemma_lines_trim_start(x);
    lemma_lines_trim_end(trim_ascii_start(x));
}

/// The pieces joined, with one more piece before them: the piece and the
/// separator come before what the others give.
proof fn lemma_join_front(first: Seq<char>, others: Seq<Seq<char>>, sep: Seq<char>)
    requires
        others.len() >= 1,
    ensures
        join(seq![first] + others, sep) == first + sep + join(others, sep),
    decreases others.len(),
{
    let all = seq![first] + others;
    assert(all.drop_last() =~= seq![first] + others.drop_last());
    assert(all.last() == others.last());
    if others.len() == 1 {
        assert(all.drop_last() =~= seq![first]);
        assert(join(all.drop_last(), sep) == first);
    } else {
        lemma_join_front(first, others.drop_last(), sep);
        assert(join(all, sep) =~= first + sep + join(others, sep));
    }
}

/// The pieces of a text, joined by what separated them, are the text.
pub proof fn lemma_join_split(text: Seq<char>, sep: Seq<char>)
    ensures
        join(split(text, sep), sep) == text,
    decreases text.len(),
{
    if sep.len() > 0 {
        match find(text, sep) {
            Some(i) => {
                lemma_find(text, sep);
                let rest = text.subrange(i + sep.len(), text.len() as int);
                lemma_join_split(rest, sep);
                lemma_split_some(rest, sep);
                lemma_join_front(text.subrange(0, i), split(rest, sep), sep);
                assert(text.subrange(0, i) + sep + rest =~= text) by {
                    assert(text.subrange(i, i + sep.len()) == sep);
                }
            },
            None => {},
        }
    }
}

/// The lines of each of the parts, in order.
pub open spec fn lines_of_all(parts: Seq<Seq<char>>) -> Seq<Seq<char>>
    decreases parts.len(),
{
    if parts.len() == 0 {
        Seq::empty()
    } else {
        lines_of_all(parts.drop_last()) + text_lines(parts.last())
    }
}

/// Two texts with a line feed between them have the lines of the first
/// and then those of the second.
proof fn lemma_lines_lf(x: Seq<char>, y: Seq<char>)
    ensures
        text_lines(x + "\n"@ + y) == text_lines(x) + text_lines(y),
{
    lemma_marks();
    lemma_split_joined(x, y, '\n');
    lemma_kept_lines_both(split(x, "\n"@), split(y, "\n"@));
}

/// Parts joined by a line end have the lines of each part, in order.
proof fn lemma_lines_of_joined(parts: Seq<Seq<char>>, line_end: Seq<char>)
    requires
        line_end == "\n"@ || line_end == "\r\n"@,
    ensures
        text_lines(join(parts, line_end)) == lines_of_all(parts),
    decreases parts.len(),
{
    lemma_empty_line();
    if parts.len() == 0 {
        lemma_lines_single(Seq::empty());
    } else if parts.len() == 1 {
        assert(parts.drop_last() =~= Seq::empty());
        assert(lines_of_all(parts.drop_last()) =~= Seq::empty());
        assert(lines_of_all(parts) =~= text_lines(parts[0]));
    } else {
        lemma_lines_of_joined(parts.drop_last(), line_end);
        if line_end == "\n"@ {
            lemma_lines_lf(join(parts.drop_last(), line_end), parts.last());
        } else {
            lemma_lines_crlf(join(parts.drop_last(), line_end), parts.last());
        }
    }
}

/// The parts that are kept, each without the ASCII white space around it,
/// have between them the lines of all the parts.
proof fn lemma_lines_of_kept(parts: Seq<Seq<char>>)
    ensures
        lines_of_all(kept_ascii_lines(parts)) == lines_of_all(parts),
    decreases parts.len(),
{
    lemma_empty_line();
    if parts.len() > 0 {
        let before = parts.drop_last();
        let last = parts.last();
        lemma_lines_of_kept(before);
        lemma_lines_trimmed(last);
        if trim_ascii(last).len() == 0 {
            assert(trim_ascii(last) =~= Seq::empty());
            lemma_lines_single(Seq::empty());
            assert(lines_of_all(before) + text_lines(last) =~= lines_of_all(before));
        } else {
            let kept = kept_ascii_lines(before).push(trim_ascii(last));
            assert(kept.drop_last() =~= kept_ascii_lines(before));
            assert(kept.last() == trim_ascii(last));
        }
    }
}

/// Tidying the content of a file changes nothing of what is read from it:
/// the content, parted at line feeds or at carriage returns with line
/// feeds, each part without the ASCII white space around it and the empty
/// ones left out, stands for the same graph as the content itself, and is
/// refused where the content is, for the same reason.
pub proof fn lemma_tidy_lines(text: Seq<char>, line_end: Seq<char>)
    requires
        line_end == "\n"@ || line_end == "\r\n"@,
    ensures
        normalize(tidy_lines(text, line_end)) == normalize(text),
        parse_document(tidy_lines(text, line_end)) == parse_document(text),
{
    reveal_strlit("\n");
    reveal_strlit("\r\n");
    let parts = split(text, line_end);
    lemma_lines_of_joined(kept_ascii_lines(parts), "\r\n"@);
    lemma_lines_of_kept(parts);
    lemma_lines_of_joined(parts, line_end);
    lemma_join_split(text, line_end);
    assert(text_lines(tidy_lines(text, line_end)) == text_lines(text));
}

} // verus!
