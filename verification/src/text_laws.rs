//! What holds of searching, splitting and trimming when texts are put
//! together.

use crate::text::{
    contains, find, is_whitespace, join, lemma_find, lemma_find_is, occurs_at, split, trim,
    trim_end, trim_start,
};
use vstd::prelude::*;

verus! {

/// The character `c` stands nowhere in `s`.
pub open spec fn lacks(s: Seq<char>, c: char) -> bool {
    forall|i: int| 0 <= i < s.len() ==> #[trigger] s[i] != c
}

/// A pattern of one character stands where that character stands.
pub proof fn lemma_occurs_one(s: Seq<char>, c: char, i: int)
    ensures
        occurs_at(s, seq![c], i) <==> 0 <= i < s.len() && s[i] == c,
{
    if 0 <= i < s.len() {
        assert(s.subrange(i, i + 1)[0] == s[i]);
        if s[i] == c {
            assert(s.subrange(i, i + 1) =~= seq![c]);
        }
    }
}

/// A character is first found at the least position where it stands.
pub proof fn lemma_find_one(s: Seq<char>, c: char)
    ensures
        match find(s, seq![c]) {
            Some(i) => 0 <= i < s.len() && s[i] == c && forall|j: int|
                0 <= j < i ==> #[trigger] s[j] != c,
            None => lacks(s, c),
        },
{
    lemma_find(s, seq![c]);
    match find(s, seq![c]) {
        Some(i) => {
            lemma_occurs_one(s, c, i);
            assert forall|j: int| 0 <= j < i implies #[trigger] s[j] != c by {
                lemma_occurs_one(s, c, j);
            }
        },
        None => {
            assert forall|j: int| 0 <= j < s.len() implies #[trigger] s[j] != c by {
                lemma_occurs_one(s, c, j);
            }
        },
    }
}

/// A character that stands at `i` and nowhere before is first found at `i`.
pub proof fn lemma_find_one_is(s: Seq<char>, c: char, i: int)
    requires
        0 <= i < s.len(),
        s[i] == c,
        forall|j: int| 0 <= j < i ==> #[trigger] s[j] != c,
    ensures
        find(s, seq![c]) == Some(i),
{
    lemma_occurs_one(s, c, i);
    assert forall|j: int| 0 <= j < i implies !occurs_at(s, seq![c], j) by {
        lemma_occurs_one(s, c, j);
    }
    lemma_find_is(s, seq![c], i);
}

/// A text that lacks the separator is its own single piece.
pub proof fn lemma_split_whole(s: Seq<char>, c: char)
    requires
        lacks(s, c),
    ensures
        split(s, seq![c]) == seq![s],
{
    lemma_find_one(s, c);
}

/// The pieces of two texts put together around one separator are the
/// pieces of the first and then those of the second.
pub proof fn lemma_split_joined(x: Seq<char>, y: Seq<char>, c: char)
    ensures
        split(x + seq![c] + y, seq![c]) == split(x, seq![c]) + split(y, seq![c]),
    decreases x.len(),
{
    let sep = seq![c];
    let whole = x + sep + y;
    lemma_find_one(x, c);
    match find(x, sep) {
        Some(i) => {
            assert forall|j: int| 0 <= j < i implies #[trigger] whole[j] != c by {
                assert(whole[j] == x[j]);
            }
            assert(whole[i] == x[i]);
            lemma_find_one_is(whole, c, i);
            let rest = x.subrange(i + 1, x.len() as int);
            lemma_split_joined(rest, y, c);
            assert(whole.subrange(i + 1, whole.len() as int) =~= rest + sep + y);
            assert(whole.subrange(0, i) =~= x.subrange(0, i));
            assert(split(whole, sep) =~= split(x, sep) + split(y, sep));
        },
        None => {
            assert forall|j: int| 0 <= j < x.len() implies #[trigger] whole[j] != c by {
                assert(whole[j] == x[j]);
            }
            assert(whole[x.len() as int] == c);
            lemma_find_one_is(whole, c, x.len() as int);
            assert(whole.subrange(x.len() as int + 1, whole.len() as int) =~= y);
            assert(whole.subrange(0, x.len() as int) =~= x);
        },
    }
}

/// The pieces of a text are never none.
pub proof fn lemma_split_some(s: Seq<char>, sep: Seq<char>)
    ensures
        split(s, sep).len() >= 1,
    decreases s.len(),
{
    if sep.len() > 0 {
        match find(s, sep) {
            Some(i) => {
                lemma_find(s, sep);
                lemma_split_some(s.subrange(i + sep.len(), s.len() as int), sep);
            },
            None => {},
        }
    }
}

/// One more character behind a text, other than the separator, lengthens
/// its last piece and leaves the others.
pub proof fn lemma_split_longer(x: Seq<char>, c: char, more: char)
    requires
        more != c,
    ensures
        split(x, seq![c]).len() >= 1,
        split(x.push(more), seq![c]) == split(x, seq![c]).drop_last().push(
            split(x, seq![c]).last().push(more),
        ),
    decreases x.len(),
{
    let sep = seq![c];
    let whole = x.push(more);
    lemma_split_some(x, sep);
    lemma_find_one(x, c);
    match find(x, sep) {
        Some(i) => {
            assert forall|j: int| 0 <= j < i implies #[trigger] whole[j] != c by {
                assert(whole[j] == x[j]);
            }
            assert(whole[i] == x[i]);
            lemma_find_one_is(whole, c, i);
            let rest = x.subrange(i + 1, x.len() as int);
            lemma_split_longer(rest, c, more);
            assert(whole.subrange(i + 1, whole.len() as int) =~= rest.push(more));
            assert(whole.subrange(0, i) =~= x.subrange(0, i));
            let tail = split(rest, sep);
            assert(split(whole, sep) =~= seq![x.subrange(0, i)] + tail.drop_last().push(
                tail.last().push(more),
            ));
            assert(split(x, sep) =~= seq![x.subrange(0, i)] + tail);
            assert(split(whole, sep) =~= split(x, sep).drop_last().push(
                split(x, sep).last().push(more),
            ));
        },
        None => {
            assert forall|j: int| 0 <= j < whole.len() implies #[trigger] whole[j] != c by {
                if j < x.len() {
                    assert(whole[j] == x[j]);
                }
            }
            lemma_find_one(whole, c);
            assert(split(whole, sep) =~= split(x, sep).drop_last().push(
                split(x, sep).last().push(more),
            ));
        },
    }
}

/// A text that begins with no white space loses none at its beginning.
pub proof fn lemma_trim_start_none(s: Seq<char>)
    requires
        s.len() == 0 || !is_whitespace(s[0]),
    ensures
        trim_start(s) == s,
{
}

/// A text that ends with no white space loses none at its end.
pub proof fn lemma_trim_end_none(s: Seq<char>)
    requires
        s.len() == 0 || !is_whitespace(s.last()),
    ensures
        trim_end(s) == s,
{
}

/// White space behind a text is lost with the white space at its end.
pub proof fn lemma_trim_end_more(s: Seq<char>, w: char)
    requires
        is_whitespace(w),
    ensures
        trim_end(s.push(w)) == trim_end(s),
{
    assert(s.push(w).drop_last() =~= s);
}

/// White space before a text is lost with the white space at its
/// beginning.
pub proof fn lemma_trim_start_more(s: Seq<char>, w: char)
    requires
        is_whitespace(w),
    ensures
        trim_start(seq![w] + s) == trim_start(s),
{
    assert((seq![w] + s).drop_first() =~= s);
}

/// White space behind a text does not change what is left of it without
/// the white space around it.
pub proof fn lemma_trim_more(s: Seq<char>, w: char)
    requires
        is_whitespace(w),
    ensures
        trim(s.push(w)) == trim(s),
    decreases s.len(),
{
    if s.len() == 0 {
        assert(s.push(w).drop_first() =~= s);
    } else if is_whitespace(s[0]) {
        assert(s.push(w).drop_first() =~= s.drop_first().push(w));
        lemma_trim_more(s.drop_first(), w);
    } else {
        lemma_trim_end_more(s, w);
    }
}

/// A text that begins and ends with no white space is left whole.
pub proof fn lemma_trim_none(s: Seq<char>)
    requires
        s.len() == 0 || (!is_whitespace(s[0]) && !is_whitespace(s.last())),
    ensures
        trim(s) == s,
{
}

/// The pieces joined, with one more piece: the separator and the piece
/// come behind what was joined before.
pub proof fn lemma_join_push(parts: Seq<Seq<char>>, last: Seq<char>, sep: Seq<char>)
    ensures
        join(parts.push(last), sep) == if parts.len() == 0 {
            last
        } else {
            join(parts, sep) + sep + last
        },
{
    assert(parts.push(last).drop_last() =~= parts);
}

/// A pattern stands in neither of two texts, and the character between
/// them is none of the pattern's: then the pattern does not stand in the
/// two put together around that character.
pub proof fn lemma_lacks_across(x: Seq<char>, c: char, y: Seq<char>, pat: Seq<char>)
    requires
        !contains(x, pat),
        !contains(y, pat),
        lacks(pat, c),
    ensures
        !contains(x.push(c) + y, pat),
{
    let whole = x.push(c) + y;
    lemma_find(whole, pat);
    lemma_find(x, pat);
    lemma_find(y, pat);
    if contains(whole, pat) {
        let i = find(whole, pat).unwrap();
        let k = x.len() - i;
        if i + pat.len() <= x.len() {
            assert(whole.subrange(i, i + pat.len()) =~= x.subrange(i, i + pat.len()));
            assert(occurs_at(x, pat, i));
        } else if i > x.len() {
            let j = i - x.len() - 1;
            assert(whole.subrange(i, i + pat.len()) =~= y.subrange(j, j + pat.len()));
            assert(occurs_at(y, pat, j));
        } else {
            assert(whole.subrange(i, i + pat.len())[k] == whole[x.len() as int]);
            assert(pat[k] == c);
        }
    }
}

/// A pattern stands in neither of two texts, and the first character of
/// the second is none of the pattern's: then the pattern does not stand in
/// the two put together.
pub proof fn lemma_lacks_meeting(x: Seq<char>, y: Seq<char>, pat: Seq<char>)
    requires
        !contains(x, pat),
        !contains(y, pat),
        y.len() == 0 || lacks(pat, y[0]),
    ensures
        !contains(x + y, pat),
{
    let whole = x + y;
    lemma_find(whole, pat);
    lemma_find(x, pat);
    lemma_find(y, pat);
    if y.len() == 0 {
        assert(whole =~= x);
    } else if contains(whole, pat) {
        let i = find(whole, pat).unwrap();
        let k = x.len() - i;
        if i + pat.len() <= x.len() {
            assert(whole.subrange(i, i + pat.len()) =~= x.subrange(i, i + pat.len()));
            assert(occurs_at(x, pat, i));
        } else if i >= x.len() {
            let j = i - x.len();
            assert(whole.subrange(i, i + pat.len()) =~= y.subrange(j, j + pat.len()));
            assert(occurs_at(y, pat, j));
        } else {
            assert(whole.subrange(i, i + pat.len())[k] == whole[x.len() as int]);
            assert(pat[k] == y[0]);
        }
    }
}

/// Two texts that lack a character lack it together.
pub proof fn lemma_lacks_both(x: Seq<char>, y: Seq<char>, c: char)
    requires
        lacks(x, c),
        lacks(y, c),
    ensures
        lacks(x + y, c),
{
    let whole = x + y;
    assert forall|i: int| 0 <= i < whole.len() implies #[trigger] whole[i] != c by {
        if i < x.len() {
            assert(whole[i] == x[i]);
        } else {
            assert(whole[i] == y[i - x.len()]);
        }
    }
}

} // verus!
