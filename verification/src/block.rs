//! Blocks between braces, and where the nested blocks of a body stand.

use crate::parsing_error::{Failure, ParsingError};
use crate::text::{chars_of, find, find_in, lemma_find, subvec};
use vstd::prelude::*;

verus! {

/// The character is `{` or `}`.
pub open spec fn is_brace(c: char) -> bool {
    c == '{' || c == '}'
}

/// The position of the first brace of `s` at or after `from`.
pub open spec fn first_brace(s: Seq<char>, from: int) -> Option<int>
    decreases s.len() - from,
{
    if from < 0 || from >= s.len() {
        None
    } else if is_brace(s[from]) {
        Some(from)
    } else {
        first_brace(s, from + 1)
    }
}

/// The position, at or after `from`, of the closing brace that ends a
/// block when `open` braces are open at `from`.
pub open spec fn closing_brace(s: Seq<char>, from: int, open: int) -> Option<int>
    decreases s.len() - from,
{
    if from < 0 || from >= s.len() {
        None
    } else if s[from] == '{' {
        closing_brace(s, from + 1, open + 1)
    } else if s[from] == '}' {
        if open <= 1 {
            Some(from)
        } else {
            closing_brace(s, from + 1, open - 1)
        }
    } else {
        closing_brace(s, from + 1, open)
    }
}

/// The first block of `s`: the positions of its first opening brace and of
/// the closing brace that matches it. What stands before the first brace
/// does not count. A closing brace that comes first is one too many; a
/// text without a brace, or that ends inside the block, is unterminated.
pub open spec fn block_range(s: Seq<char>) -> Result<(int, int), Failure> {
    match first_brace(s, 0) {
        None => Err(Failure::UnterminatedBlock),
        Some(start) => if s[start] == '}' {
            Err(Failure::UnbalancedBraces)
        } else {
            match closing_brace(s, start + 1, 1) {
                Some(end) => Ok((start, end)),
                None => Err(Failure::UnterminatedBlock),
            }
        },
    }
}

/// How many more braces were opened than closed among the characters of
/// `s` from `from` up to, not including, `to`.
pub open spec fn depth(s: Seq<char>, from: int, to: int) -> int
    decreases to - from,
{
    if to <= from {
        0
    } else {
        depth(s, from, to - 1) + if s[to - 1] == '{' {
            1int
        } else if s[to - 1] == '}' {
            -1int
        } else {
            0int
        }
    }
}

/// `first_brace` gives the least position of a brace at or after `from`.
pub proof fn lemma_first_brace(s: Seq<char>, from: int)
    requires
        0 <= from,
    ensures
        match first_brace(s, from) {
            Some(i) => from <= i < s.len() && is_brace(s[i]) && forall|j: int|
                from <= j < i ==> !is_brace(#[trigger] s[j]),
            None => forall|j: int| from <= j < s.len() ==> !is_brace(#[trigger] s[j]),
        },
    decreases s.len() - from,
{
    if from < s.len() && !is_brace(s[from]) {
        lemma_first_brace(s, from + 1);
    }
}

/// `closing_brace` gives the first position where the nesting, `open` at
/// `from`, comes back to zero: there stands a closing brace, and at every
/// position before it the nesting is still positive.
pub proof fn lemma_closing_brace(s: Seq<char>, from: int, open: int)
    requires
        0 <= from,
        1 <= open,
    ensures
        match closing_brace(s, from, open) {
            Some(end) => from <= end < s.len() && s[end] == '}' && open + depth(s, from, end + 1)
                == 0 && forall|k: int| from <= k <= end ==> open + #[trigger] depth(s, from, k) > 0,
            None => forall|k: int| from <= k <= s.len() ==> open + #[trigger] depth(s, from, k) > 0,
        },
    decreases s.len() - from,
{
    if from < s.len() {
        let step = if s[from] == '{' {
            1int
        } else if s[from] == '}' {
            -1int
        } else {
            0int
        };
        assert(depth(s, from, from) == 0);
        assert(depth(s, from, from + 1) == step);
        assert forall|k: int| from + 1 <= k <= s.len() implies #[trigger] depth(s, from, k) == step
            + depth(s, from + 1, k) by {
            lemma_depth_split(s, from, from + 1, k);
        }
        if s[from] == '}' && open <= 1 {
        } else {
            lemma_closing_brace(s, from + 1, open + step);
            match closing_brace(s, from + 1, open + step) {
                Some(end) => {
                    assert forall|k: int| from <= k <= end implies open + #[trigger] depth(
                        s,
                        from,
                        k,
                    ) > 0 by {
                        if k > from {
                            assert(open + step + depth(s, from + 1, k) > 0);
                        }
                    }
                },
                None => {
                    assert forall|k: int| from <= k <= s.len() implies open + #[trigger] depth(
                        s,
                        from,
                        k,
                    ) > 0 by {
                        if k > from {
                            assert(open + step + depth(s, from + 1, k) > 0);
                        }
                    }
                },
            }
        }
    } else {
        assert forall|k: int| from <= k <= s.len() implies open + #[trigger] depth(s, from, k)
            > 0 by {}
    }
}

/// The nesting over a stretch is the sum of the nestings over its parts.
pub proof fn lemma_depth_split(s: Seq<char>, from: int, mid: int, to: int)
    requires
        from <= mid <= to,
    ensures
        depth(s, from, to) == depth(s, from, mid) + depth(s, mid, to),
    decreases to - mid,
{
    if mid < to {
        lemma_depth_split(s, from, mid, to - 1);
    }
}

/// What `block_range` accepts and what it refuses, stated over the nesting
/// of braces: the block begins at the first brace of the text, which opens;
/// it ends at the first position after which as many braces were closed as
/// opened.
pub proof fn lemma_block_range(s: Seq<char>)
    ensures
        match block_range(s) {
            Ok((start, end)) => {
                &&& 0 <= start < end < s.len()
                &&& s[start] == '{'
                &&& s[end] == '}'
                &&& forall|j: int| 0 <= j < start ==> !is_brace(#[trigger] s[j])
                &&& depth(s, start, end + 1) == 0
                &&& forall|k: int| start < k <= end ==> #[trigger] depth(s, start, k) > 0
            },
            Err(Failure::UnbalancedBraces) => exists|i: int|
                0 <= i < s.len() && #[trigger] s[i] == '}' && forall|j: int|
                    0 <= j < i ==> !is_brace(#[trigger] s[j]),
            Err(Failure::UnterminatedBlock) => {
                ||| forall|j: int| 0 <= j < s.len() ==> !is_brace(#[trigger] s[j])
                ||| exists|i: int|
                    0 <= i < s.len() && #[trigger] s[i] == '{' && (forall|j: int|
                        0 <= j < i ==> !is_brace(#[trigger] s[j])) && forall|k: int|
                        i < k <= s.len() ==> #[trigger] depth(s, i, k) > 0
            },
            Err(_) => false,
        },
{
    lemma_first_brace(s, 0);
    match first_brace(s, 0) {
        None => {},
        Some(start) => {
            if s[start] == '}' {
                assert(s[start] == '}');
            } else {
                lemma_closing_brace(s, start + 1, 1);
                assert(depth(s, start, start) == 0);
                assert(depth(s, start, start + 1) == 1);
                assert forall|k: int| start + 1 <= k <= s.len() implies #[trigger] depth(
                    s,
                    start,
                    k,
                ) == 1 + depth(s, start + 1, k) by {
                    lemma_depth_split(s, start, start + 1, k);
                }
                match closing_brace(s, start + 1, 1) {
                    Some(end) => {
                        assert forall|k: int| start < k <= end implies #[trigger] depth(
                            s,
                            start,
                            k,
                        ) > 0 by {
                            assert(1 + depth(s, start + 1, k) > 0);
                        }
                    },
                    None => {
                        assert(s[start] == '{');
                        assert forall|k: int| start < k <= s.len() implies #[trigger] depth(
                            s,
                            start,
                            k,
                        ) > 0 by {
                            assert(1 + depth(s, start + 1, k) > 0);
                        }
                    },
                }
            }
        },
    }
}

/// The word that opens a nested block.
pub open spec fn subgraph_keyword() -> Seq<char> {
    "subgraph"@
}

/// The nested blocks of `s`, each as the positions of the first character
/// of its keyword and of its closing brace, both counted from `base`
/// characters before the beginning of `s`. The keyword is looked for in
/// what follows the block found before, and the block is the first one of
/// that same text, so that a keyword inside a block is passed over.
pub open spec fn subgraph_positions(s: Seq<char>, base: int) -> Result<Seq<(int, int)>, Failure>
    decreases s.len(),
{
    match find(s, subgraph_keyword()) {
        None => Ok(Seq::empty()),
        Some(start) => match block_range(s) {
            Err(e) => Err(e),
            Ok((_, end)) => {
                proof {
                    lemma_block_range(s);
                }
                match subgraph_positions(s.subrange(end + 1, s.len() as int), base + end + 1) {
                    Err(e) => Err(e),
                    Ok(rest) => Ok(seq![(base + start, base + end)] + rest),
                }
            },
        },
    }
}

/// The pairs of `v` as pairs of integers.
pub open spec fn spans(v: Seq<(usize, usize)>) -> Seq<(int, int)> {
    Seq::new(v.len(), |i: int| (v[i].0 as int, v[i].1 as int))
}

/// Every position that `subgraph_positions` gives lies in the text, and
/// each block begins after the end of the one before.
pub proof fn lemma_subgraph_positions(s: Seq<char>, base: int)
    ensures
        match subgraph_positions(s, base) {
            Ok(found) => {
                &&& forall|i: int|
                    0 <= i < found.len() ==> base <= (#[trigger] found[i]).0 < base + s.len()
                        && base <= found[i].1 < base + s.len()
                &&& forall|i: int, j: int|
                    0 <= i < j < found.len() ==> (#[trigger] found[i]).1 < (#[trigger] found[j]).0
                        && found[i].1 < found[j].1
            },
            Err(_) => true,
        },
    decreases s.len(),
{
    match find(s, subgraph_keyword()) {
        None => {},
        Some(start) => {
            lemma_find(s, subgraph_keyword());
            assert(subgraph_keyword().len() > 0) by {
                reveal_strlit("subgraph");
            }
            match block_range(s) {
                Err(e) => {},
                Ok((_, end)) => {
                    lemma_block_range(s);
                    let rest_text = s.subrange(end + 1, s.len() as int);
                    lemma_subgraph_positions(rest_text, base + end + 1);
                    match subgraph_positions(rest_text, base + end + 1) {
                        Err(e) => {},
                        Ok(rest) => {
                            let found = seq![(base + start, base + end)] + rest;
                            assert forall|i: int| 0 <= i < found.len() implies base <= (
                            #[trigger] found[i]).0 < base + s.len() && base <= found[i].1 < base
                                + s.len() by {
                                if i > 0 {
                                    assert(found[i] == rest[i - 1]);
                                }
                            }
                            assert forall|i: int, j: int| 0 <= i < j < found.len() implies (
                            #[trigger] found[i]).1 < (#[trigger] found[j]).0 && found[i].1
                                < found[j].1 by {
                                assert(found[j] == rest[j - 1]);
                                if i > 0 {
                                    assert(found[i] == rest[i - 1]);
                                }
                            }
                        },
                    }
                },
            }
        },
    }
}

/// Finds the first block of `s`.
pub fn block_range_in(s: &Vec<char>) -> (r: Result<(usize, usize), ParsingError>)
    ensures
        match r {
            Ok((start, end)) => block_range(s@) == Ok::<_, Failure>((start as int, end as int))
                && start < end < s.len(),
            Err(e) => block_range(s@) == Err::<(int, int), _>(e@),
        },
{
    let n: usize = s.len();
    let mut start: usize = 0;
    while start < n && s[start] != '{' && s[start] != '}'
        invariant
            start <= n == s.len(),
            first_brace(s@, 0) == first_brace(s@, start as int),
        decreases n - start,
    {
        start += 1;
    }
    if start == n {
        return Err(ParsingError::UnterminatedBlock);
    }
    if s[start] == '}' {
        return Err(ParsingError::UnbalancedBraces);
    }
    let mut open: usize = 1;
    let mut i: usize = start + 1;
    while i < n
        invariant
            start < i <= n == s.len(),
            1 <= open <= i,
            first_brace(s@, 0) == Some(start as int),
            s@[start as int] == '{',
            closing_brace(s@, start + 1, 1) == closing_brace(s@, i as int, open as int),
        decreases n - i,
    {
        if s[i] == '{' {
            open += 1;
        } else if s[i] == '}' {
            if open == 1 {
                return Ok((start, i));
            }
            open -= 1;
        }
        i += 1;
    }
    Err(ParsingError::UnterminatedBlock)
}

/// Finds the first block of `block`: the positions, counted in characters,
/// of its first opening brace and of the closing brace that matches it.
pub fn next_block_range(block: &str) -> (r: Result<(usize, usize), ParsingError>)
    ensures
        match r {
            Ok((start, end)) => block_range(block@) == Ok::<_, Failure>(
                (start as int, end as int),
            ),
            Err(e) => block_range(block@) == Err::<(int, int), _>(e@),
        },
{
    block_range_in(&chars_of(block))
}

/// Finds the nested blocks of `s`, with positions counted from `base`
/// characters before its beginning.
fn positions_from(s: &Vec<char>, base: usize) -> (r: Result<Vec<(usize, usize)>, ParsingError>)
    requires
        base + s.len() <= usize::MAX,
    ensures
        match r {
            Ok(v) => subgraph_positions(s@, base as int) == Ok::<_, Failure>(spans(v@)),
            Err(e) => subgraph_positions(s@, base as int) == Err::<Seq<(int, int)>, _>(e@),
        },
    decreases s.len(),
{
    let keyword = chars_of("subgraph");
    match find_in(s, &keyword) {
        None => {
            let v: Vec<(usize, usize)> = Vec::new();
            assert(spans(v@) =~= Seq::empty());
            Ok(v)
        },
        Some(start) => {
            proof {
                lemma_find(s@, keyword@);
            }
            match block_range_in(s) {
                Err(e) => Err(e),
                Ok((_, end)) => {
                    let rest_text = subvec(s, end + 1, s.len());
                    match positions_from(&rest_text, base + end + 1) {
                        Err(e) => Err(e),
                        Ok(rest) => {
                            let mut v: Vec<(usize, usize)> = Vec::new();
                            v.push((base + start, base + end));
                            let mut i: usize = 0;
                            while i < rest.len()
                                invariant
                                    i <= rest.len(),
                                    v@ == seq![((base + start) as usize, (base + end) as usize)]
                                        + rest@.take(i as int),
                                decreases rest.len() - i,
                            {
                                v.push(rest[i]);
                                assert(rest@.take(i + 1) =~= rest@.take(i as int).push(
                                    rest@[i as int],
                                ));
                                i += 1;
                            }
                            assert(rest@.take(i as int) =~= rest@);
                            assert(spans(v@) =~= seq![(base + start, base + end)] + spans(rest@));
                            Ok(v)
                        },
                    }
                },
            }
        },
    }
}

/// Finds the nested blocks of a body: for each, the positions, counted in
/// characters, of the first character of its keyword and of its closing
/// brace.
pub fn extract_subgraphes_position(inside_block: &str) -> (r: Result<
    Vec<(usize, usize)>,
    ParsingError,
>)
    ensures
        match r {
            Ok(v) => subgraph_positions(inside_block@, 0) == Ok::<_, Failure>(spans(v@)),
            Err(e) => subgraph_positions(inside_block@, 0) == Err::<Seq<(int, int)>, _>(e@),
        },
{
    positions_from(&chars_of(inside_block), 0)
}

} // verus!
