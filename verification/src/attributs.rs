//! Attribute lists: a mapping from keys to values that keeps the order in
//! which its keys first came.

use crate::attribut::{as_key_value, key_value};
use crate::parsing_error::{Failure, ParsingError};
use crate::text::{
    chars_of, remove_char, same_text, split, split_in, split_once, split_once_in, string_of, views,
    without_char,
};
use vstd::prelude::*;
use vstd::std_specs::cmp::PartialEqSpecImpl;

verus! {

/// The entries of an attribute list: pairs of a key and its value.
pub type Entries = Seq<(Seq<char>, Seq<char>)>;

/// The least index at which `entries` holds `key`.
pub open spec fn position(entries: Entries, key: Seq<char>) -> Option<int>
    decreases entries.len(),
{
    if entries.len() == 0 {
        None
    } else {
        match position(entries.drop_last(), key) {
            Some(i) => Some(i),
            None => if entries.last().0 == key {
                Some(entries.len() - 1)
            } else {
                None
            },
        }
    }
}

/// No key stands twice in `entries`.
pub open spec fn distinct_keys(entries: Entries) -> bool {
    forall|i: int, j: int| 0 <= i < j < entries.len() ==> entries[i].0 != entries[j].0
}

/// `entries` after `key` was given `value`: the value replaces the one that
/// the key had, at its place, or the new entry comes last.
pub open spec fn put(entries: Entries, key: Seq<char>, value: Seq<char>) -> Entries {
    match position(entries, key) {
        Some(i) => entries.update(i, (key, value)),
        None => entries.push((key, value)),
    }
}

/// The entries left after the assignments `pairs` were made in order, each
/// by `put`.
pub open spec fn collect(pairs: Entries) -> Entries
    decreases pairs.len(),
{
    if pairs.len() == 0 {
        Seq::empty()
    } else {
        put(collect(pairs.drop_last()), pairs.last().0, pairs.last().1)
    }
}

/// The mapping that `entries` stand for: each key with the value of its
/// first entry.
pub open spec fn to_map(entries: Entries) -> Map<Seq<char>, Seq<char>> {
    Map::new(
        |key: Seq<char>| position(entries, key) is Some,
        |key: Seq<char>| entries[position(entries, key).unwrap()].1,
    )
}

/// The entries read from the segments of a list, from left to right; the
/// first segment that is no assignment gives the failure.
pub open spec fn collect_segments(segments: Seq<Seq<char>>) -> Result<Entries, Failure>
    decreases segments.len(),
{
    if segments.len() == 0 {
        Ok(Seq::empty())
    } else {
        match collect_segments(segments.drop_last()) {
            Err(e) => Err(e),
            Ok(entries) => match key_value(segments.last()) {
                Err(e) => Err(e),
                Ok((key, value)) => Ok(put(entries, key, value)),
            },
        }
    }
}

/// The entries that the inside of a bracketed list stands for: nothing for
/// an empty text, else one assignment for each segment between commas.
pub open spec fn parse_list(text: Seq<char>) -> Result<Entries, Failure> {
    if text.len() == 0 {
        Ok(Seq::empty())
    } else {
        collect_segments(split(text, ","@))
    }
}

/// A statement parted at its first `[`: the text before it, and the list
/// read from what follows it with every `]` left out. A statement without
/// `[`, or with nothing behind it, has no list.
pub open spec fn split_attributes(text: Seq<char>) -> Result<(Seq<char>, Option<Entries>), Failure> {
    match split_once(text, "["@) {
        Some((head, tail)) if tail.len() > 0 => match parse_list(without_char(tail, ']')) {
            Ok(entries) => Ok((head, Some(entries))),
            Err(e) => Err(e),
        },
        Some((head, _)) => Ok((head, None)),
        None => Ok((text, None)),
    }
}

/// The entries as `key=value`, with a comma between each two.
pub open spec fn render_entries(entries: Entries) -> Seq<char>
    decreases entries.len(),
{
    if entries.len() == 0 {
        Seq::empty()
    } else if entries.len() == 1 {
        entries[0].0 + "="@ + entries[0].1
    } else {
        render_entries(entries.drop_last()) + ","@ + entries.last().0 + "="@ + entries.last().1
    }
}

/// The text of an attribute list: nothing where there is no entry, else the
/// entries between brackets.
pub open spec fn render_list(list: Option<Entries>) -> Seq<char> {
    match list {
        Some(entries) if entries.len() > 0 => "["@ + render_entries(entries) + "]"@,
        _ => Seq::empty(),
    }
}

/// The mapping of `b` holds every entry of `a`.
pub open spec fn holds_all(a: Entries, b: Entries) -> bool {
    forall|i: int| 0 <= i < a.len() ==> to_map(b).contains_pair(#[trigger] a[i].0, a[i].1)
}

/// The pairs of `v` as pairs of character sequences.
pub open spec fn entry_views(v: Seq<(String, String)>) -> Entries {
    Seq::new(v.len(), |i: int| (v[i].0@, v[i].1@))
}

/// `position` gives the first entry with the key, and `None` only where no
/// entry has it.
pub proof fn lemma_position(entries: Entries, key: Seq<char>)
    ensures
        match position(entries, key) {
            Some(i) => 0 <= i < entries.len() && entries[i].0 == key && forall|j: int|
                0 <= j < i ==> entries[j].0 != key,
            None => forall|j: int| 0 <= j < entries.len() ==> entries[j].0 != key,
        },
    decreases entries.len(),
{
    if entries.len() > 0 {
        let before = entries.drop_last();
        lemma_position(before, key);
        assert forall|j: int| 0 <= j < before.len() implies before[j] == entries[j] by {}
        match position(before, key) {
            Some(i) => {
                assert(before[i] == entries[i]);
            },
            None => {
                assert forall|j: int| 0 <= j < entries.len() - 1 implies entries[j].0 != key by {
                    assert(before[j] == entries[j]);
                }
            },
        }
    }
}

/// An entry whose key stands nowhere before it is the one that `position`
/// gives.
pub proof fn lemma_position_is(entries: Entries, key: Seq<char>, i: int)
    requires
        0 <= i < entries.len(),
        entries[i].0 == key,
        forall|j: int| 0 <= j < i ==> entries[j].0 != key,
    ensures
        position(entries, key) == Some(i),
{
    lemma_position(entries, key);
}

/// `put` keeps the keys distinct, and changes the mapping as an insertion
/// does.
pub proof fn lemma_put(entries: Entries, key: Seq<char>, value: Seq<char>)
    requires
        distinct_keys(entries),
    ensures
        distinct_keys(put(entries, key, value)),
        to_map(put(entries, key, value)) == to_map(entries).insert(key, value),
{
    let after = put(entries, key, value);
    let before_map = to_map(entries);
    let after_map = to_map(after);
    lemma_position(entries, key);
    assert forall|k: Seq<char>|
        #[trigger] after_map.dom().contains(k) == before_map.insert(key, value).dom().contains(k)
            && (after_map.dom().contains(k) ==> after_map[k] == before_map.insert(key, value)[k]) by {
        lemma_position(entries, k);
        lemma_position(after, k);
        if k == key {
            match position(entries, key) {
                Some(i) => {
                    lemma_position_is(after, k, i);
                },
                None => {
                    lemma_position_is(after, k, entries.len() as int);
                },
            }
        } else {
            match position(entries, k) {
                Some(n) => {
                    lemma_position_is(after, k, n);
                },
                None => {},
            }
        }
    }
    assert(after_map =~= before_map.insert(key, value));
}

/// The entries that `collect` leaves have distinct keys.
pub proof fn lemma_collect_distinct(pairs: Entries)
    ensures
        distinct_keys(collect(pairs)),
    decreases pairs.len(),
{
    if pairs.len() > 0 {
        lemma_collect_distinct(pairs.drop_last());
        lemma_put(collect(pairs.drop_last()), pairs.last().0, pairs.last().1);
    }
}

/// Of several assignments to one key the last one wins: an assignment that
/// no later one to the same key follows gives the key its value.
pub proof fn lemma_last_wins(pairs: Entries, i: int)
    requires
        0 <= i < pairs.len(),
        forall|j: int| i < j < pairs.len() ==> pairs[j].0 != pairs[i].0,
    ensures
        to_map(collect(pairs)).contains_pair(pairs[i].0, pairs[i].1),
    decreases pairs.len(),
{
    let before = pairs.drop_last();
    lemma_collect_distinct(before);
    lemma_put(collect(before), pairs.last().0, pairs.last().1);
    if i < pairs.len() - 1 {
        assert(before[i] == pairs[i]);
        assert forall|j: int| i < j < before.len() implies before[j].0 != before[i].0 by {
            assert(before[j] == pairs[j]);
        }
        lemma_last_wins(before, i);
        assert(pairs[pairs.len() - 1].0 != pairs[i].0);
    }
}

/// The mapping holds no key but those that the assignments name.
pub proof fn lemma_keys_come_from_pairs(pairs: Entries, key: Seq<char>)
    requires
        to_map(collect(pairs)).contains_key(key),
    ensures
        exists|i: int| 0 <= i < pairs.len() && #[trigger] pairs[i].0 == key,
    decreases pairs.len(),
{
    if pairs.len() == 0 {
        lemma_position(collect(pairs), key);
    } else {
        let before = pairs.drop_last();
        lemma_collect_distinct(before);
        lemma_put(collect(before), pairs.last().0, pairs.last().1);
        if pairs.last().0 == key {
            assert(pairs[pairs.len() - 1].0 == key);
        } else {
            lemma_keys_come_from_pairs(before, key);
            let i = choose|i: int| 0 <= i < before.len() && #[trigger] before[i].0 == key;
            assert(pairs[i].0 == key);
        }
    }
}

/// The failure of a list is that of its first segment without `=`, and the
/// list is read where every segment has one.
pub proof fn lemma_collect_segments(segments: Seq<Seq<char>>)
    ensures
        match collect_segments(segments) {
            Ok(entries) => distinct_keys(entries) && forall|i: int|
                0 <= i < segments.len() ==> key_value(#[trigger] segments[i]) is Ok,
            Err(e) => exists|i: int|
                0 <= i < segments.len() && key_value(#[trigger] segments[i]) == Err::<
                    (Seq<char>, Seq<char>),
                    _,
                >(e) && forall|j: int| 0 <= j < i ==> key_value(#[trigger] segments[j]) is Ok,
        },
    decreases segments.len(),
{
    if segments.len() > 0 {
        let before = segments.drop_last();
        lemma_collect_segments(before);
        match collect_segments(before) {
            Err(e) => {
                let i = choose|i: int|
                    0 <= i < before.len() && key_value(#[trigger] before[i]) == Err::<
                        (Seq<char>, Seq<char>),
                        _,
                    >(e) && forall|j: int| 0 <= j < i ==> key_value(#[trigger] before[j]) is Ok;
                assert(segments[i] == before[i]);
                assert forall|j: int| 0 <= j < i implies key_value(
                    #[trigger] segments[j],
                ) is Ok by {
                    assert(segments[j] == before[j]);
                }
            },
            Ok(entries) => {
                assert forall|j: int| 0 <= j < before.len() implies key_value(
                    #[trigger] segments[j],
                ) is Ok by {
                    assert(segments[j] == before[j]);
                }
                match key_value(segments.last()) {
                    Err(e) => {
                        assert(segments[segments.len() - 1] == segments.last());
                    },
                    Ok((key, value)) => {
                        lemma_put(entries, key, value);
                    },
                }
            },
        }
    }
}

/// The assignments that the segments of a list make, in order.
pub open spec fn assignments(segments: Seq<Seq<char>>) -> Entries {
    Seq::new(segments.len(), |i: int| key_value(segments[i])->Ok_0)
}

/// A list that is read holds what its assignments leave when they are made
/// in order: in a list too, of several assignments to one key the last
/// one wins.
pub proof fn lemma_list_is_collected(segments: Seq<Seq<char>>)
    requires
        collect_segments(segments) is Ok,
    ensures
        collect_segments(segments)->Ok_0 == collect(assignments(segments)),
    decreases segments.len(),
{
    if segments.len() > 0 {
        lemma_list_is_collected(segments.drop_last());
        assert(assignments(segments).drop_last() =~= assignments(segments.drop_last()));
        assert(assignments(segments).last() == key_value(segments.last())->Ok_0);
    }
}

/// The attributes of a node, an edge or a graph. A list that was never
/// given differs from a list that was given empty.
#[derive(Debug)]
pub struct Attributs(Option<Vec<(String, String)>>);

impl View for Attributs {
    type V = Option<Entries>;

    closed spec fn view(&self) -> Option<Entries> {
        match self.0 {
            Some(v) => Some(entry_views(v@)),
            None => None,
        }
    }
}

/// The index of the first pair of `v` whose key is `key`.
fn index_of_key(v: &Vec<(String, String)>, key: &str) -> (r: Option<usize>)
    ensures
        match r {
            Some(i) => position(entry_views(v@), key@) == Some(i as int) && i < v.len(),
            None => position(entry_views(v@), key@) is None,
        },
{
    let mut i: usize = 0;
    while i < v.len()
        invariant
            i <= v.len(),
            forall|j: int| 0 <= j < i ==> entry_views(v@)[j].0 != key@,
        decreases v.len() - i,
    {
        if same_text(v[i].0.as_str(), key) {
            proof {
                lemma_position_is(entry_views(v@), key@, i as int);
            }
            return Some(i);
        }
        i += 1;
    }
    proof {
        lemma_position(entry_views(v@), key@);
    }
    None
}

/// Gives `key` the value `value` in `v`.
fn put_pair(v: &mut Vec<(String, String)>, key: String, value: String)
    ensures
        entry_views(final(v)@) == put(entry_views(old(v)@), key@, value@),
{
    match index_of_key(v, key.as_str()) {
        Some(i) => {
            v.set(i, (key, value));
            assert(entry_views(v@) =~= put(entry_views(old(v)@), key@, value@));
        },
        None => {
            v.push((key, value));
            assert(entry_views(v@) =~= put(entry_views(old(v)@), key@, value@));
        },
    }
}

/// A copy of the pairs of `v`.
fn copy_pairs(v: &Vec<(String, String)>) -> (r: Vec<(String, String)>)
    ensures
        r@ == v@,
{
    let mut r: Vec<(String, String)> = Vec::new();
    let mut i: usize = 0;
    while i < v.len()
        invariant
            i <= v.len(),
            r@ == v@.take(i as int),
        decreases v.len() - i,
    {
        r.push((v[i].0.clone(), v[i].1.clone()));
        assert(r@ =~= v@.take(i + 1));
        i += 1;
    }
    assert(v@.take(i as int) =~= v@);
    r
}

/// Whether every pair of `a` stands in `b` with the same value.
fn included(a: &Vec<(String, String)>, b: &Vec<(String, String)>) -> (r: bool)
    ensures
        r == holds_all(entry_views(a@), entry_views(b@)),
{
    let ghost ea = entry_views(a@);
    let ghost eb = entry_views(b@);
    let mut i: usize = 0;
    while i < a.len()
        invariant
            i <= a.len(),
            ea == entry_views(a@),
            eb == entry_views(b@),
            forall|j: int| 0 <= j < i ==> to_map(eb).contains_pair(#[trigger] ea[j].0, ea[j].1),
        decreases a.len() - i,
    {
        match index_of_key(b, a[i].0.as_str()) {
            Some(n) => {
                if !same_text(b[n].1.as_str(), a[i].1.as_str()) {
                    assert(!to_map(eb).contains_pair(ea[i as int].0, ea[i as int].1));
                    return false;
                }
            },
            None => {
                assert(!to_map(eb).contains_pair(ea[i as int].0, ea[i as int].1));
                return false;
            },
        }
        i += 1;
    }
    true
}

/// Two lists with distinct keys stand for the same mapping exactly if each
/// holds every pair of the other.
proof fn lemma_same_map(a: Entries, b: Entries)
    requires
        distinct_keys(a),
        distinct_keys(b),
    ensures
        to_map(a) == to_map(b) <==> holds_all(a, b) && holds_all(b, a),
{
    lemma_holds_own(a);
    lemma_holds_own(b);
    if holds_all(a, b) && holds_all(b, a) {
        assert forall|k: Seq<char>|
            #[trigger] to_map(a).dom().contains(k) == to_map(b).dom().contains(k) && (to_map(
                a,
            ).dom().contains(k) ==> to_map(a)[k] == to_map(b)[k]) by {
            lemma_position(a, k);
            lemma_position(b, k);
            if to_map(a).contains_key(k) {
                let i = position(a, k).unwrap();
                assert(to_map(b).contains_pair(a[i].0, a[i].1));
            }
            if to_map(b).contains_key(k) {
                let i = position(b, k).unwrap();
                assert(to_map(a).contains_pair(b[i].0, b[i].1));
            }
        }
        assert(to_map(a) =~= to_map(b));
    }
}

/// A list with distinct keys maps the key of each of its entries to the
/// value of that entry.
proof fn lemma_holds_own(a: Entries)
    requires
        distinct_keys(a),
    ensures
        holds_all(a, a),
{
    assert forall|i: int| 0 <= i < a.len() implies to_map(a).contains_pair(
        #[trigger] a[i].0,
        a[i].1,
    ) by {
        lemma_position(a, a[i].0);
    }
}

impl Attributs {
    #[verifier::type_invariant]
    spec fn keys_are_distinct(&self) -> bool {
        match self.0 {
            Some(v) => distinct_keys(entry_views(v@)),
            None => true,
        }
    }

    /// The mapping from keys to values; empty where no list was given.
    pub open spec fn as_map(&self) -> Map<Seq<char>, Seq<char>> {
        match self@ {
            Some(entries) => to_map(entries),
            None => Map::empty(),
        }
    }

    /// Both lists were given or neither was, and they map the same keys to
    /// the same values.
    pub open spec fn same_as(&self, other: &Attributs) -> bool {
        (self@ is Some <==> other@ is Some) && self.as_map() == other.as_map()
    }

    /// The value given to the key `label`.
    pub fn label(&self) -> (r: Option<&String>)
        ensures
            match r {
                Some(v) => self.as_map().contains_pair("label"@, v@),
                None => !self.as_map().contains_key("label"@),
            },
    {
        self.get("label")
    }

    /// The value given to `key`.
    pub fn get(&self, key: &str) -> (r: Option<&String>)
        ensures
            match r {
                Some(v) => self.as_map().contains_pair(key@, v@),
                None => !self.as_map().contains_key(key@),
            },
    {
        match &self.0 {
            Some(v) => match index_of_key(v, key) {
                Some(i) => Some(&v[i].1),
                None => None,
            },
            None => None,
        }
    }

    /// The pairs of the list, in the order in which their keys first came;
    /// `None` where no list was given.
    pub fn attributs(&self) -> (r: Option<Vec<(String, String)>>)
        ensures
            match r {
                Some(v) => self@ == Some(entry_views(v@)) && distinct_keys(entry_views(v@)),
                None => self@ is None,
            },
    {
        proof {
            use_type_invariant(self);
        }
        match &self.0 {
            Some(v) => Some(copy_pairs(v)),
            None => None,
        }
    }

    /// The list made by the assignments `value`, in order: of two pairs with
    /// one key the later gives the value.
    pub fn from(value: Vec<(String, String)>) -> (r: Attributs)
        ensures
            r@ == Some(collect(entry_views(value@))),
    {
        let mut v: Vec<(String, String)> = Vec::new();
        let mut i: usize = 0;
        assert(entry_views(value@).take(0) =~= Seq::empty());
        while i < value.len()
            invariant
                i <= value.len(),
                entry_views(v@) == collect(entry_views(value@).take(i as int)),
            decreases value.len() - i,
        {
            proof {
                assert(entry_views(value@).take(i + 1).drop_last() =~= entry_views(value@).take(
                    i as int,
                ));
            }
            put_pair(&mut v, value[i].0.clone(), value[i].1.clone());
            i += 1;
        }
        proof {
            assert(entry_views(value@).take(i as int) =~= entry_views(value@));
            lemma_collect_distinct(entry_views(value@));
        }
        Attributs(Some(v))
    }

    /// Reads the inside of a bracketed list `key=value,key=value`. An empty
    /// text is the empty list; a segment without `=` is refused.
    pub fn try_from(value: &String) -> (r: Result<Attributs, ParsingError>)
        ensures
            match r {
                Ok(a) => parse_list(value@) == Ok::<_, Failure>(a@->0) && a@ is Some,
                Err(e) => parse_list(value@) == Err::<Entries, _>(e@),
            },
    {
        let text = chars_of(value.as_str());
        let mut v: Vec<(String, String)> = Vec::new();
        if text.len() == 0 {
            assert(entry_views(v@) =~= Seq::empty());
            return Ok(Attributs(Some(v)));
        }
        let segments = split_in(&text, &chars_of(","));
        let ghost all = views(segments@);
        let mut i: usize = 0;
        assert(all.take(0) =~= Seq::empty());
        assert(entry_views(v@) =~= Seq::empty());
        while i < segments.len()
            invariant
                i <= segments.len(),
                all == views(segments@),
                value@.len() > 0,
                all == split(value@, ","@),
                collect_segments(all.take(i as int)) == Ok::<_, Failure>(entry_views(v@)),
            decreases segments.len() - i,
        {
            proof {
                assert(all.take(i + 1).drop_last() =~= all.take(i as int));
                assert(all.take(i + 1).last() == segments@[i as int]@);
            }
            let segment = string_of(&segments[i]);
            match as_key_value(segment.as_str()) {
                Ok((key, val)) => {
                    put_pair(&mut v, key, val);
                },
                Err(e) => {
                    proof {
                        lemma_segments_fail(all, i as int);
                    }
                    return Err(e);
                },
            }
            i += 1;
        }
        proof {
            assert(all.take(i as int) =~= all);
            lemma_collect_segments(all);
        }
        Ok(Attributs(Some(v)))
    }

    /// The list as text: `[key=value,key=value]`, or nothing where it holds
    /// no entry.
    pub fn to_string(&self) -> (r: String)
        ensures
            r@ == render_list(self@),
    {
        let mut r = String::new();
        match &self.0 {
            Some(v) => {
                if v.len() > 0 {
                    r.append("[");
                    let mut i: usize = 0;
                    assert(entry_views(v@).take(0) =~= Seq::empty());
                    while i < v.len()
                        invariant
                            i <= v.len(),
                            r@ == "["@ + render_entries(entry_views(v@).take(i as int)),
                        decreases v.len() - i,
                    {
                        proof {
                            let now = entry_views(v@).take(i + 1);
                            assert(now.drop_last() =~= entry_views(v@).take(i as int));
                            assert(now.last() == entry_views(v@)[i as int]);
                            if i == 0 {
                                assert(now[0] == now.last());
                            }
                        }
                        if i > 0 {
                            r.append(",");
                        }
                        r.append(v[i].0.as_str());
                        r.append("=");
                        r.append(v[i].1.as_str());
                        i += 1;
                    }
                    assert(entry_views(v@).take(i as int) =~= entry_views(v@));
                    r.append("]");
                }
            },
            None => {},
        }
        r
    }
}

/// Parts a statement at its first `[` and reads the list behind it.
pub fn split_attributes_of(text: &Vec<char>) -> (r: Result<(Vec<char>, Attributs), ParsingError>)
    ensures
        match r {
            Ok((head, list)) => split_attributes(text@) == Ok::<_, Failure>((head@, list@)),
            Err(e) => split_attributes(text@) == Err::<(Seq<char>, Option<Entries>), _>(e@),
        },
{
    match split_once_in(text, &chars_of("[")) {
        Some((head, tail)) => {
            if tail.len() > 0 {
                let inside = string_of(&remove_char(&tail, ']'));
                match Attributs::try_from(&inside) {
                    Ok(list) => Ok((head, list)),
                    Err(e) => Err(e),
                }
            } else {
                Ok((head, Attributs::default()))
            }
        },
        None => {
            let head = crate::text::subvec(text, 0, text.len());
            assert(head@ =~= text@);
            Ok((head, Attributs::default()))
        },
    }
}

/// Where the segments before the `i`-th were read and the `i`-th is no
/// assignment, its failure is that of the whole list.
proof fn lemma_segments_fail(segments: Seq<Seq<char>>, i: int)
    requires
        0 <= i < segments.len(),
        collect_segments(segments.take(i)) is Ok,
        key_value(segments[i]) is Err,
    ensures
        collect_segments(segments) == Err::<Entries, _>(key_value(segments[i])->Err_0),
    decreases segments.len() - i,
{
    assert(segments.take(i + 1).drop_last() =~= segments.take(i));
    assert(segments.take(i + 1).last() == segments[i]);
    lemma_fail_stays(segments, i + 1);
}

/// A failure among the first `n` segments is the failure of the whole list.
proof fn lemma_fail_stays(segments: Seq<Seq<char>>, n: int)
    requires
        0 <= n <= segments.len(),
        collect_segments(segments.take(n)) is Err,
    ensures
        collect_segments(segments) == collect_segments(segments.take(n)),
    decreases segments.len() - n,
{
    if n < segments.len() {
        assert(segments.take(n + 1).drop_last() =~= segments.take(n));
        lemma_fail_stays(segments, n + 1);
    } else {
        assert(segments.take(n) =~= segments);
    }
}

impl Default for Attributs {
    /// The attributes of something that was given no list.
    fn default() -> (r: Attributs)
        ensures
            r@ is None,
    {
        Attributs(None)
    }
}

impl Clone for Attributs {
    fn clone(&self) -> (r: Attributs)
        ensures
            r@ == self@,
    {
        proof {
            use_type_invariant(self);
        }
        match &self.0 {
            Some(v) => Attributs(Some(copy_pairs(v))),
            None => Attributs(None),
        }
    }
}

impl PartialEq for Attributs {
    fn eq(&self, other: &Attributs) -> (r: bool) {
        proof {
            use_type_invariant(self);
            use_type_invariant(other);
        }
        match (&self.0, &other.0) {
            (Some(a), Some(b)) => {
                proof {
                    lemma_same_map(entry_views(a@), entry_views(b@));
                }
                included(a, b) && included(b, a)
            },
            (None, None) => true,
            _ => false,
        }
    }
}

impl Eq for Attributs {

}

impl PartialEqSpecImpl for Attributs {
    open spec fn obeys_eq_spec() -> bool {
        true
    }

    open spec fn eq_spec(&self, other: &Attributs) -> bool {
        self.same_as(other)
    }
}

} // verus!
