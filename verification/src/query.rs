//! The parameters of a request: a map from names to values, and the decoder
//! that reads one from a query string.

use crate::text::chars_of;
use crate::text::cut;
use crate::text::first_index;
use crate::text::lemma_first_index;
use crate::text::lemma_first_index_absent;
use crate::text::lemma_first_index_found;
use crate::text::same_text;
use crate::text::scan;
use crate::text::split_once;
use crate::text::CharClass;
use vstd::prelude::*;
use vstd::set_lib::lemma_subset_equality;
use vstd::std_specs::cmp::PartialEqSpecImpl;

verus! {

/// The parameters of one request. No name occurs twice.
#[derive(Debug)]
pub struct QueryParams {
    pairs: Vec<(String, String)>,
}

impl View for QueryParams {
    type V = Map<Seq<char>, Seq<char>>;

    closed spec fn view(&self) -> Map<Seq<char>, Seq<char>> {
        map_of(self.entries())
    }
}

impl QueryParams {
    /// The names and values in the order in which the names first came.
    spec fn entries(&self) -> Seq<(Seq<char>, Seq<char>)> {
        entries_of(self.pairs@)
    }

    #[verifier::type_invariant]
    spec fn well_formed(&self) -> bool {
        distinct_keys(self.entries())
    }

    /// No parameters.
    pub fn new() -> (params: QueryParams)
        ensures
            params@ == Map::<Seq<char>, Seq<char>>::empty(),
    {
        let params = QueryParams { pairs: Vec::new() };
        params
    }

    /// The number of names.
    pub fn len(&self) -> (n: usize)
        ensures
            self@.dom().finite(),
            n == self@.dom().len(),
    {
        proof {
            use_type_invariant(self);
            lemma_map_of_len(self.entries());
        }
        self.pairs.len()
    }

    /// Whether there is no name.
    pub fn is_empty(&self) -> (r: bool)
        ensures
            r == (self@ == Map::<Seq<char>, Seq<char>>::empty()),
    {
        proof {
            use_type_invariant(self);
            lemma_map_of_len(self.entries());
        }
        self.pairs.len() == 0
    }

    /// Where `key` stands among the pairs, if it does.
    fn find(&self, key: &str) -> (found: Option<usize>)
        ensures
            match found {
                Some(i) => i < self.entries().len() && self.entries()[i as int].0 == key@,
                None => !self@.contains_key(key@),
            },
    {
        let mut i: usize = 0;
        while i < self.pairs.len()
            invariant
                i <= self.pairs@.len(),
                forall|j: int| 0 <= j < i ==> (#[trigger] self.entries()[j]).0 != key@,
            decreases self.pairs.len() - i,
        {
            if same_text(self.pairs[i].0.as_str(), key) {
                return Some(i);
            }
            i += 1;
        }
        proof {
            lemma_map_of_keys(self.entries(), key@);
        }
        None
    }

    /// Whether `key` is among the names.
    pub fn contains_key(&self, key: &str) -> (r: bool)
        ensures
            r == self@.contains_key(key@),
    {
        proof {
            use_type_invariant(self);
        }
        match self.find(key) {
            Some(i) => {
                proof {
                    lemma_map_of_entry(self.entries(), i as int);
                }
                true
            },
            None => false,
        }
    }

    /// The value of `key`, if it is among the names.
    pub fn get(&self, key: &str) -> (value: Option<&String>)
        ensures
            match value {
                Some(v) => self@.contains_key(key@) && v@ == self@[key@],
                None => !self@.contains_key(key@),
            },
    {
        proof {
            use_type_invariant(self);
        }
        match self.find(key) {
            Some(i) => {
                proof {
                    lemma_map_of_entry(self.entries(), i as int);
                }
                Some(&self.pairs[i].1)
            },
            None => None,
        }
    }

    /// Gives `key` the value `value`, whether or not it had one.
    pub fn insert(&mut self, key: String, value: String)
        ensures
            final(self)@ == old(self)@.insert(key@, value@),
    {
        proof {
            use_type_invariant(&*self);
        }
        let ghost before = self.entries();
        let found = self.find(key.as_str());
        let mut pairs: Vec<(String, String)> = Vec::new();
        core::mem::swap(&mut self.pairs, &mut pairs);
        match found {
            Some(i) => {
                proof {
                    lemma_map_of_update(before, i as int, value@);
                }
                pairs[i].1 = value;
            },
            None => {
                proof {
                    lemma_map_of_keys(before, key@);
                }
                pairs.push((key, value));
            },
        }
        proof {
            match found {
                Some(i) => {
                    assert(entries_of(pairs@) =~= before.update(i as int, (key@, value@)));
                },
                None => {
                    assert(entries_of(pairs@) =~= before.push((key@, value@)));
                    assert(entries_of(pairs@).drop_last() =~= before);
                },
            }
        }
        self.pairs = pairs;
    }

    /// The names, each once.
    pub fn names(&self) -> (names: Vec<String>)
        ensures
            names.deep_view().no_duplicates(),
            names.deep_view().to_set() == self@.dom(),
    {
        proof {
            use_type_invariant(self);
        }
        let mut names: Vec<String> = Vec::new();
        let mut i: usize = 0;
        while i < self.pairs.len()
            invariant
                i <= self.pairs@.len(),
                names@.len() == i,
                forall|j: int| 0 <= j < i ==> (#[trigger] names@[j])@ == self.entries()[j].0,
            decreases self.pairs.len() - i,
        {
            names.push(self.pairs[i].0.clone());
            i += 1;
        }
        proof {
            let keys = names.deep_view();
            assert(keys.no_duplicates());
            assert forall|key: Seq<char>| keys.to_set().contains(key) <==> self@.dom().contains(
                key,
            ) by {
                lemma_map_of_keys(self.entries(), key);
                if self@.dom().contains(key) {
                    let j = choose|j: int|
                        0 <= j < self.entries().len() && (#[trigger] self.entries()[j]).0 == key;
                    assert(keys[j] == names@[j]@);
                }
            }
        }
        names
    }
}

impl PartialEq for QueryParams {
    /// Whether both give the same names the same values.
    fn eq(&self, other: &Self) -> (r: bool) {
        proof {
            use_type_invariant(self);
            use_type_invariant(other);
            lemma_map_of_len(self.entries());
            lemma_map_of_len(other.entries());
        }
        if self.pairs.len() != other.pairs.len() {
            return false;
        }
        let mut i: usize = 0;
        while i < self.pairs.len()
            invariant
                i <= self.pairs@.len(),
                distinct_keys(self.entries()),
                forall|j: int|
                    0 <= j < i ==> other@.contains_key((#[trigger] self.entries()[j]).0)
                        && other@[self.entries()[j].0] == self.entries()[j].1,
            decreases self.pairs.len() - i,
        {
            proof {
                lemma_map_of_entry(self.entries(), i as int);
            }
            match other.get(self.pairs[i].0.as_str()) {
                Some(value) => {
                    if !same_text(value.as_str(), self.pairs[i].1.as_str()) {
                        return false;
                    }
                },
                None => {
                    return false;
                },
            }
            i += 1;
        }
        proof {
            assert forall|key: Seq<char>| #[trigger]
                self@.dom().contains(key) implies other@.dom().contains(key) && other@[key]
                == self@[key] by {
                lemma_map_of_keys(self.entries(), key);
                let j = choose|j: int|
                    0 <= j < self.entries().len() && (#[trigger] self.entries()[j]).0 == key;
                lemma_map_of_entry(self.entries(), j);
            }
            lemma_subset_equality(self@.dom(), other@.dom());
            assert(self@ =~= other@);
        }
        true
    }
}

impl PartialEqSpecImpl for QueryParams {
    open spec fn obeys_eq_spec() -> bool {
        true
    }

    open spec fn eq_spec(&self, other: &Self) -> bool {
        self@ == other@
    }
}

/// The segments of a query string: what stands between its `&`.
pub open spec fn segments(query: Seq<char>) -> Seq<Seq<char>>
    decreases query.len(),
{
    let at = first_index(query, CharClass::Is('&'));
    if 0 <= at < query.len() {
        seq![query.take(at)] + segments(query.skip(at + 1))
    } else {
        seq![query]
    }
}

/// The parameters that a list of segments gives. A segment `name=value`
/// gives `name` the value `value`, cut at its first `=`; a segment without
/// `=` gives nothing; of two segments with one name the later counts.
pub open spec fn decode_segments(segments: Seq<Seq<char>>) -> Map<Seq<char>, Seq<char>>
    decreases segments.len(),
{
    if segments.len() == 0 {
        Map::empty()
    } else {
        let front = decode_segments(segments.drop_last());
        match split_once(segments.last(), '=') {
            Some((name, value)) => front.insert(name, value),
            None => front,
        }
    }
}

/// Whether `segment` gives `name` a value: it holds a `=`, and `name` is
/// what stands before the first.
pub open spec fn binds(segment: Seq<char>, name: Seq<char>) -> bool {
    match split_once(segment, '=') {
        Some((key, _)) => key == name,
        None => false,
    }
}

/// The value that `segment` gives: what follows its first `=`.
pub open spec fn value_in(segment: Seq<char>) -> Seq<char> {
    match split_once(segment, '=') {
        Some((_, value)) => value,
        None => Seq::empty(),
    }
}

/// The parameters that a query string gives.
pub open spec fn decode_query(query: Seq<char>) -> Map<Seq<char>, Seq<char>> {
    decode_segments(segments(query))
}

/// Reads the parameters of a query string.
pub fn parse_query_string(query: &str) -> (params: QueryParams)
    ensures
        params@ == decode_query(query@),
{
    let text = chars_of(query);
    let mut params = QueryParams::new();
    let mut start: usize = 0;
    let ghost mut done: Seq<Seq<char>> = Seq::empty();
    assert(query@.skip(0) =~= query@);
    loop
        invariant
            text@ == query@,
            start <= text.len(),
            segments(query@) == done + segments(query@.skip(start as int)),
            params@ == decode_segments(done),
        decreases text.len() - start,
    {
        let end: usize = scan(&text, start, text.len(), CharClass::Is('&'));
        let sign: usize = scan(&text, start, end, CharClass::Is('='));
        let ghost rest = query@.skip(start as int);
        let ghost segment = query@.subrange(start as int, end as int);
        proof {
            assert(rest.take(end - start) =~= segment);
            assert(segment.take(sign - start) =~= query@.subrange(start as int, sign as int));
            if sign < end {
                assert(segment.skip(sign - start + 1) =~= query@.subrange(sign + 1, end as int));
            }
            assert(done.push(segment).drop_last() =~= done);
        }
        if sign < end {
            params.insert(cut(query, start, sign), cut(query, sign + 1, end));
        }
        if end == text.len() {
            proof {
                assert(segments(query@) =~= done.push(segment));
            }
            return params;
        }
        proof {
            assert(rest.skip(end - start + 1) =~= query@.skip(end + 1));
            done = done.push(segment);
        }
        start = end + 1;
    }
}

/// The names that a list of segments gives a value are those that one of its
/// segments binds (so a segment without `=` adds nothing), and the value of
/// a name is what follows the first `=` of the last segment that binds it.
pub proof fn lemma_decode_segments(segments: Seq<Seq<char>>, name: Seq<char>)
    ensures
        decode_segments(segments).contains_key(name) <==> exists|i: int|
            0 <= i < segments.len() && binds(#[trigger] segments[i], name),
        forall|i: int|
            0 <= i < segments.len() && binds(#[trigger] segments[i], name) && (forall|j: int|
                i < j < segments.len() ==> !binds(#[trigger] segments[j], name))
                ==> decode_segments(segments)[name] == value_in(segments[i]),
    decreases segments.len(),
{
    if segments.len() > 0 {
        let front = segments.drop_last();
        let last = segments.len() - 1;
        lemma_decode_segments(front, name);
        if exists|i: int| 0 <= i < segments.len() && binds(#[trigger] segments[i], name) {
            let i = choose|i: int| 0 <= i < segments.len() && binds(#[trigger] segments[i], name);
            if i < last {
                assert(binds(front[i], name));
            }
        }
        assert forall|i: int|
            0 <= i < segments.len() && binds(#[trigger] segments[i], name) && (forall|j: int|
                i < j < segments.len() ==> !binds(
                    #[trigger] segments[j],
                    name,
                )) implies decode_segments(segments)[name] == value_in(segments[i]) by {
            if i < last {
                assert(binds(front[i], name));
            }
        }
    }
}

/// The segments of two query strings joined by `&` are those of the first
/// followed by those of the second.
pub proof fn lemma_segments_join(first: Seq<char>, second: Seq<char>)
    ensures
        segments(first + seq!['&'] + second) == segments(first) + segments(second),
    decreases first.len(),
{
    let mark = CharClass::Is('&');
    let joined = first + seq!['&'] + second;
    let at = first_index(first, mark);
    lemma_first_index(first, mark);
    assert(joined =~= first + (seq!['&'] + second));
    if at < first.len() {
        lemma_first_index_found(first, seq!['&'] + second, mark);
        assert(joined.take(at) =~= first.take(at));
        assert(joined.skip(at + 1) =~= first.skip(at + 1) + seq!['&'] + second);
        lemma_segments_join(first.skip(at + 1), second);
    } else {
        lemma_first_index_absent(first, seq!['&'] + second, mark);
        assert(joined.take(at) =~= first);
        assert(joined.skip(at + 1) =~= second);
    }
}

/// The parameters of a list of segments followed by another are those of
/// the first list, replaced and extended by those of the second.
pub proof fn lemma_decode_segments_join(first: Seq<Seq<char>>, second: Seq<Seq<char>>)
    ensures
        decode_segments(first + second) == decode_segments(first).union_prefer_right(
            decode_segments(second),
        ),
    decreases second.len(),
{
    if second.len() == 0 {
        assert(decode_segments(first) =~= decode_segments(first).union_prefer_right(
            Map::empty(),
        ));
    } else {
        assert((first + second).drop_last() =~= first + second.drop_last());
        lemma_decode_segments_join(first, second.drop_last());
        assert(decode_segments(first + second) =~= decode_segments(first).union_prefer_right(
            decode_segments(second),
        ));
    }
}

/// The parameters of two query strings joined by `&` are those of the first,
/// replaced and extended by those of the second: where both give a name a
/// value, the later one counts.
pub proof fn lemma_decode_query_join(first: Seq<char>, second: Seq<char>)
    ensures
        decode_query(first + seq!['&'] + second) == decode_query(first).union_prefer_right(
            decode_query(second),
        ),
{
    lemma_segments_join(first, second);
    lemma_decode_segments_join(segments(first), segments(second));
}

/// A query string without `&` is one segment: it gives one parameter if it
/// holds a `=`, and none if it does not.
pub proof fn lemma_decode_query_single(segment: Seq<char>)
    requires
        !segment.contains('&'),
    ensures
        decode_query(segment) == match split_once(segment, '=') {
            Some((name, value)) => Map::<Seq<char>, Seq<char>>::empty().insert(name, value),
            None => Map::<Seq<char>, Seq<char>>::empty(),
        },
{
    let mark = CharClass::Is('&');
    lemma_first_index(segment, mark);
    reveal_with_fuel(decode_segments, 2);
}

/// The map that a list of entries stands for: a later entry replaces an
/// earlier one with the same key.
spec fn map_of(entries: Seq<(Seq<char>, Seq<char>)>) -> Map<Seq<char>, Seq<char>>
    decreases entries.len(),
{
    if entries.len() == 0 {
        Map::empty()
    } else {
        map_of(entries.drop_last()).insert(entries.last().0, entries.last().1)
    }
}

/// No key occurs twice among `entries`.
spec fn distinct_keys(entries: Seq<(Seq<char>, Seq<char>)>) -> bool {
    forall|i: int, j: int| 0 <= i < j < entries.len() ==> entries[i].0 != entries[j].0
}

/// The keys of `map_of(entries)` are the keys of the entries.
proof fn lemma_map_of_keys(entries: Seq<(Seq<char>, Seq<char>)>, key: Seq<char>)
    ensures
        map_of(entries).contains_key(key) <==> exists|i: int|
            0 <= i < entries.len() && (#[trigger] entries[i]).0 == key,
        map_of(entries).dom().finite(),
    decreases entries.len(),
{
    if entries.len() > 0 {
        let front = entries.drop_last();
        lemma_map_of_keys(front, key);
        if exists|i: int| 0 <= i < entries.len() && (#[trigger] entries[i]).0 == key {
            let i = choose|i: int| 0 <= i < entries.len() && (#[trigger] entries[i]).0 == key;
            if i < front.len() {
                assert(front[i].0 == key);
            }
        }
    }
}

/// Among entries with distinct keys, each entry gives the value of its key.
proof fn lemma_map_of_entry(entries: Seq<(Seq<char>, Seq<char>)>, i: int)
    requires
        distinct_keys(entries),
        0 <= i < entries.len(),
    ensures
        map_of(entries).contains_key(entries[i].0),
        map_of(entries)[entries[i].0] == entries[i].1,
    decreases entries.len(),
{
    let front = entries.drop_last();
    if i < front.len() {
        assert(distinct_keys(front));
        lemma_map_of_entry(front, i);
    }
}

/// Among entries with distinct keys, there are as many keys as entries.
proof fn lemma_map_of_len(entries: Seq<(Seq<char>, Seq<char>)>)
    requires
        distinct_keys(entries),
    ensures
        map_of(entries).dom().finite(),
        map_of(entries).dom().len() == entries.len(),
    decreases entries.len(),
{
    if entries.len() > 0 {
        let front = entries.drop_last();
        assert(distinct_keys(front));
        lemma_map_of_len(front);
        let key = entries.last().0;
        lemma_map_of_keys(front, key);
    }
}

/// Replacing the value of an entry, among entries with distinct keys, is an
/// insertion into the map.
proof fn lemma_map_of_update(
    entries: Seq<(Seq<char>, Seq<char>)>,
    i: int,
    value: Seq<char>,
)
    requires
        distinct_keys(entries),
        0 <= i < entries.len(),
    ensures
        distinct_keys(entries.update(i, (entries[i].0, value))),
        map_of(entries.update(i, (entries[i].0, value))) == map_of(entries).insert(
            entries[i].0,
            value,
        ),
    decreases entries.len(),
{
    let key = entries[i].0;
    let after = entries.update(i, (key, value));
    assert(distinct_keys(after));
    let front = entries.drop_last();
    if i == entries.len() - 1 {
        assert(after.drop_last() =~= front);
    } else {
        assert(distinct_keys(front));
        lemma_map_of_update(front, i, value);
        assert(after.drop_last() =~= front.update(i, (key, value)));
    }
}

/// The pairs of a list of strings as character sequences.
spec fn entries_of(pairs: Seq<(String, String)>) -> Seq<(Seq<char>, Seq<char>)> {
    Seq::new(pairs.len(), |i: int| (pairs[i].0@, pairs[i].1@))
}

} // verus!
