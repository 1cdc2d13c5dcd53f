//! Which environment variable each credential goes to.
use vstd::prelude::*;

verus! {

/// The map that a sequence of key-value pairs describes; a later pair replaces
/// an earlier one with the same key.
pub open spec fn map_of(pairs: Seq<(Seq<char>, Seq<char>)>) -> Map<Seq<char>, Seq<char>>
    decreases pairs.len(),
{
    if pairs.len() == 0 {
        Map::empty()
    } else {
        map_of(pairs.drop_last()).insert(pairs.last().0, pairs.last().1)
    }
}

/// No two pairs have the same key.
pub open spec fn distinct_keys(pairs: Seq<(Seq<char>, Seq<char>)>) -> bool {
    forall|i: int, j: int|
        0 <= i < j < pairs.len() ==> (#[trigger] pairs[i]).0 != (#[trigger] pairs[j]).0
}

/// A map from credential references to the names of the environment variables
/// that their secrets are to be set in.
///
/// No reference occurs twice among the entries.
///
/// The entries stand in a `Vec`: vstd's specifications of the hash maps of the
/// standard library hold only of key types that it knows, of which `String` is
/// none, and its `StringHashMap` can be neither cloned nor walked.
#[derive(Debug)]
pub struct SecretMappings {
    entries: Vec<(String, String)>,
}

/// What the entries say.
spec fn views(entries: Seq<(String, String)>) -> Seq<(Seq<char>, Seq<char>)> {
    entries.map_values(|entry: (String, String)| (entry.0@, entry.1@))
}

impl View for SecretMappings {
    type V = Map<Seq<char>, Seq<char>>;

    open spec fn view(&self) -> Map<Seq<char>, Seq<char>> {
        map_of(self.pairs())
    }
}

/// Every pair stands in the map, and the map holds nothing else.
pub proof fn lemma_map_of(pairs: Seq<(Seq<char>, Seq<char>)>)
    requires
        distinct_keys(pairs),
    ensures
        forall|i: int|
            0 <= i < pairs.len() ==> {
                &&& map_of(pairs).contains_key((#[trigger] pairs[i]).0)
                &&& map_of(pairs)[pairs[i].0] == pairs[i].1
            },
        forall|key: Seq<char>| #[trigger]
            map_of(pairs).contains_key(key) ==> exists|i: int|
                0 <= i < pairs.len() && (#[trigger] pairs[i]).0 == key,
        map_of(pairs).dom().finite(),
        map_of(pairs).len() == pairs.len(),
    decreases pairs.len(),
{
    if pairs.len() > 0 {
        let rest = pairs.drop_last();
        lemma_map_of(rest);
        assert forall|i: int| 0 <= i < pairs.len() implies {
            &&& map_of(pairs).contains_key((#[trigger] pairs[i]).0)
            &&& map_of(pairs)[pairs[i].0] == pairs[i].1
        } by {
            if i < pairs.len() - 1 {
                assert(rest[i] == pairs[i]);
            }
        }
        assert forall|key: Seq<char>| #[trigger] map_of(pairs).contains_key(key) implies exists|
            i: int,
        |
            0 <= i < pairs.len() && (#[trigger] pairs[i]).0 == key by {
            if key == pairs.last().0 {
                assert(pairs[pairs.len() - 1].0 == key);
            } else {
                assert(map_of(rest).contains_key(key));
                let i = choose|i: int| 0 <= i < rest.len() && (#[trigger] rest[i]).0 == key;
                assert(pairs[i].0 == key);
            }
        }
        assert(!map_of(rest).contains_key(pairs.last().0)) by {
            if map_of(rest).contains_key(pairs.last().0) {
                let i = choose|i: int|
                    0 <= i < rest.len() && (#[trigger] rest[i]).0 == pairs.last().0;
                assert(pairs[i].0 == pairs[pairs.len() - 1].0);
            }
        }
    }
}

/// No pairs make the empty map; one pair more maps its key to its value and
/// leaves all other keys as they were; and keys are distinct exactly when no
/// key stands at two places.
pub proof fn law_map_of(
    pairs: Seq<(Seq<char>, Seq<char>)>,
    key: Seq<char>,
    value: Seq<char>,
    other: Seq<char>,
)
    ensures
        map_of(Seq::empty()) == Map::<Seq<char>, Seq<char>>::empty(),
        map_of(pairs.push((key, value))).contains_key(key),
        map_of(pairs.push((key, value)))[key] == value,
        other != key ==> map_of(pairs.push((key, value))).contains_key(other) == map_of(
            pairs,
        ).contains_key(other),
        other != key && map_of(pairs).contains_key(other) ==> map_of(pairs.push((key, value)))[other]
            == map_of(pairs)[other],
        distinct_keys(pairs) <==> forall|i: int, j: int|
            0 <= i < pairs.len() && 0 <= j < pairs.len() && i != j ==> (#[trigger] pairs[i]).0
                != (#[trigger] pairs[j]).0,
{
    assert(pairs.push((key, value)).drop_last() == pairs);
}

impl SecretMappings {
    /// The entries as reference and variable name, in order.
    pub closed spec fn pairs(&self) -> Seq<(Seq<char>, Seq<char>)> {
        views(self.entries@)
    }

    #[verifier::type_invariant]
    spec fn inv(&self) -> bool {
        distinct_keys(views(self.entries@))
    }

    /// A map without entries.
    pub fn new() -> (mappings: SecretMappings)
        ensures
            mappings@ == Map::<Seq<char>, Seq<char>>::empty(),
            mappings.pairs().len() == 0,
    {
        SecretMappings { entries: Vec::new() }
    }

    /// The number of entries.
    pub fn len(&self) -> (n: usize)
        ensures
            n == self@.len(),
            n == self.pairs().len(),
            distinct_keys(self.pairs()),
    {
        proof {
            use_type_invariant(self);
            lemma_map_of(self.pairs());
        }
        self.entries.len()
    }

    /// Whether there are no entries.
    pub fn is_empty(&self) -> (yes: bool)
        ensures
            yes == (self@ == Map::<Seq<char>, Seq<char>>::empty()),
    {
        proof {
            use_type_invariant(self);
            lemma_map_of(self.pairs());
        }
        if self.entries.len() == 0 {
            true
        } else {
            assert(self@.contains_key(self.pairs()[0].0));
            false
        }
    }

    /// Position of the entry for `reference`.
    fn find(entries: &Vec<(String, String)>, reference: &str) -> (at: Option<usize>)
        ensures
            match at {
                Some(at) => at < entries.len() && views(entries@)[at as int].0 == reference@,
                None => forall|i: int|
                    0 <= i < entries.len() ==> (#[trigger] views(entries@)[i]).0 != reference@,
            },
    {
        for i in 0..entries.len()
            invariant
                forall|j: int| 0 <= j < i ==> (#[trigger] views(entries@)[j]).0 != reference@,
        {
            if crate::text::same(entries[i].0.as_str(), reference) {
                return Some(i);
            }
        }
        None
    }

    /// The variable that `reference` is mapped to.
    pub fn get(&self, reference: &str) -> (found: Option<&String>)
        ensures
            match found {
                Some(env_var) => self@.contains_key(reference@) && env_var@ == self@[reference@],
                None => !self@.contains_key(reference@),
            },
    {
        proof {
            use_type_invariant(self);
            lemma_map_of(self.pairs());
        }
        match Self::find(&self.entries, reference) {
            Some(at) => {
                assert(self.pairs()[at as int].1 == self.entries[at as int].1@);
                Some(&self.entries[at].1)
            },
            None => None,
        }
    }

    /// Whether `reference` is mapped to a variable.
    pub fn contains_key(&self, reference: &str) -> (yes: bool)
        ensures
            yes == self@.contains_key(reference@),
    {
        self.get(reference).is_some()
    }

    /// The entry at position `at`.
    pub fn entry(&self, at: usize) -> (pair: (&str, &str))
        requires
            at < self.pairs().len(),
        ensures
            (pair.0@, pair.1@) == self.pairs()[at as int],
    {
        (self.entries[at].0.as_str(), self.entries[at].1.as_str())
    }

    /// Map `reference` to `env_var`, in place of what it was mapped to before.
    pub fn insert(&mut self, reference: String, env_var: String)
        ensures
            final(self)@ == old(self)@.insert(reference@, env_var@),
    {
        proof {
            use_type_invariant(&*self);
            lemma_map_of(self.pairs());
        }
        let ghost before = self.pairs();
        let ghost pair = (reference@, env_var@);
        let mut entries: Vec<(String, String)> = Vec::new();
        std::mem::swap(&mut entries, &mut self.entries);
        match Self::find(&entries, reference.as_str()) {
            Some(at) => {
                entries.set(at, (reference, env_var));
                proof {
                    let after = views(entries@);
                    assert(after == before.update(at as int, pair));
                    assert forall|i: int, j: int| 0 <= i < j < after.len() implies (
                    #[trigger] after[i]).0 != (#[trigger] after[j]).0 by {
                        assert(after[i].0 == before[i].0 && after[j].0 == before[j].0);
                    }
                    lemma_map_of(after);
                    assert(map_of(after) == map_of(before).insert(pair.0, pair.1)) by {
                        assert forall|key: Seq<char>| #[trigger]
                            map_of(after).contains_key(key) == map_of(before).contains_key(key) by {
                            if map_of(after).contains_key(key) {
                                let i = choose|i: int|
                                    0 <= i < after.len() && (#[trigger] after[i]).0 == key;
                                assert(before[i].0 == key);
                            }
                            if map_of(before).contains_key(key) {
                                let i = choose|i: int|
                                    0 <= i < before.len() && (#[trigger] before[i]).0 == key;
                                assert(after[i].0 == key);
                            }
                        }
                        assert(after[at as int] == pair);
                        assert forall|key: Seq<char>|
                            map_of(before).contains_key(key) && key != pair.0 implies #[trigger]
                        map_of(after)[key] == map_of(before)[key] by {
                            let i = choose|i: int|
                                0 <= i < before.len() && (#[trigger] before[i]).0 == key;
                            assert(after[i] == before[i]);
                        }
                    }
                }
            },
            None => {
                entries.push((reference, env_var));
                proof {
                    let after = views(entries@);
                    assert(after == before.push(pair));
                    assert(after.drop_last() == before);
                    assert forall|i: int, j: int| 0 <= i < j < after.len() implies (
                    #[trigger] after[i]).0 != (#[trigger] after[j]).0 by {
                        assert(after[i] == before[i]);
                        if j < before.len() {
                            assert(after[j] == before[j]);
                        }
                    }
                }
            },
        }
        self.entries = entries;
    }

    /// Take over the entries of `other`. Where both maps have an entry for a
    /// reference, the one of `other` stays.
    pub fn extend(&mut self, other: SecretMappings)
        ensures
            final(self)@ == old(self)@.union_prefer_right(other@),
    {
        let ghost before = self@;
        let ghost pairs = other.pairs();
        assert(pairs.take(0) == Seq::<(Seq<char>, Seq<char>)>::empty());
        assert(before.union_prefer_right(map_of(pairs.take(0))) == before);
        for i in 0..other.entries.len()
            invariant
                pairs == views(other.entries@),
                self@ == before.union_prefer_right(map_of(pairs.take(i as int))),
        {
            let reference = other.entries[i].0.clone();
            let env_var = other.entries[i].1.clone();
            self.insert(reference, env_var);
            proof {
                let done = pairs.take(i as int);
                let more = pairs.take(i + 1);
                assert(more.drop_last() == done);
                assert(more.last() == pairs[i as int]);
                assert(before.union_prefer_right(map_of(done)).insert(
                    pairs[i as int].0,
                    pairs[i as int].1,
                ) == before.union_prefer_right(map_of(more)));
            }
        }
        assert(pairs.take(pairs.len() as int) == pairs);
    }
}

impl Clone for SecretMappings {
    /// A map with the same entries in the same order.
    fn clone(&self) -> (copy: SecretMappings)
        ensures
            copy@ == self@,
            copy.pairs() == self.pairs(),
    {
        proof {
            use_type_invariant(self);
        }
        let mut entries: Vec<(String, String)> = Vec::new();
        for i in 0..self.entries.len()
            invariant
                views(entries@) == views(self.entries@).take(i as int),
        {
            let reference = self.entries[i].0.clone();
            let env_var = self.entries[i].1.clone();
            let ghost done = entries@;
            let ghost entry = (reference, env_var);
            entries.push((reference, env_var));
            assert(views(entries@) == views(done).push((entry.0@, entry.1@)));
        }
        assert(views(entries@) == views(self.entries@));
        SecretMappings { entries }
    }
}

} // verus!
