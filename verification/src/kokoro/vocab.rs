//! The fixed vocabulary: which phonemes the model knows, and by which number.

use crate::text;
use std::collections::HashMap;
use vstd::hash_map::StringHashMap;
use vstd::prelude::*;

verus! {

/// Model context; a pad token wraps both ends.
pub const MAX_PHONEMES: usize = 510;

/// `serde_json::Error`.
#[verifier::external_type_specification]
#[verifier::external_body]
pub struct ExJsonError(serde_json::Error);

/// The map that `serde_json::from_str` reads as a `HashMap<String, i64>`, if the text is one
/// JSON object whose values are integers of 64 bits.
pub uninterp spec fn json_map(json: Seq<char>) -> Option<Map<Seq<char>, i64>>;

/// The first `n` entries as a map.
pub open spec fn mapped(entries: Seq<(String, i64)>, n: int) -> Map<Seq<char>, i64>
    decreases n,
{
    if n <= 0 {
        Map::empty()
    } else {
        mapped(entries, n - 1).insert(entries[n - 1].0@, entries[n - 1].1)
    }
}

/// No key occurs twice.
pub open spec fn has_distinct_keys(entries: Seq<(String, i64)>) -> bool {
    forall|i: int, j: int|
        0 <= i < j < entries.len() ==> (#[trigger] entries[i]).0@ != (#[trigger] entries[j]).0@
}

/// `serde_json::from_str` into a `HashMap<String, i64>`, handed out entry by entry. What it
/// accepts and which map it reads depend on the text alone; the entries come in no
/// particular order, and no key comes twice.
#[verifier::external_body]
fn json_entries(json: &str) -> (r: Result<Vec<(String, i64)>, serde_json::Error>)
    ensures
        match r {
            Ok(entries) => json_map(json@) == Some(mapped(entries@, entries@.len() as int))
                && has_distinct_keys(entries@),
            Err(_) => json_map(json@) is None,
        },
{
    let map: HashMap<String, i64> = serde_json::from_str(json)?;
    Ok(map.into_iter().collect())
}

/// Why there is no vocabulary.
#[derive(Clone, Copy, PartialEq, Eq, Structural, Debug)]
pub enum VocabError {
    /// The text is not a JSON object from strings to integers.
    Malformed,
}

/// From phonemes to token ids.
pub struct Vocab {
    ids: StringHashMap<i64>,
}

impl View for Vocab {
    type V = Map<Seq<char>, i64>;

    closed spec fn view(&self) -> Map<Seq<char>, i64> {
        self.ids@
    }
}

/// The id of a phoneme of one character.
pub open spec fn id_of(vocab: Map<Seq<char>, i64>, c: char) -> Option<i64> {
    if vocab.contains_key(seq![c]) {
        Some(vocab[seq![c]])
    } else {
        None
    }
}

impl Vocab {
    /// The vocabulary with the given entries; of two with one key the later one counts.
    pub fn from_entries(entries: &Vec<(String, i64)>) -> (r: Vocab)
        ensures
            r@ == mapped(entries@, entries@.len() as int),
    {
        let mut ids: StringHashMap<i64> = StringHashMap::new();
        let mut i: usize = 0;
        while i < entries.len()
            invariant
                i <= entries@.len(),
                ids@ == mapped(entries@, i as int),
            decreases entries@.len() - i,
        {
            ids.insert(entries[i].0.clone(), entries[i].1);
            i += 1;
        }
        Vocab { ids }
    }

    /// Reads a vocabulary from JSON.
    pub fn parse(json: &str) -> (r: Result<Vocab, VocabError>)
        ensures
            match r {
                Ok(vocab) => json_map(json@) == Some(vocab@),
                Err(e) => json_map(json@) is None && e == VocabError::Malformed,
            },
    {
        match json_entries(json) {
            Ok(entries) => Ok(Vocab::from_entries(&entries)),
            Err(_) => Err(VocabError::Malformed),
        }
    }

    /// The id of a phoneme, if the model knows it.
    pub fn id(&self, c: char) -> (r: Option<i64>)
        ensures
            r == id_of(self@, c),
    {
        let mut key: String = String::new();
        key.push(c);
        assert(key@ =~= seq![c]);
        match self.ids.get(key.as_str()) {
            Some(id) => Some(*id),
            None => None,
        }
    }
}

/// The ids of the characters of `s` that the vocabulary has, in order.
pub open spec fn ids_in(vocab: Map<Seq<char>, i64>, s: Seq<char>) -> Seq<i64>
    decreases s.len(),
{
    if s.len() == 0 {
        Seq::empty()
    } else {
        match id_of(vocab, s.last()) {
            Some(id) => ids_in(vocab, s.drop_last()).push(id),
            None => ids_in(vocab, s.drop_last()),
        }
    }
}

/// `ids`, cut off where the model's context ends.
pub open spec fn within_context(ids: Seq<i64>) -> Seq<i64> {
    if ids.len() > MAX_PHONEMES {
        ids.take(MAX_PHONEMES as int)
    } else {
        ids
    }
}

/// The tokens of a row of phonemes.
pub open spec fn tokens_of(vocab: Map<Seq<char>, i64>, phonemes: Seq<char>) -> Seq<i64> {
    within_context(ids_in(vocab, phonemes))
}

/// Tokenize IPA against the fixed vocabulary. Symbols that the vocabulary doesn't carry
/// (e.g. espeak's ZWJ ties) are dropped silently, and what does not fit the model's context
/// is cut off.
pub fn tokenize(phonemes: &str, vocab: &Vocab) -> (r: Vec<i64>)
    ensures
        r@ == tokens_of(vocab@, phonemes@),
{
    let chars: Vec<char> = text::chars_of(phonemes);
    let mut ids: Vec<i64> = Vec::new();
    let mut i: usize = 0;
    while i < chars.len()
        invariant
            i <= chars@.len(),
            ids@ == ids_in(vocab@, chars@.take(i as int)),
        decreases chars@.len() - i,
    {
        assert(chars@.take(i + 1).drop_last() =~= chars@.take(i as int));
        if let Some(id) = vocab.id(chars[i]) {
            ids.push(id);
        }
        i += 1;
    }
    assert(chars@.take(i as int) =~= chars@);
    if ids.len() > MAX_PHONEMES {
        ids.truncate(MAX_PHONEMES);
    }
    ids
}

proof fn lemma_mapped(entries: Seq<(String, i64)>, n: int, i: int)
    requires
        0 <= i < n <= entries.len(),
        has_distinct_keys(entries),
    ensures
        mapped(entries, n).contains_key(entries[i].0@),
        mapped(entries, n)[entries[i].0@] == entries[i].1,
    decreases n,
{
    if i < n - 1 {
        lemma_mapped(entries, n - 1, i);
        assert(entries[i].0@ != entries[n - 1].0@);
    }
}

/// Every entry of a vocabulary without repeated keys is found under its key.
pub proof fn law_every_entry_is_found(entries: Seq<(String, i64)>, i: int)
    requires
        0 <= i < entries.len(),
        has_distinct_keys(entries),
    ensures
        mapped(entries, entries.len() as int).contains_key(entries[i].0@),
        mapped(entries, entries.len() as int)[entries[i].0@] == entries[i].1,
{
    lemma_mapped(entries, entries.len() as int, i);
}

/// Symbols that the vocabulary carries become tokens one for one: token `i` is what the
/// vocabulary has for character `i`, whichever that is, and only what is beyond the first 510
/// is cut off.
pub proof fn law_known_symbols_are_tokens(vocab: Map<Seq<char>, i64>, phonemes: Seq<char>)
    requires
        forall|i: int|
            0 <= i < phonemes.len() ==> vocab.contains_key(seq![#[trigger] phonemes[i]]),
    ensures
        tokens_of(vocab, phonemes).len() == if phonemes.len() <= 510 {
            phonemes.len()
        } else {
            510
        },
        forall|i: int|
            0 <= i < tokens_of(vocab, phonemes).len() ==> #[trigger] tokens_of(vocab, phonemes)[i]
                == vocab[seq![phonemes[i]]],
{
    lemma_ids_of_known(vocab, phonemes);
}

proof fn lemma_ids_of_known(vocab: Map<Seq<char>, i64>, s: Seq<char>)
    requires
        forall|i: int| 0 <= i < s.len() ==> vocab.contains_key(seq![#[trigger] s[i]]),
    ensures
        ids_in(vocab, s).len() == s.len(),
        forall|i: int|
            0 <= i < s.len() ==> #[trigger] ids_in(vocab, s)[i] == vocab[seq![s[i]]],
    decreases s.len(),
{
    if s.len() > 0 {
        let front = s.drop_last();
        assert forall|i: int| 0 <= i < front.len() implies vocab.contains_key(
            seq![#[trigger] front[i]],
        ) by {
            assert(front[i] == s[i]);
        }
        lemma_ids_of_known(vocab, front);
        assert(vocab.contains_key(seq![s[s.len() - 1]]));
        assert forall|i: int| 0 <= i < s.len() implies #[trigger] ids_in(vocab, s)[i]
            == vocab[seq![s[i]]] by {
            if i < front.len() {
                assert(ids_in(vocab, s)[i] == ids_in(vocab, front)[i]);
                assert(front[i] == s[i]);
            }
        }
    }
}

/// There are tokens exactly if the vocabulary carries one of the symbols.
pub proof fn lemma_some_known(vocab: Map<Seq<char>, i64>, s: Seq<char>)
    ensures
        (tokens_of(vocab, s).len() > 0) == (exists|i: int|
            0 <= i < s.len() && vocab.contains_key(seq![#[trigger] s[i]])),
    decreases s.len(),
{
    if s.len() > 0 {
        let front = s.drop_last();
        lemma_some_known(vocab, front);
        if exists|i: int| 0 <= i < front.len() && vocab.contains_key(seq![#[trigger] front[i]]) {
            let i = choose|i: int|
                0 <= i < front.len() && vocab.contains_key(seq![#[trigger] front[i]]);
            assert(vocab.contains_key(seq![s[i]]));
        }
        if exists|i: int| 0 <= i < s.len() && vocab.contains_key(seq![#[trigger] s[i]]) {
            let i = choose|i: int| 0 <= i < s.len() && vocab.contains_key(seq![#[trigger] s[i]]);
            if i < front.len() {
                assert(vocab.contains_key(seq![front[i]]));
            } else {
                assert(s[i] == s.last());
            }
        }
        if vocab.contains_key(seq![s.last()]) {
            assert(vocab.contains_key(seq![s[s.len() - 1]]));
        }
    }
}

/// A symbol has an id exactly if the vocabulary carries it, and then the vocabulary's.
pub proof fn law_ids_are_the_vocabularys(vocab: Map<Seq<char>, i64>, c: char)
    ensures
        vocab.contains_key(seq![c]) ==> id_of(vocab, c) == Some(vocab[seq![c]]),
        !vocab.contains_key(seq![c]) ==> id_of(vocab, c) is None,
{
}

/// The last entry with a key counts, and there is no key without an entry.
pub proof fn law_last_entries_count(entries: Seq<(String, i64)>, i: int)
    requires
        0 <= i < entries.len(),
        forall|j: int| i < j < entries.len() ==> (#[trigger] entries[j]).0@ != entries[i].0@,
    ensures
        ({
            let map = mapped(entries, entries.len() as int);
            &&& map.contains_key(entries[i].0@)
            &&& map[entries[i].0@] == entries[i].1
            &&& forall|key: Seq<char>| #[trigger]
                map.contains_key(key) ==> exists|j: int|
                    0 <= j < entries.len() && (#[trigger] entries[j]).0@ == key
        }),
{
    lemma_last_entry(entries, entries.len() as int, i);
    lemma_keys_have_entries(entries, entries.len() as int);
}

proof fn lemma_last_entry(entries: Seq<(String, i64)>, n: int, i: int)
    requires
        0 <= i < n <= entries.len(),
        forall|j: int| i < j < n ==> (#[trigger] entries[j]).0@ != entries[i].0@,
    ensures
        mapped(entries, n).contains_key(entries[i].0@),
        mapped(entries, n)[entries[i].0@] == entries[i].1,
    decreases n,
{
    if i < n - 1 {
        lemma_last_entry(entries, n - 1, i);
        assert(entries[n - 1].0@ != entries[i].0@);
    }
}

proof fn lemma_keys_have_entries(entries: Seq<(String, i64)>, n: int)
    requires
        0 <= n <= entries.len(),
    ensures
        forall|key: Seq<char>| #[trigger]
            mapped(entries, n).contains_key(key) ==> exists|j: int|
                0 <= j < n && (#[trigger] entries[j]).0@ == key,
    decreases n,
{
    if n > 0 {
        lemma_keys_have_entries(entries, n - 1);
        assert forall|key: Seq<char>| #[trigger] mapped(entries, n).contains_key(key) implies exists|
            j: int,
        |
            0 <= j < n && (#[trigger] entries[j]).0@ == key by {
            if key == entries[n - 1].0@ {
                assert(entries[n - 1].0@ == key);
            } else {
                assert(mapped(entries, n - 1).contains_key(key));
                let j = choose|j: int| 0 <= j < n - 1 && (#[trigger] entries[j]).0@ == key;
                assert(entries[j].0@ == key);
            }
        }
    }
}

/// Of two entries with one key the later one counts, and no other key is touched.
pub proof fn law_later_entries_count(entries: Seq<(String, i64)>, key: String, id: i64, c: Seq<char>)
    ensures
        ({
            let before = mapped(entries, entries.len() as int);
            let after = mapped(entries.push((key, id)), entries.len() as int + 1);
            &&& after.contains_key(key@) && after[key@] == id
            &&& c != key@ ==> after.contains_key(c) == before.contains_key(c)
            &&& c != key@ && before.contains_key(c) ==> after[c] == before[c]
        }),
{
    lemma_mapped_prefix(entries, entries.push((key, id)), entries.len() as int);
}

proof fn lemma_mapped_prefix(a: Seq<(String, i64)>, b: Seq<(String, i64)>, n: int)
    requires
        0 <= n <= a.len(),
        n <= b.len(),
        forall|i: int| 0 <= i < n ==> #[trigger] a[i] == b[i],
    ensures
        mapped(a, n) == mapped(b, n),
    decreases n,
{
    if n > 0 {
        lemma_mapped_prefix(a, b, n - 1);
        assert(a[n - 1] == b[n - 1]);
    }
}

/// A symbol that the vocabulary doesn't carry changes nothing, wherever it stands.
pub proof fn law_unknown_symbols_are_dropped(
    vocab: Map<Seq<char>, i64>,
    a: Seq<char>,
    c: char,
    b: Seq<char>,
)
    requires
        !vocab.contains_key(seq![c]),
    ensures
        tokens_of(vocab, a.push(c) + b) == tokens_of(vocab, a + b),
{
    lemma_ids_concat(vocab, a.push(c), b);
    lemma_ids_concat(vocab, a, b);
    assert(a.push(c).drop_last() =~= a);
}

proof fn lemma_ids_concat(vocab: Map<Seq<char>, i64>, a: Seq<char>, b: Seq<char>)
    ensures
        ids_in(vocab, a + b) == ids_in(vocab, a) + ids_in(vocab, b),
    decreases b.len(),
{
    if b.len() == 0 {
        assert(a + b =~= a);
        assert(ids_in(vocab, a) + ids_in(vocab, b) =~= ids_in(vocab, a));
    } else {
        lemma_ids_concat(vocab, a, b.drop_last());
        assert((a + b).drop_last() =~= a + b.drop_last());
        assert((a + b).last() == b.last());
        assert(ids_in(vocab, a + b) =~= ids_in(vocab, a) + ids_in(vocab, b));
    }
}

} // verus!
