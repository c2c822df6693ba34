//! The vocabulary abstraction: a uniform token-to-ID and ID-to-token lookup
//! surface with a special-token registry and unknown-token fallback.
//!
//! A mapping is held as a vector of key-value pairs with pairwise distinct
//! keys; its mathematical model is the `Map` built by inserting the pairs in
//! order.

use vstd::prelude::*;
use vstd::string::StringExecFns;

use crate::chars::char_is_whitespace;
use crate::chars::is_whitespace_char;
use crate::error::TokenizerError;
use crate::text::chars_vec;
use crate::text::string_from_chars;

verus! {

/// The map modelled by a token-to-ID pair vector, later pairs taking
/// precedence.
pub open spec fn pairs_map(s: Seq<(String, i64)>) -> Map<Seq<char>, int>
    decreases s.len(),
{
    if s.len() == 0 {
        Map::empty()
    } else {
        pairs_map(s.drop_last()).insert(s.last().0@, s.last().1 as int)
    }
}

/// The map modelled by an ID-to-token pair vector, later pairs taking
/// precedence.
pub open spec fn ids_map(s: Seq<(i64, String)>) -> Map<int, Seq<char>>
    decreases s.len(),
{
    if s.len() == 0 {
        Map::empty()
    } else {
        ids_map(s.drop_last()).insert(s.last().0 as int, s.last().1@)
    }
}

/// The keys of the pair vector are pairwise distinct.
pub open spec fn keys_unique(s: Seq<(String, i64)>) -> bool {
    forall|i: int, j: int| 0 <= i < j < s.len() ==> s[i].0@ != s[j].0@
}

/// The IDs of the pair vector are pairwise distinct.
pub open spec fn vals_unique(s: Seq<(String, i64)>) -> bool {
    forall|i: int, j: int| 0 <= i < j < s.len() ==> s[i].1 != s[j].1
}

/// The keys of an ID-to-token pair vector are pairwise distinct.
pub open spec fn id_keys_unique(s: Seq<(i64, String)>) -> bool {
    forall|i: int, j: int| 0 <= i < j < s.len() ==> s[i].0 != s[j].0
}

/// A pair whose key occurs nowhere else gives the map's value at that key.
pub proof fn lemma_pairs_map_match(s: Seq<(String, i64)>, j: int)
    requires
        keys_unique(s),
        0 <= j < s.len(),
    ensures
        pairs_map(s).contains_key(s[j].0@),
        pairs_map(s)[s[j].0@] == s[j].1 as int,
    decreases s.len(),
{
    if j < s.len() - 1 {
        lemma_pairs_map_match(s.drop_last(), j);
    }
}

/// A key under which no pair stands is not in the map.
pub proof fn lemma_pairs_map_no_match(s: Seq<(String, i64)>, k: Seq<char>)
    requires
        forall|j: int| 0 <= j < s.len() ==> s[j].0@ != k,
    ensures
        !pairs_map(s).contains_key(k),
    decreases s.len(),
{
    if s.len() > 0 {
        lemma_pairs_map_no_match(s.drop_last(), k);
    }
}

/// [`lemma_pairs_map_match`] for ID-keyed pair vectors.
pub proof fn lemma_ids_map_match(s: Seq<(i64, String)>, j: int)
    requires
        id_keys_unique(s),
        0 <= j < s.len(),
    ensures
        ids_map(s).contains_key(s[j].0 as int),
        ids_map(s)[s[j].0 as int] == s[j].1@,
    decreases s.len(),
{
    if j < s.len() - 1 {
        lemma_ids_map_match(s.drop_last(), j);
    }
}

/// [`lemma_pairs_map_no_match`] for ID-keyed pair vectors.
pub proof fn lemma_ids_map_no_match(s: Seq<(i64, String)>, k: int)
    requires
        forall|j: int| 0 <= j < s.len() ==> s[j].0 != k,
    ensures
        !ids_map(s).contains_key(k),
    decreases s.len(),
{
    if s.len() > 0 {
        lemma_ids_map_no_match(s.drop_last(), k);
    }
}

/// Every key of the map stands in some pair.
pub proof fn lemma_pairs_map_dom(s: Seq<(String, i64)>, k: Seq<char>)
    requires
        pairs_map(s).contains_key(k),
    ensures
        exists|j: int| 0 <= j < s.len() && s[j].0@ == k,
    decreases s.len(),
{
    if s.len() > 0 && s.last().0@ != k {
        lemma_pairs_map_dom(s.drop_last(), k);
    }
}

/// Every key of the map stands in some pair.
pub proof fn lemma_ids_map_dom(s: Seq<(i64, String)>, k: int)
    requires
        ids_map(s).contains_key(k),
    ensures
        exists|j: int| 0 <= j < s.len() && s[j].0 == k,
    decreases s.len(),
{
    if s.len() > 0 && s.last().0 != k {
        lemma_ids_map_dom(s.drop_last(), k);
    }
}

/// The ID a token maps to, or `None` if the token is not in the mapping.
pub fn lookup_token(pairs: &Vec<(String, i64)>, token: &str) -> (r: Option<i64>)
    requires
        keys_unique(pairs@),
    ensures
        match r {
            Some(v) => pairs_map(pairs@).contains_key(token@) && v as int == pairs_map(
                pairs@,
            ).index(token@),
            None => !pairs_map(pairs@).contains_key(token@),
        },
{
    let key = String::from_str(token);
    let n = pairs.len();
    let mut i: usize = 0;
    while i < n
        invariant
            i <= n,
            n == pairs@.len(),
            key@ == token@,
            keys_unique(pairs@),
            forall|j: int| 0 <= j < i ==> pairs@[j].0@ != token@,
        decreases n - i,
    {
        if pairs[i].0 == key {
            proof {
                lemma_pairs_map_match(pairs@, i as int);
            }
            return Some(pairs[i].1);
        }
        i += 1;
    }
    proof {
        lemma_pairs_map_no_match(pairs@, token@);
    }
    None
}

/// The token an ID maps to, or `None` if the ID is not in the mapping.
pub fn lookup_id(pairs: &Vec<(i64, String)>, id: i64) -> (r: Option<String>)
    requires
        id_keys_unique(pairs@),
    ensures
        match r {
            Some(t) => ids_map(pairs@).contains_key(id as int) && t@ == ids_map(pairs@)[id as int],
            None => !ids_map(pairs@).contains_key(id as int),
        },
{
    let n = pairs.len();
    let mut i: usize = 0;
    while i < n
        invariant
            i <= n,
            n == pairs@.len(),
            id_keys_unique(pairs@),
            forall|j: int| 0 <= j < i ==> pairs@[j].0 != id,
        decreases n - i,
    {
        if pairs[i].0 == id {
            proof {
                lemma_ids_map_match(pairs@, i as int);
            }
            return Some(String::from_str(pairs[i].1.as_str()));
        }
        i += 1;
    }
    proof {
        lemma_ids_map_no_match(pairs@, id as int);
    }
    None
}

/// Whether the mapping contains the token.
pub fn contains_token(pairs: &Vec<(String, i64)>, token: &str) -> (r: bool)
    requires
        keys_unique(pairs@),
    ensures
        r == pairs_map(pairs@).contains_key(token@),
{
    lookup_token(pairs, token).is_some()
}

/// Whether the mapping contains the ID.
pub fn contains_id(pairs: &Vec<(i64, String)>, id: i64) -> (r: bool)
    requires
        id_keys_unique(pairs@),
    ensures
        r == ids_map(pairs@).contains_key(id as int),
{
    lookup_id(pairs, id).is_some()
}

/// The pair vector with every key-value pair swapped, turning a token-to-ID
/// mapping into the ID-to-token mapping.
pub fn swap_key_values(input: &Vec<(String, i64)>) -> (r: Vec<(i64, String)>)
    ensures
        r@.len() == input@.len(),
        forall|i: int|
            0 <= i < input@.len() ==> r@[i].0 == input@[i].1 && r@[i].1@ == input@[i].0@,
{
    let n = input.len();
    let mut out: Vec<(i64, String)> = Vec::new();
    let mut i: usize = 0;
    while i < n
        invariant
            i <= n,
            n == input@.len(),
            out@.len() == i,
            forall|j: int| 0 <= j < i ==> out@[j].0 == input@[j].1 && out@[j].1@ == input@[j].0@,
        decreases n - i,
    {
        let token = String::from_str(input[i].0.as_str());
        out.push((input[i].1, token));
        i += 1;
    }
    out
}

/// Updating a pair in place rewrites the map entry of its key.
pub proof fn lemma_pairs_map_update(s: Seq<(String, i64)>, p: int, pair: (String, i64))
    requires
        keys_unique(s),
        0 <= p < s.len(),
        s[p].0@ == pair.0@,
    ensures
        pairs_map(s.update(p, pair)) == pairs_map(s).insert(pair.0@, pair.1 as int),
    decreases s.len(),
{
    let t = s.update(p, pair);
    if p == s.len() - 1 {
        assert(t.drop_last() =~= s.drop_last());
        assert(pairs_map(s).insert(pair.0@, pair.1 as int) =~= pairs_map(s.drop_last()).insert(
            pair.0@,
            pair.1 as int,
        ));
    } else {
        lemma_pairs_map_update(s.drop_last(), p, pair);
        assert(t.drop_last() =~= s.drop_last().update(p, pair));
        assert(t.last() == s.last());
        assert(pairs_map(s.drop_last()).insert(pair.0@, pair.1 as int).insert(
            s.last().0@,
            s.last().1 as int,
        ) =~= pairs_map(s).insert(pair.0@, pair.1 as int));
    }
}

/// Inserts a token-to-ID pair, replacing the pair of an already-present key
/// as a map insertion would.
pub(crate) fn insert_pair(values: &mut Vec<(String, i64)>, key: String, id: i64)
    requires
        keys_unique(old(values)@),
        vals_unique(old(values)@),
        forall|j: int| 0 <= j < old(values)@.len() ==> old(values)@[j].1 < id,
    ensures
        keys_unique(final (values)@),
        vals_unique(final (values)@),
        forall|j: int| 0 <= j < final (values)@.len() ==> final (values)@[j].1 <= id,
        pairs_map(final (values)@) == pairs_map(old(values)@).insert(key@, id as int),
{
    let n = values.len();
    let mut i: usize = 0;
    while i < n
        invariant
            i <= n,
            n == values@.len(),
            *values == *old(values),
            keys_unique(values@),
            vals_unique(values@),
            forall|j: int| 0 <= j < values@.len() ==> values@[j].1 < id,
            forall|j: int| 0 <= j < i ==> values@[j].0@ != key@,
        decreases n - i,
    {
        if values[i].0 == key {
            let ghost old_seq = values@;
            let ghost kview = key@;
            values[i] = (key, id);
            proof {
                lemma_pairs_map_update(old_seq, i as int, (values@[i as int].0, id));
                assert(values@ =~= old_seq.update(i as int, values@[i as int]));
            }
            return ;
        }
        i += 1;
    }
    values.push((key, id));
    proof {
        assert(values@.drop_last() =~= old(values)@);
    }
}

/// The ID a token resolves to: its special-token ID if it is registered as
/// special, else its vocabulary ID, else the ID of the unknown token.
pub open spec fn spec_token_to_id(
    sm: Map<Seq<char>, int>,
    vm: Map<Seq<char>, int>,
    unk: Seq<char>,
    t: Seq<char>,
) -> int {
    if sm.contains_key(t) {
        sm[t]
    } else if vm.contains_key(t) {
        vm[t]
    } else {
        vm[unk]
    }
}

/// The token an ID resolves to: its special token if the ID is registered as
/// special, else its vocabulary token, else the unknown token.
pub open spec fn spec_id_to_token(
    sim: Map<int, Seq<char>>,
    im: Map<int, Seq<char>>,
    unk: Seq<char>,
    id: int,
) -> Seq<char> {
    if sim.contains_key(id) {
        sim[id]
    } else if im.contains_key(id) {
        im[id]
    } else {
        unk
    }
}

/// A vocabulary: four maps (token to ID and ID to token, for all tokens and
/// for the registered special tokens) and an unknown-token fallback.
pub trait Vocab: Sized {
    /// The token-to-ID map.
    spec fn values_map(&self) -> Map<Seq<char>, int>;

    /// The ID-to-token map, the inverse of [`Vocab::values_map`].
    spec fn indices_map(&self) -> Map<int, Seq<char>>;

    /// The token-to-ID map of the registered special tokens.
    spec fn special_map(&self) -> Map<Seq<char>, int>;

    /// The ID-to-token map of the registered special tokens.
    spec fn special_indices_map(&self) -> Map<int, Seq<char>>;

    /// The unknown-token string.
    spec fn unknown_view(&self) -> Seq<char>;

    /// The vocabulary's invariant: unique keys and IDs, index maps inverse to
    /// token maps, special tokens registered with their vocabulary IDs, and
    /// the unknown token present.
    spec fn wf(&self) -> bool;

    /// The unknown value on an instance.
    fn get_unknown_value(&self) -> (r: &str)
        ensures
            r@ == self.unknown_view(),
    ;

    /// The token-to-ID pairs.
    fn values(&self) -> (r: &Vec<(String, i64)>)
        requires
            self.wf(),
        ensures
            keys_unique(r@),
            pairs_map(r@) == self.values_map(),
    ;

    /// The ID-to-token pairs.
    fn indices(&self) -> (r: &Vec<(i64, String)>)
        requires
            self.wf(),
        ensures
            id_keys_unique(r@),
            ids_map(r@) == self.indices_map(),
    ;

    /// The special-token-to-ID pairs.
    fn special_values(&self) -> (r: &Vec<(String, i64)>)
        requires
            self.wf(),
        ensures
            keys_unique(r@),
            pairs_map(r@) == self.special_map(),
    ;

    /// The ID-to-special-token pairs.
    fn special_indices(&self) -> (r: &Vec<(i64, String)>)
        requires
            self.wf(),
        ensures
            id_keys_unique(r@),
            ids_map(r@) == self.special_indices_map(),
    ;

    /// The ID of a token, total: unrecognized tokens resolve to the ID of the
    /// unknown token rather than failing.
    fn token_to_id(&self, token: &str) -> (r: i64)
        requires
            self.wf(),
        ensures
            r as int == spec_token_to_id(
                self.special_map(),
                self.values_map(),
                self.unknown_view(),
                token@,
            ),
    ;

    /// The token of an ID, total: unrecognized IDs resolve to the unknown
    /// token rather than failing.
    fn id_to_token(&self, id: &i64) -> (r: String)
        requires
            self.wf(),
        ensures
            r@ == spec_id_to_token(
                self.special_indices_map(),
                self.indices_map(),
                self.unknown_view(),
                *id as int,
            ),
    ;

    /// The IDs of the given tokens, in order, each resolved as by
    /// [`Vocab::token_to_id`].
    fn convert_tokens_to_ids(&self, tokens: Vec<&str>) -> (r: Vec<i64>)
        requires
            self.wf(),
        ensures
            r@.len() == tokens@.len(),
            forall|i: int|
                0 <= i < tokens@.len() ==> r@[i] as int == spec_token_to_id(
                    self.special_map(),
                    self.values_map(),
                    self.unknown_view(),
                    tokens@[i]@,
                ),
    ;
}

/// The first index at or after `from` holding a non-whitespace character, or
/// the length if there is none.
pub open spec fn first_non_ws(s: Seq<char>, from: int) -> int
    decreases s.len() - from,
{
    if from < 0 || from >= s.len() {
        s.len() as int
    } else if !is_whitespace_char(s[from]) {
        from
    } else {
        first_non_ws(s, from + 1)
    }
}

/// The index of the last non-whitespace character, or `-1` if there is none.
pub open spec fn last_non_ws(s: Seq<char>) -> int
    decreases s.len(),
{
    if s.len() == 0 {
        -1
    } else if !is_whitespace_char(s.last()) {
        s.len() - 1
    } else {
        last_non_ws(s.drop_last())
    }
}

/// The sequence with leading and trailing whitespace removed.
pub open spec fn trim_spec(s: Seq<char>) -> Seq<char> {
    let a = first_non_ws(s, 0);
    let b = last_non_ws(s);
    if a <= b {
        s.subrange(a, b + 1)
    } else {
        Seq::empty()
    }
}

/// The string with leading and trailing whitespace removed.
pub fn trimmed(s: &str) -> (r: String)
    ensures
        r@ == trim_spec(s@),
{
    let cs = chars_vec(s);
    let n = cs.len();
    let mut a: usize = 0;
    while a < n && char_is_whitespace(cs[a])
        invariant
            a <= n,
            n == cs@.len(),
            cs@ == s@,
            first_non_ws(s@, 0) == first_non_ws(s@, a as int),
        decreases n - a,
    {
        a += 1;
    }
    let mut b: usize = n;
    proof {
        assert(s@.take(n as int) =~= s@);
    }
    while b > 0 && char_is_whitespace(cs[b - 1])
        invariant
            b <= n,
            n == cs@.len(),
            cs@ == s@,
            last_non_ws(s@) == last_non_ws(s@.take(b as int)),
        decreases b,
    {
        proof {
            assert(s@.take(b as int).drop_last() =~= s@.take(b - 1));
        }
        b -= 1;
    }
    proof {
        if b > 0 {
            assert(s@.take(b as int).last() == s@[b - 1]);
            assert(last_non_ws(s@) == b - 1);
        }
    }
    let mut out: Vec<char> = Vec::new();
    let mut i: usize = a;
    while i < b
        invariant
            a <= i,
            i <= b || b < a,
            b < a ==> i == a,
            b <= n,
            n == cs@.len(),
            cs@ == s@,
            out@ == s@.subrange(a as int, i as int),
        decreases n - i,
    {
        out.push(cs[i]);
        proof {
            assert(out@ =~= s@.subrange(a as int, i + 1));
        }
        i += 1;
    }
    proof {
        if a < b {
            assert(out@ == trim_spec(s@));
        } else {
            assert(out@ =~= Seq::<char>::empty());
            if first_non_ws(s@, 0) <= last_non_ws(s@) {
                assert(a == first_non_ws(s@, 0));
                assert(last_non_ws(s@) < b);
                assert(false);
            }
        }
    }
    string_from_chars(&out)
}

/// Distinct keys carry distinct IDs in the map of a pair vector whose keys
/// and IDs are unique.
pub proof fn lemma_pairs_map_injective(s: Seq<(String, i64)>, k1: Seq<char>, k2: Seq<char>)
    requires
        keys_unique(s),
        vals_unique(s),
        pairs_map(s).contains_key(k1),
        pairs_map(s).contains_key(k2),
        k1 != k2,
    ensures
        pairs_map(s)[k1] != pairs_map(s)[k2],
{
    lemma_pairs_map_dom(s, k1);
    lemma_pairs_map_dom(s, k2);
    let j1 = choose|j: int| 0 <= j < s.len() && s[j].0@ == k1;
    let j2 = choose|j: int| 0 <= j < s.len() && s[j].0@ == k2;
    lemma_pairs_map_match(s, j1);
    lemma_pairs_map_match(s, j2);
}

/// The invariant shared by the vocabularies: unique keys and IDs, the index
/// pair vectors the pointwise swaps of the token pair vectors, every special
/// token registered under its vocabulary ID, and the unknown token present.
pub open spec fn vocab_parts_wf(
    values: Seq<(String, i64)>,
    indices: Seq<(i64, String)>,
    sv: Seq<(String, i64)>,
    si: Seq<(i64, String)>,
    unk: Seq<char>,
) -> bool {
    &&& keys_unique(values)
    &&& vals_unique(values)
    &&& id_keys_unique(indices)
    &&& indices.len() == values.len()
    &&& forall|i: int|
        0 <= i < values.len() ==> (#[trigger] indices[i]).0 == values[i].1 && indices[i].1@
            == values[i].0@
    &&& keys_unique(sv)
    &&& id_keys_unique(si)
    &&& si.len() == sv.len()
    &&& forall|i: int|
        0 <= i < sv.len() ==> (#[trigger] si[i]).0 == sv[i].1 && si[i].1@ == sv[i].0@
    &&& forall|i: int|
        0 <= i < sv.len() ==> pairs_map(values).contains_key((#[trigger] sv[i]).0@) && pairs_map(
            values,
        )[sv[i].0@] == sv[i].1 as int
    &&& pairs_map(values).contains_key(unk)
}

/// Registers a token as a special value: looks its ID up in the vocabulary
/// pairs and adds the pair to the special-value pairs. Fails with
/// `TokenNotFound` exactly when the token is not in the vocabulary.
pub fn _register_as_special_value(
    token: &str,
    values: &Vec<(String, i64)>,
    special_values: &mut Vec<(String, i64)>,
) -> (r: Result<(), TokenizerError>)
    requires
        keys_unique(values@),
        keys_unique(old(special_values)@),
        forall|i: int|
            0 <= i < old(special_values)@.len() ==> pairs_map(values@).contains_key(
                (#[trigger] old(special_values)@[i]).0@,
            ) && pairs_map(values@)[old(special_values)@[i].0@] == old(special_values)@[i].1 as int,
    ensures
        keys_unique(final (special_values)@),
        forall|i: int|
            0 <= i < final (special_values)@.len() ==> pairs_map(values@).contains_key(
                (#[trigger] final (special_values)@[i]).0@,
            ) && pairs_map(values@)[final (special_values)@[i].0@] == final (special_values)@[i].1
                as int,
        match r {
            Ok(_) => {
                &&& pairs_map(values@).contains_key(token@)
                &&& pairs_map(final (special_values)@) == pairs_map(old(special_values)@).insert(
                    token@,
                    pairs_map(values@)[token@],
                )
                &&& (old(special_values)@.len() <= final (special_values)@.len() <= old(
                    special_values,
                )@.len() + 1)
            },
            Err(e) => {
                &&& !pairs_map(values@).contains_key(token@)
                &&& final (special_values)@ == old(special_values)@
                &&& e matches TokenizerError::TokenNotFound(_)
            },
        },
{
    match lookup_token(values, token) {
        Some(token_id) => {
            if contains_token(special_values, token) {
                proof {
                    let sv = special_values@;
                    lemma_pairs_map_dom(sv, token@);
                    let j = choose|j: int| 0 <= j < sv.len() && sv[j].0@ == token@;
                    lemma_pairs_map_match(sv, j);
                    assert(pairs_map(sv).insert(token@, pairs_map(values@)[token@]) =~= pairs_map(
                        sv,
                    ));
                }
                Ok(())
            } else {
                proof {
                    let sv = special_values@;
                    assert forall|j: int| 0 <= j < sv.len() implies sv[j].0@ != token@ by {
                        if sv[j].0@ == token@ {
                            lemma_pairs_map_match(sv, j);
                        }
                    }
                }
                let key = String::from_str(token);
                special_values.push((key, token_id));
                proof {
                    assert(special_values@.drop_last() =~= old(special_values)@);
                }
                Ok(())
            }
        },
        None => {
            Err(
                TokenizerError::TokenNotFound(
                    String::from_str("special value not found in the vocabulary"),
                ),
            )
        },
    }
}

/// Vocabulary round-trip law: for every `(token, id)` pair of a well-formed
/// vocabulary's values, decoding the ID yields the token back and encoding
/// the token yields the ID back, whether or not the token is also registered
/// as a special value.
pub proof fn lemma_vocab_round_trip(
    values: Seq<(String, i64)>,
    indices: Seq<(i64, String)>,
    sv: Seq<(String, i64)>,
    si: Seq<(i64, String)>,
    unk: Seq<char>,
    j: int,
)
    requires
        vocab_parts_wf(values, indices, sv, si, unk),
        0 <= j < values.len(),
    ensures
        spec_id_to_token(ids_map(si), ids_map(indices), unk, values[j].1 as int) == values[j].0@,
        spec_token_to_id(pairs_map(sv), pairs_map(values), unk, values[j].0@) == values[j].1 as int,
{
    let t = values[j].0@;
    let id = values[j].1 as int;
    lemma_pairs_map_match(values, j);
    // Encoding the token: a registered special value carries its vocabulary ID.
    if pairs_map(sv).contains_key(t) {
        lemma_pairs_map_dom(sv, t);
        let p = choose|p: int| 0 <= p < sv.len() && sv[p].0@ == t;
        lemma_pairs_map_match(sv, p);
    }
    // Decoding the ID.
    if ids_map(si).contains_key(id) {
        lemma_ids_map_dom(si, id);
        let p = choose|p: int| 0 <= p < si.len() && si[p].0 == id;
        lemma_ids_map_match(si, p);
        assert(sv[p].1 as int == id);
        assert(pairs_map(values).contains_key(sv[p].0@) && pairs_map(values)[sv[p].0@] == id);
        if sv[p].0@ != t {
            lemma_pairs_map_injective(values, sv[p].0@, t);
            assert(false);
        }
    } else {
        lemma_ids_map_match(indices, j);
        assert(ids_map(indices).contains_key(id));
        lemma_ids_map_dom(indices, id);
        let p = choose|p: int| 0 <= p < indices.len() && indices[p].0 == id;
        lemma_ids_map_match(indices, p);
        assert(values[p].1 as int == id);
        if p != j {
            assert(values[p].1 != values[j].1);
            assert(false);
        }
    }
}

/// The token-to-ID map of a line-per-token vocabulary: each line trimmed of
/// surrounding whitespace, mapped to its zero-based line index, later lines
/// taking precedence.
pub open spec fn lines_map(ls: Seq<Seq<char>>) -> Map<Seq<char>, int>
    decreases ls.len(),
{
    if ls.len() == 0 {
        Map::empty()
    } else {
        lines_map(ls.drop_last()).insert(trim_spec(ls.last()), ls.len() - 1)
    }
}

/// A generic vocabulary whose unknown token is `[UNK]` and whose only
/// registered special value is the unknown token.
#[derive(Debug)]
pub struct BaseVocab {
    /// A mapping of tokens as strings to indices: the encoder base.
    pub values: Vec<(String, i64)>,
    /// A mapping of token IDs to strings: the decoder base.
    pub indices: Vec<(i64, String)>,
    /// The string to use for unknown (out of vocabulary) tokens.
    pub unknown_value: String,
    /// A mapping of special-value tokens as strings to IDs.
    pub special_values: Vec<(String, i64)>,
    /// A mapping of special-value tokens as IDs to strings.
    pub special_indices: Vec<(i64, String)>,
}

impl BaseVocab {
    /// The unknown value of this vocabulary family.
    pub fn unknown_value() -> (r: &'static str)
        ensures
            r@ == "[UNK]"@,
    {
        "[UNK]"
    }

    /// Builds the vocabulary from the lines of a line-per-token vocabulary
    /// file: the zero-based line index is the token ID, surrounding
    /// whitespace of each line is trimmed. Fails with `TokenNotFound` exactly
    /// when no line holds the unknown token `[UNK]`.
    pub fn from_lines(lines: &Vec<String>) -> (r: Result<BaseVocab, TokenizerError>)
        requires
            lines@.len() <= i64::MAX,
        ensures
            match r {
                Ok(v) => {
                    &&& v.wf()
                    &&& v.values_map() == lines_map(lines@.map_values(|l: String| l@))
                    &&& v.unknown_view() == "[UNK]"@
                    &&& v.special_map() == Map::<Seq<char>, int>::empty().insert(
                        "[UNK]"@,
                        v.values_map()["[UNK]"@],
                    )
                },
                Err(e) => {
                    &&& !lines_map(lines@.map_values(|l: String| l@)).contains_key("[UNK]"@)
                    &&& e matches TokenizerError::TokenNotFound(_)
                },
            },
    {
        let ghost lviews = lines@.map_values(|l: String| l@);
        let n = lines.len();
        let mut values: Vec<(String, i64)> = Vec::new();
        let mut i: usize = 0;
        while i < n
            invariant
                i <= n,
                n == lines@.len(),
                n <= i64::MAX,
                lviews == lines@.map_values(|l: String| l@),
                keys_unique(values@),
                vals_unique(values@),
                forall|j: int| 0 <= j < values@.len() ==> (#[trigger] values@[j]).1 < i,
                pairs_map(values@) == lines_map(lviews.take(i as int)),
            decreases n - i,
        {
            let token = trimmed(lines[i].as_str());
            insert_pair(&mut values, token, i as i64);
            proof {
                assert(lviews.take(i + 1).drop_last() =~= lviews.take(i as int));
            }
            i += 1;
        }
        proof {
            assert(lviews.take(n as int) =~= lviews);
        }
        let mut special_values: Vec<(String, i64)> = Vec::new();
        match _register_as_special_value("[UNK]", &values, &mut special_values) {
            Ok(_) => {},
            Err(e) => {
                return Err(e);
            },
        }
        let indices = swap_key_values(&values);
        let special_indices = swap_key_values(&special_values);
        let v = BaseVocab {
            values,
            indices,
            unknown_value: String::from_str("[UNK]"),
            special_values,
            special_indices,
        };
        proof {
            assert(pairs_map(v.special_values@) =~= Map::<Seq<char>, int>::empty().insert(
                "[UNK]"@,
                pairs_map(v.values@)["[UNK]"@],
            ));
        }
        Ok(v)
    }
}

impl Vocab for BaseVocab {
    open spec fn values_map(&self) -> Map<Seq<char>, int> {
        pairs_map(self.values@)
    }

    open spec fn indices_map(&self) -> Map<int, Seq<char>> {
        ids_map(self.indices@)
    }

    open spec fn special_map(&self) -> Map<Seq<char>, int> {
        pairs_map(self.special_values@)
    }

    open spec fn special_indices_map(&self) -> Map<int, Seq<char>> {
        ids_map(self.special_indices@)
    }

    open spec fn unknown_view(&self) -> Seq<char> {
        self.unknown_value@
    }

    open spec fn wf(&self) -> bool {
        vocab_parts_wf(
            self.values@,
            self.indices@,
            self.special_values@,
            self.special_indices@,
            self.unknown_value@,
        )
    }

    fn get_unknown_value(&self) -> (r: &str) {
        self.unknown_value.as_str()
    }

    fn values(&self) -> (r: &Vec<(String, i64)>) {
        &self.values
    }

    fn indices(&self) -> (r: &Vec<(i64, String)>) {
        &self.indices
    }

    fn special_values(&self) -> (r: &Vec<(String, i64)>) {
        &self.special_values
    }

    fn special_indices(&self) -> (r: &Vec<(i64, String)>) {
        &self.special_indices
    }

    fn token_to_id(&self, token: &str) -> (r: i64) {
        match lookup_token(&self.special_values, token) {
            Some(id) => id,
            None => match lookup_token(&self.values, token) {
                Some(id) => id,
                None => match lookup_token(&self.values, self.unknown_value.as_str()) {
                    Some(id) => id,
                    None => {
                        proof {
                            assert(false);
                        }
                        0
                    },
                },
            },
        }
    }

    fn id_to_token(&self, id: &i64) -> (r: String) {
        match lookup_id(&self.special_indices, *id) {
            Some(token) => token,
            None => match lookup_id(&self.indices, *id) {
                Some(token) => token,
                None => String::from_str(self.unknown_value.as_str()),
            },
        }
    }

    fn convert_tokens_to_ids(&self, tokens: Vec<&str>) -> (r: Vec<i64>) {
        let n = tokens.len();
        let mut out: Vec<i64> = Vec::new();
        let mut i: usize = 0;
        while i < n
            invariant
                i <= n,
                n == tokens@.len(),
                self.wf(),
                out@.len() == i,
                forall|j: int|
                    0 <= j < i ==> out@[j] as int == spec_token_to_id(
                        self.special_map(),
                        self.values_map(),
                        self.unknown_view(),
                        tokens@[j]@,
                    ),
            decreases n - i,
        {
            let id = self.token_to_id(tokens[i]);
            out.push(id);
            i += 1;
        }
        out
    }
}

} // verus!
