//! The ALBERT vocabulary: built from the pieces of a SentencePiece model,
//! with `<unk>` as unknown token and the `[CLS]`/`[SEP]`/`[MASK]`/`<pad>`
//! markers registered as special values.

use vstd::prelude::*;
use vstd::string::StringExecFns;

use crate::error::TokenizerError;
use crate::vocab::_register_as_special_value;
use crate::vocab::ids_map;
use crate::vocab::insert_pair;
use crate::vocab::vals_unique;
use crate::vocab::keys_unique;
use crate::vocab::lemma_pairs_map_injective;
use crate::vocab::lookup_id;
use crate::vocab::lookup_token;
use crate::vocab::pairs_map;
use crate::vocab::spec_token_to_id;
use crate::vocab::swap_key_values;
use crate::vocab::vocab_parts_wf;
use crate::vocab::Vocab;

verus! {

/// The token-to-ID map of an ordered piece list: each piece mapped to its
/// zero-based position, later pieces taking precedence.
pub open spec fn pieces_map(ps: Seq<Seq<char>>) -> Map<Seq<char>, int>
    decreases ps.len(),
{
    if ps.len() == 0 {
        Map::empty()
    } else {
        pieces_map(ps.drop_last()).insert(ps.last(), ps.len() - 1)
    }
}

/// The ALBERT vocabulary.
#[derive(Debug)]
pub struct AlbertVocab {
    /// A mapping of tokens as strings to indices: the encoder base.
    pub values: Vec<(String, i64)>,
    /// A mapping of token IDs to strings: the decoder base.
    pub indices: Vec<(i64, String)>,
    /// The string to use for unknown (out of vocabulary) tokens.
    pub unknown_value: String,
    /// A mapping of special-value tokens as strings to IDs.
    pub special_values: Vec<(String, i64)>,
    /// A mapping of special-value tokens as IDs to strings.
    pub special_indices: Vec<(i64, String)>,
}

impl AlbertVocab {
    /// The beginning-of-sequence marker.
    pub fn bos_value() -> (r: &'static str)
        ensures
            r@ == "[CLS]"@,
    {
        "[CLS]"
    }

    /// The end-of-sequence marker.
    pub fn eos_value() -> (r: &'static str)
        ensures
            r@ == "[SEP]"@,
    {
        "[SEP]"
    }

    /// The separator marker.
    pub fn sep_value() -> (r: &'static str)
        ensures
            r@ == "[SEP]"@,
    {
        "[SEP]"
    }

    /// The classification marker.
    pub fn cls_value() -> (r: &'static str)
        ensures
            r@ == "[CLS]"@,
    {
        "[CLS]"
    }

    /// The mask marker.
    pub fn mask_value() -> (r: &'static str)
        ensures
            r@ == "[MASK]"@,
    {
        "[MASK]"
    }

    /// The padding marker.
    pub fn pad_value() -> (r: &'static str)
        ensures
            r@ == "<pad>"@,
    {
        "<pad>"
    }

    /// The unknown value of this vocabulary family.
    pub fn unknown_value() -> (r: &'static str)
        ensures
            r@ == "<unk>"@,
    {
        "<unk>"
    }

    /// Builds the vocabulary from the ordered piece strings of a
    /// SentencePiece model: the zero-based position of a piece is its token
    /// ID. Fails with `TokenNotFound` exactly when one of the required
    /// markers (`<unk>`, `[CLS]`, `[SEP]`, `[MASK]`, `<pad>`) is missing.
    pub fn from_pieces(pieces: &Vec<String>) -> (r: Result<AlbertVocab, TokenizerError>)
        requires
            pieces@.len() <= i64::MAX,
        ensures
            ({
                let vm = pieces_map(pieces@.map_values(|p: String| p@));
                match r {
                    Ok(v) => {
                        &&& v.wf()
                        &&& v.values_map() == vm
                        &&& v.unknown_view() == "<unk>"@
                        &&& vm.contains_key("<unk>"@) && vm.contains_key("[CLS]"@)
                            && vm.contains_key("[SEP]"@) && vm.contains_key("[MASK]"@)
                            && vm.contains_key("<pad>"@)
                        &&& v.special_map() == Map::<Seq<char>, int>::empty().insert(
                            "<unk>"@,
                            vm["<unk>"@],
                        ).insert("[CLS]"@, vm["[CLS]"@]).insert("[SEP]"@, vm["[SEP]"@]).insert(
                            "[MASK]"@,
                            vm["[MASK]"@],
                        ).insert("<pad>"@, vm["<pad>"@])
                    },
                    Err(e) => {
                        &&& !(vm.contains_key("<unk>"@) && vm.contains_key("[CLS]"@)
                            && vm.contains_key("[SEP]"@) && vm.contains_key("[MASK]"@)
                            && vm.contains_key("<pad>"@))
                        &&& e matches TokenizerError::TokenNotFound(_)
                    },
                }
            }),
    {
        let ghost pviews = pieces@.map_values(|p: String| p@);
        let n = pieces.len();
        let mut values: Vec<(String, i64)> = Vec::new();
        let mut i: usize = 0;
        while i < n
            invariant
                i <= n,
                n == pieces@.len(),
                n <= i64::MAX,
                pviews == pieces@.map_values(|p: String| p@),
                keys_unique(values@),
                vals_unique(values@),
                forall|j: int| 0 <= j < values@.len() ==> (#[trigger] values@[j]).1 < i,
                pairs_map(values@) == pieces_map(pviews.take(i as int)),
            decreases n - i,
        {
            let piece = String::from_str(pieces[i].as_str());
            insert_pair(&mut values, piece, i as i64);
            proof {
                assert(pviews.take(i + 1).drop_last() =~= pviews.take(i as int));
            }
            i += 1;
        }
        proof {
            assert(pviews.take(n as int) =~= pviews);
        }
        let mut special_values: Vec<(String, i64)> = Vec::new();
        match _register_as_special_value("<unk>", &values, &mut special_values) {
            Ok(_) => {},
            Err(e) => {
                return Err(e);
            },
        }
        match _register_as_special_value("[CLS]", &values, &mut special_values) {
            Ok(_) => {},
            Err(e) => {
                return Err(e);
            },
        }
        match _register_as_special_value("[SEP]", &values, &mut special_values) {
            Ok(_) => {},
            Err(e) => {
                return Err(e);
            },
        }
        match _register_as_special_value("[CLS]", &values, &mut special_values) {
            Ok(_) => {},
            Err(e) => {
                return Err(e);
            },
        }
        match _register_as_special_value("[MASK]", &values, &mut special_values) {
            Ok(_) => {},
            Err(e) => {
                return Err(e);
            },
        }
        match _register_as_special_value("<pad>", &values, &mut special_values) {
            Ok(_) => {},
            Err(e) => {
                return Err(e);
            },
        }
        match _register_as_special_value("[SEP]", &values, &mut special_values) {
            Ok(_) => {},
            Err(e) => {
                return Err(e);
            },
        }
        let indices = swap_key_values(&values);
        let special_indices = swap_key_values(&special_values);
        proof {
            let sv = special_values@;
            let si = special_indices@;
            assert forall|p: int, q: int| 0 <= p < q < si.len() implies si[p].0 != si[q].0 by {
                if sv[p].1 == sv[q].1 {
                    lemma_pairs_map_injective(values@, sv[p].0@, sv[q].0@);
                }
            }
            let vm = pairs_map(values@);
            assert(pairs_map(special_values@) =~= Map::<Seq<char>, int>::empty().insert(
                "<unk>"@,
                vm["<unk>"@],
            ).insert("[CLS]"@, vm["[CLS]"@]).insert("[SEP]"@, vm["[SEP]"@]).insert(
                "[MASK]"@,
                vm["[MASK]"@],
            ).insert("<pad>"@, vm["<pad>"@]));
        }
        Ok(
            AlbertVocab {
                values,
                indices,
                unknown_value: String::from_str("<unk>"),
                special_values,
                special_indices,
            },
        )
    }
}

impl AlbertVocab {
    /// Builds the vocabulary from the bytes of a serialized SentencePiece
    /// model: decodes the model's piece list with
    /// [`crate::sp_model::parse_model_pieces`] and builds the vocabulary
    /// from it as [`AlbertVocab::from_pieces`] does. Fails with
    /// `VocabularyParsingError` exactly when the model does not decode (or
    /// holds more pieces than IDs exist for) and with `TokenNotFound`
    /// exactly when it decodes but a required marker is missing.
    pub fn from_model(bytes: &Vec<u8>) -> (r: Result<AlbertVocab, TokenizerError>)
        ensures
            ({
                match crate::sp_model::decoded_pieces(bytes@) {
                    Some(ps) => {
                        let vm = pieces_map(ps);
                        let markers = vm.contains_key("<unk>"@) && vm.contains_key("[CLS]"@)
                            && vm.contains_key("[SEP]"@) && vm.contains_key("[MASK]"@)
                            && vm.contains_key("<pad>"@);
                        match r {
                            Ok(v) => {
                                &&& ps.len() <= i64::MAX && markers
                                &&& v.wf()
                                &&& v.unknown_view() == "<unk>"@
                                &&& v.values_map() == vm
                                &&& v.special_map() == Map::<Seq<char>, int>::empty().insert(
                                    "<unk>"@,
                                    vm["<unk>"@],
                                ).insert("[CLS]"@, vm["[CLS]"@]).insert(
                                    "[SEP]"@,
                                    vm["[SEP]"@],
                                ).insert("[MASK]"@, vm["[MASK]"@]).insert("<pad>"@, vm["<pad>"@])
                            },
                            Err(e) => {
                                if ps.len() > i64::MAX {
                                    e matches TokenizerError::VocabularyParsingError(_)
                                } else {
                                    !markers && e matches TokenizerError::TokenNotFound(_)
                                }
                            },
                        }
                    },
                    None => r matches Err(e) && e matches TokenizerError::VocabularyParsingError(
                        _,
                    ),
                }
            }),
    {
        match crate::sp_model::parse_model_pieces(bytes) {
            Err(e) => Err(e),
            Ok(pieces) => {
                proof {
                    assert(crate::sp_model::decoded_pieces(bytes@) matches Some(ps)
                        && pieces@.map_values(|p: String| p@) =~= ps);
                }
                if pieces.len() as u64 > i64::MAX as u64 {
                    return Err(
                        TokenizerError::VocabularyParsingError(
                            String::from_str("model holds too many pieces"),
                        ),
                    );
                }
                AlbertVocab::from_pieces(&pieces)
            },
        }
    }
}

impl Vocab for AlbertVocab {
    open spec fn values_map(&self) -> Map<Seq<char>, int> {
        pairs_map(self.values@)
    }

    open spec fn indices_map(&self) -> Map<int, Seq<char>> {
        ids_map(self.indices@)
    }

    open spec fn special_map(&self) -> Map<Seq<char>, int> {
        pairs_map(self.special_values@)
    }

    open spec fn special_indices_map(&self) -> Map<int, Seq<char>> {
        ids_map(self.special_indices@)
    }

    open spec fn unknown_view(&self) -> Seq<char> {
        self.unknown_value@
    }

    open spec fn wf(&self) -> bool {
        vocab_parts_wf(
            self.values@,
            self.indices@,
            self.special_values@,
            self.special_indices@,
            self.unknown_value@,
        )
    }

    fn get_unknown_value(&self) -> (r: &str) {
        self.unknown_value.as_str()
    }

    fn values(&self) -> (r: &Vec<(String, i64)>) {
        &self.values
    }

    fn indices(&self) -> (r: &Vec<(i64, String)>) {
        &self.indices
    }

    fn special_values(&self) -> (r: &Vec<(String, i64)>) {
        &self.special_values
    }

    fn special_indices(&self) -> (r: &Vec<(i64, String)>) {
        &self.special_indices
    }

    fn token_to_id(&self, token: &str) -> (r: i64) {
        match lookup_token(&self.special_values, token) {
            Some(id) => id,
            None => match lookup_token(&self.values, token) {
                Some(id) => id,
                None => match lookup_token(&self.values, self.unknown_value.as_str()) {
                    Some(id) => id,
                    None => {
                        proof {
                            assert(false);
                        }
                        0
                    },
                },
            },
        }
    }

    fn id_to_token(&self, id: &i64) -> (r: String) {
        match lookup_id(&self.special_indices, *id) {
            Some(token) => token,
            None => match lookup_id(&self.indices, *id) {
                Some(token) => token,
                None => String::from_str(self.unknown_value.as_str()),
            },
        }
    }

    fn convert_tokens_to_ids(&self, tokens: Vec<&str>) -> (r: Vec<i64>) {
        let n = tokens.len();
        let mut out: Vec<i64> = Vec::new();
        let mut i: usize = 0;
        while i < n
            invariant
                i <= n,
                n == tokens@.len(),
                self.wf(),
                out@.len() == i,
                forall|j: int|
                    0 <= j < i ==> out@[j] as int == spec_token_to_id(
                        self.special_map(),
                        self.values_map(),
                        self.unknown_view(),
                        tokens@[j]@,
                    ),
            decreases n - i,
        {
            let id = self.token_to_id(tokens[i]);
            out.push(id);
            i += 1;
        }
        out
    }
}

} // verus!
