//! The tokenizer: wires the pretokenizer stages and the configured
//! transforms over a shared vocabulary, assembles encodings with truncation
//! and overflow, and decodes ID sequences back to text.

use std::sync::Arc;
use vstd::prelude::*;
use vstd::string::StringExecFns;

use crate::error::TokenizerError;
use crate::tokenization_utils::class_piece_ok;
use crate::tokenization_utils::is_sub_token;
use crate::tokenization_utils::is_transformed_sub_token;
use crate::tokenization_utils::lemma_sub_token_covers;
use crate::tokenization_utils::lemma_sub_token_trans;
use crate::tokenization_utils::lemma_transformed_tracks;
use crate::tokenization_utils::apply_split;
use crate::tokenization_utils::class_split_scan;
use crate::tokenization_utils::special_piece_ok;
use crate::tokenization_utils::special_split_scan;
use crate::tokenization_utils::stage_split;
use crate::tokenization_utils::transform_view;
use crate::tokenization_utils::view_of;
use crate::tokenization_utils::TokenView;
use crate::tokenization_utils::split_on_punct;
use crate::tokenization_utils::split_on_special_tokens;
use crate::tokenization_utils::token_wf;
use crate::tokenization_utils::tokenize_cjk_chars;
use crate::tokenization_utils::transform_token;
use crate::tokenization_utils::transformed_slice_of;
use crate::tokenization_utils::slice_token_of;
use crate::tokenization_utils::whitespace_tokenize;
use crate::tokenization_utils::SequencePayload;
use crate::tokenization_utils::SplitClass;
use crate::tokenization_utils::TruncationStrategy;
use crate::tokens::TokenizedInput;
use crate::tokens::range_seq;
use crate::tokens::token_tracks;
use crate::tokens::Mask;
use crate::tokens::Offset;
use crate::tokens::Token;
use crate::tokens::TokenRef;
use crate::vocab::Vocab;
use crate::OffsetSize;

verus! {

/// A token as the pipeline emits it: non-empty, well-formed, carrying one of
/// the pretokenizer's masks, and, when special or unknown, holding a
/// registered special value (the unknown value exactly for unknown tokens).
pub open spec fn pipeline_token_ok(t: Token, sm: Map<Seq<char>, int>, unk: Seq<char>) -> bool {
    &&& t.text@.len() > 0
    &&& token_wf(t)
    &&& (t.mask == Mask::Plain || t.mask == Mask::Punctuation || t.mask == Mask::CJK || t.mask
        == Mask::Special || t.mask == Mask::Unknown)
    &&& ((t.mask == Mask::Special || t.mask == Mask::Unknown) ==> sm.contains_key(t.text@))
    &&& (t.mask == Mask::Unknown ==> t.text@ == unk)
}

/// The exact result of the pretokenizer pipeline on the source characters:
/// whitespace splitting, special-token protection, punctuation splitting,
/// CJK isolation, and the configured transforms with removal of emptied
/// tokens, in that order.
pub open spec fn pipeline_views(
    src: Seq<char>,
    sm: Map<Seq<char>, int>,
    unk: Seq<char>,
    l: bool,
    st: bool,
) -> Seq<TokenView> {
    let s1 = class_split_scan(
        src,
        range_seq(0, src.len() as OffsetSize),
        Mask::Plain,
        SplitClass::Whitespace,
        false,
        0,
        0,
    );
    let s2 = apply_split(
        s1,
        |tv: TokenView|
            special_split_scan(tv.text, tv.reference_offsets, tv.mask, sm, unk, 0, 0),
    );
    let s3 = apply_split(s2, |tv: TokenView| stage_split(tv, SplitClass::Punctuation));
    let s4 = apply_split(s3, |tv: TokenView| stage_split(tv, SplitClass::Cjk));
    apply_split(s4, |tv: TokenView| transform_view(tv, l, st))
}

/// The tokens a whole string tokenizes to: nothing when the input trims to
/// nothing, else exactly the pipeline's result.
pub open spec fn tokenized_views(
    src: Seq<char>,
    sm: Map<Seq<char>, int>,
    unk: Seq<char>,
    l: bool,
    st: bool,
) -> Seq<TokenView> {
    if crate::vocab::trim_spec(src).len() == 0 {
        Seq::empty()
    } else {
        pipeline_views(src, sm, unk, l, st)
    }
}

/// The offset reported for a token: the span of its reference offsets, or
/// `None` when it has none.
pub open spec fn view_offset(tv: TokenView) -> Option<Offset> {
    if tv.reference_offsets.len() > 0 {
        Some(
            Offset {
                begin: tv.reference_offsets[0],
                end: (tv.reference_offsets.last() + 1) as OffsetSize,
            },
        )
    } else {
        None
    }
}

/// The base tokenizer: Unicode cleaning and the offset-preserving
/// pretokenizer over a shared vocabulary, with optional lowercasing and
/// accent stripping.
#[derive(Debug)]
pub struct BaseTokenizer<T: Vocab> {
    vocab: Arc<T>,
    lower_case: bool,
    strip_accents: bool,
}

impl<T: Vocab> BaseTokenizer<T> {
    /// The vocabulary the tokenizer splits and encodes against.
    pub closed spec fn spec_vocab(&self) -> T {
        *self.vocab
    }

    /// Whether the tokenizer lowercases non-special tokens.
    pub closed spec fn spec_lower_case(&self) -> bool {
        self.lower_case
    }

    /// Whether the tokenizer strips accents from non-special tokens.
    pub closed spec fn spec_strip_accents(&self) -> bool {
        self.strip_accents
    }

    /// The tokenizer is usable: its vocabulary is well-formed.
    pub open spec fn wf(&self) -> bool {
        self.spec_vocab().wf()
    }

    /// A tokenizer over an existing shared vocabulary.
    pub fn from_existing_vocab(vocab: Arc<T>, lower_case: bool, strip_accents: bool) -> (r:
        BaseTokenizer<T>)
        ensures
            r.spec_vocab() == *vocab,
            r.spec_lower_case() == lower_case,
            r.spec_strip_accents() == strip_accents,
    {
        BaseTokenizer { vocab, lower_case, strip_accents }
    }

    /// The tokenizer's vocabulary.
    pub fn vocab(&self) -> (r: &T)
        ensures
            *r == self.spec_vocab(),
    {
        &self.vocab
    }

    /// Runs the pretokenizer pipeline on the initial token over the whole
    /// input: whitespace splitting, special-token protection, punctuation
    /// splitting, CJK isolation, then the configured transforms on
    /// non-special tokens, and finally the removal of emptied tokens.
    ///
    /// The initial token must reference each character of its text by its
    /// own index, as [`TokenRef::new`] over the whole input builds it.
    pub fn tokenize_to_tokens(&self, text: TokenRef<'_>) -> (out: Vec<Token>)
        requires
            self.wf(),
            text.mask == Mask::Plain,
            text.text@.len() <= OffsetSize::MAX,
            text.offset == (Offset { begin: 0, end: text.text@.len() as OffsetSize }),
            text.reference_offsets@ == range_seq(0, text.text@.len() as OffsetSize),
        ensures
            forall|j: int|
                0 <= j < out@.len() ==> pipeline_token_ok(
                    #[trigger] out@[j],
                    self.spec_vocab().special_map(),
                    self.spec_vocab().unknown_view(),
                ),
            forall|j: int|
                0 <= j < out@.len() ==> token_tracks(
                    #[trigger] out@[j],
                    text.text@,
                    self.spec_lower_case(),
                    self.spec_strip_accents(),
                ),
            out@.len() <= text.text@.len(),
            out@.map_values(|t: Token| view_of(t)) == pipeline_views(
                text.text@,
                self.spec_vocab().special_map(),
                self.spec_vocab().unknown_view(),
                self.spec_lower_case(),
                self.spec_strip_accents(),
            ),
    {
        let ghost src = text.text@;
        let ghost prefs = range_seq(0, src.len() as OffsetSize);
        let ghost sm = self.spec_vocab().special_map();
        let ghost unk = self.spec_vocab().unknown_view();
        let ghost l = self.lower_case;
        let ghost st = self.strip_accents;
        let owned = text.to_owned();
        let ghost owned_g = owned;
        proof {
            assert(token_wf(owned));
        }
        // Split on whitespace.
        let mut rest1 = whitespace_tokenize(&owned);
        let ghost s1v = rest1@.map_values(|t: Token| view_of(t));
        let ghost f2 = |tv: TokenView|
            special_split_scan(tv.text, tv.reference_offsets, tv.mask, sm, unk, 0, 0);
        let ghost s2v = apply_split(s1v, f2);
        // Protect the vocabulary's special values.
        let mut stage2: Vec<Token> = Vec::new();
        proof {
            assert(crate::tokenization_utils::total_text_len(Seq::<Token>::empty()) == 0);
            assert(crate::tokenization_utils::total_text_len(stage2@) == 0);
            assert(crate::tokenization_utils::total_text_len(rest1@) <= src.len());
            assert(s1v == class_split_scan(
                src,
                prefs,
                Mask::Plain,
                SplitClass::Whitespace,
                false,
                0,
                0,
            ));
            assert(stage2@.map_values(|t: Token| view_of(t)) =~= Seq::<TokenView>::empty());
            assert(Seq::<TokenView>::empty() + apply_split(s1v, f2) =~= apply_split(s1v, f2));
        }
        while rest1.len() > 0
            invariant
                self.wf(),
                sm == self.spec_vocab().special_map(),
                unk == self.spec_vocab().unknown_view(),
                src == owned_g.text@,
                prefs == owned_g.reference_offsets@,
                crate::tokenization_utils::total_text_len(stage2@)
                    + crate::tokenization_utils::total_text_len(rest1@) <= src.len(),
                forall|j: int|
                    0 <= j < rest1@.len() ==> class_piece_ok(
                        #[trigger] rest1@[j],
                        owned_g,
                        SplitClass::Whitespace,
                    ) && rest1@[j].mask == Mask::Plain,
                forall|j: int|
                    0 <= j < stage2@.len() ==> {
                        let t = #[trigger] stage2@[j];
                        &&& is_sub_token(t, src, prefs)
                        &&& t.text@.len() > 0
                        &&& token_wf(t)
                        &&& (t.mask == Mask::Plain || t.mask == Mask::Special || t.mask
                            == Mask::Unknown)
                        &&& ((t.mask == Mask::Special || t.mask == Mask::Unknown)
                            ==> sm.contains_key(t.text@))
                        &&& (t.mask == Mask::Unknown ==> t.text@ == unk)
                    },
                f2 == (|tv: TokenView|
                    special_split_scan(tv.text, tv.reference_offsets, tv.mask, sm, unk, 0, 0)),
                s2v == apply_split(s1v, f2),
                stage2@.map_values(|t: Token| view_of(t)) + apply_split(
                    rest1@.map_values(|t: Token| view_of(t)),
                    f2,
                ) == s2v,
            decreases rest1@.len(),
        {
            let ghost pre_rest = rest1@;
            let tok = rest1.remove(0);
            let ghost tok_g = tok;
            proof {
                crate::tokenization_utils::lemma_total_text_len_first(pre_rest);
                assert(rest1@ =~= pre_rest.drop_first());
            }
            let mut pieces = split_on_special_tokens(tok, self.vocab());
            let ghost pieces_v = pieces@.map_values(|t: Token| view_of(t));
            proof {
                let pv = pre_rest.map_values(|t: Token| view_of(t));
                assert(rest1@.map_values(|t: Token| view_of(t)) =~= pv.drop_first());
                assert(pv[0] == view_of(tok_g));
                assert(pieces_v == f2(view_of(tok_g)));
                crate::tokenization_utils::lemma_total_text_len_add(stage2@, pieces@);
                assert forall|j: int| 0 <= j < pieces@.len() implies {
                    let t = #[trigger] pieces@[j];
                    &&& is_sub_token(t, src, prefs)
                    &&& t.text@.len() > 0
                    &&& token_wf(t)
                    &&& (t.mask == Mask::Plain || t.mask == Mask::Special || t.mask
                        == Mask::Unknown)
                    &&& ((t.mask == Mask::Special || t.mask == Mask::Unknown)
                        ==> sm.contains_key(t.text@))
                    &&& (t.mask == Mask::Unknown ==> t.text@ == unk)
                } by {
                    assert(special_piece_ok(pieces@[j], tok_g, sm, unk));
                    lemma_sub_token_trans(pieces@[j], tok_g, src, prefs);
                }
            }
            let ghost pre2v = stage2@.map_values(|t: Token| view_of(t));
            stage2.append(&mut pieces);
            proof {
                assert(stage2@.map_values(|t: Token| view_of(t)) =~= pre2v + pieces_v);
                assert((pre2v + pieces_v) + apply_split(
                    rest1@.map_values(|t: Token| view_of(t)),
                    f2,
                ) =~= pre2v + (pieces_v + apply_split(
                    rest1@.map_values(|t: Token| view_of(t)),
                    f2,
                )));
            }
        }
        // Split punctuation characters off.
        let ghost f3 = |tv: TokenView| stage_split(tv, SplitClass::Punctuation);
        let ghost s3v = apply_split(s2v, f3);
        let mut stage3: Vec<Token> = Vec::new();
        proof {
            assert(crate::tokenization_utils::total_text_len(Seq::<Token>::empty()) == 0);
            assert(stage2@.map_values(|t: Token| view_of(t)) =~= s2v);
            assert(stage3@.map_values(|t: Token| view_of(t)) =~= Seq::<TokenView>::empty());
            assert(Seq::<TokenView>::empty() + apply_split(s2v, f3) =~= apply_split(s2v, f3));
        }
        while stage2.len() > 0
            invariant
                src == owned_g.text@,
                prefs == owned_g.reference_offsets@,
                forall|j: int|
                    0 <= j < stage2@.len() ==> {
                        let t = #[trigger] stage2@[j];
                        &&& is_sub_token(t, src, prefs)
                        &&& t.text@.len() > 0
                        &&& token_wf(t)
                        &&& (t.mask == Mask::Plain || t.mask == Mask::Special || t.mask
                            == Mask::Unknown)
                        &&& ((t.mask == Mask::Special || t.mask == Mask::Unknown)
                            ==> sm.contains_key(t.text@))
                        &&& (t.mask == Mask::Unknown ==> t.text@ == unk)
                    },
                crate::tokenization_utils::total_text_len(stage3@)
                    + crate::tokenization_utils::total_text_len(stage2@) <= src.len(),
                forall|j: int|
                    0 <= j < stage3@.len() ==> {
                        let t = #[trigger] stage3@[j];
                        &&& is_sub_token(t, src, prefs)
                        &&& t.text@.len() > 0
                        &&& token_wf(t)
                        &&& (t.mask == Mask::Plain || t.mask == Mask::Punctuation || t.mask
                            == Mask::Special || t.mask == Mask::Unknown)
                        &&& ((t.mask == Mask::Special || t.mask == Mask::Unknown)
                            ==> sm.contains_key(t.text@))
                        &&& (t.mask == Mask::Unknown ==> t.text@ == unk)
                    },
                f3 == (|tv: TokenView| stage_split(tv, SplitClass::Punctuation)),
                s3v == apply_split(s2v, f3),
                stage3@.map_values(|t: Token| view_of(t)) + apply_split(
                    stage2@.map_values(|t: Token| view_of(t)),
                    f3,
                ) == s3v,
            decreases stage2@.len(),
        {
            let ghost pre_rest = stage2@;
            let tok = stage2.remove(0);
            let ghost tok_g = tok;
            proof {
                crate::tokenization_utils::lemma_total_text_len_first(pre_rest);
                assert(stage2@ =~= pre_rest.drop_first());
            }
            let mut pieces = split_on_punct(tok);
            let ghost pieces_v = pieces@.map_values(|t: Token| view_of(t));
            proof {
                let pv = pre_rest.map_values(|t: Token| view_of(t));
                assert(stage2@.map_values(|t: Token| view_of(t)) =~= pv.drop_first());
                assert(pv[0] == view_of(tok_g));
                assert(pieces_v == f3(view_of(tok_g)));
                crate::tokenization_utils::lemma_total_text_len_add(stage3@, pieces@);
                if tok_g.mask == Mask::Special || tok_g.mask == Mask::Unknown {
                    assert(pieces@ =~= seq![tok_g]);
                } else {
                    assert forall|j: int| 0 <= j < pieces@.len() implies {
                        let t = #[trigger] pieces@[j];
                        &&& is_sub_token(t, src, prefs)
                        &&& t.text@.len() > 0
                        &&& token_wf(t)
                        &&& (t.mask == Mask::Plain || t.mask == Mask::Punctuation)
                    } by {
                        assert(class_piece_ok(pieces@[j], tok_g, SplitClass::Punctuation));
                        lemma_sub_token_trans(pieces@[j], tok_g, src, prefs);
                    }
                }
            }
            let ghost pre3v = stage3@.map_values(|t: Token| view_of(t));
            stage3.append(&mut pieces);
            proof {
                assert(stage3@.map_values(|t: Token| view_of(t)) =~= pre3v + pieces_v);
                assert((pre3v + pieces_v) + apply_split(
                    stage2@.map_values(|t: Token| view_of(t)),
                    f3,
                ) =~= pre3v + (pieces_v + apply_split(
                    stage2@.map_values(|t: Token| view_of(t)),
                    f3,
                )));
            }
        }
        // Isolate CJK characters.
        let ghost f4 = |tv: TokenView| stage_split(tv, SplitClass::Cjk);
        let ghost s4v = apply_split(s3v, f4);
        let mut stage4: Vec<Token> = Vec::new();
        proof {
            assert(crate::tokenization_utils::total_text_len(Seq::<Token>::empty()) == 0);
            assert(stage3@.map_values(|t: Token| view_of(t)) =~= s3v);
            assert(stage4@.map_values(|t: Token| view_of(t)) =~= Seq::<TokenView>::empty());
            assert(Seq::<TokenView>::empty() + apply_split(s3v, f4) =~= apply_split(s3v, f4));
        }
        while stage3.len() > 0
            invariant
                src == owned_g.text@,
                prefs == owned_g.reference_offsets@,
                forall|j: int|
                    0 <= j < stage3@.len() ==> {
                        let t = #[trigger] stage3@[j];
                        &&& is_sub_token(t, src, prefs)
                        &&& t.text@.len() > 0
                        &&& token_wf(t)
                        &&& (t.mask == Mask::Plain || t.mask == Mask::Punctuation || t.mask
                            == Mask::Special || t.mask == Mask::Unknown)
                        &&& ((t.mask == Mask::Special || t.mask == Mask::Unknown)
                            ==> sm.contains_key(t.text@))
                        &&& (t.mask == Mask::Unknown ==> t.text@ == unk)
                    },
                crate::tokenization_utils::total_text_len(stage4@)
                    + crate::tokenization_utils::total_text_len(stage3@) <= src.len(),
                forall|j: int|
                    0 <= j < stage4@.len() ==> {
                        let t = #[trigger] stage4@[j];
                        &&& is_sub_token(t, src, prefs)
                        &&& pipeline_token_ok(t, sm, unk)
                    },
                f4 == (|tv: TokenView| stage_split(tv, SplitClass::Cjk)),
                s4v == apply_split(s3v, f4),
                stage4@.map_values(|t: Token| view_of(t)) + apply_split(
                    stage3@.map_values(|t: Token| view_of(t)),
                    f4,
                ) == s4v,
            decreases stage3@.len(),
        {
            let ghost pre_rest = stage3@;
            let tok = stage3.remove(0);
            let ghost tok_g = tok;
            proof {
                crate::tokenization_utils::lemma_total_text_len_first(pre_rest);
                assert(stage3@ =~= pre_rest.drop_first());
            }
            let mut pieces = tokenize_cjk_chars(tok);
            let ghost pieces_v = pieces@.map_values(|t: Token| view_of(t));
            proof {
                let pv = pre_rest.map_values(|t: Token| view_of(t));
                assert(stage3@.map_values(|t: Token| view_of(t)) =~= pv.drop_first());
                assert(pv[0] == view_of(tok_g));
                assert(pieces_v == f4(view_of(tok_g)));
                crate::tokenization_utils::lemma_total_text_len_add(stage4@, pieces@);
                if tok_g.mask == Mask::Special || tok_g.mask == Mask::Unknown {
                    assert(pieces@ =~= seq![tok_g]);
                } else {
                    assert forall|j: int| 0 <= j < pieces@.len() implies {
                        let t = #[trigger] pieces@[j];
                        &&& is_sub_token(t, src, prefs)
                        &&& pipeline_token_ok(t, sm, unk)
                    } by {
                        assert(class_piece_ok(pieces@[j], tok_g, SplitClass::Cjk));
                        lemma_sub_token_trans(pieces@[j], tok_g, src, prefs);
                    }
                }
            }
            let ghost pre4v = stage4@.map_values(|t: Token| view_of(t));
            stage4.append(&mut pieces);
            proof {
                assert(stage4@.map_values(|t: Token| view_of(t)) =~= pre4v + pieces_v);
                assert((pre4v + pieces_v) + apply_split(
                    stage3@.map_values(|t: Token| view_of(t)),
                    f4,
                ) =~= pre4v + (pieces_v + apply_split(
                    stage3@.map_values(|t: Token| view_of(t)),
                    f4,
                )));
            }
        }
        // Apply the configured transforms to non-special tokens and drop
        // tokens whose text they emptied.
        let ghost c4 = stage4@.len() as int;
        let ghost f5 = |tv: TokenView| transform_view(tv, l, st);
        proof {
            crate::tokenization_utils::lemma_count_le_total(stage4@);
            assert(stage4@.map_values(|t: Token| view_of(t)) =~= s4v);
            assert(Seq::<TokenView>::empty() + apply_split(s4v, f5) =~= apply_split(s4v, f5));
        }
        let mut out: Vec<Token> = Vec::new();
        proof {
            assert(out@.map_values(|t: Token| view_of(t)) =~= Seq::<TokenView>::empty());
        }
        while stage4.len() > 0
            invariant
                out@.len() + stage4@.len() <= c4,
                c4 <= src.len(),
                f5 == (|tv: TokenView| transform_view(tv, l, st)),
                out@.map_values(|t: Token| view_of(t)) + apply_split(
                    stage4@.map_values(|t: Token| view_of(t)),
                    f5,
                ) == apply_split(s4v, f5),
                src == owned_g.text@,
                prefs == owned_g.reference_offsets@,
                src.len() <= OffsetSize::MAX,
                prefs == range_seq(0, src.len() as OffsetSize),
                l == self.spec_lower_case(),
                st == self.spec_strip_accents(),
                forall|j: int|
                    0 <= j < stage4@.len() ==> {
                        let t = #[trigger] stage4@[j];
                        &&& is_sub_token(t, src, prefs)
                        &&& pipeline_token_ok(t, sm, unk)
                    },
                forall|j: int|
                    0 <= j < out@.len() ==> pipeline_token_ok(#[trigger] out@[j], sm, unk),
                forall|j: int|
                    0 <= j < out@.len() ==> token_tracks(#[trigger] out@[j], src, l, st),
            decreases stage4@.len(),
        {
            let ghost pre_rest = stage4@;
            let tok = stage4.remove(0);
            let ghost tok_g = tok;
            proof {
                let pv = pre_rest.map_values(|t: Token| view_of(t));
                assert(stage4@.map_values(|t: Token| view_of(t)) =~= pv.drop_first());
                assert(pv[0] == view_of(tok_g));
            }
            if tok.mask == Mask::Special || tok.mask == Mask::Unknown {
                proof {
                    lemma_sub_token_covers(tok_g, src);
                }
                let ghost pre_out = out@.map_values(|t: Token| view_of(t));
                out.push(tok);
                proof {
                    assert(out@.map_values(|t: Token| view_of(t)) =~= pre_out + seq![
                        view_of(tok_g),
                    ]);
                    assert(f5(view_of(tok_g)) =~= seq![view_of(tok_g)]);
                    assert((pre_out + seq![view_of(tok_g)]) + apply_split(
                        stage4@.map_values(|t: Token| view_of(t)),
                        f5,
                    ) =~= pre_out + (f5(view_of(tok_g)) + apply_split(
                        stage4@.map_values(|t: Token| view_of(t)),
                        f5,
                    )));
                }
            } else {
                let tt = transform_token(tok, self.lower_case, self.strip_accents);
                let ghost tt_g = tt;
                if !tt.text.as_str().is_empty() {
                    proof {
                        let (a, b) = choose|a: int, b: int|
                            slice_token_of(tok_g, src, prefs, a, b);
                        assert(transformed_slice_of(tt_g, src, prefs, a, b, l, st));
                        assert(is_transformed_sub_token(tt_g, src, prefs, l, st));
                        lemma_transformed_tracks(tt_g, src, l, st);
                        crate::text::lemma_expand_refs_bound(
                            tok_g.text@,
                            tok_g.reference_offsets@,
                            |c: char| crate::tokens::char_image(c, l, st),
                            OffsetSize::MAX,
                        );
                    }
                    let ghost pre_out = out@.map_values(|t: Token| view_of(t));
                    out.push(tt);
                    proof {
                        assert(view_of(tt_g) =~= transform_view(view_of(tok_g), l, st)[0]);
                        assert(f5(view_of(tok_g)) =~= seq![view_of(tt_g)]);
                        assert(out@.map_values(|t: Token| view_of(t)) =~= pre_out + seq![
                            view_of(tt_g),
                        ]);
                        assert((pre_out + seq![view_of(tt_g)]) + apply_split(
                            stage4@.map_values(|t: Token| view_of(t)),
                            f5,
                        ) =~= pre_out + (f5(view_of(tok_g)) + apply_split(
                            stage4@.map_values(|t: Token| view_of(t)),
                            f5,
                        )));
                    }
                } else {
                    proof {
                        assert(f5(view_of(tok_g)) =~= Seq::<TokenView>::empty());
                        assert(f5(view_of(tok_g)) + apply_split(
                            stage4@.map_values(|t: Token| view_of(t)),
                            f5,
                        ) =~= apply_split(stage4@.map_values(|t: Token| view_of(t)), f5));
                    }
                }
            }
        }
        proof {
            assert(out@.map_values(|t: Token| view_of(t)) =~= apply_split(s4v, f5));
            assert(pipeline_views(src, sm, unk, l, st) == apply_split(s4v, f5)) by {
                assert(class_split_scan(
                    src,
                    range_seq(0, src.len() as OffsetSize),
                    Mask::Plain,
                    SplitClass::Whitespace,
                    false,
                    0,
                    0,
                ) == s1v);
            }
        }
        out
    }

    /// Tokenizes a string, returning token texts, token offsets, per-token
    /// reference offsets and masks, all of the same length.
    ///
    /// Each token's offset `[begin, end)` points into the input: a special
    /// or unknown token's text is exactly the input characters of its range,
    /// and any other token's text is the image of the input characters of
    /// its range under the configured transforms.
    pub fn tokenize_with_offsets(&self, text: &str) -> (r: (
        Vec<String>,
        Vec<Option<Offset>>,
        Vec<Vec<OffsetSize>>,
        Vec<Mask>,
    ))
        requires
            self.wf(),
            text@.len() <= OffsetSize::MAX,
        ensures
            r.1@.len() == r.0@.len(),
            r.2@.len() == r.0@.len(),
            r.3@.len() == r.0@.len(),
            forall|j: int|
                0 <= j < r.0@.len() ==> tokenized_offsets_ok(
                    #[trigger] r.0@[j]@,
                    r.1@[j],
                    r.2@[j]@,
                    r.3@[j],
                    text@,
                    self.spec_lower_case(),
                    self.spec_strip_accents(),
                ),
            r.0@.len() <= text@.len(),
            ({
                let vs = tokenized_views(
                    text@,
                    self.spec_vocab().special_map(),
                    self.spec_vocab().unknown_view(),
                    self.spec_lower_case(),
                    self.spec_strip_accents(),
                );
                &&& r.0@.map_values(|t: String| t@) == vs.map_values(|tv: TokenView| tv.text)
                &&& r.1@ == vs.map_values(|tv: TokenView| view_offset(tv))
                &&& r.2@.map_values(|v: Vec<OffsetSize>| v@) == vs.map_values(
                    |tv: TokenView| tv.reference_offsets,
                )
                &&& r.3@ == vs.map_values(|tv: TokenView| tv.mask)
            }),
    {
        let ghost src = text@;
        let ghost l = self.lower_case;
        let ghost st = self.strip_accents;
        let ghost vs = tokenized_views(
            src,
            self.spec_vocab().special_map(),
            self.spec_vocab().unknown_view(),
            l,
            st,
        );
        let trimmed_text = crate::vocab::trimmed(text);
        if trimmed_text.as_str().is_empty() {
            proof {
                assert(vs =~= Seq::<TokenView>::empty());
                assert(Seq::<String>::empty().map_values(|t: String| t@) =~= vs.map_values(
                    |tv: TokenView| tv.text,
                ));
                assert(Seq::<Option<Offset>>::empty() =~= vs.map_values(
                    |tv: TokenView| view_offset(tv),
                ));
                assert(Seq::<Vec<OffsetSize>>::empty().map_values(|v: Vec<OffsetSize>| v@)
                    =~= vs.map_values(|tv: TokenView| tv.reference_offsets));
                assert(Seq::<Mask>::empty() =~= vs.map_values(|tv: TokenView| tv.mask));
            }
            return (Vec::new(), Vec::new(), Vec::new(), Vec::new());
        }
        let cs = crate::text::chars_vec(text);
        let n = cs.len();
        let mut initial_offsets: Vec<OffsetSize> = Vec::new();
        let mut i: usize = 0;
        while i < n
            invariant
                i <= n,
                n <= OffsetSize::MAX,
                initial_offsets@ =~= range_seq(0, i as OffsetSize),
            decreases n - i,
        {
            initial_offsets.push(i as OffsetSize);
            proof {
                assert(initial_offsets@ =~= range_seq(0, (i + 1) as OffsetSize));
            }
            i += 1;
        }
        let initial_token = TokenRef::new(text, initial_offsets.as_slice());
        let mut tokens = self.tokenize_to_tokens(initial_token);
        let ghost c0 = tokens@.len() as int;
        proof {
            assert(tokens@.map_values(|t: Token| view_of(t)) == vs);
            assert(tokens@.map_values(|t: Token| view_of(t)) =~= vs.skip(0));
        }
        let mut texts: Vec<String> = Vec::new();
        let mut offsets: Vec<Option<Offset>> = Vec::new();
        let mut original_positions: Vec<Vec<OffsetSize>> = Vec::new();
        let mut masks: Vec<Mask> = Vec::new();
        while tokens.len() > 0
            invariant
                src == text@,
                src.len() <= OffsetSize::MAX,
                texts@.len() + tokens@.len() == c0,
                c0 <= src.len(),
                l == self.spec_lower_case(),
                st == self.spec_strip_accents(),
                forall|j: int|
                    0 <= j < tokens@.len() ==> pipeline_token_ok(
                        #[trigger] tokens@[j],
                        self.spec_vocab().special_map(),
                        self.spec_vocab().unknown_view(),
                    ),
                forall|j: int|
                    0 <= j < tokens@.len() ==> token_tracks(#[trigger] tokens@[j], src, l, st),
                offsets@.len() == texts@.len(),
                original_positions@.len() == texts@.len(),
                masks@.len() == texts@.len(),
                texts@.len() <= vs.len(),
                tokens@.map_values(|t: Token| view_of(t)) == vs.skip(texts@.len() as int),
                texts@.map_values(|t: String| t@) == vs.take(texts@.len() as int).map_values(
                    |tv: TokenView| tv.text,
                ),
                offsets@ == vs.take(texts@.len() as int).map_values(
                    |tv: TokenView| view_offset(tv),
                ),
                original_positions@.map_values(|v: Vec<OffsetSize>| v@) == vs.take(
                    texts@.len() as int,
                ).map_values(|tv: TokenView| tv.reference_offsets),
                masks@ == vs.take(texts@.len() as int).map_values(|tv: TokenView| tv.mask),
                forall|j: int|
                    0 <= j < texts@.len() ==> tokenized_offsets_ok(
                        #[trigger] texts@[j]@,
                        offsets@[j],
                        original_positions@[j]@,
                        masks@[j],
                        src,
                        l,
                        st,
                    ),
            decreases tokens@.len(),
        {
            let ghost k = texts@.len() as int;
            let ghost pre_tokens = tokens@;
            let token = tokens.remove(0);
            let ghost tg = token;
            let Token { text: token_text, offset: _, reference_offsets: refs, mask } = token;
            proof {
                let pv = pre_tokens.map_values(|t: Token| view_of(t));
                assert(pv.len() > 0);
                assert(vs.skip(k).len() == vs.len() - k);
                assert(k < vs.len());
                assert(pv[0] == view_of(tg));
                assert(pv[0] == vs.skip(k)[0]);
                assert(vs.skip(k) =~= vs.subrange(k, vs.len() as int));
                assert(vs.skip(k)[0] == vs[k]);
                assert(tokens@.map_values(|t: Token| view_of(t)) =~= pv.drop_first());
                assert(pv.drop_first() =~= vs.skip(k + 1));
                let img = |c: char| crate::tokens::char_image(c, l, st);
                if tg.mask == Mask::Special || tg.mask == Mask::Unknown {
                    assert(refs@[0] == tg.offset.begin);
                    assert(refs@[refs@.len() - 1] == tg.offset.end - 1);
                } else {
                    crate::text::lemma_expand_len(
                        src.subrange(tg.offset.begin as int, tg.offset.end as int),
                        range_seq(tg.offset.begin, tg.offset.end),
                        img,
                    );
                    crate::tokens::lemma_tracked_offsets(src, tg.offset.begin, tg.offset.end, img);
                }
            }
            let off = if refs.len() > 0 {
                Some(Offset { begin: refs[0], end: refs[refs.len() - 1] + 1 })
            } else {
                None
            };
            proof {
                assert(off == view_offset(view_of(tg)));
            }
            texts.push(token_text);
            offsets.push(off);
            original_positions.push(refs);
            masks.push(mask);
            proof {
                assert(vs.take(k + 1) =~= vs.take(k).push(vs[k]));
                assert(texts@.map_values(|t: String| t@) =~= vs.take(k).map_values(
                    |tv: TokenView| tv.text,
                ).push(vs[k].text));
                assert(vs.take(k + 1).map_values(|tv: TokenView| tv.text) =~= vs.take(
                    k,
                ).map_values(|tv: TokenView| tv.text).push(vs[k].text));
                assert(offsets@ =~= vs.take(k + 1).map_values(|tv: TokenView| view_offset(tv)));
                assert(refs@ == vs[k].reference_offsets);
                assert(original_positions@.map_values(|v: Vec<OffsetSize>| v@) =~= vs.take(
                    k,
                ).map_values(|tv: TokenView| tv.reference_offsets).push(refs@));
                assert(vs.take(k + 1).map_values(|tv: TokenView| tv.reference_offsets) =~= vs.take(
                    k,
                ).map_values(|tv: TokenView| tv.reference_offsets).push(vs[k].reference_offsets));
                assert(masks@ =~= vs.take(k + 1).map_values(|tv: TokenView| tv.mask));
            }
        }
        proof {
            assert(vs.skip(texts@.len() as int) =~= Seq::<TokenView>::empty());
            assert(texts@.len() == vs.len());
            assert(vs.take(vs.len() as int) =~= vs);
        }
        (texts, offsets, original_positions, masks)
    }

    /// Tokenizes a string, returning the token texts alone. Each token's
    /// text is either an exact span of the input or the image of a span
    /// under the configured transforms; use
    /// [`BaseTokenizer::tokenize_with_offsets`] for the spans themselves.
    pub fn tokenize(&self, text: &str) -> (r: Vec<String>)
        requires
            self.wf(),
            text@.len() <= OffsetSize::MAX,
        ensures
            tokenize_result_ok(r@, text@, self.spec_lower_case(), self.spec_strip_accents()),
            r@.map_values(|t: String| t@) == tokenized_views(
                text@,
                self.spec_vocab().special_map(),
                self.spec_vocab().unknown_view(),
                self.spec_lower_case(),
                self.spec_strip_accents(),
            ).map_values(|tv: TokenView| tv.text),
    {
        let (texts, offsets, original_positions, masks) = self.tokenize_with_offsets(text);
        proof {
            let l = self.spec_lower_case();
            let st = self.spec_strip_accents();
            assert forall|j: int| 0 <= j < texts@.len() implies #[trigger] token_text_plausible(
                texts@[j]@,
                text@,
                l,
                st,
            ) by {
                let o = offsets@[j]->0;
                assert(token_text_from(texts@[j]@, o, text@, l, st));
            }
        }
        texts
    }

    /// The ID of each token string, in order, each resolved by the
    /// vocabulary: registered special values and vocabulary tokens to their
    /// IDs, anything else to the ID of the unknown token.
    pub fn convert_tokens_to_ids(&self, tokens: &Vec<String>) -> (r: Vec<i64>)
        requires
            self.wf(),
        ensures
            r@.len() == tokens@.len(),
            forall|i: int|
                0 <= i < tokens@.len() ==> (#[trigger] r@[i]) as int
                    == crate::vocab::spec_token_to_id(
                    self.spec_vocab().special_map(),
                    self.spec_vocab().values_map(),
                    self.spec_vocab().unknown_view(),
                    tokens@[i]@,
                ),
    {
        let n = tokens.len();
        let mut out: Vec<i64> = Vec::new();
        let mut i: usize = 0;
        while i < n
            invariant
                i <= n,
                n == tokens@.len(),
                self.wf(),
                out@.len() == i,
                forall|j: int|
                    0 <= j < i ==> (#[trigger] out@[j]) as int == crate::vocab::spec_token_to_id(
                        self.spec_vocab().special_map(),
                        self.spec_vocab().values_map(),
                        self.spec_vocab().unknown_view(),
                        tokens@[j]@,
                    ),
            decreases n - i,
        {
            let id = self.vocab().token_to_id(tokens[i].as_str());
            out.push(id);
            i += 1;
        }
        out
    }

    /// Tokenizes each string of the list with [`BaseTokenizer::tokenize`].
    pub fn tokenize_list(&self, text_list: Vec<&str>) -> (r: Vec<Vec<String>>)
        requires
            self.wf(),
            forall|i: int|
                0 <= i < text_list@.len() ==> (#[trigger] text_list@[i])@.len() <= OffsetSize::MAX,
        ensures
            r@.len() == text_list@.len(),
            forall|i: int|
                0 <= i < r@.len() ==> tokenize_result_ok(
                    (#[trigger] r@[i])@,
                    text_list@[i]@,
                    self.spec_lower_case(),
                    self.spec_strip_accents(),
                ),
            forall|i: int|
                0 <= i < r@.len() ==> (#[trigger] r@[i])@.map_values(|t: String| t@)
                    == tokenized_views(
                    text_list@[i]@,
                    self.spec_vocab().special_map(),
                    self.spec_vocab().unknown_view(),
                    self.spec_lower_case(),
                    self.spec_strip_accents(),
                ).map_values(|tv: TokenView| tv.text),
    {
        let n = text_list.len();
        let mut out: Vec<Vec<String>> = Vec::new();
        let mut i: usize = 0;
        while i < n
            invariant
                i <= n,
                n == text_list@.len(),
                self.wf(),
                forall|j: int|
                    0 <= j < n ==> (#[trigger] text_list@[j])@.len() <= OffsetSize::MAX,
                out@.len() == i,
                forall|j: int|
                    0 <= j < i ==> tokenize_result_ok(
                        (#[trigger] out@[j])@,
                        text_list@[j]@,
                        self.spec_lower_case(),
                        self.spec_strip_accents(),
                    ),
                forall|j: int|
                    0 <= j < i ==> (#[trigger] out@[j])@.map_values(|t: String| t@)
                        == tokenized_views(
                        text_list@[j]@,
                        self.spec_vocab().special_map(),
                        self.spec_vocab().unknown_view(),
                        self.spec_lower_case(),
                        self.spec_strip_accents(),
                    ).map_values(|tv: TokenView| tv.text),
            decreases n - i,
        {
            let tokens = self.tokenize(text_list[i]);
            out.push(tokens);
            i += 1;
        }
        out
    }

    /// Tokenizes each string of the list with
    /// [`BaseTokenizer::tokenize_with_offsets`].
    pub fn tokenize_list_with_offsets(&self, text_list: Vec<&str>) -> (r: Vec<
        (Vec<String>, Vec<Option<Offset>>, Vec<Vec<OffsetSize>>, Vec<Mask>),
    >)
        requires
            self.wf(),
            forall|i: int|
                0 <= i < text_list@.len() ==> (#[trigger] text_list@[i])@.len() <= OffsetSize::MAX,
        ensures
            r@.len() == text_list@.len(),
            forall|i: int|
                0 <= i < r@.len() ==> (#[trigger] r@[i]).1@.len() == r@[i].0@.len() && r@[i].2@.len()
                    == r@[i].0@.len() && r@[i].3@.len() == r@[i].0@.len(),
            forall|i: int|
                0 <= i < r@.len() ==> offsets_row_exact(
                    #[trigger] r@[i],
                    text_list@[i]@,
                    self.spec_vocab().special_map(),
                    self.spec_vocab().unknown_view(),
                    self.spec_lower_case(),
                    self.spec_strip_accents(),
                ),
    {
        let n = text_list.len();
        let mut out: Vec<(Vec<String>, Vec<Option<Offset>>, Vec<Vec<OffsetSize>>, Vec<Mask>)> =
            Vec::new();
        let mut i: usize = 0;
        while i < n
            invariant
                i <= n,
                n == text_list@.len(),
                self.wf(),
                forall|j: int|
                    0 <= j < n ==> (#[trigger] text_list@[j])@.len() <= OffsetSize::MAX,
                out@.len() == i,
                forall|j: int|
                    0 <= j < i ==> (#[trigger] out@[j]).1@.len() == out@[j].0@.len()
                        && out@[j].2@.len() == out@[j].0@.len() && out@[j].3@.len()
                        == out@[j].0@.len(),
                forall|j: int|
                    0 <= j < i ==> offsets_row_exact(
                        #[trigger] out@[j],
                        text_list@[j]@,
                        self.spec_vocab().special_map(),
                        self.spec_vocab().unknown_view(),
                        self.spec_lower_case(),
                        self.spec_strip_accents(),
                    ),
            decreases n - i,
        {
            let row = self.tokenize_with_offsets(text_list[i]);
            out.push(row);
            i += 1;
        }
        out
    }

    /// Builds the model input from one sequence or a sequence pair. The base
    /// framing injects no marker tokens: it concatenates the payloads,
    /// gives first-sequence positions segment ID 0 and second-sequence
    /// positions segment ID 1, and marks no position as special.
    pub fn build_input_with_special_tokens(
        &self,
        seq_1: SequencePayload,
        seq_2: Option<SequencePayload>,
    ) -> (r: (Vec<i64>, Vec<i8>, Vec<i8>, Vec<Option<Offset>>, Vec<Vec<OffsetSize>>, Vec<Mask>))
        requires
            seq_1.wf(),
            seq_2 matches Some(s2) ==> s2.wf(),
        ensures
            ({
                let l1 = seq_1.spec_len();
                match seq_2 {
                    Some(s2) => {
                        let l2 = s2.spec_len();
                        &&& r.0@ == seq_1.token_ids@ + s2.token_ids@
                        &&& r.1@ == Seq::new(l1 as nat, |i: int| 0i8) + Seq::new(
                            l2 as nat,
                            |i: int| 1i8,
                        )
                        &&& r.2@ == Seq::new((l1 + l2) as nat, |i: int| 0i8)
                        &&& r.3@ == seq_1.token_offsets@ + s2.token_offsets@
                        &&& r.4@ == seq_1.reference_offsets@ + s2.reference_offsets@
                        &&& r.5@ == seq_1.mask@ + s2.mask@
                    },
                    None => {
                        &&& r.0@ == seq_1.token_ids@
                        &&& r.1@ == Seq::new(l1 as nat, |i: int| 0i8)
                        &&& r.2@ == Seq::new(l1 as nat, |i: int| 0i8)
                        &&& r.3@ == seq_1.token_offsets@
                        &&& r.4@ == seq_1.reference_offsets@
                        &&& r.5@ == seq_1.mask@
                    },
                }
            }),
    {
        let l1 = seq_1.token_ids.len();
        let mut token_segment_ids: Vec<i8> = vec![0i8; l1];
        match seq_2 {
            Some(s2) => {
                let SequencePayload {
                    token_ids: mut ids2,
                    token_offsets: mut offs2,
                    reference_offsets: mut refs2,
                    mask: mut mask2,
                } = s2;
                let l2 = ids2.len();
                let mut ones: Vec<i8> = vec![1i8; l2];
                token_segment_ids.append(&mut ones);
                let SequencePayload {
                    token_ids: mut ids,
                    token_offsets: mut offs,
                    reference_offsets: mut refs,
                    mask: mut mask,
                } = seq_1;
                ids.append(&mut ids2);
                offs.append(&mut offs2);
                refs.append(&mut refs2);
                mask.append(&mut mask2);
                let special_tokens_mask: Vec<i8> = vec![0i8; ids.len()];
                proof {
                    assert(special_tokens_mask@ =~= Seq::new(
                        (seq_1.spec_len() + l2) as nat,
                        |i: int| 0i8,
                    ));
                }
                (ids, token_segment_ids, special_tokens_mask, offs, refs, mask)
            },
            None => {
                let special_tokens_mask: Vec<i8> = vec![0i8; l1];
                let SequencePayload {
                    token_ids: ids,
                    token_offsets: offs,
                    reference_offsets: refs,
                    mask,
                } = seq_1;
                (ids, token_segment_ids, special_tokens_mask, offs, refs, mask)
            },
        }
    }

    /// Encodes a text, or a pair of texts, into a complete
    /// [`TokenizedInput`]: tokenizes and converts to IDs, removes whatever
    /// exceeds `max_len` under the chosen truncation strategy (recording it
    /// as overflow), and applies the framing of
    /// [`BaseTokenizer::build_input_with_special_tokens`].
    ///
    /// All per-position vectors of the result have the same length, which
    /// never exceeds `max_len`, and equals `max_len` whenever tokens were
    /// truncated. The base framing marks no position as special. With the
    /// `LongestFirst` strategy encoding always succeeds; the other
    /// strategies fail with `ValueError` exactly when
    /// [`crate::tokenization_utils::truncate_sequences`] does.
    #[verifier::rlimit(100)]
    pub fn encode(
        &self,
        text_1: &str,
        text_2: Option<&str>,
        max_len: usize,
        truncation_strategy: &TruncationStrategy,
        stride: usize,
    ) -> (r: Result<TokenizedInput, TokenizerError>)
        requires
            self.wf(),
            text_1@.len() <= OffsetSize::MAX,
            text_2 matches Some(t2) ==> t2@.len() <= OffsetSize::MAX,
            text_1@.len() + (match text_2 {
                Some(t2) => t2@.len(),
                None => 0,
            }) <= usize::MAX,
        ensures
            match r {
                Ok(t) => {
                    &&& t.segment_ids@.len() == t.token_ids@.len()
                    &&& t.special_tokens_mask@.len() == t.token_ids@.len()
                    &&& t.token_offsets@.len() == t.token_ids@.len()
                    &&& t.reference_offsets@.len() == t.token_ids@.len()
                    &&& t.mask@.len() == t.token_ids@.len()
                    &&& t.token_ids@.len() <= max_len
                    &&& (t.num_truncated_tokens > 0 ==> t.token_ids@.len() == max_len)
                    &&& (t.num_truncated_tokens == 0 ==> t.overflowing_tokens@
                        =~= Seq::<i64>::empty())
                    &&& (forall|i: int|
                        0 <= i < t.special_tokens_mask@.len()
                            ==> (#[trigger] t.special_tokens_mask@[i]) == 0i8)
                    &&& segment_split_ok(t.segment_ids@)
                    &&& (text_2 is None ==> forall|i: int|
                        0 <= i < t.segment_ids@.len() ==> (#[trigger] t.segment_ids@[i]) == 0i8)
                },
                Err(e) => e matches TokenizerError::ValueError(_),
            },
            truncation_strategy is LongestFirst ==> r is Ok,
            ({
                let sm = self.spec_vocab().special_map();
                let vm = self.spec_vocab().values_map();
                let unk = self.spec_vocab().unknown_view();
                let src2 = match text_2 {
                    Some(t2) => Some(t2@),
                    None => None,
                };
                &&& (r is Err <==> encode_fails(
                    text_1@,
                    src2,
                    max_len as int,
                    *truncation_strategy,
                    sm,
                    vm,
                    unk,
                    self.spec_lower_case(),
                    self.spec_strip_accents(),
                ))
                &&& (r matches Ok(t) ==> encoded_exact(
                    t,
                    text_1@,
                    src2,
                    max_len as int,
                    *truncation_strategy,
                    stride as int,
                    sm,
                    vm,
                    unk,
                    self.spec_lower_case(),
                    self.spec_strip_accents(),
                ))
            }),
    {
        let ghost sm = self.spec_vocab().special_map();
        let ghost vm = self.spec_vocab().values_map();
        let ghost unkv = self.spec_vocab().unknown_view();
        let ghost lg = self.spec_lower_case();
        let ghost stg = self.spec_strip_accents();
        let ghost vs1 = tokenized_views(text_1@, sm, unkv, lg, stg);
        let ghost ids1s = spec_ids(vs1, sm, vm, unkv);
        let (t1_texts, t1_offsets, t1_refs, t1_masks) = self.tokenize_with_offsets(text_1);
        let ids_1 = self.convert_tokens_to_ids(&t1_texts);
        let seq_1 = SequencePayload {
            token_ids: ids_1,
            token_offsets: t1_offsets,
            reference_offsets: t1_refs,
            mask: t1_masks,
        };
        proof {
            assert forall|i: int| 0 <= i < seq_1.token_ids@.len() implies ids_int(
                seq_1.token_ids@,
            )[i] == ids1s[i] by {
                assert(t1_texts@.map_values(|t: String| t@)[i] == vs1.map_values(
                    |tv: TokenView| tv.text,
                )[i]);
                assert(t1_texts@[i]@ == vs1[i].text);
            }
            assert(ids_int(seq_1.token_ids@) =~= ids1s);
            assert(seq_1.token_offsets@ == vs1.map_values(|tv: TokenView| view_offset(tv)));
            assert(seq_1.reference_offsets@.map_values(|v: Vec<OffsetSize>| v@) == vs1.map_values(
                |tv: TokenView| tv.reference_offsets,
            ));
            assert(seq_1.mask@ == vs1.map_values(|tv: TokenView| tv.mask));
        }
        let len_1 = seq_1.token_ids.len();
        let ghost vs2 = match text_2 {
            Some(t2) => tokenized_views(t2@, sm, unkv, lg, stg),
            None => Seq::empty(),
        };
        let ghost ids2s = spec_ids(vs2, sm, vm, unkv);
        let (seq_2, len_2): (Option<SequencePayload>, usize) = match text_2 {
            Some(t2) => {
                let (t2_texts, t2_offsets, t2_refs, t2_masks) = self.tokenize_with_offsets(t2);
                let ids_2 = self.convert_tokens_to_ids(&t2_texts);
                let s2 = SequencePayload {
                    token_ids: ids_2,
                    token_offsets: t2_offsets,
                    reference_offsets: t2_refs,
                    mask: t2_masks,
                };
                proof {
                    assert forall|i: int| 0 <= i < s2.token_ids@.len() implies ids_int(
                        s2.token_ids@,
                    )[i] == ids2s[i] by {
                        assert(t2_texts@.map_values(|t: String| t@)[i] == vs2.map_values(
                            |tv: TokenView| tv.text,
                        )[i]);
                        assert(t2_texts@[i]@ == vs2[i].text);
                    }
                    assert(ids_int(s2.token_ids@) =~= ids2s);
                    assert(s2.token_offsets@ == vs2.map_values(|tv: TokenView| view_offset(tv)));
                    assert(s2.reference_offsets@.map_values(|v: Vec<OffsetSize>| v@)
                        == vs2.map_values(|tv: TokenView| tv.reference_offsets));
                    assert(s2.mask@ == vs2.map_values(|tv: TokenView| tv.mask));
                }
                let l2 = s2.token_ids.len();
                (Some(s2), l2)
            },
            None => (None, 0),
        };
        proof {
            if text_2 is None {
                assert(vs2 =~= Seq::<TokenView>::empty());
                assert(ids2s =~= Seq::<int>::empty());
            }
            assert(len_2 == ids2s.len());
        }
        let total = len_1 + len_2;
        let num_truncated_tokens = if total > max_len {
            total - max_len
        } else {
            0
        };
        proof {
            if num_truncated_tokens > 0 {
                crate::tokenization_utils::lemma_longest_first_kept_sum(
                    len_1 as int,
                    len_2 as int,
                    num_truncated_tokens as int,
                );
            }
        }
        let r = self.encode_truncated(
            seq_1,
            seq_2,
            num_truncated_tokens,
            truncation_strategy,
            stride,
            Ghost(vs1),
            Ghost(vs2),
            Ghost(ids1s),
            Ghost(ids2s),
        );
        proof {
            let l1 = ids1s.len() as int;
            let l2 = ids2s.len() as int;
            let pair = text_2 is Some;
            let num = num_truncated_tokens as int;
            let (k1, k2) = kept_counts(*truncation_strategy, l1, l2, pair, num);
            match &r {
                Ok(t) => {
                    assert(ids_int(t.token_ids@).len() == t.token_ids@.len());
                    assert(t.token_ids@.len() == k1 + k2);
                    if num == 0 {
                        assert(ids_int(t.overflowing_tokens@).len()
                            == t.overflowing_tokens@.len());
                        assert(t.overflowing_tokens@ =~= Seq::<i64>::empty());
                    }
                    if text_2 is None {
                        assert(k2 == 0);
                        assert forall|i: int| 0 <= i < t.segment_ids@.len() implies (
                        #[trigger] t.segment_ids@[i]) == 0i8 by {
                            assert(t.segment_ids@[i] == (Seq::new(k1 as nat, |q: int| 0i8)
                                + Seq::new(k2 as nat, |q: int| 1i8))[i]);
                        }
                    }
                },
                Err(e) => {},
            }
        }
        r
    }

    /// Removes `num_truncated_tokens` tokens from the converted payloads
    /// under the chosen strategy and frames the result; the ghost arguments
    /// carry the payloads' mathematical values so that the result can be
    /// pinned against them.
    #[verifier::rlimit(100)]
    fn encode_truncated(
        &self,
        seq_1: SequencePayload,
        seq_2: Option<SequencePayload>,
        num_truncated_tokens: usize,
        truncation_strategy: &TruncationStrategy,
        stride: usize,
        Ghost(vs1): Ghost<Seq<TokenView>>,
        Ghost(vs2): Ghost<Seq<TokenView>>,
        Ghost(ids1s): Ghost<Seq<int>>,
        Ghost(ids2s): Ghost<Seq<int>>,
    ) -> (r: Result<TokenizedInput, TokenizerError>)
        requires
            seq_1.wf(),
            seq_2 matches Some(s2) ==> s2.wf(),
            ids_int(seq_1.token_ids@) == ids1s,
            seq_1.token_offsets@ == vs1.map_values(|tv: TokenView| view_offset(tv)),
            seq_1.reference_offsets@.map_values(|v: Vec<OffsetSize>| v@) == vs1.map_values(
                |tv: TokenView| tv.reference_offsets,
            ),
            seq_1.mask@ == vs1.map_values(|tv: TokenView| tv.mask),
            match seq_2 {
                Some(s2) => {
                    &&& ids_int(s2.token_ids@) == ids2s
                    &&& s2.token_offsets@ == vs2.map_values(|tv: TokenView| view_offset(tv))
                    &&& s2.reference_offsets@.map_values(|v: Vec<OffsetSize>| v@)
                        == vs2.map_values(|tv: TokenView| tv.reference_offsets)
                    &&& s2.mask@ == vs2.map_values(|tv: TokenView| tv.mask)
                },
                None => vs2 == Seq::<TokenView>::empty() && ids2s == Seq::<int>::empty(),
            },
            num_truncated_tokens as int <= ids1s.len() + ids2s.len()
                || !(truncation_strategy is LongestFirst),
        ensures
            ({
                let l1 = ids1s.len() as int;
                let l2 = ids2s.len() as int;
                let pair = seq_2 is Some;
                let num = num_truncated_tokens as int;
                let (k1, k2) = kept_counts(*truncation_strategy, l1, l2, pair, num);
                &&& (r is Err <==> encode_errs(*truncation_strategy, l1, l2, pair, num))
                &&& match r {
                    Ok(t) => {
                        &&& t.segment_ids@.len() == t.token_ids@.len()
                        &&& t.special_tokens_mask@.len() == t.token_ids@.len()
                        &&& t.token_offsets@.len() == t.token_ids@.len()
                        &&& t.reference_offsets@.len() == t.token_ids@.len()
                        &&& t.mask@.len() == t.token_ids@.len()
                        &&& (forall|i: int|
                            0 <= i < t.special_tokens_mask@.len()
                                ==> (#[trigger] t.special_tokens_mask@[i]) == 0i8)
                        &&& segment_split_ok(t.segment_ids@)
                        &&& t.num_truncated_tokens == num
                        &&& ids_int(t.token_ids@) == ids1s.take(k1) + ids2s.take(k2)
                        &&& t.token_offsets@ == vs1.map_values(
                            |tv: TokenView| view_offset(tv),
                        ).take(k1) + vs2.map_values(|tv: TokenView| view_offset(tv)).take(k2)
                        &&& t.reference_offsets@.map_values(|v: Vec<OffsetSize>| v@)
                            == vs1.map_values(|tv: TokenView| tv.reference_offsets).take(k1)
                            + vs2.map_values(|tv: TokenView| tv.reference_offsets).take(k2)
                        &&& t.mask@ == vs1.map_values(|tv: TokenView| tv.mask).take(k1)
                            + vs2.map_values(|tv: TokenView| tv.mask).take(k2)
                        &&& t.segment_ids@ == Seq::new(k1 as nat, |i: int| 0i8) + Seq::new(
                            k2 as nat,
                            |i: int| 1i8,
                        )
                        &&& ids_int(t.overflowing_tokens@) == spec_overflow(
                            *truncation_strategy,
                            ids1s,
                            ids2s,
                            pair,
                            num,
                            stride as int,
                        )
                    },
                    Err(e) => e matches TokenizerError::ValueError(_),
                }
            }),
    {
        proof {
            if num_truncated_tokens > 0 && truncation_strategy is LongestFirst
                && seq_2 is Some {
                crate::tokenization_utils::lemma_longest_first_kept_sum(
                    ids1s.len() as int,
                    ids2s.len() as int,
                    num_truncated_tokens as int,
                );
            }
        }
        let ghost seq_1g = seq_1;
        let ghost seq_2g = seq_2;
        match crate::tokenization_utils::truncate_sequences(
            seq_1,
            seq_2,
            num_truncated_tokens,
            truncation_strategy,
            stride,
        ) {
            Ok((p1, p2, overflowing_tokens)) => {
                let ghost p1g = p1;
                let ghost p2g = p2;
                let ghost ovg = overflowing_tokens@;
                proof {
                    let num = num_truncated_tokens as int;
                    let l1 = ids1s.len() as int;
                    let l2 = ids2s.len() as int;
                    let pair = seq_2g is Some;
                    let (k1, k2) = kept_counts(*truncation_strategy, l1, l2, pair, num);
                    // The first payload keeps exactly its first k1 tokens.
                    if num == 0 || (pair && truncation_strategy is OnlySecond) {
                        assert(p1g == seq_1g);
                        assert(seq_1g.token_ids@.take(k1) =~= seq_1g.token_ids@);
                        assert(seq_1g.token_offsets@.take(k1) =~= seq_1g.token_offsets@);
                        assert(seq_1g.reference_offsets@.take(k1) =~= seq_1g.reference_offsets@);
                        assert(seq_1g.mask@.take(k1) =~= seq_1g.mask@);
                    }
                    assert(crate::tokenization_utils::payload_take(seq_1g, k1, p1g));
                    // The second payload, when there is one, keeps exactly
                    // its first k2 tokens.
                    match seq_2g {
                        Some(s2) => {
                            if num == 0 || !(truncation_strategy is LongestFirst
                                || truncation_strategy is OnlySecond) {
                                assert(p2g == Some(s2));
                                assert(s2.token_ids@.take(k2) =~= s2.token_ids@);
                                assert(s2.token_offsets@.take(k2) =~= s2.token_offsets@);
                                assert(s2.reference_offsets@.take(k2) =~= s2.reference_offsets@);
                                assert(s2.mask@.take(k2) =~= s2.mask@);
                            }
                            assert(p2g matches Some(q2)
                                && crate::tokenization_utils::payload_take(s2, k2, q2));
                        },
                        None => {
                            assert(k2 == 0);
                        },
                    }
                    assert(ids_int(p1g.token_ids@) =~= ids1s.take(k1));
                    assert(p1g.token_offsets@ =~= vs1.map_values(
                        |tv: TokenView| view_offset(tv),
                    ).take(k1));
                    assert(p1g.reference_offsets@.map_values(|v: Vec<OffsetSize>| v@)
                        =~= vs1.map_values(|tv: TokenView| tv.reference_offsets).take(k1));
                    assert(p1g.mask@ =~= vs1.map_values(|tv: TokenView| tv.mask).take(k1));
                    if pair {
                        let q2 = p2g->0;
                        assert(ids_int(q2.token_ids@) =~= ids2s.take(k2));
                        assert(q2.token_offsets@ =~= vs2.map_values(
                            |tv: TokenView| view_offset(tv),
                        ).take(k2));
                        assert(q2.reference_offsets@.map_values(|v: Vec<OffsetSize>| v@)
                            =~= vs2.map_values(|tv: TokenView| tv.reference_offsets).take(k2));
                        assert(q2.mask@ =~= vs2.map_values(|tv: TokenView| tv.mask).take(k2));
                        assert(q2.spec_len() == k2);
                    } else {
                        assert(k2 == 0);
                    }
                    assert(p1g.spec_len() == k1);
                    // The overflow matches its spec.
                    if num == 0 {
                        assert(ids_int(ovg) =~= spec_overflow(
                            *truncation_strategy,
                            ids1s,
                            ids2s,
                            pair,
                            num,
                            stride as int,
                        ));
                    } else {
                        match truncation_strategy {
                            TruncationStrategy::LongestFirst => {
                                if pair {
                                    assert(ovg == seq_1g.token_ids@.skip(k1));
                                    assert(ids_int(ovg) =~= ids1s.skip(k1));
                                } else {
                                    lemma_overflow_int(
                                        seq_1g.token_ids@,
                                        ids1s,
                                        ovg,
                                        l1 - num,
                                        stride as int,
                                    );
                                }
                            },
                            TruncationStrategy::OnlyFirst => {
                                lemma_overflow_int(
                                    seq_1g.token_ids@,
                                    ids1s,
                                    ovg,
                                    l1 - num,
                                    stride as int,
                                );
                            },
                            TruncationStrategy::OnlySecond => {
                                lemma_overflow_int(
                                    seq_2g->0.token_ids@,
                                    ids2s,
                                    ovg,
                                    l2 - num,
                                    stride as int,
                                );
                            },
                            TruncationStrategy::DoNotTruncate => {},
                        }
                        assert(ids_int(ovg) =~= spec_overflow(
                            *truncation_strategy,
                            ids1s,
                            ids2s,
                            pair,
                            num,
                            stride as int,
                        ));
                    }
                }
                let (token_ids, segment_ids, special_tokens_mask, token_offsets, reference_offsets, mask) =
                    self.build_input_with_special_tokens(p1, p2);
                proof {
                    assert(segment_split_ok(segment_ids@));
                    let num = num_truncated_tokens as int;
                    let l1 = ids1s.len() as int;
                    let l2 = ids2s.len() as int;
                    let pair = seq_2g is Some;
                    let (k1, k2) = kept_counts(*truncation_strategy, l1, l2, pair, num);
                    if pair {
                        let q2 = p2g->0;
                        assert(ids_int(token_ids@) =~= ids_int(p1g.token_ids@) + ids_int(
                            q2.token_ids@,
                        ));
                        assert(reference_offsets@.map_values(|v: Vec<OffsetSize>| v@)
                            =~= p1g.reference_offsets@.map_values(|v: Vec<OffsetSize>| v@)
                            + q2.reference_offsets@.map_values(|v: Vec<OffsetSize>| v@));
                    } else {
                        assert(ids_int(token_ids@) =~= ids_int(p1g.token_ids@));
                        assert(ids_int(p1g.token_ids@) + ids2s.take(0) =~= ids_int(
                            p1g.token_ids@,
                        ));
                        assert(token_offsets@ + vs2.map_values(
                            |tv: TokenView| view_offset(tv),
                        ).take(0) =~= token_offsets@);
                        assert(reference_offsets@.map_values(|v: Vec<OffsetSize>| v@)
                            =~= p1g.reference_offsets@.map_values(|v: Vec<OffsetSize>| v@));
                        assert(p1g.reference_offsets@.map_values(|v: Vec<OffsetSize>| v@)
                            + vs2.map_values(|tv: TokenView| tv.reference_offsets).take(0)
                            =~= p1g.reference_offsets@.map_values(|v: Vec<OffsetSize>| v@));
                        assert(mask@ + vs2.map_values(|tv: TokenView| tv.mask).take(0) =~= mask@);
                        assert(segment_ids@ =~= Seq::new(k1 as nat, |i: int| 0i8) + Seq::new(
                            k2 as nat,
                            |i: int| 1i8,
                        ));
                    }
                    // Success is incompatible with the failure condition.
                    assert(!encode_errs(*truncation_strategy, l1, l2, pair, num));
                }
                Ok(
                    TokenizedInput {
                        token_ids,
                        segment_ids,
                        special_tokens_mask,
                        overflowing_tokens,
                        num_truncated_tokens,
                        token_offsets,
                        reference_offsets,
                        mask,
                    },
                )
            },
            Err(e) => {
                proof {
                    let num = num_truncated_tokens as int;
                    let l1 = ids1s.len() as int;
                    let l2 = ids2s.len() as int;
                    assert(encode_errs(*truncation_strategy, l1, l2, seq_2g is Some, num));
                }
                Err(e)
            },
        }
    }


    /// Encodes each text of the list as a single sequence with
    /// [`BaseTokenizer::encode`]; the first failure is returned.
    pub fn encode_list(
        &self,
        text_list: Vec<&str>,
        max_len: usize,
        truncation_strategy: &TruncationStrategy,
        stride: usize,
    ) -> (r: Result<Vec<TokenizedInput>, TokenizerError>)
        requires
            self.wf(),
            forall|i: int|
                0 <= i < text_list@.len() ==> (#[trigger] text_list@[i])@.len() <= OffsetSize::MAX,
        ensures
            r matches Ok(v) ==> v@.len() == text_list@.len(),
            truncation_strategy is LongestFirst ==> r is Ok,
            r matches Err(e) ==> e matches TokenizerError::ValueError(_),
            r matches Ok(v) ==> forall|i: int|
                0 <= i < v@.len() ==> encoded_exact(
                    #[trigger] v@[i],
                    text_list@[i]@,
                    None,
                    max_len as int,
                    *truncation_strategy,
                    stride as int,
                    self.spec_vocab().special_map(),
                    self.spec_vocab().values_map(),
                    self.spec_vocab().unknown_view(),
                    self.spec_lower_case(),
                    self.spec_strip_accents(),
                ),
    {
        let n = text_list.len();
        let mut out: Vec<TokenizedInput> = Vec::new();
        let mut i: usize = 0;
        while i < n
            invariant
                i <= n,
                n == text_list@.len(),
                self.wf(),
                forall|j: int|
                    0 <= j < n ==> (#[trigger] text_list@[j])@.len() <= OffsetSize::MAX,
                out@.len() == i,
                forall|j: int|
                    0 <= j < i ==> encoded_exact(
                        #[trigger] out@[j],
                        text_list@[j]@,
                        None,
                        max_len as int,
                        *truncation_strategy,
                        stride as int,
                        self.spec_vocab().special_map(),
                        self.spec_vocab().values_map(),
                        self.spec_vocab().unknown_view(),
                        self.spec_lower_case(),
                        self.spec_strip_accents(),
                    ),
            decreases n - i,
        {
            match self.encode(text_list[i], None, max_len, truncation_strategy, stride) {
                Ok(t) => {
                    out.push(t);
                },
                Err(e) => {
                    return Err(e);
                },
            }
            i += 1;
        }
        Ok(out)
    }

    /// Encodes each text pair of the list with [`BaseTokenizer::encode`];
    /// the first failure is returned.
    pub fn encode_pair_list(
        &self,
        text_list: Vec<(&str, &str)>,
        max_len: usize,
        truncation_strategy: &TruncationStrategy,
        stride: usize,
    ) -> (r: Result<Vec<TokenizedInput>, TokenizerError>)
        requires
            self.wf(),
            forall|i: int|
                0 <= i < text_list@.len() ==> (#[trigger] text_list@[i]).0@.len()
                    <= OffsetSize::MAX && text_list@[i].1@.len() <= OffsetSize::MAX
                    && text_list@[i].0@.len() + text_list@[i].1@.len() <= usize::MAX,
        ensures
            r matches Ok(v) ==> v@.len() == text_list@.len(),
            truncation_strategy is LongestFirst ==> r is Ok,
            r matches Err(e) ==> e matches TokenizerError::ValueError(_),
            r matches Ok(v) ==> forall|i: int|
                0 <= i < v@.len() ==> encoded_exact(
                    #[trigger] v@[i],
                    text_list@[i].0@,
                    Some(text_list@[i].1@),
                    max_len as int,
                    *truncation_strategy,
                    stride as int,
                    self.spec_vocab().special_map(),
                    self.spec_vocab().values_map(),
                    self.spec_vocab().unknown_view(),
                    self.spec_lower_case(),
                    self.spec_strip_accents(),
                ),
    {
        let n = text_list.len();
        let mut out: Vec<TokenizedInput> = Vec::new();
        let mut i: usize = 0;
        while i < n
            invariant
                i <= n,
                n == text_list@.len(),
                self.wf(),
                forall|j: int|
                    0 <= j < n ==> (#[trigger] text_list@[j]).0@.len() <= OffsetSize::MAX
                        && text_list@[j].1@.len() <= OffsetSize::MAX && text_list@[j].0@.len()
                        + text_list@[j].1@.len() <= usize::MAX,
                out@.len() == i,
                forall|j: int|
                    0 <= j < i ==> encoded_exact(
                        #[trigger] out@[j],
                        text_list@[j].0@,
                        Some(text_list@[j].1@),
                        max_len as int,
                        *truncation_strategy,
                        stride as int,
                        self.spec_vocab().special_map(),
                        self.spec_vocab().values_map(),
                        self.spec_vocab().unknown_view(),
                        self.spec_lower_case(),
                        self.spec_strip_accents(),
                    ),
            decreases n - i,
        {
            let pair = text_list[i];
            match self.encode(pair.0, Some(pair.1), max_len, truncation_strategy, stride) {
                Ok(t) => {
                    out.push(t);
                },
                Err(e) => {
                    return Err(e);
                },
            }
            i += 1;
        }
        Ok(out)
    }

    /// The token of each ID, in order; with `skip_special_tokens`, IDs that
    /// are registered special values are dropped first.
    pub fn decode_to_vec(&self, token_ids: Vec<i64>, skip_special_tokens: bool) -> (r: Vec<String>)
        requires
            self.wf(),
        ensures
            r@.map_values(|s: String| s@) == spec_decode_tokens(
                self.spec_vocab().special_indices_map(),
                self.spec_vocab().indices_map(),
                self.spec_vocab().unknown_view(),
                token_ids@,
                skip_special_tokens,
            ),
    {
        let ghost sim = self.spec_vocab().special_indices_map();
        let ghost im = self.spec_vocab().indices_map();
        let ghost unk = self.spec_vocab().unknown_view();
        let ghost keep = |id: i64| !sim.contains_key(id as int);
        let n = token_ids.len();
        let mut out: Vec<String> = Vec::new();
        let mut i: usize = 0;
        while i < n
            invariant
                i <= n,
                n == token_ids@.len(),
                self.wf(),
                sim == self.spec_vocab().special_indices_map(),
                im == self.spec_vocab().indices_map(),
                unk == self.spec_vocab().unknown_view(),
                keep == (|id: i64| !sim.contains_key(id as int)),
                out@.map_values(|s: String| s@) == spec_decode_tokens(
                    sim,
                    im,
                    unk,
                    token_ids@.take(i as int),
                    skip_special_tokens,
                ),
            decreases n - i,
        {
            let id = token_ids[i];
            proof {
                assert(token_ids@.take(i + 1).drop_last() =~= token_ids@.take(i as int));
                assert(token_ids@.take(i + 1) =~= token_ids@.take(i as int).push(id));
                token_ids@.take(i as int).lemma_filter_push(id, keep);
            }
            if skip_special_tokens {
                if !crate::vocab::contains_id(self.vocab().special_indices(), id) {
                    let token = self.vocab().id_to_token(&id);
                    let ghost pre = out@;
                    out.push(token);
                    proof {
                        assert(out@.map_values(|s: String| s@) =~= pre.map_values(|s: String| s@)
                            .push(out@.last()@));
                        assert(token_ids@.take(i as int).filter(keep).push(id) =~= token_ids@.take(
                            i + 1,
                        ).filter(keep));
                        assert(out@.map_values(|s: String| s@) =~= spec_decode_tokens(
                            sim,
                            im,
                            unk,
                            token_ids@.take(i + 1),
                            skip_special_tokens,
                        ));
                    }
                } else {
                    proof {
                        assert(out@.map_values(|s: String| s@) =~= spec_decode_tokens(
                            sim,
                            im,
                            unk,
                            token_ids@.take(i + 1),
                            skip_special_tokens,
                        ));
                    }
                }
            } else {
                let token = self.vocab().id_to_token(&id);
                let ghost pre = out@;
                out.push(token);
                proof {
                    assert(out@.map_values(|s: String| s@) =~= pre.map_values(|s: String| s@).push(
                        out@.last()@,
                    ));
                    assert(out@.map_values(|s: String| s@) =~= spec_decode_tokens(
                        sim,
                        im,
                        unk,
                        token_ids@.take(i + 1),
                        skip_special_tokens,
                    ));
                }
            }
            i += 1;
        }
        proof {
            assert(token_ids@.take(n as int) =~= token_ids@);
        }
        out
    }

    /// Joins token texts with single spaces.
    pub fn convert_tokens_to_string(&self, tokens: Vec<String>) -> (r: String)
        ensures
            r@ == join_with_spaces(tokens@.map_values(|s: String| s@)),
    {
        let ghost tviews = tokens@.map_values(|s: String| s@);
        let n = tokens.len();
        let mut out = String::new();
        let mut i: usize = 0;
        while i < n
            invariant
                i <= n,
                n == tokens@.len(),
                tviews == tokens@.map_values(|s: String| s@),
                out@ == join_with_spaces(tviews.take(i as int)),
            decreases n - i,
        {
            proof {
                assert(tviews.take(i + 1).drop_last() =~= tviews.take(i as int));
                assert(tviews.take(i + 1).last() == tviews[i as int]);
                assert(tviews[i as int] == tokens@[i as int]@);
            }
            if i > 0 {
                crate::text::push_char(&mut out, ' ');
                proof {
                    assert(out@ =~= join_with_spaces(tviews.take(i as int)) + seq![' ']);
                }
            }
            out.append(tokens[i].as_str());
            i += 1;
        }
        proof {
            assert(tviews.take(n as int) =~= tviews);
        }
        out
    }

    /// Applies the fixed list of English-centric whitespace clean-up
    /// substitutions, in order. The order is observable and deliberate: in
    /// particular the `" do not"` to `" don't"` substitution stands before
    /// the `" 's"` family even though it reintroduces a space.
    pub fn clean_up_tokenization(&self, input_string: String) -> (r: String)
        ensures
            r@ == clean_spec(input_string@),
    {
        let cs = crate::text::chars_vec(input_string.as_str());
        let step = replace_all(&cs, &crate::text::chars_vec(" ."), &crate::text::chars_vec("."));
        let step = replace_all(&step, &crate::text::chars_vec(" !"), &crate::text::chars_vec("!"));
        let step = replace_all(&step, &crate::text::chars_vec(" ?"), &crate::text::chars_vec("?"));
        let step = replace_all(&step, &crate::text::chars_vec(" ,"), &crate::text::chars_vec(","));
        let step = replace_all(
            &step,
            &crate::text::chars_vec(" ' "),
            &crate::text::chars_vec("'"),
        );
        let step = replace_all(
            &step,
            &crate::text::chars_vec(" n't"),
            &crate::text::chars_vec("n't"),
        );
        let step = replace_all(
            &step,
            &crate::text::chars_vec(" 'm"),
            &crate::text::chars_vec("'m"),
        );
        let step = replace_all(
            &step,
            &crate::text::chars_vec(" do not"),
            &crate::text::chars_vec(" don't"),
        );
        let step = replace_all(
            &step,
            &crate::text::chars_vec(" 's"),
            &crate::text::chars_vec("'s"),
        );
        let step = replace_all(
            &step,
            &crate::text::chars_vec(" 've"),
            &crate::text::chars_vec("'ve"),
        );
        let step = replace_all(
            &step,
            &crate::text::chars_vec(" 're"),
            &crate::text::chars_vec("'re"),
        );
        crate::text::string_from_chars(&step)
    }

    /// Decodes an ID sequence to a string: maps IDs to tokens (optionally
    /// dropping registered special values), joins them with spaces, and
    /// optionally applies the clean-up substitutions.
    pub fn decode(
        &self,
        token_ids: Vec<i64>,
        skip_special_tokens: bool,
        clean_up_tokenization_spaces: bool,
    ) -> (r: String)
        requires
            self.wf(),
        ensures
            r@ == spec_decode(
                self.spec_vocab().special_indices_map(),
                self.spec_vocab().indices_map(),
                self.spec_vocab().unknown_view(),
                token_ids@,
                skip_special_tokens,
                clean_up_tokenization_spaces,
            ),
    {
        let tokens = self.decode_to_vec(token_ids, skip_special_tokens);
        let decoded_string = self.convert_tokens_to_string(tokens);
        if clean_up_tokenization_spaces {
            self.clean_up_tokenization(decoded_string)
        } else {
            decoded_string
        }
    }

    /// Decodes each ID sequence of the list with [`BaseTokenizer::decode`].
    pub fn decode_list(
        &self,
        token_ids_list: Vec<Vec<i64>>,
        skip_special_tokens: bool,
        clean_up_tokenization_spaces: bool,
    ) -> (r: Vec<String>)
        requires
            self.wf(),
        ensures
            r@.len() == token_ids_list@.len(),
            forall|i: int|
                0 <= i < r@.len() ==> (#[trigger] r@[i])@ == spec_decode(
                    self.spec_vocab().special_indices_map(),
                    self.spec_vocab().indices_map(),
                    self.spec_vocab().unknown_view(),
                    token_ids_list@[i]@,
                    skip_special_tokens,
                    clean_up_tokenization_spaces,
                ),
    {
        let n = token_ids_list.len();
        let mut out: Vec<String> = Vec::new();
        let mut i: usize = 0;
        while i < n
            invariant
                i <= n,
                n == token_ids_list@.len(),
                self.wf(),
                out@.len() == i,
                forall|j: int|
                    0 <= j < i ==> (#[trigger] out@[j])@ == spec_decode(
                        self.spec_vocab().special_indices_map(),
                        self.spec_vocab().indices_map(),
                        self.spec_vocab().unknown_view(),
                        token_ids_list@[j]@,
                        skip_special_tokens,
                        clean_up_tokenization_spaces,
                    ),
            decreases n - i,
        {
            let ids = vstd::slice::slice_to_vec(token_ids_list[i].as_slice());
            let decoded = self.decode(ids, skip_special_tokens, clean_up_tokenization_spaces);
            out.push(decoded);
            i += 1;
        }
        out
    }
}

/// The tokens an ID sequence decodes to: special-value IDs dropped when
/// requested, then every ID resolved by [`crate::vocab::spec_id_to_token`].
pub open spec fn spec_decode_tokens(
    sim: Map<int, Seq<char>>,
    im: Map<int, Seq<char>>,
    unk: Seq<char>,
    ids: Seq<i64>,
    skip: bool,
) -> Seq<Seq<char>> {
    let kept = if skip {
        ids.filter(|id: i64| !sim.contains_key(id as int))
    } else {
        ids
    };
    kept.map_values(|id: i64| crate::vocab::spec_id_to_token(sim, im, unk, id as int))
}

/// Token texts joined with single spaces.
pub open spec fn join_with_spaces(ts: Seq<Seq<char>>) -> Seq<char>
    decreases ts.len(),
{
    if ts.len() == 0 {
        Seq::empty()
    } else if ts.len() == 1 {
        ts[0]
    } else {
        join_with_spaces(ts.drop_last()) + seq![' '] + ts.last()
    }
}

/// Every non-overlapping occurrence of `pat`, found left to right, replaced
/// by `sub`.
pub open spec fn replace_spec(s: Seq<char>, pat: Seq<char>, sub: Seq<char>) -> Seq<char>
    decreases s.len(),
{
    if pat.len() == 0 || s.len() < pat.len() {
        s
    } else if s.subrange(0, pat.len() as int) == pat {
        sub + replace_spec(s.skip(pat.len() as int), pat, sub)
    } else {
        seq![s[0]] + replace_spec(s.skip(1), pat, sub)
    }
}

/// The fixed clean-up substitutions, applied in order.
pub open spec fn clean_spec(s: Seq<char>) -> Seq<char> {
    let s = replace_spec(s, " ."@, "."@);
    let s = replace_spec(s, " !"@, "!"@);
    let s = replace_spec(s, " ?"@, "?"@);
    let s = replace_spec(s, " ,"@, ","@);
    let s = replace_spec(s, " ' "@, "'"@);
    let s = replace_spec(s, " n't"@, "n't"@);
    let s = replace_spec(s, " 'm"@, "'m"@);
    let s = replace_spec(s, " do not"@, " don't"@);
    let s = replace_spec(s, " 's"@, "'s"@);
    let s = replace_spec(s, " 've"@, "'ve"@);
    replace_spec(s, " 're"@, "'re"@)
}

/// The decoded string: tokens joined with spaces, optionally cleaned up.
pub open spec fn spec_decode(
    sim: Map<int, Seq<char>>,
    im: Map<int, Seq<char>>,
    unk: Seq<char>,
    ids: Seq<i64>,
    skip: bool,
    clean: bool,
) -> Seq<char> {
    let joined = join_with_spaces(spec_decode_tokens(sim, im, unk, ids, skip));
    if clean {
        clean_spec(joined)
    } else {
        joined
    }
}

/// [`replace_spec`] performed on character vectors.
fn replace_all(s: &Vec<char>, pat: &Vec<char>, sub: &Vec<char>) -> (out: Vec<char>)
    ensures
        out@ == replace_spec(s@, pat@, sub@),
{
    let n = s.len();
    let m = pat.len();
    if m == 0 {
        return vstd::slice::slice_to_vec(s.as_slice());
    }
    let mut out: Vec<char> = Vec::new();
    let mut i: usize = 0;
    proof {
        assert(s@.skip(0) =~= s@);
        assert(out@ + replace_spec(s@, pat@, sub@) =~= replace_spec(s@, pat@, sub@));
    }
    while i < n
        invariant
            i <= n,
            n == s@.len(),
            m == pat@.len(),
            m > 0,
            out@ + replace_spec(s@.skip(i as int), pat@, sub@) == replace_spec(s@, pat@, sub@),
        decreases n - i,
    {
        let ghost rest = s@.skip(i as int);
        if crate::tokenization_utils::matches_at(s, i, pat) {
            proof {
                assert(rest.subrange(0, m as int) =~= s@.subrange(i as int, i + m));
                assert(rest.skip(m as int) =~= s@.skip(i + m));
            }
            let sl = sub.len();
            let mut k: usize = 0;
            let ghost pre = out@;
            while k < sl
                invariant
                    k <= sl,
                    sl == sub@.len(),
                    out@ == pre + sub@.take(k as int),
                decreases sl - k,
            {
                out.push(sub[k]);
                proof {
                    assert(out@ =~= pre + sub@.take(k + 1));
                }
                k += 1;
            }
            proof {
                assert(sub@.take(sl as int) =~= sub@);
                assert(out@ =~= pre + sub@);
            }
            i += m;
        } else {
            proof {
                if rest.len() >= m {
                    assert(rest.subrange(0, m as int) =~= s@.subrange(i as int, i + m));
                }
                assert(rest.skip(1) =~= s@.skip(i + 1));
                if rest.len() < m {
                    assert(replace_spec(rest, pat@, sub@) == rest);
                    assert(replace_spec(s@.skip(i + 1), pat@, sub@) == s@.skip(i + 1));
                    assert(rest =~= seq![s@[i as int]] + s@.skip(i + 1));
                }
            }
            let ghost pre = out@;
            out.push(s[i]);
            proof {
                assert(out@ =~= pre + seq![s@[i as int]]);
                assert(rest =~= seq![s@[i as int]] + s@.skip(i + 1));
            }
            i += 1;
        }
    }
    proof {
        assert(s@.skip(n as int) =~= Seq::<char>::empty());
        assert(replace_spec(Seq::<char>::empty(), pat@, sub@) == Seq::<char>::empty());
        assert(out@ =~= out@ + Seq::<char>::empty());
    }
    out
}

/// The ID each token of a view sequence converts to.
pub open spec fn spec_ids(
    vs: Seq<TokenView>,
    sm: Map<Seq<char>, int>,
    vm: Map<Seq<char>, int>,
    unk: Seq<char>,
) -> Seq<int> {
    vs.map_values(|tv: TokenView| crate::vocab::spec_token_to_id(sm, vm, unk, tv.text))
}

/// An ID vector's mathematical value.
pub open spec fn ids_int(v: Seq<i64>) -> Seq<int> {
    v.map_values(|x: i64| x as int)
}

/// Whether encoding fails: the chosen strategy cannot remove `num` tokens
/// from payloads of `l1` and `l2` tokens.
pub open spec fn encode_errs(
    strategy: TruncationStrategy,
    l1: int,
    l2: int,
    pair: bool,
    num: int,
) -> bool {
    num > 0 && match strategy {
        TruncationStrategy::LongestFirst => if pair {
            l1 + l2 < num
        } else {
            l1 < num
        },
        TruncationStrategy::OnlyFirst => l1 < num,
        TruncationStrategy::OnlySecond => if pair {
            l2 < num
        } else {
            true
        },
        TruncationStrategy::DoNotTruncate => true,
    }
}

/// How many tokens each payload keeps after removing `num` under the chosen
/// strategy.
pub open spec fn kept_counts(
    strategy: TruncationStrategy,
    l1: int,
    l2: int,
    pair: bool,
    num: int,
) -> (int, int) {
    if num == 0 {
        (l1, l2)
    } else {
        match strategy {
            TruncationStrategy::LongestFirst => if pair {
                crate::tokenization_utils::longest_first_kept(l1, l2, num)
            } else {
                (l1 - num, l2)
            },
            TruncationStrategy::OnlyFirst => (l1 - num, l2),
            TruncationStrategy::OnlySecond => (l1, l2 - num),
            TruncationStrategy::DoNotTruncate => (l1, l2),
        }
    }
}

/// The last `stride` kept IDs (all of them if fewer).
pub open spec fn stride_window_ids(kept: Seq<int>, stride: int) -> Seq<int> {
    if stride <= 0 {
        Seq::empty()
    } else if stride >= kept.len() {
        kept
    } else {
        kept.subrange(kept.len() - stride, kept.len() as int)
    }
}

/// The overflowing IDs of a successful encode: nothing without truncation;
/// under pair `LongestFirst` the first payload's dropped tail alone, with
/// no stride window (the deliberate divergence
/// [`crate::tokenization_utils::truncate_sequences`] documents); otherwise
/// the cut payload's dropped tail prefixed by the stride window of its kept
/// IDs.
pub open spec fn spec_overflow(
    strategy: TruncationStrategy,
    ids1: Seq<int>,
    ids2: Seq<int>,
    pair: bool,
    num: int,
    stride: int,
) -> Seq<int> {
    if num == 0 {
        Seq::empty()
    } else {
        match strategy {
            TruncationStrategy::LongestFirst => {
                if pair {
                    let (k1, k2) = crate::tokenization_utils::longest_first_kept(
                        ids1.len() as int,
                        ids2.len() as int,
                        num,
                    );
                    ids1.skip(k1)
                } else {
                    stride_window_ids(ids1.take(ids1.len() - num), stride) + ids1.skip(
                        ids1.len() - num,
                    )
                }
            },
            TruncationStrategy::OnlyFirst => stride_window_ids(
                ids1.take(ids1.len() - num),
                stride,
            ) + ids1.skip(ids1.len() - num),
            TruncationStrategy::OnlySecond => stride_window_ids(
                ids2.take(ids2.len() - num),
                stride,
            ) + ids2.skip(ids2.len() - num),
            TruncationStrategy::DoNotTruncate => Seq::empty(),
        }
    }
}

/// The overflow of an end-truncated payload, read at the mathematical
/// level: the stride window of the kept IDs followed by the dropped tail.
proof fn lemma_overflow_int(raw: Seq<i64>, ids: Seq<int>, ov: Seq<i64>, kept: int, stride: int)
    requires
        ids == ids_int(raw),
        0 <= kept <= raw.len(),
        ov == crate::tokenization_utils::stride_window(raw.take(kept), stride) + raw.skip(kept),
    ensures
        ids_int(ov) == stride_window_ids(ids.take(kept), stride) + ids.skip(kept),
{
    assert(ids_int(raw.take(kept)) =~= ids.take(kept));
    assert(ids_int(raw.skip(kept)) =~= ids.skip(kept));
    let w_raw = crate::tokenization_utils::stride_window(raw.take(kept), stride);
    let w_ids = stride_window_ids(ids.take(kept), stride);
    assert(ids_int(w_raw) =~= w_ids);
    assert(ids_int(ov) =~= ids_int(w_raw) + ids_int(raw.skip(kept)));
}

/// Whether encoding the given texts fails: more tokens must be removed
/// than the chosen strategy can take.
pub open spec fn encode_fails(
    src1: Seq<char>,
    src2: Option<Seq<char>>,
    max_len: int,
    strategy: TruncationStrategy,
    sm: Map<Seq<char>, int>,
    vm: Map<Seq<char>, int>,
    unk: Seq<char>,
    l: bool,
    st: bool,
) -> bool {
    let ids1 = spec_ids(tokenized_views(src1, sm, unk, l, st), sm, vm, unk);
    let ids2 = match src2 {
        Some(s2) => spec_ids(tokenized_views(s2, sm, unk, l, st), sm, vm, unk),
        None => Seq::empty(),
    };
    let l1 = ids1.len() as int;
    let l2 = ids2.len() as int;
    let num = if l1 + l2 > max_len {
        l1 + l2 - max_len
    } else {
        0
    };
    encode_errs(strategy, l1, l2, src2 is Some, num)
}

/// The encoding of the given texts: the payload IDs and per-token data are
/// the truncated prefixes of the tokenized inputs' conversions, framed with
/// first-sequence segment 0 and second-sequence segment 1, no special-mask
/// positions, the truncation count at its formula, and the overflow as the
/// strategy leaves it.
pub open spec fn encoded_exact(
    t: TokenizedInput,
    src1: Seq<char>,
    src2: Option<Seq<char>>,
    max_len: int,
    strategy: TruncationStrategy,
    stride: int,
    sm: Map<Seq<char>, int>,
    vm: Map<Seq<char>, int>,
    unk: Seq<char>,
    l: bool,
    st: bool,
) -> bool {
    let vs1 = tokenized_views(src1, sm, unk, l, st);
    let vs2 = match src2 {
        Some(s2) => tokenized_views(s2, sm, unk, l, st),
        None => Seq::empty(),
    };
    let ids1 = spec_ids(vs1, sm, vm, unk);
    let ids2 = spec_ids(vs2, sm, vm, unk);
    let l1 = ids1.len() as int;
    let l2 = ids2.len() as int;
    let pair = src2 is Some;
    let num = if l1 + l2 > max_len {
        l1 + l2 - max_len
    } else {
        0
    };
    let (k1, k2) = kept_counts(strategy, l1, l2, pair, num);
    &&& t.num_truncated_tokens == num
    &&& ids_int(t.token_ids@) == ids1.take(k1) + ids2.take(k2)
    &&& t.token_offsets@ == vs1.map_values(|tv: TokenView| view_offset(tv)).take(k1)
        + vs2.map_values(|tv: TokenView| view_offset(tv)).take(k2)
    &&& t.reference_offsets@.map_values(|v: Vec<OffsetSize>| v@) == vs1.map_values(
        |tv: TokenView| tv.reference_offsets,
    ).take(k1) + vs2.map_values(|tv: TokenView| tv.reference_offsets).take(k2)
    &&& t.mask@ == vs1.map_values(|tv: TokenView| tv.mask).take(k1) + vs2.map_values(
        |tv: TokenView| tv.mask,
    ).take(k2)
    &&& t.segment_ids@ == Seq::new(k1 as nat, |i: int| 0i8) + Seq::new(k2 as nat, |i: int| 1i8)
    &&& ids_int(t.overflowing_tokens@) == spec_overflow(strategy, ids1, ids2, pair, num, stride)
}

/// One tokenization row is exactly the tokenized views of its input.
pub open spec fn offsets_row_exact(
    row: (Vec<String>, Vec<Option<Offset>>, Vec<Vec<OffsetSize>>, Vec<Mask>),
    src: Seq<char>,
    sm: Map<Seq<char>, int>,
    unk: Seq<char>,
    l: bool,
    st: bool,
) -> bool {
    let vs = tokenized_views(src, sm, unk, l, st);
    &&& row.0@.map_values(|t: String| t@) == vs.map_values(|tv: TokenView| tv.text)
    &&& row.1@ == vs.map_values(|tv: TokenView| view_offset(tv))
    &&& row.2@.map_values(|v: Vec<OffsetSize>| v@) == vs.map_values(
        |tv: TokenView| tv.reference_offsets,
    )
    &&& row.3@ == vs.map_values(|tv: TokenView| tv.mask)
}

/// The segment IDs are a run of zeros followed by a run of ones.
pub open spec fn segment_split_ok(segs: Seq<i8>) -> bool {
    &&& forall|i: int| 0 <= i < segs.len() ==> (#[trigger] segs[i]) == 0i8 || segs[i] == 1i8
    &&& forall|i: int, j: int|
        0 <= i <= j < segs.len() ==> #[trigger] segs[i] <= #[trigger] segs[j]
}

/// Every returned token text is what some span of the input's characters
/// produces: the exact span, or its image under the configured transforms.
pub open spec fn tokenize_result_ok(r: Seq<String>, src: Seq<char>, l: bool, st: bool) -> bool {
    forall|j: int| 0 <= j < r.len() ==> #[trigger] token_text_plausible(r[j]@, src, l, st)
}

/// The token text is what some span of the input's characters produces.
pub open spec fn token_text_plausible(tt: Seq<char>, src: Seq<char>, l: bool, st: bool) -> bool {
    exists|o: Offset| token_text_from(tt, o, src, l, st)
}

/// The token text is what the input's characters in the offset range
/// produce: the exact span, or its image under the configured transforms.
pub open spec fn token_text_from(tt: Seq<char>, o: Offset, src: Seq<char>, l: bool, st: bool) -> bool {
    &&& o.begin <= o.end <= src.len()
    &&& (tt == src.subrange(o.begin as int, o.end as int) || tt == crate::text::expand_text(
        src.subrange(o.begin as int, o.end as int),
        |c: char| crate::tokens::char_image(c, l, st),
    ))
}

/// One row of [`BaseTokenizer::tokenize_with_offsets`]'s result: the
/// reference offsets are non-empty, the token offset spans them, and the
/// token text is the input characters of that span, transformed unless the
/// token is special or unknown.
pub open spec fn tokenized_offsets_ok(
    tt: Seq<char>,
    off: Option<Offset>,
    refs: Seq<OffsetSize>,
    m: Mask,
    src: Seq<char>,
    l: bool,
    st: bool,
) -> bool {
    &&& refs.len() > 0
    &&& tt.len() > 0
    &&& off == Some(Offset { begin: refs[0], end: (refs.last() + 1) as OffsetSize })
    &&& {
        let o = off->0;
        &&& o.begin <= o.end <= src.len()
        &&& if m == Mask::Special || m == Mask::Unknown {
            tt == src.subrange(o.begin as int, o.end as int)
        } else {
            tt == crate::text::expand_text(
                src.subrange(o.begin as int, o.end as int),
                |c: char| crate::tokens::char_image(c, l, st),
            )
        }
    }
}

} // verus!
