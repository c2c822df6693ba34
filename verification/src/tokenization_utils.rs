//! The offset-preserving pretokenizer stages: whitespace splitting,
//! special-token protection, punctuation splitting, CJK isolation, and the
//! case and accent transforms. Every stage consumes tokens and produces
//! tokens whose reference offsets keep pointing at the original input.

use vstd::prelude::*;

use crate::chars::char_is_cjk;
use crate::error::TokenizerError;
use crate::chars::char_is_combining_mark;
use crate::chars::char_is_punctuation;
use crate::chars::char_is_whitespace;
use crate::chars::is_cjk_char;
use crate::chars::is_punctuation_char;
use crate::chars::is_whitespace_char;
use crate::text::char_lowercase;
use crate::text::char_nfd;
use crate::text::chars_vec;
use crate::text::expand_refs;
use crate::text::expand_text;
use crate::text::string_from_chars;
use crate::tokens::char_image;
use crate::tokens::lower_image;
use crate::tokens::strip_image;
use crate::tokens::range_seq;
use crate::tokens::token_covers;
use crate::tokens::Mask;
use crate::tokens::Offset;
use crate::tokens::Token;
use crate::vocab::keys_unique;
use crate::vocab::lemma_pairs_map_match;
use crate::vocab::pairs_map;
use crate::vocab::Vocab;
use crate::OffsetSize;
use vstd::string::StringExecFns;

verus! {

/// A token usable as a pretokenizer stage input: one reference offset per
/// character of the text, each strictly below the offset limit.
pub open spec fn token_wf(t: Token) -> bool {
    &&& t.text@.len() == t.reference_offsets@.len()
    &&& forall|i: int|
        0 <= i < t.reference_offsets@.len() ==> (#[trigger] t.reference_offsets@[i])
            < OffsetSize::MAX
}

/// `t` is the slice `[a, b)` of a parent with characters `ptext` and
/// reference offsets `prefs`, and its offset range is taken from those
/// reference offsets.
pub open spec fn slice_token_of(
    t: Token,
    ptext: Seq<char>,
    prefs: Seq<OffsetSize>,
    a: int,
    b: int,
) -> bool {
    &&& 0 <= a < b <= ptext.len()
    &&& ptext.len() == prefs.len()
    &&& t.text@ == ptext.subrange(a, b)
    &&& t.reference_offsets@ == prefs.subrange(a, b)
    &&& t.offset.begin == prefs[a]
    &&& t.offset.end == prefs[b - 1] + 1
}

/// `t` is some character slice of the parent.
pub open spec fn is_sub_token(t: Token, ptext: Seq<char>, prefs: Seq<OffsetSize>) -> bool {
    exists|a: int, b: int| slice_token_of(t, ptext, prefs, a, b)
}

/// A sub-token of a sub-token of a parent is a sub-token of the parent.
pub proof fn lemma_sub_token_trans(t: Token, mid: Token, ptext: Seq<char>, prefs: Seq<OffsetSize>)
    requires
        is_sub_token(t, mid.text@, mid.reference_offsets@),
        is_sub_token(mid, ptext, prefs),
    ensures
        is_sub_token(t, ptext, prefs),
{
    let (a, b) = choose|a: int, b: int| slice_token_of(t, mid.text@, mid.reference_offsets@, a, b);
    let (a2, b2) = choose|a2: int, b2: int| slice_token_of(mid, ptext, prefs, a2, b2);
    assert(t.text@ =~= ptext.subrange(a2 + a, a2 + b));
    assert(t.reference_offsets@ =~= prefs.subrange(a2 + a, a2 + b));
    assert(mid.reference_offsets@[a] == prefs[a2 + a]);
    assert(mid.reference_offsets@[b - 1] == prefs[a2 + b - 1]);
    assert(slice_token_of(t, ptext, prefs, a2 + a, a2 + b));
}

/// A sub-token of the whole source, whose reference offsets are the
/// source's own character indices, covers the source range it slices.
pub proof fn lemma_sub_token_covers(t: Token, src: Seq<char>)
    requires
        src.len() <= OffsetSize::MAX,
        is_sub_token(t, src, range_seq(0, src.len() as OffsetSize)),
    ensures
        token_covers(t, src),
{
    let prefs = range_seq(0, src.len() as OffsetSize);
    let (a, b) = choose|a: int, b: int| slice_token_of(t, src, prefs, a, b);
    assert(t.text@ =~= src.subrange(a, b));
    assert(t.reference_offsets@ =~= range_seq(a as OffsetSize, b as OffsetSize));
    assert(src.subrange(t.offset.begin as int, t.offset.end as int) =~= src.subrange(a, b));
}

/// The slice `[a, b)` of a token, with the given mask.
fn make_sub_token(p: &Token, cs: &Vec<char>, a: usize, b: usize, mask: Mask) -> (r: Token)
    requires
        cs@ == p.text@,
        token_wf(*p),
        a < b,
        b <= cs@.len(),
    ensures
        slice_token_of(r, p.text@, p.reference_offsets@, a as int, b as int),
        r.mask == mask,
        r.text@.len() > 0,
        token_wf(r),
{
    let mut text_chars: Vec<char> = Vec::new();
    let mut refs: Vec<OffsetSize> = Vec::new();
    let mut i: usize = a;
    while i < b
        invariant
            a <= i <= b,
            b <= cs@.len(),
            cs@ == p.text@,
            token_wf(*p),
            text_chars@ == p.text@.subrange(a as int, i as int),
            refs@ == p.reference_offsets@.subrange(a as int, i as int),
        decreases b - i,
    {
        text_chars.push(cs[i]);
        refs.push(p.reference_offsets[i]);
        proof {
            assert(text_chars@ =~= p.text@.subrange(a as int, i + 1));
            assert(refs@ =~= p.reference_offsets@.subrange(a as int, i + 1));
        }
        i += 1;
    }
    let begin = p.reference_offsets[a];
    let end = p.reference_offsets[b - 1] + 1;
    Token {
        text: string_from_chars(&text_chars),
        offset: Offset { begin, end },
        reference_offsets: refs,
        mask,
    }
}

/// The summed character count of a token sequence's texts.
pub open spec fn total_text_len(ts: Seq<Token>) -> int
    decreases ts.len(),
{
    if ts.len() == 0 {
        0
    } else {
        total_text_len(ts.drop_last()) + ts.last().text@.len()
    }
}

/// Summed text length distributes over concatenation.
pub proof fn lemma_total_text_len_add(a: Seq<Token>, b: Seq<Token>)
    ensures
        total_text_len(a + b) == total_text_len(a) + total_text_len(b),
    decreases b.len(),
{
    if b.len() == 0 {
        assert(a + b =~= a);
    } else {
        lemma_total_text_len_add(a, b.drop_last());
        assert((a + b).drop_last() =~= a + b.drop_last());
        assert((a + b).last() == b.last());
    }
}

/// Splitting off the first token splits its text length off the sum.
pub proof fn lemma_total_text_len_first(s: Seq<Token>)
    requires
        s.len() > 0,
    ensures
        total_text_len(s) == s[0].text@.len() + total_text_len(s.drop_first()),
{
    assert(s =~= seq![s[0]] + s.drop_first());
    lemma_total_text_len_add(seq![s[0]], s.drop_first());
    assert(seq![s[0]].drop_last() =~= Seq::<Token>::empty());
    assert(total_text_len(Seq::<Token>::empty()) == 0);
    assert(total_text_len(seq![s[0]]) == s[0].text@.len());
}

/// A sequence of non-empty tokens has at most as many tokens as characters.
pub proof fn lemma_count_le_total(ts: Seq<Token>)
    requires
        forall|j: int| 0 <= j < ts.len() ==> (#[trigger] ts[j]).text@.len() > 0,
    ensures
        ts.len() <= total_text_len(ts),
    decreases ts.len(),
{
    if ts.len() > 0 {
        lemma_count_le_total(ts.drop_last());
    }
}

/// Which character class a splitting stage acts on.
#[derive(Debug, PartialEq, Eq, Structural, Clone, Copy)]
pub enum SplitClass {
    /// Split on whitespace, dropping the separators.
    Whitespace,
    /// Split each punctuation character into its own token.
    Punctuation,
    /// Split each CJK character into its own token.
    Cjk,
}

/// The characters the class matches.
pub open spec fn class_spec(k: SplitClass, c: char) -> bool {
    match k {
        SplitClass::Whitespace => is_whitespace_char(c),
        SplitClass::Punctuation => is_punctuation_char(c),
        SplitClass::Cjk => is_cjk_char(c),
    }
}

/// The mask carried by an emitted separator token of the class.
pub open spec fn class_mask(k: SplitClass) -> Mask {
    match k {
        SplitClass::Whitespace => Mask::Whitespace,
        SplitClass::Punctuation => Mask::Punctuation,
        SplitClass::Cjk => Mask::CJK,
    }
}

/// Runtime check for [`class_spec`].
fn class_check(k: SplitClass, c: char) -> (r: bool)
    ensures
        r == class_spec(k, c),
{
    match k {
        SplitClass::Whitespace => char_is_whitespace(c),
        SplitClass::Punctuation => char_is_punctuation(c),
        SplitClass::Cjk => char_is_cjk(c),
    }
}

/// Runtime value of [`class_mask`].
fn class_mask_exec(k: SplitClass) -> (r: Mask)
    ensures
        r == class_mask(k),
{
    match k {
        SplitClass::Whitespace => Mask::Whitespace,
        SplitClass::Punctuation => Mask::Punctuation,
        SplitClass::Cjk => Mask::CJK,
    }
}

/// The mathematical value of a token: its text, offset, reference offsets
/// and mask. The functional specs of the pretokenizer stages compute
/// sequences of these.
#[verifier::ext_equal]
pub struct TokenView {
    /// The token's text.
    pub text: Seq<char>,
    /// The offset range the token covers.
    pub offset: Offset,
    /// One original-input character index per character of the text.
    pub reference_offsets: Seq<OffsetSize>,
    /// The token's mask.
    pub mask: Mask,
}

/// The view of a token.
pub open spec fn view_of(t: Token) -> TokenView {
    TokenView {
        text: t.text@,
        offset: t.offset,
        reference_offsets: t.reference_offsets@,
        mask: t.mask,
    }
}

/// The view of the slice `[a, b)` of a parent, under the given mask.
pub open spec fn slice_view(
    ptext: Seq<char>,
    prefs: Seq<OffsetSize>,
    a: int,
    b: int,
    mask: Mask,
) -> TokenView {
    TokenView {
        text: ptext.subrange(a, b),
        offset: Offset { begin: prefs[a], end: (prefs[b - 1] + 1) as OffsetSize },
        reference_offsets: prefs.subrange(a, b),
        mask,
    }
}

/// The tokens a class splitting stage emits, scanning from `i` with the
/// current run starting at `run_start`: maximal runs of non-class
/// characters under the parent's mask, and, when separators are kept, one
/// token per class character under the class's mask.
pub open spec fn class_split_scan(
    ptext: Seq<char>,
    prefs: Seq<OffsetSize>,
    pmask: Mask,
    k: SplitClass,
    keep_separators: bool,
    run_start: int,
    i: int,
) -> Seq<TokenView>
    decreases ptext.len() - i,
{
    if i < run_start || run_start < 0 || i > ptext.len() {
        Seq::empty()
    } else if i == ptext.len() {
        if run_start < i {
            seq![slice_view(ptext, prefs, run_start, i, pmask)]
        } else {
            Seq::empty()
        }
    } else if class_spec(k, ptext[i]) {
        let runs = if run_start < i {
            seq![slice_view(ptext, prefs, run_start, i, pmask)]
        } else {
            Seq::<TokenView>::empty()
        };
        let seps = if keep_separators {
            seq![slice_view(ptext, prefs, i, i + 1, class_mask(k))]
        } else {
            Seq::<TokenView>::empty()
        };
        runs + seps + class_split_scan(ptext, prefs, pmask, k, keep_separators, i + 1, i + 1)
    } else {
        class_split_scan(ptext, prefs, pmask, k, keep_separators, run_start, i + 1)
    }
}

/// One emitted token of a class splitting stage: a non-empty slice of the
/// parent that is either a run of non-class characters keeping the parent's
/// mask, or one class character under the class's mask.
pub open spec fn class_piece_ok(t: Token, p: Token, k: SplitClass) -> bool {
    &&& is_sub_token(t, p.text@, p.reference_offsets@)
    &&& t.text@.len() > 0
    &&& token_wf(t)
    &&& (t.mask == p.mask || t.mask == class_mask(k))
    &&& (t.mask == class_mask(k) && t.mask != p.mask ==> t.text@.len() == 1 && class_spec(
        k,
        t.text@[0],
    ))
    &&& (t.mask == p.mask && t.mask != class_mask(k) ==> forall|i: int|
        0 <= i < t.text@.len() ==> !class_spec(k, #[trigger] t.text@[i]))
}

/// Splits a token by a character class: maximal runs of non-class characters
/// keep the parent's mask; each class character is dropped (whitespace) or
/// emitted as its own token under the class's mask.
fn split_token_on_class(p: &Token, k: SplitClass, keep_separators: bool) -> (out: Vec<Token>)
    requires
        token_wf(*p),
    ensures
        forall|j: int| 0 <= j < out@.len() ==> class_piece_ok(#[trigger] out@[j], *p, k),
        !keep_separators ==> forall|j: int| 0 <= j < out@.len() ==> (#[trigger] out@[j]).mask
            == p.mask,
        total_text_len(out@) <= p.text@.len(),
        out@.map_values(|t: Token| view_of(t)) == class_split_scan(
            p.text@,
            p.reference_offsets@,
            p.mask,
            k,
            keep_separators,
            0,
            0,
        ),
{
    let ghost whole = class_split_scan(p.text@, p.reference_offsets@, p.mask, k, keep_separators, 0, 0);
    let cs = chars_vec(p.text.as_str());
    let n = cs.len();
    let mut out: Vec<Token> = Vec::new();
    let mut run_start: usize = 0;
    let mut i: usize = 0;
    proof {
        assert(out@.map_values(|t: Token| view_of(t)) =~= Seq::<TokenView>::empty());
        assert(Seq::<TokenView>::empty() + whole =~= whole);
    }
    while i < n
        invariant
            run_start <= i <= n,
            n == cs@.len(),
            cs@ == p.text@,
            token_wf(*p),
            whole == class_split_scan(
                p.text@,
                p.reference_offsets@,
                p.mask,
                k,
                keep_separators,
                0,
                0,
            ),
            forall|j: int| 0 <= j < out@.len() ==> class_piece_ok(#[trigger] out@[j], *p, k),
            !keep_separators ==> forall|j: int| 0 <= j < out@.len() ==> (#[trigger] out@[j]).mask
                == p.mask,
            forall|j: int| run_start <= j < i ==> !class_spec(k, #[trigger] cs@[j]),
            total_text_len(out@) <= run_start,
            out@.map_values(|t: Token| view_of(t)) + class_split_scan(
                p.text@,
                p.reference_offsets@,
                p.mask,
                k,
                keep_separators,
                run_start as int,
                i as int,
            ) == whole,
        decreases n - i,
    {
        let ghost pre_scan = class_split_scan(
            p.text@,
            p.reference_offsets@,
            p.mask,
            k,
            keep_separators,
            run_start as int,
            i as int,
        );
        if class_check(k, cs[i]) {
            if run_start < i {
                let run = make_sub_token(p, &cs, run_start, i, p.mask);
                proof {
                    assert(slice_token_of(run, p.text@, p.reference_offsets@, run_start as int, i as int));
                    assert(is_sub_token(run, p.text@, p.reference_offsets@));
                    assert(view_of(run) =~= slice_view(
                        p.text@,
                        p.reference_offsets@,
                        run_start as int,
                        i as int,
                        p.mask,
                    ));
                }
                let ghost pre = out@;
                out.push(run);
                proof {
                    assert(out@.drop_last() =~= pre);
                    assert(total_text_len(out@) == total_text_len(pre) + run.text@.len());
                    assert(run.text@.len() == i - run_start);
                    assert(out@.map_values(|t: Token| view_of(t)) =~= pre.map_values(
                        |t: Token| view_of(t),
                    ).push(view_of(run)));
                }
            }
            if keep_separators {
                let sep = make_sub_token(p, &cs, i, i + 1, class_mask_exec(k));
                proof {
                    assert(slice_token_of(sep, p.text@, p.reference_offsets@, i as int, i + 1));
                    assert(is_sub_token(sep, p.text@, p.reference_offsets@));
                    assert(view_of(sep) =~= slice_view(
                        p.text@,
                        p.reference_offsets@,
                        i as int,
                        i + 1,
                        class_mask(k),
                    ));
                }
                let ghost pre = out@;
                out.push(sep);
                proof {
                    assert(out@.drop_last() =~= pre);
                    assert(total_text_len(out@) == total_text_len(pre) + sep.text@.len());
                    assert(sep.text@.len() == 1);
                    assert(out@.map_values(|t: Token| view_of(t)) =~= pre.map_values(
                        |t: Token| view_of(t),
                    ).push(view_of(sep)));
                }
            }
            run_start = i + 1;
            proof {
                assert(out@.map_values(|t: Token| view_of(t)) + class_split_scan(
                    p.text@,
                    p.reference_offsets@,
                    p.mask,
                    k,
                    keep_separators,
                    i + 1,
                    i + 1,
                ) =~= whole);
            }
        } else {
            proof {
                assert(class_split_scan(
                    p.text@,
                    p.reference_offsets@,
                    p.mask,
                    k,
                    keep_separators,
                    run_start as int,
                    i + 1,
                ) == pre_scan);
            }
        }
        i += 1;
    }
    if run_start < n {
        let run = make_sub_token(p, &cs, run_start, n, p.mask);
        proof {
            assert(slice_token_of(run, p.text@, p.reference_offsets@, run_start as int, n as int));
            assert(is_sub_token(run, p.text@, p.reference_offsets@));
            assert(view_of(run) =~= slice_view(
                p.text@,
                p.reference_offsets@,
                run_start as int,
                n as int,
                p.mask,
            ));
        }
        let ghost pre = out@;
        out.push(run);
        proof {
            assert(out@.drop_last() =~= pre);
            assert(total_text_len(out@) == total_text_len(pre) + run.text@.len());
            assert(run.text@.len() == n - run_start);
            assert(out@.map_values(|t: Token| view_of(t)) =~= pre.map_values(
                |t: Token| view_of(t),
            ).push(view_of(run)));
        }
    }
    proof {
        assert(out@.map_values(|t: Token| view_of(t)) =~= whole);
    }
    out
}

/// The tokens a separator-keeping class stage emits for one token: special
/// and unknown tokens pass through untouched, anything else is split by the
/// class.
pub open spec fn stage_split(tv: TokenView, k: SplitClass) -> Seq<TokenView> {
    if tv.mask == Mask::Special || tv.mask == Mask::Unknown {
        seq![tv]
    } else {
        class_split_scan(tv.text, tv.reference_offsets, tv.mask, k, true, 0, 0)
    }
}

/// Splits a token on runs of Unicode whitespace; the whitespace is dropped
/// and offsets advance across it.
pub fn whitespace_tokenize(p: &Token) -> (out: Vec<Token>)
    requires
        token_wf(*p),
    ensures
        forall|j: int|
            0 <= j < out@.len() ==> class_piece_ok(#[trigger] out@[j], *p, SplitClass::Whitespace)
                && out@[j].mask == p.mask,
        total_text_len(out@) <= p.text@.len(),
        out@.map_values(|t: Token| view_of(t)) == class_split_scan(
            p.text@,
            p.reference_offsets@,
            p.mask,
            SplitClass::Whitespace,
            false,
            0,
            0,
        ),
{
    split_token_on_class(p, SplitClass::Whitespace, false)
}

/// Splits a token into punctuation characters, each its own token under
/// [`Mask::Punctuation`], and runs of non-punctuation characters. Special
/// and unknown tokens pass through untouched.
pub fn split_on_punct(token: Token) -> (out: Vec<Token>)
    requires
        token_wf(token),
    ensures
        (token.mask == Mask::Special || token.mask == Mask::Unknown) ==> out@ =~= seq![token],
        !(token.mask == Mask::Special || token.mask == Mask::Unknown) ==> forall|j: int|
            0 <= j < out@.len() ==> class_piece_ok(#[trigger] out@[j], token, SplitClass::Punctuation),
        total_text_len(out@) <= token.text@.len(),
        out@.map_values(|t: Token| view_of(t)) == stage_split(view_of(token), SplitClass::Punctuation),
{
    if token.mask == Mask::Special || token.mask == Mask::Unknown {
        let ghost tg = token;
        let mut out: Vec<Token> = Vec::new();
        out.push(token);
        proof {
            assert(out@.drop_last() =~= Seq::<Token>::empty());
            assert(total_text_len(Seq::<Token>::empty()) == 0);
            assert(out@.map_values(|t: Token| view_of(t)) =~= seq![view_of(tg)]);
        }
        out
    } else {
        split_token_on_class(&token, SplitClass::Punctuation, true)
    }
}

/// Splits each Chinese, Japanese or Korean character into its own token
/// under [`Mask::CJK`]. Special and unknown tokens pass through untouched.
pub fn tokenize_cjk_chars(token: Token) -> (out: Vec<Token>)
    requires
        token_wf(token),
    ensures
        (token.mask == Mask::Special || token.mask == Mask::Unknown) ==> out@ =~= seq![token],
        !(token.mask == Mask::Special || token.mask == Mask::Unknown) ==> forall|j: int|
            0 <= j < out@.len() ==> class_piece_ok(#[trigger] out@[j], token, SplitClass::Cjk),
        total_text_len(out@) <= token.text@.len(),
        out@.map_values(|t: Token| view_of(t)) == stage_split(view_of(token), SplitClass::Cjk),
{
    if token.mask == Mask::Special || token.mask == Mask::Unknown {
        let ghost tg = token;
        let mut out: Vec<Token> = Vec::new();
        out.push(token);
        proof {
            assert(out@.drop_last() =~= Seq::<Token>::empty());
            assert(total_text_len(Seq::<Token>::empty()) == 0);
            assert(out@.map_values(|t: Token| view_of(t)) =~= seq![view_of(tg)]);
        }
        out
    } else {
        split_token_on_class(&token, SplitClass::Cjk, true)
    }
}

/// The length of the longest registered special value that occurs in
/// `text` at position `i`, trying lengths from `len` downward; `0` when
/// none occurs.
pub open spec fn longest_match_from(sm: Map<Seq<char>, int>, text: Seq<char>, i: int, len: int) -> int
    decreases len,
{
    if len <= 0 {
        0
    } else if i + len <= text.len() && sm.contains_key(text.subrange(i, i + len)) {
        len
    } else {
        longest_match_from(sm, text, i, len - 1)
    }
}

/// The longest match is pinned by one matching length above which nothing
/// matches.
pub proof fn lemma_longest_match_value(
    sm: Map<Seq<char>, int>,
    text: Seq<char>,
    i: int,
    len: int,
    best: int,
)
    requires
        0 <= best <= len,
        best > 0 ==> i + best <= text.len() && sm.contains_key(text.subrange(i, i + best)),
        forall|l: int|
            best < l <= len ==> !(i + l <= text.len() && sm.contains_key(
                #[trigger] text.subrange(i, i + l),
            )),
    ensures
        longest_match_from(sm, text, i, len) == best,
    decreases len,
{
    if len > 0 {
        if i + len <= text.len() && sm.contains_key(text.subrange(i, i + len)) {
            assert(best == len);
        } else {
            assert(best < len);
            lemma_longest_match_value(sm, text, i, len - 1, best);
        }
    }
}

/// The tokens the special-token protection stage emits, scanning from `i`
/// with the current run starting at `run_start`: at each position the
/// longest registered special value wins and becomes its own token (the
/// unknown value under [`Mask::Unknown`], any other under
/// [`Mask::Special`]); the fragments between occurrences keep the parent's
/// mask.
pub open spec fn special_split_scan(
    ptext: Seq<char>,
    prefs: Seq<OffsetSize>,
    pmask: Mask,
    sm: Map<Seq<char>, int>,
    unk: Seq<char>,
    run_start: int,
    i: int,
) -> Seq<TokenView>
    decreases ptext.len() - i,
{
    if i < run_start || run_start < 0 || i > ptext.len() {
        Seq::empty()
    } else if i == ptext.len() {
        if run_start < i {
            seq![slice_view(ptext, prefs, run_start, i, pmask)]
        } else {
            Seq::empty()
        }
    } else {
        let m = longest_match_from(sm, ptext, i, ptext.len() - i);
        if 0 < m <= ptext.len() - i {
            let runs = if run_start < i {
                seq![slice_view(ptext, prefs, run_start, i, pmask)]
            } else {
                Seq::<TokenView>::empty()
            };
            let mask = if ptext.subrange(i, i + m) == unk {
                Mask::Unknown
            } else {
                Mask::Special
            };
            runs + seq![slice_view(ptext, prefs, i, i + m, mask)] + special_split_scan(
                ptext,
                prefs,
                pmask,
                sm,
                unk,
                i + m,
                i + m,
            )
        } else {
            special_split_scan(ptext, prefs, pmask, sm, unk, run_start, i + 1)
        }
    }
}

/// One emitted token of the special-token protection stage: a non-empty
/// slice of the parent that is either an exact occurrence of a registered
/// special value (the unknown token under [`Mask::Unknown`], any other under
/// [`Mask::Special`]) or a fragment between occurrences keeping the parent's
/// mask.
pub open spec fn special_piece_ok(
    t: Token,
    p: Token,
    sm: Map<Seq<char>, int>,
    unk: Seq<char>,
) -> bool {
    &&& is_sub_token(t, p.text@, p.reference_offsets@)
    &&& t.text@.len() > 0
    &&& token_wf(t)
    &&& (t.mask == p.mask || t.mask == Mask::Special || t.mask == Mask::Unknown)
    &&& ((t.mask == Mask::Special || t.mask == Mask::Unknown) && t.mask != p.mask
        ==> sm.contains_key(t.text@))
    &&& (t.mask == Mask::Unknown && t.mask != p.mask ==> t.text@ == unk)
    &&& (t.mask == Mask::Special && t.mask != p.mask ==> t.text@ != unk)
}

/// Whether the characters of `pat` occur in `cs` at position `i`.
pub(crate) fn matches_at(cs: &Vec<char>, i: usize, pat: &Vec<char>) -> (r: bool)
    requires
        i <= cs@.len(),
    ensures
        r == (i + pat@.len() <= cs@.len() && cs@.subrange(i as int, i + pat@.len()) == pat@),
{
    let m = pat.len();
    let n = cs.len();
    if m > n - i {
        return false;
    }
    let mut j: usize = 0;
    while j < m
        invariant
            j <= m,
            m == pat@.len(),
            n == cs@.len(),
            i + m <= n,
            forall|q: int| 0 <= q < j ==> cs@[i + q] == pat@[q],
        decreases m - j,
    {
        if cs[i + j] != pat[j] {
            proof {
                assert(cs@.subrange(i as int, i + pat@.len())[j as int] == cs@[i + j]);
            }
            return false;
        }
        j += 1;
    }
    proof {
        assert(cs@.subrange(i as int, i + pat@.len()) =~= pat@);
    }
    true
}

/// Scans the token for exact occurrences of the vocabulary's special values,
/// longest match first at each position. Each occurrence becomes its own
/// token, the unknown token under [`Mask::Unknown`] and any other special
/// value under [`Mask::Special`]; the fragments between occurrences are
/// re-emitted for further processing under the parent's mask.
pub fn split_on_special_tokens<V: Vocab>(token: Token, vocab: &V) -> (out: Vec<Token>)
    requires
        vocab.wf(),
        token_wf(token),
    ensures
        forall|j: int|
            0 <= j < out@.len() ==> special_piece_ok(
                #[trigger] out@[j],
                token,
                vocab.special_map(),
                vocab.unknown_view(),
            ),
        total_text_len(out@) <= token.text@.len(),
        out@.map_values(|t: Token| view_of(t)) == special_split_scan(
            token.text@,
            token.reference_offsets@,
            token.mask,
            vocab.special_map(),
            vocab.unknown_view(),
            0,
            0,
        ),
{
    let ghost sm = vocab.special_map();
    let ghost unk_view = vocab.unknown_view();
    let ghost whole = special_split_scan(
        token.text@,
        token.reference_offsets@,
        token.mask,
        sm,
        unk_view,
        0,
        0,
    );
    let cs = chars_vec(token.text.as_str());
    let n = cs.len();
    let specials = vocab.special_values();
    let unknown = String::from_str(vocab.get_unknown_value());
    let mut out: Vec<Token> = Vec::new();
    let mut run_start: usize = 0;
    let mut i: usize = 0;
    proof {
        assert(out@.map_values(|t: Token| view_of(t)) =~= Seq::<TokenView>::empty());
        assert(Seq::<TokenView>::empty() + whole =~= whole);
    }
    while i < n
        invariant
            run_start <= i <= n,
            n == cs@.len(),
            cs@ == token.text@,
            token_wf(token),
            vocab.wf(),
            sm == vocab.special_map(),
            unk_view == vocab.unknown_view(),
            unknown@ == unk_view,
            keys_unique(specials@),
            pairs_map(specials@) == sm,
            forall|j: int|
                0 <= j < out@.len() ==> special_piece_ok(#[trigger] out@[j], token, sm, unk_view),
            total_text_len(out@) <= run_start,
            whole == special_split_scan(
                token.text@,
                token.reference_offsets@,
                token.mask,
                sm,
                unk_view,
                0,
                0,
            ),
            out@.map_values(|t: Token| view_of(t)) + special_split_scan(
                token.text@,
                token.reference_offsets@,
                token.mask,
                sm,
                unk_view,
                run_start as int,
                i as int,
            ) == whole,
        decreases n - i,
    {
        let mut best: usize = 0;
        let mut s_idx: usize = 0;
        while s_idx < specials.len()
            invariant
                i < n,
                s_idx <= specials@.len(),
                best <= n - i,
                n == cs@.len(),
                cs@ == token.text@,
                keys_unique(specials@),
                pairs_map(specials@) == sm,
                best > 0 ==> i + best <= n && sm.contains_key(
                    cs@.subrange(i as int, i + best as int),
                ),
                forall|q: int|
                    0 <= q < s_idx ==> ((i + (#[trigger] specials@[q]).0@.len() <= n
                        && cs@.subrange(i as int, i + specials@[q].0@.len()) == specials@[q].0@)
                        ==> specials@[q].0@.len() <= best),
            decreases specials@.len() - s_idx,
        {
            let pat = chars_vec(specials[s_idx].0.as_str());
            if pat.len() > best && matches_at(&cs, i, &pat) {
                best = pat.len();
                proof {
                    lemma_pairs_map_match(specials@, s_idx as int);
                }
            }
            s_idx += 1;
        }
        proof {
            assert forall|l: int|
                (best as int) < l <= n - i implies !(i + l <= cs@.len() && sm.contains_key(
                #[trigger] cs@.subrange(i as int, i + l),
            )) by {
                if i + l <= cs@.len() && sm.contains_key(cs@.subrange(i as int, i + l)) {
                    crate::vocab::lemma_pairs_map_dom(specials@, cs@.subrange(i as int, i + l));
                    let q = choose|q: int|
                        0 <= q < specials@.len() && specials@[q].0@ == cs@.subrange(
                            i as int,
                            i + l,
                        );
                    assert(specials@[q].0@.len() == l);
                }
            }
            lemma_longest_match_value(sm, cs@, i as int, n - i, best as int);
        }
        let ghost pre_scan = special_split_scan(
            token.text@,
            token.reference_offsets@,
            token.mask,
            sm,
            unk_view,
            run_start as int,
            i as int,
        );
        if best > 0 {
            if run_start < i {
                let run = make_sub_token(&token, &cs, run_start, i, token.mask);
                proof {
                    assert(slice_token_of(run, token.text@, token.reference_offsets@, run_start as int, i as int));
                    assert(is_sub_token(run, token.text@, token.reference_offsets@));
                    assert(view_of(run) =~= slice_view(
                        token.text@,
                        token.reference_offsets@,
                        run_start as int,
                        i as int,
                        token.mask,
                    ));
                }
                let ghost pre = out@;
                out.push(run);
                proof {
                    assert(out@.drop_last() =~= pre);
                    assert(total_text_len(out@) == total_text_len(pre) + run.text@.len());
                    assert(run.text@.len() == i - run_start);
                    assert(out@.map_values(|t: Token| view_of(t)) =~= pre.map_values(
                        |t: Token| view_of(t),
                    ).push(view_of(run)));
                }
            }
            let mut special = make_sub_token(&token, &cs, i, i + best, Mask::Special);
            if special.text == unknown {
                special.mask = Mask::Unknown;
            }
            proof {
                assert(slice_token_of(special, token.text@, token.reference_offsets@, i as int, i + best as int));
                assert(is_sub_token(special, token.text@, token.reference_offsets@));
                assert(view_of(special) =~= slice_view(
                    token.text@,
                    token.reference_offsets@,
                    i as int,
                    i + best as int,
                    if token.text@.subrange(i as int, i + best as int) == unk_view {
                        Mask::Unknown
                    } else {
                        Mask::Special
                    },
                ));
            }
            let ghost pre = out@;
            out.push(special);
            proof {
                assert(out@.drop_last() =~= pre);
                assert(total_text_len(out@) == total_text_len(pre) + special.text@.len());
                assert(special.text@.len() == best);
                assert(out@.map_values(|t: Token| view_of(t)) =~= pre.map_values(
                    |t: Token| view_of(t),
                ).push(view_of(special)));
            }
            i += best;
            run_start = i;
            proof {
                assert(out@.map_values(|t: Token| view_of(t)) + special_split_scan(
                    token.text@,
                    token.reference_offsets@,
                    token.mask,
                    sm,
                    unk_view,
                    i as int,
                    i as int,
                ) =~= whole);
            }
        } else {
            proof {
                assert(special_split_scan(
                    token.text@,
                    token.reference_offsets@,
                    token.mask,
                    sm,
                    unk_view,
                    run_start as int,
                    i + 1,
                ) == pre_scan);
            }
            i += 1;
        }
    }
    if run_start < n {
        let run = make_sub_token(&token, &cs, run_start, n, token.mask);
        proof {
            assert(slice_token_of(run, token.text@, token.reference_offsets@, run_start as int, n as int));
            assert(is_sub_token(run, token.text@, token.reference_offsets@));
            assert(view_of(run) =~= slice_view(
                token.text@,
                token.reference_offsets@,
                run_start as int,
                n as int,
                token.mask,
            ));
        }
        let ghost pre = out@;
        out.push(run);
        proof {
            assert(out@.drop_last() =~= pre);
            assert(out@.map_values(|t: Token| view_of(t)) =~= pre.map_values(
                |t: Token| view_of(t),
            ).push(view_of(run)));
        }
    }
    proof {
        assert(out@.map_values(|t: Token| view_of(t)) =~= whole);
    }
    out
}

/// The image of one character under the configured transforms, as a vector.
fn char_image_exec(c: char, lower: bool, strip: bool) -> (r: Vec<char>)
    ensures
        r@ == char_image(c, lower, strip),
{
    let base: Vec<char> = if lower {
        char_lowercase(c)
    } else {
        let mut v: Vec<char> = Vec::new();
        v.push(c);
        proof {
            assert(v@ =~= lower_image(c, false));
        }
        v
    };
    let ghost strip_f = |d: char| strip_image(d, strip);
    if !strip {
        proof {
            crate::text::lemma_expand_text_pointwise(base@, strip_f, |d: char| seq![d]);
            crate::text::lemma_expand_text_id(base@);
        }
        return base;
    }
    let m = base.len();
    let mut out: Vec<char> = Vec::new();
    let mut j: usize = 0;
    while j < m
        invariant
            j <= m,
            m == base@.len(),
            base@ == lower_image(c, lower),
            strip_f == (|d: char| strip_image(d, true)),
            out@ == expand_text(base@.take(j as int), strip_f),
        decreases m - j,
    {
        let ds = char_nfd(base[j]);
        let dn = ds.len();
        let mut k: usize = 0;
        while k < dn
            invariant
                k <= dn,
                dn == ds@.len(),
                j < m,
                m == base@.len(),
                base@ == lower_image(c, lower),
                ds@ == crate::text::nfd_of(base@[j as int]),
                strip_f == (|d: char| strip_image(d, true)),
                out@ == expand_text(base@.take(j as int), strip_f) + ds@.take(k as int).filter(
                    |e: char| !crate::chars::is_combining_mark(e),
                ),
            decreases dn - k,
        {
            let ghost pred = |e: char| !crate::chars::is_combining_mark(e);
            proof {
                assert(ds@.take(k + 1).drop_last() =~= ds@.take(k as int));
                ds@.take(k as int).lemma_filter_push(ds@[k as int], pred);
                assert(ds@.take(k + 1) =~= ds@.take(k as int).push(ds@[k as int]));
            }
            if !char_is_combining_mark(ds[k]) {
                out.push(ds[k]);
            }
            k += 1;
        }
        proof {
            assert(ds@.take(dn as int) =~= ds@);
            assert(base@.take(j + 1).drop_last() =~= base@.take(j as int));
            assert(base@.take(j + 1).last() == base@[j as int]);
        }
        j += 1;
    }
    proof {
        assert(base@.take(m as int) =~= base@);
    }
    out
}

/// Applies the configured transforms to a non-special token, character by
/// character: lowercasing first, then accent stripping (canonical
/// decomposition with combining diacritical marks discarded). Each produced
/// character keeps the reference offset of the character it came from;
/// characters that are dropped drop their offset.
pub fn transform_token(t: Token, lower_case: bool, strip_accents: bool) -> (r: Token)
    requires
        t.text@.len() == t.reference_offsets@.len(),
    ensures
        r.mask == t.mask,
        r.offset == t.offset,
        r.text@ == expand_text(t.text@, |c: char| char_image(c, lower_case, strip_accents)),
        r.reference_offsets@ == expand_refs(
            t.text@,
            t.reference_offsets@,
            |c: char| char_image(c, lower_case, strip_accents),
        ),
        r.text@.len() == r.reference_offsets@.len(),
{
    let ghost img = |c: char| char_image(c, lower_case, strip_accents);
    let cs = chars_vec(t.text.as_str());
    let n = cs.len();
    let mut out_text: Vec<char> = Vec::new();
    let mut out_refs: Vec<OffsetSize> = Vec::new();
    let mut i: usize = 0;
    while i < n
        invariant
            i <= n,
            n == cs@.len(),
            cs@ == t.text@,
            t.text@.len() == t.reference_offsets@.len(),
            img == (|c: char| char_image(c, lower_case, strip_accents)),
            out_text@ == expand_text(cs@.take(i as int), img),
            out_refs@ == expand_refs(cs@.take(i as int), t.reference_offsets@.take(i as int), img),
        decreases n - i,
    {
        let piece = char_image_exec(cs[i], lower_case, strip_accents);
        let pn = piece.len();
        let r = t.reference_offsets[i];
        let mut k: usize = 0;
        while k < pn
            invariant
                k <= pn,
                pn == piece@.len(),
                out_text@ == expand_text(cs@.take(i as int), img) + piece@.take(k as int),
                out_refs@ == expand_refs(
                    cs@.take(i as int),
                    t.reference_offsets@.take(i as int),
                    img,
                ) + Seq::new(k as nat, |q: int| r),
            decreases pn - k,
        {
            out_text.push(piece[k]);
            out_refs.push(r);
            proof {
                assert(out_text@ =~= expand_text(cs@.take(i as int), img) + piece@.take(k + 1));
                assert(out_refs@ =~= expand_refs(
                    cs@.take(i as int),
                    t.reference_offsets@.take(i as int),
                    img,
                ) + Seq::new((k + 1) as nat, |q: int| r));
            }
            k += 1;
        }
        proof {
            assert(piece@.take(pn as int) =~= piece@);
            assert(cs@.take(i + 1).drop_last() =~= cs@.take(i as int));
            assert(t.reference_offsets@.take(i + 1).drop_last() =~= t.reference_offsets@.take(
                i as int,
            ));
            assert(cs@.take(i + 1).last() == cs@[i as int]);
            assert(t.reference_offsets@.take(i + 1).last() == t.reference_offsets@[i as int]);
        }
        i += 1;
    }
    proof {
        assert(cs@.take(n as int) =~= cs@);
        assert(t.reference_offsets@.take(n as int) =~= t.reference_offsets@);
        crate::text::lemma_expand_len(
            t.text@,
            t.reference_offsets@,
            img,
        );
    }
    Token {
        text: string_from_chars(&out_text),
        offset: t.offset,
        reference_offsets: out_refs,
        mask: t.mask,
    }
}

/// The tokens the transform stage emits for one token: special and unknown
/// tokens pass through untouched; any other token's text and reference
/// offsets are replaced by their images under the configured transforms,
/// and the token is dropped if that empties its text.
pub open spec fn transform_view(tv: TokenView, l: bool, st: bool) -> Seq<TokenView> {
    if tv.mask == Mask::Special || tv.mask == Mask::Unknown {
        seq![tv]
    } else {
        let text = expand_text(tv.text, |c: char| char_image(c, l, st));
        if text.len() == 0 {
            Seq::empty()
        } else {
            seq![
                TokenView {
                    text,
                    offset: tv.offset,
                    reference_offsets: expand_refs(
                        tv.text,
                        tv.reference_offsets,
                        |c: char| char_image(c, l, st),
                    ),
                    mask: tv.mask,
                },
            ]
        }
    }
}

/// A stage applied to a token sequence: the concatenation, in order, of
/// what the stage emits for each token.
pub open spec fn apply_split(vs: Seq<TokenView>, f: spec_fn(TokenView) -> Seq<TokenView>) -> Seq<
    TokenView,
>
    decreases vs.len(),
{
    if vs.len() == 0 {
        Seq::empty()
    } else {
        f(vs[0]) + apply_split(vs.drop_first(), f)
    }
}

/// `t` is the image under the configured transforms of the slice `[a, b)`
/// of a parent with characters `ptext` and reference offsets `prefs`; its
/// offset range is the slice's, taken from those reference offsets.
pub open spec fn transformed_slice_of(
    t: Token,
    ptext: Seq<char>,
    prefs: Seq<OffsetSize>,
    a: int,
    b: int,
    l: bool,
    st: bool,
) -> bool {
    &&& 0 <= a < b <= ptext.len()
    &&& ptext.len() == prefs.len()
    &&& t.offset.begin == prefs[a]
    &&& t.offset.end == prefs[b - 1] + 1
    &&& t.text@ == expand_text(ptext.subrange(a, b), |c: char| char_image(c, l, st))
    &&& t.reference_offsets@ == expand_refs(
        ptext.subrange(a, b),
        prefs.subrange(a, b),
        |c: char| char_image(c, l, st),
    )
}

/// `t` is the transform image of some character slice of the parent.
pub open spec fn is_transformed_sub_token(
    t: Token,
    ptext: Seq<char>,
    prefs: Seq<OffsetSize>,
    l: bool,
    st: bool,
) -> bool {
    exists|a: int, b: int| transformed_slice_of(t, ptext, prefs, a, b, l, st)
}

/// A transformed sub-token of the whole source, whose reference offsets are
/// the source's own character indices, tracks the source range it slices.
pub proof fn lemma_transformed_tracks(t: Token, src: Seq<char>, l: bool, st: bool)
    requires
        src.len() <= OffsetSize::MAX,
        is_transformed_sub_token(t, src, range_seq(0, src.len() as OffsetSize), l, st),
        t.mask != Mask::Special,
        t.mask != Mask::Unknown,
    ensures
        crate::tokens::token_tracks(t, src, l, st),
{
    let prefs = range_seq(0, src.len() as OffsetSize);
    let (a, b) = choose|a: int, b: int| transformed_slice_of(t, src, prefs, a, b, l, st);
    assert(prefs[a] == a as OffsetSize);
    assert(prefs[b - 1] == (b - 1) as OffsetSize);
    assert(src.subrange(t.offset.begin as int, t.offset.end as int) =~= src.subrange(a, b));
    assert(prefs.subrange(a, b) =~= range_seq(t.offset.begin, t.offset.end));
}

/// How [`truncate_sequences`] chooses which sequence loses tokens.
#[derive(Debug, PartialEq, Eq, Structural, Clone, Copy)]
pub enum TruncationStrategy {
    /// Drop one token at a time from whichever sequence is currently longer
    /// (the first on a tie).
    LongestFirst,
    /// Drop from the first sequence only.
    OnlyFirst,
    /// Drop from the second sequence only.
    OnlySecond,
    /// Never drop; fail if the input is too long.
    DoNotTruncate,
}

/// One tokenized sequence's parallel per-token data.
#[derive(Debug, PartialEq, Clone)]
pub struct SequencePayload {
    /// The token IDs.
    pub token_ids: Vec<i64>,
    /// The offset of each token, `None` where it has none.
    pub token_offsets: Vec<Option<Offset>>,
    /// The reference offsets of each token.
    pub reference_offsets: Vec<Vec<OffsetSize>>,
    /// The mask of each token.
    pub mask: Vec<Mask>,
}

impl SequencePayload {
    /// The four vectors run in parallel: one entry of each per token.
    pub open spec fn wf(&self) -> bool {
        &&& self.token_offsets@.len() == self.token_ids@.len()
        &&& self.reference_offsets@.len() == self.token_ids@.len()
        &&& self.mask@.len() == self.token_ids@.len()
    }

    /// The number of tokens.
    pub open spec fn spec_len(&self) -> int {
        self.token_ids@.len() as int
    }

    /// An empty payload.
    pub fn new() -> (r: SequencePayload)
        ensures
            r.wf(),
            r.spec_len() == 0,
    {
        SequencePayload {
            token_ids: Vec::new(),
            token_offsets: Vec::new(),
            reference_offsets: Vec::new(),
            mask: Vec::new(),
        }
    }
}

/// `q` is `p` cut down to its first `k` tokens.
pub open spec fn payload_take(p: SequencePayload, k: int, q: SequencePayload) -> bool {
    &&& q.token_ids@ == p.token_ids@.take(k)
    &&& q.token_offsets@ == p.token_offsets@.take(k)
    &&& q.reference_offsets@ == p.reference_offsets@.take(k)
    &&& q.mask@ == p.mask@.take(k)
}

/// How many tokens each sequence of a pair keeps under the longest-first
/// strategy: each removal takes one token from the currently longer
/// sequence, the first on a tie.
pub open spec fn longest_first_kept(l1: int, l2: int, num: int) -> (int, int)
    decreases num,
{
    if num <= 0 || l1 + l2 <= 0 {
        (l1, l2)
    } else if l1 >= l2 {
        let (k1, k2) = longest_first_kept(l1 - 1, l2, num - 1);
        (k1, k2)
    } else {
        let (k1, k2) = longest_first_kept(l1, l2 - 1, num - 1);
        (k1, k2)
    }
}

/// The kept counts of the longest-first strategy add up to the tokens that
/// remain after removal, and neither sequence loses more than it has.
pub proof fn lemma_longest_first_kept_sum(l1: int, l2: int, num: int)
    requires
        0 <= num,
        num <= l1 + l2,
        0 <= l1,
        0 <= l2,
    ensures
        ({
            let (k1, k2) = longest_first_kept(l1, l2, num);
            &&& k1 + k2 == l1 + l2 - num
            &&& 0 <= k1 <= l1
            &&& 0 <= k2 <= l2
        }),
    decreases num,
{
    if num > 0 {
        if l1 >= l2 {
            lemma_longest_first_kept_sum(l1 - 1, l2, num - 1);
        } else {
            lemma_longest_first_kept_sum(l1, l2 - 1, num - 1);
        }
    }
}

/// The last `stride` kept token IDs (all of them if fewer), replayed in
/// front of the overflow to support sliding-window re-encoding.
pub open spec fn stride_window(kept: Seq<i64>, stride: int) -> Seq<i64> {
    if stride <= 0 {
        Seq::empty()
    } else if stride >= kept.len() {
        kept
    } else {
        kept.subrange(kept.len() - stride, kept.len() as int)
    }
}

/// Stride overlap law: when truncation cuts tokens off a sequence and a
/// positive stride no larger than the kept payload is given, the first
/// `stride` overflowing token IDs are exactly the last `stride` kept token
/// IDs, so a sliding window can re-encode the overflow with overlap.
pub proof fn lemma_stride_overlap(kept: Seq<i64>, dropped: Seq<i64>, overflow: Seq<i64>, stride: int)
    requires
        0 < stride <= kept.len(),
        overflow == stride_window(kept, stride) + dropped,
    ensures
        overflow.subrange(0, stride) == kept.subrange(kept.len() - stride, kept.len() as int),
{
    assert(overflow.subrange(0, stride) =~= kept.subrange(kept.len() - stride, kept.len() as int));
}

/// Cuts the last `num` tokens off the payload and returns the dropped IDs,
/// prefixed by the stride window of the kept IDs.
fn truncate_with_overflow(seq: &mut SequencePayload, num: usize, stride: usize) -> (overflow: Vec<
    i64,
>)
    requires
        old(seq).wf(),
        num <= old(seq).spec_len(),
    ensures
        final (seq).wf(),
        payload_take(*old(seq), old(seq).spec_len() - num, *final (seq)),
        overflow@ == stride_window(
            old(seq).token_ids@.take(old(seq).spec_len() - num),
            stride as int,
        ) + old(seq).token_ids@.skip(old(seq).spec_len() - num),
{
    let cutoff = seq.token_ids.len() - num;
    let dropped_ids = seq.token_ids.split_off(cutoff);
    let dropped_offsets = seq.token_offsets.split_off(cutoff);
    let dropped_refs = seq.reference_offsets.split_off(cutoff);
    let dropped_mask = seq.mask.split_off(cutoff);
    let mut overflow: Vec<i64> = Vec::new();
    if stride > 0 {
        let klen = seq.token_ids.len();
        let start = if stride > klen {
            0
        } else {
            klen - stride
        };
        let mut j: usize = start;
        while j < klen
            invariant
                start <= j <= klen,
                klen == seq.token_ids@.len(),
                overflow@ == seq.token_ids@.subrange(start as int, j as int),
            decreases klen - j,
        {
            overflow.push(seq.token_ids[j]);
            proof {
                assert(overflow@ =~= seq.token_ids@.subrange(start as int, j + 1));
            }
            j += 1;
        }
        proof {
            if stride >= klen {
                assert(seq.token_ids@.subrange(0, klen as int) =~= seq.token_ids@);
            }
        }
    }
    let mut dropped = dropped_ids;
    overflow.append(&mut dropped);
    overflow
}

/// Removes `num_tokens_to_remove` tokens from a sequence or a sequence pair
/// under the chosen strategy, returning the truncated payloads and the
/// overflowing token IDs.
///
/// With `LongestFirst` on a pair, tokens leave the currently longer sequence
/// one at a time (the first on a tie) and only the first sequence's dropped
/// IDs are reported as overflow, in their original order, with no stride
/// window replayed in front of them — a deliberate divergence from the
/// blanket stride-replay rule, preserving the reference tokenizers'
/// observable pair-truncation output, which interleaves the two sequences'
/// drops and replays no window. With `OnlyFirst` or `OnlySecond` (and for a
/// single sequence), the cut comes off the end of the chosen sequence, the
/// overflow holds the dropped IDs prefixed by the last `stride` kept IDs,
/// and the call fails with `ValueError` exactly when the chosen sequence
/// has fewer tokens than must be removed. With `DoNotTruncate` any positive
/// removal fails with `ValueError`.
pub fn truncate_sequences(
    seq_1: SequencePayload,
    seq_2: Option<SequencePayload>,
    num_tokens_to_remove: usize,
    truncation_strategy: &TruncationStrategy,
    stride: usize,
) -> (r: Result<(SequencePayload, Option<SequencePayload>, Vec<i64>), TokenizerError>)
    requires
        seq_1.wf(),
        seq_2 matches Some(s2) ==> s2.wf(),
    ensures
        ({
            let num = num_tokens_to_remove as int;
            let l1 = seq_1.spec_len();
            match seq_2 {
                Some(s2) => {
                    let l2 = s2.spec_len();
                    match r {
                        Ok((o1, o2, overflow)) => {
                            &&& o1.wf()
                            &&& o2 matches Some(q2) && q2.wf()
                            &&& (num == 0 ==> o1 == seq_1 && o2 == Some(s2) && overflow@
                                =~= Seq::<i64>::empty())
                            &&& (num > 0 && truncation_strategy is LongestFirst ==> {
                                let (k1, k2) = longest_first_kept(l1, l2, num);
                                &&& l1 + l2 >= num
                                &&& payload_take(seq_1, k1, o1)
                                &&& (o2 matches Some(q2) && payload_take(s2, k2, q2))
                                &&& overflow@ == seq_1.token_ids@.skip(k1)
                            })
                            &&& (num > 0 && truncation_strategy is OnlyFirst ==> {
                                &&& l1 >= num
                                &&& payload_take(seq_1, l1 - num, o1)
                                &&& o2 == Some(s2)
                                &&& overflow@ == stride_window(
                                    seq_1.token_ids@.take(l1 - num),
                                    stride as int,
                                ) + seq_1.token_ids@.skip(l1 - num)
                            })
                            &&& (num > 0 && truncation_strategy is OnlySecond ==> {
                                &&& l2 >= num
                                &&& o1 == seq_1
                                &&& (o2 matches Some(q2) && payload_take(s2, l2 - num, q2)
                                    && overflow@ == stride_window(
                                    s2.token_ids@.take(l2 - num),
                                    stride as int,
                                ) + s2.token_ids@.skip(l2 - num))
                            })
                            &&& (num > 0 ==> !(truncation_strategy is DoNotTruncate))
                        },
                        Err(e) => {
                            &&& e matches TokenizerError::ValueError(_)
                            &&& num > 0
                            &&& match truncation_strategy {
                                TruncationStrategy::LongestFirst => l1 + l2 < num,
                                TruncationStrategy::OnlyFirst => l1 < num,
                                TruncationStrategy::OnlySecond => l2 < num,
                                TruncationStrategy::DoNotTruncate => true,
                            }
                        },
                    }
                },
                None => {
                    match r {
                        Ok((o1, o2, overflow)) => {
                            &&& o1.wf()
                            &&& o2 is None
                            &&& (num == 0 ==> o1 == seq_1 && overflow@ =~= Seq::<i64>::empty())
                            &&& (num > 0 ==> {
                                &&& (truncation_strategy is LongestFirst || truncation_strategy
                                    is OnlyFirst)
                                &&& l1 >= num
                                &&& payload_take(seq_1, l1 - num, o1)
                                &&& overflow@ == stride_window(
                                    seq_1.token_ids@.take(l1 - num),
                                    stride as int,
                                ) + seq_1.token_ids@.skip(l1 - num)
                            })
                        },
                        Err(e) => {
                            &&& e matches TokenizerError::ValueError(_)
                            &&& num > 0
                            &&& match truncation_strategy {
                                TruncationStrategy::LongestFirst => l1 < num,
                                TruncationStrategy::OnlyFirst => l1 < num,
                                TruncationStrategy::OnlySecond => true,
                                TruncationStrategy::DoNotTruncate => true,
                            }
                        },
                    }
                },
            }
        }),
{
    if num_tokens_to_remove == 0 {
        return Ok((seq_1, seq_2, Vec::new()));
    }
    match seq_2 {
        Some(s2) => {
            match truncation_strategy {
                TruncationStrategy::LongestFirst => {
                    let feasible = num_tokens_to_remove <= seq_1.token_ids.len()
                        || num_tokens_to_remove - seq_1.token_ids.len() <= s2.token_ids.len();
                    if feasible {
                        let mut p1 = seq_1;
                        let mut p2 = s2;
                        let ghost orig1 = p1;
                        let ghost orig2 = p2;
                        let ghost l1 = p1.spec_len();
                        let ghost l2 = p2.spec_len();
                        let num = num_tokens_to_remove;
                        let mut overflow: Vec<i64> = Vec::new();
                        proof {
                            assert(orig1.token_ids@.take(l1) =~= orig1.token_ids@);
                            assert(orig1.token_offsets@.take(l1) =~= orig1.token_offsets@);
                            assert(orig1.reference_offsets@.take(l1) =~= orig1.reference_offsets@);
                            assert(orig1.mask@.take(l1) =~= orig1.mask@);
                            assert(orig2.token_ids@.take(l2) =~= orig2.token_ids@);
                            assert(orig2.token_offsets@.take(l2) =~= orig2.token_offsets@);
                            assert(orig2.reference_offsets@.take(l2) =~= orig2.reference_offsets@);
                            assert(orig2.mask@.take(l2) =~= orig2.mask@);
                            assert(overflow@ =~= orig1.token_ids@.subrange(l1, l1));
                        }
                        let mut it: usize = 0;
                        while it < num
                            invariant
                                it <= num,
                                p1.wf(),
                                p2.wf(),
                                orig1.wf(),
                                orig2.wf(),
                                l1 == orig1.spec_len(),
                                l2 == orig2.spec_len(),
                                p1.spec_len() <= l1,
                                p2.spec_len() <= l2,
                                p1.spec_len() + p2.spec_len() >= num - it,
                                payload_take(orig1, p1.spec_len(), p1),
                                payload_take(orig2, p2.spec_len(), p2),
                                overflow@ == orig1.token_ids@.subrange(p1.spec_len(), l1),
                                longest_first_kept(p1.spec_len(), p2.spec_len(), num - it)
                                    == longest_first_kept(l1, l2, num as int),
                            decreases num - it,
                        {
                            if p1.token_ids.len() >= p2.token_ids.len() {
                                let id = p1.token_ids.pop();
                                p1.token_offsets.pop();
                                p1.reference_offsets.pop();
                                p1.mask.pop();
                                match id {
                                    Some(v) => {
                                        overflow.insert(0, v);
                                    },
                                    None => {
                                        proof {
                                            assert(false);
                                        }
                                    },
                                }
                                proof {
                                    assert(p1.token_ids@ =~= orig1.token_ids@.take(p1.spec_len()));
                                    assert(p1.token_offsets@ =~= orig1.token_offsets@.take(
                                        p1.spec_len(),
                                    ));
                                    assert(p1.reference_offsets@ =~= orig1.reference_offsets@.take(
                                        p1.spec_len(),
                                    ));
                                    assert(p1.mask@ =~= orig1.mask@.take(p1.spec_len()));
                                    assert(overflow@ =~= orig1.token_ids@.subrange(
                                        p1.spec_len(),
                                        l1,
                                    ));
                                }
                            } else {
                                p2.token_ids.pop();
                                p2.token_offsets.pop();
                                p2.reference_offsets.pop();
                                p2.mask.pop();
                                proof {
                                    assert(p2.token_ids@ =~= orig2.token_ids@.take(p2.spec_len()));
                                    assert(p2.token_offsets@ =~= orig2.token_offsets@.take(
                                        p2.spec_len(),
                                    ));
                                    assert(p2.reference_offsets@ =~= orig2.reference_offsets@.take(
                                        p2.spec_len(),
                                    ));
                                    assert(p2.mask@ =~= orig2.mask@.take(p2.spec_len()));
                                }
                            }
                            it += 1;
                        }
                        proof {
                            assert(overflow@ =~= orig1.token_ids@.skip(p1.spec_len()));
                        }
                        Ok((p1, Some(p2), overflow))
                    } else {
                        Err(
                            TokenizerError::ValueError(
                                String::from_str(
                                    "combined sequence length too short for requested truncation amount",
                                ),
                            ),
                        )
                    }
                },
                TruncationStrategy::OnlyFirst => {
                    if seq_1.token_ids.len() >= num_tokens_to_remove {
                        let mut p1 = seq_1;
                        let overflow = truncate_with_overflow(&mut p1, num_tokens_to_remove, stride);
                        Ok((p1, Some(s2), overflow))
                    } else {
                        Err(
                            TokenizerError::ValueError(
                                String::from_str(
                                    "first sequence too short for requested truncation amount",
                                ),
                            ),
                        )
                    }
                },
                TruncationStrategy::OnlySecond => {
                    if s2.token_ids.len() >= num_tokens_to_remove {
                        let mut p2 = s2;
                        let overflow = truncate_with_overflow(&mut p2, num_tokens_to_remove, stride);
                        Ok((seq_1, Some(p2), overflow))
                    } else {
                        Err(
                            TokenizerError::ValueError(
                                String::from_str(
                                    "second sequence too short for requested truncation amount",
                                ),
                            ),
                        )
                    }
                },
                TruncationStrategy::DoNotTruncate => {
                    Err(
                        TokenizerError::ValueError(
                            String::from_str("truncation needed but no truncation requested"),
                        ),
                    )
                },
            }
        },
        None => {
            match truncation_strategy {
                TruncationStrategy::LongestFirst | TruncationStrategy::OnlyFirst => {
                    if seq_1.token_ids.len() >= num_tokens_to_remove {
                        let mut p1 = seq_1;
                        let overflow = truncate_with_overflow(&mut p1, num_tokens_to_remove, stride);
                        Ok((p1, None, overflow))
                    } else {
                        Err(
                            TokenizerError::ValueError(
                                String::from_str(
                                    "sequence too short for requested truncation amount",
                                ),
                            ),
                        )
                    }
                },
                TruncationStrategy::OnlySecond => {
                    Err(
                        TokenizerError::ValueError(
                            String::from_str(
                                "invalid truncation strategy for single sentence truncation",
                            ),
                        ),
                    )
                },
                TruncationStrategy::DoNotTruncate => {
                    Err(
                        TokenizerError::ValueError(
                            String::from_str("truncation needed but no truncation requested"),
                        ),
                    )
                },
            }
        },
    }
}

} // verus!
