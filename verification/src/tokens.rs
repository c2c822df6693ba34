//! The token model: offsets, masks, owned and borrowed tokens, the final
//! encoding product, and consolidated iteration over subword groups.

use vstd::prelude::*;
use vstd::slice::slice_subrange;
use vstd::slice::slice_to_vec;

use crate::text::expand_refs;
use crate::text::expand_text;
use crate::text::lower_of;
use crate::text::nfd_of;
use crate::text::chars_vec;
use crate::chars::is_combining_mark;
use crate::OffsetSize;

verus! {

/// A half-open range `[begin, end)` of character indices in the original
/// input string. A range with `end <= begin` denotes "no offset".
#[derive(Debug, PartialEq, Eq, Structural, Clone, Copy)]
pub struct Offset {
    pub begin: OffsetSize,
    pub end: OffsetSize,
}

impl Offset {
    pub fn new(begin: OffsetSize, end: OffsetSize) -> (r: Offset)
        ensures
            r == (Offset { begin, end }),
    {
        Offset { begin, end }
    }

    /// The offset as an `Option`: `None` when the range is empty.
    pub fn into_option(self) -> (r: Option<Offset>)
        ensures
            r == if self.end > self.begin {
                Some(self)
            } else {
                None::<Offset>
            },
    {
        if self.end > self.begin {
            Some(self)
        } else {
            None
        }
    }
}

/// The nature of a token, set by the pretokenizer and segmenter and carried
/// through to the output.
#[derive(Debug, PartialEq, Eq, Structural, Clone, Copy)]
pub enum Mask {
    /// No particular mask; further processing may apply to the token.
    Plain,
    /// The token is whitespace.
    Whitespace,
    /// The token is punctuation.
    Punctuation,
    /// The token is a single Chinese/Japanese/Korean character.
    CJK,
    /// The token is a special marker such as a separator or class marker.
    Special,
    /// The token begins a series of subtokens.
    Begin,
    /// The token continues the previous token; the reverse of `Unfinished`.
    Continuation,
    /// The token starts a word that is not finished; the reverse of `Continuation`.
    Unfinished,
    /// The token is out of vocabulary and will decode to the unknown marker.
    Unknown,
}

impl Default for Mask {
    fn default() -> (r: Mask)
        ensures
            r == Mask::Plain,
    {
        Mask::Plain
    }
}

/// An owned token: its text, the covered offset range, one original-input
/// character index per character of the text, and its mask.
#[derive(Debug, PartialEq, Clone)]
pub struct Token {
    pub text: String,
    pub offset: Offset,
    pub reference_offsets: Vec<OffsetSize>,
    pub mask: Mask,
}

/// A token borrowing its text and reference offsets.
#[derive(Debug, PartialEq, Clone, Copy)]
pub struct TokenRef<'a> {
    pub text: &'a str,
    pub offset: Offset,
    pub reference_offsets: &'a [OffsetSize],
    pub mask: Mask,
}

impl<'a> TokenRef<'a> {
    /// A borrowed token over the given text, one reference offset per
    /// character of the text.
    pub fn new(text: &'a str, offsets: &'a [OffsetSize]) -> (r: TokenRef<'a>)
        requires
            offsets@.len() <= OffsetSize::MAX,
        ensures
            r.text@ == text@,
            r.reference_offsets@ == offsets@,
            r.offset == (Offset { begin: 0, end: offsets@.len() as OffsetSize }),
            r.mask == Mask::Plain,
    {
        TokenRef {
            text,
            offset: Offset { begin: 0, end: offsets.len() as OffsetSize },
            reference_offsets: offsets,
            mask: Mask::Plain,
        }
    }

    /// An owned copy of the token.
    pub fn to_owned(self) -> (r: Token)
        ensures
            r.text@ == self.text@,
            r.offset == self.offset,
            r.reference_offsets@ == self.reference_offsets@,
            r.mask == self.mask,
    {
        Token {
            text: self.text.to_owned(),
            offset: self.offset,
            reference_offsets: slice_to_vec(self.reference_offsets),
            mask: self.mask,
        }
    }
}

impl Token {
    /// A fresh token over the whole of `text`, referencing offsets
    /// `0..text.chars().count()`.
    pub fn new(text: String) -> (r: Token)
        requires
            text@.len() <= OffsetSize::MAX,
        ensures
            r.text@ == text@,
            r.offset == (Offset { begin: 0, end: text@.len() as OffsetSize }),
            r.reference_offsets@ == range_seq(0, text@.len() as OffsetSize),
            r.mask == Mask::Plain,
    {
        let cs = chars_vec(text.as_str());
        let n: usize = cs.len();
        let mut refs: Vec<OffsetSize> = Vec::new();
        let mut i: usize = 0;
        while i < n
            invariant
                i <= n,
                n <= OffsetSize::MAX,
                refs@ =~= range_seq(0, i as OffsetSize),
            decreases n - i,
        {
            refs.push(i as OffsetSize);
            proof {
                assert(refs@ =~= range_seq(0, (i + 1) as OffsetSize));
            }
            i += 1;
        }
        Token {
            text,
            offset: Offset { begin: 0, end: n as OffsetSize },
            reference_offsets: refs,
            mask: Mask::Plain,
        }
    }

    /// A borrowed view of the token.
    pub fn as_ref(&self) -> (r: TokenRef<'_>)
        ensures
            r.text@ == self.text@,
            r.offset == self.offset,
            r.reference_offsets@ == self.reference_offsets@,
            r.mask == self.mask,
    {
        TokenRef {
            text: self.text.as_str(),
            offset: self.offset,
            reference_offsets: self.reference_offsets.as_slice(),
            mask: self.mask,
        }
    }
}

/// The final product of encoding: the framed ID sequence together with its
/// per-position bookkeeping, every vector of the same length.
#[derive(Debug, PartialEq, Clone)]
pub struct TokenizedInput {
    /// The framed token IDs.
    pub token_ids: Vec<i64>,
    /// 0 for first-sequence positions, 1 for second-sequence positions.
    pub segment_ids: Vec<i8>,
    /// 1 where the position was injected by framing, 0 elsewhere.
    pub special_tokens_mask: Vec<i8>,
    /// IDs truncated off, with any stride-induced overlap replayed in front.
    pub overflowing_tokens: Vec<i64>,
    /// How many tokens were dropped from the raw concatenation.
    pub num_truncated_tokens: usize,
    /// Offset into the corresponding original input, or `None` for injected tokens.
    pub token_offsets: Vec<Option<Offset>>,
    /// Original-input character indices, one per character of each token.
    pub reference_offsets: Vec<Vec<OffsetSize>>,
    /// The mask of each position.
    pub mask: Vec<Mask>,
}

/// What every kind of token exposes: its offset, its mask and its text.
pub trait TokenTrait: Sized {
    /// The token's mask, in specifications.
    spec fn spec_mask(&self) -> Mask;

    /// The token's offset range, in specifications.
    spec fn spec_offset(&self) -> Offset;

    /// The token's text, in specifications.
    spec fn spec_text(&self) -> Seq<char>;

    /// The token's offset, `None` when the range is empty.
    fn offset(&self) -> (r: Option<Offset>)
        ensures
            r == if self.spec_offset().end > self.spec_offset().begin {
                Some(self.spec_offset())
            } else {
                None::<Offset>
            },
    ;

    /// The token's mask.
    fn mask(&self) -> (r: Mask)
        ensures
            r == self.spec_mask(),
    ;

    /// The token's text.
    fn as_str(&self) -> (r: &str)
        ensures
            r@ == self.spec_text(),
    ;
}

impl TokenTrait for Token {
    open spec fn spec_mask(&self) -> Mask {
        self.mask
    }

    open spec fn spec_offset(&self) -> Offset {
        self.offset
    }

    open spec fn spec_text(&self) -> Seq<char> {
        self.text@
    }

    fn offset(&self) -> (r: Option<Offset>) {
        self.offset.into_option()
    }

    fn mask(&self) -> (r: Mask) {
        self.mask
    }

    fn as_str(&self) -> (r: &str) {
        self.text.as_str()
    }
}

impl<'a> TokenTrait for TokenRef<'a> {
    open spec fn spec_mask(&self) -> Mask {
        self.mask
    }

    open spec fn spec_offset(&self) -> Offset {
        self.offset
    }

    open spec fn spec_text(&self) -> Seq<char> {
        self.text@
    }

    fn offset(&self) -> (r: Option<Offset>) {
        self.offset.into_option()
    }

    fn mask(&self) -> (r: Mask) {
        self.mask
    }

    fn as_str(&self) -> (r: &str) {
        self.text
    }
}

/// Walks a token sequence and hands out maximal contiguous groups in which
/// every token after the first carries [`Mask::Continuation`]: the words that
/// the subwords were split from. The groups it hands out are consecutive,
/// non-overlapping and together cover the token sequence exactly.
pub struct ConsolidatedTokenIterator<'a, T: TokenTrait> {
    tokens: &'a Vec<T>,
    begin: usize,
    cursor: usize,
}

impl<'a, T: TokenTrait> ConsolidatedTokenIterator<'a, T> {
    /// The token sequence being walked.
    pub closed spec fn tokens_view(self) -> Seq<T> {
        self.tokens@
    }

    /// All groups handed out so far end exactly at `begin`.
    pub closed spec fn emitted_up_to(self) -> int {
        self.begin as int
    }

    /// The iterator is exhausted: every group has been handed out.
    pub closed spec fn done(self) -> bool {
        self.begin == self.cursor && (self.begin > 0 || self.tokens@.len() == 0)
    }

    /// The iterator is in one of its reachable states: fresh, mid-iteration
    /// at a group boundary, or exhausted.
    pub closed spec fn wf(self) -> bool {
        let n = self.tokens@.len();
        ||| (self.begin == 0 && self.cursor == 0)
        ||| (self.begin == self.cursor && self.cursor == n)
        ||| (self.cursor == self.begin + 1 && self.begin < n && self.tokens@[self.begin as int].spec_mask()
            != Mask::Continuation)
    }

    pub fn new(tokens: &'a Vec<T>) -> (r: ConsolidatedTokenIterator<'a, T>)
        ensures
            r.tokens_view() == tokens@,
            r.wf(),
            !r.done() || tokens@.len() == 0,
            r.emitted_up_to() == 0,
    {
        ConsolidatedTokenIterator { tokens, begin: 0, cursor: 0 }
    }

    /// The next consolidated group.
    ///
    /// Each group returned is the slice of the underlying tokens that starts
    /// exactly where the previously returned group ended, so concatenating
    /// the returned slices in order reproduces the token sequence with no
    /// gaps and no duplicates; `None` is returned exactly once every token
    /// has been handed out. A group is maximal: every token after its first
    /// is a continuation, and the token just after the group, where one
    /// exists, is not.
    pub fn next(&mut self) -> (r: Option<&'a [T]>)
        requires
            old(self).wf(),
        ensures
            final (self).tokens_view() == old(self).tokens_view(),
            final (self).wf(),
            r is None <==> old(self).done(),
            old(self).done() ==> *final (self) == *old(self),
            r matches Some(s) ==> {
                &&& s@.len() > 0
                &&& old(self).emitted_up_to() + s@.len() <= old(self).tokens_view().len()
                &&& s@ == old(self).tokens_view().subrange(
                    old(self).emitted_up_to(),
                    old(self).emitted_up_to() + s@.len(),
                )
                &&& forall|i: int| 0 < i < s@.len() ==> s@[i].spec_mask() == Mask::Continuation
                &&& (old(self).emitted_up_to() + s@.len() < old(self).tokens_view().len()
                    ==> old(self).tokens_view()[old(self).emitted_up_to() + s@.len()].spec_mask()
                    != Mask::Continuation)
                &&& (final (self).done() <==> old(self).emitted_up_to() + s@.len()
                    == old(self).tokens_view().len())
                &&& (!final (self).done() ==> final (self).emitted_up_to() == old(
                    self,
                ).emitted_up_to() + s@.len())
            },
    {
        let n = self.tokens.len();
        loop
            invariant
                self.tokens == old(self).tokens,
                self.begin == old(self).begin,
                n == self.tokens@.len(),
                old(self).wf(),
                self.cursor >= old(self).cursor,
                self.begin <= self.cursor,
                self.cursor <= n,
                forall|i: int|
                    self.begin < i < self.cursor ==> self.tokens@[i].spec_mask()
                        == Mask::Continuation,
            decreases n + 1 - self.cursor,
        {
            if self.cursor < n {
                let tok_mask = self.tokens[self.cursor].mask();
                if tok_mask != Mask::Continuation && self.cursor > self.begin {
                    let s = slice_subrange(self.tokens.as_slice(), self.begin, self.cursor);
                    self.begin = self.cursor;
                    self.cursor = self.cursor + 1;
                    return Some(s);
                }
                self.cursor = self.cursor + 1;
            } else {
                if self.begin < self.cursor {
                    let s = slice_subrange(self.tokens.as_slice(), self.begin, self.cursor);
                    self.begin = self.cursor;
                    return Some(s);
                } else {
                    return None;
                }
            }
        }
    }
}

/// Collections of tokens that can be walked word by word, grouping
/// subtokens, with [`ConsolidatedTokenIterator`].
pub trait ConsolidatableTokens<T: TokenTrait>: Sized {
    /// The collection's tokens, in specifications.
    spec fn tokens_seq(&self) -> Seq<T>;

    /// An iterator over consolidated groups of tokens.
    fn iter_consolidate_tokens(&self) -> (r: ConsolidatedTokenIterator<'_, T>)
        ensures
            r.tokens_view() == self.tokens_seq(),
            r.wf(),
            r.emitted_up_to() == 0,
            !r.done() || self.tokens_seq().len() == 0,
    ;
}

impl ConsolidatableTokens<Token> for Vec<Token> {
    open spec fn tokens_seq(&self) -> Seq<Token> {
        self@
    }

    fn iter_consolidate_tokens(&self) -> (r: ConsolidatedTokenIterator<'_, Token>) {
        ConsolidatedTokenIterator::new(self)
    }
}

impl<'a> ConsolidatableTokens<TokenRef<'a>> for Vec<TokenRef<'a>> {
    open spec fn tokens_seq(&self) -> Seq<TokenRef<'a>> {
        self@
    }

    fn iter_consolidate_tokens(&self) -> (r: ConsolidatedTokenIterator<'_, TokenRef<'a>>) {
        ConsolidatedTokenIterator::new(self)
    }
}

/// The character indices `[b, b + 1, ..., e - 1]`.
pub open spec fn range_seq(b: OffsetSize, e: OffsetSize) -> Seq<OffsetSize> {
    if b <= e {
        Seq::new((e - b) as nat, |i: int| (b + i) as OffsetSize)
    } else {
        Seq::empty()
    }
}

/// The image of one character under the configured lowercasing pass.
pub open spec fn lower_image(c: char, lower: bool) -> Seq<char> {
    if lower {
        lower_of(c)
    } else {
        seq![c]
    }
}

/// The image of one character under the configured accent-stripping pass:
/// its canonical decomposition with combining diacritical marks discarded.
pub open spec fn strip_image(c: char, strip: bool) -> Seq<char> {
    if strip {
        nfd_of(c).filter(|d: char| !is_combining_mark(d))
    } else {
        seq![c]
    }
}

/// The image of one character under lowercasing followed by accent stripping.
pub open spec fn char_image(c: char, lower: bool, strip: bool) -> Seq<char> {
    expand_text(lower_image(c, lower), |d: char| strip_image(d, strip))
}

/// The transformed text and reference offsets of a covered range, re-based
/// to begin at the first character whose image is non-empty.
pub proof fn lemma_expand_front(
    src: Seq<char>,
    a: OffsetSize,
    b: OffsetSize,
    f: spec_fn(char) -> Seq<char>,
)
    requires
        a <= b,
        b <= src.len(),
    ensures
        ({
            let s = src.subrange(a as int, b as int);
            let refs = expand_refs(s, range_seq(a, b), f);
            refs.len() > 0 ==> {
                let r0 = refs[0];
                &&& a <= r0 < b
                &&& f(src[r0 as int]).len() > 0
                &&& expand_text(s, f) == expand_text(src.subrange(r0 as int, b as int), f)
                &&& refs == expand_refs(
                    src.subrange(r0 as int, b as int),
                    range_seq(r0, b),
                    f,
                )
            }
        }),
    decreases b - a,
{
    let s = src.subrange(a as int, b as int);
    let refs = expand_refs(s, range_seq(a, b), f);
    if refs.len() > 0 {
        assert(s.len() > 0);
        let head = seq![src[a as int]];
        let rest = src.subrange(a + 1, b as int);
        let head_r = seq![a];
        let rest_r = range_seq((a + 1) as OffsetSize, b);
        assert(s =~= head + rest);
        assert(range_seq(a, b) =~= head_r + rest_r);
        crate::text::lemma_expand_text_add(head, rest, f);
        crate::text::lemma_expand_refs_add(head, head_r, rest, rest_r, f);
        assert(head.drop_last() =~= Seq::<char>::empty());
        assert(head_r.drop_last() =~= Seq::<OffsetSize>::empty());
        assert(expand_text(Seq::<char>::empty(), f) =~= Seq::<char>::empty());
        assert(expand_refs(Seq::<char>::empty(), Seq::<OffsetSize>::empty(), f)
            =~= Seq::<OffsetSize>::empty());
        assert(head.last() == src[a as int]);
        assert(head_r.last() == a);
        assert(expand_text(head, f) =~= f(src[a as int]));
        assert(expand_refs(head, head_r, f) =~= Seq::new(f(src[a as int]).len(), |j: int| a));
        if f(src[a as int]).len() == 0 {
            assert(expand_text(s, f) =~= expand_text(rest, f));
            assert(refs =~= expand_refs(rest, rest_r, f));
            lemma_expand_front(src, (a + 1) as OffsetSize, b, f);
        } else {
            assert(refs[0] == a);
        }
    }
}

/// The transformed text and reference offsets of a covered range, cut back
/// to end after the last character whose image is non-empty.
pub proof fn lemma_expand_back(
    src: Seq<char>,
    a: OffsetSize,
    b: OffsetSize,
    f: spec_fn(char) -> Seq<char>,
)
    requires
        a <= b,
        b <= src.len(),
    ensures
        ({
            let s = src.subrange(a as int, b as int);
            let refs = expand_refs(s, range_seq(a, b), f);
            refs.len() > 0 ==> {
                let rl = refs.last();
                &&& a <= rl < b
                &&& f(src[rl as int]).len() > 0
                &&& expand_text(s, f) == expand_text(src.subrange(a as int, rl + 1), f)
                &&& refs == expand_refs(
                    src.subrange(a as int, rl + 1),
                    range_seq(a, (rl + 1) as OffsetSize),
                    f,
                )
            }
        }),
    decreases b - a,
{
    let s = src.subrange(a as int, b as int);
    let refs = expand_refs(s, range_seq(a, b), f);
    if refs.len() > 0 {
        assert(s.len() > 0);
        let short = src.subrange(a as int, b - 1);
        let short_r = range_seq(a, (b - 1) as OffsetSize);
        assert(s.drop_last() =~= short);
        assert(range_seq(a, b).drop_last() =~= short_r);
        assert(s.last() == src[b - 1]);
        assert(range_seq(a, b).last() == (b - 1) as OffsetSize);
        if f(src[b - 1]).len() == 0 {
            assert(expand_text(s, f) =~= expand_text(short, f));
            assert(refs =~= expand_refs(short, short_r, f));
            lemma_expand_back(src, a, (b - 1) as OffsetSize, f);
        } else {
            assert(refs.last() == (b - 1) as OffsetSize);
            assert(expand_text(s, f) =~= expand_text(src.subrange(a as int, (b - 1) + 1), f));
            assert(refs =~= expand_refs(
                src.subrange(a as int, (b - 1) + 1),
                range_seq(a, ((b - 1) + 1) as OffsetSize),
                f,
            ));
        }
    }
}

/// The transformed text of a covered range equals the transformed text of
/// the range spanned by its first and last reference offsets: characters
/// outside that span have empty images.
pub proof fn lemma_tracked_offsets(
    src: Seq<char>,
    a: OffsetSize,
    b: OffsetSize,
    f: spec_fn(char) -> Seq<char>,
)
    requires
        a <= b,
        b <= src.len(),
    ensures
        ({
            let s = src.subrange(a as int, b as int);
            let refs = expand_refs(s, range_seq(a, b), f);
            refs.len() > 0 ==> {
                let r0 = refs[0];
                let rl = refs.last();
                &&& a <= r0 <= rl < b
                &&& expand_text(s, f) == expand_text(src.subrange(r0 as int, rl + 1), f)
            }
        }),
{
    let s = src.subrange(a as int, b as int);
    let refs = expand_refs(s, range_seq(a, b), f);
    if refs.len() > 0 {
        lemma_expand_front(src, a, b, f);
        let r0 = refs[0];
        lemma_expand_back(src, r0, b, f);
    }
}

/// The token's text is exactly the source characters of its offset range and
/// its reference offsets enumerate that range.
pub open spec fn token_covers(t: Token, src: Seq<char>) -> bool {
    &&& t.offset.begin <= t.offset.end
    &&& t.offset.end <= src.len()
    &&& t.text@ == src.subrange(t.offset.begin as int, t.offset.end as int)
    &&& t.reference_offsets@ == range_seq(t.offset.begin, t.offset.end)
}

/// The token's text is the image of the source characters of its offset range
/// under the configured transforms (exactly those characters for special and
/// unknown tokens, which the transforms skip), and its reference offsets tie
/// each text character to the source character it came from.
pub open spec fn token_tracks(t: Token, src: Seq<char>, lower: bool, strip: bool) -> bool {
    if t.mask == Mask::Special || t.mask == Mask::Unknown {
        token_covers(t, src)
    } else {
        &&& t.offset.begin <= t.offset.end
        &&& t.offset.end <= src.len()
        &&& t.text@ == expand_text(
            src.subrange(t.offset.begin as int, t.offset.end as int),
            |c: char| char_image(c, lower, strip),
        )
        &&& t.reference_offsets@ == expand_refs(
            src.subrange(t.offset.begin as int, t.offset.end as int),
            range_seq(t.offset.begin, t.offset.end),
            |c: char| char_image(c, lower, strip),
        )
    }
}

} // verus!
