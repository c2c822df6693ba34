//! Character-level text transforms and their specification model.
//!
//! Lowercasing and canonical decomposition are one-character-to-many-character
//! maps taken from the Unicode database; they are named by uninterpreted
//! spec functions and performed by trusted wrappers. The spec functions
//! [`expand_text`] and [`expand_refs`] describe how such a map acts on a whole
//! token text and on its per-character reference offsets.

use vstd::prelude::*;
use vstd::std_specs::iter::IteratorSpec;

use crate::OffsetSize;

verus! {

/// The Unicode lowercase mapping of one character.
pub uninterp spec fn lower_of(c: char) -> Seq<char>;

/// The canonical (NFD) decomposition of one character.
pub uninterp spec fn nfd_of(c: char) -> Seq<char>;

/// Relies on `char::to_lowercase` of std: the Unicode lowercase mapping of a
/// character, a non-empty character sequence that depends on the character
/// alone.
#[verifier::external_body]
pub(crate) fn char_lowercase(c: char) -> (r: Vec<char>)
    ensures
        r@ == lower_of(c),
        r@.len() >= 1,
{
    c.to_lowercase().collect()
}

/// Relies on `unicode_normalization::char::decompose_canonical`: the canonical
/// decomposition of a character, a non-empty character sequence that depends
/// on the character alone.
#[verifier::external_body]
pub(crate) fn char_nfd(c: char) -> (r: Vec<char>)
    ensures
        r@ == nfd_of(c),
        r@.len() >= 1,
{
    let mut out: Vec<char> = Vec::new();
    unicode_normalization::char::decompose_canonical(c, |d| out.push(d));
    out
}

/// Relies on `String::push` of std: appends one character to the string.
#[verifier::external_body]
pub(crate) fn push_char(s: &mut String, c: char)
    ensures
        final (s)@ == old(s)@.push(c),
{
    s.push(c);
}

/// The characters of a string slice, as a vector.
pub fn chars_vec(s: &str) -> (r: Vec<char>)
    ensures
        r@ == s@,
{
    broadcast use vstd::string::axiom_spec_iter, vstd::string::next_postcondition;

    let mut it = s.chars();
    let mut out: Vec<char> = Vec::new();
    loop
        invariant
            out@ + it.remaining() == s@,
            it.decrease() is Some,
        ensures
            out@ == s@,
        decreases it.decrease()->0,
    {
        match it.next() {
            Some(c) => {
                out.push(c);
            },
            None => {
                proof {
                    assert(out@ =~= s@);
                }
                break ;
            },
        }
    }
    out
}

/// A string made of exactly the given characters.
pub fn string_from_chars(v: &Vec<char>) -> (r: String)
    ensures
        r@ == v@,
{
    let mut s = String::new();
    let mut i: usize = 0;
    while i < v.len()
        invariant
            i <= v.len(),
            s@ == v@.take(i as int),
        decreases v.len() - i,
    {
        push_char(&mut s, v[i]);
        proof {
            assert(s@ =~= v@.take(i + 1));
        }
        i += 1;
    }
    proof {
        assert(s@ =~= v@);
    }
    s
}

/// The image of a character sequence under a one-to-many character map:
/// the concatenation of the per-character images.
pub open spec fn expand_text(s: Seq<char>, f: spec_fn(char) -> Seq<char>) -> Seq<char>
    decreases s.len(),
{
    if s.len() == 0 {
        Seq::empty()
    } else {
        expand_text(s.drop_last(), f) + f(s.last())
    }
}

/// The reference offsets matching [`expand_text`]: each character of the input
/// contributes its own reference offset once per character of its image.
pub open spec fn expand_refs(
    s: Seq<char>,
    refs: Seq<OffsetSize>,
    f: spec_fn(char) -> Seq<char>,
) -> Seq<OffsetSize>
    decreases s.len(),
{
    if s.len() == 0 {
        Seq::empty()
    } else {
        expand_refs(s.drop_last(), refs.drop_last(), f) + Seq::new(
            f(s.last()).len(),
            |j: int| refs.last(),
        )
    }
}

/// The image and its reference offsets have the same length.
pub proof fn lemma_expand_len(s: Seq<char>, refs: Seq<OffsetSize>, f: spec_fn(char) -> Seq<char>)
    requires
        s.len() == refs.len(),
    ensures
        expand_refs(s, refs, f).len() == expand_text(s, f).len(),
    decreases s.len(),
{
    if s.len() > 0 {
        lemma_expand_len(s.drop_last(), refs.drop_last(), f);
    }
}

/// The image of a concatenation is the concatenation of the images.
pub proof fn lemma_expand_text_add(a: Seq<char>, b: Seq<char>, f: spec_fn(char) -> Seq<char>)
    ensures
        expand_text(a + b, f) == expand_text(a, f) + expand_text(b, f),
    decreases b.len(),
{
    if b.len() == 0 {
        assert(a + b =~= a);
        assert(expand_text(a, f) + expand_text(b, f) =~= expand_text(a, f));
    } else {
        lemma_expand_text_add(a, b.drop_last(), f);
        assert((a + b).drop_last() =~= a + b.drop_last());
        assert((a + b).last() == b.last());
        assert(expand_text(a, f) + (expand_text(b.drop_last(), f) + f(b.last())) =~= (expand_text(
            a,
            f,
        ) + expand_text(b.drop_last(), f)) + f(b.last()));
    }
}

/// [`lemma_expand_text_add`] for the reference offsets.
pub proof fn lemma_expand_refs_add(
    a: Seq<char>,
    ar: Seq<OffsetSize>,
    b: Seq<char>,
    br: Seq<OffsetSize>,
    f: spec_fn(char) -> Seq<char>,
)
    requires
        a.len() == ar.len(),
        b.len() == br.len(),
    ensures
        expand_refs(a + b, ar + br, f) == expand_refs(a, ar, f) + expand_refs(b, br, f),
    decreases b.len(),
{
    if b.len() == 0 {
        assert(a + b =~= a);
        assert(ar + br =~= ar);
        assert(expand_refs(a, ar, f) + expand_refs(b, br, f) =~= expand_refs(a, ar, f));
    } else {
        lemma_expand_refs_add(a, ar, b.drop_last(), br.drop_last(), f);
        assert((a + b).drop_last() =~= a + b.drop_last());
        assert((ar + br).drop_last() =~= ar + br.drop_last());
        assert((a + b).last() == b.last());
        assert((ar + br).last() == br.last());
        let tail = Seq::new(f(b.last()).len(), |j: int| br.last());
        assert(expand_refs(a, ar, f) + (expand_refs(b.drop_last(), br.drop_last(), f) + tail)
            =~= (expand_refs(a, ar, f) + expand_refs(b.drop_last(), br.drop_last(), f)) + tail);
    }
}

/// The expanded reference offsets stay below any bound the originals stay
/// below.
pub proof fn lemma_expand_refs_bound(
    s: Seq<char>,
    refs: Seq<OffsetSize>,
    f: spec_fn(char) -> Seq<char>,
    bound: OffsetSize,
)
    requires
        s.len() == refs.len(),
        forall|i: int| 0 <= i < refs.len() ==> (#[trigger] refs[i]) < bound,
    ensures
        forall|q: int|
            0 <= q < expand_refs(s, refs, f).len() ==> (#[trigger] expand_refs(s, refs, f)[q])
                < bound,
    decreases s.len(),
{
    if s.len() > 0 {
        lemma_expand_refs_bound(s.drop_last(), refs.drop_last(), f, bound);
        let prefix = expand_refs(s.drop_last(), refs.drop_last(), f);
        let whole = expand_refs(s, refs, f);
        assert forall|q: int| 0 <= q < whole.len() implies whole[q] < bound by {
            if q < prefix.len() {
                assert(whole[q] == prefix[q]);
            } else {
                assert(whole[q] == refs.last());
            }
        }
    }
}

/// Maps that agree on every character have the same image.
pub proof fn lemma_expand_text_pointwise(
    s: Seq<char>,
    f: spec_fn(char) -> Seq<char>,
    g: spec_fn(char) -> Seq<char>,
)
    requires
        forall|c: char| #[trigger] f(c) == g(c),
    ensures
        expand_text(s, f) == expand_text(s, g),
    decreases s.len(),
{
    if s.len() > 0 {
        lemma_expand_text_pointwise(s.drop_last(), f, g);
    }
}

/// The identity map leaves a sequence unchanged.
pub proof fn lemma_expand_text_id(s: Seq<char>)
    ensures
        expand_text(s, |c: char| seq![c]) == s,
    decreases s.len(),
{
    let f = |c: char| seq![c];
    if s.len() == 0 {
        assert(expand_text(s, f) =~= s);
    } else {
        lemma_expand_text_id(s.drop_last());
        assert(expand_text(s, f) =~= s);
    }
}

} // verus!
