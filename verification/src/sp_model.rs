//! Reading the piece strings out of a serialized SentencePiece model.
//!
//! The model is a protobuf message whose field 1 is the repeated list of
//! pieces; each piece is itself a message whose field 1 is the piece string.
//! Only that much of the format matters here: every other field is skipped
//! by its wire type, as the data contract allows.

use vstd::prelude::*;

use crate::error::TokenizerError;
use vstd::string::StringExecFns;

verus! {

/// The value of the base-128 varint starting at `i`, with the index of the
/// byte after it: each byte contributes seven low-order bits, least
/// significant group first, and a clear high bit ends the number. `None`
/// when the bytes end early or the value exceeds sixty-four bits.
pub open spec fn varint_at(b: Seq<u8>, i: int) -> Option<(nat, int)>
    decreases b.len() - i,
{
    if i < 0 || i >= b.len() {
        None
    } else if b[i] < 128 {
        Some((b[i] as nat, i + 1))
    } else {
        match varint_at(b, i + 1) {
            None => None,
            Some((v, j)) => {
                let val = (b[i] - 128) as nat + 128 * v;
                if val < 0x10000000000000000 {
                    Some((val, j))
                } else {
                    None
                }
            },
        }
    }
}

/// The bytes of the first string field 1 of the message `m`, scanned from
/// `i`: `None` when the message is malformed or holds no such field.
pub open spec fn piece_in_message(m: Seq<u8>, i: int) -> Option<Seq<u8>>
    decreases m.len() - i,
{
    if i < 0 || i > m.len() {
        None
    } else if i == m.len() {
        None
    } else {
        match varint_at(m, i) {
            None => None,
            Some((tag, j)) => {
                let wire_type = tag % 8;
                let field_no = tag / 8;
                if wire_type == 2 {
                    match varint_at(m, j) {
                        None => None,
                        Some((len, k)) => {
                            if k + len <= m.len() && i < k + len {
                                if field_no == 1 {
                                    Some(m.subrange(k, k + len))
                                } else {
                                    piece_in_message(m, k + len)
                                }
                            } else {
                                None
                            }
                        },
                    }
                } else if wire_type == 0 {
                    match varint_at(m, j) {
                        None => None,
                        Some((v, k)) => if i < k && k <= m.len() {
                            piece_in_message(m, k)
                        } else {
                            None
                        },
                    }
                } else if wire_type == 1 {
                    if j + 8 <= m.len() && i < j + 8 {
                        piece_in_message(m, j + 8)
                    } else {
                        None
                    }
                } else if wire_type == 5 {
                    if j + 4 <= m.len() && i < j + 4 {
                        piece_in_message(m, j + 4)
                    } else {
                        None
                    }
                } else {
                    None
                }
            },
        }
    }
}

/// The piece strings' bytes of the model message, scanned from `i`: each
/// field 1 submessage contributes its piece, every other field is skipped by
/// its wire type. `None` when the serialization is malformed or a piece
/// submessage holds no piece string.
pub open spec fn model_pieces(b: Seq<u8>, i: int) -> Option<Seq<Seq<u8>>>
    decreases b.len() - i,
{
    if i < 0 || i > b.len() {
        None
    } else if i == b.len() {
        Some(Seq::empty())
    } else {
        match varint_at(b, i) {
            None => None,
            Some((tag, j)) => {
                let wire_type = tag % 8;
                let field_no = tag / 8;
                if wire_type == 2 {
                    match varint_at(b, j) {
                        None => None,
                        Some((len, k)) => {
                            if k + len <= b.len() && i < k + len {
                                match model_pieces(b, k + len) {
                                    None => None,
                                    Some(rest) => {
                                        if field_no == 1 {
                                            match piece_in_message(b.subrange(k, k + len), 0) {
                                                None => None,
                                                Some(piece) => Some(seq![piece] + rest),
                                            }
                                        } else {
                                            Some(rest)
                                        }
                                    },
                                }
                            } else {
                                None
                            }
                        },
                    }
                } else if wire_type == 0 {
                    match varint_at(b, j) {
                        None => None,
                        Some((v, k)) => if i < k && k <= b.len() {
                            model_pieces(b, k)
                        } else {
                            None
                        },
                    }
                } else if wire_type == 1 {
                    if j + 8 <= b.len() && i < j + 8 {
                        model_pieces(b, j + 8)
                    } else {
                        None
                    }
                } else if wire_type == 5 {
                    if j + 4 <= b.len() && i < j + 4 {
                        model_pieces(b, j + 4)
                    } else {
                        None
                    }
                } else {
                    None
                }
            },
        }
    }
}

/// Reads the varint starting at `i`.
fn parse_varint(b: &Vec<u8>, i: usize) -> (r: Option<(u64, usize)>)
    requires
        i <= b@.len(),
    ensures
        match r {
            Some((v, j)) => varint_at(b@, i as int) == Some((v as nat, j as int)) && i < j <= b@.len(),
            None => varint_at(b@, i as int) is None,
        },
    decreases b@.len() - i,
{
    if i >= b.len() {
        return None;
    }
    let byte = b[i];
    if byte < 128 {
        Some((byte as u64, i + 1))
    } else {
        match parse_varint(b, i + 1) {
            None => None,
            Some((v, j)) => {
                if v < 0x200000000000000u64 {
                    Some(((byte - 128) as u64 + 128 * v, j))
                } else {
                    proof {
                        assert((byte - 128) as nat + 128 * (v as nat) >= 0x10000000000000000);
                    }
                    None
                }
            },
        }
    }
}

/// Finds the piece string's bytes in one piece submessage.
fn parse_piece_message(m: &Vec<u8>) -> (r: Option<Vec<u8>>)
    ensures
        match r {
            Some(p) => piece_in_message(m@, 0) == Some(p@),
            None => piece_in_message(m@, 0) is None,
        },
{
    let n = m.len();
    let mut i: usize = 0;
    while i < n
        invariant
            i <= n,
            n == m@.len(),
            piece_in_message(m@, 0) == piece_in_message(m@, i as int),
        decreases n - i,
    {
        match parse_varint(m, i) {
            None => {
                return None;
            },
            Some((tag, j)) => {
                let wire_type = tag % 8;
                let field_no = tag / 8;
                if wire_type == 2 {
                    match parse_varint(m, j) {
                        None => {
                            return None;
                        },
                        Some((len, k)) => {
                            if len <= (n - k) as u64 {
                                let len_u = len as usize;
                                if field_no == 1 {
                                    return Some(
                                        vstd::slice::slice_to_vec(
                                            vstd::slice::slice_subrange(m.as_slice(), k, k + len_u),
                                        ),
                                    );
                                }
                                i = k + len_u;
                            } else {
                                return None;
                            }
                        },
                    }
                } else if wire_type == 0 {
                    match parse_varint(m, j) {
                        None => {
                            return None;
                        },
                        Some((v, k)) => {
                            i = k;
                        },
                    }
                } else if wire_type == 1 {
                    if 8 <= n - j {
                        i = j + 8;
                    } else {
                        return None;
                    }
                } else if wire_type == 5 {
                    if 4 <= n - j {
                        i = j + 4;
                    } else {
                        return None;
                    }
                } else {
                    return None;
                }
            },
        }
    }
    None
}

/// Collects the piece strings' bytes of the whole model message.
fn parse_model(b: &Vec<u8>) -> (r: Option<Vec<Vec<u8>>>)
    ensures
        match r {
            Some(ps) => model_pieces(b@, 0) == Some(ps@.map_values(|p: Vec<u8>| p@)),
            None => model_pieces(b@, 0) is None,
        },
{
    let n = b.len();
    let mut out: Vec<Vec<u8>> = Vec::new();
    let mut i: usize = 0;
    proof {
        assert(out@.map_values(|p: Vec<u8>| p@) =~= Seq::<Seq<u8>>::empty());
    }
    while i < n
        invariant
            i <= n,
            n == b@.len(),
            match model_pieces(b@, i as int) {
                Some(rest) => model_pieces(b@, 0) == Some(
                    out@.map_values(|p: Vec<u8>| p@) + rest,
                ),
                None => model_pieces(b@, 0) is None,
            },
        decreases n - i,
    {
        match parse_varint(b, i) {
            None => {
                return None;
            },
            Some((tag, j)) => {
                let wire_type = tag % 8;
                let field_no = tag / 8;
                if wire_type == 2 {
                    match parse_varint(b, j) {
                        None => {
                            return None;
                        },
                        Some((len, k)) => {
                            if len <= (n - k) as u64 {
                                let len_u = len as usize;
                                if field_no == 1 {
                                    let message = vstd::slice::slice_to_vec(
                                        vstd::slice::slice_subrange(b.as_slice(), k, k + len_u),
                                    );
                                    match parse_piece_message(&message) {
                                        None => {
                                            return None;
                                        },
                                        Some(piece) => {
                                            let ghost pre_views = out@.map_values(|p: Vec<u8>| p@);
                                            let ghost piece_view = piece@;
                                            out.push(piece);
                                            proof {
                                                assert(message@ =~= b@.subrange(
                                                    k as int,
                                                    k + len_u,
                                                ));
                                                assert(out@.map_values(|p: Vec<u8>| p@)
                                                    =~= pre_views + seq![piece_view]);
                                                match model_pieces(b@, (k + len_u) as int) {
                                                    Some(rest2) => {
                                                        assert(pre_views + (seq![piece_view]
                                                            + rest2) =~= (pre_views + seq![
                                                            piece_view,
                                                        ]) + rest2);
                                                    },
                                                    None => {},
                                                }
                                            }
                                            i = k + len_u;
                                        },
                                    }
                                } else {
                                    i = k + len_u;
                                }
                            } else {
                                return None;
                            }
                        },
                    }
                } else if wire_type == 0 {
                    match parse_varint(b, j) {
                        None => {
                            return None;
                        },
                        Some((v, k)) => {
                            i = k;
                        },
                    }
                } else if wire_type == 1 {
                    if 8 <= n - j {
                        i = j + 8;
                    } else {
                        return None;
                    }
                } else if wire_type == 5 {
                    if 4 <= n - j {
                        i = j + 4;
                    } else {
                        return None;
                    }
                } else {
                    return None;
                }
            },
        }
    }
    proof {
        assert(out@.map_values(|p: Vec<u8>| p@) + Seq::<Seq<u8>>::empty() =~= out@.map_values(
            |p: Vec<u8>| p@,
        ));
    }
    Some(out)
}

/// Relies on `String::from_utf8` of std: the characters decoded from the
/// bytes when they are valid UTF-8, nothing when they are not.
#[verifier::external_body]
fn utf8_to_string(bytes: Vec<u8>) -> (r: Option<String>)
    ensures
        match r {
            Some(s) => vstd::utf8::valid_utf8(bytes@) && s@ == vstd::utf8::decode_utf8(bytes@),
            None => !vstd::utf8::valid_utf8(bytes@),
        },
{
    String::from_utf8(bytes).ok()
}

/// Every piece's bytes are valid UTF-8.
pub open spec fn all_pieces_utf8(bs: Seq<Seq<u8>>) -> bool {
    forall|i: int| 0 <= i < bs.len() ==> vstd::utf8::valid_utf8(#[trigger] bs[i])
}

/// The piece strings a serialized model decodes to: `None` when the
/// serialization is malformed or a piece is not valid UTF-8.
pub open spec fn decoded_pieces(b: Seq<u8>) -> Option<Seq<Seq<char>>> {
    match model_pieces(b, 0) {
        Some(bs) => if all_pieces_utf8(bs) {
            Some(bs.map_values(|p: Seq<u8>| vstd::utf8::decode_utf8(p)))
        } else {
            None
        },
        None => None,
    }
}

/// The piece strings of a serialized SentencePiece model, in model order.
/// Fails with `VocabularyParsingError` exactly when the serialization does
/// not parse or a piece string is not valid UTF-8.
pub fn parse_model_pieces(bytes: &Vec<u8>) -> (r: Result<Vec<String>, TokenizerError>)
    ensures
        match r {
            Ok(ps) => ({
                &&& model_pieces(bytes@, 0) matches Some(bs)
                &&& ps@.len() == model_pieces(bytes@, 0)->0.len()
                &&& forall|i: int|
                    0 <= i < ps@.len() ==> vstd::utf8::valid_utf8(
                        #[trigger] model_pieces(bytes@, 0)->0[i],
                    ) && ps@[i]@ == vstd::utf8::decode_utf8(model_pieces(bytes@, 0)->0[i])
            }),
            Err(e) => ({
                &&& e matches TokenizerError::VocabularyParsingError(_)
                &&& !(match model_pieces(bytes@, 0) {
                    Some(bs) => all_pieces_utf8(bs),
                    None => false,
                })
            }),
        },
{
    match parse_model(bytes) {
        None => {
            Err(
                TokenizerError::VocabularyParsingError(
                    String::from_str("malformed SentencePiece model"),
                ),
            )
        },
        Some(raw_pieces) => {
            let ghost bs = model_pieces(bytes@, 0)->0;
            let n = raw_pieces.len();
            let mut out: Vec<String> = Vec::new();
            let mut i: usize = 0;
            let mut rest = raw_pieces;
            while i < n
                invariant
                    i <= n,
                    out@.len() == i,
                    rest@.len() + i == n,
                    n == bs.len(),
                    model_pieces(bytes@, 0) == Some(bs),
                    forall|q: int| 0 <= q < rest@.len() ==> (#[trigger] rest@[q])@ == bs[q + i],
                    forall|q: int|
                        0 <= q < i ==> vstd::utf8::valid_utf8(#[trigger] bs[q]) && out@[q]@
                            == vstd::utf8::decode_utf8(bs[q]),
                decreases n - i,
            {
                let ghost pre_rest = rest@;
                let piece_bytes = rest.remove(0);
                proof {
                    assert(piece_bytes@ == bs[i as int]);
                }
                match utf8_to_string(piece_bytes) {
                    None => {
                        proof {
                            assert(!vstd::utf8::valid_utf8(bs[i as int]));
                            assert(!all_pieces_utf8(bs)) by {
                                if all_pieces_utf8(bs) {
                                    assert(vstd::utf8::valid_utf8(bs[i as int]));
                                }
                            }
                        }
                        return Err(
                            TokenizerError::VocabularyParsingError(
                                String::from_str("piece is not valid UTF-8"),
                            ),
                        );
                    },
                    Some(s) => {
                        out.push(s);
                    },
                }
                i += 1;
            }
            Ok(out)
        },
    }
}

} // verus!
