//! Byte encoding of document values.
//!
//! Documents are persisted as byte strings.  [`enc_val`] gives the encoding
//! of a value's model; [`dec_at`] gives the decoding of a byte string.
//! Decoding an encoding yields the value back ([`lemma_dec_enc_val`]), which
//! is what makes a stored document come back intact.
//!
//! Layout: one tag byte, then the payload.  Integers are eight bytes
//! little-endian.  Text is an eight-byte little-endian byte count followed by
//! the UTF-8 bytes.  Lists and objects are an eight-byte element count
//! followed by the encoded elements; an object field is an encoded key
//! followed by the encoded value.

use vstd::bytes::{
    lemma_auto_spec_u64_to_from_le_bytes, spec_u64_from_le_bytes, spec_u64_to_le_bytes,
    u64_from_le_bytes, u64_to_le_bytes,
};
use vstd::prelude::*;
use vstd::slice::{slice_subrange, slice_to_vec};
use vstd::string::StrSliceExecFns;
use vstd::utf8::{decode_utf8, encode_utf8, encode_utf8_decode_utf8, encode_utf8_valid_utf8, valid_utf8};

use crate::value::{field_models, lemma_field_models, lemma_field_models_push, lemma_list_models,
    lemma_list_models_push, list_models, val_model, ValModel, Value};

verus! {

/// One more than the largest count that the eight-byte length fields can
/// carry.
pub open spec fn count_limit() -> int {
    0x1_0000_0000_0000_0000
}

/// Whether a model only holds what a document value can hold: integers of
/// machine size, and text, list and object lengths that the length fields
/// can carry.
pub open spec fn wf_model(m: ValModel) -> bool
    decreases m,
{
    match m {
        ValModel::Null => true,
        ValModel::Bool(_) => true,
        ValModel::Int(i) => i64::MIN <= i <= i64::MAX,
        ValModel::Text(s) => encode_utf8(s).len() < count_limit(),
        ValModel::List(ms) => ms.len() < count_limit() && wf_list(ms),
        ValModel::Object(fs) => fs.len() < count_limit() && wf_fields(fs),
    }
}

/// Whether every element of a list is well formed.
pub open spec fn wf_list(ms: Seq<ValModel>) -> bool
    decreases ms, ms.len(),
{
    if ms.len() == 0 {
        true
    } else {
        wf_model(ms[0]) && wf_list(ms.skip(1))
    }
}

/// Whether every field of an object has a key the length field can carry and
/// a well-formed value.
pub open spec fn wf_fields(fs: Seq<(Seq<char>, ValModel)>) -> bool
    decreases fs, fs.len(),
{
    if fs.len() == 0 {
        true
    } else {
        encode_utf8(fs[0].0).len() < count_limit() && wf_model(fs[0].1) && wf_fields(fs.skip(1))
    }
}

/// The eight-byte little-endian image of an integer in the signed
/// machine-word range.
pub open spec fn u64_of_i64(i: int) -> u64 {
    (i as i64) as u64
}

/// The signed reading of an eight-byte little-endian image.
pub open spec fn int_of_u64(x: u64) -> int {
    (x as i64) as int
}

/// Reading back the image of an integer yields the integer.
pub proof fn lemma_i64_u64_round_trip()
    ensures
        forall|i: i64| #[trigger] ((i as u64) as i64) == i,
{
    assert forall|i: i64| #[trigger] ((i as u64) as i64) == i by {
        assert((i as u64) as i64 == i) by (bit_vector);
    }
}

/// The encoding of a piece of text: its UTF-8 byte count, then its UTF-8
/// bytes.
pub open spec fn enc_str(s: Seq<char>) -> Seq<u8> {
    spec_u64_to_le_bytes(encode_utf8(s).len() as u64) + encode_utf8(s)
}

/// The encoding of a value.
pub open spec fn enc_val(m: ValModel) -> Seq<u8>
    decreases m,
{
    match m {
        ValModel::Null => seq![0u8],
        ValModel::Bool(b) => if b {
            seq![2u8]
        } else {
            seq![1u8]
        },
        ValModel::Int(i) => seq![3u8] + spec_u64_to_le_bytes(u64_of_i64(i)),
        ValModel::Text(s) => seq![4u8] + enc_str(s),
        ValModel::List(ms) => seq![5u8] + spec_u64_to_le_bytes(ms.len() as u64) + enc_list(ms),
        ValModel::Object(fs) => seq![6u8] + spec_u64_to_le_bytes(fs.len() as u64) + enc_fields(fs),
    }
}

/// The concatenated encodings of a list's elements.
pub open spec fn enc_list(ms: Seq<ValModel>) -> Seq<u8>
    decreases ms, ms.len(),
{
    if ms.len() == 0 {
        Seq::empty()
    } else {
        enc_val(ms[0]) + enc_list(ms.skip(1))
    }
}

/// The concatenated encodings of an object's fields.
pub open spec fn enc_fields(fs: Seq<(Seq<char>, ValModel)>) -> Seq<u8>
    decreases fs, fs.len(),
{
    if fs.len() == 0 {
        Seq::empty()
    } else {
        enc_str(fs[0].0) + enc_val(fs[0].1) + enc_fields(fs.skip(1))
    }
}

/// Every encoding starts with its tag byte.
pub proof fn lemma_enc_val_len(m: ValModel)
    ensures
        enc_val(m).len() >= 1,
{
}

/// The decoding of the value that starts at `pos`: the value and the
/// position just past it, or nothing when the bytes there are not an
/// encoding.
pub open spec fn dec_at(bytes: Seq<u8>, pos: int) -> Option<(ValModel, int)>
    decreases bytes.len() - pos, 0int, 0int
    when pos >= 0
{
    if pos >= bytes.len() {
        None
    } else {
        let tag = bytes[pos];
        if tag == 0 {
            Some((ValModel::Null, pos + 1))
        } else if tag == 1 {
            Some((ValModel::Bool(false), pos + 1))
        } else if tag == 2 {
            Some((ValModel::Bool(true), pos + 1))
        } else if tag == 3 {
            if pos + 9 <= bytes.len() {
                Some(
                    (
                        ValModel::Int(
                            int_of_u64(spec_u64_from_le_bytes(bytes.subrange(pos + 1, pos + 9))),
                        ),
                        pos + 9,
                    ),
                )
            } else {
                None
            }
        } else if tag == 4 {
            match dec_str(bytes, pos + 1) {
                Some((s, p)) => Some((ValModel::Text(s), p)),
                None => None,
            }
        } else if tag == 5 {
            if pos + 9 <= bytes.len() {
                let n = spec_u64_from_le_bytes(bytes.subrange(pos + 1, pos + 9));
                match dec_list(bytes, pos + 9, n as int) {
                    Some((ms, p)) => Some((ValModel::List(ms), p)),
                    None => None,
                }
            } else {
                None
            }
        } else if tag == 6 {
            if pos + 9 <= bytes.len() {
                let n = spec_u64_from_le_bytes(bytes.subrange(pos + 1, pos + 9));
                match dec_fields(bytes, pos + 9, n as int) {
                    Some((fs, p)) => Some((ValModel::Object(fs), p)),
                    None => None,
                }
            } else {
                None
            }
        } else {
            None
        }
    }
}

/// The decoding of a piece of text starting at `pos`: its byte count, then
/// that many UTF-8 bytes.
pub open spec fn dec_str(bytes: Seq<u8>, pos: int) -> Option<(Seq<char>, int)> {
    if pos >= 0 && pos + 8 <= bytes.len() {
        let n = spec_u64_from_le_bytes(bytes.subrange(pos, pos + 8)) as int;
        if pos + 8 + n <= bytes.len() {
            let bs = bytes.subrange(pos + 8, pos + 8 + n);
            if valid_utf8(bs) {
                Some((decode_utf8(bs), pos + 8 + n))
            } else {
                None
            }
        } else {
            None
        }
    } else {
        None
    }
}

/// The decoding of `count` consecutive values starting at `pos`.
pub open spec fn dec_list(bytes: Seq<u8>, pos: int, count: int) -> Option<(Seq<ValModel>, int)>
    decreases bytes.len() - pos, 1int, count
    when pos >= 0 && count >= 0
{
    if count == 0 {
        Some((Seq::empty(), pos))
    } else if pos >= bytes.len() {
        None
    } else {
        match dec_at(bytes, pos) {
            Some((m, p)) => {
                let p2 = if p < pos + 1 {
                    pos + 1
                } else if p > bytes.len() {
                    bytes.len() as int
                } else {
                    p
                };
                match dec_list(bytes, p2, count - 1) {
                    Some((ms, q)) => Some((seq![m] + ms, q)),
                    None => None,
                }
            },
            None => None,
        }
    }
}

/// The decoding of `count` consecutive fields starting at `pos`: each one a
/// key, then a value.
pub open spec fn dec_fields(bytes: Seq<u8>, pos: int, count: int) -> Option<
    (Seq<(Seq<char>, ValModel)>, int),
>
    decreases bytes.len() - pos, 1int, count
    when pos >= 0 && count >= 0
{
    if count == 0 {
        Some((Seq::empty(), pos))
    } else if pos >= bytes.len() {
        None
    } else {
        match dec_str(bytes, pos) {
            Some((key, kp)) => {
                let kp2 = if kp < pos + 1 {
                    pos + 1
                } else if kp > bytes.len() {
                    bytes.len() as int
                } else {
                    kp
                };
                if kp2 >= bytes.len() {
                    None
                } else {
                    match dec_at(bytes, kp2) {
                        Some((m, p)) => {
                            let p2 = if p < kp2 + 1 {
                                kp2 + 1
                            } else if p > bytes.len() {
                                bytes.len() as int
                            } else {
                                p
                            };
                            match dec_fields(bytes, p2, count - 1) {
                                Some((fs, q)) => Some((seq![(key, m)] + fs, q)),
                                None => None,
                            }
                        },
                        None => None,
                    }
                }
            },
            None => None,
        }
    }
}

/// A slice of an embedded byte string is embedded at the shifted position.
pub proof fn lemma_embed_part(bytes: Seq<u8>, pos: int, e: Seq<u8>, off: int, part: Seq<u8>)
    requires
        0 <= pos,
        pos + e.len() <= bytes.len(),
        bytes.subrange(pos, pos + e.len()) == e,
        0 <= off,
        off + part.len() <= e.len(),
        e.subrange(off, off + part.len()) == part,
    ensures
        bytes.subrange(pos + off, pos + off + part.len()) == part,
{
    assert forall|k: int| 0 <= k < part.len() implies bytes.subrange(
        pos + off,
        pos + off + part.len(),
    )[k] == part[k] by {
        assert(e.subrange(off, off + part.len())[k] == e[off + k]);
        assert(bytes.subrange(pos, pos + e.len())[off + k] == bytes[pos + off + k]);
    }
    assert(bytes.subrange(pos + off, pos + off + part.len()) =~= part);
}

/// Decoding at the start of an embedded encoding of a well-formed value
/// yields that value and ends just past the encoding.
pub proof fn lemma_dec_enc_val(bytes: Seq<u8>, pos: int, m: ValModel)
    requires
        wf_model(m),
        0 <= pos,
        pos + enc_val(m).len() <= bytes.len(),
        bytes.subrange(pos, pos + enc_val(m).len()) == enc_val(m),
    ensures
        dec_at(bytes, pos) == Some((m, pos + enc_val(m).len())),
    decreases m, 0int,
{
    lemma_auto_spec_u64_to_from_le_bytes();
    let e = enc_val(m);
    assert(bytes[pos] == e[0]) by {
        assert(bytes.subrange(pos, pos + e.len())[0] == bytes[pos]);
    }
    match m {
        ValModel::Null => {},
        ValModel::Bool(_) => {},
        ValModel::Int(i) => {
            let w = spec_u64_to_le_bytes(u64_of_i64(i));
            assert(e.subrange(1, 9) =~= w);
            lemma_embed_part(bytes, pos, e, 1, w);
            lemma_i64_u64_round_trip();
            assert(i as i64 as u64 as i64 as int == i);
        },
        ValModel::Text(s) => {
            assert(e.subrange(1, 1 + enc_str(s).len() as int) =~= enc_str(s));
            lemma_embed_part(bytes, pos, e, 1, enc_str(s));
            lemma_dec_enc_str(bytes, pos + 1, s);
        },
        ValModel::List(ms) => {
            let w = spec_u64_to_le_bytes(ms.len() as u64);
            assert(e.subrange(1, 9) =~= w);
            lemma_embed_part(bytes, pos, e, 1, w);
            assert(e.subrange(9, 9 + enc_list(ms).len() as int) =~= enc_list(ms));
            lemma_embed_part(bytes, pos, e, 9, enc_list(ms));
            lemma_dec_enc_list(bytes, pos + 9, ms);
        },
        ValModel::Object(fs) => {
            let w = spec_u64_to_le_bytes(fs.len() as u64);
            assert(e.subrange(1, 9) =~= w);
            lemma_embed_part(bytes, pos, e, 1, w);
            assert(e.subrange(9, 9 + enc_fields(fs).len() as int) =~= enc_fields(fs));
            lemma_embed_part(bytes, pos, e, 9, enc_fields(fs));
            lemma_dec_enc_fields(bytes, pos + 9, fs);
        },
    }
}

/// Decoding at the start of an embedded text encoding yields the text.
pub proof fn lemma_dec_enc_str(bytes: Seq<u8>, pos: int, s: Seq<char>)
    requires
        encode_utf8(s).len() < count_limit(),
        0 <= pos,
        pos + enc_str(s).len() <= bytes.len(),
        bytes.subrange(pos, pos + enc_str(s).len()) == enc_str(s),
    ensures
        dec_str(bytes, pos) == Some((s, pos + enc_str(s).len())),
{
    lemma_auto_spec_u64_to_from_le_bytes();
    broadcast use encode_utf8_valid_utf8;

    let e = enc_str(s);
    let n = encode_utf8(s).len();
    let w = spec_u64_to_le_bytes(n as u64);
    assert(e.subrange(0, 8) =~= w);
    lemma_embed_part(bytes, pos, e, 0, w);
    assert(e.subrange(8, 8 + n as int) =~= encode_utf8(s));
    lemma_embed_part(bytes, pos, e, 8, encode_utf8(s));
    encode_utf8_decode_utf8(s);
}

/// Decoding at the start of embedded encodings of well-formed list elements
/// yields those elements.
pub proof fn lemma_dec_enc_list(bytes: Seq<u8>, pos: int, ms: Seq<ValModel>)
    requires
        wf_list(ms),
        0 <= pos,
        pos + enc_list(ms).len() <= bytes.len(),
        bytes.subrange(pos, pos + enc_list(ms).len()) == enc_list(ms),
    ensures
        dec_list(bytes, pos, ms.len() as int) == Some((ms, pos + enc_list(ms).len())),
    decreases ms, ms.len(),
{
    if ms.len() == 0 {
        assert(ms =~= Seq::<ValModel>::empty());
    } else {
        let e = enc_list(ms);
        let head = ms[0];
        let rest = ms.skip(1);
        let l0 = enc_val(head).len() as int;
        let lr = enc_list(rest).len() as int;
        lemma_enc_val_len(head);
        assert(e.subrange(0, l0) =~= enc_val(head));
        lemma_embed_part(bytes, pos, e, 0, enc_val(head));
        lemma_dec_enc_val(bytes, pos, head);
        let p = pos + l0;
        assert(e.subrange(l0, l0 + lr) =~= enc_list(rest));
        lemma_embed_part(bytes, pos, e, l0, enc_list(rest));
        lemma_dec_enc_list(bytes, p, rest);
        assert(seq![head] + rest =~= ms);
    }
}

/// Decoding at the start of embedded encodings of well-formed object fields
/// yields those fields.
pub proof fn lemma_dec_enc_fields(bytes: Seq<u8>, pos: int, fs: Seq<(Seq<char>, ValModel)>)
    requires
        wf_fields(fs),
        0 <= pos,
        pos + enc_fields(fs).len() <= bytes.len(),
        bytes.subrange(pos, pos + enc_fields(fs).len()) == enc_fields(fs),
    ensures
        dec_fields(bytes, pos, fs.len() as int) == Some((fs, pos + enc_fields(fs).len())),
    decreases fs, fs.len(),
{
    if fs.len() == 0 {
        assert(fs =~= Seq::<(Seq<char>, ValModel)>::empty());
    } else {
        let e = enc_fields(fs);
        let key = fs[0].0;
        let value = fs[0].1;
        let rest = fs.skip(1);
        let lk = enc_str(key).len() as int;
        let lv = enc_val(value).len() as int;
        let lr = enc_fields(rest).len() as int;
        lemma_enc_val_len(value);
        assert(e.subrange(0, lk) =~= enc_str(key));
        lemma_embed_part(bytes, pos, e, 0, enc_str(key));
        lemma_dec_enc_str(bytes, pos, key);
        let kp = pos + lk;
        assert(e.subrange(lk, lk + lv) =~= enc_val(value));
        lemma_embed_part(bytes, pos, e, lk, enc_val(value));
        lemma_dec_enc_val(bytes, kp, value);
        let p = kp + lv;
        assert(e.subrange(lk + lv, lk + lv + lr) =~= enc_fields(rest));
        lemma_embed_part(bytes, pos, e, lk + lv, enc_fields(rest));
        lemma_dec_enc_fields(bytes, p, rest);
        assert(seq![(key, value)] + rest =~= fs);
    }
}

/// Decoding an encoding of a well-formed value yields the value back.
pub proof fn lemma_codec_round_trip(m: ValModel)
    requires
        wf_model(m),
    ensures
        dec_full(enc_val(m)) == Some(m),
{
    let bytes = enc_val(m);
    assert(bytes.subrange(0, enc_val(m).len() as int) =~= enc_val(m));
    lemma_dec_enc_val(bytes, 0, m);
}

/// The decoding of a whole byte string: the value it encodes, provided the
/// encoding fills the string exactly.
pub open spec fn dec_full(bytes: Seq<u8>) -> Option<ValModel> {
    match dec_at(bytes, 0) {
        Some((m, p)) => if p == bytes.len() {
            Some(m)
        } else {
            None
        },
        None => None,
    }
}

/// Appending a list element appends its encoding, and keeps well-formedness
/// in step.
pub proof fn lemma_enc_list_snoc(ms: Seq<ValModel>, m: ValModel)
    ensures
        enc_list(ms.push(m)) == enc_list(ms) + enc_val(m),
        wf_list(ms.push(m)) == (wf_list(ms) && wf_model(m)),
    decreases ms.len(),
{
    if ms.len() == 0 {
        assert(ms.push(m)[0] == m);
        assert(ms.push(m).skip(1) =~= Seq::<ValModel>::empty());
        assert(enc_list(ms.push(m).skip(1)) =~= Seq::<u8>::empty());
        assert(wf_list(Seq::<ValModel>::empty()));
        assert(enc_list(ms.push(m)) =~= enc_list(ms) + enc_val(m));
    } else {
        lemma_enc_list_snoc(ms.skip(1), m);
        assert(ms.push(m).skip(1) =~= ms.skip(1).push(m));
        assert(enc_list(ms.push(m)) =~= enc_list(ms) + enc_val(m));
    }
}

/// Appending an object field appends its encoding, and keeps well-formedness
/// in step.
pub proof fn lemma_enc_fields_snoc(fs: Seq<(Seq<char>, ValModel)>, key: Seq<char>, m: ValModel)
    ensures
        enc_fields(fs.push((key, m))) == enc_fields(fs) + enc_str(key) + enc_val(m),
        wf_fields(fs.push((key, m))) == (wf_fields(fs) && encode_utf8(key).len() < count_limit()
            && wf_model(m)),
    decreases fs.len(),
{
    if fs.len() == 0 {
        assert(fs.push((key, m))[0] == (key, m));
        assert(fs.push((key, m)).skip(1) =~= Seq::<(Seq<char>, ValModel)>::empty());
        assert(enc_fields(fs.push((key, m)).skip(1)) =~= Seq::<u8>::empty());
        assert(wf_fields(Seq::<(Seq<char>, ValModel)>::empty()));
        assert(enc_fields(fs.push((key, m))) =~= enc_fields(fs) + enc_str(key) + enc_val(m));
    } else {
        lemma_enc_fields_snoc(fs.skip(1), key, m);
        assert(fs.push((key, m)).skip(1) =~= fs.skip(1).push((key, m)));
        assert(enc_fields(fs.push((key, m))) =~= enc_fields(fs) + enc_str(key) + enc_val(m));
    }
}

/// Relies on String::from_utf8: yields the string holding exactly the given
/// bytes when they are valid UTF-8, and nothing otherwise.
#[verifier::external_body]
fn string_from_utf8(bytes: Vec<u8>) -> (r: Option<String>)
    ensures
        match r {
            Some(s) => encode_utf8(s@) == bytes@,
            None => !valid_utf8(bytes@),
        },
{
    String::from_utf8(bytes).ok()
}

/// Append the eight-byte little-endian image of `x`.
fn push_u64(out: &mut Vec<u8>, x: u64)
    ensures
        final(out)@ == old(out)@ + spec_u64_to_le_bytes(x),
{
    let mut w = u64_to_le_bytes(x);
    out.append(&mut w);
}

/// Append the encoding of a piece of text.
fn push_str_enc(out: &mut Vec<u8>, s: &str)
    ensures
        final(out)@ == old(out)@ + enc_str(s@),
        encode_utf8(s@).len() < count_limit(),
{
    let mut bs = s.as_bytes_vec();
    push_u64(out, bs.len() as u64);
    out.append(&mut bs);
    proof {
        assert(final(out)@ == old(out)@ + enc_str(s@)) by {
            assert(old(out)@ + spec_u64_to_le_bytes(encode_utf8(s@).len() as u64) + encode_utf8(s@)
                =~= old(out)@ + enc_str(s@));
        }
    }
}

/// Append the encoding of a value.
#[verifier::loop_isolation(false)]
fn encode_val_into(out: &mut Vec<u8>, v: &Value)
    ensures
        final(out)@ == old(out)@ + enc_val(v@),
        wf_model(v@),
    decreases v,
{
    match v {
        Value::Null => {
            out.push(0u8);
            proof {
                assert(old(out)@ + enc_val(v@) =~= old(out)@.push(0u8));
            }
        },
        Value::Bool(b) => {
            if *b {
                out.push(2u8);
            } else {
                out.push(1u8);
            }
            proof {
                assert(old(out)@ + enc_val(v@) =~= old(out)@.push(if *b {
                    2u8
                } else {
                    1u8
                }));
            }
        },
        Value::Int(i) => {
            out.push(3u8);
            push_u64(out, *i as u64);
            proof {
                assert(final(out)@ =~= old(out)@ + enc_val(v@));
            }
        },
        Value::Text(s) => {
            out.push(4u8);
            push_str_enc(out, s.as_str());
            proof {
                assert(final(out)@ =~= old(out)@ + enc_val(v@));
            }
        },
        Value::List(vs) => {
            out.push(5u8);
            push_u64(out, vs.len() as u64);
            let ghost header = old(out)@ + seq![5u8] + spec_u64_to_le_bytes(vs@.len() as u64);
            proof {
                assert(out@ =~= header);
            }
            let n = vs.len();
            let mut i: usize = 0;
            while i < n
                invariant
                    0 <= i <= n,
                    n == vs@.len(),
                    out@ == header + enc_list(list_models(vs@.subrange(0, i as int))),
                    wf_list(list_models(vs@.subrange(0, i as int))),
                decreases n - i,
            {
                let ghost done = list_models(vs@.subrange(0, i as int));
                encode_val_into(out, &vs[i]);
                proof {
                    lemma_list_models_push(vs@.subrange(0, i as int), vs@[i as int]);
                    assert(vs@.subrange(0, i as int).push(vs@[i as int]) =~= vs@.subrange(
                        0,
                        i as int + 1,
                    ));
                    lemma_enc_list_snoc(done, val_model(vs@[i as int]));
                    assert(out@ =~= header + enc_list(list_models(vs@.subrange(0, i as int + 1))));
                }
                i = i + 1;
            }
            proof {
                assert(vs@.subrange(0, n as int) =~= vs@);
                lemma_list_models(vs@);
                assert(out@ =~= old(out)@ + enc_val(v@));
            }
        },
        Value::Object(fs) => {
            out.push(6u8);
            push_u64(out, fs.len() as u64);
            let ghost header = old(out)@ + seq![6u8] + spec_u64_to_le_bytes(fs@.len() as u64);
            proof {
                assert(out@ =~= header);
            }
            let n = fs.len();
            let mut i: usize = 0;
            while i < n
                invariant
                    0 <= i <= n,
                    n == fs@.len(),
                    out@ == header + enc_fields(field_models(fs@.subrange(0, i as int))),
                    wf_fields(field_models(fs@.subrange(0, i as int))),
                decreases n - i,
            {
                let ghost done = field_models(fs@.subrange(0, i as int));
                push_str_enc(out, fs[i].0.as_str());
                encode_val_into(out, &fs[i].1);
                proof {
                    lemma_field_models_push(fs@.subrange(0, i as int), fs@[i as int]);
                    assert(fs@.subrange(0, i as int).push(fs@[i as int]) =~= fs@.subrange(
                        0,
                        i as int + 1,
                    ));
                    lemma_enc_fields_snoc(done, fs@[i as int].0@, val_model(fs@[i as int].1));
                    assert(out@ =~= header + enc_fields(
                        field_models(fs@.subrange(0, i as int + 1)),
                    ));
                }
                i = i + 1;
            }
            proof {
                assert(fs@.subrange(0, n as int) =~= fs@);
                lemma_field_models(fs@);
                assert(out@ =~= old(out)@ + enc_val(v@));
            }
        },
    }
}

/// The encoding of a document value as a byte string.
pub fn encode(v: &Value) -> (r: Vec<u8>)
    ensures
        r@ == enc_val(v@),
        wf_model(v@),
{
    let mut out: Vec<u8> = Vec::new();
    encode_val_into(&mut out, v);
    proof {
        assert(Seq::<u8>::empty() + enc_val(v@) =~= enc_val(v@));
    }
    out
}

/// Read the eight-byte little-endian count at `pos`.
fn read_u64(bytes: &[u8], pos: usize) -> (x: u64)
    requires
        pos + 8 <= bytes@.len(),
    ensures
        x == spec_u64_from_le_bytes(bytes@.subrange(pos as int, pos as int + 8)),
{
    let l = bytes.len();
    u64_from_le_bytes(slice_subrange(bytes, pos, pos + 8))
}

/// Decode the piece of text that starts at `pos`.
fn decode_str_at(bytes: &[u8], pos: usize) -> (r: Option<(String, usize)>)
    ensures
        match r {
            Some((sv, p)) => dec_str(bytes@, pos as int) == Some((sv@, p as int)) && pos < p
                <= bytes@.len(),
            None => dec_str(bytes@, pos as int) is None,
        },
{
    if pos >= bytes.len() || bytes.len() - pos < 8 {
        return None;
    }
    let n64 = read_u64(bytes, pos);
    if n64 > (bytes.len() - pos - 8) as u64 {
        return None;
    }
    let n = n64 as usize;
    let bs = slice_to_vec(slice_subrange(bytes, pos + 8, pos + 8 + n));
    match string_from_utf8(bs) {
        Some(sv) => {
            proof {
                broadcast use encode_utf8_valid_utf8;

                encode_utf8_decode_utf8(sv@);
            }
            Some((sv, pos + 8 + n))
        },
        None => None,
    }
}

/// Decode the value that starts at `pos`.
#[verifier::loop_isolation(false)]
fn decode_at(bytes: &[u8], pos: usize) -> (r: Option<(Value, usize)>)
    ensures
        match r {
            Some((v, p)) => dec_at(bytes@, pos as int) == Some((v@, p as int)) && pos < p
                <= bytes@.len(),
            None => dec_at(bytes@, pos as int) is None,
        },
    decreases bytes@.len() - pos, 0int, 0int,
{
    if pos >= bytes.len() {
        return None;
    }
    let tag = bytes[pos];
    if tag == 0 {
        Some((Value::Null, pos + 1))
    } else if tag == 1 {
        Some((Value::Bool(false), pos + 1))
    } else if tag == 2 {
        Some((Value::Bool(true), pos + 1))
    } else if tag == 3 {
        if bytes.len() - pos >= 9 {
            let x = read_u64(bytes, pos + 1);
            Some((Value::Int(x as i64), pos + 9))
        } else {
            None
        }
    } else if tag == 4 {
        match decode_str_at(bytes, pos + 1) {
            Some((sv, p)) => Some((Value::Text(sv), p)),
            None => None,
        }
    } else if tag == 5 {
        if bytes.len() - pos >= 9 {
            let n = read_u64(bytes, pos + 1);
            match decode_list_at(bytes, pos + 9, n) {
                Some((vs, p)) => Some((Value::List(vs), p)),
                None => None,
            }
        } else {
            None
        }
    } else if tag == 6 {
        if bytes.len() - pos >= 9 {
            let n = read_u64(bytes, pos + 1);
            match decode_fields_at(bytes, pos + 9, n) {
                Some((fs, p)) => Some((Value::Object(fs), p)),
                None => None,
            }
        } else {
            None
        }
    } else {
        None
    }
}

/// Decode `count` consecutive values starting at `pos`.
#[verifier::loop_isolation(false)]
fn decode_list_at(bytes: &[u8], pos: usize, count: u64) -> (r: Option<(Vec<Value>, usize)>)
    requires
        pos <= bytes@.len(),
    ensures
        match r {
            Some((vs, p)) => dec_list(bytes@, pos as int, count as int) == Some(
                (list_models(vs@), p as int),
            ) && pos <= p <= bytes@.len(),
            None => dec_list(bytes@, pos as int, count as int) is None,
        },
    decreases bytes@.len() - pos, 1int, count,
{
    let mut out: Vec<Value> = Vec::new();
    let mut cur = pos;
    let mut i: u64 = 0;
    while i < count
        invariant
            0 <= i <= count,
            pos <= cur <= bytes@.len(),
            list_models(out@).len() == i,
            dec_list(bytes@, pos as int, count as int) == match dec_list(
                bytes@,
                cur as int,
                (count - i) as int,
            ) {
                Some((ms, q)) => Some((list_models(out@) + ms, q)),
                None => None::<(Seq<ValModel>, int)>,
            },
        decreases count - i,
    {
        match decode_at(bytes, cur) {
            Some((v, p)) => {
                proof {
                    lemma_list_models_push(out@, v);
                    lemma_list_models(out@);
                }
                let ghost ms_done = list_models(out@);
                out.push(v);
                proof {
                    assert(list_models(out@) =~= ms_done.push(val_model(v)));
                    assert forall|ms2: Seq<ValModel>| true implies ms_done.push(val_model(v)) + ms2
                        =~= ms_done + (seq![val_model(v)] + ms2) by {}
                }
                cur = p;
            },
            None => {
                return None;
            },
        }
        i = i + 1;
    }
    Some((out, cur))
}

/// Decode `count` consecutive object fields starting at `pos`.
#[verifier::loop_isolation(false)]
fn decode_fields_at(bytes: &[u8], pos: usize, count: u64) -> (r: Option<
    (Vec<(String, Value)>, usize),
>)
    requires
        pos <= bytes@.len(),
    ensures
        match r {
            Some((fs, p)) => dec_fields(bytes@, pos as int, count as int) == Some(
                (field_models(fs@), p as int),
            ) && pos <= p <= bytes@.len(),
            None => dec_fields(bytes@, pos as int, count as int) is None,
        },
    decreases bytes@.len() - pos, 1int, count,
{
    let mut out: Vec<(String, Value)> = Vec::new();
    let mut cur = pos;
    let mut i: u64 = 0;
    while i < count
        invariant
            0 <= i <= count,
            pos <= cur <= bytes@.len(),
            field_models(out@).len() == i,
            dec_fields(bytes@, pos as int, count as int) == match dec_fields(
                bytes@,
                cur as int,
                (count - i) as int,
            ) {
                Some((ms, q)) => Some((field_models(out@) + ms, q)),
                None => None::<(Seq<(Seq<char>, ValModel)>, int)>,
            },
        decreases count - i,
    {
        match decode_str_at(bytes, cur) {
            Some((key, kp)) => {
                if kp >= bytes.len() {
                    return None;
                }
                match decode_at(bytes, kp) {
                    Some((v, p)) => {
                        proof {
                            lemma_field_models_push(out@, (key, v));
                            lemma_field_models(out@);
                        }
                        let ghost fs_done = field_models(out@);
                        let ghost key_m = key@;
                        out.push((key, v));
                        proof {
                            assert(field_models(out@) =~= fs_done.push((key_m, val_model(v))));
                            assert forall|ms2: Seq<(Seq<char>, ValModel)>| true implies fs_done.push(
                                (key_m, val_model(v)),
                            ) + ms2 =~= fs_done + (seq![(key_m, val_model(v))] + ms2) by {}
                        }
                        cur = p;
                    },
                    None => {
                        return None;
                    },
                }
            },
            None => {
                return None;
            },
        }
        i = i + 1;
    }
    Some((out, cur))
}

/// Decode a whole byte string into the document value it encodes; `None`
/// when the bytes are not exactly one encoding.
pub fn decode(bytes: &Vec<u8>) -> (r: Option<Value>)
    ensures
        match r {
            Some(v) => dec_full(bytes@) == Some(v@),
            None => dec_full(bytes@) is None,
        },
{
    match decode_at(bytes.as_slice(), 0) {
        Some((v, p)) => {
            if p == bytes.len() {
                Some(v)
            } else {
                None
            }
        },
        None => None,
    }
}

} // verus!
