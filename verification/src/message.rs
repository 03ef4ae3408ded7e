//! Whole messages: a layout (`Schema`) describes a type field by field, a
//! `Value` is a value of such a type, and a message is the data region of
//! all fields followed by the bit-packed region of all fields, written in
//! field order and shared by nested values.
use vstd::prelude::*;
use vstd::utf8::encode_utf8;

use crate::bits::{
    bits_to_u64, encodes_bits, low_bits, stream_bit, stream_bits, lemma_low_bits_value,
    lemma_low_mask_small,
};
use crate::codec::{
    be_bytes, bytes_field, is_len_bytes, pow256, read_bytes_spec, read_len_prefix_spec,
    read_raw_spec, read_string_spec, read_uint_spec, string_field, tag_of, MAX_DECODE_LEN,
    lemma_be_bytes_len,
};
use crate::laws::{
    lemma_bit_region_after_data, lemma_bytes_roundtrip, lemma_string_roundtrip,
    lemma_uint_roundtrip,
};
use crate::codec::{
    read_bytes, read_len_prefix, read_raw, read_string, read_tag, read_uint, write_bytes,
    write_len_prefix, write_raw, write_string, write_uint,
};
use crate::decode_helper::DecodeHelper;
use crate::encode_helper::EncodeHelper;
use crate::error::DecodeError;

verus! {

/// The layout of a type, field by field.
#[derive(Debug)]
pub enum Schema {
    /// A `bool`: one bit.
    Bool,
    /// An integer packed into its lowest `n` bits.
    Bits { n: usize },
    /// An integer as `width` big-endian bytes.
    Uint { width: usize },
    /// A string with a `len_bytes`-byte length prefix.
    Str { len_bytes: usize },
    /// A byte vector with a `len_bytes`-byte length prefix.
    Bytes { len_bytes: usize },
    /// A byte array of `size` bytes.
    Raw { size: usize },
    /// An `Option`: a presence bit, then the value when present.
    Optional { inner: Box<Schema> },
    /// A vector: a `len_bytes`-byte element count, then the elements.
    List { len_bytes: usize, item: Box<Schema> },
    /// No fields.
    Unit,
    /// A field followed by the remaining fields.
    Pair { first: Box<Schema>, rest: Box<Schema> },
    /// An enum: a tag of `tag_bits` bits numbering the variant, then the
    /// fields of that variant.
    Enum { tag_bits: usize, variants: Box<Alternatives> },
}

/// The variants of an enum, in declaration order (the first has tag 0).
#[derive(Debug)]
pub enum Alternatives {
    End,
    Alt { fields: Box<Schema>, rest: Box<Alternatives> },
}

/// A value laid out by a [`Schema`].
#[derive(Debug)]
pub enum Value {
    Bool(bool),
    Bits(u64),
    Uint(u128),
    Str(String),
    Bytes(Vec<u8>),
    Raw(Vec<u8>),
    /// An absent optional value.
    Absent,
    /// A present optional value.
    Present(Box<Value>),
    /// The end of a list of elements.
    Nil,
    /// An element followed by the rest of a list.
    Cons(Box<Value>, Box<Value>),
    /// No fields.
    Unit,
    /// A field followed by the remaining fields.
    Pair(Box<Value>, Box<Value>),
    /// The variant with the given tag and its fields.
    Variant(u8, Box<Value>),
}

/// A [`Value`] with its strings and byte vectors taken as sequences.
pub enum ValueModel {
    Bool(bool),
    Bits(u64),
    Uint(u128),
    Str(Seq<char>),
    Bytes(Seq<u8>),
    Raw(Seq<u8>),
    Absent,
    Present(Box<ValueModel>),
    Nil,
    Cons(Box<ValueModel>, Box<ValueModel>),
    Unit,
    Pair(Box<ValueModel>, Box<ValueModel>),
    Variant(u8, Box<ValueModel>),
}

/// The model of a value.
pub open spec fn value_model(v: Value) -> ValueModel
    decreases v,
{
    match v {
        Value::Bool(b) => ValueModel::Bool(b),
        Value::Bits(x) => ValueModel::Bits(x),
        Value::Uint(x) => ValueModel::Uint(x),
        Value::Str(s) => ValueModel::Str(s@),
        Value::Bytes(b) => ValueModel::Bytes(b@),
        Value::Raw(b) => ValueModel::Raw(b@),
        Value::Absent => ValueModel::Absent,
        Value::Present(x) => ValueModel::Present(Box::new(value_model(*x))),
        Value::Nil => ValueModel::Nil,
        Value::Cons(h, t) => ValueModel::Cons(Box::new(value_model(*h)), Box::new(value_model(*t))),
        Value::Unit => ValueModel::Unit,
        Value::Pair(a, b) => ValueModel::Pair(Box::new(value_model(*a)), Box::new(value_model(*b))),
        Value::Variant(t, f) => ValueModel::Variant(t, Box::new(value_model(*f))),
    }
}

impl View for Value {
    type V = ValueModel;

    open spec fn view(&self) -> ValueModel {
        value_model(*self)
    }
}

/// The number of variants.
pub open spec fn alts_len(a: Alternatives) -> nat
    decreases a,
{
    match a {
        Alternatives::End => 0,
        Alternatives::Alt { fields: _, rest } => 1 + alts_len(*rest),
    }
}

/// The number of elements of a list value.
pub open spec fn list_len(l: ValueModel) -> nat
    decreases l,
{
    match l {
        ValueModel::Cons(_, t) => 1 + list_len(*t),
        _ => 0,
    }
}

// ---------------------------------------------------------------------------
// Which values a layout can encode.

/// Whether `v` has the shape of `s` and can be encoded: prefixes hold the
/// lengths, arrays have their size, tags number a variant, bit widths are at
/// most 64. With `strict`, also what decoding needs to give `v` back: packed
/// integers and tags fit their widths, and lengths stay within
/// [`MAX_DECODE_LEN`].
pub open spec fn conforms(s: Schema, v: ValueModel, strict: bool) -> bool
    decreases v, 2nat, 0nat,
{
    match s {
        Schema::Bool => v is Bool,
        Schema::Bits { n } => match v {
            ValueModel::Bits(x) => n <= 64 && (strict ==> (n == 64 || x < (1u64 << n as u64))),
            _ => false,
        },
        Schema::Uint { width } => match v {
            ValueModel::Uint(x) => width <= 16 && (strict ==> x < pow256(width as nat)),
            _ => false,
        },
        Schema::Str { len_bytes } => match v {
            ValueModel::Str(c) => is_len_bytes(len_bytes as nat) && encode_utf8(c).len() < pow256(
                len_bytes as nat,
            ) && (strict ==> encode_utf8(c).len() <= MAX_DECODE_LEN),
            _ => false,
        },
        Schema::Bytes { len_bytes } => match v {
            ValueModel::Bytes(b) => is_len_bytes(len_bytes as nat) && b.len() < pow256(
                len_bytes as nat,
            ) && (strict ==> b.len() <= MAX_DECODE_LEN),
            _ => false,
        },
        Schema::Raw { size } => match v {
            ValueModel::Raw(b) => b.len() == size,
            _ => false,
        },
        Schema::Optional { inner } => match v {
            ValueModel::Absent => true,
            ValueModel::Present(x) => conforms(*inner, *x, strict),
            _ => false,
        },
        Schema::List { len_bytes, item } => is_len_bytes(len_bytes as nat) && list_len(v) < pow256(
            len_bytes as nat,
        ) && (strict ==> list_len(v) <= MAX_DECODE_LEN) && items_conform(*item, v, strict),
        Schema::Unit => v is Unit,
        Schema::Pair { first, rest } => match v {
            ValueModel::Pair(a, b) => conforms(*first, *a, strict) && conforms(*rest, *b, strict),
            _ => false,
        },
        Schema::Enum { tag_bits, variants } => match v {
            ValueModel::Variant(t, f) => tag_bits <= 64 && (t as nat) < alts_len(*variants) && (strict
                ==> (tag_bits == 64 || (t as u64) < (1u64 << tag_bits as u64))) && variant_conforms(
                *variants,
                t as nat,
                *f,
                strict,
            ),
            _ => false,
        },
    }
}

/// Whether every element of the list value `l` conforms to `item`.
pub open spec fn items_conform(item: Schema, l: ValueModel, strict: bool) -> bool
    decreases l, 1nat, 0nat,
{
    match l {
        ValueModel::Nil => true,
        ValueModel::Cons(h, t) => conforms(item, *h, strict) && items_conform(item, *t, strict),
        _ => false,
    }
}

/// Whether `f` conforms to the fields of variant `t`.
pub open spec fn variant_conforms(a: Alternatives, t: nat, f: ValueModel, strict: bool) -> bool
    decreases f, 3nat, alts_len(a),
{
    match a {
        Alternatives::End => false,
        Alternatives::Alt { fields, rest } => if t == 0 {
            conforms(*fields, f, strict)
        } else {
            variant_conforms(*rest, (t - 1) as nat, f, strict)
        },
    }
}

// ---------------------------------------------------------------------------
// Encoding.

/// The data-region bytes and the bit-stream bits of `v` laid out by `s`.
pub open spec fn enc(s: Schema, v: ValueModel) -> (Seq<u8>, Seq<bool>)
    decreases v, 2nat, 0nat,
{
    match s {
        Schema::Bool => match v {
            ValueModel::Bool(b) => (Seq::empty(), seq![b]),
            _ => (Seq::empty(), Seq::empty()),
        },
        Schema::Bits { n } => match v {
            ValueModel::Bits(x) => (Seq::empty(), low_bits(x, n as nat)),
            _ => (Seq::empty(), Seq::empty()),
        },
        Schema::Uint { width } => match v {
            ValueModel::Uint(x) => (be_bytes(x as nat, width as nat), Seq::empty()),
            _ => (Seq::empty(), Seq::empty()),
        },
        Schema::Str { len_bytes } => match v {
            ValueModel::Str(c) => (string_field(c, len_bytes as nat), Seq::empty()),
            _ => (Seq::empty(), Seq::empty()),
        },
        Schema::Bytes { len_bytes } => match v {
            ValueModel::Bytes(b) => (bytes_field(b, len_bytes as nat), Seq::empty()),
            _ => (Seq::empty(), Seq::empty()),
        },
        Schema::Raw { size: _ } => match v {
            ValueModel::Raw(b) => (b, Seq::empty()),
            _ => (Seq::empty(), Seq::empty()),
        },
        Schema::Optional { inner } => match v {
            ValueModel::Present(x) => {
                let e = enc(*inner, *x);
                (e.0, seq![true] + e.1)
            },
            _ => (Seq::empty(), seq![false]),
        },
        Schema::List { len_bytes, item } => {
            let e = enc_items(*item, v);
            (be_bytes(list_len(v), len_bytes as nat) + e.0, e.1)
        },
        Schema::Unit => (Seq::empty(), Seq::empty()),
        Schema::Pair { first, rest } => match v {
            ValueModel::Pair(a, b) => {
                let e1 = enc(*first, *a);
                let e2 = enc(*rest, *b);
                (e1.0 + e2.0, e1.1 + e2.1)
            },
            _ => (Seq::empty(), Seq::empty()),
        },
        Schema::Enum { tag_bits, variants } => match v {
            ValueModel::Variant(t, f) => {
                let e = enc_variant(*variants, t as nat, *f);
                (e.0, low_bits(t as u64, tag_bits as nat) + e.1)
            },
            _ => (Seq::empty(), Seq::empty()),
        },
    }
}

/// The elements of a list value, one after the other.
pub open spec fn enc_items(item: Schema, l: ValueModel) -> (Seq<u8>, Seq<bool>)
    decreases l, 1nat, 0nat,
{
    match l {
        ValueModel::Cons(h, t) => {
            let e1 = enc(item, *h);
            let e2 = enc_items(item, *t);
            (e1.0 + e2.0, e1.1 + e2.1)
        },
        _ => (Seq::empty(), Seq::empty()),
    }
}

/// The fields of variant `t`.
pub open spec fn enc_variant(a: Alternatives, t: nat, f: ValueModel) -> (Seq<u8>, Seq<bool>)
    decreases f, 3nat, alts_len(a),
{
    match a {
        Alternatives::End => (Seq::empty(), Seq::empty()),
        Alternatives::Alt { fields, rest } => if t == 0 {
            enc(*fields, f)
        } else {
            enc_variant(*rest, (t - 1) as nat, f)
        },
    }
}

/// A whole message: the data region of the value, then the bit-packed
/// region of `reserve_bits` zero bits followed by the bits of the value.
pub open spec fn message_bits(s: Schema, reserve_bits: nat, v: ValueModel) -> Seq<bool> {
    Seq::new(reserve_bits, |i: int| false) + enc(s, v).1
}

// ---------------------------------------------------------------------------
// Decoding.

/// Decoding `s` from the message `msg`, with the data cursor at `idx` and
/// the bit cursor at `pos`: the value and both cursors after it.
pub open spec fn dec(s: Schema, msg: Seq<u8>, idx: int, pos: int) -> Result<
    (ValueModel, int, int),
    DecodeError,
>
    decreases s, 0nat,
{
    match s {
        Schema::Bool => if pos >= 8 * msg.len() {
            Err(DecodeError::UnexpectedEof)
        } else {
            Ok((ValueModel::Bool(stream_bit(msg, pos)), idx, pos + 1))
        },
        Schema::Bits { n } => if pos + n > 8 * msg.len() {
            Err(DecodeError::UnexpectedEof)
        } else {
            Ok((ValueModel::Bits(bits_to_u64(stream_bits(msg, pos, n as nat))), idx, pos + n))
        },
        Schema::Uint { width } => match read_uint_spec(msg, idx, width as nat) {
            Ok((x, j)) => Ok((ValueModel::Uint(x as u128), j, pos)),
            Err(e) => Err(e),
        },
        Schema::Str { len_bytes } => match read_string_spec(msg, idx, len_bytes as nat) {
            Ok((c, j)) => Ok((ValueModel::Str(c), j, pos)),
            Err(e) => Err(e),
        },
        Schema::Bytes { len_bytes } => match read_bytes_spec(msg, idx, len_bytes as nat) {
            Ok((b, j)) => Ok((ValueModel::Bytes(b), j, pos)),
            Err(e) => Err(e),
        },
        Schema::Raw { size } => match read_raw_spec(msg, idx, size as nat) {
            Ok((b, j)) => Ok((ValueModel::Raw(b), j, pos)),
            Err(e) => Err(e),
        },
        Schema::Optional { inner } => if pos >= 8 * msg.len() {
            Err(DecodeError::UnexpectedEof)
        } else if stream_bit(msg, pos) {
            match dec(*inner, msg, idx, pos + 1) {
                Ok((x, j, p)) => Ok((ValueModel::Present(Box::new(x)), j, p)),
                Err(e) => Err(e),
            }
        } else {
            Ok((ValueModel::Absent, idx, pos + 1))
        },
        Schema::List { len_bytes, item } => match read_len_prefix_spec(msg, idx, len_bytes as nat) {
            Ok((n, j)) => dec_items(*item, n, msg, j, pos),
            Err(e) => Err(e),
        },
        Schema::Unit => Ok((ValueModel::Unit, idx, pos)),
        Schema::Pair { first, rest } => match dec(*first, msg, idx, pos) {
            Ok((a, j, p)) => match dec(*rest, msg, j, p) {
                Ok((b, k, q)) => Ok((ValueModel::Pair(Box::new(a), Box::new(b)), k, q)),
                Err(e) => Err(e),
            },
            Err(e) => Err(e),
        },
        Schema::Enum { tag_bits, variants } => if pos + tag_bits > 8 * msg.len() {
            Err(DecodeError::UnexpectedEof)
        } else {
            let t = tag_of(msg, pos, tag_bits as nat);
            if (t as nat) < alts_len(*variants) {
                match dec_variant(*variants, t as nat, msg, idx, pos + tag_bits) {
                    Ok((f, j, p)) => Ok((ValueModel::Variant(t, Box::new(f)), j, p)),
                    Err(e) => Err(e),
                }
            } else {
                Err(DecodeError::UnknownTag(t))
            }
        },
    }
}

/// Decoding `n` elements of `item` one after the other.
pub open spec fn dec_items(item: Schema, n: nat, msg: Seq<u8>, idx: int, pos: int) -> Result<
    (ValueModel, int, int),
    DecodeError,
>
    decreases item, n + 1,
{
    if n == 0 {
        Ok((ValueModel::Nil, idx, pos))
    } else {
        match dec(item, msg, idx, pos) {
            Ok((h, j, p)) => match dec_items(item, (n - 1) as nat, msg, j, p) {
                Ok((t, k, q)) => Ok((ValueModel::Cons(Box::new(h), Box::new(t)), k, q)),
                Err(e) => Err(e),
            },
            Err(e) => Err(e),
        }
    }
}

/// Decoding the fields of variant `t`.
pub open spec fn dec_variant(a: Alternatives, t: nat, msg: Seq<u8>, idx: int, pos: int) -> Result<
    (ValueModel, int, int),
    DecodeError,
>
    decreases a, 0nat,
{
    match a {
        Alternatives::End => Err(DecodeError::UnknownTag((t % 256) as u8)),
        Alternatives::Alt { fields, rest } => if t == 0 {
            dec(*fields, msg, idx, pos)
        } else {
            dec_variant(*rest, (t - 1) as nat, msg, idx, pos)
        },
    }
}

/// Decoding a whole message: skip `reserve_bits` bits, then decode `s`
/// with the data cursor at the start of the message.
pub open spec fn dec_message(s: Schema, reserve_bits: nat, msg: Seq<u8>) -> Result<
    ValueModel,
    DecodeError,
> {
    match dec(s, msg, 0, reserve_bits as int) {
        Ok((v, _, _)) => Ok(v),
        Err(e) => Err(e),
    }
}

// ---------------------------------------------------------------------------
// Decoding gives back what encoding wrote.

/// Where the data bytes `d` stand at `idx` and the bits `t` at `pos`.
pub open spec fn placed(msg: Seq<u8>, idx: int, d: Seq<u8>, pos: int, t: Seq<bool>) -> bool {
    &&& 0 <= idx
    &&& idx + d.len() <= msg.len()
    &&& msg.subrange(idx, idx + d.len()) == d
    &&& 0 <= pos
    &&& pos + t.len() <= 8 * msg.len()
    &&& stream_bits(msg, pos, t.len()) == t
}

/// Two consecutive pieces placed together are each placed.
proof fn lemma_placed_split(
    msg: Seq<u8>,
    idx: int,
    d1: Seq<u8>,
    d2: Seq<u8>,
    pos: int,
    t1: Seq<bool>,
    t2: Seq<bool>,
)
    requires
        placed(msg, idx, d1 + d2, pos, t1 + t2),
    ensures
        placed(msg, idx, d1, pos, t1),
        placed(msg, idx + d1.len(), d2, pos + t1.len(), t2),
{
    let d = d1 + d2;
    let t = t1 + t2;
    assert(msg.subrange(idx, idx + d1.len()) =~= d.subrange(0, d1.len() as int));
    assert(d.subrange(0, d1.len() as int) =~= d1);
    assert(msg.subrange(idx + d1.len(), idx + d1.len() + d2.len()) =~= d.subrange(
        d1.len() as int,
        d.len() as int,
    ));
    assert(d.subrange(d1.len() as int, d.len() as int) =~= d2);
    assert(stream_bits(msg, pos, t1.len()) =~= t1) by {
        assert forall|i: int| 0 <= i < t1.len() implies #[trigger] stream_bits(msg, pos, t1.len())[i]
            == t1[i] by {
            assert(stream_bits(msg, pos, t.len())[i] == t[i]);
        }
    }
    assert(stream_bits(msg, pos + t1.len(), t2.len()) =~= t2) by {
        assert forall|i: int| 0 <= i < t2.len() implies #[trigger] stream_bits(
            msg,
            pos + t1.len(),
            t2.len(),
        )[i] == t2[i] by {
            assert(stream_bits(msg, pos, t.len())[t1.len() + i] == t[t1.len() + i]);
        }
    }
}

/// The message around a piece placed at `idx`.
proof fn lemma_around(msg: Seq<u8>, idx: int, d: Seq<u8>)
    requires
        0 <= idx,
        idx + d.len() <= msg.len(),
        msg.subrange(idx, idx + d.len()) == d,
    ensures
        msg == msg.subrange(0, idx) + d + msg.subrange(idx + d.len(), msg.len() as int),
{
    assert(msg =~= msg.subrange(0, idx) + d + msg.subrange(idx + d.len(), msg.len() as int));
}

/// Decoding `s` where the encoding of a conforming `v` is placed gives `v`
/// back, with both cursors moved past it.
pub proof fn lemma_dec_enc(s: Schema, v: ValueModel, msg: Seq<u8>, idx: int, pos: int)
    requires
        conforms(s, v, true),
        placed(msg, idx, enc(s, v).0, pos, enc(s, v).1),
    ensures
        dec(s, msg, idx, pos) == Ok::<(ValueModel, int, int), DecodeError>(
            (v, idx + enc(s, v).0.len(), pos + enc(s, v).1.len()),
        ),
    decreases v, 2nat, 1nat,
{
    match s {
        Schema::Optional { .. } => lemma_dec_enc_optional(s, v, msg, idx, pos),
        Schema::List { .. } => lemma_dec_enc_list(s, v, msg, idx, pos),
        Schema::Pair { .. } => lemma_dec_enc_pair(s, v, msg, idx, pos),
        Schema::Enum { .. } => lemma_dec_enc_enum(s, v, msg, idx, pos),
        _ => lemma_dec_enc_leaf(s, v, msg, idx, pos),
    }
}

/// The round trip of an optional value.
proof fn lemma_dec_enc_optional(s: Schema, v: ValueModel, msg: Seq<u8>, idx: int, pos: int)
    requires
        conforms(s, v, true),
        placed(msg, idx, enc(s, v).0, pos, enc(s, v).1),
        s is Optional,
    ensures
        dec(s, msg, idx, pos) == Ok::<(ValueModel, int, int), DecodeError>(
            (v, idx + enc(s, v).0.len(), pos + enc(s, v).1.len()),
        ),
    decreases v, 2nat, 0nat,
{
    let d = enc(s, v).0;
    let t = enc(s, v).1;
    if let Schema::Optional { inner } = s {
        match v {
            ValueModel::Present(x) => {
                let e = enc(*inner, *x);
                assert(t =~= seq![true] + e.1);
                assert(d =~= Seq::<u8>::empty() + e.0);
                lemma_placed_split(msg, idx, Seq::empty(), e.0, pos, seq![true], e.1);
                assert(stream_bits(msg, pos, 1)[0] == true);
                lemma_dec_enc(*inner, *x, msg, idx, pos + 1);
            },
            _ => {
                assert(stream_bits(msg, pos, 1)[0] == false);
            },
        }
    }
}

/// The round trip of a list value.
proof fn lemma_dec_enc_list(s: Schema, v: ValueModel, msg: Seq<u8>, idx: int, pos: int)
    requires
        conforms(s, v, true),
        placed(msg, idx, enc(s, v).0, pos, enc(s, v).1),
        s is List,
    ensures
        dec(s, msg, idx, pos) == Ok::<(ValueModel, int, int), DecodeError>(
            (v, idx + enc(s, v).0.len(), pos + enc(s, v).1.len()),
        ),
    decreases v, 2nat, 0nat,
{
    let t = enc(s, v).1;
    if let Schema::List { len_bytes, item } = s {
        let n = list_len(v);
        let e = enc_items(*item, v);
        lemma_be_bytes_len(n, len_bytes as nat);
        assert(t =~= Seq::<bool>::empty() + e.1);
        lemma_placed_split(msg, idx, be_bytes(n, len_bytes as nat), e.0, pos, Seq::empty(), e.1);
        lemma_around(msg, idx, be_bytes(n, len_bytes as nat));
        lemma_uint_roundtrip(
            msg.subrange(0, idx),
            n,
            len_bytes as nat,
            msg.subrange(idx + len_bytes, msg.len() as int),
        );
        lemma_dec_items(*item, v, msg, idx + len_bytes, pos);
    }
}

/// The round trip of a field followed by the remaining fields.
proof fn lemma_dec_enc_pair(s: Schema, v: ValueModel, msg: Seq<u8>, idx: int, pos: int)
    requires
        conforms(s, v, true),
        placed(msg, idx, enc(s, v).0, pos, enc(s, v).1),
        s is Pair,
    ensures
        dec(s, msg, idx, pos) == Ok::<(ValueModel, int, int), DecodeError>(
            (v, idx + enc(s, v).0.len(), pos + enc(s, v).1.len()),
        ),
    decreases v, 2nat, 0nat,
{
    if let Schema::Pair { first, rest } = s {
        if let ValueModel::Pair(a, b) = v {
            let e1 = enc(*first, *a);
            let e2 = enc(*rest, *b);
            lemma_placed_split(msg, idx, e1.0, e2.0, pos, e1.1, e2.1);
            lemma_dec_enc(*first, *a, msg, idx, pos);
            lemma_dec_enc(*rest, *b, msg, idx + e1.0.len(), pos + e1.1.len());
        }
    }
}

/// The round trip of an enum value: its tag, then its variant's fields.
proof fn lemma_dec_enc_enum(s: Schema, v: ValueModel, msg: Seq<u8>, idx: int, pos: int)
    requires
        conforms(s, v, true),
        placed(msg, idx, enc(s, v).0, pos, enc(s, v).1),
        s is Enum,
    ensures
        dec(s, msg, idx, pos) == Ok::<(ValueModel, int, int), DecodeError>(
            (v, idx + enc(s, v).0.len(), pos + enc(s, v).1.len()),
        ),
    decreases v, 2nat, 0nat,
{
    let d = enc(s, v).0;
    if let Schema::Enum { tag_bits, variants } = s {
        if let ValueModel::Variant(tg, f) = v {
            let e = enc_variant(*variants, tg as nat, *f);
            let tb = low_bits(tg as u64, tag_bits as nat);
            assert(d =~= Seq::<u8>::empty() + e.0);
            lemma_placed_split(msg, idx, Seq::empty(), e.0, pos, tb, e.1);
            lemma_low_bits_value(tg as u64, tag_bits as nat);
            lemma_low_mask_small(tg as u64, tag_bits as u64);
            assert(tag_of(msg, pos, tag_bits as nat) == tg);
            lemma_dec_variant(*variants, tg as nat, *f, msg, idx, pos + tag_bits);
        }
    }
}

/// Decoding a leaf layout (no nested layout inside) where the encoding of a
/// conforming `v` is placed gives `v` back.
proof fn lemma_dec_enc_leaf(s: Schema, v: ValueModel, msg: Seq<u8>, idx: int, pos: int)
    requires
        conforms(s, v, true),
        placed(msg, idx, enc(s, v).0, pos, enc(s, v).1),
        !(s is Optional || s is List || s is Pair || s is Enum),
    ensures
        dec(s, msg, idx, pos) == Ok::<(ValueModel, int, int), DecodeError>(
            (v, idx + enc(s, v).0.len(), pos + enc(s, v).1.len()),
        ),
{
    let d = enc(s, v).0;
    let t = enc(s, v).1;
    match s {
        Schema::Bool => {
            assert(stream_bits(msg, pos, 1)[0] == t[0]);
        },
        Schema::Bits { n } => {
            if let ValueModel::Bits(x) = v {
                lemma_low_bits_value(x, n as nat);
                lemma_low_mask_small(x, n as u64);
            }
        },
        Schema::Uint { width } => {
            if let ValueModel::Uint(x) = v {
                lemma_around(msg, idx, d);
                lemma_uint_roundtrip(
                    msg.subrange(0, idx),
                    x as nat,
                    width as nat,
                    msg.subrange(idx + d.len(), msg.len() as int),
                );
                lemma_be_bytes_len(x as nat, width as nat);
            }
        },
        Schema::Str { len_bytes } => {
            if let ValueModel::Str(c) = v {
                lemma_around(msg, idx, d);
                lemma_string_roundtrip(
                    msg.subrange(0, idx),
                    c,
                    len_bytes as nat,
                    msg.subrange(idx + d.len(), msg.len() as int),
                );
                lemma_be_bytes_len(encode_utf8(c).len(), len_bytes as nat);
            }
        },
        Schema::Bytes { len_bytes } => {
            if let ValueModel::Bytes(b) = v {
                lemma_around(msg, idx, d);
                lemma_bytes_roundtrip(
                    msg.subrange(0, idx),
                    b,
                    len_bytes as nat,
                    msg.subrange(idx + d.len(), msg.len() as int),
                );
                lemma_be_bytes_len(b.len(), len_bytes as nat);
            }
        },
        _ => {},
    }
}

/// Decoding the elements of a conforming list value where they are placed
/// gives them back.
proof fn lemma_dec_items(item: Schema, l: ValueModel, msg: Seq<u8>, idx: int, pos: int)
    requires
        items_conform(item, l, true),
        placed(msg, idx, enc_items(item, l).0, pos, enc_items(item, l).1),
    ensures
        dec_items(item, list_len(l), msg, idx, pos) == Ok::<(ValueModel, int, int), DecodeError>(
            (l, idx + enc_items(item, l).0.len(), pos + enc_items(item, l).1.len()),
        ),
    decreases l, 1nat, 0nat,
{
    if let ValueModel::Cons(h, tl) = l {
        let e1 = enc(item, *h);
        let e2 = enc_items(item, *tl);
        lemma_placed_split(msg, idx, e1.0, e2.0, pos, e1.1, e2.1);
        lemma_dec_enc(item, *h, msg, idx, pos);
        lemma_dec_items(item, *tl, msg, idx + e1.0.len(), pos + e1.1.len());
    }
}

/// Decoding the fields of variant `t` where they are placed gives them back.
proof fn lemma_dec_variant(a: Alternatives, t: nat, f: ValueModel, msg: Seq<u8>, idx: int, pos: int)
    requires
        variant_conforms(a, t, f, true),
        placed(msg, idx, enc_variant(a, t, f).0, pos, enc_variant(a, t, f).1),
    ensures
        dec_variant(a, t, msg, idx, pos) == Ok::<(ValueModel, int, int), DecodeError>(
            (f, idx + enc_variant(a, t, f).0.len(), pos + enc_variant(a, t, f).1.len()),
        ),
    decreases f, 3nat, alts_len(a),
{
    if let Alternatives::Alt { fields, rest } = a {
        if t == 0 {
            lemma_dec_enc(*fields, f, msg, idx, pos);
        } else {
            lemma_dec_variant(*rest, (t - 1) as nat, f, msg, idx, pos);
        }
    }
}

/// A whole message decodes to the value it was encoded from: its data
/// region at the front, its bit-packed region (the reserved zero bits, then
/// the bits of the value) at the back.
pub proof fn lemma_message_roundtrip(
    s: Schema,
    reserve_bits: nat,
    v: ValueModel,
    region: Seq<u8>,
)
    requires
        conforms(s, v, true),
        encodes_bits(region, message_bits(s, reserve_bits, v)),
    ensures
        dec_message(s, reserve_bits, enc(s, v).0 + region) == Ok::<ValueModel, DecodeError>(v),
{
    let d = enc(s, v).0;
    let t = enc(s, v).1;
    let bits = message_bits(s, reserve_bits, v);
    let msg = d + region;
    lemma_bit_region_after_data(d, region, bits);
    assert(stream_bits(msg, reserve_bits as int, t.len()) == bits.subrange(
        reserve_bits as int,
        (reserve_bits + t.len()) as int,
    ));
    assert(bits.subrange(reserve_bits as int, (reserve_bits + t.len()) as int) =~= t);
    assert(msg.subrange(0, d.len() as int) =~= d);
    assert(8 * msg.len() >= 8 * region.len());
    lemma_dec_enc(s, v, msg, 0, reserve_bits as int);
}

/// What `encode_message` returns for a value that `decode_message` can give
/// back is decoded to that value: the data region of the value, then a
/// bit-packed region that encodes the reserved bits and the value's bits.
pub proof fn lemma_encoded_message_decodes(
    s: Schema,
    reserve_bits: nat,
    v: ValueModel,
    out: Seq<u8>,
)
    requires
        conforms(s, v, true),
        out.len() >= enc(s, v).0.len(),
        out.subrange(0, enc(s, v).0.len() as int) == enc(s, v).0,
        encodes_bits(
            out.subrange(enc(s, v).0.len() as int, out.len() as int),
            message_bits(s, reserve_bits, v),
        ),
    ensures
        dec_message(s, reserve_bits, out) == Ok::<ValueModel, DecodeError>(v),
{
    let d = enc(s, v).0;
    let region = out.subrange(d.len() as int, out.len() as int);
    assert(out =~= d + region);
    lemma_message_roundtrip(s, reserve_bits, v, region);
}

// ---------------------------------------------------------------------------
// Executable encoding and decoding.

/// The number of elements of a list value.
pub fn list_count(l: &Value) -> (r: usize)
    requires
        list_len(l@) <= usize::MAX,
    ensures
        r == list_len(l@),
    decreases l,
{
    match l {
        Value::Cons(_, t) => 1 + list_count(&**t),
        _ => 0,
    }
}

/// The number of variants.
pub fn alts_count(a: &Alternatives) -> (r: usize)
    requires
        alts_len(*a) <= usize::MAX,
    ensures
        r == alts_len(*a),
    decreases a,
{
    match a {
        Alternatives::End => 0,
        Alternatives::Alt { fields: _, rest } => 1 + alts_count(&**rest),
    }
}

/// Append the encoding of `value` laid out by `schema`: its bytes to the
/// data region, its bits to the bit stream.
pub fn encode_value(
    schema: &Schema,
    value: &Value,
    data: &mut Vec<u8>,
    helper: &mut EncodeHelper,
)
    requires
        conforms(*schema, value@, false),
        old(helper).wf(),
        old(helper)@.len() + enc(*schema, value@).1.len() <= usize::MAX,
    ensures
        final(helper).wf(),
        final(data)@ == old(data)@ + enc(*schema, value@).0,
        final(helper)@ == old(helper)@ + enc(*schema, value@).1,
    decreases value, 2nat, 0nat,
{
    let ghost d0 = data@;
    let ghost h0 = helper@;
    match schema {
        Schema::Bool => {
            if let Value::Bool(b) = value {
                helper.write_bit(*b);
                assert(helper@ =~= h0 + seq![*b]);
            }
            assert(data@ =~= d0 + Seq::<u8>::empty());
        },
        Schema::Bits { n } => {
            if let Value::Bits(x) = value {
                helper.write_partly(*x, *n);
            }
            assert(data@ =~= d0 + Seq::<u8>::empty());
        },
        Schema::Uint { width } => {
            if let Value::Uint(x) = value {
                write_uint(data, *x, *width);
            }
            assert(helper@ =~= h0 + Seq::<bool>::empty());
        },
        Schema::Str { len_bytes } => {
            if let Value::Str(st) = value {
                write_string(data, st.as_str(), *len_bytes);
            }
            assert(helper@ =~= h0 + Seq::<bool>::empty());
        },
        Schema::Bytes { len_bytes } => {
            if let Value::Bytes(b) = value {
                write_bytes(data, b.as_slice(), *len_bytes);
            }
            assert(helper@ =~= h0 + Seq::<bool>::empty());
        },
        Schema::Raw { size: _ } => {
            if let Value::Raw(b) = value {
                write_raw(data, b.as_slice());
            }
            assert(helper@ =~= h0 + Seq::<bool>::empty());
        },
        Schema::Optional { inner } => {
            match value {
                Value::Present(x) => {
                    helper.write_bit(true);
                    encode_value(&**inner, &**x, data, helper);
                    assert(helper@ =~= h0 + (seq![true] + enc(**inner, (**x)@).1));
                },
                _ => {
                    helper.write_bit(false);
                    assert(helper@ =~= h0 + seq![false]);
                    assert(data@ =~= d0 + Seq::<u8>::empty());
                },
            }
        },
        Schema::List { len_bytes, item } => {
            proof {
                crate::codec::lemma_pow256_values();
            }
            let count = list_count(value);
            write_len_prefix(data, count, *len_bytes);
            encode_items(&**item, value, data, helper);
            assert(data@ =~= d0 + (be_bytes(count as nat, *len_bytes as nat) + enc_items(
                **item,
                value@,
            ).0));
        },
        Schema::Unit => {
            assert(data@ =~= d0 + Seq::<u8>::empty());
            assert(helper@ =~= h0 + Seq::<bool>::empty());
        },
        Schema::Pair { first, rest } => {
            if let Value::Pair(a, b) = value {
                encode_value(&**first, &**a, data, helper);
                encode_value(&**rest, &**b, data, helper);
                assert(data@ =~= d0 + (enc(**first, (**a)@).0 + enc(**rest, (**b)@).0));
                assert(helper@ =~= h0 + (enc(**first, (**a)@).1 + enc(**rest, (**b)@).1));
            }
        },
        Schema::Enum { tag_bits, variants } => {
            if let Value::Variant(t, f) = value {
                helper.write_partly(*t as u64, *tag_bits);
                encode_variant(&**variants, *t as usize, &**f, data, helper);
                assert(helper@ =~= h0 + (low_bits(*t as u64, *tag_bits as nat) + enc_variant(
                    **variants,
                    *t as nat,
                    (**f)@,
                ).1));
            }
        },
    }
}

/// Append the encodings of the elements of a list value, in order.
fn encode_items(item: &Schema, l: &Value, data: &mut Vec<u8>, helper: &mut EncodeHelper)
    requires
        items_conform(*item, l@, false),
        old(helper).wf(),
        old(helper)@.len() + enc_items(*item, l@).1.len() <= usize::MAX,
    ensures
        final(helper).wf(),
        final(data)@ == old(data)@ + enc_items(*item, l@).0,
        final(helper)@ == old(helper)@ + enc_items(*item, l@).1,
    decreases l, 1nat, 0nat,
{
    let ghost d0 = data@;
    let ghost h0 = helper@;
    match l {
        Value::Cons(h, t) => {
            encode_value(item, &**h, data, helper);
            encode_items(item, &**t, data, helper);
            assert(data@ =~= d0 + (enc(*item, (**h)@).0 + enc_items(*item, (**t)@).0));
            assert(helper@ =~= h0 + (enc(*item, (**h)@).1 + enc_items(*item, (**t)@).1));
        },
        _ => {
            assert(data@ =~= d0 + Seq::<u8>::empty());
            assert(helper@ =~= h0 + Seq::<bool>::empty());
        },
    }
}

/// Append the encoding of the fields of variant `t`.
fn encode_variant(
    a: &Alternatives,
    t: usize,
    f: &Value,
    data: &mut Vec<u8>,
    helper: &mut EncodeHelper,
)
    requires
        variant_conforms(*a, t as nat, f@, false),
        old(helper).wf(),
        old(helper)@.len() + enc_variant(*a, t as nat, f@).1.len() <= usize::MAX,
    ensures
        final(helper).wf(),
        final(data)@ == old(data)@ + enc_variant(*a, t as nat, f@).0,
        final(helper)@ == old(helper)@ + enc_variant(*a, t as nat, f@).1,
    decreases f, 3nat, alts_len(*a),
{
    match a {
        Alternatives::End => {},
        Alternatives::Alt { fields, rest } => {
            if t == 0 {
                encode_value(&**fields, f, data, helper);
            } else {
                encode_variant(&**rest, t - 1, f, data, helper);
            }
        },
    }
}

/// Encode a whole message: reserve `reserve_bits` zero bits, encode
/// `value`, then append the bit-packed region to the data region.
pub fn encode_message(schema: &Schema, reserve_bits: usize, value: &Value) -> (out: Vec<u8>)
    requires
        conforms(*schema, value@, false),
        reserve_bits + enc(*schema, value@).1.len() <= usize::MAX,
    ensures
        out@.len() >= enc(*schema, value@).0.len(),
        out@.subrange(0, enc(*schema, value@).0.len() as int) == enc(*schema, value@).0,
        encodes_bits(
            out@.subrange(enc(*schema, value@).0.len() as int, out@.len() as int),
            message_bits(*schema, reserve_bits as nat, value@),
        ),
{
    let mut helper = EncodeHelper::new();
    helper.reserve_bits(reserve_bits);
    let mut data: Vec<u8> = Vec::new();
    encode_value(schema, value, &mut data, &mut helper);
    assert(helper@ =~= message_bits(*schema, reserve_bits as nat, value@));
    let ghost d = data@;
    let mut region = helper.finish();
    let ghost r = region@;
    data.append(&mut region);
    assert(data@.subrange(0, d.len() as int) =~= d);
    assert(data@.subrange(d.len() as int, data@.len() as int) =~= r);
    data
}

/// Whether every width in the layout is one that reading supports.
pub open spec fn schema_wf(s: Schema) -> bool
    decreases s, 0nat,
{
    match s {
        Schema::Bits { n } => n <= 64,
        Schema::Uint { width } => width <= 16,
        Schema::Str { len_bytes } => is_len_bytes(len_bytes as nat),
        Schema::Bytes { len_bytes } => is_len_bytes(len_bytes as nat),
        Schema::Optional { inner } => schema_wf(*inner),
        Schema::List { len_bytes, item } => is_len_bytes(len_bytes as nat) && schema_wf(*item),
        Schema::Pair { first, rest } => schema_wf(*first) && schema_wf(*rest),
        Schema::Enum { tag_bits, variants } => tag_bits <= 64 && alts_len(*variants) <= usize::MAX
            && alts_wf(*variants),
        _ => true,
    }
}

/// Whether every variant's layout is well formed.
pub open spec fn alts_wf(a: Alternatives) -> bool
    decreases a, 0nat,
{
    match a {
        Alternatives::End => true,
        Alternatives::Alt { fields, rest } => schema_wf(*fields) && alts_wf(*rest),
    }
}

/// Decode a value laid out by `schema`, with the data cursor at `idx` and
/// the bit cursor at the helper's position.
pub fn decode_value(schema: &Schema, data: &[u8], idx: usize, helper: &mut DecodeHelper) -> (r:
    Result<(Value, usize), DecodeError>)
    requires
        schema_wf(*schema),
        idx <= data@.len(),
        8 * data@.len() + 64 <= usize::MAX,
        old(helper)@ + 64 <= usize::MAX,
    ensures
        final(helper)@ + 64 <= usize::MAX,
        match r {
            Ok((v, j)) => j <= data@.len() && dec(*schema, data@, idx as int, old(helper)@ as int)
                == Ok::<(ValueModel, int, int), DecodeError>((v@, j as int, final(helper)@ as int)),
            Err(e) => dec(*schema, data@, idx as int, old(helper)@ as int) == Err::<
                (ValueModel, int, int),
                DecodeError,
            >(e),
        },
    decreases schema, 0nat,
{
    match schema {
        Schema::Bool => match helper.read_bit(data) {
            Ok(b) => Ok((Value::Bool(b), idx)),
            Err(e) => Err(e),
        },
        Schema::Bits { n } => match helper.read_partly(data, *n) {
            Ok(x) => Ok((Value::Bits(x), idx)),
            Err(e) => Err(e),
        },
        Schema::Uint { width } => match read_uint(data, idx, *width) {
            Ok((x, j)) => Ok((Value::Uint(x), j)),
            Err(e) => Err(e),
        },
        Schema::Str { len_bytes } => match read_string(data, idx, *len_bytes) {
            Ok((st, j)) => Ok((Value::Str(st), j)),
            Err(e) => Err(e),
        },
        Schema::Bytes { len_bytes } => match read_bytes(data, idx, *len_bytes) {
            Ok((b, j)) => Ok((Value::Bytes(b), j)),
            Err(e) => Err(e),
        },
        Schema::Raw { size } => match read_raw(data, idx, *size) {
            Ok((b, j)) => Ok((Value::Raw(b), j)),
            Err(e) => Err(e),
        },
        Schema::Optional { inner } => match helper.read_bit(data) {
            Ok(true) => match decode_value(&**inner, data, idx, helper) {
                Ok((x, j)) => Ok((Value::Present(Box::new(x)), j)),
                Err(e) => Err(e),
            },
            Ok(false) => Ok((Value::Absent, idx)),
            Err(e) => Err(e),
        },
        Schema::List { len_bytes, item } => match read_len_prefix(data, idx, *len_bytes) {
            Ok((n, j)) => decode_items(&**item, n, data, j, helper),
            Err(e) => Err(e),
        },
        Schema::Unit => Ok((Value::Unit, idx)),
        Schema::Pair { first, rest } => match decode_value(&**first, data, idx, helper) {
            Ok((a, j)) => match decode_value(&**rest, data, j, helper) {
                Ok((b, k)) => Ok((Value::Pair(Box::new(a), Box::new(b)), k)),
                Err(e) => Err(e),
            },
            Err(e) => Err(e),
        },
        Schema::Enum { tag_bits, variants } => {
            let count = alts_count(&**variants);
            match read_tag(helper, data, *tag_bits, count) {
                Ok(t) => match decode_variant(&**variants, t as usize, data, idx, helper) {
                    Ok((f, j)) => Ok((Value::Variant(t, Box::new(f)), j)),
                    Err(e) => Err(e),
                },
                Err(e) => Err(e),
            }
        },
    }
}

/// Decode `n` elements of `item` one after the other.
fn decode_items(item: &Schema, n: usize, data: &[u8], idx: usize, helper: &mut DecodeHelper) -> (r:
    Result<(Value, usize), DecodeError>)
    requires
        schema_wf(*item),
        idx <= data@.len(),
        8 * data@.len() + 64 <= usize::MAX,
        old(helper)@ + 64 <= usize::MAX,
    ensures
        final(helper)@ + 64 <= usize::MAX,
        match r {
            Ok((v, j)) => j <= data@.len() && dec_items(
                *item,
                n as nat,
                data@,
                idx as int,
                old(helper)@ as int,
            ) == Ok::<(ValueModel, int, int), DecodeError>((v@, j as int, final(helper)@ as int)),
            Err(e) => dec_items(*item, n as nat, data@, idx as int, old(helper)@ as int) == Err::<
                (ValueModel, int, int),
                DecodeError,
            >(e),
        },
    decreases item, n + 1,
{
    if n == 0 {
        return Ok((Value::Nil, idx));
    }
    match decode_value(item, data, idx, helper) {
        Ok((h, j)) => match decode_items(item, n - 1, data, j, helper) {
            Ok((t, k)) => Ok((Value::Cons(Box::new(h), Box::new(t)), k)),
            Err(e) => Err(e),
        },
        Err(e) => Err(e),
    }
}

/// Decode the fields of variant `t`.
fn decode_variant(a: &Alternatives, t: usize, data: &[u8], idx: usize, helper: &mut DecodeHelper) -> (r:
    Result<(Value, usize), DecodeError>)
    requires
        alts_wf(*a),
        idx <= data@.len(),
        8 * data@.len() + 64 <= usize::MAX,
        old(helper)@ + 64 <= usize::MAX,
    ensures
        final(helper)@ + 64 <= usize::MAX,
        match r {
            Ok((v, j)) => j <= data@.len() && dec_variant(
                *a,
                t as nat,
                data@,
                idx as int,
                old(helper)@ as int,
            ) == Ok::<(ValueModel, int, int), DecodeError>((v@, j as int, final(helper)@ as int)),
            Err(e) => dec_variant(*a, t as nat, data@, idx as int, old(helper)@ as int) == Err::<
                (ValueModel, int, int),
                DecodeError,
            >(e),
        },
    decreases a, 0nat,
{
    match a {
        Alternatives::End => Err(DecodeError::UnknownTag((t % 256) as u8)),
        Alternatives::Alt { fields, rest } => if t == 0 {
            decode_value(&**fields, data, idx, helper)
        } else {
            decode_variant(&**rest, t - 1, data, idx, helper)
        },
    }
}

/// Decode a whole message: skip `reserve_bits` bits, then decode `schema`
/// from the start of the data region.
pub fn decode_message(schema: &Schema, reserve_bits: usize, data: &[u8]) -> (r: Result<
    Value,
    DecodeError,
>)
    requires
        schema_wf(*schema),
        8 * data@.len() + 64 <= usize::MAX,
        reserve_bits + 64 <= usize::MAX,
    ensures
        match r {
            Ok(v) => dec_message(*schema, reserve_bits as nat, data@) == Ok::<ValueModel, DecodeError>(
                v@,
            ),
            Err(e) => dec_message(*schema, reserve_bits as nat, data@) == Err::<ValueModel, DecodeError>(
                e,
            ),
        },
{
    let mut helper = DecodeHelper::new();
    helper.reserve_bits(reserve_bits);
    match decode_value(schema, data, 0, &mut helper) {
        Ok((v, _)) => Ok(v),
        Err(e) => Err(e),
    }
}

// ---------------------------------------------------------------------------
// Checks for callers that cannot prove the requirements of the functions
// above.

/// Whether `len` fits a length prefix of `len_bytes` bytes (1, 2 or 4).
pub fn fits_prefix(len: usize, len_bytes: usize) -> (r: bool)
    ensures
        r == (is_len_bytes(len_bytes as nat) && len < pow256(len_bytes as nat)),
{
    proof {
        crate::codec::lemma_pow256_values();
    }
    if len_bytes == 1 {
        len < 256
    } else if len_bytes == 2 {
        len < 65536
    } else if len_bytes == 4 {
        (len as u64) < 0x1_0000_0000u64
    } else {
        false
    }
}

/// The number of elements of a list value, if it fits a `usize`.
fn list_count_checked(l: &Value) -> (r: Option<usize>)
    ensures
        match r {
            Some(n) => n == list_len(l@),
            None => list_len(l@) > usize::MAX,
        },
    decreases l,
{
    match l {
        Value::Cons(_, t) => match list_count_checked(&**t) {
            Some(n) => if n < usize::MAX {
                Some(n + 1)
            } else {
                None
            },
            None => None,
        },
        _ => Some(0),
    }
}

/// A variant that conforms has a tag below the number of variants.
proof fn lemma_variant_conforms_tag(a: Alternatives, t: nat, f: ValueModel, strict: bool)
    requires
        variant_conforms(a, t, f, strict),
    ensures
        t < alts_len(a),
    decreases a,
{
    if let Alternatives::Alt { fields: _, rest } = a {
        if t > 0 {
            lemma_variant_conforms_tag(*rest, (t - 1) as nat, f, strict);
        }
    }
}

/// Whether `value` has the shape of `schema` and can be encoded.
pub fn value_conforms(schema: &Schema, value: &Value) -> (r: bool)
    ensures
        r == conforms(*schema, value@, false),
    decreases value, 2nat, 0nat,
{
    match schema {
        Schema::Bool => match value {
            Value::Bool(_) => true,
            _ => false,
        },
        Schema::Bits { n } => match value {
            Value::Bits(_) => *n <= 64,
            _ => false,
        },
        Schema::Uint { width } => match value {
            Value::Uint(_) => *width <= 16,
            _ => false,
        },
        Schema::Str { len_bytes } => match value {
            Value::Str(st) => fits_prefix(st.as_str().as_bytes().len(), *len_bytes),
            _ => false,
        },
        Schema::Bytes { len_bytes } => match value {
            Value::Bytes(b) => fits_prefix(b.len(), *len_bytes),
            _ => false,
        },
        Schema::Raw { size } => match value {
            Value::Raw(b) => b.len() == *size,
            _ => false,
        },
        Schema::Optional { inner } => match value {
            Value::Absent => true,
            Value::Present(x) => value_conforms(&**inner, &**x),
            _ => false,
        },
        Schema::List { len_bytes, item } => match list_count_checked(value) {
            Some(n) => fits_prefix(n, *len_bytes) && items_conform_exec(&**item, value),
            None => {
                proof {
                    crate::codec::lemma_pow256_values();
                    if *len_bytes <= 4 {
                        crate::codec::lemma_pow256_monotonic(*len_bytes as nat, 4);
                    }
                }
                false
            },
        },
        Schema::Unit => match value {
            Value::Unit => true,
            _ => false,
        },
        Schema::Pair { first, rest } => match value {
            Value::Pair(a, b) => value_conforms(&**first, &**a) && value_conforms(&**rest, &**b),
            _ => false,
        },
        Schema::Enum { tag_bits, variants } => match value {
            Value::Variant(t, f) => {
                let ok = *tag_bits <= 64 && variant_conforms_exec(&**variants, *t as usize, &**f);
                proof {
                    if variant_conforms(**variants, *t as nat, (**f)@, false) {
                        lemma_variant_conforms_tag(**variants, *t as nat, (**f)@, false);
                    }
                }
                ok
            },
            _ => false,
        },
    }
}

/// Whether every element of a list value conforms to `item`.
fn items_conform_exec(item: &Schema, l: &Value) -> (r: bool)
    ensures
        r == items_conform(*item, l@, false),
    decreases l, 1nat, 0nat,
{
    match l {
        Value::Nil => true,
        Value::Cons(h, t) => value_conforms(item, &**h) && items_conform_exec(item, &**t),
        _ => false,
    }
}

/// Whether the fields `f` conform to variant `t`.
fn variant_conforms_exec(a: &Alternatives, t: usize, f: &Value) -> (r: bool)
    ensures
        r == variant_conforms(*a, t as nat, f@, false),
    decreases f, 3nat, alts_len(*a),
{
    match a {
        Alternatives::End => false,
        Alternatives::Alt { fields, rest } => if t == 0 {
            value_conforms(&**fields, f)
        } else {
            variant_conforms_exec(&**rest, t - 1, f)
        },
    }
}

/// The number of bits `value` writes to the bit stream, if it fits a
/// `usize`.
pub fn bit_count(schema: &Schema, value: &Value) -> (r: Option<usize>)
    requires
        conforms(*schema, value@, false),
    ensures
        match r {
            Some(n) => n == enc(*schema, value@).1.len(),
            None => enc(*schema, value@).1.len() > usize::MAX,
        },
    decreases value, 2nat, 0nat,
{
    match schema {
        Schema::Bool => Some(1),
        Schema::Bits { n } => Some(*n),
        Schema::Optional { inner } => match value {
            Value::Present(x) => match bit_count(&**inner, &**x) {
                Some(k) => if k < usize::MAX {
                    Some(k + 1)
                } else {
                    None
                },
                None => None,
            },
            _ => Some(1),
        },
        Schema::List { len_bytes: _, item } => items_bit_count(&**item, value),
        Schema::Pair { first, rest } => match value {
            Value::Pair(a, b) => match (bit_count(&**first, &**a), bit_count(&**rest, &**b)) {
                (Some(x), Some(y)) => x.checked_add(y),
                _ => None,
            },
            _ => Some(0),
        },
        Schema::Enum { tag_bits, variants } => match value {
            Value::Variant(t, f) => match variant_bit_count(&**variants, *t as usize, &**f) {
                Some(k) => tag_bits.checked_add(k),
                None => None,
            },
            _ => Some(0),
        },
        _ => Some(0),
    }
}

/// The number of bits the elements of a list value write.
fn items_bit_count(item: &Schema, l: &Value) -> (r: Option<usize>)
    requires
        items_conform(*item, l@, false),
    ensures
        match r {
            Some(n) => n == enc_items(*item, l@).1.len(),
            None => enc_items(*item, l@).1.len() > usize::MAX,
        },
    decreases l, 1nat, 0nat,
{
    match l {
        Value::Cons(h, t) => match (bit_count(item, &**h), items_bit_count(item, &**t)) {
            (Some(x), Some(y)) => x.checked_add(y),
            _ => None,
        },
        _ => Some(0),
    }
}

/// The number of bits the fields of variant `t` write.
fn variant_bit_count(a: &Alternatives, t: usize, f: &Value) -> (r: Option<usize>)
    requires
        variant_conforms(*a, t as nat, f@, false),
    ensures
        match r {
            Some(n) => n == enc_variant(*a, t as nat, f@).1.len(),
            None => enc_variant(*a, t as nat, f@).1.len() > usize::MAX,
        },
    decreases f, 3nat, alts_len(*a),
{
    match a {
        Alternatives::End => Some(0),
        Alternatives::Alt { fields, rest } => if t == 0 {
            bit_count(&**fields, f)
        } else {
            variant_bit_count(&**rest, t - 1, f)
        },
    }
}

/// Encode a whole message, or `None` when `value` does not have the shape
/// of `schema`, a length does not fit its prefix, or the bit stream would
/// not fit a `usize` of bits.
pub fn try_encode_message(schema: &Schema, reserve_bits: usize, value: &Value) -> (r: Option<Vec<u8>>)
    ensures
        r is Some <==> conforms(*schema, value@, false) && reserve_bits + enc(*schema, value@).1.len()
            <= usize::MAX,
        r matches Some(out) ==> {
            &&& out@.len() >= enc(*schema, value@).0.len()
            &&& out@.subrange(0, enc(*schema, value@).0.len() as int) == enc(*schema, value@).0
            &&& encodes_bits(
                out@.subrange(enc(*schema, value@).0.len() as int, out@.len() as int),
                message_bits(*schema, reserve_bits as nat, value@),
            )
        },
{
    if !value_conforms(schema, value) {
        return None;
    }
    let n = match bit_count(schema, value) {
        Some(n) => n,
        None => return None,
    };
    if n > usize::MAX - reserve_bits {
        return None;
    }
    Some(encode_message(schema, reserve_bits, value))
}

/// Whether every width in the layout is one that reading supports.
pub fn schema_is_wf(schema: &Schema) -> (r: bool)
    ensures
        r == schema_wf(*schema),
    decreases schema, 0nat,
{
    match schema {
        Schema::Bits { n } => *n <= 64,
        Schema::Uint { width } => *width <= 16,
        Schema::Str { len_bytes } => fits_len_bytes(*len_bytes),
        Schema::Bytes { len_bytes } => fits_len_bytes(*len_bytes),
        Schema::Optional { inner } => schema_is_wf(&**inner),
        Schema::List { len_bytes, item } => fits_len_bytes(*len_bytes) && schema_is_wf(&**item),
        Schema::Pair { first, rest } => schema_is_wf(&**first) && schema_is_wf(&**rest),
        Schema::Enum { tag_bits, variants } => *tag_bits <= 64 && alts_count_checked(
            &**variants,
        ).is_some() && alts_are_wf(&**variants),
        _ => true,
    }
}

/// Whether `len_bytes` is 1, 2 or 4.
fn fits_len_bytes(len_bytes: usize) -> (r: bool)
    ensures
        r == is_len_bytes(len_bytes as nat),
{
    len_bytes == 1 || len_bytes == 2 || len_bytes == 4
}

/// Whether every variant's layout is well formed.
fn alts_are_wf(a: &Alternatives) -> (r: bool)
    ensures
        r == alts_wf(*a),
    decreases a, 0nat,
{
    match a {
        Alternatives::End => true,
        Alternatives::Alt { fields, rest } => schema_is_wf(&**fields) && alts_are_wf(&**rest),
    }
}

/// The number of variants, if it fits a `usize`.
fn alts_count_checked(a: &Alternatives) -> (r: Option<usize>)
    ensures
        match r {
            Some(n) => n == alts_len(*a),
            None => alts_len(*a) > usize::MAX,
        },
    decreases a,
{
    match a {
        Alternatives::End => Some(0),
        Alternatives::Alt { fields: _, rest } => match alts_count_checked(&**rest) {
            Some(n) => if n < usize::MAX {
                Some(n + 1)
            } else {
                None
            },
            None => None,
        },
    }
}

} // verus!
