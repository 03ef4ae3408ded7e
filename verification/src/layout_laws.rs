//! Laws of the rules that choose a field's layout: primitive names and
//! widths, length-prefix attributes, attribute lookup and enum tag widths.
use vstd::prelude::*;
use vstd::arithmetic::power2::pow2;
use vstd::layout::size_of;

use crate::definition::opt_view;
use crate::error::{decimal, digit_char};
use crate::schema::{
    byte_size_spec, field_codec_spec, lookup_attr, max_variants_spec, primitive_named, entry_is,
    BinSardFieldAttribute, FieldAttrEntry, FieldCodec, KindModel, PrimitiveKind,
};

verus! {

// ---------------------------------------------------------------------------
// Primitive names and widths.

/// The letter a primitive type name starts with: `u` for an unsigned
/// integer, `i` for a signed integer, `f` for a float.
pub open spec fn kind_letter(k: PrimitiveKind) -> char {
    match k {
        PrimitiveKind::U8 | PrimitiveKind::U16 | PrimitiveKind::U32 | PrimitiveKind::U64
        | PrimitiveKind::U128 => 'u',
        PrimitiveKind::I8 | PrimitiveKind::I16 | PrimitiveKind::I32 | PrimitiveKind::I64
        | PrimitiveKind::I128 => 'i',
        PrimitiveKind::F32 | PrimitiveKind::F64 => 'f',
    }
}

/// A primitive type name is a letter followed by the type's width in bits,
/// and that width is eight times the number of big-endian bytes the field
/// takes: a name classifies as a kind exactly when it is that kind's letter
/// followed by eight times the kind's byte width, so `u64` is the unsigned
/// kind of 8 bytes and `u32` the unsigned kind of 4 bytes.
pub proof fn lemma_primitive_name_is_letter_and_width(name: Seq<char>, k: PrimitiveKind)
    ensures
        primitive_named(name) == Some(k) <==> name == seq![kind_letter(k)] + decimal(
            8 * byte_size_spec(k),
        ),
{
    reveal_strlit("u8");
    reveal_strlit("i8");
    reveal_strlit("u16");
    reveal_strlit("i16");
    reveal_strlit("u32");
    reveal_strlit("i32");
    reveal_strlit("f32");
    reveal_strlit("u64");
    reveal_strlit("i64");
    reveal_strlit("f64");
    reveal_strlit("u128");
    reveal_strlit("i128");
    assert("u8"@ =~= seq!['u', '8']);
    assert("u8"@[0] == 'u' && "u8"@[1] == '8');
    assert("i8"@ =~= seq!['i', '8']);
    assert("i8"@[0] == 'i' && "i8"@[1] == '8');
    assert("u16"@ =~= seq!['u', '1', '6']);
    assert("u16"@[0] == 'u' && "u16"@[1] == '1' && "u16"@[2] == '6');
    assert("i16"@ =~= seq!['i', '1', '6']);
    assert("i16"@[0] == 'i' && "i16"@[1] == '1' && "i16"@[2] == '6');
    assert("u32"@ =~= seq!['u', '3', '2']);
    assert("u32"@[0] == 'u' && "u32"@[1] == '3' && "u32"@[2] == '2');
    assert("i32"@ =~= seq!['i', '3', '2']);
    assert("i32"@[0] == 'i' && "i32"@[1] == '3' && "i32"@[2] == '2');
    assert("f32"@ =~= seq!['f', '3', '2']);
    assert("f32"@[0] == 'f' && "f32"@[1] == '3' && "f32"@[2] == '2');
    assert("u64"@ =~= seq!['u', '6', '4']);
    assert("u64"@[0] == 'u' && "u64"@[1] == '6' && "u64"@[2] == '4');
    assert("i64"@ =~= seq!['i', '6', '4']);
    assert("i64"@[0] == 'i' && "i64"@[1] == '6' && "i64"@[2] == '4');
    assert("f64"@ =~= seq!['f', '6', '4']);
    assert("f64"@[0] == 'f' && "f64"@[1] == '6' && "f64"@[2] == '4');
    assert("u128"@ =~= seq!['u', '1', '2', '8']);
    assert("u128"@[0] == 'u' && "u128"@[1] == '1' && "u128"@[2] == '2' && "u128"@[3] == '8');
    assert("i128"@ =~= seq!['i', '1', '2', '8']);
    assert("i128"@[0] == 'i' && "i128"@[1] == '1' && "i128"@[2] == '2' && "i128"@[3] == '8');
    assert(decimal(1) == seq!['1']);
    assert(decimal(3) == seq!['3']);
    assert(decimal(6) == seq!['6']);
    assert(decimal(8) == seq!['8']);
    assert(decimal(12) == decimal(1) + seq![digit_char(2)]);
    assert(decimal(16) == decimal(1) + seq![digit_char(6)]);
    assert(decimal(32) == decimal(3) + seq![digit_char(2)]);
    assert(decimal(64) == decimal(6) + seq![digit_char(4)]);
    assert(decimal(128) == decimal(12) + seq![digit_char(8)]);
    let expected = seq![kind_letter(k)] + decimal(8 * byte_size_spec(k));
    match k {
        PrimitiveKind::U8 => assert(expected =~= "u8"@),
        PrimitiveKind::I8 => assert(expected =~= "i8"@),
        PrimitiveKind::U16 => assert(expected =~= "u16"@),
        PrimitiveKind::I16 => assert(expected =~= "i16"@),
        PrimitiveKind::U32 => assert(expected =~= "u32"@),
        PrimitiveKind::I32 => assert(expected =~= "i32"@),
        PrimitiveKind::F32 => assert(expected =~= "f32"@),
        PrimitiveKind::U64 => assert(expected =~= "u64"@),
        PrimitiveKind::I64 => assert(expected =~= "i64"@),
        PrimitiveKind::F64 => assert(expected =~= "f64"@),
        PrimitiveKind::U128 => assert(expected =~= "u128"@),
        PrimitiveKind::I128 => assert(expected =~= "i128"@),
    }
}

/// The big-endian width of an integer primitive is the size of its Rust
/// type (the length of its `to_be_bytes`).
pub proof fn lemma_byte_size_is_type_size()
    ensures
        byte_size_spec(PrimitiveKind::U8) == size_of::<u8>(),
        byte_size_spec(PrimitiveKind::I8) == size_of::<i8>(),
        byte_size_spec(PrimitiveKind::U16) == size_of::<u16>(),
        byte_size_spec(PrimitiveKind::I16) == size_of::<i16>(),
        byte_size_spec(PrimitiveKind::U32) == size_of::<u32>(),
        byte_size_spec(PrimitiveKind::I32) == size_of::<i32>(),
        byte_size_spec(PrimitiveKind::U64) == size_of::<u64>(),
        byte_size_spec(PrimitiveKind::I64) == size_of::<i64>(),
        byte_size_spec(PrimitiveKind::U128) == size_of::<u128>(),
        byte_size_spec(PrimitiveKind::I128) == size_of::<i128>(),
{
    broadcast use vstd::layout::layout_of_primitives;

}

// ---------------------------------------------------------------------------
// Field codecs.

/// The width of the length prefix of a codec, for the codecs that have one.
pub open spec fn prefix_width(c: FieldCodec) -> Option<usize> {
    match c {
        FieldCodec::Str { len_bytes } => Some(len_bytes),
        FieldCodec::Bytes { len_bytes } => Some(len_bytes),
        FieldCodec::List { len_bytes } => Some(len_bytes),
        _ => None,
    }
}

/// A `len_bytes` attribute on a string or vector field is the width of its
/// length prefix. Without the attribute the width is 2 for a `Vec<u8>` and
/// 1 for a `String` or any other `Vec`. Fields of other kinds have no
/// length prefix.
pub proof fn lemma_len_bytes_is_prefix_width(
    kind: KindModel,
    bits: Option<usize>,
    len_bytes: Option<usize>,
)
    ensures
        (kind is Str || kind is List) ==> prefix_width(field_codec_spec(kind, bits, len_bytes))
            == Some(
            match len_bytes {
                Some(l) => l,
                None => if kind == KindModel::List("u8"@) {
                    2usize
                } else {
                    1usize
                },
            },
        ),
        !(kind is Str || kind is List) ==> (prefix_width(field_codec_spec(kind, bits, len_bytes))
            is None),
{
}

/// A vector of bytes is laid out as a byte string, a vector of anything
/// else as a list of elements; a string as a string.
pub proof fn lemma_vector_codecs(kind: KindModel, bits: Option<usize>, len_bytes: Option<usize>)
    ensures
        kind is List ==> (field_codec_spec(kind, bits, len_bytes) is Bytes <==> kind->List_0
            == "u8"@),
        kind is List ==> (field_codec_spec(kind, bits, len_bytes) is List <==> kind->List_0
            != "u8"@),
        kind is Str ==> (field_codec_spec(kind, bits, len_bytes) is Str),
{
}

/// An attribute changes only the fields it applies to: `bits` only the
/// layout of a primitive, `len_bytes` only that of a string or vector.
pub proof fn lemma_attributes_apply_to_their_kinds(
    kind: KindModel,
    b1: Option<usize>,
    l1: Option<usize>,
    b2: Option<usize>,
    l2: Option<usize>,
)
    ensures
        !(kind is Primitive) ==> field_codec_spec(kind, b1, l1) == field_codec_spec(kind, b2, l1),
        !(kind is Str || kind is List) ==> field_codec_spec(kind, b1, l1) == field_codec_spec(
            kind,
            b1,
            l2,
        ),
{
}

/// An integer with a `bits` attribute is packed into that many bits;
/// without it, it takes the byte width of its type.
pub proof fn lemma_primitive_codec(k: PrimitiveKind, bits: Option<usize>, len_bytes: Option<usize>)
    ensures
        bits matches Some(n) ==> field_codec_spec(KindModel::Primitive(k), bits, len_bytes)
            == (FieldCodec::Bits { n }),
        bits is None ==> field_codec_spec(KindModel::Primitive(k), bits, len_bytes)
            == (FieldCodec::BigEndian { width: byte_size_spec(k) as usize }),
{
}

// ---------------------------------------------------------------------------
// Attribute lookup.

/// Whether `e` records the attributes of field `field` of `variant` (of the
/// struct itself when `variant` is `None`).
pub open spec fn names_field(e: FieldAttrEntry, variant: Option<Seq<char>>, field: Seq<char>) -> bool {
    e.field@ == field && opt_view(e.variant) == variant
}

/// Matching an entry compares both the field name and the variant.
proof fn lemma_entry_is_names_field(e: FieldAttrEntry, variant: Option<Seq<char>>, field: Seq<char>)
    ensures
        entry_is(e, variant, field) <==> names_field(e, variant, field),
{
}

/// The attributes found for field `field` of `variant` are those of the
/// last entry recorded for that very field of that very variant, never
/// those of another field or another variant; when no entry is recorded
/// for it, none are found.
pub proof fn lemma_lookup_finds_own_entry(
    entries: Seq<FieldAttrEntry>,
    variant: Option<Seq<char>>,
    field: Seq<char>,
)
    ensures
        lookup_attr(entries, variant, field) is None <==> forall|i: int|
            0 <= i < entries.len() ==> !names_field(#[trigger] entries[i], variant, field),
        lookup_attr(entries, variant, field) matches Some(a) ==> exists|i: int|
            {
                &&& 0 <= i < entries.len()
                &&& names_field(#[trigger] entries[i], variant, field)
                &&& entries[i].attr == a
                &&& forall|j: int| i < j < entries.len() ==> !names_field(#[trigger] entries[j], variant, field)
            },
    decreases entries.len(),
{
    if entries.len() > 0 {
        let last = entries.last();
        let init = entries.drop_last();
        lemma_entry_is_names_field(last, variant, field);
        lemma_lookup_finds_own_entry(init, variant, field);
        if names_field(last, variant, field) {
            let i = entries.len() - 1;
            assert(names_field(entries[i], variant, field));
        } else {
            assert forall|i: int| 0 <= i < init.len() implies #[trigger] entries[i] == init[i] by {}
            if lookup_attr(init, variant, field) is None {
                assert forall|i: int| 0 <= i < entries.len() implies !names_field(
                    #[trigger] entries[i],
                    variant,
                    field,
                ) by {
                    if i < init.len() {
                        assert(entries[i] == init[i]);
                    }
                }
            } else {
                let i = choose|i: int|
                    {
                        &&& 0 <= i < init.len()
                        &&& names_field(#[trigger] init[i], variant, field)
                        &&& init[i].attr == lookup_attr(init, variant, field)->0
                        &&& forall|j: int| i < j < init.len() ==> !names_field(#[trigger] init[j], variant, field)
                    };
                assert(entries[i] == init[i]);
                assert forall|j: int| i < j < entries.len() implies !names_field(
                    #[trigger] entries[j],
                    variant,
                    field,
                ) by {
                    if j < init.len() {
                        assert(entries[j] == init[j]);
                    }
                }
                assert(!(forall|k: int| 0 <= k < entries.len() ==> !names_field(#[trigger] entries[k], variant, field)));
            }
        }
    }
}

// ---------------------------------------------------------------------------
// Enum tag widths.

/// Whether the tag `t` fits in `bits` bits.
pub open spec fn tag_fits(t: nat, bits: nat) -> bool {
    t < pow2(bits)
}

/// An enum with `count` variants is accepted by a tag of `bits` bits (fewer
/// than the bits of a `usize`) exactly when every tag `0..count` fits in
/// `bits` bits, that is, when at most `2^bits` variants are numbered.
pub proof fn lemma_tag_width_accepts_fitting_tags(count: nat, bits: usize)
    requires
        bits < usize::BITS,
    ensures
        count <= max_variants_spec(bits) <==> forall|t: nat| t < count ==> #[trigger] tag_fits(t, bits as nat),
{
    assert((bits as nat) % 0x1_0000_0000 == bits as nat);
    if count > pow2(bits as nat) {
        let t = pow2(bits as nat);
        assert(t < count && !tag_fits(t, bits as nat));
    }
}

} // verus!
