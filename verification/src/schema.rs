//! The rules that decide how a field of a type is laid out: type
//! classification, attribute lookup and validation, and the choice of codec
//! for each field.
use vstd::prelude::*;
use vstd::arithmetic::power2::pow2;
use vstd::bits::{lemma_usize_pow2_no_overflow, lemma_usize_shl_is_mul};

verus! {

/// The primitive numeric types that can stand as a field.
#[derive(Debug, Clone, Copy, PartialEq, Eq, Structural)]
pub enum PrimitiveKind {
    U8,
    I8,
    U16,
    I16,
    U32,
    I32,
    F32,
    U64,
    I64,
    F64,
    U128,
    I128,
}

/// Number of big-endian bytes a primitive takes in the data region.
pub open spec fn byte_size_spec(kind: PrimitiveKind) -> nat {
    match kind {
        PrimitiveKind::U8 | PrimitiveKind::I8 => 1,
        PrimitiveKind::U16 | PrimitiveKind::I16 => 2,
        PrimitiveKind::U32 | PrimitiveKind::I32 | PrimitiveKind::F32 => 4,
        PrimitiveKind::U64 | PrimitiveKind::I64 | PrimitiveKind::F64 => 8,
        PrimitiveKind::U128 | PrimitiveKind::I128 => 16,
    }
}

/// Number of big-endian bytes a primitive takes in the data region.
pub fn get_byte_size(kind: PrimitiveKind) -> (r: usize)
    ensures
        r == byte_size_spec(kind),
{
    match kind {
        PrimitiveKind::U8 | PrimitiveKind::I8 => 1,
        PrimitiveKind::U16 | PrimitiveKind::I16 => 2,
        PrimitiveKind::U32 | PrimitiveKind::I32 | PrimitiveKind::F32 => 4,
        PrimitiveKind::U64 | PrimitiveKind::I64 | PrimitiveKind::F64 => 8,
        PrimitiveKind::U128 | PrimitiveKind::I128 => 16,
    }
}

/// The primitive whose type name is `name`, if any.
pub open spec fn primitive_named(name: Seq<char>) -> Option<PrimitiveKind> {
    if name == "u8"@ {
        Some(PrimitiveKind::U8)
    } else if name == "i8"@ {
        Some(PrimitiveKind::I8)
    } else if name == "u16"@ {
        Some(PrimitiveKind::U16)
    } else if name == "i16"@ {
        Some(PrimitiveKind::I16)
    } else if name == "u32"@ {
        Some(PrimitiveKind::U32)
    } else if name == "i32"@ {
        Some(PrimitiveKind::I32)
    } else if name == "f32"@ {
        Some(PrimitiveKind::F32)
    } else if name == "u64"@ {
        Some(PrimitiveKind::U64)
    } else if name == "i64"@ {
        Some(PrimitiveKind::I64)
    } else if name == "f64"@ {
        Some(PrimitiveKind::F64)
    } else if name == "u128"@ {
        Some(PrimitiveKind::U128)
    } else if name == "i128"@ {
        Some(PrimitiveKind::I128)
    } else {
        None
    }
}

/// Whether `name` spells `lit`.
fn name_is(name: &String, lit: &str) -> (r: bool)
    ensures
        r == (name@ == lit@),
{
    let l = lit.to_owned();
    *name == l
}

/// The primitive whose type name is `name`, if any.
pub fn primitive_from_name(name: &String) -> (r: Option<PrimitiveKind>)
    ensures
        r == primitive_named(name@),
{
    if name_is(name, "u8") {
        Some(PrimitiveKind::U8)
    } else if name_is(name, "i8") {
        Some(PrimitiveKind::I8)
    } else if name_is(name, "u16") {
        Some(PrimitiveKind::U16)
    } else if name_is(name, "i16") {
        Some(PrimitiveKind::I16)
    } else if name_is(name, "u32") {
        Some(PrimitiveKind::U32)
    } else if name_is(name, "i32") {
        Some(PrimitiveKind::I32)
    } else if name_is(name, "f32") {
        Some(PrimitiveKind::F32)
    } else if name_is(name, "u64") {
        Some(PrimitiveKind::U64)
    } else if name_is(name, "i64") {
        Some(PrimitiveKind::I64)
    } else if name_is(name, "f64") {
        Some(PrimitiveKind::F64)
    } else if name_is(name, "u128") {
        Some(PrimitiveKind::U128)
    } else if name_is(name, "i128") {
        Some(PrimitiveKind::I128)
    } else {
        None
    }
}

// ---------------------------------------------------------------------------
// Type classification.

/// The length expression of an array type.
pub enum ArrayLen {
    /// An integer literal, by the base-10 digits of its value.
    Int(String),
    /// Not an integer literal.
    NotLiteral,
}

/// The shape of a field's type, as far as classification reads it.
pub enum TypeDesc {
    /// A type path: the identifier of its last segment (if it has one) and
    /// the first generic argument of that segment, when that argument is a
    /// type.
    Path { ident: Option<String>, first_arg: Option<Box<TypeDesc>> },
    /// An array type with its length expression.
    Array { len: ArrayLen },
    /// Any other type (reference, tuple, slice, pointer, ...).
    Other,
}

/// The kind of a field, which decides its encoding.
pub enum FieldKind {
    Bool,
    String,
    Primitive { kind: PrimitiveKind },
    Vec { inner_type: String },
    Array { size: usize },
    StructOrEnum { type_ident: String },
}

/// A [`FieldKind`] with its names taken as character sequences.
pub enum KindModel {
    Bool,
    Str,
    Primitive(PrimitiveKind),
    List(Seq<char>),
    Array(nat),
    Nested(Seq<char>),
}

impl View for FieldKind {
    type V = KindModel;

    open spec fn view(&self) -> KindModel {
        match self {
            FieldKind::Bool => KindModel::Bool,
            FieldKind::String => KindModel::Str,
            FieldKind::Primitive { kind } => KindModel::Primitive(*kind),
            FieldKind::Vec { inner_type } => KindModel::List(inner_type@),
            FieldKind::Array { size } => KindModel::Array(*size as nat),
            FieldKind::StructOrEnum { type_ident } => KindModel::Nested(type_ident@),
        }
    }
}

/// Why a field's type cannot be encoded.
#[derive(Debug, Clone, Copy, PartialEq, Eq, Structural)]
pub enum ClassifyError {
    /// A type path without an identifier.
    UnresolvedIdent,
    /// `Vec` without a type parameter.
    VecMissingParam,
    /// `Vec` whose parameter is not a type path.
    VecInnerNotPath,
    /// `Vec` whose parameter path has no identifier.
    VecInnerUnresolved,
    /// `Option` without a type parameter.
    OptionMissingParam,
    /// `Option` of something other than a type path or an array.
    UnsupportedOptionInner,
    /// An array length literal whose value does not fit a `usize`.
    ArrayLenInvalid,
    /// An array length that is not an integer literal.
    ArrayLenNotLiteral,
    /// A type that is neither a path nor an array.
    UnsupportedType,
    /// A union, which has no layout.
    UnionNotSupported,
}

/// Whether `c` is an ASCII decimal digit.
pub open spec fn is_decimal_digit(c: char) -> bool {
    48 <= (c as int) <= 57
}

/// The value of a string of decimal digits.
pub open spec fn digits_value(s: Seq<char>) -> nat
    decreases s.len(),
{
    if s.len() == 0 {
        0
    } else {
        digits_value(s.drop_last()) * 10 + ((s.last() as int) - 48) as nat
    }
}

/// The number an unsigned integer is parsed from: an optional `+`, then
/// one or more ASCII decimal digits. `None` for any other string.
pub open spec fn parsed_decimal(s: Seq<char>) -> Option<nat> {
    let body = if s.len() > 0 && s[0] == '+' {
        s.drop_first()
    } else {
        s
    };
    if body.len() > 0 && forall|i: int| 0 <= i < body.len() ==> is_decimal_digit(#[trigger] body[i]) {
        Some(digits_value(body))
    } else {
        None
    }
}

/// `str::parse::<usize>`, with the error dropped.
///
/// Claims what the standard library documents for parsing an unsigned
/// integer: the string is accepted exactly when it is an optional `+`
/// followed by one or more ASCII decimal digits whose value fits a `usize`,
/// and the result is that value.
#[verifier::external_body]
fn parse_usize(s: &str) -> (r: Option<usize>)
    ensures
        r == match parsed_decimal(s@) {
            Some(n) => if n <= usize::MAX {
                Some(n as usize)
            } else {
                None::<usize>
            },
            None => None::<usize>,
        },
{
    s.parse::<usize>().ok()
}

/// The size of an array from its length expression: the value of an
/// integer literal when it fits a `usize`.
pub open spec fn array_size_spec(len: ArrayLen) -> Result<nat, ClassifyError> {
    match len {
        ArrayLen::Int(digits) => match parsed_decimal(digits@) {
            Some(n) => if n <= usize::MAX {
                Ok(n)
            } else {
                Err(ClassifyError::ArrayLenInvalid)
            },
            None => Err(ClassifyError::ArrayLenInvalid),
        },
        ArrayLen::NotLiteral => Err(ClassifyError::ArrayLenNotLiteral),
    }
}

/// How a field type is classified: whether it is optional and its kind.
///
/// `bool`, `String` and the primitive names are recognized by the last
/// identifier of a path; `Vec<T>` needs a named element type; `Option<T>`
/// is optional with the kind of `T` (a path or an array); any other path is
/// a nested struct or enum; arrays need a literal length.
pub open spec fn classify_spec(ty: TypeDesc) -> Result<(bool, KindModel), ClassifyError>
    decreases ty,
{
    match ty {
        TypeDesc::Path { ident, first_arg } => match ident {
            None => Err(ClassifyError::UnresolvedIdent),
            Some(name) => if name@ == "bool"@ {
                Ok((false, KindModel::Bool))
            } else if name@ == "String"@ {
                Ok((false, KindModel::Str))
            } else if name@ == "Vec"@ {
                match first_arg {
                    None => Err(ClassifyError::VecMissingParam),
                    Some(inner) => match *inner {
                        TypeDesc::Path { ident: inner_ident, first_arg: _ } => match inner_ident {
                            Some(i) => Ok((false, KindModel::List(i@))),
                            None => Err(ClassifyError::VecInnerUnresolved),
                        },
                        _ => Err(ClassifyError::VecInnerNotPath),
                    },
                }
            } else if primitive_named(name@) is Some {
                Ok((false, KindModel::Primitive(primitive_named(name@)->0)))
            } else if name@ == "Option"@ {
                match first_arg {
                    None => Err(ClassifyError::OptionMissingParam),
                    Some(inner) => match *inner {
                        TypeDesc::Path { .. } => match classify_spec(*inner) {
                            Ok((_, kind)) => Ok((true, kind)),
                            Err(e) => Err(e),
                        },
                        TypeDesc::Array { len } => match array_size_spec(len) {
                            Ok(n) => Ok((true, KindModel::Array(n))),
                            Err(e) => Err(e),
                        },
                        TypeDesc::Other => Err(ClassifyError::UnsupportedOptionInner),
                    },
                }
            } else {
                Ok((false, KindModel::Nested(name@)))
            },
        },
        TypeDesc::Array { len } => match array_size_spec(len) {
            Ok(n) => Ok((false, KindModel::Array(n))),
            Err(e) => Err(e),
        },
        TypeDesc::Other => Err(ClassifyError::UnsupportedType),
    }
}

/// The size of an array from its length expression.
pub fn parse_array_len(len: &ArrayLen) -> (r: Result<usize, ClassifyError>)
    ensures
        match r {
            Ok(n) => array_size_spec(*len) == Ok::<nat, ClassifyError>(n as nat),
            Err(e) => array_size_spec(*len) == Err::<nat, ClassifyError>(e),
        },
{
    match len {
        ArrayLen::Int(digits) => match parse_usize(digits.as_str()) {
            Some(n) => Ok(n),
            None => Err(ClassifyError::ArrayLenInvalid),
        },
        ArrayLen::NotLiteral => Err(ClassifyError::ArrayLenNotLiteral),
    }
}

/// Classify a field type: whether it is optional, and its kind.
pub fn classify_type(ty: &TypeDesc) -> (r: Result<(bool, FieldKind), ClassifyError>)
    ensures
        match r {
            Ok((optional, kind)) => classify_spec(*ty) == Ok::<(bool, KindModel), ClassifyError>(
                (optional, kind@),
            ),
            Err(e) => classify_spec(*ty) == Err::<(bool, KindModel), ClassifyError>(e),
        },
    decreases ty,
{
    match ty {
        TypeDesc::Path { ident, first_arg } => {
            let name = match ident {
                None => return Err(ClassifyError::UnresolvedIdent),
                Some(name) => name,
            };
            if name_is(name, "bool") {
                Ok((false, FieldKind::Bool))
            } else if name_is(name, "String") {
                Ok((false, FieldKind::String))
            } else if name_is(name, "Vec") {
                match first_arg {
                    None => Err(ClassifyError::VecMissingParam),
                    Some(inner) => match &**inner {
                        TypeDesc::Path { ident: inner_ident, first_arg: _ } => match inner_ident {
                            Some(i) => Ok((false, FieldKind::Vec { inner_type: i.clone() })),
                            None => Err(ClassifyError::VecInnerUnresolved),
                        },
                        _ => Err(ClassifyError::VecInnerNotPath),
                    },
                }
            } else if let Some(kind) = primitive_from_name(name) {
                Ok((false, FieldKind::Primitive { kind }))
            } else if name_is(name, "Option") {
                match first_arg {
                    None => Err(ClassifyError::OptionMissingParam),
                    Some(inner) => match &**inner {
                        TypeDesc::Path { .. } => match classify_type(&**inner) {
                            Ok((_, kind)) => Ok((true, kind)),
                            Err(e) => Err(e),
                        },
                        TypeDesc::Array { len } => match parse_array_len(len) {
                            Ok(n) => Ok((true, FieldKind::Array { size: n })),
                            Err(e) => Err(e),
                        },
                        TypeDesc::Other => Err(ClassifyError::UnsupportedOptionInner),
                    },
                }
            } else {
                Ok((false, FieldKind::StructOrEnum { type_ident: name.clone() }))
            }
        },
        TypeDesc::Array { len } => match parse_array_len(len) {
            Ok(n) => Ok((false, FieldKind::Array { size: n })),
            Err(e) => Err(e),
        },
        TypeDesc::Other => Err(ClassifyError::UnsupportedType),
    }
}

// ---------------------------------------------------------------------------
// Attributes.

/// Type-level attributes: the enum tag width (default 8 bits) and the number
/// of reserved bits at the start of the bit stream (default 0).
pub struct BinSardStructAttribute {
    pub bits: usize,
    pub reserve_bits: usize,
}

impl Default for BinSardStructAttribute {
    fn default() -> (r: Self)
        ensures
            r.bits == 8,
            r.reserve_bits == 0,
    {
        BinSardStructAttribute { bits: 8, reserve_bits: 0 }
    }
}

/// Field-level attributes: a bit width for an integer field and a length
/// prefix width for a string, byte string or list field.
#[derive(Debug, Clone, Copy, PartialEq, Eq, Structural)]
pub struct BinSardFieldAttribute {
    pub bits: Option<usize>,
    pub len_bytes: Option<usize>,
}

/// The attributes of one named field: of a struct field when `variant` is
/// `None`, else of a field of that enum variant.
pub struct FieldAttrEntry {
    pub variant: Option<String>,
    pub field: String,
    pub attr: BinSardFieldAttribute,
}

/// All attributes of a type.
pub struct BinSardAttributes {
    pub bits: usize,
    pub reserve_bits: usize,
    pub field_attrs: Vec<FieldAttrEntry>,
}

/// Why the attributes of a type are refused.
pub enum AttributeError {
    /// A `len_bytes` other than 1, 2 or 4 on the named field.
    InvalidLenBytes { variant: Option<String>, field: String, len_bytes: usize },
    /// An enum with more variants than its tag width can number.
    TooManyVariants { count: usize, bits: usize, max: usize },
}

/// Whether an entry is the one of field `field` of `variant` (of the struct
/// itself when `variant` is `None`).
pub open spec fn entry_is(e: FieldAttrEntry, variant: Option<Seq<char>>, field: Seq<char>) -> bool {
    &&& e.field@ == field
    &&& match (e.variant, variant) {
        (None, None) => true,
        (Some(v), Some(w)) => v@ == w,
        _ => false,
    }
}

/// The attributes recorded for a field: those of the last matching entry.
pub open spec fn lookup_attr(
    entries: Seq<FieldAttrEntry>,
    variant: Option<Seq<char>>,
    field: Seq<char>,
) -> Option<BinSardFieldAttribute>
    decreases entries.len(),
{
    if entries.len() == 0 {
        None
    } else if entry_is(entries.last(), variant, field) {
        Some(entries.last().attr)
    } else {
        lookup_attr(entries.drop_last(), variant, field)
    }
}

/// The optional name as a character sequence.
pub open spec fn name_view(n: Option<&String>) -> Option<Seq<char>> {
    match n {
        Some(s) => Some(s@),
        None => None,
    }
}

/// Whether `e` is the entry of `field` of `variant`.
fn entry_matches(e: &FieldAttrEntry, variant: Option<&String>, field: &String) -> (r: bool)
    ensures
        r == entry_is(*e, name_view(variant), field@),
{
    if e.field != *field {
        return false;
    }
    match (&e.variant, variant) {
        (None, None) => true,
        (Some(v), Some(w)) => *v == *w,
        _ => false,
    }
}

/// The attributes recorded for a field, if any.
fn find_attr(
    field_attrs: &Vec<FieldAttrEntry>,
    variant: Option<&String>,
    field: &String,
) -> (r: Option<BinSardFieldAttribute>)
    ensures
        r == lookup_attr(field_attrs@, name_view(variant), field@),
{
    let mut i = field_attrs.len();
    assert(field_attrs@.subrange(0, i as int) =~= field_attrs@);
    while i > 0
        invariant
            i <= field_attrs@.len(),
            lookup_attr(field_attrs@, name_view(variant), field@) == lookup_attr(
                field_attrs@.subrange(0, i as int),
                name_view(variant),
                field@,
            ),
        decreases i,
    {
        let e = &field_attrs[i - 1];
        let ghost pre = field_attrs@.subrange(0, i as int);
        assert(pre.last() == *e);
        assert(pre.drop_last() =~= field_attrs@.subrange(0, i - 1));
        if entry_matches(e, variant, field) {
            return Some(e.attr);
        }
        i = i - 1;
    }
    None
}

/// The `bits` attribute of a named field; unnamed fields have none.
pub fn get_bits_attr(
    name: Option<&String>,
    field_attrs: &Vec<FieldAttrEntry>,
    variant_prefix: Option<&String>,
) -> (r: Option<usize>)
    ensures
        r == match name {
            None => None,
            Some(n) => match lookup_attr(field_attrs@, name_view(variant_prefix), n@) {
                None => None,
                Some(a) => a.bits,
            },
        },
{
    match name {
        None => None,
        Some(n) => match find_attr(field_attrs, variant_prefix, n) {
            None => None,
            Some(a) => a.bits,
        },
    }
}

/// The `len_bytes` attribute of a named field; unnamed fields have none.
pub fn get_len_bytes_attr(
    name: Option<&String>,
    field_attrs: &Vec<FieldAttrEntry>,
    variant_prefix: Option<&String>,
) -> (r: Option<usize>)
    ensures
        r == match name {
            None => None,
            Some(n) => match lookup_attr(field_attrs@, name_view(variant_prefix), n@) {
                None => None,
                Some(a) => a.len_bytes,
            },
        },
{
    match name {
        None => None,
        Some(n) => match find_attr(field_attrs, variant_prefix, n) {
            None => None,
            Some(a) => a.len_bytes,
        },
    }
}

/// Check a `len_bytes` attribute: only 1, 2 and 4 are allowed.
pub fn validate_len_bytes(len_bytes: usize, variant: Option<&String>, field_name: &String) -> (r:
    Result<(), AttributeError>)
    ensures
        r is Ok <==> (len_bytes == 1 || len_bytes == 2 || len_bytes == 4),
        r matches Err(AttributeError::InvalidLenBytes { variant: v, field: f, len_bytes: l }) ==> (
        name_view(variant) == match v {
            Some(s) => Some(s@),
            None => None::<Seq<char>>,
        }) && f@ == field_name@ && l == len_bytes,
        r matches Err(e) ==> e is InvalidLenBytes,
{
    if len_bytes == 1 || len_bytes == 2 || len_bytes == 4 {
        Ok(())
    } else {
        let v = match variant {
            Some(s) => Some(s.clone()),
            None => None,
        };
        Err(AttributeError::InvalidLenBytes { variant: v, field: field_name.clone(), len_bytes })
    }
}

/// Whether every `len_bytes` attribute among the entries is 1, 2 or 4.
pub open spec fn all_len_bytes_valid(entries: Seq<FieldAttrEntry>) -> bool {
    forall|i: int|
        0 <= i < entries.len() ==> match (#[trigger] entries[i]).attr.len_bytes {
            Some(l) => l == 1 || l == 2 || l == 4,
            None => true,
        }
}

/// Gather the attributes of a type, checking every field's `len_bytes`:
/// the first field (in declaration order) with another value is refused.
pub fn parse_attributes(
    type_attr: BinSardStructAttribute,
    field_attrs: Vec<FieldAttrEntry>,
) -> (r: Result<BinSardAttributes, AttributeError>)
    ensures
        r is Ok <==> all_len_bytes_valid(field_attrs@),
        r matches Ok(a) ==> a.bits == type_attr.bits && a.reserve_bits == type_attr.reserve_bits
            && a.field_attrs@ == field_attrs@,
        r matches Err(AttributeError::InvalidLenBytes { variant: v, field: f, len_bytes: l }) ==> exists|
            i: int,
        |
            0 <= i < field_attrs@.len() && all_len_bytes_valid(field_attrs@.subrange(0, i))
                && field_attrs@[i].attr.len_bytes == Some(l) && f@ == field_attrs@[i].field@ && match (
                v,
                field_attrs@[i].variant,
            ) {
                (None, None) => true,
                (Some(a), Some(b)) => a@ == b@,
                _ => false,
            },
        r matches Err(e) ==> e is InvalidLenBytes,
{
    let mut i: usize = 0;
    while i < field_attrs.len()
        invariant
            i <= field_attrs@.len(),
            all_len_bytes_valid(field_attrs@.subrange(0, i as int)),
        decreases field_attrs@.len() - i,
    {
        let e = &field_attrs[i];
        if let Some(lb) = e.attr.len_bytes {
            let checked = validate_len_bytes(lb, e.variant.as_ref(), &e.field);
            if let Err(err) = checked {
                assert(field_attrs@[i as int] == *e);
                return Err(err);
            }
        }
        assert(all_len_bytes_valid(field_attrs@.subrange(0, i + 1))) by {
            assert forall|j: int| 0 <= j < i + 1 implies match (#[trigger] field_attrs@.subrange(
                0,
                i + 1,
            )[j]).attr.len_bytes {
                Some(l) => l == 1 || l == 2 || l == 4,
                None => true,
            } by {
                if j < i {
                    assert(field_attrs@.subrange(0, i + 1)[j] == field_attrs@.subrange(0, i as int)[j]);
                }
            }
        }
        i = i + 1;
    }
    assert(field_attrs@.subrange(0, i as int) =~= field_attrs@);
    Ok(BinSardAttributes {
        bits: type_attr.bits,
        reserve_bits: type_attr.reserve_bits,
        field_attrs,
    })
}

// ---------------------------------------------------------------------------
// Enum tags.

/// The number of variants a tag of `bits` bits can number: `2^bits`, or
/// `usize::MAX` when the shift does not fit a `usize` (the width is taken
/// modulo `2^32` first, as a 32-bit shift amount).
pub open spec fn max_variants_spec(bits: usize) -> nat {
    let s = (bits as nat) % 0x1_0000_0000;
    if s < usize::BITS {
        pow2(s)
    } else {
        usize::MAX as nat
    }
}

/// The number of variants a tag of `bits` bits can number.
pub fn max_variants(bits: usize) -> (r: usize)
    ensures
        r == max_variants_spec(bits),
{
    let s: u64 = (bits as u64) % 0x1_0000_0000u64;
    if s < usize::BITS as u64 {
        proof {
            lemma_usize_pow2_no_overflow(s as nat);
            lemma_usize_shl_is_mul(1usize, s as usize);
        }
        1usize << (s as usize)
    } else {
        usize::MAX
    }
}

/// Check that an enum's variants can all be numbered by its tag width.
pub fn check_tag_width(count: usize, bits: usize) -> (r: Result<(), AttributeError>)
    ensures
        r is Ok <==> count <= max_variants_spec(bits),
        r matches Err(e) ==> e == (AttributeError::TooManyVariants {
            count,
            bits,
            max: max_variants_spec(bits) as usize,
        }),
{
    let max = max_variants(bits);
    if count > max {
        Err(AttributeError::TooManyVariants { count, bits, max })
    } else {
        Ok(())
    }
}

// ---------------------------------------------------------------------------
// Field codecs.

/// How one field is laid out.
#[derive(Debug, Clone, Copy, PartialEq, Eq, Structural)]
pub enum FieldCodec {
    /// One bit in the bit-packed region.
    Bit,
    /// The lowest `n` bits in the bit-packed region.
    Bits { n: usize },
    /// `width` big-endian bytes in the data region.
    BigEndian { width: usize },
    /// A UTF-8 string after a `len_bytes`-byte length prefix.
    Str { len_bytes: usize },
    /// Raw bytes after a `len_bytes`-byte length prefix.
    Bytes { len_bytes: usize },
    /// A `len_bytes`-byte element count, then the elements in turn.
    List { len_bytes: usize },
    /// `size` raw bytes without a prefix.
    Raw { size: usize },
    /// A nested struct or enum, sharing the data region and the bit stream.
    Nested,
}

/// The layout of a field of kind `kind` with the given attributes.
///
/// `bool` is one bit; an integer is its big-endian bytes, or `bits` bits
/// when that attribute is given; `String` has a 1-byte prefix, `Vec<u8>` a
/// 2-byte prefix and any other `Vec` a 1-byte prefix, unless `len_bytes` is
/// given; a byte array is its raw bytes; anything else is nested.
pub open spec fn field_codec_spec(
    kind: KindModel,
    bits_attr: Option<usize>,
    len_bytes_attr: Option<usize>,
) -> FieldCodec {
    match kind {
        KindModel::Bool => FieldCodec::Bit,
        KindModel::Str => FieldCodec::Str {
            len_bytes: match len_bytes_attr {
                Some(l) => l,
                None => 1,
            },
        },
        KindModel::Primitive(p) => match bits_attr {
            Some(n) => FieldCodec::Bits { n },
            None => FieldCodec::BigEndian { width: byte_size_spec(p) as usize },
        },
        KindModel::List(inner) => if inner == "u8"@ {
            FieldCodec::Bytes {
                len_bytes: match len_bytes_attr {
                    Some(l) => l,
                    None => 2,
                },
            }
        } else {
            FieldCodec::List {
                len_bytes: match len_bytes_attr {
                    Some(l) => l,
                    None => 1,
                },
            }
        },
        KindModel::Array(n) => FieldCodec::Raw { size: n as usize },
        KindModel::Nested(_) => FieldCodec::Nested,
    }
}

/// The layout of a field of kind `kind` with the given attributes.
pub fn field_codec(kind: &FieldKind, bits_attr: Option<usize>, len_bytes_attr: Option<usize>) -> (r:
    FieldCodec)
    ensures
        r == field_codec_spec(kind@, bits_attr, len_bytes_attr),
{
    match kind {
        FieldKind::Bool => FieldCodec::Bit,
        FieldKind::String => FieldCodec::Str {
            len_bytes: match len_bytes_attr {
                Some(l) => l,
                None => 1,
            },
        },
        FieldKind::Primitive { kind } => match bits_attr {
            Some(n) => FieldCodec::Bits { n },
            None => FieldCodec::BigEndian { width: get_byte_size(*kind) },
        },
        FieldKind::Vec { inner_type } => if name_is(inner_type, "u8") {
            FieldCodec::Bytes {
                len_bytes: match len_bytes_attr {
                    Some(l) => l,
                    None => 2,
                },
            }
        } else {
            FieldCodec::List {
                len_bytes: match len_bytes_attr {
                    Some(l) => l,
                    None => 1,
                },
            }
        },
        FieldKind::Array { size } => FieldCodec::Raw { size: *size },
        FieldKind::StructOrEnum { .. } => FieldCodec::Nested,
    }
}

} // verus!
