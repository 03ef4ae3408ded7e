//! Reading a type definition into what the encoder walks: for a struct its
//! fields, for an enum its variants and their fields, each field with its
//! name, whether it is optional, and its kind.
use vstd::prelude::*;
use vstd::string::StringExecFns;

use crate::schema::{classify_spec, classify_type, ClassifyError, FieldKind, KindModel};

verus! {

/// A field of a type definition: its name (none for a tuple field) and its
/// type.
pub struct FieldDesc {
    pub ident: Option<String>,
    pub ty: crate::schema::TypeDesc,
}

/// The fields of a struct or of an enum variant as written.
pub enum FieldsDesc {
    Named(Vec<FieldDesc>),
    Unnamed(Vec<FieldDesc>),
    Unit,
}

/// An enum variant as written.
pub struct VariantDesc {
    pub ident: String,
    pub fields: FieldsDesc,
}

/// The body of a type definition.
pub enum DataDesc {
    Struct(FieldsDesc),
    Enum(Vec<VariantDesc>),
    Union,
}

/// A type definition as a derive receives it: its name and its body.
pub struct InputDesc {
    pub ident: String,
    pub data: DataDesc,
}

/// A field after classification.
pub struct FieldInfo {
    pub name: Option<String>,
    pub optional: bool,
    pub kind: FieldKind,
}

/// The classified fields of a struct or of an enum variant.
pub enum Fields {
    Named { fields: Vec<FieldInfo> },
    Unnamed { fields: Vec<FieldInfo> },
    Unit,
}

/// An enum variant with its classified fields.
pub struct EnumVariant {
    pub variant: String,
    pub fields: Fields,
}

/// A classified type definition.
pub enum StructOrEnum {
    Struct { name: String, fields: Fields },
    Enum { name: String, variants: Vec<EnumVariant> },
}

/// The optional name as a character sequence.
pub open spec fn opt_view(n: Option<String>) -> Option<Seq<char>> {
    match n {
        Some(s) => Some(s@),
        None => None,
    }
}

/// The error of the first field, in declaration order, whose type cannot
/// be classified.
pub open spec fn first_field_error(ds: Seq<FieldDesc>) -> Option<ClassifyError>
    decreases ds.len(),
{
    if ds.len() == 0 {
        None
    } else {
        match first_field_error(ds.drop_last()) {
            Some(e) => Some(e),
            None => match classify_spec(ds.last().ty) {
                Err(e) => Some(e),
                Ok(_) => None,
            },
        }
    }
}

/// The error of the first field of `d` that cannot be classified.
pub open spec fn fields_error(d: FieldsDesc) -> Option<ClassifyError> {
    match d {
        FieldsDesc::Named(ds) => first_field_error(ds@),
        FieldsDesc::Unnamed(ds) => first_field_error(ds@),
        FieldsDesc::Unit => None,
    }
}

/// `f` is the field `d` classified: its name (kept for named fields only),
/// and the optionality and kind that classification gives its type.
pub open spec fn field_read(f: FieldInfo, d: FieldDesc, named: bool) -> bool {
    &&& opt_view(f.name) == (if named {
        opt_view(d.ident)
    } else {
        None
    })
    &&& classify_spec(d.ty) == Ok::<(bool, KindModel), ClassifyError>((f.optional, f.kind@))
}

/// `out` is the fields `ds` classified one by one.
pub open spec fn field_list_read(out: Seq<FieldInfo>, ds: Seq<FieldDesc>, named: bool) -> bool {
    &&& out.len() == ds.len()
    &&& forall|i: int| 0 <= i < ds.len() ==> field_read(#[trigger] out[i], ds[i], named)
}

/// `f` is `d` classified, of the same form.
pub open spec fn fields_read(f: Fields, d: FieldsDesc) -> bool {
    match (f, d) {
        (Fields::Named { fields }, FieldsDesc::Named(ds)) => field_list_read(fields@, ds@, true),
        (Fields::Unnamed { fields }, FieldsDesc::Unnamed(ds)) => field_list_read(fields@, ds@, false),
        (Fields::Unit, FieldsDesc::Unit) => true,
        _ => false,
    }
}

/// The error of the first variant, in declaration order, with a field that
/// cannot be classified.
pub open spec fn first_variant_error(vs: Seq<VariantDesc>) -> Option<ClassifyError>
    decreases vs.len(),
{
    if vs.len() == 0 {
        None
    } else {
        match first_variant_error(vs.drop_last()) {
            Some(e) => Some(e),
            None => fields_error(vs.last().fields),
        }
    }
}

/// `v` is the variant `d` classified.
pub open spec fn variant_read(v: EnumVariant, d: VariantDesc) -> bool {
    v.variant@ == d.ident@ && fields_read(v.fields, d.fields)
}

/// Why a type definition cannot be read, if it cannot.
pub open spec fn input_error(input: InputDesc) -> Option<ClassifyError> {
    match input.data {
        DataDesc::Struct(d) => fields_error(d),
        DataDesc::Enum(vs) => first_variant_error(vs@),
        DataDesc::Union => Some(ClassifyError::UnionNotSupported),
    }
}

/// `r` is the type definition `input` classified.
pub open spec fn input_read(r: StructOrEnum, input: InputDesc) -> bool {
    match (r, input.data) {
        (StructOrEnum::Struct { name, fields }, DataDesc::Struct(d)) => name@ == input.ident@
            && fields_read(fields, d),
        (StructOrEnum::Enum { name, variants }, DataDesc::Enum(vs)) => {
            &&& name@ == input.ident@
            &&& variants@.len() == vs@.len()
            &&& forall|i: int| 0 <= i < vs@.len() ==> variant_read(#[trigger] variants@[i], vs@[i])
        },
        _ => false,
    }
}

/// Once a prefix of the fields holds an error, the first error of all the
/// fields is that one.
proof fn lemma_field_error_extends(ds: Seq<FieldDesc>, k: int)
    requires
        0 <= k <= ds.len(),
        first_field_error(ds.subrange(0, k)) is Some,
    ensures
        first_field_error(ds) == first_field_error(ds.subrange(0, k)),
    decreases ds.len() - k,
{
    if k == ds.len() {
        assert(ds.subrange(0, k) =~= ds);
    } else {
        assert(ds.subrange(0, k + 1).drop_last() =~= ds.subrange(0, k));
        lemma_field_error_extends(ds, k + 1);
    }
}

/// Once a prefix of the variants holds an error, the first error of all
/// the variants is that one.
proof fn lemma_variant_error_extends(vs: Seq<VariantDesc>, k: int)
    requires
        0 <= k <= vs.len(),
        first_variant_error(vs.subrange(0, k)) is Some,
    ensures
        first_variant_error(vs) == first_variant_error(vs.subrange(0, k)),
    decreases vs.len() - k,
{
    if k == vs.len() {
        assert(vs.subrange(0, k) =~= vs);
    } else {
        assert(vs.subrange(0, k + 1).drop_last() =~= vs.subrange(0, k));
        lemma_variant_error_extends(vs, k + 1);
    }
}

/// A copy of an optional name.
fn clone_name(n: &Option<String>) -> (r: Option<String>)
    ensures
        opt_view(r) == opt_view(*n),
{
    match n {
        Some(s) => Some(s.clone()),
        None => None,
    }
}

/// Classify a list of fields in order; the first failure is returned.
fn parse_field_list(ds: &Vec<FieldDesc>, named: bool) -> (r: Result<Vec<FieldInfo>, ClassifyError>)
    ensures
        match r {
            Ok(out) => first_field_error(ds@) is None && field_list_read(out@, ds@, named),
            Err(e) => first_field_error(ds@) == Some(e),
        },
{
    let mut out: Vec<FieldInfo> = Vec::new();
    let mut i: usize = 0;
    while i < ds.len()
        invariant
            i <= ds@.len(),
            first_field_error(ds@.subrange(0, i as int)) is None,
            field_list_read(out@, ds@.subrange(0, i as int), named),
        decreases ds@.len() - i,
    {
        let d = &ds[i];
        let ghost next = ds@.subrange(0, i + 1);
        assert(next.drop_last() =~= ds@.subrange(0, i as int));
        assert(next.last() == ds@[i as int]);
        match classify_type(&d.ty) {
            Ok((optional, kind)) => {
                let name = if named {
                    clone_name(&d.ident)
                } else {
                    None
                };
                out.push(FieldInfo { name, optional, kind });
                assert(field_list_read(out@, next, named)) by {
                    assert forall|j: int| 0 <= j < next.len() implies field_read(
                        #[trigger] out@[j],
                        next[j],
                        named,
                    ) by {
                        if j < i {
                            assert(next[j] == ds@.subrange(0, i as int)[j]);
                        }
                    }
                }
            },
            Err(e) => {
                proof {
                    lemma_field_error_extends(ds@, i + 1);
                }
                return Err(e);
            },
        }
        i = i + 1;
    }
    assert(ds@.subrange(0, i as int) =~= ds@);
    Ok(out)
}

/// Classify the fields of a struct or of an enum variant; the first field
/// whose type cannot be classified gives the error.
pub fn parse_fields(d: &FieldsDesc) -> (r: Result<Fields, ClassifyError>)
    ensures
        match r {
            Ok(f) => fields_error(*d) is None && fields_read(f, *d),
            Err(e) => fields_error(*d) == Some(e),
        },
{
    match d {
        FieldsDesc::Named(ds) => match parse_field_list(ds, true) {
            Ok(fields) => Ok(Fields::Named { fields }),
            Err(e) => Err(e),
        },
        FieldsDesc::Unnamed(ds) => match parse_field_list(ds, false) {
            Ok(fields) => Ok(Fields::Unnamed { fields }),
            Err(e) => Err(e),
        },
        FieldsDesc::Unit => Ok(Fields::Unit),
    }
}

/// Classify the variants of an enum in order; the first failure is
/// returned.
fn parse_variants(vs: &Vec<VariantDesc>) -> (r: Result<Vec<EnumVariant>, ClassifyError>)
    ensures
        match r {
            Ok(out) => first_variant_error(vs@) is None && out@.len() == vs@.len() && forall|i: int|
                0 <= i < vs@.len() ==> variant_read(#[trigger] out@[i], vs@[i]),
            Err(e) => first_variant_error(vs@) == Some(e),
        },
{
    let mut out: Vec<EnumVariant> = Vec::new();
    let mut i: usize = 0;
    while i < vs.len()
        invariant
            i <= vs@.len(),
            first_variant_error(vs@.subrange(0, i as int)) is None,
            out@.len() == i,
            forall|j: int| 0 <= j < i ==> variant_read(#[trigger] out@[j], vs@[j]),
        decreases vs@.len() - i,
    {
        let v = &vs[i];
        let ghost next = vs@.subrange(0, i + 1);
        assert(next.drop_last() =~= vs@.subrange(0, i as int));
        assert(next.last() == vs@[i as int]);
        match parse_fields(&v.fields) {
            Ok(fields) => {
                out.push(EnumVariant { variant: v.ident.clone(), fields });
            },
            Err(e) => {
                proof {
                    lemma_variant_error_extends(vs@, i + 1);
                }
                return Err(e);
            },
        }
        i = i + 1;
    }
    assert(vs@.subrange(0, i as int) =~= vs@);
    Ok(out)
}

impl StructOrEnum {
    /// Classify a type definition: a struct's fields, or each variant's
    /// fields in turn. The first field whose type cannot be classified
    /// gives the error, and a union is refused.
    pub fn parse(input: &InputDesc) -> (r: Result<StructOrEnum, ClassifyError>)
        ensures
            match r {
                Ok(s) => input_error(*input) is None && input_read(s, *input),
                Err(e) => input_error(*input) == Some(e),
            },
    {
        match &input.data {
            DataDesc::Struct(d) => match parse_fields(d) {
                Ok(fields) => Ok(StructOrEnum::Struct { name: input.ident.clone(), fields }),
                Err(e) => Err(e),
            },
            DataDesc::Enum(vs) => match parse_variants(vs) {
                Ok(variants) => Ok(StructOrEnum::Enum { name: input.ident.clone(), variants }),
                Err(e) => Err(e),
            },
            DataDesc::Union => Err(ClassifyError::UnionNotSupported),
        }
    }
}

// ---------------------------------------------------------------------------
// Names of generated modules.

/// The lowercase form of a string, as `str::to_lowercase` computes it.
pub uninterp spec fn lowercase(s: Seq<char>) -> Seq<char>;

/// `str::to_lowercase`. The contract claims only that the result depends
/// on the characters of `s` alone, and names it [`lowercase`]; the Unicode
/// case mapping itself is left unsaid.
#[verifier::external_body]
fn to_lowercase(s: &str) -> (r: String)
    ensures
        r@ == lowercase(s@),
{
    s.to_lowercase()
}

/// The name of the module holding the impls generated for a type, from
/// the type's name already lowercased: `__binsard_{suffix}_{lower}`.
pub fn mod_name_from_lower(lower: &str, suffix: &str) -> (r: String)
    ensures
        r@ == "__binsard_"@ + suffix@ + "_"@ + lower@,
{
    let mut r = "__binsard_".to_owned();
    r.append(suffix);
    r.append("_");
    r.append(lower);
    r
}

/// The name of the module holding the impls generated for the type `name`:
/// `__binsard_{suffix}_{name in lowercase}`.
pub fn make_mod_name(name: &String, suffix: &str) -> (r: String)
    ensures
        r@ == "__binsard_"@ + suffix@ + "_"@ + lowercase(name@),
{
    let lower = to_lowercase(name.as_str());
    mod_name_from_lower(lower.as_str(), suffix)
}

} // verus!
