//! The input to the derive macros: the item as parsed, and as prepared for
//! deriving mappings.
use vstd::prelude::*;

use proc_macro2::TokenStream;

use crate::generics::{copy_bounds, GenParam, GenericParamV, WherePred, WherePredV};
use crate::ident::{CRATE_IDENT, TRAIT_IDENT};
use crate::ident_collector::IdentCollector;
use crate::opts::{
    absent_errors, assert_absent, attributes_v, opt_path_v, attrs_fit, opts_of, opts_read, params_view, Attr, AttributeV,
    FuncMapOpts, LexOutcome, Param, ParamV,
};
use crate::result::{Builder, DeriveError};
use crate::syntax::{bounds_v, ArgsV, Name, PathArgs, PathV, Segment, SegmentV, Ty, TyPath, TyV, TypeBound, TypeBoundV};

verus! {

/// Generic parameters with their `where` clause, and the tokens of the
/// parameter list (empty when there is none), which locate errors.
#[derive(Debug)]
pub struct GenericList {
    pub params: Vec<GenParam>,
    pub where_clause: Option<Vec<WherePred>>,
    pub tokens: TokenStream,
}

/// The view of generics.
pub struct GenericsV {
    pub params: Seq<GenericParamV>,
    pub where_clause: Option<Seq<WherePredV>>,
}

pub open spec fn params_v(ps: Seq<GenParam>) -> Seq<GenericParamV> {
    ps.map_values(|p: GenParam| p@)
}

pub open spec fn preds_v(ps: Seq<WherePred>) -> Seq<WherePredV> {
    ps.map_values(|p: WherePred| p@)
}

impl View for GenericList {
    type V = GenericsV;

    open spec fn view(&self) -> GenericsV {
        GenericsV {
            params: params_v(self.params@),
            where_clause: match self.where_clause {
                Some(w) => Some(preds_v(w@)),
                None => None,
            },
        }
    }
}

/// Meta information for deriving mappings.
#[derive(Debug)]
pub struct FuncMapMeta {
    /// Path to the crate that defines the derivable traits.
    pub crate_path: TyPath,
    /// Collector in which all identifiers that occur within the definition
    /// of the type are already reserved.
    pub ident_collector: IdentCollector,
}

/// Type parameter for which to derive a mapping.
#[derive(Debug)]
pub struct MappedTypeParam {
    /// 0-based index of the type parameter within *all* parameters of the
    /// type, including lifetimes and const generics.
    pub param_idx: usize,
    /// 0-based index of the type parameter within the type and const
    /// parameters of the type: the index of its marker type.
    pub marker_idx: usize,
    /// Identifier of the type parameter.
    pub ident: Name,
    /// Bounds of the type parameter.
    pub bounds: Vec<TypeBound>,
}

/// The view of a mapped type parameter.
pub struct MappedTypeParamV {
    pub param_idx: usize,
    pub marker_idx: usize,
    pub ident: Seq<char>,
    pub bounds: Seq<TypeBoundV>,
}

impl View for MappedTypeParam {
    type V = MappedTypeParamV;

    open spec fn view(&self) -> MappedTypeParamV {
        MappedTypeParamV {
            param_idx: self.param_idx,
            marker_idx: self.marker_idx,
            ident: self.ident@,
            bounds: bounds_v(self.bounds@),
        }
    }
}

/// Either a struct or a variant of an enum.
#[derive(Debug)]
pub struct Structish {
    /// Name of the variant; for structs, `None`.
    pub variant_ident: Option<Name>,
    /// Fields of the struct or variant.
    pub fields: Vec<Fieldish>,
}

/// Field of a struct or variant.
#[derive(Debug)]
pub struct Fieldish {
    /// Identifier of the field; for tuple structs and variants, `None`.
    pub ident: Option<Name>,
    /// Type of the field.
    pub ty: Ty,
}

/// The view of a field.
pub struct FieldishV {
    pub ident: Option<Seq<char>>,
    pub ty: TyV,
}

/// The view of a struct or variant.
pub struct StructishV {
    pub variant_ident: Option<Seq<char>>,
    pub fields: Seq<FieldishV>,
}

pub open spec fn opt_name_v(n: Option<Name>) -> Option<Seq<char>> {
    match n {
        Some(n) => Some(n@),
        None => None,
    }
}

pub open spec fn fieldish_v(f: Fieldish) -> FieldishV {
    FieldishV { ident: opt_name_v(f.ident), ty: f.ty@ }
}

pub open spec fn structish_v(s: Structish) -> StructishV {
    StructishV {
        variant_ident: opt_name_v(s.variant_ident),
        fields: s.fields@.map_values(|f: Fieldish| fieldish_v(f)),
    }
}

/// Input to a derive macro, prepared for deriving mappings.
#[derive(Debug)]
pub struct FuncMapInput {
    /// Meta information for deriving mappings.
    pub meta: FuncMapMeta,
    /// Identifier of the type for which to derive mappings.
    pub ident: Name,
    /// Generics of the type for which to derive mappings.
    pub generics: GenericList,
    /// Type parameters for which to derive mappings.
    pub mapped_type_params: Vec<MappedTypeParam>,
    /// Variants of the type; for structs, a single one.
    pub variants: Vec<Structish>,
}

/// The view of a prepared input, but for its identifier collector.
pub struct FuncMapInputV {
    pub crate_path: PathV,
    pub ident: Seq<char>,
    pub generics: GenericsV,
    pub mapped_type_params: Seq<MappedTypeParamV>,
    pub variants: Seq<StructishV>,
}

impl View for FuncMapInput {
    type V = FuncMapInputV;

    open spec fn view(&self) -> FuncMapInputV {
        FuncMapInputV {
            crate_path: self.meta.crate_path@,
            ident: self.ident@,
            generics: self.generics@,
            mapped_type_params: self.mapped_type_params@.map_values(|p: MappedTypeParam| p@),
            variants: self.variants@.map_values(|s: Structish| structish_v(s)),
        }
    }
}


// ---------------------------------------------------------------------------
// The item as parsed

/// A field of a struct or variant: its attributes, its identifier (none for
/// tuple fields) and its type.
#[derive(Debug)]
pub struct ItemField {
    pub attrs: Vec<Attr>,
    pub ident: Option<Name>,
    pub ty: Ty,
}

/// A variant of an enum: its attributes, its identifier and its fields.
#[derive(Debug)]
pub struct ItemVariant {
    pub attrs: Vec<Attr>,
    pub ident: Name,
    pub fields: Vec<ItemField>,
}

/// The data of an item: the fields of a struct, the variants of an enum,
/// or a union, of which only its `union` token is kept.
#[derive(Debug)]
pub enum Data {
    Struct(Vec<ItemField>),
    Enum(Vec<ItemVariant>),
    Union { union_token: TokenStream },
}

/// An item to derive mappings for, as parsed: its attributes, identifier,
/// generics and data, and the identifiers that occur anywhere in it, in the
/// order in which a visitor of the syntax tree meets them.
#[derive(Debug)]
pub struct ParsedItem {
    pub attrs: Vec<Attr>,
    pub ident: Name,
    pub generics: GenericList,
    pub data: Data,
    pub idents: Vec<String>,
}

/// The view of a field.
pub struct FieldV {
    pub attrs: Seq<AttributeV>,
    pub ident: Option<Seq<char>>,
    pub ty: TyV,
}

/// The view of a variant.
pub struct VariantV {
    pub attrs: Seq<AttributeV>,
    pub ident: Seq<char>,
    pub fields: Seq<FieldV>,
}

/// The view of the data of an item.
pub enum DataV {
    Struct(Seq<FieldV>),
    Enum(Seq<VariantV>),
    Union,
}

/// The view of an item as parsed.
pub struct ParsedItemV {
    pub attrs: Seq<AttributeV>,
    pub ident: Seq<char>,
    pub generics: GenericsV,
    pub data: DataV,
    pub idents: Seq<Seq<char>>,
}

pub open spec fn field_v(f: ItemField) -> FieldV {
    FieldV { attrs: attributes_v(f.attrs@), ident: opt_name_v(f.ident), ty: f.ty@ }
}

pub open spec fn fields_v(fs: Seq<ItemField>) -> Seq<FieldV> {
    fs.map_values(|f: ItemField| field_v(f))
}

pub open spec fn variant_v(v: ItemVariant) -> VariantV {
    VariantV { attrs: attributes_v(v.attrs@), ident: v.ident@, fields: fields_v(v.fields@) }
}

impl View for ParsedItem {
    type V = ParsedItemV;

    open spec fn view(&self) -> ParsedItemV {
        ParsedItemV {
            attrs: attributes_v(self.attrs@),
            ident: self.ident@,
            generics: self.generics@,
            data: match self.data {
                Data::Struct(fs) => DataV::Struct(fields_v(fs@)),
                Data::Enum(vs) => DataV::Enum(vs@.map_values(|v: ItemVariant| variant_v(v))),
                Data::Union { .. } => DataV::Union,
            },
            idents: self.idents@.map_values(|s: String| s@),
        }
    }
}

// ---------------------------------------------------------------------------
// Preparing the input

/// The parameter named by `p` is `g`.
pub open spec fn param_matches(g: GenericParamV, p: ParamV) -> bool {
    match (p, g) {
        (ParamV::Lifetime(l), GenericParamV::Lifetime { lifetime, .. }) => l == lifetime,
        (ParamV::TypeOrConst(n), GenericParamV::Type { ident, .. }) => n == ident,
        (ParamV::TypeOrConst(n), GenericParamV::Const { ident, .. }) => n == ident,
        _ => false,
    }
}

/// The first of `params` that `p` names.
pub open spec fn first_match(params: Seq<GenericParamV>, p: ParamV) -> Option<GenericParamV>
    decreases params.len(),
{
    if params.len() == 0 {
        None
    } else if param_matches(params[0], p) {
        Some(params[0])
    } else {
        first_match(params.skip(1), p)
    }
}

/// The messages of the errors for the parameters `ps` named in the options,
/// and the identifiers of the type parameters among them, in order.
pub open spec fn check_params(params: Seq<GenericParamV>, ps: Seq<ParamV>) -> (Seq<Seq<char>>, Seq<Seq<char>>)
    decreases ps.len(),
{
    if ps.len() == 0 {
        (Seq::empty(), Seq::empty())
    } else {
        let (errors, selected) = check_params(params, ps.drop_last());
        match first_match(params, ps.last()) {
            Some(GenericParamV::Type { ident, .. }) => (errors, selected.push(ident)),
            Some(GenericParamV::Lifetime { .. }) => (errors.push("cannot implement "@ + TRAIT_IDENT@ + " over lifetime parameter"@), selected),
            Some(GenericParamV::Const { .. }) => (errors.push("cannot implement "@ + TRAIT_IDENT@ + " over const generic"@), selected),
            None => (errors.push("unknown generic parameter"@), selected),
        }
    }
}

/// The number of type and const parameters among `params`.
pub open spec fn count_typish_params(params: Seq<GenericParamV>) -> nat
    decreases params.len(),
{
    if params.len() == 0 {
        0
    } else {
        count_typish_params(params.drop_last()) + if params.last() is Lifetime { 0nat } else { 1nat }
    }
}

/// The type parameters to derive mappings for: all of them if `selected` is
/// empty, and otherwise those that it names.
pub open spec fn mapped_params(params: Seq<GenericParamV>, selected: Seq<Seq<char>>) -> Seq<MappedTypeParamV>
    decreases params.len(),
{
    if params.len() == 0 {
        Seq::empty()
    } else {
        let rest = mapped_params(params.drop_last(), selected);
        match params.last() {
            GenericParamV::Type { ident, bounds, .. } => if selected.len() == 0 || selected.contains(ident) {
                rest.push(MappedTypeParamV {
                    param_idx: (params.len() - 1) as usize,
                    marker_idx: count_typish_params(params.drop_last()) as usize,
                    ident,
                    bounds,
                })
            } else {
                rest
            },
            _ => rest,
        }
    }
}

/// The messages of the errors for the fields `fs`: one per helper attribute
/// on a field.
pub open spec fn fields_errors(fs: Seq<FieldV>) -> Seq<Seq<char>>
    decreases fs.len(),
{
    if fs.len() == 0 {
        Seq::empty()
    } else {
        fields_errors(fs.drop_last()) + absent_errors(fs.last().attrs, "fields"@)
    }
}

/// The messages of the errors for the variants `vs`: for each, one per
/// helper attribute on it, then those of its fields.
pub open spec fn variants_errors(vs: Seq<VariantV>) -> Seq<Seq<char>>
    decreases vs.len(),
{
    if vs.len() == 0 {
        Seq::empty()
    } else {
        variants_errors(vs.drop_last()) + absent_errors(vs.last().attrs, "variants"@) + fields_errors(vs.last().fields)
    }
}

/// The messages of the errors for the data `d`.
pub open spec fn data_errors(d: DataV) -> Seq<Seq<char>> {
    match d {
        DataV::Struct(fs) => fields_errors(fs),
        DataV::Enum(vs) => variants_errors(vs),
        DataV::Union => seq!["expected a struct or an enum, found a union"@],
    }
}

pub open spec fn fieldish_of(f: FieldV) -> FieldishV {
    FieldishV { ident: f.ident, ty: f.ty }
}

/// The variants to derive mappings for: a struct has one, without an
/// identifier.
pub open spec fn variants_of(d: DataV) -> Seq<StructishV> {
    match d {
        DataV::Struct(fs) => seq![StructishV { variant_ident: None, fields: fs.map_values(|f: FieldV| fieldish_of(f)) }],
        DataV::Enum(vs) => vs.map_values(|v: VariantV| StructishV {
            variant_ident: Some(v.ident),
            fields: v.fields.map_values(|f: FieldV| fieldish_of(f)),
        }),
        DataV::Union => Seq::empty(),
    }
}

/// The message of the error for an item without type parameters.
pub open spec fn no_type_param_message() -> Seq<char> {
    "expected at least one type parameter, found none"@
}

/// The default path to the crate: `::funcmap`.
pub open spec fn default_crate_path() -> PathV {
    PathV {
        qself: None,
        leading_colon: true,
        segments: seq![SegmentV { ident: CRATE_IDENT@, args: ArgsV::Plain }],
        trailing_colon: false,
    }
}

/// The messages of the errors for preparing `di`, once its options were
/// read without error.
pub open spec fn input_errors(di: ParsedItemV, lex: spec_fn(int, int) -> LexOutcome) -> Seq<Seq<char>> {
    let opts = opts_of(di.attrs, lex);
    let (perrs, selected) = check_params(di.generics.params, opts.params);
    let mapped = mapped_params(di.generics.params, selected);
    perrs + (if mapped.len() == 0 { seq![no_type_param_message()] } else { Seq::empty() }) + data_errors(di.data)
}

/// `res` is what preparing `di` for deriving mappings gives, where lexing
/// the literal of a crate path at position `p` of the tokens of attribute `k`
/// has the outcome `lex(k, p)`.
pub open spec fn input_read(di: ParsedItemV, lex: spec_fn(int, int) -> LexOutcome, res: Result<FuncMapInput, DeriveError>) -> bool {
    let opts = opts_of(di.attrs, lex);
    if opts.failed {
        res matches Err(e) && e.messages() == opts.errors
    } else {
        let errors = input_errors(di, lex);
        &&& res is Ok <==> errors.len() == 0
        &&& res matches Ok(input) ==> input@ == prepared(di, lex)
            && input.meta.ident_collector.reserved() == di.idents.to_set()
        &&& res matches Err(e) ==> e.messages() == errors
    }
}

/// The prepared input for `di`, once no error occurred.
pub open spec fn prepared(di: ParsedItemV, lex: spec_fn(int, int) -> LexOutcome) -> FuncMapInputV {
    let opts = opts_of(di.attrs, lex);
    let (perrs, selected) = check_params(di.generics.params, opts.params);
    FuncMapInputV {
        crate_path: match opts.crate_path {
            Some(p) => p,
            None => default_crate_path(),
        },
        ident: di.ident,
        generics: di.generics,
        mapped_type_params: mapped_params(di.generics.params, selected),
        variants: variants_of(di.data),
    }
}


/// Prepares the fields of a struct or variant.
///
/// # Errors
/// Fails with one message per helper attribute on a field.
fn prepare_fields(fields: Vec<ItemField>) -> (res: Result<Vec<Fieldish>, DeriveError>)
    ensures
        res is Ok <==> fields_errors(fields_v(fields@)).len() == 0,
        res matches Ok(fs) ==> fs@.map_values(|f: Fieldish| fieldish_v(f)) == fields_v(fields@).map_values(|f: FieldV| fieldish_of(f)),
        res matches Err(e) ==> e.messages() == fields_errors(fields_v(fields@)),
{
    let ghost xs = fields@;
    let mut builder = Builder::new();
    let mut out: Vec<Fieldish> = Vec::new();
    for field in it: fields
        invariant
            xs == it.seq(),
            builder.messages() == fields_errors(fields_v(xs.take(it.index() as int))),
            builder.has_error() == (builder.messages().len() > 0),
            !builder.has_error() ==> out@.map_values(|f: Fieldish| fieldish_v(f))
                == fields_v(xs.take(it.index() as int)).map_values(|f: FieldV| fieldish_of(f)),
    {
        let ghost i = it.index() as int;
        proof {
            assert(fields_v(xs.take(i + 1)).drop_last() =~= fields_v(xs.take(i)));
            assert(fields_v(xs.take(i + 1)).last() == field_v(field));
        }
        let ghost before = out@.map_values(|f: Fieldish| fieldish_v(f));
        match assert_absent(&field.attrs, "fields") {
            Ok(()) => {
                let ghost fv = field_v(field);
                out.push(Fieldish { ident: field.ident, ty: field.ty });
                proof {
                    assert(out@.map_values(|f: Fieldish| fieldish_v(f)) =~= before.push(fieldish_of(fv)));
                    assert(fields_v(xs.take(i + 1)).map_values(|f: FieldV| fieldish_of(f))
                        =~= fields_v(xs.take(i)).map_values(|f: FieldV| fieldish_of(f)).push(fieldish_of(fv)));
                    assert(builder.messages() + absent_errors(fv.attrs, "fields"@) =~= builder.messages());
                }
            },
            Err(e) => {
                builder.add_error(e);
            },
        }
    }
    proof {
        assert(xs.take(xs.len() as int) =~= xs);
    }
    builder.err_or(out)
}

/// Prepares a variant of an enum.
///
/// # Errors
/// Fails with one message per helper attribute on the variant, then one per
/// helper attribute on its fields.
fn prepare_variant(variant: ItemVariant) -> (res: Result<Structish, DeriveError>)
    ensures
        ({
            let v = variant_v(variant);
            let errors = absent_errors(v.attrs, "variants"@) + fields_errors(v.fields);
            &&& res is Ok <==> errors.len() == 0
            &&& res matches Ok(s) ==> structish_v(s) == StructishV {
                variant_ident: Some(v.ident),
                fields: v.fields.map_values(|f: FieldV| fieldish_of(f)),
            }
            &&& res matches Err(e) ==> e.messages() == errors
        }),
{
    let ghost v = variant_v(variant);
    let mut builder = Builder::new();
    match assert_absent(&variant.attrs, "variants") {
        Ok(()) => {},
        Err(e) => builder.add_error(e),
    }
    assert(builder.messages() =~= absent_errors(v.attrs, "variants"@));
    match prepare_fields(variant.fields) {
        Ok(fields) => {
            let s = Structish { variant_ident: Some(variant.ident), fields };
            assert(builder.messages() + fields_errors(v.fields) =~= builder.messages());
            builder.err_or(s)
        },
        Err(e) => {
            builder.add_error(e);
            builder.err_or(Structish { variant_ident: None, fields: Vec::new() })
        },
    }
}

/// Prepares the data of the item: its variants, a struct counting as one
/// variant without identifier.
///
/// # Errors
/// Fails for a union, and with one message per helper attribute on a
/// variant or field.
fn prepare_data(data: Data) -> (res: Result<Vec<Structish>, DeriveError>)
    ensures
        ({
            let d = match data {
                Data::Struct(fs) => DataV::Struct(fields_v(fs@)),
                Data::Enum(vs) => DataV::Enum(vs@.map_values(|v: ItemVariant| variant_v(v))),
                Data::Union { .. } => DataV::Union,
            };
            &&& res is Ok <==> data_errors(d).len() == 0
            &&& res matches Ok(vs) ==> vs@.map_values(|s: Structish| structish_v(s)) == variants_of(d)
            &&& res matches Err(e) ==> e.messages() == data_errors(d)
        }),
{
    match data {
        Data::Struct(fields) => {
            let ghost fv = fields_v(fields@);
            match prepare_fields(fields) {
                Ok(fs) => {
                    let mut out: Vec<Structish> = Vec::new();
                    out.push(Structish { variant_ident: None, fields: fs });
                    assert(out@.map_values(|s: Structish| structish_v(s)) =~= variants_of(DataV::Struct(fv)));
                    Ok(out)
                },
                Err(e) => Err(e),
            }
        },
        Data::Enum(variants) => {
            let ghost xs = variants@;
            let ghost vv = xs.map_values(|v: ItemVariant| variant_v(v));
            let mut builder = Builder::new();
            let mut out: Vec<Structish> = Vec::new();
            for variant in it: variants
                invariant
                    xs == it.seq(),
                    vv == xs.map_values(|v: ItemVariant| variant_v(v)),
                    builder.messages() == variants_errors(vv.take(it.index() as int)),
                    builder.has_error() == (builder.messages().len() > 0),
                    !builder.has_error() ==> out@.map_values(|s: Structish| structish_v(s))
                        == variants_of(DataV::Enum(vv.take(it.index() as int))),
            {
                let ghost i = it.index() as int;
                proof {
                    assert(vv.take(i + 1).drop_last() =~= vv.take(i));
                    assert(vv.take(i + 1).last() == variant_v(variant));
                    assert(variants_of(DataV::Enum(vv.take(i + 1))).drop_last() =~= variants_of(DataV::Enum(vv.take(i))));
                }
                let ghost before = out@.map_values(|s: Structish| structish_v(s));
                let ghost msgs = builder.messages();
                match prepare_variant(variant) {
                    Ok(s) => {
                        out.push(s);
                        proof {
                            assert(out@.map_values(|s: Structish| structish_v(s)) =~= before.push(structish_v(s)));
                            assert(variants_of(DataV::Enum(vv.take(i + 1))) =~= variants_of(DataV::Enum(vv.take(i))).push(
                                variants_of(DataV::Enum(vv.take(i + 1))).last(),
                            ));
                            assert(msgs + (absent_errors(vv[i].attrs, "variants"@) + fields_errors(vv[i].fields)) =~= msgs);
                        }
                    },
                    Err(e) => {
                        builder.add_error(e);
                        assert(builder.messages() =~= msgs + absent_errors(vv[i].attrs, "variants"@) + fields_errors(vv[i].fields));
                    },
                }
            }
            proof {
                assert(vv.take(xs.len() as int) =~= vv);
            }
            builder.err_or(out)
        },
        Data::Union { union_token } => {
            proof {
                reveal_strlit("expected a struct or an enum, found a union");
            }
            Err(DeriveError::from(crate::diagnostic::new_spanned_syn_error(&union_token, "expected a struct or an enum, found a union")))
        },
    }
}


/// Whether the parameter `p` named in the options is `g`.
fn param_is(p: &Param, g: &GenParam) -> (b: bool)
    ensures
        b == param_matches(g@, p@),
{
    match (p, g) {
        (Param::Lifetime(l), GenParam::Lifetime { lifetime, .. }) => l.text == lifetime.text,
        (Param::TypeOrConst(n), GenParam::Type { ident, .. }) => n.text == ident.text,
        (Param::TypeOrConst(n), GenParam::Const { ident, .. }) => n.text == ident.text,
        _ => false,
    }
}

/// The index of the first of `params` that `p` names.
fn find_param(params: &Vec<GenParam>, p: &Param) -> (idx: Option<usize>)
    ensures
        match idx {
            Some(i) => i < params.len() && first_match(params_v(params@), p@) == Some(params@[i as int]@),
            None => first_match(params_v(params@), p@) is None,
        },
{
    let ghost pv = params_v(params@);
    let mut i: usize = 0;
    assert(pv.skip(0) =~= pv);
    while i < params.len()
        invariant
            i <= params.len(),
            pv == params_v(params@),
            first_match(pv, p@) == first_match(pv.skip(i as int), p@),
        decreases params.len() - i,
    {
        assert(pv.skip(i as int)[0] == params@[i as int]@);
        if param_is(p, &params[i]) {
            return Some(i);
        }
        assert(pv.skip(i as int).skip(1) =~= pv.skip(i + 1));
        i += 1;
    }
    assert(pv.skip(i as int).len() == 0);
    None
}

/// Identifiers of the type parameters named in the options.
fn check_params_exec(params: &Vec<GenParam>, ps: &Vec<Param>, builder: &mut Builder) -> (selected: Vec<String>)
    requires
        old(builder).has_error() == (old(builder).messages().len() > 0),
    ensures
        final(builder).has_error() == (final(builder).messages().len() > 0),
        ({
            let (errors, sel) = check_params(params_v(params@), params_view(ps@));
            &&& final(builder).messages() == old(builder).messages() + errors
            &&& selected@.map_values(|s: String| s@) == sel
        }),
{
    let ghost pv = params_v(params@);
    let ghost qv = params_view(ps@);
    let ghost m0 = builder.messages();
    let mut selected: Vec<String> = Vec::new();
    let mut i: usize = 0;
    while i < ps.len()
        invariant
            i <= ps.len(),
            pv == params_v(params@),
            qv == params_view(ps@),
            builder.has_error() == (builder.messages().len() > 0),
            ({
                let (errors, sel) = check_params(pv, qv.take(i as int));
                builder.messages() == m0 + errors && selected@.map_values(|s: String| s@) == sel
            }),
        decreases ps.len() - i,
    {
        proof {
            assert(qv.take(i + 1).drop_last() =~= qv.take(i as int));
            assert(qv.take(i + 1).last() == ps@[i as int]@);
        }
        let ghost msgs = builder.messages();
        let ghost sel0 = selected@.map_values(|s: String| s@);
        let span = match &ps[i] {
            Param::Lifetime(n) => n.span,
            Param::TypeOrConst(n) => n.span,
        };
        match find_param(params, &ps[i]) {
            Some(j) => match &params[j] {
                GenParam::Type { ident, .. } => {
                    selected.push(ident.text.clone());
                    assert(selected@.map_values(|s: String| s@) =~= sel0.push(ident@));
                },
                GenParam::Lifetime { .. } => {
                    let mut text = "cannot implement ".to_owned();
                    text.append(TRAIT_IDENT);
                    text.append(" over lifetime parameter");
                    proof {
                        reveal_strlit("cannot implement ");
                        reveal_strlit(" over lifetime parameter");
                    }
                    builder.add_error(DeriveError::from(crate::diagnostic::new_syn_error(span, text.as_str())));
                    assert(builder.messages() =~= msgs.push("cannot implement "@ + TRAIT_IDENT@ + " over lifetime parameter"@));
                },
                GenParam::Const { .. } => {
                    let mut text = "cannot implement ".to_owned();
                    text.append(TRAIT_IDENT);
                    text.append(" over const generic");
                    proof {
                        reveal_strlit("cannot implement ");
                        reveal_strlit(" over const generic");
                    }
                    builder.add_error(DeriveError::from(crate::diagnostic::new_syn_error(span, text.as_str())));
                    assert(builder.messages() =~= msgs.push("cannot implement "@ + TRAIT_IDENT@ + " over const generic"@));
                },
            },
            None => {
                proof {
                    reveal_strlit("unknown generic parameter");
                }
                builder.add_error(DeriveError::from(crate::diagnostic::new_syn_error(span, "unknown generic parameter")));
                assert(builder.messages() =~= msgs.push("unknown generic parameter"@));
            },
        }
        i += 1;
    }
    proof {
        assert(qv.take(i as int) =~= qv);
    }
    selected
}

/// Whether `selected` holds `name`.
fn holds_name(selected: &Vec<String>, name: &String) -> (b: bool)
    ensures
        b == selected@.map_values(|s: String| s@).contains(name@),
{
    let ghost sv = selected@.map_values(|s: String| s@);
    let mut i: usize = 0;
    while i < selected.len()
        invariant
            i <= selected.len(),
            sv == selected@.map_values(|s: String| s@),
            forall|j: int| 0 <= j < i ==> sv[j] != name@,
        decreases selected.len() - i,
    {
        if selected[i] == *name {
            assert(sv[i as int] == name@);
            return true;
        }
        i += 1;
    }
    false
}

/// The type parameters to derive mappings for.
fn mapped_params_exec(params: &Vec<GenParam>, selected: &Vec<String>) -> (mapped: Vec<MappedTypeParam>)
    ensures
        mapped@.map_values(|p: MappedTypeParam| p@) == mapped_params(params_v(params@), selected@.map_values(|s: String| s@)),
{
    let ghost pv = params_v(params@);
    let ghost sv = selected@.map_values(|s: String| s@);
    let mut out: Vec<MappedTypeParam> = Vec::new();
    let mut count: usize = 0;
    let mut i: usize = 0;
    while i < params.len()
        invariant
            i <= params.len(),
            pv == params_v(params@),
            sv == selected@.map_values(|s: String| s@),
            count == count_typish_params(pv.take(i as int)),
            count <= i,
            out@.map_values(|p: MappedTypeParam| p@) == mapped_params(pv.take(i as int), sv),
        decreases params.len() - i,
    {
        proof {
            assert(pv.take(i + 1).drop_last() =~= pv.take(i as int));
            assert(pv.take(i + 1).last() == params@[i as int]@);
        }
        let ghost before = out@.map_values(|p: MappedTypeParam| p@);
        match &params[i] {
            GenParam::Type { ident, bounds, .. } => {
                if selected.len() == 0 || holds_name(selected, &ident.text) {
                    out.push(MappedTypeParam { param_idx: i, marker_idx: count, ident: ident.copy(), bounds: copy_bounds(bounds) });
                    assert(out@.map_values(|p: MappedTypeParam| p@) =~= before.push(out@.last()@));
                }
                count += 1;
            },
            GenParam::Const { .. } => {
                count += 1;
            },
            GenParam::Lifetime { .. } => {},
        }
        i += 1;
    }
    proof {
        assert(pv.take(i as int) =~= pv);
    }
    out
}

impl FuncMapInput {
    /// Prepares the item `derive_input` for deriving mappings.
    ///
    /// # Errors
    /// Fails if the options cannot be read (with their errors alone);
    /// otherwise, if a parameter named in the options is unknown or not a
    /// type parameter, if there is no type parameter to map over, if the
    /// item is a union, or if a variant or field has a helper attribute,
    /// with the messages of all of these, in this order.
    #[verifier::spinoff_prover]
    #[verifier::rlimit(40)]
    pub fn try_from(derive_input: ParsedItem) -> (res: Result<FuncMapInput, DeriveError>)
        ensures
            exists|lex: spec_fn(int, int) -> LexOutcome|
                input_read(derive_input@, lex, res) && #[trigger] attrs_fit(derive_input@.attrs, lex),
    {
        let ghost di = derive_input@;
        let ParsedItem { attrs, ident, generics, data, idents } = derive_input;
        let ghost ivs = idents@.map_values(|s: String| s@);
        let mut visiting = IdentCollector::new_visiting();
        let ghost xs = idents@;
        for s in it: idents
            invariant
                xs == it.seq(),
                ivs == xs.map_values(|s: String| s@),
                visiting@ == ivs.take(it.index() as int).to_set(),
        {
            proof {
                let i = it.index() as int;
                assert(ivs.take(i + 1) =~= ivs.take(i) + seq![s@]);
                Seq::<Seq<char>>::lemma_to_set_insert_commutes(ivs.take(i), s@);
            }
            visiting.visit_ident(s);
        }
        proof {
            assert(ivs.take(xs.len() as int) =~= ivs);
        }
        let ident_collector = visiting.into_reserved();
        let ghost avs = attributes_v(attrs@);
        let opts_res = FuncMapOpts::try_from(attrs);
        let ghost lex = choose|lex: spec_fn(int, int) -> LexOutcome| opts_read(avs, lex, opts_res) && #[trigger] attrs_fit(avs, lex);
        assert(avs == di.attrs);
        let opts = match opts_res {
            Ok(opts) => opts,
            Err(e) => {
                assert(input_read(di, lex, Err::<FuncMapInput, DeriveError>(e)));
                assert(attrs_fit(di.attrs, lex));
                return Err(e);
            },
        };
        let crate_path = match opts.crate_path {
            Some(p) => p,
            None => {
                let mut segments: Vec<Segment> = Vec::new();
                segments.push(Segment { ident: Name::new(CRATE_IDENT, crate::ident::call_site()), args: PathArgs::Plain });
                let p = TyPath { qself: None, leading_colon: true, segments, trailing_colon: false };
                assert(crate::syntax::args_v(PathArgs::Plain) == ArgsV::Plain);
                assert(p@.segments =~= default_crate_path().segments);
                p
            },
        };
        let mut builder = Builder::new();
        let selected = check_params_exec(&generics.params, &opts.params, &mut builder);
        let mapped_type_params = mapped_params_exec(&generics.params, &selected);
        if mapped_type_params.len() == 0 {
            let err = match crate::syntax::to_non_empty_token_stream(&generics.tokens) {
                Some(tokens) => crate::diagnostic::new_spanned_syn_error(&tokens, "expected at least one type parameter, found none"),
                None => crate::diagnostic::new_syn_error(ident.span, "expected at least one type parameter, found none"),
            };
            proof {
                reveal_strlit("expected at least one type parameter, found none");
            }
            let ghost msgs = builder.messages();
            builder.add_error(DeriveError::from(err));
            assert(builder.messages() =~= msgs + seq![no_type_param_message()]);
        } else {
            assert(builder.messages() + Seq::<Seq<char>>::empty() =~= builder.messages());
        }
        let ghost msgs = builder.messages();
        let variants = match prepare_data(data) {
            Ok(vs) => {
                assert(msgs + Seq::<Seq<char>>::empty() =~= msgs);
                vs
            },
            Err(e) => {
                builder.add_error(e);
                Vec::new()
            },
        };
        proof {
            assert(builder.messages() =~= input_errors(di, lex));
        }
        let res = builder.err_or(FuncMapInput {
            meta: FuncMapMeta { crate_path, ident_collector },
            ident,
            generics,
            mapped_type_params,
            variants,
        });
        assert(input_read(di, lex, res));
        assert(attrs_fit(di.attrs, lex));
        res
    }
}

} // verus!
