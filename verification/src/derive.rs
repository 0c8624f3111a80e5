//! How the derive macros map a struct or a wrapping enum, decided from the configuration that
//! `#[xml(...)]` gives it and its fields: which field maps an attribute, an element or the text,
//! in which namespace, and how it is read and written; and which configurations are refused.

use vstd::prelude::*;

use crate::meta::{
    invalid, meta_items, meta_items_spec, ContainerMeta, ContainerMetaView, FieldMeta,
    FieldMetaView, MetaError, MetaErrorView, Mode, Namespace, NamespaceView, OuterAttribute,
    OuterAttributeView,
};

verus! {

/// The shape of a field's type, as far as the derives look at it.
#[derive(Clone, Copy, Debug, Eq, PartialEq, Structural)]
pub enum FieldKind {
    /// `Cow<'a, str>`
    CowStr,
    /// `Cow<'a, [u8]>`
    CowBytes,
    /// Any other type
    Other,
}

/// A named field of a derived struct: its name, its configuration and the shape of its type.
pub struct FieldDef {
    pub name: String,
    pub meta: FieldMeta,
    pub kind: FieldKind,
}

pub struct FieldDefView {
    pub name: Seq<char>,
    pub meta: FieldMetaView,
    pub kind: FieldKind,
}

impl View for FieldDef {
    type V = FieldDefView;

    open spec fn view(&self) -> FieldDefView {
        FieldDefView { name: self.name@, meta: self.meta@, kind: self.kind }
    }
}

pub open spec fn field_defs_view(fields: Seq<FieldDef>) -> Seq<FieldDefView> {
    fields.map_values(|f: FieldDef| f@)
}

/// What a field of a struct maps.
#[derive(Clone, Copy, Debug, Eq, PartialEq, Structural)]
pub enum Role {
    /// An attribute of the struct's element
    Attribute,
    /// A child element
    Element,
    /// The text of the struct's element
    Direct,
}

/// Where the namespace of a field's attribute or element comes from.
#[derive(Clone, Copy, Debug, Eq, PartialEq, Structural)]
pub enum NsSource {
    /// No namespace
    Empty,
    /// The field's own `ns(...)`
    Field,
    /// The struct's default namespace, or none where it declares none
    Container,
    /// The namespace that the struct declares for the prefix that the field's `ns(...)` names
    ContainerPrefix,
}

/// How a field is read.
#[derive(Clone, Copy, Debug, Eq, PartialEq, Structural)]
pub enum Reader {
    /// By its type's `FromXml`
    FromXml,
    /// By the field's `deserialize_with` function
    With,
    /// By `borrow_cow_str`, which keeps text borrowed
    BorrowCowStr,
    /// By `borrow_cow_slice_u8`
    BorrowCowBytes,
}

/// How a field of a struct is read.
#[derive(Clone, Copy, Debug, Eq, PartialEq, Structural)]
pub struct FieldPlan {
    pub role: Role,
    pub ns: NsSource,
    pub reader: Reader,
}

/// How the fields of a struct are read, one plan per field, in order.
pub struct StructPlan {
    pub fields: Vec<FieldPlan>,
}

/// How a field is read: its `deserialize_with`, else the borrowing reader that `borrow` asks for
/// on a `Cow` of text or bytes, else its type's.
pub open spec fn reader_spec(f: FieldDefView) -> Reader {
    if f.meta.deserialize_with is Some {
        Reader::With
    } else if f.meta.borrow && f.kind == FieldKind::CowStr {
        Reader::BorrowCowStr
    } else if f.meta.borrow && f.kind == FieldKind::CowBytes {
        Reader::BorrowCowBytes
    } else {
        Reader::FromXml
    }
}

/// How a field is read, where it is not refused: an attribute, the text when `direct`, else a
/// child element; in the field's own namespace, else none for an attribute and the struct's for
/// an element.
pub open spec fn field_plan_spec(f: FieldDefView) -> FieldPlan {
    FieldPlan {
        role: if f.meta.attribute {
            Role::Attribute
        } else if f.meta.direct {
            Role::Direct
        } else {
            Role::Element
        },
        ns: if f.meta.ns.uri is Some {
            NsSource::Field
        } else if f.meta.attribute {
            NsSource::Empty
        } else {
            NsSource::Container
        },
        reader: reader_spec(f),
    }
}

/// Why reading a field is refused, on its own: the text cannot be read by another function,
/// and an attribute cannot be the text.
pub open spec fn field_error_spec(f: FieldDefView) -> Option<MetaErrorView> {
    if !f.meta.attribute && f.meta.direct && reader_spec(f) != Reader::FromXml {
        Some(invalid("direct attribute is not supported deserialization functions"))
    } else if f.meta.attribute && f.meta.direct {
        Some(invalid("direct attribute is not supported for attribute fields"))
    } else {
        None
    }
}

pub open spec fn has_direct(plans: Seq<FieldPlan>) -> bool {
    exists|k: int| 0 <= k < plans.len() && (#[trigger] plans[k]).role == Role::Direct
}

/// How the fields `fields` are read, in order, or the first refusal: a field that follows the
/// text field, or a field refused on its own.
pub open spec fn struct_plan_spec(fields: Seq<FieldDefView>) -> Result<Seq<FieldPlan>, MetaErrorView>
    decreases fields.len(),
{
    if fields.len() == 0 {
        Ok(Seq::empty())
    } else {
        match struct_plan_spec(fields.drop_last()) {
            Err(e) => Err(e),
            Ok(plans) => if has_direct(plans) {
                Err(invalid("direct field must be the last"))
            } else {
                match field_error_spec(fields.last()) {
                    Some(e) => Err(e),
                    None => Ok(plans.push(field_plan_spec(fields.last()))),
                }
            },
        }
    }
}

fn field_plan(f: &FieldDef) -> (r: Result<FieldPlan, MetaError>)
    ensures
        match field_error_spec(f@) {
            Some(e) => r matches Err(err) && err@ == e,
            None => r == Ok::<FieldPlan, MetaError>(field_plan_spec(f@)),
        },
{
    let reader = if f.meta.deserialize_with.is_some() {
        Reader::With
    } else if f.meta.borrow && f.kind == FieldKind::CowStr {
        Reader::BorrowCowStr
    } else if f.meta.borrow && f.kind == FieldKind::CowBytes {
        Reader::BorrowCowBytes
    } else {
        Reader::FromXml
    };
    if !f.meta.attribute && f.meta.direct && reader != Reader::FromXml {
        return Err(
            MetaError::Invalid {
                message: "direct attribute is not supported deserialization functions",
            },
        );
    }
    if f.meta.attribute && f.meta.direct {
        return Err(
            MetaError::Invalid { message: "direct attribute is not supported for attribute fields" },
        );
    }
    let role = if f.meta.attribute {
        Role::Attribute
    } else if f.meta.direct {
        Role::Direct
    } else {
        Role::Element
    };
    let ns = if f.meta.ns.uri().is_some() {
        NsSource::Field
    } else if f.meta.attribute {
        NsSource::Empty
    } else {
        NsSource::Container
    };
    Ok(FieldPlan { role, ns, reader })
}

/// Decides how `FromXml` reads a struct with named fields (one with no mode): each field maps an
/// attribute, a child element or, when `direct`, the element's text, which must be the last
/// field; its namespace and how it is read follow its configuration.
pub fn struct_plan(container: &ContainerMeta, fields: &Vec<FieldDef>) -> (r: Result<
    StructPlan,
    MetaError,
>)
    requires
        container@.mode is None,
    ensures
        match struct_plan_spec(field_defs_view(fields@)) {
            Ok(plans) => r matches Ok(p) && p.fields@ == plans,
            Err(e) => r matches Err(err) && err@ == e,
        },
{
    let ghost views = field_defs_view(fields@);
    let mut plans: Vec<FieldPlan> = Vec::new();
    let mut seen_direct = false;
    let mut i: usize = 0;
    assert(views.take(0) =~= Seq::<FieldDefView>::empty());
    while i < fields.len()
        invariant
            i <= fields.len(),
            views == field_defs_view(fields@),
            views.len() == fields.len(),
            struct_plan_spec(views.take(i as int)) == Ok::<Seq<FieldPlan>, MetaErrorView>(plans@),
            seen_direct == has_direct(plans@),
        decreases fields.len() - i,
    {
        assert(views.take(i + 1).drop_last() =~= views.take(i as int));
        assert(views.take(i + 1).last() == fields@[i as int]@);
        if seen_direct {
            proof {
                lemma_plan_err_stays(views, i + 1);
            }
            return Err(MetaError::Invalid { message: "direct field must be the last" });
        }
        let plan = match field_plan(&fields[i]) {
            Ok(p) => p,
            Err(e) => {
                proof {
                    lemma_plan_err_stays(views, i + 1);
                }
                return Err(e);
            },
        };
        let ghost before = plans@;
        plans.push(plan);
        proof {
            if plan.role == Role::Direct {
                assert(plans@[before.len() as int] == plan);
            }
            if has_direct(plans@) && !has_direct(before) {
                let k = choose|k: int| 0 <= k < plans@.len() && (#[trigger] plans@[k]).role == Role::Direct;
                if k < before.len() {
                    assert(before[k] == plans@[k]);
                }
            }
            if has_direct(before) {
                let k = choose|k: int| 0 <= k < before.len() && (#[trigger] before[k]).role == Role::Direct;
                assert(plans@[k] == before[k]);
            }
        }
        seen_direct = seen_direct || plan.role == Role::Direct;
        i += 1;
    }
    assert(views.take(i as int) =~= views);
    Ok(StructPlan { fields: plans })
}

proof fn lemma_plan_err_stays(fields: Seq<FieldDefView>, j: int)
    requires
        0 <= j <= fields.len(),
        struct_plan_spec(fields.take(j)) is Err,
    ensures
        struct_plan_spec(fields) == struct_plan_spec(fields.take(j)),
    decreases fields.len() - j,
{
    if j < fields.len() {
        assert(fields.take(j + 1).drop_last() =~= fields.take(j));
        lemma_plan_err_stays(fields, j + 1);
    } else {
        assert(fields.take(j) =~= fields);
    }
}

/// How a field of a struct is written.
#[derive(Clone, Copy, Debug, Eq, PartialEq, Structural)]
pub enum OutKind {
    /// As an attribute, where the value is present
    Attribute,
    /// As a child element, by its type's `ToXml`
    Element,
    /// As the element's text, by its type's `ToXml` with no name
    Direct,
    /// By the field's `serialize_with` function
    With,
}

/// How a field of a struct is written, and in which namespace.
#[derive(Clone, Copy, Debug, Eq, PartialEq, Structural)]
pub struct FieldOut {
    pub kind: OutKind,
    pub ns: NsSource,
}

/// How the fields of a struct are written, one plan per field, in order.
pub struct StructOutputPlan {
    pub fields: Vec<FieldOut>,
}

/// Why writing a field is refused at once: an attribute cannot be the text, and the text
/// cannot be written by another function.
pub open spec fn out_field_error(f: FieldDefView) -> Option<MetaErrorView> {
    if f.meta.attribute {
        if f.meta.direct {
            Some(invalid("direct attribute is not supported on attributes"))
        } else {
            None
        }
    } else if f.meta.serialize_with is Some && f.meta.direct {
        Some(invalid("direct serialization is not supported with `serialize_with`"))
    } else {
        None
    }
}

/// Why the namespace of an attribute field is refused: it must name, by a single identifier, a
/// prefix that the struct declares.
pub open spec fn attr_ns_error(c: ContainerMetaView, f: FieldDefView) -> Option<MetaErrorView> {
    if !f.meta.attribute {
        None
    } else {
        match f.meta.ns.uri {
            None => None,
            Some(NamespaceView::Path(p)) => if !p.leading_colon && p.segments.len() == 1 {
                if c.ns.prefixes.dom().contains(p.segments[0]) {
                    None
                } else {
                    Some(MetaErrorView::UnknownPrefix { prefix: p.segments[0] })
                }
            } else {
                Some(invalid("attribute namespace must be a prefix identifier"))
            },
            Some(NamespaceView::Literal(_)) => Some(
                invalid("attribute namespace must be a prefix identifier"),
            ),
        }
    }
}

/// How a field is written, where it is not refused: an attribute in the namespace of the
/// prefix it names, else in the struct's; else by its `serialize_with`, as the text when
/// `direct`, or as a child element, in its own namespace, else the struct's.
pub open spec fn field_out_spec(f: FieldDefView) -> FieldOut {
    if f.meta.attribute {
        FieldOut {
            kind: OutKind::Attribute,
            ns: if f.meta.ns.uri is Some {
                NsSource::ContainerPrefix
            } else {
                NsSource::Container
            },
        }
    } else {
        FieldOut {
            kind: if f.meta.serialize_with is Some {
                OutKind::With
            } else if f.meta.direct {
                OutKind::Direct
            } else {
                OutKind::Element
            },
            ns: if f.meta.ns.uri is Some {
                NsSource::Field
            } else {
                NsSource::Container
            },
        }
    }
}

/// The plans of the fields `fields`, in order, or the first field refused at once; in a
/// transparent struct no field may be an attribute.
pub open spec fn output_run(fields: Seq<FieldDefView>, inline: bool) -> Result<
    Seq<FieldOut>,
    MetaErrorView,
>
    decreases fields.len(),
{
    if fields.len() == 0 {
        Ok(Seq::empty())
    } else {
        match output_run(fields.drop_last(), inline) {
            Err(e) => Err(e),
            Ok(plans) => match out_field_error(fields.last()) {
                Some(e) => Err(e),
                None => if inline && fields.last().meta.attribute {
                    Err(invalid("no attributes allowed on inline structs"))
                } else {
                    Ok(plans.push(field_out_spec(fields.last())))
                },
            },
        }
    }
}

/// The first attribute field whose namespace is refused, if any.
pub open spec fn first_ns_error(c: ContainerMetaView, fields: Seq<FieldDefView>) -> Option<
    MetaErrorView,
>
    decreases fields.len(),
{
    if fields.len() == 0 {
        None
    } else {
        match first_ns_error(c, fields.drop_last()) {
            Some(e) => Some(e),
            None => attr_ns_error(c, fields.last()),
        }
    }
}

/// How `ToXml` writes a struct with named fields, or why it is refused. A transparent struct
/// declares no namespace, is not renamed and has no attribute; a field refused at once stops
/// the derive before an attribute's namespace is looked at.
pub open spec fn struct_output_spec(c: ContainerMetaView, fields: Seq<FieldDefView>) -> Result<
    Seq<FieldOut>,
    MetaErrorView,
> {
    if c.mode == Some(Mode::Transparent) {
        if c.ns.prefixes != Map::<Seq<char>, NamespaceView>::empty() || c.ns.uri is Some {
            Err(invalid("inline structs cannot have namespace declarations"))
        } else if c.rename is Some {
            Err(invalid("inline structs cannot be renamed"))
        } else {
            output_run(fields, true)
        }
    } else {
        match output_run(fields, false) {
            Err(e) => Err(e),
            Ok(plans) => match first_ns_error(c, fields) {
                Some(e) => Err(e),
                None => Ok(plans),
            },
        }
    }
}

fn attr_ns_check(container: &ContainerMeta, f: &FieldDef) -> (r: Option<MetaError>)
    ensures
        match attr_ns_error(container@, f@) {
            Some(e) => r matches Some(err) && err@ == e,
            None => r is None,
        },
{
    if !f.meta.attribute {
        return None;
    }
    match f.meta.ns.uri() {
        None => None,
        Some(Namespace::Path(p)) => if !p.leading_colon && p.segments.len() == 1 {
            let seg = &p.segments[0];
            assert(p@.segments[0] == seg@);
            match container.ns.prefix(seg.as_str()) {
                Some(_) => None,
                None => Some(MetaError::UnknownPrefix { prefix: seg.clone() }),
            }
        } else {
            Some(MetaError::Invalid { message: "attribute namespace must be a prefix identifier" })
        },
        Some(Namespace::Literal(_)) => Some(
            MetaError::Invalid { message: "attribute namespace must be a prefix identifier" },
        ),
    }
}

fn field_out(f: &FieldDef) -> (r: Result<FieldOut, MetaError>)
    ensures
        match out_field_error(f@) {
            Some(e) => r matches Err(err) && err@ == e,
            None => r == Ok::<FieldOut, MetaError>(field_out_spec(f@)),
        },
{
    let has_uri = f.meta.ns.uri().is_some();
    if f.meta.attribute {
        if f.meta.direct {
            return Err(
                MetaError::Invalid { message: "direct attribute is not supported on attributes" },
            );
        }
        return Ok(
            FieldOut {
                kind: OutKind::Attribute,
                ns: if has_uri {
                    NsSource::ContainerPrefix
                } else {
                    NsSource::Container
                },
            },
        );
    }
    if f.meta.serialize_with.is_some() && f.meta.direct {
        return Err(
            MetaError::Invalid {
                message: "direct serialization is not supported with `serialize_with`",
            },
        );
    }
    let kind = if f.meta.serialize_with.is_some() {
        OutKind::With
    } else if f.meta.direct {
        OutKind::Direct
    } else {
        OutKind::Element
    };
    Ok(
        FieldOut {
            kind,
            ns: if has_uri {
                NsSource::Field
            } else {
                NsSource::Container
            },
        },
    )
}

proof fn lemma_output_err_stays(fields: Seq<FieldDefView>, inline: bool, j: int)
    requires
        0 <= j <= fields.len(),
        output_run(fields.take(j), inline) is Err,
    ensures
        output_run(fields, inline) == output_run(fields.take(j), inline),
    decreases fields.len() - j,
{
    if j < fields.len() {
        assert(fields.take(j + 1).drop_last() =~= fields.take(j));
        lemma_output_err_stays(fields, inline, j + 1);
    } else {
        assert(fields.take(j) =~= fields);
    }
}

/// Decides how `ToXml` writes a struct with named fields (one with no mode, or transparent):
/// each field as an attribute where present, as a child element, as the text or by its own
/// function, in the namespace its configuration gives.
pub fn struct_output_plan(container: &ContainerMeta, fields: &Vec<FieldDef>) -> (r: Result<
    StructOutputPlan,
    MetaError,
>)
    requires
        container@.mode is None || container@.mode == Some(Mode::Transparent),
    ensures
        match struct_output_spec(container@, field_defs_view(fields@)) {
            Ok(plans) => r matches Ok(p) && p.fields@ == plans,
            Err(e) => r matches Err(err) && err@ == e,
        },
{
    let ghost views = field_defs_view(fields@);
    let inline = match container.mode {
        Some(Mode::Transparent) => true,
        _ => false,
    };
    if inline {
        if !container.ns.no_prefixes() || container.ns.uri().is_some() {
            return Err(
                MetaError::Invalid { message: "inline structs cannot have namespace declarations" },
            );
        }
        if container.rename.is_some() {
            return Err(MetaError::Invalid { message: "inline structs cannot be renamed" });
        }
    }
    let mut plans: Vec<FieldOut> = Vec::new();
    let mut ns_error: Option<MetaError> = None;
    let mut i: usize = 0;
    assert(views.take(0) =~= Seq::<FieldDefView>::empty());
    while i < fields.len()
        invariant
            i <= fields.len(),
            views == field_defs_view(fields@),
            views.len() == fields.len(),
            inline <==> container@.mode == Some(Mode::Transparent),
            inline ==> container@.ns.prefixes == Map::<Seq<char>, NamespaceView>::empty(),
            inline ==> container@.ns.uri is None,
            inline ==> container@.rename is None,
            output_run(views.take(i as int), inline) == Ok::<Seq<FieldOut>, MetaErrorView>(plans@),
            match first_ns_error(container@, views.take(i as int)) {
                Some(e) => ns_error matches Some(err) && err@ == e,
                None => ns_error is None,
            },
        decreases fields.len() - i,
    {
        assert(views.take(i + 1).drop_last() =~= views.take(i as int));
        assert(views.take(i + 1).last() == fields@[i as int]@);
        let f = &fields[i];
        let out = match field_out(f) {
            Ok(o) => o,
            Err(e) => {
                proof {
                    lemma_output_err_stays(views, inline, i + 1);
                }
                return Err(e);
            },
        };
        if inline && f.meta.attribute {
            proof {
                lemma_output_err_stays(views, inline, i + 1);
            }
            return Err(MetaError::Invalid { message: "no attributes allowed on inline structs" });
        }
        if ns_error.is_none() {
            ns_error = attr_ns_check(container, f);
        }
        plans.push(out);
        i += 1;
    }
    assert(views.take(i as int) =~= views);
    if !inline {
        match ns_error {
            Some(e) => {
                return Err(e);
            },
            None => {},
        }
    }
    Ok(StructOutputPlan { fields: plans })
}

/// A variant of a wrapping enum: its name, whether it has exactly one unnamed field, and its
/// attributes.
pub struct WrappedVariant {
    pub name: String,
    pub single_unnamed: bool,
    pub attrs: Vec<OuterAttribute>,
}

pub struct WrappedVariantView {
    pub name: Seq<char>,
    pub single_unnamed: bool,
    pub attrs: Seq<OuterAttributeView>,
}

impl View for WrappedVariant {
    type V = WrappedVariantView;

    open spec fn view(&self) -> WrappedVariantView {
        WrappedVariantView {
            name: self.name@,
            single_unnamed: self.single_unnamed,
            attrs: self.attrs@.map_values(|a: OuterAttribute| a@),
        }
    }
}

pub open spec fn variants_view(vs: Seq<WrappedVariant>) -> Seq<WrappedVariantView> {
    vs.map_values(|v: WrappedVariant| v@)
}

/// How a wrapping enum is mapped: each variant by its one field's type, tried in the order of
/// the variants, which this names.
pub struct EnumPlan {
    pub variants: Vec<String>,
}

/// Why a variant of a wrapping enum is refused: it must have exactly one unnamed field and no
/// `#[xml(...)]` items.
pub open spec fn variant_error(v: WrappedVariantView) -> Option<MetaErrorView> {
    if !v.single_unnamed {
        Some(invalid("wrapped enum variants must have 1 unnamed field"))
    } else {
        match meta_items_spec(v.attrs) {
            Err(e) => Some(e),
            Ok(items) => if items.len() > 0 {
                Some(invalid("attributes not allowed on wrapped enum variants"))
            } else {
                None
            },
        }
    }
}

/// The names of the variants `vs`, in order, or the first variant refused.
pub open spec fn variants_run(vs: Seq<WrappedVariantView>) -> Result<Seq<Seq<char>>, MetaErrorView>
    decreases vs.len(),
{
    if vs.len() == 0 {
        Ok(Seq::empty())
    } else {
        match variants_run(vs.drop_last()) {
            Err(e) => Err(e),
            Ok(names) => match variant_error(vs.last()) {
                Some(e) => Err(e),
                None => Ok(names.push(vs.last().name)),
            },
        }
    }
}

/// How `FromXml` reads a wrapping enum: it has variants, each refused or not as
/// `variant_error` says.
pub open spec fn forward_enum_spec(vs: Seq<WrappedVariantView>) -> Result<
    Seq<Seq<char>>,
    MetaErrorView,
> {
    if vs.len() == 0 {
        Err(invalid("empty enum is not supported"))
    } else {
        variants_run(vs)
    }
}

/// How `ToXml` writes a wrapping enum: it has no renaming rule, and each variant is refused or
/// not as `variant_error` says.
pub open spec fn forward_enum_output_spec(c: ContainerMetaView, vs: Seq<WrappedVariantView>) -> Result<
    Seq<Seq<char>>,
    MetaErrorView,
> {
    if c.rename_all is Some {
        Err(invalid("rename_all is not allowed on wrapped enum type"))
    } else {
        variants_run(vs)
    }
}

proof fn lemma_variants_err_stays(vs: Seq<WrappedVariantView>, j: int)
    requires
        0 <= j <= vs.len(),
        variants_run(vs.take(j)) is Err,
    ensures
        variants_run(vs) == variants_run(vs.take(j)),
    decreases vs.len() - j,
{
    if j < vs.len() {
        assert(vs.take(j + 1).drop_last() =~= vs.take(j));
        lemma_variants_err_stays(vs, j + 1);
    } else {
        assert(vs.take(j) =~= vs);
    }
}

fn check_variant(v: &WrappedVariant) -> (r: Option<MetaError>)
    ensures
        match variant_error(v@) {
            Some(e) => r matches Some(err) && err@ == e,
            None => r is None,
        },
{
    if !v.single_unnamed {
        return Some(
            MetaError::Invalid { message: "wrapped enum variants must have 1 unnamed field" },
        );
    }
    match meta_items(v.attrs.as_slice()) {
        Err(e) => Some(e),
        Ok(items) => if items.len() > 0 {
            Some(MetaError::Invalid { message: "attributes not allowed on wrapped enum variants" })
        } else {
            None
        },
    }
}

fn variants_plan(variants: &Vec<WrappedVariant>) -> (r: Result<EnumPlan, MetaError>)
    ensures
        match variants_run(variants_view(variants@)) {
            Ok(names) => r matches Ok(p) && p.variants@.map_values(|s: String| s@) == names,
            Err(e) => r matches Err(err) && err@ == e,
        },
{
    let ghost views = variants_view(variants@);
    let mut names: Vec<String> = Vec::new();
    let mut i: usize = 0;
    assert(views.take(0) =~= Seq::<WrappedVariantView>::empty());
    assert(names@.map_values(|s: String| s@) =~= Seq::<Seq<char>>::empty());
    while i < variants.len()
        invariant
            i <= variants.len(),
            views == variants_view(variants@),
            views.len() == variants.len(),
            variants_run(views.take(i as int)) == Ok::<Seq<Seq<char>>, MetaErrorView>(
                names@.map_values(|s: String| s@),
            ),
        decreases variants.len() - i,
    {
        assert(views.take(i + 1).drop_last() =~= views.take(i as int));
        assert(views.take(i + 1).last() == variants@[i as int]@);
        let v = &variants[i];
        match check_variant(v) {
            Some(e) => {
                proof {
                    lemma_variants_err_stays(views, i + 1);
                }
                return Err(e);
            },
            None => {},
        }
        let ghost before = names@.map_values(|s: String| s@);
        names.push(v.name.clone());
        assert(names@.map_values(|s: String| s@) =~= before.push(v.name@));
        i += 1;
    }
    assert(views.take(i as int) =~= views);
    Ok(EnumPlan { variants: names })
}

/// Decides how `FromXml` reads a wrapping enum: by the first variant whose type matches, in
/// order; an enum without variants is refused.
pub fn forward_enum_plan(container: &ContainerMeta, variants: &Vec<WrappedVariant>) -> (r: Result<
    EnumPlan,
    MetaError,
>)
    requires
        container@.mode == Some(Mode::Forward),
    ensures
        match forward_enum_spec(variants_view(variants@)) {
            Ok(names) => r matches Ok(p) && p.variants@.map_values(|s: String| s@) == names,
            Err(e) => r matches Err(err) && err@ == e,
        },
{
    if variants.len() == 0 {
        return Err(MetaError::Invalid { message: "empty enum is not supported" });
    }
    variants_plan(variants)
}

/// Decides how `ToXml` writes a wrapping enum: each variant by its field's type, with no name;
/// a renaming rule is refused.
pub fn forward_enum_output_plan(container: &ContainerMeta, variants: &Vec<WrappedVariant>) -> (r: Result<
    EnumPlan,
    MetaError,
>)
    requires
        container@.mode == Some(Mode::Forward),
    ensures
        match forward_enum_output_spec(container@, variants_view(variants@)) {
            Ok(names) => r matches Ok(p) && p.variants@.map_values(|s: String| s@) == names,
            Err(e) => r matches Err(err) && err@ == e,
        },
{
    if container.rename_all.is_some() {
        return Err(MetaError::Invalid { message: "rename_all is not allowed on wrapped enum type" });
    }
    variants_plan(variants)
}

/// The kind of item that a derive stands on.
#[derive(Clone, Copy, Debug, Eq, PartialEq, Structural)]
pub enum ItemKind {
    Struct,
    Enum,
}

/// How a derive maps the item it stands on.
#[derive(Clone, Copy, Debug, Eq, PartialEq, Structural)]
pub enum Mapping {
    /// A struct as an element of its fields
    Struct,
    /// A struct whose fields are mapped without an element around them
    Transparent,
    /// An enum of unit variants, mapped to text
    ScalarEnum,
    /// An enum whose variants each map a type of their own
    ForwardEnum,
}

/// How `FromXml` maps an item of the kind `kind` with the mode `mode`, or why it is refused:
/// a struct has no mode, an enum a scalar or forward one.
pub open spec fn read_mapping_spec(kind: ItemKind, mode: Option<Mode>) -> Result<
    Mapping,
    MetaErrorView,
> {
    match (kind, mode) {
        (ItemKind::Struct, None) => Ok(Mapping::Struct),
        (ItemKind::Struct, Some(_)) => Err(invalid("no enum mode allowed on struct type")),
        (ItemKind::Enum, Some(Mode::Scalar)) => Ok(Mapping::ScalarEnum),
        (ItemKind::Enum, Some(Mode::Forward)) => Ok(Mapping::ForwardEnum),
        (ItemKind::Enum, _) => Err(invalid("missing enum mode")),
    }
}

/// Decides how `FromXml` maps a struct or an enum from its configuration. A transparent enum is
/// no input that the derive handles: it stops there unfinished.
pub fn read_mapping(container: &ContainerMeta, kind: ItemKind) -> (r: Result<Mapping, MetaError>)
    requires
        !(kind == ItemKind::Enum && container@.mode == Some(Mode::Transparent)),
    ensures
        match read_mapping_spec(kind, container@.mode) {
            Ok(m) => r == Ok::<Mapping, MetaError>(m),
            Err(e) => r matches Err(err) && err@ == e,
        },
{
    match (kind, container.mode) {
        (ItemKind::Struct, None) => Ok(Mapping::Struct),
        (ItemKind::Struct, Some(_)) => Err(
            MetaError::Invalid { message: "no enum mode allowed on struct type" },
        ),
        (ItemKind::Enum, Some(Mode::Scalar)) => Ok(Mapping::ScalarEnum),
        (ItemKind::Enum, Some(Mode::Forward)) => Ok(Mapping::ForwardEnum),
        (ItemKind::Enum, _) => Err(MetaError::Invalid { message: "missing enum mode" }),
    }
}

/// How `ToXml` maps an item of the kind `kind` with the mode `mode`, or why it is refused: a
/// struct has no mode or is transparent, an enum has a scalar or forward mode.
pub open spec fn write_mapping_spec(kind: ItemKind, mode: Option<Mode>) -> Result<
    Mapping,
    MetaErrorView,
> {
    match (kind, mode) {
        (ItemKind::Struct, None) => Ok(Mapping::Struct),
        (ItemKind::Struct, Some(Mode::Transparent)) => Ok(Mapping::Transparent),
        (ItemKind::Struct, Some(Mode::Forward)) => Err(
            invalid("Forward mode not allowed on struct type"),
        ),
        (ItemKind::Struct, Some(Mode::Scalar)) => Err(invalid("Scalar mode not allowed on struct type")),
        (ItemKind::Enum, Some(Mode::Scalar)) => Ok(Mapping::ScalarEnum),
        (ItemKind::Enum, Some(Mode::Forward)) => Ok(Mapping::ForwardEnum),
        (ItemKind::Enum, Some(Mode::Transparent)) => Err(
            invalid("Transparent mode not allowed on enum type"),
        ),
        (ItemKind::Enum, None) => Err(invalid("missing mode")),
    }
}

/// Decides how `ToXml` maps a struct or an enum from its configuration.
pub fn write_mapping(container: &ContainerMeta, kind: ItemKind) -> (r: Result<Mapping, MetaError>)
    ensures
        match write_mapping_spec(kind, container@.mode) {
            Ok(m) => r == Ok::<Mapping, MetaError>(m),
            Err(e) => r matches Err(err) && err@ == e,
        },
{
    match (kind, container.mode) {
        (ItemKind::Struct, None) => Ok(Mapping::Struct),
        (ItemKind::Struct, Some(Mode::Transparent)) => Ok(Mapping::Transparent),
        (ItemKind::Struct, Some(Mode::Forward)) => Err(
            MetaError::Invalid { message: "Forward mode not allowed on struct type" },
        ),
        (ItemKind::Struct, Some(Mode::Scalar)) => Err(
            MetaError::Invalid { message: "Scalar mode not allowed on struct type" },
        ),
        (ItemKind::Enum, Some(Mode::Scalar)) => Ok(Mapping::ScalarEnum),
        (ItemKind::Enum, Some(Mode::Forward)) => Ok(Mapping::ForwardEnum),
        (ItemKind::Enum, Some(Mode::Transparent)) => Err(
            MetaError::Invalid { message: "Transparent mode not allowed on enum type" },
        ),
        (ItemKind::Enum, None) => Err(MetaError::Invalid { message: "missing mode" }),
    }
}

/// Where no field of a struct is refused at once, `ToXml` refuses the struct exactly when an
/// attribute field's namespace is no prefix that the struct declares, and then for the first
/// such field; otherwise it writes every field as `field_out_spec` says.
pub proof fn lemma_output_refused_by_namespace(c: ContainerMetaView, fields: Seq<FieldDefView>)
    requires
        c.mode is None,
        forall|i: int| 0 <= i < fields.len() ==> out_field_error(#[trigger] fields[i]) is None,
    ensures
        struct_output_spec(c, fields) == match first_ns_error(c, fields) {
            Some(e) => Err::<Seq<FieldOut>, MetaErrorView>(e),
            None => Ok(fields.map_values(|f: FieldDefView| field_out_spec(f))),
        },
    decreases fields.len(),
{
    lemma_output_run_ok(fields);
}

proof fn lemma_output_run_ok(fields: Seq<FieldDefView>)
    requires
        forall|i: int| 0 <= i < fields.len() ==> out_field_error(#[trigger] fields[i]) is None,
    ensures
        output_run(fields, false) == Ok::<Seq<FieldOut>, MetaErrorView>(
            fields.map_values(|f: FieldDefView| field_out_spec(f)),
        ),
    decreases fields.len(),
{
    if fields.len() > 0 {
        let init = fields.drop_last();
        assert forall|i: int| 0 <= i < init.len() implies out_field_error(#[trigger] init[i]) is None by {
            assert(init[i] == fields[i]);
        }
        lemma_output_run_ok(init);
        assert(out_field_error(fields[fields.len() - 1]) is None);
        assert(fields.map_values(|f: FieldDefView| field_out_spec(f)) =~= init.map_values(
            |f: FieldDefView| field_out_spec(f),
        ).push(field_out_spec(fields.last())));
    } else {
        assert(fields.map_values(|f: FieldDefView| field_out_spec(f)) =~= Seq::<FieldOut>::empty());
    }
}

} // verus!
