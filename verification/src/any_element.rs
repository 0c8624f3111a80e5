//! Elements captured whole, whatever their namespace, name and content.

use std::borrow::Cow;
use vstd::prelude::*;

use crate::de::{
    attribute_id_spec, de_new_spec, de_next, element_id_spec,
    lemma_de_next_measure, measure, parent_ns_spec, Context, ContextView, DeView, Deserializer,
    LevelView, Node, NodeView,
};
use crate::{Error, ErrorView, FromXml, Id, IdView, Kind};

verus! {

/// A dynamically captured XML element.
///
/// The [`AnyElement`] type captures an arbitrary XML element tree at runtime,
/// preserving its namespace, name, attributes, text
/// content, and nested children. This is useful when the XML schema allows
/// arbitrary content or when the element structure is not known at compile time.
///
/// String values are borrowed from the input XML where possible via [`Cow`].
///
/// `AnyElement` matches any XML element regardless of namespace or name. When
/// used as a field, it will capture whichever element appears in that position.
/// For capturing multiple arbitrary children, use `Vec<AnyElement>`.
#[derive(Debug, Eq, PartialEq)]
pub struct AnyElement<'xml> {
    /// XML namespace URI of this element.
    pub ns: Cow<'xml, str>,
    /// Local element name.
    pub name: Cow<'xml, str>,
    /// Attributes on this element.
    pub attributes: Vec<AnyAttribute<'xml>>,
    /// Text content of this element, if any.
    pub text: Option<Cow<'xml, str>>,
    /// Nested child elements.
    pub children: Vec<AnyElement<'xml>>,
}

/// An XML attribute with a resolved namespace URI.
#[derive(Debug, Eq, PartialEq)]
pub struct AnyAttribute<'xml> {
    /// Namespace URI of this attribute (empty string for unprefixed attributes).
    pub ns: Cow<'xml, str>,
    /// Local attribute name.
    pub name: Cow<'xml, str>,
    /// Attribute value.
    pub value: Cow<'xml, str>,
}

pub struct AnyAttributeView {
    pub ns: Seq<char>,
    pub name: Seq<char>,
    pub value: Seq<char>,
}

#[verifier::ext_equal]
pub struct AnyElementView {
    pub ns: Seq<char>,
    pub name: Seq<char>,
    pub attributes: Seq<AnyAttributeView>,
    pub text: Option<Seq<char>>,
    pub children: Seq<AnyElementView>,
}

impl<'xml> View for AnyAttribute<'xml> {
    type V = AnyAttributeView;

    open spec fn view(&self) -> AnyAttributeView {
        AnyAttributeView { ns: self.ns@, name: self.name@, value: self.value@ }
    }
}

pub open spec fn opt_text<'xml>(t: Option<Cow<'xml, str>>) -> Option<Seq<char>> {
    match t {
        Some(s) => Some(s@),
        None => None,
    }
}

/// The value of an element tree.
pub open spec fn any_view<'xml>(e: AnyElement<'xml>) -> AnyElementView
    decreases e,
{
    AnyElementView {
        ns: e.ns@,
        name: e.name@,
        attributes: e.attributes@.map_values(|a: AnyAttribute<'xml>| a@),
        text: opt_text(e.text),
        children: Seq::new(
            e.children@.len(),
            |i: int|
                if 0 <= i < e.children@.len() {
                    any_view(e.children@[i])
                } else {
                    arbitrary()
                },
        ),
    }
}

/// Whether a text is owned, borrowing nothing.
pub open spec fn cow_owned<'a>(c: Cow<'a, str>) -> bool {
    c matches Cow::Owned(_)
}

/// Whether an attribute's namespace, name and value are all owned.
pub open spec fn attribute_owned<'a>(a: AnyAttribute<'a>) -> bool {
    cow_owned(a.ns) && cow_owned(a.name) && cow_owned(a.value)
}

/// Whether every text of an element tree is owned: its namespace, name, attributes and text,
/// and those of its children, recursively.
pub open spec fn element_owned<'a>(e: AnyElement<'a>) -> bool
    decreases e,
{
    let kids = Seq::new(
        e.children@.len(),
        |i: int|
            if 0 <= i < e.children@.len() {
                element_owned(e.children@[i])
            } else {
                true
            },
    );
    &&& cow_owned(e.ns)
    &&& cow_owned(e.name)
    &&& forall|i: int| 0 <= i < e.attributes@.len() ==> attribute_owned(#[trigger] e.attributes@[i])
    &&& (e.text matches Some(t) ==> cow_owned(t))
    &&& forall|i: int| 0 <= i < kids.len() ==> #[trigger] kids[i]
}

impl<'xml> View for AnyElement<'xml> {
    type V = AnyElementView;

    open spec fn view(&self) -> AnyElementView {
        any_view(*self)
    }
}

/// An element named `id` with nothing in it yet.
pub open spec fn empty_any(id: IdView) -> AnyElementView {
    AnyElementView {
        ns: id.ns,
        name: id.name,
        attributes: Seq::empty(),
        text: None,
        children: Seq::empty(),
    }
}

/// Reads the rest of the content of the element that `d` reads into `acc`: attributes with
/// their namespaces resolved, nested elements as children, and the last text.
pub open spec fn any_loop(c: ContextView, d: DeView, acc: AnyElementView) -> (
    Result<AnyElementView, ErrorView>,
    ContextView,
    DeView,
)
    decreases measure(c),
{
    let (r, c1, d1) = de_next(c, d);
    match r {
        None => (Ok(acc), c1, d1),
        Some(Err(e)) => (Err(e), c1, d1),
        Some(Ok(node)) => {
            proof {
                lemma_de_next_measure(c, d);
            }
            match node {
                NodeView::Attribute(a) => match attribute_id_spec(c1.stack, a) {
                    Err(e) => (Err(e), c1, d1),
                    Ok(id) => any_loop(
                        c1,
                        d1,
                        AnyElementView {
                            attributes: acc.attributes.push(
                                AnyAttributeView { ns: id.ns, name: id.name, value: a.value },
                            ),
                            ..acc
                        },
                    ),
                },
                NodeView::Open(el) => match element_id_spec(c1.stack, el) {
                    Err(e) => (Err(e), c1, d1),
                    Ok(cid) => {
                        let (c2, nd) = de_new_spec(el, c1);
                        let (cr, c3, _) = any_loop(c2, nd, empty_any(cid));
                        match cr {
                            Err(e) => (Err(e), c3, d1),
                            Ok(child) => if measure(c3) < measure(c) {
                                any_loop(
                                    c3,
                                    d1,
                                    AnyElementView { children: acc.children.push(child), ..acc },
                                )
                            } else {
                                (Ok(acc), c3, d1)
                            },
                        }
                    },
                },
                NodeView::Text(t, _) => any_loop(c1, d1, AnyElementView { text: Some(t), ..acc }),
                NodeView::Close { .. } => (Ok(acc), c1, d1),
                _ => any_loop(c1, d1, acc),
            }
        },
    }
}

/// Reading an element leaves less to read.
pub proof fn lemma_any_loop_measure(c: ContextView, d: DeView, acc: AnyElementView)
    ensures
        measure(any_loop(c, d, acc).1) <= measure(c),
    decreases measure(c),
{
    lemma_de_next_measure(c, d);
    let (r, c1, d1) = de_next(c, d);
    if let Some(Ok(node)) = r {
        match node {
            NodeView::Attribute(a) => {
                if let Ok(id) = attribute_id_spec(c1.stack, a) {
                    lemma_any_loop_measure(
                        c1,
                        d1,
                        AnyElementView {
                            attributes: acc.attributes.push(
                                AnyAttributeView { ns: id.ns, name: id.name, value: a.value },
                            ),
                            ..acc
                        },
                    );
                }
            },
            NodeView::Open(el) => {
                if let Ok(cid) = element_id_spec(c1.stack, el) {
                    let (c2, nd) = de_new_spec(el, c1);
                    lemma_any_loop_measure(c2, nd, empty_any(cid));
                    let (cr, c3, _) = any_loop(c2, nd, empty_any(cid));
                    if let Ok(child) = cr {
                        if measure(c3) < measure(c) {
                            lemma_any_loop_measure(
                                c3,
                                d1,
                                AnyElementView { children: acc.children.push(child), ..acc },
                            );
                        }
                    }
                }
            },
            NodeView::Text(t, _) => {
                lemma_any_loop_measure(c1, d1, AnyElementView { text: Some(t), ..acc });
            },
            NodeView::Close { .. } => {},
            _ => {
                lemma_any_loop_measure(c1, d1, acc);
            },
        }
    }
}

pub open spec fn any_result_view<'xml>(r: Result<AnyElement<'xml>, Error>) -> Result<
    AnyElementView,
    ErrorView,
> {
    match r {
        Ok(e) => Ok(e@),
        Err(e) => Err(e@),
    }
}

proof fn lemma_view_push_child<'xml>(e: AnyElement<'xml>, old_e: AnyElement<'xml>, child: AnyElement<'xml>)
    requires
        e.ns == old_e.ns,
        e.name == old_e.name,
        e.attributes == old_e.attributes,
        e.text == old_e.text,
        e.children@ == old_e.children@.push(child),
    ensures
        e@ == (AnyElementView { children: old_e@.children.push(child@), ..old_e@ }),
{
    assert(e@.children =~= old_e@.children.push(child@));
}

fn owned_text<'a>(c: Cow<'a, str>) -> (r: String)
    ensures
        r@ == c@,
{
    match c {
        Cow::Borrowed(s) => s.to_owned(),
        Cow::Owned(s) => s,
    }
}

impl<'xml> AnyElement<'xml> {
    /// Reads the rest of the content of the element named `id`, which `deserializer` reads.
    pub fn read_element(
        deserializer: &mut Deserializer<'xml>,
        context: &mut Context<'xml>,
        id: Id<'xml>,
    ) -> (r: Result<Self, Error>)
        ensures
            ({
                let (res, c, d) = any_loop(old(context)@, old(deserializer)@, empty_any(id@));
                &&& final(context)@ == c
                &&& final(deserializer)@ == d
                &&& any_result_view(r) == res
            }),
        decreases measure(old(context)@),
    {
        let mut elem = AnyElement {
            ns: Cow::Borrowed(id.ns),
            name: Cow::Borrowed(id.name),
            attributes: Vec::new(),
            text: None,
            children: Vec::new(),
        };
        assert(elem@.attributes =~= Seq::<AnyAttributeView>::empty());
        assert(elem@.children =~= Seq::<AnyElementView>::empty());
        assert(elem@ =~= empty_any(id@));
        let ghost entry = (context@, deserializer@);
        loop
            invariant_except_break
                any_loop(entry.0, entry.1, empty_any(id@)) == any_loop(
                    context@,
                    deserializer@,
                    elem@,
                ),
            invariant
                entry == (old(context)@, old(deserializer)@),
                measure(context@) <= measure(entry.0),
            ensures
                any_loop(entry.0, entry.1, empty_any(id@)) == (
                    Ok::<AnyElementView, ErrorView>(elem@),
                    context@,
                    deserializer@,
                ),
            decreases measure(context@),
        {
            proof {
                lemma_de_next_measure(context@, deserializer@);
            }
            let ghost before = elem;
            match deserializer.next(context) {
                Some(Ok(Node::Attribute(attr))) => {
                    let aid = match deserializer.attribute_id(&attr, context) {
                        Ok(aid) => aid,
                        Err(e) => return Err(e),
                    };
                    let a = AnyAttribute {
                        ns: Cow::Borrowed(aid.ns),
                        name: Cow::Borrowed(aid.name),
                        value: attr.value,
                    };
                    elem.attributes.push(a);
                    assert(elem@.attributes =~= before@.attributes.push(a@));
                    assert(elem@.children =~= before@.children);
                },
                Some(Ok(Node::Open(element))) => {
                    let child_id = match deserializer.element_id(&element, context) {
                        Ok(child_id) => child_id,
                        Err(e) => return Err(e),
                    };
                    let mut nested = deserializer.nested(element, context);
                    proof {
                        lemma_any_loop_measure(context@, nested@, empty_any(child_id@));
                    }
                    let child = match AnyElement::read_element(&mut nested, context, child_id) {
                        Ok(child) => child,
                        Err(e) => return Err(e),
                    };
                    elem.children.push(child);
                    proof {
                        lemma_view_push_child(elem, before, child);
                    }
                },
                Some(Ok(Node::Text(text))) => {
                    elem.text = Some(text);
                    assert(elem@.children =~= before@.children);
                    assert(elem@.attributes =~= before@.attributes);
                },
                Some(Ok(Node::Close { .. })) => break ,
                Some(Ok(_)) => {},
                Some(Err(e)) => return Err(e),
                None => break ,
            }
        }
        Ok(elem)
    }

    /// Converts this element into an owned version with `'static` lifetime.
    ///
    /// This recursively converts all borrowed strings into owned copies,
    /// decoupling the result from the XML input it was read from.
    pub fn into_owned(self) -> (r: AnyElement<'static>)
        ensures
            r@ == self@,
            element_owned(r),
        decreases self,
    {
        let ghost v = self@;
        let mut attributes: Vec<AnyAttribute<'static>> = Vec::new();
        let mut src_attrs = self.attributes;
        let ghost attrs = src_attrs@;
        while src_attrs.len() > 0
            invariant
                attrs.map_values(|a: AnyAttribute<'xml>| a@) == v.attributes,
                src_attrs@.len() <= attrs.len(),
                src_attrs@ == attrs.skip(attrs.len() - src_attrs@.len()),
                attributes@.map_values(|a: AnyAttribute<'static>| a@) == v.attributes.take(
                    attrs.len() - src_attrs@.len(),
                ),
                forall|i: int| 0 <= i < attributes@.len() ==> attribute_owned(#[trigger] attributes@[i]),
            decreases src_attrs.len(),
        {
            let ghost k = attrs.len() - src_attrs@.len();
            let a = src_attrs.remove(0);
            assert(a == attrs[k]);
            let owned = a.into_owned();
            let ghost before = attributes@.map_values(|a: AnyAttribute<'static>| a@);
            attributes.push(owned);
            assert(v.attributes[k] == attrs[k]@);
            assert(v.attributes.take(k + 1) =~= v.attributes.take(k).push(owned@));
            assert(attributes@.map_values(|a: AnyAttribute<'static>| a@) =~= before.push(owned@));
            assert(src_attrs@ =~= attrs.skip(k + 1));
        }
        assert(v.attributes.take(attrs.len() as int) =~= v.attributes);
        let children = Self::children_into_owned(self.children);
        let text = match self.text {
            Some(t) => Some(Cow::Owned(owned_text(t))),
            None => None,
        };
        let r = AnyElement {
            ns: Cow::Owned(owned_text(self.ns)),
            name: Cow::Owned(owned_text(self.name)),
            attributes,
            text,
            children,
        };
        assert(r@.children =~= v.children);
        assert(r@.attributes =~= v.attributes);
        assert forall|i: int| 0 <= i < r.children@.len() implies element_owned(#[trigger] r.children@[i]) by {}
        r
    }

    fn children_into_owned(children: Vec<AnyElement<'xml>>) -> (r: Vec<AnyElement<'static>>)
        ensures
            r@.len() == children@.len(),
            forall|i: int| 0 <= i < children@.len() ==> (#[trigger] r@[i])@ == children@[i]@,
            forall|i: int| 0 <= i < r@.len() ==> element_owned(#[trigger] r@[i]),
        decreases children,
    {
        let mut out: Vec<AnyElement<'static>> = Vec::new();
        let mut src = children;
        let ghost all = src@;
        while src.len() > 0
            invariant
                all == children@,
                src@.len() <= all.len(),
                src@ == all.skip(all.len() - src@.len()),
                out@.len() == all.len() - src@.len(),
                forall|i: int| 0 <= i < out@.len() ==> (#[trigger] out@[i])@ == all[i]@,
                forall|i: int| 0 <= i < out@.len() ==> element_owned(#[trigger] out@[i]),
            decreases src.len(),
        {
            let ghost k = all.len() - src@.len();
            let c = src.remove(0);
            assert(c == all[k]);
            assert(decreases_to!(children => c)) by {
                assert(decreases_to!(children => children@));
                assert(decreases_to!(children@ => children@[k]));
            }
            let owned = c.into_owned();
            out.push(owned);
            assert(src@ =~= all.skip(k + 1));
        }
        out
    }
}

fn clone_text<'a>(c: &Cow<'a, str>) -> (r: Cow<'a, str>)
    ensures
        r@ == c@,
{
    match c {
        Cow::Borrowed(s) => Cow::Borrowed(s),
        Cow::Owned(s) => Cow::Owned(s.clone()),
    }
}

impl<'xml> Clone for AnyAttribute<'xml> {
    fn clone(&self) -> (r: Self)
        ensures
            r@ == self@,
    {
        AnyAttribute {
            ns: clone_text(&self.ns),
            name: clone_text(&self.name),
            value: clone_text(&self.value),
        }
    }
}

impl<'xml> Clone for AnyElement<'xml> {
    fn clone(&self) -> (r: Self)
        ensures
            r@ == self@,
    {
        self.clone_tree()
    }
}

impl<'xml> AnyElement<'xml> {
    fn clone_tree(&self) -> (r: Self)
        ensures
            r@ == self@,
        decreases self,
    {
        let mut attributes: Vec<AnyAttribute<'xml>> = Vec::new();
        let mut i: usize = 0;
        while i < self.attributes.len()
            invariant
                i <= self.attributes.len(),
                attributes@.map_values(|a: AnyAttribute<'xml>| a@) == self@.attributes.take(i as int),
            decreases self.attributes.len() - i,
        {
            let a = AnyAttribute {
                ns: clone_text(&self.attributes[i].ns),
                name: clone_text(&self.attributes[i].name),
                value: clone_text(&self.attributes[i].value),
            };
            let ghost before = attributes@.map_values(|a: AnyAttribute<'xml>| a@);
            attributes.push(a);
            assert(self@.attributes[i as int] == self.attributes@[i as int]@);
            assert(a@ == self.attributes@[i as int]@);
            assert(self@.attributes.take(i + 1) =~= self@.attributes.take(i as int).push(a@));
            assert(attributes@.map_values(|a: AnyAttribute<'xml>| a@) =~= before.push(a@));
            i += 1;
        }
        assert(self@.attributes.take(i as int) =~= self@.attributes);
        let mut children: Vec<AnyElement<'xml>> = Vec::new();
        let mut j: usize = 0;
        while j < self.children.len()
            invariant
                j <= self.children.len(),
                children@.len() == j,
                forall|k: int| 0 <= k < j ==> (#[trigger] children@[k])@ == self.children@[k]@,
            decreases self.children.len() - j,
        {
            assert(decreases_to!(self => self.children@[j as int])) by {
                assert(decreases_to!(self => self.children));
                assert(decreases_to!(self.children => self.children@));
            }
            let c = self.children[j].clone_tree();
            children.push(c);
            j += 1;
        }
        let text = match &self.text {
            Some(t) => Some(clone_text(t)),
            None => None,
        };
        let r = AnyElement {
            ns: clone_text(&self.ns),
            name: clone_text(&self.name),
            attributes,
            text,
            children,
        };
        assert(r@.children =~= self@.children);
        r
    }
}

impl<'xml> AnyAttribute<'xml> {
    /// Converts this attribute into an owned version with `'static` lifetime.
    pub fn into_owned(self) -> (r: AnyAttribute<'static>)
        ensures
            r@ == self@,
            attribute_owned(r),
    {
        AnyAttribute {
            ns: Cow::Owned(owned_text(self.ns)),
            name: Cow::Owned(owned_text(self.name)),
            value: Cow::Owned(owned_text(self.value)),
        }
    }
}

/// The namespace and name of the element whose content `d` reads, if its prefix is bound.
pub open spec fn parent_spec(stack: Seq<LevelView>, d: DeView) -> Option<IdView> {
    match parent_ns_spec(stack, d) {
        Some(ns) => Some(IdView { ns, name: d.local }),
        None => None,
    }
}

pub open spec fn opt_any<'a>(o: Option<AnyElement<'a>>) -> Option<AnyElementView> {
    match o {
        Some(e) => Some(e@),
        None => None,
    }
}

impl<'xml, 'a> FromXml<'xml> for AnyElement<'a> where 'xml: 'a {
    /// Matches any element regardless of namespace or name.
    open spec fn matches_spec(id: IdView, field: Option<IdView>) -> bool {
        true
    }

    fn matches(_id: Id<'_>, _field: Option<Id<'_>>) -> bool {
        true
    }

    open spec fn deserialize_spec(
        before: Self::Accumulator,
        field: &'static str,
        c: ContextView,
        d: DeView,
        r: Result<(), ErrorView>,
        after: Self::Accumulator,
        c2: ContextView,
        d2: DeView,
    ) -> bool {
        match parent_spec(c.stack, d) {
            None => r matches Err(e) && e == ErrorView::UnexpectedState(
                "unknown prefix of parent element"@,
            ) && after == before && c2 == c && d2 == d,
            Some(id) => {
                let (res, c1, d1) = any_loop(c, d, empty_any(id));
                &&& c2 == c1
                &&& d2 == d1
                &&& match res {
                    Ok(v) => r is Ok && opt_any(after) == Some(v),
                    Err(e) => r matches Err(err) && err == e && after == before,
                }
            },
        }
    }

    /// Captures the element whose content `deserializer` reads, whole.
    fn deserialize(
        into: &mut Self::Accumulator,
        _field: &'static str,
        deserializer: &mut Deserializer<'xml>,
        context: &mut Context<'xml>,
    ) -> (r: Result<(), Error>)
    {
        let id = match deserializer.try_parent(context) {
            Some(id) => id,
            None => return Err(Error::UnexpectedState("unknown prefix of parent element")),
        };
        match AnyElement::read_element(deserializer, context, id) {
            Ok(elem) => {
                *into = Some(elem);
                Ok(())
            },
            Err(e) => Err(e),
        }
    }

    type Accumulator = Option<Self>;

    const KIND: Kind = Kind::Element;
}

} // verus!
