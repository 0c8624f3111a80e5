//! Serialization: writing XML text, with the namespace prefixes in scope tracked.

use vstd::prelude::*;

use crate::prefix_map::PrefixMap;
use crate::strings::str_eq;
use crate::{Error, ErrorView, ToXml};

verus! {

/// Where the serializer stands in the text it writes.
#[derive(Clone, Copy, Debug, Eq, PartialEq, Structural)]
pub enum State {
    /// Inside a start tag, where attributes may follow
    Attribute,
    /// Between elements
    Element,
    /// Inside an attribute value
    Scalar,
}

/// A namespace prefix mapping
#[derive(Clone, Copy, Debug, Default)]
pub struct Prefix {
    /// The namespace prefix
    pub prefix: &'static str,
    /// The namespace URI
    pub ns: &'static str,
}

pub struct PrefixView {
    pub prefix: Seq<char>,
    pub ns: Seq<char>,
}

impl View for Prefix {
    type V = PrefixView;

    open spec fn view(&self) -> PrefixView {
        PrefixView { prefix: self.prefix@, ns: self.ns@ }
    }
}

/// Namespace context for serialization
#[derive(Debug)]
pub struct Context {
    /// The default namespace URI
    pub default_ns: &'static str,
    /// Namespace prefix mappings
    pub prefixes: Vec<Prefix>,
}

pub struct ContextView {
    pub default_ns: Seq<char>,
    pub prefixes: Seq<PrefixView>,
}

impl View for Context {
    type V = ContextView;

    open spec fn view(&self) -> ContextView {
        ContextView {
            default_ns: self.default_ns@,
            prefixes: self.prefixes@.map_values(|p: Prefix| p@),
        }
    }
}

impl Default for Context {
    fn default() -> (c: Self)
        ensures
            c@.default_ns == Seq::<char>::empty(),
            c@.prefixes == Seq::<PrefixView>::empty(),
    {
        proof {
            reveal_strlit("");
            assert(""@ =~= Seq::<char>::empty());
        }
        let c = Context { default_ns: "", prefixes: Vec::new() };
        assert(c@.prefixes =~= Seq::<PrefixView>::empty());
        c
    }
}

/// An element being serialized, used for tracking namespace context
#[non_exhaustive]
pub struct Element<'a> {
    /// Prefix of the element, if any
    pub prefix: Option<&'static str>,
    /// Local name of the element
    pub name: &'a str,
    /// Namespace context of the parent element, if any
    pub parent: Option<Context>,
}

pub struct ElementView {
    pub prefix: Option<Seq<char>>,
    pub name: Seq<char>,
    pub parent: Option<ContextView>,
}

impl<'a> View for Element<'a> {
    type V = ElementView;

    open spec fn view(&self) -> ElementView {
        ElementView {
            prefix: match self.prefix {
                Some(p) => Some(p@),
                None => None,
            },
            name: self.name@,
            parent: match self.parent {
                Some(c) => Some(c@),
                None => None,
            },
        }
    }
}

/// XML serializer writing to a string it owns.
pub struct Serializer {
    output: String,
    /// Map namespace URIs to prefixes.
    ///
    /// The prefix map is updated using `Context` values that `write_start` takes and
    /// `write_close` gives back. If a prefix is already defined for a given namespace, it is
    /// not replaced.
    prefixes: PrefixMap<'static>,
    default_ns: &'static str,
    state: State,
}

pub struct SerView {
    pub output: Seq<char>,
    pub prefixes: Map<Seq<char>, Seq<char>>,
    pub default_ns: Seq<char>,
    pub state: State,
}

impl View for Serializer {
    type V = SerView;

    closed spec fn view(&self) -> SerView {
        SerView {
            output: self.output@,
            prefixes: self.prefixes.map(),
            default_ns: self.default_ns@,
            state: self.state,
        }
    }
}

pub open spec fn state_error(msg: &'static str) -> ErrorView {
    ErrorView::UnexpectedState(msg@)
}

pub open spec fn unit_result_view(r: Result<(), Error>) -> Result<(), ErrorView> {
    match r {
        Ok(()) => Ok(()),
        Err(e) => Err(e@),
    }
}

/// The text that opens the start tag of `name` in namespace `ns`, and the prefix it uses.
pub open spec fn start_tag(
    name: Seq<char>,
    ns: Seq<char>,
    default_ns: Seq<char>,
    prefixes: Map<Seq<char>, Seq<char>>,
) -> (Seq<char>, Option<Seq<char>>) {
    if ns == default_ns {
        (seq!['<'] + name, None)
    } else if prefixes.dom().contains(ns) {
        (seq!['<'] + prefixes[ns] + seq![':'] + name, Some(prefixes[ns]))
    } else {
        (seq!['<'] + name + " xmlns=\""@ + ns + seq!['"'], None)
    }
}

/// The declaration of the element's own default namespace `new_default`, where the start tag
/// did not declare one itself and it differs from the default namespace in scope.
pub open spec fn default_decl(
    ns: Seq<char>,
    default_ns: Seq<char>,
    prefixes: Map<Seq<char>, Seq<char>>,
    new_default: Seq<char>,
) -> Seq<char> {
    if (ns == default_ns || prefixes.dom().contains(ns)) && new_default != default_ns {
        " xmlns=\""@ + new_default + seq!['"']
    } else {
        Seq::empty()
    }
}

/// The declarations that a context adds to a start tag: its non-empty prefixes for namespaces
/// that have none yet, in order. Gives the new map, the text written and, for each declared
/// namespace, the prefix it had before (none).
pub open spec fn declare(m: Map<Seq<char>, Seq<char>>, cx: Seq<PrefixView>) -> (
    Map<Seq<char>, Seq<char>>,
    Seq<char>,
    Seq<PrefixView>,
)
    decreases cx.len(),
{
    if cx.len() == 0 {
        (m, Seq::empty(), Seq::empty())
    } else {
        let (m1, t, olds) = declare(m, cx.drop_last());
        let p = cx.last();
        if p.prefix.len() == 0 || m1.dom().contains(p.ns) {
            (m1, t, olds)
        } else {
            (
                m1.insert(p.ns, p.prefix),
                t + " xmlns:"@ + p.prefix + "=\""@ + p.ns + seq!['"'],
                olds.push(PrefixView { ns: p.ns, prefix: Seq::empty() }),
            )
        }
    }
}

/// The map after giving back the prefixes that `olds` records, in order: an empty prefix
/// removes the namespace, another one replaces its prefix.
pub open spec fn restore(m: Map<Seq<char>, Seq<char>>, olds: Seq<PrefixView>) -> Map<
    Seq<char>,
    Seq<char>,
>
    decreases olds.len(),
{
    if olds.len() == 0 {
        m
    } else {
        let m1 = restore(m, olds.drop_last());
        let p = olds.last();
        if p.ns.len() == 0 && p.prefix.len() == 0 {
            m1
        } else if p.prefix.len() == 0 {
            m1.remove(p.ns)
        } else {
            m1.insert(p.ns, p.prefix)
        }
    }
}

/// Every namespace that `olds` gives back is in the map when it is given back.
pub open spec fn can_restore(m: Map<Seq<char>, Seq<char>>, olds: Seq<PrefixView>) -> bool
    decreases olds.len(),
{
    if olds.len() == 0 {
        true
    } else {
        let p = olds.last();
        &&& can_restore(m, olds.drop_last())
        &&& (p.ns.len() == 0 && p.prefix.len() == 0) || restore(m, olds.drop_last()).dom().contains(
            p.ns,
        )
    }
}

/// The text that starts the attribute `name` in namespace `ns`, up to its opening quote.
pub open spec fn attr_head(
    name: Seq<char>,
    ns: Seq<char>,
    default_ns: Seq<char>,
    prefixes: Map<Seq<char>, Seq<char>>,
) -> Seq<char> {
    if ns == default_ns {
        seq![' '] + name + seq!['=', '"']
    } else {
        seq![' '] + prefixes[ns] + seq![':'] + name + seq!['=', '"']
    }
}

/// The serializer's state where the value of the attribute `name` in namespace `ns` starts:
/// its head written, inside the value.
pub open spec fn attr_value_start(s: SerView, name: Seq<char>, ns: Seq<char>) -> SerView {
    SerView {
        output: s.output + attr_head(name, ns, s.default_ns, s.prefixes),
        state: State::Scalar,
        ..s
    }
}

/// The end tag of `name`, with `prefix` if any.
pub open spec fn end_tag(prefix: Option<Seq<char>>, name: Seq<char>) -> Seq<char> {
    match prefix {
        Some(p) => seq!['<', '/'] + p + seq![':'] + name + seq!['>'],
        None => seq!['<', '/'] + name + seq!['>'],
    }
}

pub open spec fn opt_context(cx: Option<Context>) -> Option<ContextView> {
    match cx {
        Some(c) => Some(c@),
        None => None,
    }
}

/// What starting the element `name` in namespace `ns`, with the declarations `cx` if any, does
/// to the serializer's state `s` between elements: the new state, and the element that its end
/// tag will need.
pub open spec fn start_state(
    s: SerView,
    name: Seq<char>,
    ns: Seq<char>,
    cx: Option<ContextView>,
) -> (SerView, ElementView) {
    let (tag, prefix) = start_tag(name, ns, s.default_ns, s.prefixes);
    match cx {
        None => (
            SerView { output: s.output + tag, state: State::Attribute, ..s },
            ElementView { prefix, name, parent: None },
        ),
        Some(c) => {
            let (m, decls, olds) = declare(s.prefixes, c.prefixes);
            (
                SerView {
                    output: s.output + tag + default_decl(ns, s.default_ns, s.prefixes, c.default_ns)
                        + decls,
                    prefixes: m,
                    default_ns: c.default_ns,
                    state: State::Attribute,
                },
                ElementView {
                    prefix,
                    name,
                    parent: Some(ContextView { default_ns: s.default_ns, prefixes: olds }),
                },
            )
        },
    }
}

/// What ending a start tag does to the state `s` inside it.
pub open spec fn end_start_state(s: SerView) -> SerView {
    SerView { output: s.output.push('>'), state: State::Element, ..s }
}

/// What writing the text `t` does to the state `s` between elements.
pub open spec fn text_state(s: SerView, t: Seq<char>) -> SerView {
    SerView { output: s.output + t, state: State::Element, ..s }
}

/// What closing the element `el` does to the state `s` between elements: its end tag is
/// written, and the namespaces in scope before its start tag are given back.
pub open spec fn close_state(s: SerView, el: ElementView) -> SerView {
    SerView {
        output: s.output + end_tag(el.prefix, el.name),
        prefixes: match el.parent {
            Some(c) => restore(s.prefixes, c.prefixes),
            None => s.prefixes,
        },
        default_ns: match el.parent {
            Some(c) => c.default_ns,
            None => s.default_ns,
        },
        state: State::Element,
    }
}

/// Content written between a start tag and its end tag: texts and complete elements, each
/// element with its name, namespace, declarations and own content.
pub enum Content {
    End,
    Text(Seq<char>, Box<Content>),
    Child(Seq<char>, Seq<char>, Option<ContextView>, Box<Content>, Box<Content>),
}

/// The state after writing the content `c` from the state `s` between elements.
pub open spec fn content_run(s: SerView, c: Content) -> SerView
    decreases c, 1int,
{
    match c {
        Content::End => s,
        Content::Text(t, rest) => content_run(text_state(s, t), *rest),
        Content::Child(name, ns, cx, inner, rest) => content_run(
            element_run(s, name, ns, cx, *inner),
            *rest,
        ),
    }
}

/// The state after writing a whole element from the state `s` between elements: its start tag,
/// its content `inner`, then its end tag.
pub open spec fn element_run(
    s: SerView,
    name: Seq<char>,
    ns: Seq<char>,
    cx: Option<ContextView>,
    inner: Content,
) -> SerView
    decreases inner, 2int,
{
    let (s1, el) = start_state(s, name, ns, cx);
    close_state(content_run(end_start_state(s1), inner), el)
}

/// Whether every prefix that declarations `cx` make names a non-empty namespace.
pub open spec fn context_ok(cx: Option<ContextView>) -> bool {
    match cx {
        Some(c) => forall|i: int|
            0 <= i < c.prefixes.len() && (#[trigger] c.prefixes[i]).prefix.len() > 0
                ==> c.prefixes[i].ns.len() > 0,
        None => true,
    }
}

/// Whether every element of the content `c` has declarations that `context_ok` accepts.
pub open spec fn content_ok(c: Content) -> bool
    decreases c,
{
    match c {
        Content::End => true,
        Content::Text(_, rest) => content_ok(*rest),
        Content::Child(_, _, cx, inner, rest) => context_ok(cx) && content_ok(*inner) && content_ok(
            *rest,
        ),
    }
}

/// Content keeps the namespaces in scope: writing texts and whole elements from a state between
/// elements ends between elements, with the same prefixes and default namespace.
pub proof fn lemma_content_keeps_scope(s: SerView, c: Content)
    requires
        s.state == State::Element,
        content_ok(c),
    ensures
        content_run(s, c).state == State::Element,
        content_run(s, c).prefixes == s.prefixes,
        content_run(s, c).default_ns == s.default_ns,
    decreases c, 1int,
{
    match c {
        Content::End => {},
        Content::Text(t, rest) => {
            lemma_content_keeps_scope(text_state(s, t), *rest);
        },
        Content::Child(name, ns, cx, inner, rest) => {
            lemma_element_restores_scope(s, name, ns, cx, *inner);
            lemma_content_keeps_scope(element_run(s, name, ns, cx, *inner), *rest);
        },
    }
}

/// An element's end tag gives back the namespace scope that its start tag opened, whatever
/// balanced content stands between them: after a whole element the prefixes and the default
/// namespace are those before it. Holds where every prefix declared names a non-empty
/// namespace. Along the way, the end tag's call meets what `write_close` requires.
pub proof fn lemma_element_restores_scope(
    s: SerView,
    name: Seq<char>,
    ns: Seq<char>,
    cx: Option<ContextView>,
    inner: Content,
)
    requires
        s.state == State::Element,
        context_ok(cx),
        content_ok(inner),
    ensures
        element_run(s, name, ns, cx, inner).state == State::Element,
        element_run(s, name, ns, cx, inner).prefixes == s.prefixes,
        element_run(s, name, ns, cx, inner).default_ns == s.default_ns,
        ({
            let (s1, el) = start_state(s, name, ns, cx);
            let s3 = content_run(end_start_state(s1), inner);
            &&& s3.state == State::Element
            &&& el.parent matches Some(p) ==> can_restore(s3.prefixes, p.prefixes)
        }),
    decreases inner, 2int,
{
    let (s1, el) = start_state(s, name, ns, cx);
    let s2 = end_start_state(s1);
    lemma_content_keeps_scope(s2, inner);
    if let Some(c) = cx {
        lemma_close_restores_prefixes(s.prefixes, c.prefixes);
    }
}

/// The state of a serializer with nothing written, between elements.
pub open spec fn initial_ser() -> SerView {
    SerView {
        output: Seq::empty(),
        prefixes: Map::empty(),
        default_ns: Seq::empty(),
        state: State::Element,
    }
}

impl Serializer {
    /// A serializer with nothing written, between elements.
    pub fn new() -> (s: Self)
        ensures
            s@ == initial_ser(),
    {
        proof {
            reveal_strlit("");
            assert(""@ =~= Seq::<char>::empty());
        }
        Serializer {
            output: String::new(),
            prefixes: PrefixMap::new(),
            default_ns: "",
            state: State::Element,
        }
    }

    /// The text written so far.
    pub fn output(&self) -> (r: &str)
        ensures
            r@ == self@.output,
    {
        self.output.as_str()
    }

    /// The text written.
    pub fn into_string(self) -> (r: String)
        ensures
            r@ == self@.output,
    {
        self.output
    }

    fn append(&mut self, text: &str)
        ensures
            final(self)@ == (SerView { output: old(self)@.output + text@, ..old(self)@ }),
    {
        self.output.append(text);
    }

    /// Write the opening tag for an element
    ///
    /// Returns the element, whose prefix is the namespace prefix if one was used.
    ///
    /// The `cx` parameter can be used to specify namespace declarations for the element.
    pub fn write_start<'a>(&mut self, name: &'a str, ns: &str, cx: Option<Context>) -> (r: Result<
        Element<'a>,
        Error,
    >)
        ensures
            old(self)@.state != State::Element ==> (r matches Err(e) && e@ == state_error(
                "invalid state for element start",
            ) && final(self)@ == old(self)@),
            old(self)@.state == State::Element ==> (r matches Ok(el) && (final(self)@, el@)
                == start_state(old(self)@, name@, ns@, opt_context(cx))),
    {
        if self.state != State::Element {
            return Err(Error::UnexpectedState("invalid state for element start"));
        }
        proof {
            reveal_strlit("<");
            reveal_strlit(":");
            reveal_strlit(" xmlns=\"");
            reveal_strlit("\"");
            assert("<"@ =~= seq!['<']);
            assert(":"@ =~= seq![':']);
            assert("\""@ =~= seq!['"']);
        }
        let ghost out0 = self@.output;
        let prefix = if str_eq(ns, self.default_ns) {
            self.append("<");
            self.append(name);
            None
        } else {
            match self.prefixes.get(ns) {
                Some(prefix) => {
                    self.append("<");
                    self.append(prefix);
                    self.append(":");
                    self.append(name);
                    Some(prefix)
                },
                None => {
                    self.append("<");
                    self.append(name);
                    self.append(" xmlns=\"");
                    self.append(ns);
                    self.append("\"");
                    None
                },
            }
        };
        assert(self@.output =~= out0 + start_tag(
            name@,
            ns@,
            old(self)@.default_ns,
            old(self)@.prefixes,
        ).0);
        self.state = State::Attribute;
        let cx = match cx {
            None => {
                return Ok(Element { prefix, name, parent: None });
            },
            Some(cx) => cx,
        };
        let old_default = self.default_ns;
        let declared_here = !str_eq(ns, old_default) && !self.prefixes.contains_key(ns);
        proof {
            reveal_strlit("");
            assert(""@ =~= Seq::<char>::empty());
        }
        if !declared_here && !str_eq(cx.default_ns, old_default) {
            self.append(" xmlns=\"");
            self.append(cx.default_ns);
            self.append("\"");
        }
        assert(self@.output =~= out0 + start_tag(
            name@,
            ns@,
            old(self)@.default_ns,
            old(self)@.prefixes,
        ).0 + default_decl(ns@, old(self)@.default_ns, old(self)@.prefixes, cx@.default_ns));
        self.default_ns = cx.default_ns;
        let mut olds: Vec<Prefix> = Vec::new();
        let ghost m0 = self@.prefixes;
        let ghost out1 = self@.output;
        let ghost cxs = cx@.prefixes;
        let mut i: usize = 0;
        proof {
            reveal_strlit(" xmlns:");
            reveal_strlit("=\"");
            reveal_strlit("");
            assert(""@ =~= Seq::<char>::empty());
            assert(cxs.take(0) =~= Seq::<PrefixView>::empty());
        }
        while i < cx.prefixes.len()
            invariant
                i <= cx.prefixes.len(),
                cxs == cx@.prefixes,
                cxs.len() == cx.prefixes.len(),
                ({
                    let (m, t, o) = declare(m0, cxs.take(i as int));
                    &&& self@.prefixes == m
                    &&& self@.output == out1 + t
                    &&& olds@.map_values(|p: Prefix| p@) == o
                }),
                self@.default_ns == cx@.default_ns,
                self@.state == State::Attribute,
            decreases cx.prefixes.len() - i,
        {
            let p = cx.prefixes[i];
            assert(cxs.take(i + 1).drop_last() =~= cxs.take(i as int));
            assert(cxs.take(i + 1).last() == p@);
            let ghost o_before = olds@.map_values(|p: Prefix| p@);
            let ghost out_before = self@.output;
            proof {
                reveal_strlit("");
                reveal_strlit("\"");
                assert(""@ =~= Seq::<char>::empty());
                assert("\""@ =~= seq!['"']);
            }
            if p.prefix.is_empty() {
            } else if self.prefixes.contains_key(p.ns) {
            } else {
                self.append(" xmlns:");
                self.append(p.prefix);
                self.append("=\"");
                self.append(p.ns);
                self.append("\"");
                self.prefixes.insert(p.ns, p.prefix);
                olds.push(Prefix { ns: p.ns, prefix: "" });
                assert(olds@.map_values(|p: Prefix| p@) =~= o_before.push(
                    PrefixView { ns: p.ns@, prefix: Seq::empty() },
                ));
                assert(self@.output =~= out_before + " xmlns:"@ + p.prefix@ + "=\""@ + p.ns@ + seq!['"']);
            }
            i += 1;
        }
        assert(cxs.take(i as int) =~= cxs);
        Ok(Element { prefix, name, parent: Some(Context { default_ns: old_default, prefixes: olds }) })
    }

    /// Write an attribute with the given name and value
    pub fn write_attr<V: ToXml + ?Sized>(&mut self, name: &str, ns: &str, value: &V) -> (r: Result<
        (),
        Error,
    >)
        ensures
            old(self)@.state != State::Attribute ==> (r matches Err(e) && e@ == state_error(
                "invalid state for attribute",
            ) && final(self)@ == old(self)@),
            old(self)@.state == State::Attribute && ns@ != old(self)@.default_ns
                && !old(self)@.prefixes.dom().contains(ns@) ==> (r matches Err(e) && e@
                == state_error("unknown prefix") && final(self)@ == old(self)@),
            old(self)@.state == State::Attribute && (ns@ == old(self)@.default_ns
                || old(self)@.prefixes.dom().contains(ns@)) ==> exists|
                mid: SerView,
                vr: Result<(), ErrorView>,
            |
                #[trigger] value.serialize_spec(
                    None,
                    attr_value_start(old(self)@, name@, ns@),
                    vr,
                    mid,
                ) && match vr {
                    Ok(()) => r is Ok && final(self)@ == (SerView {
                        output: mid.output.push('"'),
                        state: State::Attribute,
                        ..mid
                    }),
                    Err(e) => r matches Err(err) && err@ == e && final(self)@ == mid,
                },
            r is Ok ==> ({
                let head = old(self)@.output + attr_head(
                    name@,
                    ns@,
                    old(self)@.default_ns,
                    old(self)@.prefixes,
                );
                &&& final(self)@.state == State::Attribute
                &&& head.is_prefix_of(final(self)@.output)
                &&& final(self)@.output.len() > head.len()
                &&& final(self)@.output.last() == '"'
            }),
    {
        if self.state != State::Attribute {
            return Err(Error::UnexpectedState("invalid state for attribute"));
        }
        proof {
            reveal_strlit(" ");
            reveal_strlit(":");
            reveal_strlit("=\"");
            reveal_strlit("\"");
            assert(" "@ =~= seq![' ']);
            assert(":"@ =~= seq![':']);
            assert("=\""@ =~= seq!['=', '"']);
            assert("\""@ =~= seq!['"']);
        }
        let ghost out0 = self@.output;
        if str_eq(ns, self.default_ns) {
            self.append(" ");
            self.append(name);
            self.append("=\"");
        } else {
            let prefix = match self.prefixes.get(ns) {
                Some(prefix) => prefix,
                None => return Err(Error::UnexpectedState("unknown prefix")),
            };
            self.append(" ");
            self.append(prefix);
            self.append(":");
            self.append(name);
            self.append("=\"");
        }
        let ghost head = self@.output;
        self.state = State::Scalar;
        let ghost before_value = self@;
        proof {
            assert(head =~= old(self)@.output + attr_head(
                name@,
                ns@,
                old(self)@.default_ns,
                old(self)@.prefixes,
            ));
            assert(before_value == attr_value_start(old(self)@, name@, ns@));
        }
        match value.serialize(None, self) {
            Ok(()) => {},
            Err(e) => {
                assert(value.serialize_spec(None, before_value, Err(e@), self@));
                return Err(e);
            },
        }
        let ghost mid = self@;
        assert(value.serialize_spec(None, before_value, Ok(()), mid));
        let ghost out_value = self@.output;
        self.state = State::Attribute;
        self.append("\"");
        proof {
            assert(head =~= old(self)@.output + attr_head(
                name@,
                ns@,
                old(self)@.default_ns,
                old(self)@.prefixes,
            ));
            assert(self@.output =~= out_value.push('"'));
            assert forall|k: int| 0 <= k < head.len() implies head[k] == self@.output[k] by {
                assert(head[k] == out_value[k]);
            }
        }
        Ok(())
    }

    /// Write a text value (text content or attribute value)
    pub fn write_str(&mut self, value: &str) -> (r: Result<(), Error>)
        ensures
            old(self)@.state == State::Attribute ==> (r matches Err(e) && e@ == state_error(
                "invalid state for scalar",
            ) && final(self)@ == old(self)@),
            old(self)@.state != State::Attribute ==> r is Ok && final(self)@ == text_state(
                old(self)@,
                value@,
            ),
    {
        if !(self.state == State::Element || self.state == State::Scalar) {
            return Err(Error::UnexpectedState("invalid state for scalar"));
        }
        self.append(value);
        self.state = State::Element;
        Ok(())
    }

    /// Complete the opening tag and transition to element content
    pub fn end_start(&mut self) -> (r: Result<(), Error>)
        ensures
            old(self)@.state != State::Attribute ==> (r matches Err(e) && e@ == state_error(
                "invalid state for element end",
            ) && final(self)@ == old(self)@),
            old(self)@.state == State::Attribute ==> r is Ok && final(self)@ == end_start_state(
                old(self)@,
            ),
    {
        if self.state != State::Attribute {
            return Err(Error::UnexpectedState("invalid state for element end"));
        }
        proof {
            reveal_strlit(">");
        }
        self.append(">");
        assert(self@.output =~= old(self)@.output.push('>'));
        self.state = State::Element;
        Ok(())
    }

    /// Close an empty element (self-closing tag)
    pub fn end_empty(&mut self) -> (r: Result<(), Error>)
        ensures
            old(self)@.state != State::Attribute ==> (r matches Err(e) && e@ == state_error(
                "invalid state for element end",
            ) && final(self)@ == old(self)@),
            old(self)@.state == State::Attribute ==> r is Ok && final(self)@ == (SerView {
                output: old(self)@.output + seq![' ', '/', '>'],
                state: State::Element,
                ..old(self)@
            }),
    {
        if self.state != State::Attribute {
            return Err(Error::UnexpectedState("invalid state for element end"));
        }
        proof {
            reveal_strlit(" />");
        }
        self.append(" />");
        assert(self@.output =~= old(self)@.output + seq![' ', '/', '>']);
        self.state = State::Element;
        Ok(())
    }

    /// Write the closing tag for an element, and give back the namespace context it replaced.
    pub fn write_close(&mut self, element: Element<'_>) -> (r: Result<(), Error>)
        requires
            element@.parent matches Some(c) ==> can_restore(old(self)@.prefixes, c.prefixes),
        ensures
            old(self)@.state != State::Element ==> (r matches Err(e) && e@ == state_error(
                "invalid state for close element",
            ) && final(self)@ == old(self)@),
            old(self)@.state == State::Element ==> r is Ok && final(self)@ == close_state(
                old(self)@,
                element@,
            ),
    {
        if self.state != State::Element {
            return Err(Error::UnexpectedState("invalid state for close element"));
        }
        proof {
            reveal_strlit("</");
            reveal_strlit(":");
            reveal_strlit(">");
            assert("</"@ =~= seq!['<', '/']);
            assert(":"@ =~= seq![':']);
            assert(">"@ =~= seq!['>']);
        }
        let ghost out0 = self@.output;
        match element.prefix {
            Some(prefix) => {
                self.append("</");
                self.append(prefix);
                self.append(":");
                self.append(element.name);
                self.append(">");
            },
            None => {
                self.append("</");
                self.append(element.name);
                self.append(">");
            },
        }
        assert(self@.output =~= out0 + end_tag(element@.prefix, element@.name));
        let old = match element.parent {
            Some(old) => old,
            None => return Ok(()),
        };
        self.default_ns = old.default_ns;
        let ghost m0 = self@.prefixes;
        let ghost olds = old@.prefixes;
        let mut i: usize = 0;
        assert(olds.take(0) =~= Seq::<PrefixView>::empty());
        while i < old.prefixes.len()
            invariant
                i <= old.prefixes.len(),
                olds == old@.prefixes,
                olds.len() == old.prefixes.len(),
                can_restore(m0, olds),
                self@.prefixes == restore(m0, olds.take(i as int)),
                self@.output == out0 + end_tag(element@.prefix, element@.name),
                self@.default_ns == old@.default_ns,
                self@.state == State::Element,
            decreases old.prefixes.len() - i,
        {
            let p = old.prefixes[i];
            assert(olds.take(i + 1).drop_last() =~= olds.take(i as int));
            assert(olds.take(i + 1).last() == p@);
            proof {
                lemma_can_restore_prefix(m0, olds, i as int + 1);
            }
            if p.ns.is_empty() && p.prefix.is_empty() {
            } else if p.prefix.is_empty() {
                self.prefixes.remove(p.ns);
            } else {
                self.prefixes.insert(p.ns, p.prefix);
            }
            i += 1;
        }
        assert(olds.take(i as int) =~= olds);
        Ok(())
    }

    /// Get the prefix for a namespace URI, if any
    pub fn prefix(&self, ns: &str) -> (r: Option<&'static str>)
        ensures
            match r {
                Some(p) => self@.prefixes.dom().contains(ns@) && self@.prefixes[ns@] == p@,
                None => !self@.prefixes.dom().contains(ns@),
            },
    {
        self.prefixes.get(ns)
    }

    /// Get the current default namespace URI
    pub fn default_ns(&self) -> (r: &'static str)
        ensures
            r@ == self@.default_ns,
    {
        self.default_ns
    }
}

proof fn lemma_can_restore_prefix(m: Map<Seq<char>, Seq<char>>, olds: Seq<PrefixView>, k: int)
    requires
        0 <= k <= olds.len(),
        can_restore(m, olds),
    ensures
        can_restore(m, olds.take(k)),
    decreases olds.len(),
{
    if k < olds.len() {
        assert(olds.drop_last().take(k) =~= olds.take(k));
        lemma_can_restore_prefix(m, olds.drop_last(), k);
    } else {
        assert(olds.take(k) =~= olds);
    }
}

pub open spec fn olds_keys(olds: Seq<PrefixView>) -> Set<Seq<char>> {
    Set::new(|k: Seq<char>| exists|i: int| 0 <= i < olds.len() && #[trigger] olds[i].ns == k)
}

/// What `declare` records: each declared namespace once, with an empty prefix, absent from the
/// map it started from and present in the map it builds.
proof fn lemma_declare_facts(m: Map<Seq<char>, Seq<char>>, cx: Seq<PrefixView>)
    requires
        forall|i: int| 0 <= i < cx.len() && (#[trigger] cx[i]).prefix.len() > 0 ==> cx[i].ns.len() > 0,
    ensures
        ({
            let (m2, t, olds) = declare(m, cx);
            &&& forall|k: Seq<char>| #[trigger] m.dom().contains(k) ==> m2.dom().contains(k) && m2[k] == m[k]
            &&& forall|i: int| 0 <= i < olds.len() ==> (#[trigger] olds[i]).prefix.len() == 0 && olds[i].ns.len() > 0
                && m2.dom().contains(olds[i].ns) && !m.dom().contains(olds[i].ns)
            &&& forall|i: int, j: int| 0 <= i < j < olds.len() ==> (#[trigger] olds[i]).ns != (#[trigger] olds[j]).ns
            &&& forall|k: Seq<char>| #[trigger] m2.dom().contains(k) ==> m.dom().contains(k) || olds_keys(olds).contains(k)
        }),
    decreases cx.len(),
{
    if cx.len() > 0 {
        let c0 = cx.drop_last();
        assert forall|i: int| 0 <= i < c0.len() && (#[trigger] c0[i]).prefix.len() > 0 implies c0[i].ns.len() > 0 by {
            assert(c0[i] == cx[i]);
        }
        lemma_declare_facts(m, c0);
        let (m1, t1, o1) = declare(m, c0);
        let p = cx.last();
        assert(p == cx[cx.len() - 1]);
        if p.prefix.len() == 0 || m1.dom().contains(p.ns) {
        } else {
            let (m2, t, olds) = declare(m, cx);
            assert(olds == o1.push(PrefixView { ns: p.ns, prefix: Seq::empty() }));
            assert forall|k: Seq<char>| #[trigger] m2.dom().contains(k) implies m.dom().contains(k) || olds_keys(olds).contains(k) by {
                if k == p.ns {
                    assert(olds[olds.len() - 1].ns == k);
                } else if !m.dom().contains(k) {
                    assert(olds_keys(o1).contains(k));
                    let i = choose|i: int| 0 <= i < o1.len() && #[trigger] o1[i].ns == k;
                    assert(olds[i].ns == k);
                }
            }
        }
    }
}

proof fn lemma_restore_removes(m: Map<Seq<char>, Seq<char>>, olds: Seq<PrefixView>)
    requires
        forall|i: int| 0 <= i < olds.len() ==> (#[trigger] olds[i]).prefix.len() == 0 && olds[i].ns.len() > 0
            && m.dom().contains(olds[i].ns),
        forall|i: int, j: int| 0 <= i < j < olds.len() ==> (#[trigger] olds[i]).ns != (#[trigger] olds[j]).ns,
    ensures
        can_restore(m, olds),
        restore(m, olds) == m.remove_keys(olds_keys(olds)),
    decreases olds.len(),
{
    if olds.len() == 0 {
        assert(olds_keys(olds) =~= Set::empty());
        assert(m.remove_keys(olds_keys(olds)) =~= m);
    } else {
        let o1 = olds.drop_last();
        let p = olds.last();
        assert(p == olds[olds.len() - 1]);
        assert forall|i: int, j: int| 0 <= i < j < o1.len() implies (#[trigger] o1[i]).ns != (#[trigger] o1[j]).ns by {
            assert(o1[i] == olds[i]);
            assert(o1[j] == olds[j]);
        }
        assert forall|i: int| 0 <= i < o1.len() implies (#[trigger] o1[i]).prefix.len() == 0 && o1[i].ns.len() > 0
            && m.dom().contains(o1[i].ns) by {
            assert(o1[i] == olds[i]);
        }
        lemma_restore_removes(m, o1);
        assert(!olds_keys(o1).contains(p.ns)) by {
            if olds_keys(o1).contains(p.ns) {
                let i = choose|i: int| 0 <= i < o1.len() && #[trigger] o1[i].ns == p.ns;
                assert(olds[i].ns == olds[olds.len() - 1].ns);
            }
        }
        assert(olds_keys(olds) =~= olds_keys(o1).insert(p.ns)) by {
            assert forall|k: Seq<char>| olds_keys(olds).contains(k) implies olds_keys(o1).insert(p.ns).contains(k) by {
                let i = choose|i: int| 0 <= i < olds.len() && #[trigger] olds[i].ns == k;
                if i < o1.len() {
                    assert(o1[i].ns == k);
                }
            }
            assert forall|k: Seq<char>| olds_keys(o1).insert(p.ns).contains(k) implies olds_keys(olds).contains(k) by {
                if k == p.ns {
                    assert(olds[olds.len() - 1].ns == k);
                } else {
                    let i = choose|i: int| 0 <= i < o1.len() && #[trigger] o1[i].ns == k;
                    assert(olds[i].ns == k);
                }
            }
        }
        assert(restore(m, olds) =~= m.remove_keys(olds_keys(olds)));
    }
}

/// An element's end tag gives back the prefixes in scope before its start tag: declaring the
/// prefixes of a context and then restoring what the declaration recorded yields the map
/// before the declaration. Holds where every prefix that the context declares names a
/// non-empty namespace.
pub proof fn lemma_close_restores_prefixes(m: Map<Seq<char>, Seq<char>>, cx: Seq<PrefixView>)
    requires
        forall|i: int| 0 <= i < cx.len() && (#[trigger] cx[i]).prefix.len() > 0 ==> cx[i].ns.len() > 0,
    ensures
        can_restore(declare(m, cx).0, declare(m, cx).2),
        restore(declare(m, cx).0, declare(m, cx).2) == m,
{
    lemma_declare_facts(m, cx);
    let (m2, t, olds) = declare(m, cx);
    lemma_restore_removes(m2, olds);
    assert forall|k: Seq<char>| #[trigger] m2.remove_keys(olds_keys(olds)).dom().contains(k) <==> m.dom().contains(k) by {
        if m.dom().contains(k) {
            if olds_keys(olds).contains(k) {
                let i = choose|i: int| 0 <= i < olds.len() && #[trigger] olds[i].ns == k;
            }
        }
    }
    assert(m2.remove_keys(olds_keys(olds)) =~= m);
}

} // verus!
