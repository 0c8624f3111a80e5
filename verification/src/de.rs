//! Deserialization: the nodes of an XML document, with namespaces resolved, read from its
//! tokens.

use std::borrow::Cow;
use std::collections::VecDeque;
use vstd::prelude::*;
use vstd::utf8::encode_utf8;

use crate::escape::{decode, decode_spec, lemma_decode_plain};
use crate::impls::CowStrAccumulator;
use crate::prefix_map::{sorted_keys, str_views, PrefixMap};
use crate::strings::{cow_str, str_eq};
use crate::tokens::{token_views, tokenize, xml_tokens, TokenView, XmlToken};
use crate::{debug_str, str_debug, Error, ErrorView, Id, IdView};

verus! {

pub open spec fn opt_str(o: Option<&str>) -> Option<Seq<char>> {
    match o {
        Some(s) => Some(s@),
        None => None,
    }
}

/// A token's prefix, where an empty one stands for no prefix.
pub open spec fn prefix_of(p: Seq<char>) -> Option<Seq<char>> {
    if p.len() == 0 {
        None
    } else {
        Some(p)
    }
}

pub open spec fn xmlns_name() -> Seq<char> {
    seq!['x', 'm', 'l', 'n', 's']
}

pub open spec fn xml_prefix() -> Seq<char> {
    seq!['x', 'm', 'l']
}

/// The namespace that the prefix `xml` is bound to by definition.
pub open spec fn xml_namespace() -> Seq<char> {
    XML_NAMESPACE@
}

/// The namespace name `http://www.w3.org/XML/1998/namespace`.
pub const XML_NAMESPACE: &'static str = "http://www.w3.org/XML/1998/namespace";

/// The namespace declarations of an element.
#[derive(Debug)]
pub struct Level<'xml> {
    local: &'xml str,
    prefix: Option<&'xml str>,
    default_ns: Option<&'xml str>,
    prefixes: PrefixMap<'xml>,
}

pub struct LevelView {
    pub local: Seq<char>,
    pub prefix: Option<Seq<char>>,
    pub default_ns: Option<Seq<char>>,
    pub prefixes: Map<Seq<char>, Seq<char>>,
}

impl<'xml> View for Level<'xml> {
    type V = LevelView;

    closed spec fn view(&self) -> LevelView {
        LevelView {
            local: self.local@,
            prefix: opt_str(self.prefix),
            default_ns: opt_str(self.default_ns),
            prefixes: self.prefixes.map(),
        }
    }
}

/// An element's start tag.
#[derive(Debug)]
pub struct Element<'xml> {
    local: &'xml str,
    default_ns: Option<&'xml str>,
    prefix: Option<&'xml str>,
    level: Level<'xml>,
    empty: bool,
}

pub struct ElementView {
    pub local: Seq<char>,
    pub default_ns: Option<Seq<char>>,
    pub prefix: Option<Seq<char>>,
    pub level: LevelView,
    pub empty: bool,
}

impl<'xml> View for Element<'xml> {
    type V = ElementView;

    closed spec fn view(&self) -> ElementView {
        ElementView {
            local: self.local@,
            default_ns: opt_str(self.default_ns),
            prefix: opt_str(self.prefix),
            level: self.level@,
            empty: self.empty,
        }
    }
}

/// An attribute, its value decoded.
#[derive(Debug)]
pub struct Attribute<'xml> {
    pub prefix: Option<&'xml str>,
    pub local: &'xml str,
    pub value: Cow<'xml, str>,
}

pub struct AttributeView {
    pub prefix: Option<Seq<char>>,
    pub local: Seq<char>,
    pub value: Seq<char>,
    /// Whether the value borrows from the input, not copied
    pub borrowed: bool,
}

/// Whether a text borrows from the input it was read from, not copied.
pub open spec fn cow_borrowed<'a>(c: Cow<'a, str>) -> bool {
    c matches Cow::Borrowed(_)
}

impl<'xml> View for Attribute<'xml> {
    type V = AttributeView;

    open spec fn view(&self) -> AttributeView {
        AttributeView {
            prefix: opt_str(self.prefix),
            local: self.local@,
            value: self.value@,
            borrowed: cow_borrowed(self.value),
        }
    }
}

/// A node of an XML document.
#[derive(Debug)]
pub enum Node<'xml> {
    Attribute(Attribute<'xml>),
    AttributeValue(Cow<'xml, str>),
    Close { prefix: Option<&'xml str>, local: &'xml str },
    Text(Cow<'xml, str>),
    Open(Element<'xml>),
}

/// The view of a node; a text or attribute value comes with whether it borrows from the input.
pub enum NodeView {
    Attribute(AttributeView),
    AttributeValue(Seq<char>, bool),
    Close { prefix: Option<Seq<char>>, local: Seq<char> },
    Text(Seq<char>, bool),
    Open(ElementView),
}

impl<'xml> View for Node<'xml> {
    type V = NodeView;

    open spec fn view(&self) -> NodeView {
        match self {
            Node::Attribute(a) => NodeView::Attribute(a@),
            Node::AttributeValue(v) => NodeView::AttributeValue(v@, cow_borrowed(*v)),
            Node::Close { prefix, local } => NodeView::Close {
                prefix: opt_str(*prefix),
                local: local@,
            },
            Node::Text(t) => NodeView::Text(t@, cow_borrowed(*t)),
            Node::Open(e) => NodeView::Open(e@),
        }
    }
}

pub open spec fn node_result_view<'xml>(r: Option<Result<Node<'xml>, Error>>) -> Option<
    Result<NodeView, ErrorView>,
> {
    match r {
        Some(Ok(n)) => Some(Ok(n@)),
        Some(Err(e)) => Some(Err(e@)),
        None => None,
    }
}

/// The reading state of a document: its tokens, how many were read, the elements that are
/// open, and the nodes read ahead.
pub struct Context<'xml> {
    tokens: Vec<XmlToken<'xml>>,
    pos: usize,
    stack: Vec<Level<'xml>>,
    records: VecDeque<Node<'xml>>,
}

pub struct ContextView {
    pub tokens: Seq<TokenView>,
    pub pos: int,
    pub stack: Seq<LevelView>,
    pub records: Seq<NodeView>,
}

impl<'xml> View for Context<'xml> {
    type V = ContextView;

    closed spec fn view(&self) -> ContextView {
        ContextView {
            tokens: token_views(self.tokens@),
            pos: self.pos as int,
            stack: self.stack@.map_values(|l: Level<'xml>| l@),
            records: self.records@.map_values(|n: Node<'xml>| n@),
        }
    }
}

pub open spec fn state_error(msg: &'static str) -> ErrorView {
    ErrorView::UnexpectedState(msg@)
}

pub open spec fn advance(c: ContextView) -> ContextView {
    ContextView { pos: c.pos + 1, ..c }
}

/// Reads tokens from `c.pos` on, inside the start tag `current` if one was read, until a node
/// is complete.
pub open spec fn scan(c: ContextView, current: Option<LevelView>) -> (
    Option<Result<NodeView, ErrorView>>,
    ContextView,
)
    decreases c.tokens.len() - c.pos,
{
    if c.pos < 0 || c.pos >= c.tokens.len() {
        (None, c)
    } else {
        let next = advance(c);
        match c.tokens[c.pos] {
            TokenView::ElementStart(prefix, local) => scan(
                next,
                Some(
                    LevelView {
                        local,
                        prefix: prefix_of(prefix),
                        default_ns: None,
                        prefixes: Map::empty(),
                    },
                ),
            ),
            TokenView::ElementOpen => match current {
                None => (Some(Err(state_error("opening element with no parent"))), next),
                Some(l) => (
                    Some(
                        Ok(
                            NodeView::Open(
                                ElementView {
                                    local: l.local,
                                    default_ns: l.default_ns,
                                    prefix: l.prefix,
                                    level: l,
                                    empty: false,
                                },
                            ),
                        ),
                    ),
                    next,
                ),
            },
            TokenView::ElementClose(prefix, local) => if c.stack.len() == 0 {
                (Some(Err(state_error("closing element without parent"))), next)
            } else {
                let l = c.stack.last();
                let popped = ContextView { stack: c.stack.drop_last(), ..next };
                if local == l.local && prefix_of(prefix) == l.prefix {
                    (Some(Ok(NodeView::Close { prefix: prefix_of(prefix), local: l.local })), popped)
                } else {
                    (Some(Err(state_error("close element mismatch"))), popped)
                }
            },
            TokenView::ElementEmpty => match current {
                None => (Some(Err(state_error("opening element with no parent"))), next),
                Some(l) => (
                    Some(
                        Ok(
                            NodeView::Open(
                                ElementView {
                                    local: l.local,
                                    default_ns: l.default_ns,
                                    prefix: l.prefix,
                                    level: l,
                                    empty: true,
                                },
                            ),
                        ),
                    ),
                    ContextView {
                        records: c.records.push(NodeView::Close { prefix: l.prefix, local: l.local }),
                        ..next
                    },
                ),
            },
            TokenView::Attribute(prefix, local, value) => if prefix.len() == 0 && local
                == xmlns_name() {
                match current {
                    None => (Some(Err(state_error("attribute without element context"))), next),
                    Some(l) => scan(next, Some(LevelView { default_ns: Some(value), ..l })),
                }
            } else if prefix == xmlns_name() {
                match current {
                    None => (Some(Err(state_error("attribute without element context"))), next),
                    Some(l) => scan(
                        next,
                        Some(LevelView { prefixes: l.prefixes.insert(local, value), ..l }),
                    ),
                }
            } else {
                match decode_spec(value) {
                    Err(m) => (Some(Err(ErrorView::InvalidEntity(m))), next),
                    Ok(v) => scan(
                        ContextView {
                            records: c.records.push(
                                NodeView::Attribute(
                                    AttributeView {
                                        prefix: prefix_of(prefix),
                                        local,
                                        value: v,
                                        borrowed: !value.contains('&'),
                                    },
                                ),
                            ),
                            ..next
                        },
                        current,
                    ),
                }
            },
            TokenView::Text(t) => (
                Some(
                    match decode_spec(t) {
                        Ok(v) => Ok(NodeView::Text(v, !t.contains('&'))),
                        Err(m) => Err(ErrorView::InvalidEntity(m)),
                    },
                ),
                next,
            ),
            TokenView::Cdata(t) => (Some(Ok(NodeView::Text(t, true))), next),
            TokenView::Declaration(d) => if c.stack.len() > 0 {
                (Some(Err(ErrorView::UnexpectedToken(d))), next)
            } else {
                scan(next, current)
            },
            TokenView::Comment => scan(next, current),
            TokenView::Other(d) => (Some(Err(ErrorView::UnexpectedToken(d))), next),
            TokenView::Error(m) => (Some(Err(ErrorView::Parse(m))), next),
        }
    }
}

/// The next node of the document: a node read ahead, else the one the next tokens make.
pub open spec fn context_next(c: ContextView) -> (Option<Result<NodeView, ErrorView>>, ContextView) {
    if c.records.len() > 0 {
        (Some(Ok(c.records[0])), ContextView { records: c.records.drop_first(), ..c })
    } else {
        scan(c, None)
    }
}

/// The default namespace in scope is that of the innermost open element that declares one:
/// opening an element that declares a default namespace brings it into scope, opening one that
/// declares none leaves the one in scope; with no element open there is none.
pub proof fn lemma_default_ns_innermost(stack: Seq<LevelView>, l: LevelView)
    ensures
        default_ns_spec(Seq::<LevelView>::empty()) == Seq::<char>::empty(),
        default_ns_spec(stack.push(l)) == match l.default_ns {
            Some(ns) => ns,
            None => default_ns_spec(stack),
        },
{
    assert(stack.push(l).drop_last() =~= stack);
}

/// A prefix is bound by the innermost open element that binds it: opening an element that
/// binds the prefix makes that binding the one in scope, opening one that does not leaves the
/// binding in scope; with no element open the prefix is unbound.
pub proof fn lemma_lookup_innermost(stack: Seq<LevelView>, l: LevelView, prefix: Seq<char>)
    ensures
        lookup_stack(Seq::<LevelView>::empty(), prefix) is None,
        lookup_stack(stack.push(l), prefix) == if l.prefixes.dom().contains(prefix) {
            Some(l.prefixes[prefix])
        } else {
            lookup_stack(stack, prefix)
        },
{
    assert(stack.push(l).drop_last() =~= stack);
}

/// Namespaces resolve innermost first, also for a prefix already bound further out: inside an
/// element that binds `prefix` again, or declares a default namespace again, the inner
/// declaration is the one that applies, whatever the outer elements bind.
pub proof fn lemma_inner_declaration_wins(
    outer: Seq<LevelView>,
    inner: LevelView,
    rest: Seq<LevelView>,
    prefix: Seq<char>,
)
    requires
        forall|i: int| 0 <= i < rest.len() ==> !(#[trigger] rest[i]).prefixes.dom().contains(prefix),
        forall|i: int| 0 <= i < rest.len() ==> (#[trigger] rest[i]).default_ns is None,
    ensures
        inner.prefixes.dom().contains(prefix) ==> lookup_stack(outer.push(inner) + rest, prefix)
            == Some(inner.prefixes[prefix]),
        inner.default_ns matches Some(ns) ==> default_ns_spec(outer.push(inner) + rest) == ns,
    decreases rest.len(),
{
    if rest.len() == 0 {
        assert(outer.push(inner) + rest =~= outer.push(inner));
        lemma_default_ns_innermost(outer, inner);
        lemma_lookup_innermost(outer, inner, prefix);
    } else {
        let init = rest.drop_last();
        assert forall|i: int| 0 <= i < init.len() implies !(#[trigger] init[i]).prefixes.dom().contains(prefix) by {
            assert(init[i] == rest[i]);
        }
        assert forall|i: int| 0 <= i < init.len() implies (#[trigger] init[i]).default_ns is None by {
            assert(init[i] == rest[i]);
        }
        lemma_inner_declaration_wins(outer, inner, init, prefix);
        let full = outer.push(inner) + rest;
        assert(full.drop_last() =~= outer.push(inner) + init);
        assert(full.last() == rest[rest.len() - 1]);
    }
}

/// An element's name is resolved in its own scope: its own declarations apply first, then those
/// of the open elements, as if it were the innermost open element; an attribute without a
/// prefix is in no namespace.
pub proof fn lemma_element_id_in_own_scope(stack: Seq<LevelView>, e: ElementView, a: AttributeView)
    requires
        e.default_ns == e.level.default_ns,
    ensures
        match e.prefix {
            Some(p) => p != xml_prefix() ==> element_id_spec(stack, e) == match lookup_spec(
                stack.push(e.level),
                p,
            ) {
                Some(ns) => Ok::<IdView, ErrorView>(IdView { ns, name: e.local }),
                None => Err(ErrorView::UnknownPrefix(p)),
            },
            None => element_id_spec(stack, e) == Ok::<IdView, ErrorView>(
                IdView { ns: default_ns_spec(stack.push(e.level)), name: e.local },
            ),
        },
        a.prefix is None ==> attribute_id_spec(stack, a) == Ok::<IdView, ErrorView>(
            IdView { ns: Seq::empty(), name: a.local },
        ),
{
    lemma_default_ns_innermost(stack, e.level);
    if let Some(p) = e.prefix {
        lemma_lookup_innermost(stack, e.level, p);
    }
}

/// Text is read without copying where it can be: text without `&`, which has no entity to
/// decode, comes as itself, borrowed from the input, and so does a CDATA section; text with an
/// entity comes decoded, in a copy.
pub proof fn lemma_text_borrowed_unless_decoded(c: ContextView)
    requires
        c.records.len() == 0,
        0 <= c.pos < c.tokens.len(),
    ensures
        c.tokens[c.pos] matches TokenView::Text(t) ==> (!t.contains('&') ==> context_next(c).0
            == Some(Ok::<NodeView, ErrorView>(NodeView::Text(t, true)))) && (t.contains('&')
            ==> (context_next(c).0 matches Some(Ok(NodeView::Text(_, b))) ==> !b)),
        c.tokens[c.pos] matches TokenView::Cdata(t) ==> context_next(c).0 == Some(
            Ok::<NodeView, ErrorView>(NodeView::Text(t, true)),
        ),
{
    if let TokenView::Text(t) = c.tokens[c.pos] {
        if !t.contains('&') {
            lemma_decode_plain(t);
        }
    }
}

/// The namespace that `prefix` is bound to by the declarations of the open elements,
/// innermost first.
pub open spec fn lookup_stack(stack: Seq<LevelView>, prefix: Seq<char>) -> Option<Seq<char>>
    decreases stack.len(),
{
    if stack.len() == 0 {
        None
    } else if stack.last().prefixes.dom().contains(prefix) {
        Some(stack.last().prefixes[prefix])
    } else {
        lookup_stack(stack.drop_last(), prefix)
    }
}

pub open spec fn lookup_spec(stack: Seq<LevelView>, prefix: Seq<char>) -> Option<Seq<char>> {
    if prefix == xml_prefix() {
        Some(xml_namespace())
    } else {
        lookup_stack(stack, prefix)
    }
}

/// The default namespace of the innermost open element that declares one.
pub open spec fn default_ns_spec(stack: Seq<LevelView>) -> Seq<char>
    decreases stack.len(),
{
    if stack.len() == 0 {
        Seq::empty()
    } else {
        match stack.last().default_ns {
            Some(ns) => ns,
            None => default_ns_spec(stack.drop_last()),
        }
    }
}

pub open spec fn element_id_spec(stack: Seq<LevelView>, e: ElementView) -> Result<
    IdView,
    ErrorView,
> {
    match e.prefix {
        Some(p) => if e.level.prefixes.dom().contains(p) {
            Ok(IdView { ns: e.level.prefixes[p], name: e.local })
        } else {
            match lookup_spec(stack, p) {
                Some(ns) => Ok(IdView { ns, name: e.local }),
                None => Err(ErrorView::UnknownPrefix(p)),
            }
        },
        None => match e.default_ns {
            Some(ns) => Ok(IdView { ns, name: e.local }),
            None => Ok(IdView { ns: default_ns_spec(stack), name: e.local }),
        },
    }
}

pub open spec fn attribute_id_spec(stack: Seq<LevelView>, a: AttributeView) -> Result<
    IdView,
    ErrorView,
> {
    match a.prefix {
        Some(p) => match lookup_spec(stack, p) {
            Some(ns) => Ok(IdView { ns, name: a.local }),
            None => Err(ErrorView::UnknownPrefix(p)),
        },
        None => Ok(IdView { ns: Seq::empty(), name: a.local }),
    }
}

pub open spec fn id_result_view<'a>(r: Result<Id<'a>, Error>) -> Result<IdView, ErrorView> {
    match r {
        Ok(id) => Ok(id@),
        Err(e) => Err(e@),
    }
}

/// Nodes that can still be read: unread tokens and nodes read ahead.
pub open spec fn measure(c: ContextView) -> nat {
    (if 0 <= c.pos < c.tokens.len() {
        (c.tokens.len() - c.pos) as nat
    } else {
        0nat
    }) + c.records.len()
}

impl<'xml> Level<'xml> {
    fn empty_for(local: &'xml str, prefix: &'xml str) -> (l: Level<'xml>)
        ensures
            l@ == (LevelView {
                local: local@,
                prefix: prefix_of(prefix@),
                default_ns: None,
                prefixes: Map::empty(),
            }),
    {
        Level {
            local,
            prefix: if prefix.is_empty() {
                None
            } else {
                Some(prefix)
            },
            default_ns: None,
            prefixes: PrefixMap::new(),
        }
    }
}

fn str_option(s: &str) -> (r: Option<&str>)
    ensures
        opt_str(r) == prefix_of(s@),
{
    if s.is_empty() {
        None
    } else {
        Some(s)
    }
}

fn opt_str_eq(a: Option<&str>, b: Option<&str>) -> (r: bool)
    ensures
        r == (opt_str(a) == opt_str(b)),
{
    match (a, b) {
        (Some(x), Some(y)) => str_eq(x, y),
        (None, None) => true,
        _ => false,
    }
}

impl<'xml> Context<'xml> {
    /// A reading state at the start of the document made of `tokens`.
    pub fn from_tokens(tokens: Vec<XmlToken<'xml>>) -> (c: Context<'xml>)
        ensures
            c@ == (ContextView {
                tokens: token_views(tokens@),
                pos: 0,
                stack: Seq::empty(),
                records: Seq::empty(),
            }),
    {
        let c = Context { tokens, pos: 0, stack: Vec::new(), records: VecDeque::new() };
        assert(c@.stack =~= Seq::empty());
        assert(c@.records =~= Seq::empty());
        c
    }

    /// Reads the next node of the document.
    pub fn next(&mut self) -> (r: Option<Result<Node<'xml>, Error>>)
        ensures
            (node_result_view(r), final(self)@) == context_next(old(self)@),
    {
        if self.records.len() > 0 {
            let node = self.records.pop_front().unwrap();
            assert(self@.records =~= old(self)@.records.drop_first());
            return Some(Ok(node));
        }
        let mut current: Option<Level<'xml>> = None;
        loop
            invariant
                context_next(old(self)@) == scan(
                    self@,
                    match current {
                        Some(l) => Some(l@),
                        None => None,
                    },
                ),
            decreases self.tokens.len() - self.pos,
        {
            if self.pos >= self.tokens.len() {
                return None;
            }
            let ghost cur = self@;
            let i = self.pos;
            self.pos = self.pos + 1;
            assert(self@ == advance(cur));
            match &self.tokens[i] {
                XmlToken::ElementStart(prefix, local) => {
                    current = Some(Level::empty_for(local, prefix));
                },
                XmlToken::ElementOpen => {
                    match current {
                        None => {
                            return Some(Err(Error::UnexpectedState("opening element with no parent")));
                        },
                        Some(level) => {
                            let element = Element {
                                local: level.local,
                                prefix: level.prefix,
                                default_ns: level.default_ns,
                                level,
                                empty: false,
                            };
                            return Some(Ok(Node::Open(element)));
                        },
                    }
                },
                XmlToken::ElementClose(prefix, local) => {
                    let ghost stack_before = self@.stack;
                    let level = match self.stack.pop() {
                        Some(level) => level,
                        None => {
                            return Some(Err(Error::UnexpectedState("closing element without parent")));
                        },
                    };
                    assert(self@.stack =~= stack_before.drop_last());
                    let prefix = str_option(prefix);
                    if str_eq(local, level.local) && opt_str_eq(prefix, level.prefix) {
                        return Some(Ok(Node::Close { prefix, local: level.local }));
                    } else {
                        return Some(Err(Error::UnexpectedState("close element mismatch")));
                    }
                },
                XmlToken::ElementEmpty => {
                    match current {
                        None => {
                            return Some(Err(Error::UnexpectedState("opening element with no parent")));
                        },
                        Some(level) => {
                            let ghost rec_before = self@.records;
                            self.records.push_back(
                                Node::Close { prefix: level.prefix, local: level.local },
                            );
                            assert(self@.records =~= rec_before.push(
                                NodeView::Close { prefix: opt_str(level.prefix), local: level.local@ },
                            ));
                            let element = Element {
                                local: level.local,
                                prefix: level.prefix,
                                default_ns: level.default_ns,
                                level,
                                empty: true,
                            };
                            return Some(Ok(Node::Open(element)));
                        },
                    }
                },
                XmlToken::Attribute(prefix, local, value) => {
                    proof {
                        reveal_strlit("xmlns");
                        assert("xmlns"@ =~= xmlns_name());
                    }
                    if prefix.is_empty() && str_eq(local, "xmlns") {
                        match current {
                            Some(mut level) => {
                                level.default_ns = Some(value);
                                current = Some(level);
                            },
                            None => {
                                return Some(Err(Error::UnexpectedState("attribute without element context")));
                            },
                        }
                    } else if str_eq(prefix, "xmlns") {
                        match current {
                            Some(mut level) => {
                                level.prefixes.insert(local, value);
                                current = Some(level);
                            },
                            None => {
                                return Some(Err(Error::UnexpectedState("attribute without element context")));
                            },
                        }
                    } else {
                        let value = match decode(value) {
                            Ok(value) => value,
                            Err(e) => return Some(Err(e)),
                        };
                        let ghost rec_before = self@.records;
                        let attr = Attribute { prefix: str_option(prefix), local, value };
                        self.records.push_back(Node::Attribute(attr));
                        assert(self@.records =~= rec_before.push(NodeView::Attribute(attr@)));
                    }
                },
                XmlToken::Text(text) => {
                    return Some(
                        match decode(text) {
                            Ok(v) => Ok(Node::Text(v)),
                            Err(e) => Err(e),
                        },
                    );
                },
                XmlToken::Cdata(text) => {
                    return Some(Ok(Node::Text(Cow::Borrowed(text))));
                },
                XmlToken::Declaration(d) => {
                    if self.stack.len() > 0 {
                        return Some(Err(Error::UnexpectedToken(d.clone())));
                    }
                },
                XmlToken::Comment => {},
                XmlToken::Other(d) => {
                    return Some(Err(Error::UnexpectedToken(d.clone())));
                },
                XmlToken::Error(m) => {
                    return Some(Err(Error::Parse(m.clone())));
                },
            }
        }
    }
}

impl<'xml> Context<'xml> {
    /// The namespace that `prefix` is bound to in the open elements.
    pub fn lookup(&self, prefix: &str) -> (r: Option<&'xml str>)
        ensures
            opt_str(r) == lookup_spec(self@.stack, prefix@),
    {
        // The prefix xml is by definition bound to the namespace
        // name http://www.w3.org/XML/1998/namespace
        proof {
            reveal_strlit("xml");
            assert("xml"@ =~= xml_prefix());
        }
        if str_eq(prefix, "xml") {
            return Some(XML_NAMESPACE);
        }
        let mut j = self.stack.len();
        assert(self@.stack.take(j as int) =~= self@.stack);
        while j > 0
            invariant
                j <= self.stack.len(),
                self@.stack.len() == self.stack.len(),
                lookup_spec(self@.stack, prefix@) == lookup_stack(self@.stack.take(j as int), prefix@),
                prefix@ != xml_prefix(),
            decreases j,
        {
            let ghost t = self@.stack.take(j as int);
            assert(t.drop_last() =~= self@.stack.take(j - 1));
            assert(t.last() == self.stack@[j - 1]@);
            if let Some(ns) = self.stack[j - 1].prefixes.get(prefix) {
                return Some(ns);
            }
            j -= 1;
        }
        None
    }

    /// The default namespace of the open elements.
    pub fn default_ns(&self) -> (r: &'xml str)
        ensures
            r@ == default_ns_spec(self@.stack),
    {
        let mut j = self.stack.len();
        assert(self@.stack.take(j as int) =~= self@.stack);
        while j > 0
            invariant
                j <= self.stack.len(),
                self@.stack.len() == self.stack.len(),
                default_ns_spec(self@.stack) == default_ns_spec(self@.stack.take(j as int)),
            decreases j,
        {
            let ghost t = self@.stack.take(j as int);
            assert(t.drop_last() =~= self@.stack.take(j - 1));
            assert(t.last() == self.stack@[j - 1]@);
            if let Some(ns) = self.stack[j - 1].default_ns {
                return ns;
            }
            j -= 1;
        }
        proof {
            reveal_strlit("");
        }
        assert(self@.stack.take(0) =~= Seq::<LevelView>::empty());
        ""
    }

    /// The namespace and name of the element that `element` starts.
    pub fn element_id(&self, element: &Element<'xml>) -> (r: Result<Id<'xml>, Error>)
        ensures
            id_result_view(r) == element_id_spec(self@.stack, element@),
    {
        Ok(
            Id {
                ns: match (element.default_ns, element.prefix) {
                    (_, Some(prefix)) => match element.level.prefixes.get(prefix) {
                        Some(ns) => ns,
                        None => match self.lookup(prefix) {
                            Some(ns) => ns,
                            None => return Err(Error::UnknownPrefix(prefix.to_owned())),
                        },
                    },
                    (Some(ns), None) => ns,
                    (None, None) => self.default_ns(),
                },
                name: element.local,
            },
        )
    }

    /// The namespace and name of the attribute `attr`.
    pub fn attribute_id(&self, attr: &Attribute<'xml>) -> (r: Result<Id<'xml>, Error>)
        ensures
            id_result_view(r) == attribute_id_spec(self@.stack, attr@),
    {
        proof {
            reveal_strlit("");
            assert(""@ =~= Seq::<char>::empty());
        }
        Ok(
            Id {
                ns: match attr.prefix {
                    Some(ns) => match self.lookup(ns) {
                        Some(found) => found,
                        None => return Err(Error::UnknownPrefix(ns.to_owned())),
                    },
                    None => "",
                },
                name: attr.local,
            },
        )
    }
}

/// Reading a node consumes a token or a node read ahead; reading nothing consumes nothing that
/// could still be read.
pub proof fn lemma_scan_measure(c: ContextView, cur: Option<LevelView>)
    ensures
        measure(scan(c, cur).1) + (if scan(c, cur).0 is Some {
            1nat
        } else {
            0nat
        }) <= measure(c) + (if cur is Some {
            1nat
        } else {
            0nat
        }),
        scan(c, cur).1.tokens == c.tokens,
    decreases c.tokens.len() - c.pos,
{
    if c.pos < 0 || c.pos >= c.tokens.len() {
    } else {
        let next = advance(c);
        match c.tokens[c.pos] {
            TokenView::ElementStart(prefix, local) => {
                lemma_scan_measure(
                    next,
                    Some(
                        LevelView {
                            local,
                            prefix: prefix_of(prefix),
                            default_ns: None,
                            prefixes: Map::empty(),
                        },
                    ),
                );
            },
            TokenView::Attribute(prefix, local, value) => {
                if prefix.len() == 0 && local == xmlns_name() {
                    if let Some(l) = cur {
                        lemma_scan_measure(next, Some(LevelView { default_ns: Some(value), ..l }));
                    }
                } else if prefix == xmlns_name() {
                    if let Some(l) = cur {
                        lemma_scan_measure(
                            next,
                            Some(LevelView { prefixes: l.prefixes.insert(local, value), ..l }),
                        );
                    }
                } else {
                    if let Ok(v) = decode_spec(value) {
                        lemma_scan_measure(
                            ContextView {
                                records: c.records.push(
                                    NodeView::Attribute(
                                        AttributeView {
                                        prefix: prefix_of(prefix),
                                        local,
                                        value: v,
                                        borrowed: !value.contains('&'),
                                    },
                                    ),
                                ),
                                ..next
                            },
                            cur,
                        );
                    }
                }
            },
            TokenView::Declaration(d) => {
                if c.stack.len() == 0 {
                    lemma_scan_measure(next, cur);
                }
            },
            TokenView::Comment => {
                lemma_scan_measure(next, cur);
            },
            _ => {},
        }
    }
}

/// Reading a node makes less left to read.
pub proof fn lemma_context_next_measure(c: ContextView)
    ensures
        measure(context_next(c).1) <= measure(c),
        context_next(c).0 is Some ==> measure(context_next(c).1) < measure(c),
        context_next(c).1.tokens == c.tokens,
{
    if c.records.len() == 0 {
        lemma_scan_measure(c, None);
    }
}

/// The reading state at the start of a document.
pub open spec fn initial_context(tokens: Seq<TokenView>) -> ContextView {
    ContextView { tokens, pos: 0, stack: Seq::empty(), records: Seq::empty() }
}

/// The reading state after the start tag of the root element, and that start tag.
pub open spec fn start_spec(tokens: Seq<TokenView>) -> Result<(ContextView, ElementView), ErrorView> {
    let (r, c) = context_next(initial_context(tokens));
    match r {
        None => Err(ErrorView::UnexpectedEndOfStream),
        Some(Err(e)) => Err(e),
        Some(Ok(NodeView::Open(element))) => Ok((c, element)),
        Some(Ok(_)) => Err(state_error("first node does not open element")),
    }
}

impl<'xml> Context<'xml> {
    /// Reads the start tag of the root element of the document made of `tokens`.
    pub fn start(tokens: Vec<XmlToken<'xml>>) -> (r: Result<(Context<'xml>, Element<'xml>), Error>)
        ensures
            match start_spec(token_views(tokens@)) {
                Ok((c, e)) => r matches Ok((cx, el)) && cx@ == c && el@ == e,
                Err(e) => r matches Err(err) && err@ == e,
            },
    {
        let mut new = Context::from_tokens(tokens);
        let root = match new.next() {
            Some(result) => match result {
                Ok(Node::Open(element)) => element,
                Ok(_) => return Err(Error::UnexpectedState("first node does not open element")),
                Err(e) => return Err(e),
            },
            None => return Err(Error::UnexpectedEndOfStream),
        };
        Ok((new, root))
    }

    /// Reads the start tag of the root element of the document `input`.
    pub fn new(input: &'xml str) -> (r: Result<(Context<'xml>, Element<'xml>), Error>)
        ensures
            match start_spec(xml_tokens(input@)) {
                Ok((c, e)) => r matches Ok((cx, el)) && cx@ == c && el@ == e,
                Err(e) => r matches Err(err) && err@ == e,
            },
    {
        Context::start(tokenize(input))
    }
}

/// Reads the content of one element.
pub struct Deserializer<'xml> {
    pub(crate) local: &'xml str,
    prefix: Option<&'xml str>,
    level: usize,
    done: bool,
    /// For a self-closing element, whose declarations are not pushed on the stack: the
    /// default namespace it declares, if any.
    own_default: Option<&'xml str>,
    /// For a self-closing element: the namespace that it binds its own prefix to, if it does.
    own_prefix_ns: Option<&'xml str>,
}

pub struct DeView {
    pub local: Seq<char>,
    pub prefix: Option<Seq<char>>,
    pub level: nat,
    pub done: bool,
    pub own_default: Option<Seq<char>>,
    pub own_prefix_ns: Option<Seq<char>>,
}

impl<'xml> View for Deserializer<'xml> {
    type V = DeView;

    closed spec fn view(&self) -> DeView {
        DeView {
            local: self.local@,
            prefix: opt_str(self.prefix),
            level: self.level as nat,
            done: self.done,
            own_default: opt_str(self.own_default),
            own_prefix_ns: opt_str(self.own_prefix_ns),
        }
    }
}

/// The namespace of the element that `d` reads: bound by its own declarations where it is a
/// self-closing element that makes them, else by the open elements. `None` where its prefix is
/// bound nowhere.
pub open spec fn parent_ns_spec(stack: Seq<LevelView>, d: DeView) -> Option<Seq<char>> {
    match d.prefix {
        Some(p) => match d.own_prefix_ns {
            Some(ns) => Some(ns),
            None => lookup_spec(stack, p),
        },
        None => match d.own_default {
            Some(ns) => Some(ns),
            None => Some(default_ns_spec(stack)),
        },
    }
}

/// The reading state and reader of the content of `e`.
pub open spec fn de_new_spec(e: ElementView, c: ContextView) -> (ContextView, DeView) {
    let d = DeView {
        local: e.local,
        prefix: e.prefix,
        level: c.stack.len(),
        done: false,
        own_default: if e.empty {
            e.level.default_ns
        } else {
            None
        },
        own_prefix_ns: if e.empty {
            match e.prefix {
                Some(p) => if e.level.prefixes.dom().contains(p) {
                    Some(e.level.prefixes[p])
                } else {
                    None
                },
                None => None,
            }
        } else {
            None
        },
    };
    if e.empty {
        (c, d)
    } else {
        (ContextView { stack: c.stack.push(e.level), ..c }, d)
    }
}

/// The next node in the content of the element that `d` reads; nothing once its end tag was
/// read.
pub open spec fn de_next(c: ContextView, d: DeView) -> (
    Option<Result<NodeView, ErrorView>>,
    ContextView,
    DeView,
) {
    if d.done {
        (None, c, d)
    } else {
        let (r, c1) = context_next(c);
        match r {
            Some(Ok(NodeView::Close { prefix, local })) => if c1.stack.len() == d.level && local
                == d.local && prefix == d.prefix {
                (None, c1, DeView { done: true, ..d })
            } else {
                (Some(Err(state_error("close element mismatch"))), c1, d)
            },
            _ => (r, c1, d),
        }
    }
}

pub proof fn lemma_de_next_measure(c: ContextView, d: DeView)
    ensures
        measure(de_next(c, d).1) <= measure(c),
        de_next(c, d).0 is Some ==> measure(de_next(c, d).1) < measure(c),
        de_next(c, d).1.tokens == c.tokens,
{
    lemma_context_next_measure(c);
}

impl<'xml> Deserializer<'xml> {
    /// A reader of the content of `element`, whose start tag was just read.
    pub fn new(element: Element<'xml>, context: &mut Context<'xml>) -> (r: Self)
        ensures
            (final(context)@, r@) == de_new_spec(element@, old(context)@),
    {
        let level = context.stack.len();
        let ghost before = context@.stack;
        if !element.empty {
            let l = element.level;
            let ghost lv = l@;
            context.stack.push(l);
            assert(context@.stack =~= before.push(lv));
            Deserializer {
                local: element.local,
                prefix: element.prefix,
                level,
                done: false,
                own_default: None,
                own_prefix_ns: None,
            }
        } else {
            let own_prefix_ns = match element.prefix {
                Some(p) => element.level.prefixes.get(p),
                None => None,
            };
            Deserializer {
                local: element.local,
                prefix: element.prefix,
                level,
                done: false,
                own_default: element.level.default_ns,
                own_prefix_ns,
            }
        }
    }

    /// Reads the next node of the element's content.
    pub fn next(&mut self, context: &mut Context<'xml>) -> (r: Option<Result<Node<'xml>, Error>>)
        ensures
            (node_result_view(r), final(context)@, final(self)@) == de_next(old(context)@, old(self)@),
    {
        if self.done {
            return None;
        }
        let (prefix, local) = match context.next() {
            Some(Ok(Node::Close { prefix, local })) => (prefix, local),
            item => return item,
        };
        if context.stack.len() == self.level && str_eq(local, self.local) && opt_str_eq(
            prefix,
            self.prefix,
        ) {
            self.done = true;
            return None;
        }
        Some(Err(Error::UnexpectedState("close element mismatch")))
    }

    /// A reader of the content of `element`, nested in this element.
    pub fn nested(&mut self, element: Element<'xml>, context: &mut Context<'xml>) -> (r: Deserializer<'xml>)
        ensures
            (final(context)@, r@) == de_new_spec(element@, old(context)@),
            final(self)@ == old(self)@,
    {
        Deserializer::new(element, context)
    }

    /// A reader of this element's content that first reads `node`.
    pub fn for_node(&mut self, node: Node<'xml>, context: &mut Context<'xml>) -> (r: Deserializer<'xml>)
        ensures
            r@ == old(self)@,
            final(self)@ == old(self)@,
            final(context)@ == (ContextView { records: seq![node@] + old(context)@.records, ..old(context)@ }),
    {
        let ghost before = context@.records;
        context.records.push_front(node);
        assert(context@.records =~= seq![node@] + before);
        Deserializer {
            local: self.local,
            prefix: self.prefix,
            level: self.level,
            done: self.done,
            own_default: self.own_default,
            own_prefix_ns: self.own_prefix_ns,
        }
    }

    /// The namespace and name of the element whose content this reads; requires its prefix, if
    /// any, to be bound on the element itself or in the open elements.
    pub fn parent(&self, context: &Context<'xml>) -> (r: Id<'xml>)
        requires
            self@.prefix matches Some(p) ==> parent_ns_spec(context@.stack, self@) is Some,
        ensures
            r@ == (IdView { ns: parent_ns_spec(context@.stack, self@).unwrap(), name: self@.local }),
    {
        Id {
            ns: match self.prefix {
                Some(p) => match self.own_prefix_ns {
                    Some(ns) => ns,
                    None => context.lookup(p).unwrap(),
                },
                None => match self.own_default {
                    Some(ns) => ns,
                    None => context.default_ns(),
                },
            },
            name: self.local,
        }
    }

    /// The namespace and name of the element whose content this reads, or `None` when its
    /// prefix is not bound in the open elements.
    pub fn try_parent(&self, context: &Context<'xml>) -> (r: Option<Id<'xml>>)
        ensures
            match parent_ns_spec(context@.stack, self@) {
                Some(ns) => r matches Some(id) && id@ == (IdView { ns, name: self@.local }),
                None => r is None,
            },
    {
        match self.prefix {
            Some(p) => match self.own_prefix_ns {
                Some(_) => Some(self.parent(context)),
                None => match context.lookup(p) {
                    Some(_) => Some(self.parent(context)),
                    None => None,
                },
            },
            None => Some(self.parent(context)),
        }
    }

    /// The namespace and name of the element that `element` starts.
    pub fn element_id(&self, element: &Element<'xml>, context: &Context<'xml>) -> (r: Result<Id<'xml>, Error>)
        ensures
            id_result_view(r) == element_id_spec(context@.stack, element@),
    {
        context.element_id(element)
    }

    /// The namespace and name of the attribute `attr`.
    pub fn attribute_id(&self, attr: &Attribute<'xml>, context: &Context<'xml>) -> (r: Result<Id<'xml>, Error>)
        ensures
            id_result_view(r) == attribute_id_spec(context@.stack, attr@),
    {
        context.attribute_id(attr)
    }
}

/// The first scalar of the element's content that `d` reads: an attribute value or text,
/// skipping attributes; any other node coming first is refused with its `Debug` text.
pub open spec fn take_str_spec(c: ContextView, d: DeView) -> (
    Result<Option<Seq<char>>, ErrorView>,
    ContextView,
    DeView,
)
    decreases measure(c),
{
    let (r, c1, d1) = de_next(c, d);
    match r {
        None => (Ok(None), c1, d1),
        Some(Err(e)) => (Err(e), c1, d1),
        Some(Ok(NodeView::AttributeValue(s, _))) => (Ok(Some(s)), c1, d1),
        Some(Ok(NodeView::Text(s, _))) => (Ok(Some(s)), c1, d1),
        Some(Ok(NodeView::Attribute(_))) => {
            proof {
                lemma_de_next_measure(c, d);
            }
            take_str_spec(c1, d1)
        },
        Some(Ok(n)) => (Err(ErrorView::ExpectedScalar(debug_node(n))), c1, d1),
    }
}

/// Whether the first scalar of the element's content that `d` reads, as `take_str_spec` finds
/// it, borrows from the input.
pub open spec fn take_str_borrows(c: ContextView, d: DeView) -> bool
    decreases measure(c),
{
    let (r, c1, d1) = de_next(c, d);
    match r {
        Some(Ok(NodeView::AttributeValue(_, b))) => b,
        Some(Ok(NodeView::Text(_, b))) => b,
        Some(Ok(NodeView::Attribute(_))) => {
            proof {
                lemma_de_next_measure(c, d);
            }
            take_str_borrows(c1, d1)
        },
        _ => false,
    }
}

/// Skips the rest of the element's content that `d` reads, nested elements included.
pub open spec fn ignore_spec(c: ContextView, d: DeView) -> (Result<(), ErrorView>, ContextView, DeView)
    decreases measure(c),
{
    let (r, c1, d1) = de_next(c, d);
    match r {
        None => (Ok(()), c1, d1),
        Some(Err(e)) => (Err(e), c1, d1),
        Some(Ok(NodeView::Open(el))) => {
            proof {
                lemma_de_next_measure(c, d);
            }
            let (c2, nd) = de_new_spec(el, c1);
            let (nr, c3, _) = ignore_spec(c2, nd);
            match nr {
                Err(e) => (Err(e), c3, d1),
                Ok(()) => if measure(c3) < measure(c) {
                    ignore_spec(c3, d1)
                } else {
                    (Ok(()), c3, d1)
                },
            }
        },
        Some(Ok(_)) => {
            proof {
                lemma_de_next_measure(c, d);
            }
            ignore_spec(c1, d1)
        },
    }
}

/// Skipping content leaves less to read.
pub proof fn lemma_ignore_measure(c: ContextView, d: DeView)
    ensures
        measure(ignore_spec(c, d).1) <= measure(c),
        ignore_spec(c, d).1.tokens == c.tokens,
    decreases measure(c),
{
    lemma_de_next_measure(c, d);
    let (r, c1, d1) = de_next(c, d);
    match r {
        Some(Ok(NodeView::Open(el))) => {
            let (c2, nd) = de_new_spec(el, c1);
            lemma_ignore_measure(c2, nd);
            let (nr, c3, _) = ignore_spec(c2, nd);
            if nr is Ok && measure(c3) < measure(c) {
                lemma_ignore_measure(c3, d1);
            }
        },
        Some(Ok(_)) => {
            lemma_ignore_measure(c1, d1);
        },
        _ => {},
    }
}

pub open spec fn str_result_view<'xml>(r: Result<Option<Cow<'xml, str>>, Error>) -> Result<
    Option<Seq<char>>,
    ErrorView,
> {
    match r {
        Ok(Some(s)) => Ok(Some(s@)),
        Ok(None) => Ok(None),
        Err(e) => Err(e@),
    }
}

pub open spec fn unit_result_view(r: Result<(), Error>) -> Result<(), ErrorView> {
    match r {
        Ok(()) => Ok(()),
        Err(e) => Err(e@),
    }
}

/// How `Debug` writes an optional string.
pub open spec fn debug_opt_str(o: Option<Seq<char>>) -> Seq<char> {
    match o {
        Some(s) => "Some("@ + str_debug(s) + ")"@,
        None => "None"@,
    }
}

/// How `Debug` writes a boolean.
pub open spec fn debug_bool(b: bool) -> Seq<char> {
    if b {
        "true"@
    } else {
        "false"@
    }
}

/// The entries of `m` for the keys `keys`, as `Debug` writes a map's entries.
pub open spec fn debug_entries(m: Map<Seq<char>, Seq<char>>, keys: Seq<Seq<char>>) -> Seq<char>
    decreases keys.len(),
{
    if keys.len() == 0 {
        Seq::empty()
    } else {
        let entry = str_debug(keys.last()) + ": "@ + str_debug(m[keys.last()]);
        if keys.len() == 1 {
            entry
        } else {
            debug_entries(m, keys.drop_last()) + ", "@ + entry
        }
    }
}

/// How `Debug` writes a sorted map of strings: its entries in the order of its keys.
pub open spec fn debug_map(m: Map<Seq<char>, Seq<char>>) -> Seq<char> {
    "{"@ + debug_entries(m, sorted_keys(m)) + "}"@
}

/// How the derived `Debug` writes the declarations of an element.
pub open spec fn debug_level(l: LevelView) -> Seq<char> {
    "Level { local: "@ + str_debug(l.local) + ", prefix: "@ + debug_opt_str(l.prefix)
        + ", default_ns: "@ + debug_opt_str(l.default_ns) + ", prefixes: "@ + debug_map(l.prefixes)
        + " }"@
}

/// How the derived `Debug` writes a start tag.
pub open spec fn debug_element(e: ElementView) -> Seq<char> {
    "Element { local: "@ + str_debug(e.local) + ", default_ns: "@ + debug_opt_str(e.default_ns)
        + ", prefix: "@ + debug_opt_str(e.prefix) + ", level: "@ + debug_level(e.level)
        + ", empty: "@ + debug_bool(e.empty) + " }"@
}

/// How the derived `Debug` writes a node.
pub open spec fn debug_node(n: NodeView) -> Seq<char> {
    match n {
        NodeView::Attribute(a) => "Attribute(Attribute { prefix: "@ + debug_opt_str(a.prefix)
            + ", local: "@ + str_debug(a.local) + ", value: "@ + str_debug(a.value) + " })"@,
        NodeView::AttributeValue(v, _) => "AttributeValue("@ + str_debug(v) + ")"@,
        NodeView::Close { prefix, local } => "Close { prefix: "@ + debug_opt_str(prefix)
            + ", local: "@ + str_debug(local) + " }"@,
        NodeView::Text(t, _) => "Text("@ + str_debug(t) + ")"@,
        NodeView::Open(e) => "Open("@ + debug_element(e) + ")"@,
    }
}

fn write_debug_str(out: &mut String, s: &str)
    ensures
        final(out)@ == old(out)@ + str_debug(s@),
{
    out.append(debug_str(s).as_str());
}

fn write_debug_opt(out: &mut String, o: Option<&str>)
    ensures
        final(out)@ == old(out)@ + debug_opt_str(opt_str(o)),
{
    match o {
        Some(s) => {
            let ghost start = out@;
            out.append("Some(");
            write_debug_str(out, s);
            out.append(")");
            assert(out@ =~= start + ("Some("@ + str_debug(s@) + ")"@));
        },
        None => out.append("None"),
    }
}

fn write_debug_map(out: &mut String, m: &PrefixMap<'_>)
    ensures
        final(out)@ == old(out)@ + debug_map(m.map()),
{
    let ghost start = out@;
    let ghost mv = m.map();
    let keys = m.sorted_keys();
    let ghost kv = str_views(keys@);
    out.append("{");
    let mut i: usize = 0;
    assert(kv.take(0) =~= Seq::<Seq<char>>::empty());
    assert(out@ =~= start + "{"@ + debug_entries(mv, kv.take(0)));
    while i < keys.len()
        invariant
            i <= keys.len(),
            kv == str_views(keys@),
            kv == sorted_keys(mv),
            forall|k: Seq<char>| #[trigger] kv.contains(k) <==> mv.dom().contains(k),
            mv == m.map(),
            out@ == start + "{"@ + debug_entries(mv, kv.take(i as int)),
        decreases keys.len() - i,
    {
        let k = keys[i];
        let ghost before = out@;
        assert(kv.take(i + 1).drop_last() =~= kv.take(i as int));
        assert(kv.take(i + 1).last() == k@);
        assert(kv.contains(k@));
        let v = match m.get(k) {
            Some(v) => v,
            None => {
                assert(false);
                ""
            },
        };
        if i > 0 {
            out.append(", ");
        }
        write_debug_str(out, k);
        out.append(": ");
        write_debug_str(out, v);
        if i > 0 {
            assert(out@ =~= before + ", "@ + (str_debug(k@) + ": "@ + str_debug(v@)));
        } else {
            assert(out@ =~= before + (str_debug(k@) + ": "@ + str_debug(v@)));
        }
        i += 1;
    }
    assert(kv.take(i as int) =~= kv);
    out.append("}");
}

fn write_debug_level(out: &mut String, l: &Level<'_>)
    ensures
        final(out)@ == old(out)@ + debug_level(l@),
{
    let ghost start = out@;
    out.append("Level { local: ");
    write_debug_str(out, l.local);
    out.append(", prefix: ");
    write_debug_opt(out, l.prefix);
    out.append(", default_ns: ");
    write_debug_opt(out, l.default_ns);
    out.append(", prefixes: ");
    write_debug_map(out, &l.prefixes);
    out.append(" }");
    assert(out@ =~= start + debug_level(l@));
}

fn write_debug_element(out: &mut String, e: &Element<'_>)
    ensures
        final(out)@ == old(out)@ + debug_element(e@),
{
    let ghost start = out@;
    out.append("Element { local: ");
    write_debug_str(out, e.local);
    out.append(", default_ns: ");
    write_debug_opt(out, e.default_ns);
    out.append(", prefix: ");
    write_debug_opt(out, e.prefix);
    out.append(", level: ");
    write_debug_level(out, &e.level);
    out.append(", empty: ");
    if e.empty {
        out.append("true");
    } else {
        out.append("false");
    }
    out.append(" }");
    assert(out@ =~= start + debug_element(e@));
}

fn write_debug_attribute(out: &mut String, a: &Attribute<'_>)
    ensures
        final(out)@ == old(out)@ + debug_node(NodeView::Attribute(a@)),
{
    let ghost start = out@;
    out.append("Attribute(Attribute { prefix: ");
    write_debug_opt(out, a.prefix);
    out.append(", local: ");
    write_debug_str(out, a.local);
    out.append(", value: ");
    write_debug_str(out, cow_str(&a.value));
    out.append(" })");
    assert(out@ =~= start + debug_node(NodeView::Attribute(a@)));
}

fn write_debug_close(out: &mut String, prefix: Option<&str>, local: &str)
    ensures
        final(out)@ == old(out)@ + debug_node(NodeView::Close { prefix: opt_str(prefix), local: local@ }),
{
    let ghost start = out@;
    out.append("Close { prefix: ");
    write_debug_opt(out, prefix);
    out.append(", local: ");
    write_debug_str(out, local);
    out.append(" }");
    assert(out@ =~= start + debug_node(NodeView::Close { prefix: opt_str(prefix), local: local@ }));
}

/// Writes `node` as the derived `Debug` does: the text of an `ExpectedScalar` error.
pub fn node_debug(node: &Node<'_>) -> (r: String)
    ensures
        r@ == debug_node(node@),
{
    let mut out = String::new();
    proof {
        reveal_strlit("");
    }
    assert(out@ =~= Seq::<char>::empty());
    match node {
        Node::Attribute(a) => write_debug_attribute(&mut out, a),
        Node::AttributeValue(v) => {
            out.append("AttributeValue(");
            write_debug_str(&mut out, cow_str(v));
            out.append(")");
            assert(out@ =~= debug_node(node@));
        },
        Node::Close { prefix, local } => write_debug_close(&mut out, *prefix, local),
        Node::Text(t) => {
            out.append("Text(");
            write_debug_str(&mut out, cow_str(t));
            out.append(")");
            assert(out@ =~= debug_node(node@));
        },
        Node::Open(e) => {
            out.append("Open(");
            write_debug_element(&mut out, e);
            out.append(")");
            assert(out@ =~= debug_node(node@));
        },
    }
    out
}

impl<'xml> Deserializer<'xml> {
    /// Reads the first attribute value or text of the element's content.
    pub fn take_str(&mut self, context: &mut Context<'xml>) -> (r: Result<Option<Cow<'xml, str>>, Error>)
        ensures
            ({
                let (res, c, d) = take_str_spec(old(context)@, old(self)@);
                &&& final(context)@ == c
                &&& final(self)@ == d
                &&& str_result_view(r) == res
            }),
            r matches Ok(Some(text)) ==> cow_borrowed(text) == take_str_borrows(
                old(context)@,
                old(self)@,
            ),
    {
        let ghost entry = (context@, self@);
        loop
            invariant
                entry == (old(context)@, old(self)@),
                take_str_spec(entry.0, entry.1) == take_str_spec(context@, self@),
                take_str_borrows(entry.0, entry.1) == take_str_borrows(context@, self@),
            decreases measure(context@),
        {
            let ghost before = (context@, self@);
            proof {
                lemma_de_next_measure(context@, self@);
            }
            match self.next(context) {
                Some(Ok(Node::AttributeValue(s))) => return Ok(Some(s)),
                Some(Ok(Node::Text(s))) => return Ok(Some(s)),
                Some(Ok(Node::Attribute(_))) => {},
                Some(Ok(node)) => return Err(Error::ExpectedScalar(node_debug(&node))),
                Some(Err(e)) => return Err(e),
                None => return Ok(None),
            }
        }
    }

    /// Skips the rest of the element's content, nested elements included.
    pub fn ignore(&mut self, context: &mut Context<'xml>) -> (r: Result<(), Error>)
        ensures
            (unit_result_view(r), final(context)@, final(self)@) == ignore_spec(old(context)@, old(self)@),
        decreases measure(old(context)@),
    {
        let ghost entry = (context@, self@);
        loop
            invariant
                entry == (old(context)@, old(self)@),
                ignore_spec(entry.0, entry.1) == ignore_spec(context@, self@),
                measure(context@) <= measure(entry.0),
            decreases measure(context@),
        {
            proof {
                lemma_de_next_measure(context@, self@);
            }
            match self.next(context) {
                Some(Err(e)) => return Err(e),
                Some(Ok(Node::Open(element))) => {
                    let mut nested = self.nested(element, context);
                    let ghost c2 = context@;
                    let ghost nd = nested@;
                    proof {
                        lemma_ignore_measure(c2, nd);
                    }
                    match nested.ignore(context) {
                        Ok(()) => {},
                        Err(e) => return Err(e),
                    }
                },
                Some(_) => {},
                None => return Ok(()),
            }
        }
    }
}


/// `String::into_bytes`: the UTF-8 bytes of the string, without copying.
#[verifier::external_body]
fn string_into_bytes(s: String) -> (r: Vec<u8>)
    ensures
        r@ == encode_utf8(s@),
{
    s.into_bytes()
}

/// Deserializes a `Cow<str>` that borrows from the input where it can: the text of the element
/// or attribute, which then has the rest of its content skipped.
pub fn borrow_cow_str<'a, 'xml: 'a>(
    into: &mut CowStrAccumulator<'xml, 'a>,
    field: &'static str,
    deserializer: &mut Deserializer<'xml>,
    context: &mut Context<'xml>,
) -> (r: Result<(), Error>)
    ensures
        old(into)@ is Some ==> (r matches Err(e) && e@ == ErrorView::DuplicateValue(field@)
            && final(into)@ == old(into)@ && final(context)@ == old(context)@ && final(deserializer)@ == old(deserializer)@),
        old(into)@ is None ==> ({
            let (res, c1, d1) = take_str_spec(old(context)@, old(deserializer)@);
            match res {
                Ok(Some(s)) => {
                    let (ir, c2, d2) = ignore_spec(c1, d1);
                    &&& final(into)@ == Some((s, take_str_borrows(old(context)@, old(deserializer)@)))
                    &&& unit_result_view(r) == ir
                    &&& final(context)@ == c2
                    &&& final(deserializer)@ == d2
                },
                Ok(None) => r is Ok && final(into)@ is None && final(context)@ == c1 && final(deserializer)@ == d1,
                Err(e) => r matches Err(err) && err@ == e && final(into)@ is None && final(context)@ == c1 && final(deserializer)@ == d1,
            }
        }),
{
    if into.is_some() {
        return Err(Error::DuplicateValue(field));
    }
    match deserializer.take_str(context) {
        Ok(Some(value)) => into.set(value),
        Ok(None) => return Ok(()),
        Err(e) => return Err(e),
    }
    deserializer.ignore(context)
}

/// The bytes that an optional byte string holds, if any.
pub open spec fn opt_bytes<'xml>(o: Option<Cow<'xml, [u8]>>) -> Option<Seq<u8>> {
    match o {
        Some(b) => Some(b@),
        None => None,
    }
}

/// Deserializes a `Cow<[u8]>`, the UTF-8 bytes of the text of the element or attribute, which
/// borrows from the input where it can; the rest of the content is then skipped.
pub fn borrow_cow_slice_u8<'xml>(
    into: &mut Option<Cow<'xml, [u8]>>,
    field: &'static str,
    deserializer: &mut Deserializer<'xml>,
    context: &mut Context<'xml>,
) -> (r: Result<(), Error>)
    ensures
        *old(into) is Some ==> (r matches Err(e) && e@ == ErrorView::DuplicateValue(field@)
            && *final(into) == *old(into) && final(context)@ == old(context)@ && final(deserializer)@ == old(deserializer)@),
        *old(into) is None ==> ({
            let (res, c1, d1) = take_str_spec(old(context)@, old(deserializer)@);
            let (ir, c2, d2) = ignore_spec(c1, d1);
            match res {
                Ok(text) => {
                    &&& opt_bytes(*final(into)) == match text {
                        Some(s) => Some(encode_utf8(s)),
                        None => None::<Seq<u8>>,
                    }
                    &&& unit_result_view(r) == ir
                    &&& final(context)@ == c2
                    &&& final(deserializer)@ == d2
                },
                Err(e) => r matches Err(err) && err@ == e && *final(into) is None && final(context)@ == c1 && final(deserializer)@ == d1,
            }
        }),
{
    if into.is_some() {
        return Err(Error::DuplicateValue(field));
    }
    match deserializer.take_str(context) {
        Ok(Some(value)) => {
            *into = Some(
                match value {
                    Cow::Borrowed(v) => Cow::Borrowed(v.as_bytes()),
                    Cow::Owned(v) => Cow::Owned(string_into_bytes(v)),
                },
            );
        },
        Ok(None) => {},
        Err(e) => return Err(e),
    }
    deserializer.ignore(context)
}

} // verus!
