//! The `#[xml(...)]` attribute that configures the derive macros: its items, and the
//! namespaces that `ns(...)` declares, read from the attribute's tokens.

use vstd::prelude::*;

use crate::strings::{push_char, str_eq};

verus! {

/// The delimiter of a group of tokens.
#[derive(Clone, Copy, Debug, Eq, PartialEq, Structural)]
pub enum Delimiter {
    /// `( ... )`
    Parenthesis,
    /// `{ ... }`
    Brace,
    /// `[ ... ]`
    Bracket,
    /// A group without visible delimiters
    Invisible,
}

/// A delimited group of tokens.
#[derive(Debug)]
pub struct Group {
    /// The group's delimiter
    pub delimiter: Delimiter,
    /// The tokens between the delimiters
    pub stream: Vec<TokenTree>,
}

/// A token of an attribute's arguments.
#[derive(Debug)]
pub enum TokenTree {
    /// A delimited group of tokens
    Group(Delimiter, Vec<TokenTree>),
    /// An identifier
    Ident(String),
    /// A punctuation character
    Punct(char),
    /// A literal, as written in the source: a string literal keeps its quotes
    Literal(String),
}

/// The value of a [`TokenTree`].
pub enum TreeView {
    Group(Delimiter, Seq<TreeView>),
    Ident(Seq<char>),
    Punct(char),
    Literal(Seq<char>),
}

/// The value of a token tree.
pub open spec fn tree_view(t: TokenTree) -> TreeView
    decreases t,
{
    match t {
        TokenTree::Group(delimiter, stream) => TreeView::Group(
            delimiter,
            Seq::new(
                stream@.len(),
                |i: int|
                    if 0 <= i < stream@.len() {
                        tree_view(stream@[i])
                    } else {
                        arbitrary()
                    },
            ),
        ),
        TokenTree::Ident(s) => TreeView::Ident(s@),
        TokenTree::Punct(c) => TreeView::Punct(c),
        TokenTree::Literal(s) => TreeView::Literal(s@),
    }
}

impl View for TokenTree {
    type V = TreeView;

    open spec fn view(&self) -> TreeView {
        tree_view(*self)
    }
}

/// The values of a sequence of token trees.
pub open spec fn trees_view(s: Seq<TokenTree>) -> Seq<TreeView> {
    s.map_values(|t: TokenTree| t@)
}

/// Whether `t` is the punctuation character `c`.
pub open spec fn is_punct(t: TreeView, c: char) -> bool {
    t matches TreeView::Punct(p) && p == c
}

impl TokenTree {
    fn clone_tree(&self) -> (r: TokenTree)
        ensures
            r@ == self@,
        decreases self,
    {
        match self {
            TokenTree::Group(delimiter, trees) => {
                let mut stream: Vec<TokenTree> = Vec::new();
                let mut j: usize = 0;
                while j < trees.len()
                    invariant
                        j <= trees.len(),
                        stream@.len() == j,
                        forall|k: int| 0 <= k < j ==> (#[trigger] stream@[k])@ == trees@[k]@,
                        *self == TokenTree::Group(*delimiter, *trees),
                    decreases trees.len() - j,
                {
                    assert(decreases_to!(self => trees@[j as int])) by {
                        assert(decreases_to!(*self => self->Group_1));
                        assert(decreases_to!(*trees => trees@));
                    }
                    let t = trees[j].clone_tree();
                    stream.push(t);
                    j += 1;
                }
                let r = TokenTree::Group(*delimiter, stream);
                assert(tree_view(r) == tree_view(*self)) by {
                    if let TreeView::Group(_, a) = tree_view(r) {
                        if let TreeView::Group(_, b) = tree_view(*self) {
                            assert(a =~= b);
                        }
                    }
                }
                r
            },
            TokenTree::Ident(s) => TokenTree::Ident(s.clone()),
            TokenTree::Punct(c) => TokenTree::Punct(*c),
            TokenTree::Literal(s) => TokenTree::Literal(s.clone()),
        }
    }
}

impl Clone for TokenTree {
    fn clone(&self) -> (r: Self)
        ensures
            r@ == self@,
    {
        self.clone_tree()
    }
}

/// Copies a sequence of token trees.
fn clone_trees(trees: &Vec<TokenTree>) -> (r: Vec<TokenTree>)
    ensures
        trees_view(r@) == trees_view(trees@),
{
    let mut out: Vec<TokenTree> = Vec::new();
    let mut i: usize = 0;
    while i < trees.len()
        invariant
            i <= trees.len(),
            trees_view(out@) == trees_view(trees@).take(i as int),
        decreases trees.len() - i,
    {
        let t = trees[i].clone_tree();
        let ghost before = trees_view(out@);
        out.push(t);
        assert(trees_view(out@) =~= before.push(t@));
        assert(trees_view(trees@).take(i + 1) =~= trees_view(trees@).take(i as int).push(
            trees@[i as int]@,
        ));
        i += 1;
    }
    assert(trees_view(trees@).take(i as int) =~= trees_view(trees@));
    out
}

// Namespaces: `ns("uri", prefix = "uri", other = path::TO_URI)`

/// A path, as in `foo::BAR` or `::foo::BAR`.
#[derive(Debug)]
pub struct NsPath {
    /// Whether the path starts with `::`
    pub leading_colon: bool,
    /// The identifiers of the path, in order
    pub segments: Vec<String>,
}

pub struct PathView {
    pub leading_colon: bool,
    pub segments: Seq<Seq<char>>,
}

impl View for NsPath {
    type V = PathView;

    open spec fn view(&self) -> PathView {
        PathView {
            leading_colon: self.leading_colon,
            segments: self.segments@.map_values(|s: String| s@),
        }
    }
}

/// A namespace URI: a string literal, or a path to a constant that holds it.
#[derive(Debug)]
pub enum Namespace {
    /// A path to a constant
    Path(NsPath),
    /// A string literal, as written
    Literal(String),
}

pub enum NamespaceView {
    Path(PathView),
    Literal(Seq<char>),
}

impl View for Namespace {
    type V = NamespaceView;

    open spec fn view(&self) -> NamespaceView {
        match self {
            Namespace::Path(p) => NamespaceView::Path(p@),
            Namespace::Literal(s) => NamespaceView::Literal(s@),
        }
    }
}

/// The map that a sequence of prefix declarations builds: later declarations win.
pub open spec fn prefix_map(s: Seq<(String, Namespace)>) -> Map<Seq<char>, NamespaceView>
    decreases s.len(),
{
    if s.len() == 0 {
        Map::empty()
    } else {
        prefix_map(s.drop_last()).insert(s.last().0@, s.last().1@)
    }
}

/// The namespaces that an `ns(...)` item declares.
#[derive(Debug)]
pub struct NamespaceMeta {
    /// The default namespace, if declared
    pub uri: Option<Namespace>,
    /// The prefixes declared, in the order of their declarations
    prefixes: Vec<(String, Namespace)>,
}

pub struct NsMetaView {
    pub uri: Option<NamespaceView>,
    pub prefixes: Map<Seq<char>, NamespaceView>,
}

pub open spec fn opt_namespace(n: Option<Namespace>) -> Option<NamespaceView> {
    match n {
        Some(n) => Some(n@),
        None => None,
    }
}

impl View for NamespaceMeta {
    type V = NsMetaView;

    closed spec fn view(&self) -> NsMetaView {
        NsMetaView { uri: opt_namespace(self.uri), prefixes: prefix_map(self.prefixes@) }
    }
}

impl Default for NamespaceMeta {
    fn default() -> (r: Self)
        ensures
            r@ == (NsMetaView { uri: None, prefixes: Map::empty() }),
    {
        NamespaceMeta { uri: None, prefixes: Vec::new() }
    }
}

impl NamespaceMeta {
    /// Declares `prefix` for the namespace `ns`, replacing an earlier declaration of it.
    pub fn insert_prefix(&mut self, prefix: String, ns: Namespace)
        ensures
            final(self)@ == (NsMetaView {
                prefixes: old(self)@.prefixes.insert(prefix@, ns@),
                ..old(self)@
            }),
    {
        let ghost before = self.prefixes@;
        let ghost entry = (prefix@, ns@);
        self.prefixes.push((prefix, ns));
        assert(self.prefixes@.drop_last() =~= before);
    }

    /// The default namespace declared, if any.
    pub fn uri(&self) -> (r: Option<&Namespace>)
        ensures
            match r {
                Some(ns) => self@.uri == Some(ns@),
                None => self@.uri is None,
            },
    {
        match &self.uri {
            Some(ns) => Some(ns),
            None => None,
        }
    }

    /// Whether no prefix is declared.
    pub fn no_prefixes(&self) -> (r: bool)
        ensures
            r == (self@.prefixes == Map::<Seq<char>, NamespaceView>::empty()),
    {
        if self.prefixes.len() == 0 {
            assert(self@.prefixes =~= Map::<Seq<char>, NamespaceView>::empty());
            true
        } else {
            let ghost s = self.prefixes@;
            assert(prefix_map(s).dom().contains(s.last().0@));
            false
        }
    }

    /// The namespace declared for `prefix`, if any.
    pub fn prefix(&self, prefix: &str) -> (r: Option<&Namespace>)
        ensures
            match r {
                Some(ns) => self@.prefixes.dom().contains(prefix@) && self@.prefixes[prefix@]
                    == ns@,
                None => !self@.prefixes.dom().contains(prefix@),
            },
    {
        let mut j = self.prefixes.len();
        assert(self.prefixes@.take(j as int) =~= self.prefixes@);
        while j > 0
            invariant
                j <= self.prefixes.len(),
                prefix_map(self.prefixes@.take(j as int)).dom().contains(prefix@)
                    == self@.prefixes.dom().contains(prefix@),
                prefix_map(self.prefixes@.take(j as int)).dom().contains(prefix@) ==> prefix_map(
                    self.prefixes@.take(j as int),
                )[prefix@] == self@.prefixes[prefix@],
            decreases j,
        {
            assert(self.prefixes@.take(j as int).drop_last() =~= self.prefixes@.take(j - 1));
            let entry = &self.prefixes[j - 1];
            if str_eq(entry.0.as_str(), prefix) {
                return Some(&entry.1);
            }
            j -= 1;
        }
        assert(self.prefixes@.take(0) =~= Seq::<(String, Namespace)>::empty());
        None
    }
}

/// Where the reading of `ns(...)` stands.
#[derive(Debug)]
pub enum NsState {
    /// At the start, or after the default namespace's path was taken
    Start,
    /// After a complete declaration, where a comma may follow
    Comma,
    /// Reading the path of the default namespace, or of a prefix's name; the flags tell which
    /// colons of a `::` were read
    Path { colon1: bool, colon2: bool, path: Option<NsPath> },
    /// Where a prefix's name starts
    Prefix,
    /// Reading a prefix's name, which may hold `-` and `.`
    Eq { prefix: String },
    /// After `prefix =`, where the namespace follows
    PrefixValue { prefix: String },
    /// Reading the path of a prefix's namespace
    PrefixPath { prefix: String, colon1: bool, colon2: bool, path: Option<NsPath> },
}

pub enum NsStateView {
    Start,
    Comma,
    Path { colon1: bool, colon2: bool, path: Option<PathView> },
    Prefix,
    Eq { prefix: Seq<char> },
    PrefixValue { prefix: Seq<char> },
    PrefixPath { prefix: Seq<char>, colon1: bool, colon2: bool, path: Option<PathView> },
}

pub open spec fn opt_path(p: Option<NsPath>) -> Option<PathView> {
    match p {
        Some(p) => Some(p@),
        None => None,
    }
}

impl View for NsState {
    type V = NsStateView;

    open spec fn view(&self) -> NsStateView {
        match self {
            NsState::Start => NsStateView::Start,
            NsState::Comma => NsStateView::Comma,
            NsState::Path { colon1, colon2, path } => NsStateView::Path {
                colon1: *colon1,
                colon2: *colon2,
                path: opt_path(*path),
            },
            NsState::Prefix => NsStateView::Prefix,
            NsState::Eq { prefix } => NsStateView::Eq { prefix: prefix@ },
            NsState::PrefixValue { prefix } => NsStateView::PrefixValue { prefix: prefix@ },
            NsState::PrefixPath { prefix, colon1, colon2, path } => NsStateView::PrefixPath {
                prefix: prefix@,
                colon1: *colon1,
                colon2: *colon2,
                path: opt_path(*path),
            },
        }
    }
}

/// Errors in an `#[xml(...)]` attribute, for which the derive macros stop.
#[derive(Debug)]
pub enum MetaError {
    /// The `xml` attribute does not hold a list
    ExpectedList,
    /// An item's key is none that the attribute knows
    UnexpectedKey,
    /// A token that cannot follow in the state named
    InvalidTransition { state: &'static str, tree: TokenTree },
    /// A token of `ns(...)` that cannot follow in the state named
    NsInvalidTransition { state: &'static str, tree: TokenTree },
    /// A prefix named by a path that starts with `::`
    PrefixOnPath,
    /// A prefix named by a path of more than one identifier
    PrefixNotIdentifier,
    /// `ns(...)` ends in the state named, within a declaration
    NsInvalidEndState { state: &'static str },
    /// Items that the attribute holds but that do not apply where it stands, with the reason
    Invalid { message: &'static str },
    /// An attribute field's namespace names a prefix that its type does not declare
    UnknownPrefix { prefix: String },
    /// A `rename_all` literal that names no renaming rule
    UnknownRenameRule { literal: String },
}

pub enum MetaErrorView {
    ExpectedList,
    UnexpectedKey,
    InvalidTransition { state: Seq<char>, tree: TreeView },
    NsInvalidTransition { state: Seq<char>, tree: TreeView },
    PrefixOnPath,
    PrefixNotIdentifier,
    NsInvalidEndState { state: Seq<char> },
    Invalid { message: Seq<char> },
    UnknownPrefix { prefix: Seq<char> },
    UnknownRenameRule { literal: Seq<char> },
}

impl View for MetaError {
    type V = MetaErrorView;

    open spec fn view(&self) -> MetaErrorView {
        match self {
            MetaError::ExpectedList => MetaErrorView::ExpectedList,
            MetaError::UnexpectedKey => MetaErrorView::UnexpectedKey,
            MetaError::InvalidTransition { state, tree } => MetaErrorView::InvalidTransition {
                state: state@,
                tree: tree@,
            },
            MetaError::NsInvalidTransition { state, tree } => MetaErrorView::NsInvalidTransition {
                state: state@,
                tree: tree@,
            },
            MetaError::PrefixOnPath => MetaErrorView::PrefixOnPath,
            MetaError::PrefixNotIdentifier => MetaErrorView::PrefixNotIdentifier,
            MetaError::NsInvalidEndState { state } => MetaErrorView::NsInvalidEndState {
                state: state@,
            },
            MetaError::Invalid { message } => MetaErrorView::Invalid { message: message@ },
            MetaError::UnknownPrefix { prefix } => MetaErrorView::UnknownPrefix { prefix: prefix@ },
            MetaError::UnknownRenameRule { literal } => MetaErrorView::UnknownRenameRule {
                literal: literal@,
            },
        }
    }
}

/// The name of a state of `ns(...)`, as errors give it: a path state lists which of its colons
/// and path it holds.
pub open spec fn ns_state_name(st: NsStateView) -> Seq<char> {
    match st {
        NsStateView::Start => "Start"@,
        NsStateView::Comma => "Comma"@,
        NsStateView::Path { colon1, colon2, path } => if !colon1 && !colon2 && path is None {
            "Path [000]"@
        } else if colon1 && !colon2 && path is None {
            "Path [100]"@
        } else if !colon1 && colon2 && path is None {
            "Path [010]"@
        } else if !colon1 && !colon2 {
            "Path [001]"@
        } else if colon1 && colon2 && path is None {
            "Path [110]"@
        } else if !colon1 && colon2 {
            "Path [011]"@
        } else if colon1 && !colon2 {
            "Path [101]"@
        } else {
            "Path [111]"@
        },
        NsStateView::Prefix => "Prefix"@,
        NsStateView::Eq { .. } => "Eq"@,
        NsStateView::PrefixValue { .. } => "PrefixValue"@,
        NsStateView::PrefixPath { .. } => "PrefixPath"@,
    }
}

impl NsState {
    /// The state's name, as errors give it.
    pub fn name(&self) -> (r: &'static str)
        ensures
            r@ == ns_state_name(self@),
    {
        match self {
            NsState::Start => "Start",
            NsState::Comma => "Comma",
            NsState::Path { colon1, colon2, path } => match (colon1, colon2, path) {
                (false, false, None) => "Path [000]",
                (true, false, None) => "Path [100]",
                (false, true, None) => "Path [010]",
                (false, false, Some(_)) => "Path [001]",
                (true, true, None) => "Path [110]",
                (false, true, Some(_)) => "Path [011]",
                (true, false, Some(_)) => "Path [101]",
                (true, true, Some(_)) => "Path [111]",
            },
            NsState::Prefix => "Prefix",
            NsState::Eq { .. } => "Eq",
            NsState::PrefixValue { .. } => "PrefixValue",
            NsState::PrefixPath { .. } => "PrefixPath",
        }
    }
}

/// The path of the single identifier `id`.
pub open spec fn path_of(id: Seq<char>) -> PathView {
    PathView { leading_colon: false, segments: seq![id] }
}

/// The path read so far, after `::` and the identifier `id`: a path that starts with `::`
/// where nothing was read before.
pub open spec fn path_extend(path: Option<PathView>, id: Seq<char>) -> PathView {
    match path {
        Some(p) => PathView { segments: p.segments.push(id), ..p },
        None => PathView { leading_colon: true, segments: seq![id] },
    }
}

pub open spec fn ns_invalid(st: NsStateView, t: TreeView) -> MetaErrorView {
    MetaErrorView::NsInvalidTransition { state: ns_state_name(st), tree: t }
}

/// One step of reading `ns(...)`: from the state `st`, with the namespaces `m` declared so
/// far, on the token `t`.
pub open spec fn ns_step(st: NsStateView, m: NsMetaView, t: TreeView) -> Result<
    (NsStateView, NsMetaView),
    MetaErrorView,
> {
    match st {
        NsStateView::Start => match t {
            TreeView::Literal(lit) => Ok(
                (
                    NsStateView::Comma,
                    NsMetaView { uri: Some(NamespaceView::Literal(lit)), ..m },
                ),
            ),
            TreeView::Ident(id) => Ok(
                (NsStateView::Path { colon1: false, colon2: false, path: Some(path_of(id)) }, m),
            ),
            _ => if is_punct(t, ':') {
                Ok((NsStateView::Path { colon1: true, colon2: false, path: None }, m))
            } else {
                Err(ns_invalid(st, t))
            },
        },
        NsStateView::Comma => if is_punct(t, ',') {
            Ok((NsStateView::Prefix, m))
        } else {
            Err(ns_invalid(st, t))
        },
        NsStateView::Path { colon1, colon2, path } => if !colon1 && !colon2 {
            if is_punct(t, ':') {
                Ok((NsStateView::Path { colon1: true, colon2: false, path }, m))
            } else if path is Some && is_punct(t, ',') {
                Ok(
                    (
                        NsStateView::Prefix,
                        NsMetaView { uri: Some(NamespaceView::Path(path->0)), ..m },
                    ),
                )
            } else if path is Some && is_punct(t, '=') {
                let p = path->0;
                if p.leading_colon {
                    Err(MetaErrorView::PrefixOnPath)
                } else if p.segments.len() != 1 {
                    Err(MetaErrorView::PrefixNotIdentifier)
                } else {
                    Ok((NsStateView::PrefixValue { prefix: p.segments[0] }, m))
                }
            } else if path is Some && (is_punct(t, '-') || is_punct(t, '.'))
                && !path->0.leading_colon && path->0.segments.len() == 1 {
                Ok((NsStateView::Eq { prefix: path->0.segments[0].push(t->Punct_0) }, m))
            } else {
                Err(ns_invalid(st, t))
            }
        } else if colon1 && !colon2 {
            if is_punct(t, ':') {
                Ok((NsStateView::Path { colon1: true, colon2: true, path }, m))
            } else {
                Err(ns_invalid(st, t))
            }
        } else if colon1 && colon2 {
            match t {
                TreeView::Ident(id) => Ok(
                    (
                        NsStateView::Path {
                            colon1: false,
                            colon2: false,
                            path: Some(path_extend(path, id)),
                        },
                        m,
                    ),
                ),
                _ => Err(ns_invalid(st, t)),
            }
        } else {
            Err(ns_invalid(st, t))
        },
        NsStateView::Prefix => match t {
            TreeView::Ident(id) => Ok((NsStateView::Eq { prefix: id }, m)),
            _ => Err(ns_invalid(st, t)),
        },
        NsStateView::Eq { prefix } => match t {
            TreeView::Punct(c) => if c == '-' || c == '.' {
                Ok((NsStateView::Eq { prefix: prefix.push(c) }, m))
            } else if c == '=' {
                Ok((NsStateView::PrefixValue { prefix }, m))
            } else {
                Err(ns_invalid(st, t))
            },
            TreeView::Ident(id) => Ok((NsStateView::Eq { prefix: prefix + id }, m)),
            _ => Err(ns_invalid(st, t)),
        },
        NsStateView::PrefixValue { prefix } => match t {
            TreeView::Literal(lit) => Ok(
                (
                    NsStateView::Comma,
                    NsMetaView {
                        prefixes: m.prefixes.insert(prefix, NamespaceView::Literal(lit)),
                        ..m
                    },
                ),
            ),
            TreeView::Ident(id) => Ok(
                (
                    NsStateView::PrefixPath {
                        prefix,
                        colon1: false,
                        colon2: false,
                        path: Some(path_of(id)),
                    },
                    m,
                ),
            ),
            _ => if is_punct(t, ':') {
                Ok((NsStateView::PrefixPath { prefix, colon1: true, colon2: false, path: None }, m))
            } else {
                Err(ns_invalid(st, t))
            },
        },
        NsStateView::PrefixPath { prefix, colon1, colon2, path } => if !colon1 && !colon2 {
            if is_punct(t, ':') {
                Ok((NsStateView::PrefixPath { prefix, colon1: true, colon2: false, path }, m))
            } else if path is Some && is_punct(t, ',') {
                Ok(
                    (
                        NsStateView::Prefix,
                        NsMetaView {
                            prefixes: m.prefixes.insert(prefix, NamespaceView::Path(path->0)),
                            ..m
                        },
                    ),
                )
            } else {
                Err(ns_invalid(st, t))
            }
        } else if colon1 && !colon2 {
            if is_punct(t, ':') {
                Ok((NsStateView::PrefixPath { prefix, colon1: true, colon2: true, path }, m))
            } else {
                Err(ns_invalid(st, t))
            }
        } else if colon1 && colon2 {
            match t {
                TreeView::Ident(id) => Ok(
                    (
                        NsStateView::PrefixPath {
                            prefix,
                            colon1: false,
                            colon2: false,
                            path: Some(path_extend(path, id)),
                        },
                        m,
                    ),
                ),
                _ => Err(ns_invalid(st, t)),
            }
        } else {
            Err(ns_invalid(st, t))
        },
    }
}

/// What reading the tokens `ts` of `ns(...)` in order leads to.
pub open spec fn ns_run(ts: Seq<TreeView>) -> Result<(NsStateView, NsMetaView), MetaErrorView>
    decreases ts.len(),
{
    if ts.len() == 0 {
        Ok((NsStateView::Start, NsMetaView { uri: None, prefixes: Map::empty() }))
    } else {
        match ns_run(ts.drop_last()) {
            Ok((st, m)) => ns_step(st, m, ts.last()),
            Err(e) => Err(e),
        }
    }
}

/// The namespaces declared, once the tokens ran out in the state `st`: a path being read is
/// complete there.
pub open spec fn ns_finish(st: NsStateView, m: NsMetaView) -> Result<NsMetaView, MetaErrorView> {
    match st {
        NsStateView::Start => Ok(m),
        NsStateView::Comma => Ok(m),
        NsStateView::Path { colon1, colon2, path } => if !colon1 && !colon2 && path is Some {
            Ok(NsMetaView { uri: Some(NamespaceView::Path(path->0)), ..m })
        } else {
            Err(MetaErrorView::NsInvalidEndState { state: ns_state_name(st) })
        },
        NsStateView::PrefixPath { prefix, colon1, colon2, path } => if !colon1 && !colon2
            && path is Some {
            Ok(NsMetaView { prefixes: m.prefixes.insert(prefix, NamespaceView::Path(path->0)), ..m })
        } else {
            Err(MetaErrorView::NsInvalidEndState { state: ns_state_name(st) })
        },
        _ => Err(MetaErrorView::NsInvalidEndState { state: ns_state_name(st) }),
    }
}

/// The namespaces that `ns(...)` with the tokens `ts` declares, or the error in them.
pub open spec fn ns_parse(ts: Seq<TreeView>) -> Result<NsMetaView, MetaErrorView> {
    match ns_run(ts) {
        Ok((st, m)) => ns_finish(st, m),
        Err(e) => Err(e),
    }
}

/// Once reading the first `j` tokens failed, reading them all fails the same way.
proof fn lemma_ns_run_stays_err(ts: Seq<TreeView>, j: int)
    requires
        0 <= j <= ts.len(),
        ns_run(ts.take(j)) is Err,
    ensures
        ns_run(ts) == ns_run(ts.take(j)),
    decreases ts.len() - j,
{
    if j < ts.len() {
        assert(ts.take(j + 1).drop_last() =~= ts.take(j));
        lemma_ns_run_stays_err(ts, j + 1);
    } else {
        assert(ts.take(j) =~= ts);
    }
}

impl NsPath {
    fn from_ident(id: String) -> (r: NsPath)
        ensures
            r@ == path_of(id@),
    {
        let r = NsPath { leading_colon: false, segments: vec![id] };
        assert(r@.segments =~= seq![id@]);
        r
    }

    fn extend(path: Option<NsPath>, id: String) -> (r: NsPath)
        ensures
            r@ == path_extend(opt_path(path), id@),
    {
        match path {
            Some(mut p) => {
                let ghost before = p@;
                p.segments.push(id);
                assert(p@.segments =~= before.segments.push(id@));
                p
            },
            None => {
                let r = NsPath { leading_colon: true, segments: vec![id] };
                assert(r@.segments =~= seq![id@]);
                r
            },
        }
    }
}

impl NsState {
    /// Reads the token `tree` of `ns(...)`, declaring in `meta` what it completes.
    pub fn step(self, meta: &mut NamespaceMeta, tree: TokenTree) -> (r: Result<NsState, MetaError>)
        ensures
            match ns_step(self@, old(meta)@, tree@) {
                Ok((st, m)) => r matches Ok(s) && s@ == st && final(meta)@ == m,
                Err(e) => r matches Err(err) && err@ == e,
            },
    {
        let state = self.name();
        match self {
            NsState::Start => match tree {
                TokenTree::Literal(lit) => {
                    meta.uri = Some(Namespace::Literal(lit));
                    Ok(NsState::Comma)
                },
                TokenTree::Ident(id) => Ok(
                    NsState::Path {
                        colon1: false,
                        colon2: false,
                        path: Some(NsPath::from_ident(id)),
                    },
                ),
                TokenTree::Punct(c) if c == ':' => Ok(
                    NsState::Path { colon1: true, colon2: false, path: None },
                ),
                tree => Err(MetaError::NsInvalidTransition { state, tree }),
            },
            NsState::Comma => match tree {
                TokenTree::Punct(c) if c == ',' => Ok(NsState::Prefix),
                tree => Err(MetaError::NsInvalidTransition { state, tree }),
            },
            NsState::Path { colon1, colon2, path } => {
                if !colon1 && !colon2 {
                    match (tree, path) {
                        (TokenTree::Punct(c), path) if c == ':' => Ok(
                            NsState::Path { colon1: true, colon2: false, path },
                        ),
                        (TokenTree::Punct(c), Some(p)) if c == ',' => {
                            meta.uri = Some(Namespace::Path(p));
                            Ok(NsState::Prefix)
                        },
                        (TokenTree::Punct(c), Some(p)) if c == '=' => {
                            if p.leading_colon {
                                return Err(MetaError::PrefixOnPath);
                            }
                            if p.segments.len() != 1 {
                                return Err(MetaError::PrefixNotIdentifier);
                            }
                            let mut segments = p.segments;
                            match segments.pop() {
                                Some(prefix) => Ok(NsState::PrefixValue { prefix }),
                                None => Err(MetaError::PrefixNotIdentifier),
                            }
                        },
                        (TokenTree::Punct(c), Some(p)) if (c == '-' || c == '.') && !p.leading_colon
                            && p.segments.len() == 1 => {
                            let mut segments = p.segments;
                            match segments.pop() {
                                Some(mut prefix) => {
                                    push_char(&mut prefix, c);
                                    Ok(NsState::Eq { prefix })
                                },
                                None => Err(MetaError::PrefixNotIdentifier),
                            }
                        },
                        (tree, _) => Err(MetaError::NsInvalidTransition { state, tree }),
                    }
                } else if colon1 && !colon2 {
                    match tree {
                        TokenTree::Punct(c) if c == ':' => Ok(
                            NsState::Path { colon1: true, colon2: true, path },
                        ),
                        tree => Err(MetaError::NsInvalidTransition { state, tree }),
                    }
                } else if colon1 && colon2 {
                    match tree {
                        TokenTree::Ident(id) => Ok(
                            NsState::Path {
                                colon1: false,
                                colon2: false,
                                path: Some(NsPath::extend(path, id)),
                            },
                        ),
                        tree => Err(MetaError::NsInvalidTransition { state, tree }),
                    }
                } else {
                    Err(MetaError::NsInvalidTransition { state, tree })
                }
            },
            NsState::Prefix => match tree {
                TokenTree::Ident(id) => Ok(NsState::Eq { prefix: id }),
                tree => Err(MetaError::NsInvalidTransition { state, tree }),
            },
            NsState::Eq { mut prefix } => match tree {
                TokenTree::Punct(c) if c == '-' || c == '.' => {
                    push_char(&mut prefix, c);
                    Ok(NsState::Eq { prefix })
                },
                TokenTree::Ident(id) => {
                    prefix.append(id.as_str());
                    Ok(NsState::Eq { prefix })
                },
                TokenTree::Punct(c) if c == '=' => Ok(NsState::PrefixValue { prefix }),
                tree => Err(MetaError::NsInvalidTransition { state, tree }),
            },
            NsState::PrefixValue { prefix } => match tree {
                TokenTree::Literal(lit) => {
                    meta.insert_prefix(prefix, Namespace::Literal(lit));
                    Ok(NsState::Comma)
                },
                TokenTree::Ident(id) => Ok(
                    NsState::PrefixPath {
                        prefix,
                        colon1: false,
                        colon2: false,
                        path: Some(NsPath::from_ident(id)),
                    },
                ),
                TokenTree::Punct(c) if c == ':' => Ok(
                    NsState::PrefixPath { prefix, colon1: true, colon2: false, path: None },
                ),
                tree => Err(MetaError::NsInvalidTransition { state, tree }),
            },
            NsState::PrefixPath { prefix, colon1, colon2, path } => {
                if !colon1 && !colon2 {
                    match (tree, path) {
                        (TokenTree::Punct(c), path) if c == ':' => Ok(
                            NsState::PrefixPath { prefix, colon1: true, colon2: false, path },
                        ),
                        (TokenTree::Punct(c), Some(p)) if c == ',' => {
                            meta.insert_prefix(prefix, Namespace::Path(p));
                            Ok(NsState::Prefix)
                        },
                        (tree, _) => Err(MetaError::NsInvalidTransition { state, tree }),
                    }
                } else if colon1 && !colon2 {
                    match tree {
                        TokenTree::Punct(c) if c == ':' => Ok(
                            NsState::PrefixPath { prefix, colon1: true, colon2: true, path },
                        ),
                        tree => Err(MetaError::NsInvalidTransition { state, tree }),
                    }
                } else if colon1 && colon2 {
                    match tree {
                        TokenTree::Ident(id) => Ok(
                            NsState::PrefixPath {
                                prefix,
                                colon1: false,
                                colon2: false,
                                path: Some(NsPath::extend(path, id)),
                            },
                        ),
                        tree => Err(MetaError::NsInvalidTransition { state, tree }),
                    }
                } else {
                    Err(MetaError::NsInvalidTransition { state, tree })
                }
            },
        }
    }

    /// Completes `meta` once the tokens ran out in this state.
    pub fn finish(self, meta: NamespaceMeta) -> (r: Result<NamespaceMeta, MetaError>)
        ensures
            match ns_finish(self@, meta@) {
                Ok(m) => r matches Ok(v) && v@ == m,
                Err(e) => r matches Err(err) && err@ == e,
            },
    {
        let state = self.name();
        let mut meta = meta;
        match self {
            NsState::Start | NsState::Comma => Ok(meta),
            NsState::Path { colon1: false, colon2: false, path: Some(path) } => {
                meta.uri = Some(Namespace::Path(path));
                Ok(meta)
            },
            NsState::PrefixPath { prefix, colon1: false, colon2: false, path: Some(path) } => {
                meta.insert_prefix(prefix, Namespace::Path(path));
                Ok(meta)
            },
            _ => Err(MetaError::NsInvalidEndState { state }),
        }
    }
}

impl NamespaceMeta {
    /// Reads the namespaces that `ns(...)` declares from its group of tokens: a default
    /// namespace first, if any, then `prefix = namespace` declarations, separated by commas.
    /// A namespace is a string literal or a path to a constant; a prefix may hold `-` and `.`.
    pub fn from_tokens(group: Group) -> (r: Result<NamespaceMeta, MetaError>)
        ensures
            match ns_parse(trees_view(group.stream@)) {
                Ok(m) => r matches Ok(v) && v@ == m,
                Err(e) => r matches Err(err) && err@ == e,
            },
    {
        let mut new = NamespaceMeta::default();
        let mut state = NsState::Start;
        let mut rest = group.stream;
        let ghost all = trees_view(rest@);
        let ghost mut k: int = 0;
        assert(all.take(0) =~= Seq::<TreeView>::empty());
        while rest.len() > 0
            invariant
                0 <= k <= all.len(),
                k + rest@.len() == all.len(),
                trees_view(rest@) == all.skip(k),
                ns_run(all.take(k)) == Ok::<(NsStateView, NsMetaView), MetaErrorView>(
                    (state@, new@),
                ),
                all == trees_view(group.stream@),
            decreases rest.len(),
        {
            let ghost before = rest@;
            let tree = rest.remove(0);
            assert(tree@ == all[k]) by {
                assert(trees_view(before)[0] == before[0]@);
                assert(all.skip(k)[0] == all[k]);
            }
            assert(all.take(k + 1).drop_last() =~= all.take(k));
            assert(trees_view(rest@) =~= trees_view(before).skip(1)) by {
                assert(rest@ =~= before.skip(1));
            }
            assert(all.skip(k).skip(1) =~= all.skip(k + 1));
            let ghost t0 = tree@;
            let next = state.step(&mut new, tree);
            proof {
                k = k + 1;
                assert(all.take(k).last() == t0);
            }
            state = match next {
                Ok(s) => s,
                Err(e) => {
                    proof {
                        lemma_ns_run_stays_err(all, k);
                    }
                    return Err(e);
                },
            };
        }
        assert(all.take(k) =~= all);
        state.finish(new)
    }
}

// The items of `#[xml(...)]`

/// How a container is mapped.
#[derive(Clone, Copy, Debug, Eq, PartialEq, Structural)]
pub enum Mode {
    /// An enum whose variants each map a type of their own
    Forward,
    /// An enum of unit variants, mapped to text
    Scalar,
    /// A struct whose fields are mapped without an element around them
    Transparent,
}

/// An item of an `#[xml(...)]` attribute.
#[derive(Debug)]
pub enum MetaItem {
    /// `attribute`: the field maps an attribute
    Attribute,
    /// `borrow`: the field borrows from the input
    Borrow,
    /// `direct`: the field maps the element's text
    Direct,
    /// `ns(...)`: the namespaces declared
    Ns(NamespaceMeta),
    /// `rename = "..."`, with the literal as written
    Rename(String),
    /// `forward`, `scalar` or `transparent`
    Mode(Mode),
    /// `rename_all = "..."`, with the literal as written
    RenameAll(String),
    /// `serialize_with = "..."`, with the literal as written
    SerializeWith(String),
    /// `deserialize_with = "..."`, with the literal as written
    DeserializeWith(String),
}

pub enum MetaItemView {
    Attribute,
    Borrow,
    Direct,
    Ns(NsMetaView),
    Rename(Seq<char>),
    Mode(Mode),
    RenameAll(Seq<char>),
    SerializeWith(Seq<char>),
    DeserializeWith(Seq<char>),
}

impl View for MetaItem {
    type V = MetaItemView;

    open spec fn view(&self) -> MetaItemView {
        match self {
            MetaItem::Attribute => MetaItemView::Attribute,
            MetaItem::Borrow => MetaItemView::Borrow,
            MetaItem::Direct => MetaItemView::Direct,
            MetaItem::Ns(m) => MetaItemView::Ns(m@),
            MetaItem::Rename(s) => MetaItemView::Rename(s@),
            MetaItem::Mode(m) => MetaItemView::Mode(*m),
            MetaItem::RenameAll(s) => MetaItemView::RenameAll(s@),
            MetaItem::SerializeWith(s) => MetaItemView::SerializeWith(s@),
            MetaItem::DeserializeWith(s) => MetaItemView::DeserializeWith(s@),
        }
    }
}

/// The values of a sequence of items.
pub open spec fn items_view(s: Seq<MetaItem>) -> Seq<MetaItemView> {
    s.map_values(|i: MetaItem| i@)
}

/// Where the reading of an `#[xml(...)]` attribute stands.
#[derive(Clone, Copy, Debug, Eq, PartialEq, Structural)]
pub enum MetaState {
    Start,
    Comma,
    Ns,
    Rename,
    RenameValue,
    RenameAll,
    RenameAllValue,
    SerializeWith,
    SerializeWithValue,
    DeserializeWith,
    DeserializeWithValue,
}

/// The name of a state, as errors give it.
pub open spec fn meta_state_name(st: MetaState) -> Seq<char> {
    match st {
        MetaState::Start => "Start"@,
        MetaState::Comma => "Comma"@,
        MetaState::Ns => "Ns"@,
        MetaState::Rename => "Rename"@,
        MetaState::RenameValue => "RenameValue"@,
        MetaState::RenameAll => "RenameAll"@,
        MetaState::RenameAllValue => "RenameAllValue"@,
        MetaState::SerializeWith => "SerializeWith"@,
        MetaState::SerializeWithValue => "SerializeWithValue"@,
        MetaState::DeserializeWith => "DeserializeWith"@,
        MetaState::DeserializeWithValue => "DeserializeWithValue"@,
    }
}

impl MetaState {
    /// The state's name, as errors give it.
    pub fn name(&self) -> (r: &'static str)
        ensures
            r@ == meta_state_name(*self),
    {
        match self {
            MetaState::Start => "Start",
            MetaState::Comma => "Comma",
            MetaState::Ns => "Ns",
            MetaState::Rename => "Rename",
            MetaState::RenameValue => "RenameValue",
            MetaState::RenameAll => "RenameAll",
            MetaState::RenameAllValue => "RenameAllValue",
            MetaState::SerializeWith => "SerializeWith",
            MetaState::SerializeWithValue => "SerializeWithValue",
            MetaState::DeserializeWith => "DeserializeWith",
            MetaState::DeserializeWithValue => "DeserializeWithValue",
        }
    }
}

pub open spec fn meta_invalid(st: MetaState, t: TreeView) -> MetaErrorView {
    MetaErrorView::InvalidTransition { state: meta_state_name(st), tree: t }
}

/// What the key `id` at the start of an item does to the items read so far.
pub open spec fn meta_key(id: Seq<char>, items: Seq<MetaItemView>) -> Result<
    (MetaState, Seq<MetaItemView>),
    MetaErrorView,
> {
    if id == "attribute"@ {
        Ok((MetaState::Comma, items.push(MetaItemView::Attribute)))
    } else if id == "borrow"@ {
        Ok((MetaState::Comma, items.push(MetaItemView::Borrow)))
    } else if id == "direct"@ {
        Ok((MetaState::Comma, items.push(MetaItemView::Direct)))
    } else if id == "transparent"@ {
        Ok((MetaState::Comma, items.push(MetaItemView::Mode(Mode::Transparent))))
    } else if id == "ns"@ {
        Ok((MetaState::Ns, items))
    } else if id == "rename"@ {
        Ok((MetaState::Rename, items))
    } else if id == "rename_all"@ {
        Ok((MetaState::RenameAll, items))
    } else if id == "forward"@ {
        Ok((MetaState::Comma, items.push(MetaItemView::Mode(Mode::Forward))))
    } else if id == "scalar"@ {
        Ok((MetaState::Comma, items.push(MetaItemView::Mode(Mode::Scalar))))
    } else if id == "serialize_with"@ {
        Ok((MetaState::SerializeWith, items))
    } else if id == "deserialize_with"@ {
        Ok((MetaState::DeserializeWith, items))
    } else {
        Err(MetaErrorView::UnexpectedKey)
    }
}

/// One step of reading an `#[xml(...)]` attribute: from the state `st`, with the items read so
/// far, on the token `t`.
pub open spec fn meta_step(st: MetaState, items: Seq<MetaItemView>, t: TreeView) -> Result<
    (MetaState, Seq<MetaItemView>),
    MetaErrorView,
> {
    match st {
        MetaState::Start => match t {
            TreeView::Ident(id) => meta_key(id, items),
            _ => Err(meta_invalid(st, t)),
        },
        MetaState::Comma => if is_punct(t, ',') {
            Ok((MetaState::Start, items))
        } else {
            Err(meta_invalid(st, t))
        },
        MetaState::Ns => match t {
            TreeView::Group(d, stream) => if d == Delimiter::Parenthesis {
                match ns_parse(stream) {
                    Ok(m) => Ok((MetaState::Comma, items.push(MetaItemView::Ns(m)))),
                    Err(e) => Err(e),
                }
            } else {
                Err(meta_invalid(st, t))
            },
            _ => Err(meta_invalid(st, t)),
        },
        MetaState::Rename => if is_punct(t, '=') {
            Ok((MetaState::RenameValue, items))
        } else {
            Err(meta_invalid(st, t))
        },
        MetaState::RenameValue => match t {
            TreeView::Literal(lit) => Ok((MetaState::Comma, items.push(MetaItemView::Rename(lit)))),
            _ => Err(meta_invalid(st, t)),
        },
        MetaState::RenameAll => if is_punct(t, '=') {
            Ok((MetaState::RenameAllValue, items))
        } else {
            Err(meta_invalid(st, t))
        },
        MetaState::RenameAllValue => match t {
            TreeView::Literal(lit) => Ok(
                (MetaState::Comma, items.push(MetaItemView::RenameAll(lit))),
            ),
            _ => Err(meta_invalid(st, t)),
        },
        MetaState::SerializeWith => if is_punct(t, '=') {
            Ok((MetaState::SerializeWithValue, items))
        } else {
            Err(meta_invalid(st, t))
        },
        MetaState::SerializeWithValue => match t {
            TreeView::Literal(lit) => Ok(
                (MetaState::Comma, items.push(MetaItemView::SerializeWith(lit))),
            ),
            _ => Err(meta_invalid(st, t)),
        },
        MetaState::DeserializeWith => if is_punct(t, '=') {
            Ok((MetaState::DeserializeWithValue, items))
        } else {
            Err(meta_invalid(st, t))
        },
        MetaState::DeserializeWithValue => match t {
            TreeView::Literal(lit) => Ok(
                (MetaState::Comma, items.push(MetaItemView::DeserializeWith(lit))),
            ),
            _ => Err(meta_invalid(st, t)),
        },
    }
}

/// What reading the tokens `ts` of an `#[xml(...)]` attribute in order leads to.
pub open spec fn meta_run(ts: Seq<TreeView>) -> Result<(MetaState, Seq<MetaItemView>), MetaErrorView>
    decreases ts.len(),
{
    if ts.len() == 0 {
        Ok((MetaState::Start, Seq::empty()))
    } else {
        match meta_run(ts.drop_last()) {
            Ok((st, items)) => meta_step(st, items, ts.last()),
            Err(e) => Err(e),
        }
    }
}

/// Once reading the first `j` tokens failed, reading them all fails the same way.
proof fn lemma_meta_run_stays_err(ts: Seq<TreeView>, j: int)
    requires
        0 <= j <= ts.len(),
        meta_run(ts.take(j)) is Err,
    ensures
        meta_run(ts) == meta_run(ts.take(j)),
    decreases ts.len() - j,
{
    if j < ts.len() {
        assert(ts.take(j + 1).drop_last() =~= ts.take(j));
        lemma_meta_run_stays_err(ts, j + 1);
    } else {
        assert(ts.take(j) =~= ts);
    }
}

/// An outer attribute of an item, as far as the derive macros read it.
#[derive(Debug)]
pub struct OuterAttribute {
    /// The attribute's path, when it is a single identifier (`xml` in `#[xml(...)]`)
    pub ident: Option<String>,
    /// The tokens inside the attribute's delimiters, when its arguments form a list
    pub list: Option<Vec<TokenTree>>,
}

pub struct OuterAttributeView {
    pub ident: Option<Seq<char>>,
    pub list: Option<Seq<TreeView>>,
}

impl View for OuterAttribute {
    type V = OuterAttributeView;

    open spec fn view(&self) -> OuterAttributeView {
        OuterAttributeView {
            ident: match &self.ident {
                Some(s) => Some(s@),
                None => None,
            },
            list: match &self.list {
                Some(l) => Some(trees_view(l@)),
                None => None,
            },
        }
    }
}

/// The first attribute named `xml`, if any.
pub open spec fn find_xml(attrs: Seq<OuterAttributeView>) -> Option<OuterAttributeView>
    decreases attrs.len(),
{
    if attrs.len() == 0 {
        None
    } else if attrs[0].ident == Some("xml"@) {
        Some(attrs[0])
    } else {
        find_xml(attrs.drop_first())
    }
}

/// The items of the first `#[xml(...)]` attribute among `attrs`, or the error in them.
pub open spec fn meta_items_spec(attrs: Seq<OuterAttributeView>) -> Result<
    Seq<MetaItemView>,
    MetaErrorView,
> {
    match find_xml(attrs) {
        None => Ok(Seq::empty()),
        Some(a) => match a.list {
            None => Err(MetaErrorView::ExpectedList),
            Some(ts) => match meta_run(ts) {
                Ok((_, items)) => Ok(items),
                Err(e) => Err(e),
            },
        },
    }
}

fn read_key(id: String, items: &mut Vec<MetaItem>) -> (r: Result<MetaState, MetaError>)
    ensures
        match meta_key(id@, items_view(old(items)@)) {
            Ok((st, v)) => r == Ok::<MetaState, MetaError>(st) && items_view(final(items)@)
                == v,
            Err(e) => r matches Err(err) && err@ == e,
        },
{
    let ghost before = items_view(items@);
    let s = id.as_str();
    let (state, item) = if str_eq(s, "attribute") {
        (MetaState::Comma, Some(MetaItem::Attribute))
    } else if str_eq(s, "borrow") {
        (MetaState::Comma, Some(MetaItem::Borrow))
    } else if str_eq(s, "direct") {
        (MetaState::Comma, Some(MetaItem::Direct))
    } else if str_eq(s, "transparent") {
        (MetaState::Comma, Some(MetaItem::Mode(Mode::Transparent)))
    } else if str_eq(s, "ns") {
        (MetaState::Ns, None)
    } else if str_eq(s, "rename") {
        (MetaState::Rename, None)
    } else if str_eq(s, "rename_all") {
        (MetaState::RenameAll, None)
    } else if str_eq(s, "forward") {
        (MetaState::Comma, Some(MetaItem::Mode(Mode::Forward)))
    } else if str_eq(s, "scalar") {
        (MetaState::Comma, Some(MetaItem::Mode(Mode::Scalar)))
    } else if str_eq(s, "serialize_with") {
        (MetaState::SerializeWith, None)
    } else if str_eq(s, "deserialize_with") {
        (MetaState::DeserializeWith, None)
    } else {
        return Err(MetaError::UnexpectedKey);
    };
    match item {
        Some(item) => {
            let ghost v = item@;
            items.push(item);
            assert(items_view(items@) =~= before.push(v));
        },
        None => {},
    }
    Ok(state)
}

fn push_item(items: &mut Vec<MetaItem>, item: MetaItem)
    ensures
        items_view(final(items)@) == items_view(old(items)@).push(item@),
{
    let ghost before = items_view(items@);
    let ghost v = item@;
    items.push(item);
    assert(items_view(items@) =~= before.push(v));
}

impl MetaState {
    /// Reads the token `tree` of an `#[xml(...)]` attribute, adding to `items` what it
    /// completes.
    pub fn step(self, items: &mut Vec<MetaItem>, tree: TokenTree) -> (r: Result<MetaState, MetaError>)
        ensures
            match meta_step(self, items_view(old(items)@), tree@) {
                Ok((st, v)) => r == Ok::<MetaState, MetaError>(st) && items_view(final(items)@)
                    == v,
                Err(e) => r matches Err(err) && err@ == e,
            },
    {
        let state = self.name();
        match self {
            MetaState::Start => match tree {
                TokenTree::Ident(id) => read_key(id, items),
                tree => Err(MetaError::InvalidTransition { state, tree }),
            },
            MetaState::Comma => match tree {
                TokenTree::Punct(c) if c == ',' => Ok(MetaState::Start),
                tree => Err(MetaError::InvalidTransition { state, tree }),
            },
            MetaState::Ns => match tree {
                TokenTree::Group(delimiter, stream) if delimiter == Delimiter::Parenthesis => {
                    let ghost t = tree_view(TokenTree::Group(delimiter, stream));
                    assert(t matches TreeView::Group(_, s) && s =~= trees_view(stream@));
                    match NamespaceMeta::from_tokens(Group { delimiter, stream }) {
                        Ok(ns) => {
                            push_item(items, MetaItem::Ns(ns));
                            Ok(MetaState::Comma)
                        },
                        Err(e) => Err(e),
                    }
                },
                tree => Err(MetaError::InvalidTransition { state, tree }),
            },
            MetaState::Rename => match tree {
                TokenTree::Punct(c) if c == '=' => Ok(MetaState::RenameValue),
                tree => Err(MetaError::InvalidTransition { state, tree }),
            },
            MetaState::RenameValue => match tree {
                TokenTree::Literal(lit) => {
                    push_item(items, MetaItem::Rename(lit));
                    Ok(MetaState::Comma)
                },
                tree => Err(MetaError::InvalidTransition { state, tree }),
            },
            MetaState::RenameAll => match tree {
                TokenTree::Punct(c) if c == '=' => Ok(MetaState::RenameAllValue),
                tree => Err(MetaError::InvalidTransition { state, tree }),
            },
            MetaState::RenameAllValue => match tree {
                TokenTree::Literal(lit) => {
                    push_item(items, MetaItem::RenameAll(lit));
                    Ok(MetaState::Comma)
                },
                tree => Err(MetaError::InvalidTransition { state, tree }),
            },
            MetaState::SerializeWith => match tree {
                TokenTree::Punct(c) if c == '=' => Ok(MetaState::SerializeWithValue),
                tree => Err(MetaError::InvalidTransition { state, tree }),
            },
            MetaState::SerializeWithValue => match tree {
                TokenTree::Literal(lit) => {
                    push_item(items, MetaItem::SerializeWith(lit));
                    Ok(MetaState::Comma)
                },
                tree => Err(MetaError::InvalidTransition { state, tree }),
            },
            MetaState::DeserializeWith => match tree {
                TokenTree::Punct(c) if c == '=' => Ok(MetaState::DeserializeWithValue),
                tree => Err(MetaError::InvalidTransition { state, tree }),
            },
            MetaState::DeserializeWithValue => match tree {
                TokenTree::Literal(lit) => {
                    push_item(items, MetaItem::DeserializeWith(lit));
                    Ok(MetaState::Comma)
                },
                tree => Err(MetaError::InvalidTransition { state, tree }),
            },
        }
    }
}

/// Reads the items of the first `#[xml(...)]` attribute among `attrs`: keys alone
/// (`attribute`, `borrow`, `direct`, `transparent`, `forward`, `scalar`), `ns(...)`, or a key,
/// `=` and a literal (`rename`, `rename_all`, `serialize_with`, `deserialize_with`), separated
/// by commas. Without such an attribute there are no items.
pub fn meta_items(attrs: &[OuterAttribute]) -> (r: Result<Vec<MetaItem>, MetaError>)
    ensures
        match meta_items_spec(attrs@.map_values(|a: OuterAttribute| a@)) {
            Ok(items) => r matches Ok(v) && items_view(v@) == items,
            Err(e) => r matches Err(err) && err@ == e,
        },
{
    let ghost views = attrs@.map_values(|a: OuterAttribute| a@);
    let mut i: usize = 0;
    let mut found: Option<&OuterAttribute> = None;
    assert(views.skip(0) =~= views);
    while i < attrs.len() && found.is_none()
        invariant
            i <= attrs.len(),
            views == attrs@.map_values(|a: OuterAttribute| a@),
            found is None ==> find_xml(views) == find_xml(views.skip(i as int)),
            found matches Some(a) ==> find_xml(views) == Some(a@),
        decreases attrs.len() - i,
    {
        let is_xml = match &attrs[i].ident {
            Some(id) => str_eq(id.as_str(), "xml"),
            None => false,
        };
        assert(views[i as int] == attrs@[i as int]@);
        assert(views.skip(i as int)[0] == views[i as int]);
        assert(views.skip(i as int).drop_first() =~= views.skip(i + 1));
        if is_xml {
            found = Some(&attrs[i]);
        }
        i += 1;
    }
    let attr = match found {
        Some(attr) => attr,
        None => {
            assert(views.skip(i as int) =~= Seq::<OuterAttributeView>::empty());
            return Ok(Vec::new());
        },
    };
    let list = match &attr.list {
        Some(list) => list,
        None => return Err(MetaError::ExpectedList),
    };
    let mut rest = clone_trees(list);
    let ghost all = trees_view(rest@);
    let ghost mut k: int = 0;
    let mut items: Vec<MetaItem> = Vec::new();
    let mut state = MetaState::Start;
    let ghost outcome = meta_items_spec(views);
    assert(outcome == match meta_run(all) {
        Ok((_, it)) => Ok::<Seq<MetaItemView>, MetaErrorView>(it),
        Err(e) => Err(e),
    });
    assert(all.take(0) =~= Seq::<TreeView>::empty());
    assert(items_view(items@) =~= Seq::<MetaItemView>::empty());
    while rest.len() > 0
        invariant
            0 <= k <= all.len(),
            k + rest@.len() == all.len(),
            trees_view(rest@) == all.skip(k),
            meta_run(all.take(k)) == Ok::<(MetaState, Seq<MetaItemView>), MetaErrorView>(
                (state, items_view(items@)),
            ),
            views == attrs@.map_values(|a: OuterAttribute| a@),
            outcome == meta_items_spec(views),
            outcome == match meta_run(all) {
                Ok((_, it)) => Ok::<Seq<MetaItemView>, MetaErrorView>(it),
                Err(e) => Err(e),
            },
        decreases rest.len(),
    {
        let ghost before = rest@;
        let tree = rest.remove(0);
        assert(tree@ == all[k]) by {
            assert(trees_view(before)[0] == before[0]@);
            assert(all.skip(k)[0] == all[k]);
        }
        assert(all.take(k + 1).drop_last() =~= all.take(k));
        assert(trees_view(rest@) =~= trees_view(before).skip(1)) by {
            assert(rest@ =~= before.skip(1));
        }
        assert(all.skip(k).skip(1) =~= all.skip(k + 1));
        let ghost t0 = tree@;
        let next = state.step(&mut items, tree);
        proof {
            k = k + 1;
            assert(all.take(k).last() == t0);
        }
        state = match next {
            Ok(s) => s,
            Err(e) => {
                proof {
                    lemma_meta_run_stays_err(all, k);
                }
                return Err(e);
            },
        };
    }
    assert(all.take(k) =~= all);
    Ok(items)
}


// What the items configure

/// The configuration of a derived type, from the `#[xml(...)]` attribute on it.
#[derive(Debug)]
pub struct ContainerMeta {
    /// The namespaces declared
    pub ns: NamespaceMeta,
    /// The element name, when renamed: the literal as written
    pub rename: Option<String>,
    /// The rule that renames fields and variants: the literal as written
    pub rename_all: Option<String>,
    /// How the type is mapped, when not as an element of its fields
    pub mode: Option<Mode>,
}

pub struct ContainerMetaView {
    pub ns: NsMetaView,
    pub rename: Option<Seq<char>>,
    pub rename_all: Option<Seq<char>>,
    pub mode: Option<Mode>,
}

pub open spec fn opt_text(s: Option<String>) -> Option<Seq<char>> {
    match s {
        Some(s) => Some(s@),
        None => None,
    }
}

impl View for ContainerMeta {
    type V = ContainerMetaView;

    open spec fn view(&self) -> ContainerMetaView {
        ContainerMetaView {
            ns: self.ns@,
            rename: opt_text(self.rename),
            rename_all: opt_text(self.rename_all),
            mode: self.mode,
        }
    }
}

pub open spec fn invalid(message: &'static str) -> MetaErrorView {
    MetaErrorView::Invalid { message: message@ }
}

pub open spec fn empty_ns() -> NsMetaView {
    NsMetaView { uri: None, prefixes: Map::empty() }
}

/// Whether the string literal `lit` names a renaming rule.
pub open spec fn is_rename_rule(lit: Seq<char>) -> bool {
    ||| lit == "\"lowercase\""@
    ||| lit == "\"UPPERCASE\""@
    ||| lit == "\"PascalCase\""@
    ||| lit == "\"camelCase\""@
    ||| lit == "\"snake_case\""@
    ||| lit == "\"SCREAMING_SNAKE_CASE\""@
    ||| lit == "\"kebab-case\""@
    ||| lit == "\"SCREAMING-KEBAB-CASE\""@
}

/// Whether the string literal `lit` names a renaming rule.
pub fn rename_rule_known(lit: &str) -> (r: bool)
    ensures
        r == is_rename_rule(lit@),
{
    str_eq(lit, "\"lowercase\"") || str_eq(lit, "\"UPPERCASE\"") || str_eq(lit, "\"PascalCase\"")
        || str_eq(lit, "\"camelCase\"") || str_eq(lit, "\"snake_case\"") || str_eq(
        lit,
        "\"SCREAMING_SNAKE_CASE\"",
    ) || str_eq(lit, "\"kebab-case\"") || str_eq(lit, "\"SCREAMING-KEBAB-CASE\"")
}

/// What the item `item` does to the configuration `c` of a derived type.
pub open spec fn container_step(c: ContainerMetaView, item: MetaItemView) -> Result<
    ContainerMetaView,
    MetaErrorView,
> {
    match item {
        MetaItemView::Ns(ns) => Ok(ContainerMetaView { ns, ..c }),
        MetaItemView::Rename(lit) => Ok(ContainerMetaView { rename: Some(lit), ..c }),
        MetaItemView::RenameAll(lit) => if is_rename_rule(lit) {
            Ok(ContainerMetaView { rename_all: Some(lit), ..c })
        } else {
            Err(MetaErrorView::UnknownRenameRule { literal: lit })
        },
        MetaItemView::Mode(m) => if c.mode is None {
            Ok(ContainerMetaView { mode: Some(m), ..c })
        } else {
            Err(invalid("cannot have two modes"))
        },
        _ => Err(invalid("invalid field in container xml attribute")),
    }
}

/// The configuration that the items `items` give a derived type, in order.
pub open spec fn container_run(items: Seq<MetaItemView>) -> Result<ContainerMetaView, MetaErrorView>
    decreases items.len(),
{
    if items.len() == 0 {
        Ok(ContainerMetaView { ns: empty_ns(), rename: None, rename_all: None, mode: None })
    } else {
        match container_run(items.drop_last()) {
            Ok(c) => container_step(c, items.last()),
            Err(e) => Err(e),
        }
    }
}

proof fn lemma_container_run_stays_err(items: Seq<MetaItemView>, j: int)
    requires
        0 <= j <= items.len(),
        container_run(items.take(j)) is Err,
    ensures
        container_run(items) == container_run(items.take(j)),
    decreases items.len() - j,
{
    if j < items.len() {
        assert(items.take(j + 1).drop_last() =~= items.take(j));
        lemma_container_run_stays_err(items, j + 1);
    } else {
        assert(items.take(j) =~= items);
    }
}

/// The configuration of a derived type from its attributes, or the error in them.
pub open spec fn container_spec(attrs: Seq<OuterAttributeView>) -> Result<
    ContainerMetaView,
    MetaErrorView,
> {
    match meta_items_spec(attrs) {
        Ok(items) => container_run(items),
        Err(e) => Err(e),
    }
}

impl ContainerMeta {
    /// The element name of a derived type named `ident`, as a string literal: its `rename`,
    /// else its name.
    pub fn tag(&self, ident: &str) -> (r: String)
        ensures
            r@ == match self@.rename {
                Some(lit) => lit,
                None => quoted(ident@),
            },
    {
        match &self.rename {
            Some(lit) => lit.clone(),
            None => {
                let mut lit = String::new();
                push_char(&mut lit, '"');
                lit.append(ident);
                push_char(&mut lit, '"');
                assert(lit@ =~= quoted(ident@));
                lit
            },
        }
    }

    /// Reads the configuration of a derived type from its attributes: the namespaces, the
    /// element name and the renaming rule, each as the last item that gives it, and at most one
    /// mode. Other items do not apply to a type.
    pub fn from_derive(attrs: &[OuterAttribute]) -> (r: Result<ContainerMeta, MetaError>)
        ensures
            match container_spec(attrs@.map_values(|a: OuterAttribute| a@)) {
                Ok(c) => r matches Ok(v) && v@ == c,
                Err(e) => r matches Err(err) && err@ == e,
            },
    {
        let mut rest = match meta_items(attrs) {
            Ok(items) => items,
            Err(e) => return Err(e),
        };
        let ghost all = items_view(rest@);
        let ghost mut k: int = 0;
        let mut meta = ContainerMeta {
            ns: NamespaceMeta::default(),
            rename: None,
            rename_all: None,
            mode: None,
        };
        assert(all.take(0) =~= Seq::<MetaItemView>::empty());
        while rest.len() > 0
            invariant
                0 <= k <= all.len(),
                k + rest@.len() == all.len(),
                items_view(rest@) == all.skip(k),
                container_run(all.take(k)) == Ok::<ContainerMetaView, MetaErrorView>(meta@),
                container_spec(attrs@.map_values(|a: OuterAttribute| a@)) == container_run(all),
            decreases rest.len(),
        {
            let ghost before = rest@;
            let item = rest.remove(0);
            assert(item@ == all[k]) by {
                assert(items_view(before)[0] == before[0]@);
                assert(all.skip(k)[0] == all[k]);
            }
            assert(all.take(k + 1).drop_last() =~= all.take(k));
            assert(items_view(rest@) =~= items_view(before).skip(1)) by {
                assert(rest@ =~= before.skip(1));
            }
            assert(all.skip(k).skip(1) =~= all.skip(k + 1));
            proof {
                k = k + 1;
                assert(all.take(k).last() == item@);
            }
            match item {
                MetaItem::Ns(ns) => meta.ns = ns,
                MetaItem::Rename(lit) => meta.rename = Some(lit),
                MetaItem::RenameAll(lit) => {
                    if !rename_rule_known(lit.as_str()) {
                        proof {
                            lemma_container_run_stays_err(all, k);
                        }
                        return Err(MetaError::UnknownRenameRule { literal: lit });
                    }
                    meta.rename_all = Some(lit);
                },
                MetaItem::Mode(m) => {
                    if meta.mode.is_some() {
                        proof {
                            lemma_container_run_stays_err(all, k);
                        }
                        return Err(MetaError::Invalid { message: "cannot have two modes" });
                    }
                    meta.mode = Some(m);
                },
                _ => {
                    proof {
                        lemma_container_run_stays_err(all, k);
                    }
                    return Err(MetaError::Invalid { message: "invalid field in container xml attribute" });
                },
            }
        }
        assert(all.take(k) =~= all);
        Ok(meta)
    }
}

/// The configuration of a field of a derived struct, from the `#[xml(...)]` attribute on it.
#[derive(Debug)]
pub struct FieldMeta {
    /// The field maps an attribute
    pub attribute: bool,
    /// The field borrows from the input
    pub borrow: bool,
    /// The field maps the element's text
    pub direct: bool,
    /// The namespaces declared
    pub ns: NamespaceMeta,
    /// The field's element or attribute name: a string literal
    pub tag: String,
    /// The function that writes the field, when given: the literal as written
    pub serialize_with: Option<String>,
    /// The function that reads the field, when given: the literal as written
    pub deserialize_with: Option<String>,
}

pub struct FieldMetaView {
    pub attribute: bool,
    pub borrow: bool,
    pub direct: bool,
    pub ns: NsMetaView,
    pub tag: Seq<char>,
    pub serialize_with: Option<Seq<char>>,
    pub deserialize_with: Option<Seq<char>>,
}

impl View for FieldMeta {
    type V = FieldMetaView;

    open spec fn view(&self) -> FieldMetaView {
        FieldMetaView {
            attribute: self.attribute,
            borrow: self.borrow,
            direct: self.direct,
            ns: self.ns@,
            tag: self.tag@,
            serialize_with: opt_text(self.serialize_with),
            deserialize_with: opt_text(self.deserialize_with),
        }
    }
}

/// What the item `item` does to the configuration `f` of a field.
pub open spec fn field_step(f: FieldMetaView, item: MetaItemView) -> Result<FieldMetaView, MetaErrorView> {
    match item {
        MetaItemView::Attribute => Ok(FieldMetaView { attribute: true, ..f }),
        MetaItemView::Borrow => Ok(FieldMetaView { borrow: true, ..f }),
        MetaItemView::Direct => Ok(FieldMetaView { direct: true, ..f }),
        MetaItemView::Ns(ns) => Ok(FieldMetaView { ns, ..f }),
        MetaItemView::Rename(lit) => Ok(FieldMetaView { tag: lit, ..f }),
        MetaItemView::SerializeWith(lit) => Ok(FieldMetaView { serialize_with: Some(lit), ..f }),
        MetaItemView::DeserializeWith(lit) => Ok(
            FieldMetaView { deserialize_with: Some(lit), ..f },
        ),
        MetaItemView::RenameAll(_) => Err(
            invalid("attribute 'rename_all' invalid in field xml attribute"),
        ),
        MetaItemView::Mode(_) => Err(invalid("invalid attribute for struct field")),
    }
}

/// The configuration that the items `items` give a field whose default tag is `tag`.
pub open spec fn field_run(items: Seq<MetaItemView>, tag: Seq<char>) -> Result<FieldMetaView, MetaErrorView>
    decreases items.len(),
{
    if items.len() == 0 {
        Ok(
            FieldMetaView {
                attribute: false,
                borrow: false,
                direct: false,
                ns: empty_ns(),
                tag,
                serialize_with: None,
                deserialize_with: None,
            },
        )
    } else {
        match field_run(items.drop_last(), tag) {
            Ok(f) => field_step(f, items.last()),
            Err(e) => Err(e),
        }
    }
}

proof fn lemma_field_run_stays_err(items: Seq<MetaItemView>, tag: Seq<char>, j: int)
    requires
        0 <= j <= items.len(),
        field_run(items.take(j), tag) is Err,
    ensures
        field_run(items, tag) == field_run(items.take(j), tag),
    decreases items.len() - j,
{
    if j < items.len() {
        assert(items.take(j + 1).drop_last() =~= items.take(j));
        lemma_field_run_stays_err(items, tag, j + 1);
    } else {
        assert(items.take(j) =~= items);
    }
}

/// The configuration of a field from its attributes and its default tag, or the error in them.
pub open spec fn field_spec(attrs: Seq<OuterAttributeView>, tag: Seq<char>) -> Result<
    FieldMetaView,
    MetaErrorView,
> {
    match meta_items_spec(attrs) {
        Ok(items) => field_run(items, tag),
        Err(e) => Err(e),
    }
}

impl FieldMeta {
    /// Reads the configuration of a field from its attributes. `tag` is the field's name as the
    /// container's renaming rule gives it, a string literal, which `rename` replaces. Renaming
    /// rules and modes do not apply to a field.
    pub fn from_field(attrs: &[OuterAttribute], tag: String) -> (r: Result<FieldMeta, MetaError>)
        ensures
            match field_spec(attrs@.map_values(|a: OuterAttribute| a@), tag@) {
                Ok(f) => r matches Ok(v) && v@ == f,
                Err(e) => r matches Err(err) && err@ == e,
            },
    {
        let mut rest = match meta_items(attrs) {
            Ok(items) => items,
            Err(e) => return Err(e),
        };
        let ghost all = items_view(rest@);
        let ghost tag0 = tag@;
        let ghost mut k: int = 0;
        let mut meta = FieldMeta {
            attribute: false,
            borrow: false,
            direct: false,
            ns: NamespaceMeta::default(),
            tag,
            serialize_with: None,
            deserialize_with: None,
        };
        assert(all.take(0) =~= Seq::<MetaItemView>::empty());
        while rest.len() > 0
            invariant
                0 <= k <= all.len(),
                k + rest@.len() == all.len(),
                items_view(rest@) == all.skip(k),
                field_run(all.take(k), tag0) == Ok::<FieldMetaView, MetaErrorView>(meta@),
                field_spec(attrs@.map_values(|a: OuterAttribute| a@), tag0) == field_run(all, tag0),
                tag0 == tag@,
            decreases rest.len(),
        {
            let ghost before = rest@;
            let item = rest.remove(0);
            assert(item@ == all[k]) by {
                assert(items_view(before)[0] == before[0]@);
                assert(all.skip(k)[0] == all[k]);
            }
            assert(all.take(k + 1).drop_last() =~= all.take(k));
            assert(items_view(rest@) =~= items_view(before).skip(1)) by {
                assert(rest@ =~= before.skip(1));
            }
            assert(all.skip(k).skip(1) =~= all.skip(k + 1));
            proof {
                k = k + 1;
                assert(all.take(k).last() == item@);
            }
            match item {
                MetaItem::Attribute => meta.attribute = true,
                MetaItem::Borrow => meta.borrow = true,
                MetaItem::Direct => meta.direct = true,
                MetaItem::Ns(ns) => meta.ns = ns,
                MetaItem::Rename(lit) => meta.tag = lit,
                MetaItem::SerializeWith(lit) => meta.serialize_with = Some(lit),
                MetaItem::DeserializeWith(lit) => meta.deserialize_with = Some(lit),
                MetaItem::RenameAll(_) => {
                    proof {
                        lemma_field_run_stays_err(all, tag0, k);
                    }
                    return Err(
                        MetaError::Invalid {
                            message: "attribute 'rename_all' invalid in field xml attribute",
                        },
                    );
                },
                MetaItem::Mode(_) => {
                    proof {
                        lemma_field_run_stays_err(all, tag0, k);
                    }
                    return Err(MetaError::Invalid { message: "invalid attribute for struct field" });
                },
            }
        }
        assert(all.take(k) =~= all);
        Ok(meta)
    }
}

/// The discriminant of an enum variant, as far as it matters for mapping it.
#[derive(Debug)]
pub enum Discriminant {
    /// A string literal, as written
    Str(String),
    /// An integer literal: its digits in base 10
    Int(String),
    /// Any other expression
    Other,
}

pub enum DiscriminantView {
    Str(Seq<char>),
    Int(Seq<char>),
    Other,
}

impl View for Discriminant {
    type V = DiscriminantView;

    open spec fn view(&self) -> DiscriminantView {
        match self {
            Discriminant::Str(s) => DiscriminantView::Str(s@),
            Discriminant::Int(s) => DiscriminantView::Int(s@),
            Discriminant::Other => DiscriminantView::Other,
        }
    }
}

/// A variant of a derived enum, as far as it matters for mapping it.
#[derive(Debug)]
pub struct Variant {
    /// Whether the variant has fields
    pub has_fields: bool,
    /// The variant's attributes
    pub attrs: Vec<OuterAttribute>,
    /// The variant's discriminant, if it has one
    pub discriminant: Option<Discriminant>,
}

/// The configuration of a variant of a derived enum.
#[derive(Debug)]
pub struct VariantMeta {
    /// The text that stands for the variant: a string literal
    pub serialize_as: String,
}

/// The string literal that holds the text `s`.
pub open spec fn quoted(s: Seq<char>) -> Seq<char> {
    seq!['"'] + s + seq!['"']
}

/// The literal that stands for a variant: its `rename`, or else its discriminant, or else
/// `default`; or the error in its attributes and discriminant.
pub open spec fn variant_spec(
    has_fields: bool,
    attrs: Seq<OuterAttributeView>,
    discriminant: Option<DiscriminantView>,
    default: Seq<char>,
) -> Result<Seq<char>, MetaErrorView> {
    if has_fields {
        Err(invalid("only unit enum variants are permitted!"))
    } else {
        match meta_items_spec(attrs) {
            Err(e) => Err(e),
            Ok(items) => if exists|i: int| 0 <= i < items.len() && !(items[i] is Rename) {
                Err(invalid("only 'rename' attribute is permitted on enum variants"))
            } else if discriminant == Some(DiscriminantView::Other) {
                Err(invalid("invalid field discriminant value!"))
            } else if discriminant is Some && items.len() > 0 {
                Err(invalid("conflicting `rename` attribute and variant discriminant!"))
            } else if items.len() > 0 {
                Ok(items.last()->Rename_0)
            } else {
                match discriminant {
                    Some(DiscriminantView::Str(lit)) => Ok(lit),
                    Some(DiscriminantView::Int(digits)) => Ok(quoted(digits)),
                    _ => Ok(default),
                }
            },
        }
    }
}

impl VariantMeta {
    /// Reads the configuration of a unit variant: the literal that stands for it is its
    /// `rename`, or else its discriminant (a string, or the digits of an integer), or else
    /// `default`, its name as the container's renaming rule gives it, a string literal. Only
    /// `rename` applies to a variant, and not together with a discriminant.
    pub fn from_variant(variant: &Variant, default: String) -> (r: Result<VariantMeta, MetaError>)
        ensures
            match variant_spec(
                variant.has_fields,
                variant.attrs@.map_values(|a: OuterAttribute| a@),
                match variant.discriminant {
                    Some(d) => Some(d@),
                    None => None,
                },
                default@,
            ) {
                Ok(s) => r matches Ok(v) && v.serialize_as@ == s,
                Err(e) => r matches Err(err) && err@ == e,
            },
    {
        if variant.has_fields {
            return Err(MetaError::Invalid { message: "only unit enum variants are permitted!" });
        }
        let items = match meta_items(variant.attrs.as_slice()) {
            Ok(items) => items,
            Err(e) => return Err(e),
        };
        let ghost all = items_view(items@);
        let count = items.len();
        assert(all.len() == count);
        let mut rename: Option<String> = None;
        let mut i: usize = 0;
        let mut rest = items;
        while rest.len() > 0
            invariant
                i + rest@.len() == all.len(),
                items_view(rest@) == all.skip(i as int),
                forall|j: int| 0 <= j < i ==> all[j] is Rename,
                i == 0 ==> rename is None,
                i > 0 ==> (rename matches Some(l) && all[i - 1] == MetaItemView::Rename(l@)),
                all.len() <= usize::MAX,
                !variant.has_fields,
                meta_items_spec(variant.attrs@.map_values(|a: OuterAttribute| a@)) == Ok::<
                    Seq<MetaItemView>,
                    MetaErrorView,
                >(all),
            decreases rest.len(),
        {
            let ghost before = rest@;
            let item = rest.remove(0);
            assert(item@ == all[i as int]) by {
                assert(items_view(before)[0] == before[0]@);
                assert(all.skip(i as int)[0] == all[i as int]);
            }
            assert(items_view(rest@) =~= items_view(before).skip(1)) by {
                assert(rest@ =~= before.skip(1));
            }
            assert(all.skip(i as int).skip(1) =~= all.skip(i + 1));
            match item {
                MetaItem::Rename(lit) => rename = Some(lit),
                _ => {
                    return Err(
                        MetaError::Invalid {
                            message: "only 'rename' attribute is permitted on enum variants",
                        },
                    );
                },
            }
            i += 1;
        }
        let discriminant = match &variant.discriminant {
            Some(Discriminant::Str(lit)) => Some(lit.clone()),
            Some(Discriminant::Int(digits)) => {
                let mut lit = String::new();
                push_char(&mut lit, '"');
                lit.append(digits.as_str());
                push_char(&mut lit, '"');
                assert(lit@ =~= quoted(digits@));
                Some(lit)
            },
            Some(Discriminant::Other) => {
                return Err(MetaError::Invalid { message: "invalid field discriminant value!" });
            },
            None => None,
        };
        if discriminant.is_some() && rename.is_some() {
            return Err(
                MetaError::Invalid {
                    message: "conflicting `rename` attribute and variant discriminant!",
                },
            );
        }
        let serialize_as = match rename {
            Some(lit) => lit,
            None => match discriminant {
                Some(lit) => lit,
                None => default,
            },
        };
        Ok(VariantMeta { serialize_as })
    }
}

} // verus!
