//! The tokens of an XML document, as the `xmlparser` tokenizer reads them.

use vstd::prelude::*;
use xmlparser::{ElementEnd as End, Token as Tok};

verus! {

/// Holds an `xmlparser::Tokenizer`, the pull tokenizer of an XML document.
#[verifier::external_body]
pub struct TokenStream<'a> {
    tokenizer: xmlparser::Tokenizer<'a>,
}

/// A token of an XML document, with the parts of it that deserialization reads.
///
/// `Declaration` and `Other` carry the tokenizer's debug rendering of the token, `Error` its
/// description of a malformed document.
#[derive(Debug)]
pub enum XmlToken<'a> {
    /// `<prefix:local`: the prefix, then the local name
    ElementStart(&'a str, &'a str),
    /// `prefix:local="value"`: the prefix, the local name, then the raw value
    Attribute(&'a str, &'a str, &'a str),
    /// `>`
    ElementOpen,
    /// `</prefix:local>`: the prefix, then the local name
    ElementClose(&'a str, &'a str),
    /// `/>`
    ElementEmpty,
    /// Character data
    Text(&'a str),
    /// `<![CDATA[...]]>`
    Cdata(&'a str),
    /// `<?xml ...?>`
    Declaration(String),
    /// `<!-- ... -->`
    Comment,
    /// Processing instructions and document type declarations
    Other(String),
    /// A malformed document
    Error(String),
}

/// The value of an [`XmlToken`].
pub enum TokenView {
    ElementStart(Seq<char>, Seq<char>),
    Attribute(Seq<char>, Seq<char>, Seq<char>),
    ElementOpen,
    ElementClose(Seq<char>, Seq<char>),
    ElementEmpty,
    Text(Seq<char>),
    Cdata(Seq<char>),
    Declaration(Seq<char>),
    Comment,
    Other(Seq<char>),
    Error(Seq<char>),
}

impl<'a> View for XmlToken<'a> {
    type V = TokenView;

    open spec fn view(&self) -> TokenView {
        match self {
            XmlToken::ElementStart(prefix, local) => TokenView::ElementStart(prefix@, local@),
            XmlToken::Attribute(prefix, local, value) => TokenView::Attribute(
                prefix@,
                local@,
                value@,
            ),
            XmlToken::ElementOpen => TokenView::ElementOpen,
            XmlToken::ElementClose(prefix, local) => TokenView::ElementClose(prefix@, local@),
            XmlToken::ElementEmpty => TokenView::ElementEmpty,
            XmlToken::Text(t) => TokenView::Text(t@),
            XmlToken::Cdata(t) => TokenView::Cdata(t@),
            XmlToken::Declaration(t) => TokenView::Declaration(t@),
            XmlToken::Comment => TokenView::Comment,
            XmlToken::Other(t) => TokenView::Other(t@),
            XmlToken::Error(t) => TokenView::Error(t@),
        }
    }
}

/// Tokens that belong to start and end tags.
pub open spec fn is_markup(t: TokenView) -> bool {
    match t {
        TokenView::ElementStart(..) | TokenView::Attribute(..) | TokenView::ElementOpen
        | TokenView::ElementClose(..) | TokenView::ElementEmpty => true,
        _ => false,
    }
}

/// `xmlparser::Token`, a token of an XML document.
#[verifier::external_type_specification]
#[verifier::external_body]
pub struct ExToken<'a>(xmlparser::Token<'a>);

pub open spec fn token_views<'a>(s: Seq<XmlToken<'a>>) -> Seq<TokenView> {
    s.map_values(|t: XmlToken<'a>| t@)
}

/// The tokens of the document `input`, in order; a malformed document ends with an `Error`.
pub uninterp spec fn xml_tokens(input: Seq<char>) -> Seq<TokenView>;

/// The tokens that a tokenizer has yet to yield.
pub uninterp spec fn pending_tokens(t: TokenStream) -> Seq<TokenView>;

/// The parts of an `xmlparser::Token` that deserialization reads.
pub uninterp spec fn token_parts(t: xmlparser::Token) -> TokenView;

/// `Tokenizer::from`: a tokenizer that yields the tokens of `input`.
#[verifier::external_body]
fn tokenizer_from<'a>(input: &'a str) -> (t: TokenStream<'a>)
    ensures
        pending_tokens(t) == xml_tokens(input@),
{
    TokenStream { tokenizer: xmlparser::Tokenizer::from(input) }
}

/// `Tokenizer::next`: yields the next pending token, with a malformed document's error
/// described by its `Display` text, or nothing once all were yielded.
#[verifier::external_body]
fn tokenizer_next<'a>(t: &mut TokenStream<'a>) -> (r: Option<Result<xmlparser::Token<'a>, String>>)
    ensures
        pending_tokens(*old(t)).len() == 0 ==> r is None && pending_tokens(*final(t))
            == pending_tokens(*old(t)),
        pending_tokens(*old(t)).len() > 0 ==> pending_tokens(*final(t)) == pending_tokens(
            *old(t),
        ).drop_first() && match r {
            Some(Ok(tok)) => token_parts(tok) == pending_tokens(*old(t))[0],
            Some(Err(m)) => pending_tokens(*old(t))[0] == TokenView::Error(m@),
            None => false,
        },
{
    match t.tokenizer.next()? {
        Ok(tok) => Some(Ok(tok)),
        Err(e) => Some(Err(e.to_string())),
    }
}

/// The parts of a start tag or end tag token (`Token::ElementStart`, `Token::Attribute`,
/// `Token::ElementEnd`), their spans taken as the text they cover; `None` for other tokens.
#[verifier::external_body]
fn markup_token<'a>(tok: xmlparser::Token<'a>) -> (r: Option<XmlToken<'a>>)
    ensures
        match r {
            Some(x) => x@ == token_parts(tok),
            None => !is_markup(token_parts(tok)),
        },
{
    match tok {
        Tok::ElementStart { prefix, local, .. } => Some(XmlToken::ElementStart(prefix.as_str(), local.as_str())),
        Tok::Attribute { prefix, local, value, .. } => Some(XmlToken::Attribute(prefix.as_str(), local.as_str(), value.as_str())),
        Tok::ElementEnd { end: End::Open, .. } => Some(XmlToken::ElementOpen),
        Tok::ElementEnd { end: End::Close(p, l), .. } => Some(XmlToken::ElementClose(p.as_str(), l.as_str())),
        Tok::ElementEnd { end: End::Empty, .. } => Some(XmlToken::ElementEmpty),
        _ => None,
    }
}

/// The parts of any other token: the text of `Token::Text` and `Token::Cdata`, nothing of
/// `Token::Comment`, and the `Debug` rendering of declarations (as the `Ok` of a result) and
/// of the remaining kinds.
#[verifier::external_body]
fn content_token<'a>(tok: xmlparser::Token<'a>) -> (r: XmlToken<'a>)
    requires
        !is_markup(token_parts(tok)),
    ensures
        r@ == token_parts(tok),
{
    match tok {
        Tok::Text { text } => XmlToken::Text(text.as_str()),
        Tok::Cdata { text, .. } => XmlToken::Cdata(text.as_str()),
        Tok::Comment { .. } => XmlToken::Comment,
        Tok::Declaration { .. } => XmlToken::Declaration(format!("Ok({tok:?})")),
        _ => XmlToken::Other(format!("{tok:?}")),
    }
}

/// All the tokens of the document `input`.
pub fn tokenize<'a>(input: &'a str) -> (r: Vec<XmlToken<'a>>)
    ensures
        token_views(r@) == xml_tokens(input@),
{
    let mut t = tokenizer_from(input);
    let mut out: Vec<XmlToken<'a>> = Vec::new();
    loop
        invariant
            token_views(out@) + pending_tokens(t) == xml_tokens(input@),
        ensures
            token_views(out@) == xml_tokens(input@),
        decreases pending_tokens(t).len(),
    {
        let ghost before = pending_tokens(t);
        let ghost prev = token_views(out@);
        match tokenizer_next(&mut t) {
            None => {
                assert(prev + before =~= prev);
                break ;
            },
            Some(raw) => {
                let tok = match raw {
                    Ok(tok) => match markup_token(tok) {
                        Some(x) => x,
                        None => content_token(tok),
                    },
                    Err(m) => XmlToken::Error(m),
                };
                out.push(tok);
                assert(token_views(out@) =~= prev.push(before[0]));
                assert(prev.push(before[0]) + before.drop_first() =~= prev + before);
            },
        }
    }
    out
}

} // verus!
