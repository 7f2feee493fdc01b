//! Cuts CSS text into lexemes: a token together with the source text that it
//! spans. Tokens come from `cssparser`; the cutting of the text is verified.

use cssparser::{ParseError, Parser, Token};
use vstd::prelude::*;
use vstd::string::*;
use vstd::utf8::*;

verus! {

/// A CSS token as the scanner reads it. Tokens that the scanner does not
/// react to are `Other`.
pub enum CssToken {
    Ident(String),
    AtKeyword(String),
    Function(String),
    Delim(char),
    Colon,
    Semicolon,
    Comma,
    SquareBlock,
    CurlyBlock,
    ParenBlock,
    Other,
}

/// The mathematical form of a `CssToken`.
pub enum TokenView {
    Ident(Seq<char>),
    AtKeyword(Seq<char>),
    Function(Seq<char>),
    Delim(char),
    Colon,
    Semicolon,
    Comma,
    SquareBlock,
    CurlyBlock,
    ParenBlock,
    Other,
}

impl TokenView {
    /// Tokens after which a block follows, up to its matching closing token.
    pub open spec fn opens_block(self) -> bool {
        ||| self is Function
        ||| self is SquareBlock
        ||| self is CurlyBlock
        ||| self is ParenBlock
    }
}

impl View for CssToken {
    type V = TokenView;

    open spec fn view(&self) -> TokenView {
        match self {
            CssToken::Ident(s) => TokenView::Ident(s@),
            CssToken::AtKeyword(s) => TokenView::AtKeyword(s@),
            CssToken::Function(s) => TokenView::Function(s@),
            CssToken::Delim(c) => TokenView::Delim(*c),
            CssToken::Colon => TokenView::Colon,
            CssToken::Semicolon => TokenView::Semicolon,
            CssToken::Comma => TokenView::Comma,
            CssToken::SquareBlock => TokenView::SquareBlock,
            CssToken::CurlyBlock => TokenView::CurlyBlock,
            CssToken::ParenBlock => TokenView::ParenBlock,
            CssToken::Other => TokenView::Other,
        }
    }
}

impl CssToken {
    pub fn opens_block(&self) -> (r: bool)
        ensures
            r == self@.opens_block(),
    {
        match self {
            CssToken::Function(_) | CssToken::SquareBlock | CssToken::CurlyBlock
            | CssToken::ParenBlock => true,
            _ => false,
        }
    }
}

/// The first token that `cssparser` reads from a text, skipping white space
/// and comments, with the byte offset just after it.
pub uninterp spec fn css_first_token(text: Seq<char>) -> Option<(TokenView, nat)>;

/// The byte offset just after the block that a text's first token opens.
pub uninterp spec fn css_block_end(text: Seq<char>) -> nat;

/// Relies on cssparser's `Parser::next` and `Parser::position`: the first
/// token that is not white space or a comment, and the byte offset after it.
/// A token takes at least one byte, and positions fall on character
/// boundaries (the tokenizer asserts this of every position it reports).
#[verifier::external_body]
fn first_token(text: &str) -> (r: Option<(CssToken, usize)>)
    ensures
        r is None ==> css_first_token(text@) is None,
        r matches Some((t, e)) ==> css_first_token(text@) == Some((t@, e as nat)),
        r matches Some((t, e)) ==> 0 < e && is_char_boundary(encode_utf8(text@), e as int),
{
    let mut parser = Parser::new(text);
    let token = match parser.next().ok()? {
        Token::Ident(s) => CssToken::Ident(s.to_string()),
        Token::AtKeyword(s) => CssToken::AtKeyword(s.to_string()),
        Token::Function(s) => CssToken::Function(s.to_string()),
        Token::Delim(c) => CssToken::Delim(*c),
        Token::Colon => CssToken::Colon,
        Token::Semicolon => CssToken::Semicolon,
        Token::SquareBracketBlock => CssToken::SquareBlock,
        Token::CurlyBracketBlock => CssToken::CurlyBlock,
        Token::ParenthesisBlock => CssToken::ParenBlock,
        Token::Comma => CssToken::Comma,
        _ => CssToken::Other,
    };
    Some((token, parser.position().byte_index()))
}

/// Relies on cssparser's `Parser::parse_nested_block`: right after a token
/// that opens a block it consumes the block up to its matching closing token,
/// or to the end of the text; `Parser::position` then gives the byte offset.
/// It panics when no block was just opened, which `requires` rules out.
#[verifier::external_body]
fn block_end(text: &str) -> (r: usize)
    requires
        css_first_token(text@) matches Some((t, _)) && t.opens_block(),
    ensures
        r as nat == css_block_end(text@),
        r as nat >= css_first_token(text@)->Some_0.1,
        is_char_boundary(encode_utf8(text@), r as int),
{
    let mut parser = Parser::new(text);
    let _ = parser.next();
    let _ = parser.parse_nested_block(|_| Ok::<(), ParseError<()>>(()));
    parser.position().byte_index()
}

/// The characters of `s` before byte offset `b` of its UTF-8 encoding, and
/// those from `b` on.
pub open spec fn split_bytes(s: Seq<char>, b: int) -> (Seq<char>, Seq<char>) {
    let bytes = encode_utf8(s);
    (decode_utf8(bytes.subrange(0, b)), decode_utf8(bytes.subrange(b, bytes.len() as int)))
}

/// Cutting at a character boundary cuts the text in two.
pub proof fn lemma_split_bytes(s: Seq<char>, b: int)
    requires
        is_char_boundary(encode_utf8(s), b),
    ensures
        split_bytes(s, b).0 + split_bytes(s, b).1 == s,
        encode_utf8(split_bytes(s, b).0) == encode_utf8(s).subrange(0, b),
        0 <= b <= encode_utf8(s).len(),
{
    let bytes = encode_utf8(s);
    encode_utf8_valid_utf8(s);
    encode_utf8_decode_utf8(s);
    valid_utf8_split(bytes, b);
    decode_utf8_split(bytes, b);
    decode_utf8_encode_utf8(bytes.subrange(0, b));
}

/// A boundary before `b` is still a boundary of the part before `b`.
proof fn lemma_boundary_in_prefix(s: Seq<char>, e: int, b: int)
    requires
        is_char_boundary(encode_utf8(s), e),
        is_char_boundary(encode_utf8(s), b),
        e <= b,
    ensures
        is_char_boundary(encode_utf8(split_bytes(s, b).0), e),
{
    let bytes = encode_utf8(s);
    lemma_split_bytes(s, b);
    lemma_split_bytes(s, e);
    let p = split_bytes(s, b).0;
    encode_utf8_valid_utf8(s);
    encode_utf8_valid_utf8(p);
    if e == b {
        is_char_boundary_start_end_of_seq(encode_utf8(p));
    } else if e > 0 {
        is_char_boundary_iff_not_is_continuation_byte(bytes, e);
        is_char_boundary_iff_not_is_continuation_byte(encode_utf8(p), e);
    }
}

/// What the scanner reads next from a text: the token, the text up to the end
/// of the token (`head`, white space before it included), the block that the
/// token opens up to its closing token (`body`, empty for other tokens), and
/// the rest of the text.
pub struct LexemeView {
    pub token: TokenView,
    pub head: Seq<char>,
    pub body: Seq<char>,
}

pub open spec fn next_lexeme_spec(text: Seq<char>) -> Option<(LexemeView, Seq<char>)> {
    match css_first_token(text) {
        None => None,
        Some((tok, e)) => {
            let b = if tok.opens_block() {
                css_block_end(text) as int
            } else {
                e as int
            };
            let bytes = encode_utf8(text);
            if 0 < e <= b && is_char_boundary(bytes, e as int) && is_char_boundary(bytes, b) {
                let through = split_bytes(text, b).0;
                let rest = split_bytes(text, b).1;
                let head = split_bytes(through, e as int).0;
                let body = split_bytes(through, e as int).1;
                Some((LexemeView { token: tok, head, body }, rest))
            } else {
                None
            }
        },
    }
}

/// A lexeme is a non-empty piece from the front of the text.
pub proof fn lemma_next_lexeme(text: Seq<char>)
    ensures
        next_lexeme_spec(text) matches Some((lx, rest)) ==> text == lx.head + lx.body + rest
            && lx.head.len() > 0,
{
    if let Some((tok, e)) = css_first_token(text) {
        let b = if tok.opens_block() {
            css_block_end(text) as int
        } else {
            e as int
        };
        let bytes = encode_utf8(text);
        if 0 < e <= b && is_char_boundary(bytes, e as int) && is_char_boundary(bytes, b) {
            lemma_split_bytes(text, b);
            let through = split_bytes(text, b).0;
            lemma_boundary_in_prefix(text, e as int, b);
            lemma_split_bytes(through, e as int);
            let head = split_bytes(through, e as int).0;
            assert(encode_utf8(head).len() == e);
            if head.len() == 0 {
                assert(encode_utf8(head) =~= Seq::<u8>::empty());
            }
            assert(text =~= head + split_bytes(through, e as int).1 + split_bytes(text, b).1);
        }
    }
}

/// Cuts `s` at byte offset `b`, a character boundary.
fn split_text(s: &str, b: usize) -> (r: (&str, &str))
    requires
        is_char_boundary(encode_utf8(s@), b as int),
    ensures
        r.0@ == split_bytes(s@, b as int).0,
        r.1@ == split_bytes(s@, b as int).1,
{
    proof {
        lemma_split_bytes(s@, b as int);
        encode_utf8_valid_utf8(s@);
    }
    let r = s.split_at(b);
    proof {
        let bytes = encode_utf8(s@);
        encode_utf8_decode_utf8(r.0@);
        encode_utf8_decode_utf8(r.1@);
    }
    r
}

/// Reads the next lexeme of `text`: its token, head and body, and the rest.
pub fn next_lexeme<'a>(text: &'a str) -> (r: Option<(CssToken, &'a str, &'a str, &'a str)>)
    ensures
        r is None ==> next_lexeme_spec(text@) is None,
        r matches Some((t, h, b, rest)) ==> next_lexeme_spec(text@) == Some(
            (LexemeView { token: t@, head: h@, body: b@ }, rest@),
        ),
{
    match first_token(text) {
        None => None,
        Some((token, e)) => {
            let b = if token.opens_block() {
                block_end(text)
            } else {
                e
            };
            let (through, rest) = split_text(text, b);
            proof {
                lemma_boundary_in_prefix(text@, e as int, b as int);
            }
            let (head, body) = split_text(through, e);
            Some((token, head, body, rest))
        },
    }
}

} // verus!
