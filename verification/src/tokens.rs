//! Streams of Rust tokens.
//!
//! The streams themselves are those of `proc_macro2`. What a stream holds is
//! spoken of as a sequence of [`Token`] trees, and the few ways in which the
//! generator grows a stream are given here with what each does to that sequence.
//!
//! Within a procedural macro `proc_macro2` leaves it to the compiler how a text
//! is read, how a literal is written and how an identifier is spelt; elsewhere
//! it does so itself. What is said here holds either way. A string literal is
//! therefore held by its value, and of a text that is read it is said what may
//! come of it ([`readings`]).
use proc_macro2::TokenStream;
use vstd::prelude::*;

verus! {

/// How the tokens of a group are enclosed.
#[derive(Clone, Copy, Debug, PartialEq, Eq, Structural)]
pub enum Delimiter {
    /// `( ... )`
    Parenthesis,
    /// `{ ... }`
    Brace,
    /// `[ ... ]`
    Bracket,
}

/// One token tree.
pub enum Token {
    /// An identifier or keyword.
    Ident(Seq<char>),
    /// A punctuation character; `true` where the next token belongs to the same operator.
    Punct(char, bool),
    /// A string literal between quotation marks, by its value.
    Text(Seq<char>),
    /// Any other literal, by its source text.
    Literal(Seq<char>),
    /// A delimited group.
    Group(Delimiter, Seq<Token>),
    /// A group without visible delimiters.
    Invisible(Seq<Token>),
}

/// `proc_macro2::TokenStream`, whose tokens are given by [`tokens`].
#[verifier::external_type_specification]
#[verifier::external_body]
pub struct ExTokenStream(TokenStream);

/// The token trees that a stream holds, in order.
pub uninterp spec fn tokens(stream: TokenStream) -> Seq<Token>;

/// What may come of a text that `proc_macro2` reads: the tokens that are found in
/// it, or `None` where it is refused. Which of these comes depends on whether it
/// is the compiler that reads.
pub uninterp spec fn readings(text: Seq<char>) -> Set<Option<Seq<Token>>>;

/// A single identifier.
pub open spec fn ident(word: Seq<char>) -> Seq<Token> {
    seq![Token::Ident(word)]
}

/// A single punctuation character.
pub open spec fn punct(c: char, joint: bool) -> Seq<Token> {
    seq![Token::Punct(c, joint)]
}

/// A single string literal.
pub open spec fn text_literal(value: Seq<char>) -> Seq<Token> {
    seq![Token::Text(value)]
}

/// A text that can stand in a raw string literal without hashes.
pub open spec fn is_raw(value: Seq<char>) -> bool {
    forall|i: int| 0 <= i < value.len() ==> #[trigger] value[i] != '"' && value[i] != '\r'
}

/// A single raw string literal.
pub open spec fn raw_literal(value: Seq<char>) -> Seq<Token> {
    seq![Token::Literal(seq!['r', '"'] + value + seq!['"'])]
}

/// A natural number in decimal notation.
pub open spec fn decimal(n: nat) -> Seq<char>
    decreases n,
{
    let digit = ('0' as u8 + n % 10) as u8 as char;
    if n < 10 {
        seq![digit]
    } else {
        decimal(n / 10).push(digit)
    }
}

/// A single number.
pub open spec fn number_literal(n: nat) -> Seq<Token> {
    seq![Token::Literal(decimal(n))]
}

/// A single delimited group.
pub open spec fn group(delimiter: Delimiter, inner: Seq<Token>) -> Seq<Token> {
    seq![Token::Group(delimiter, inner)]
}

/// `( inner )`
pub open spec fn parens(inner: Seq<Token>) -> Seq<Token> {
    group(Delimiter::Parenthesis, inner)
}

/// `{ inner }`
pub open spec fn braces(inner: Seq<Token>) -> Seq<Token> {
    group(Delimiter::Brace, inner)
}

/// `[ inner ]`
pub open spec fn brackets(inner: Seq<Token>) -> Seq<Token> {
    group(Delimiter::Bracket, inner)
}

/// A letter or an underscore.
pub open spec fn is_word_start(c: char) -> bool {
    ('a' <= c && c <= 'z') || ('A' <= c && c <= 'Z') || c == '_'
}

/// A decimal digit.
pub open spec fn is_digit(c: char) -> bool {
    '0' <= c && c <= '9'
}

/// An ASCII identifier or keyword.
pub open spec fn is_word(word: Seq<char>) -> bool {
    &&& word.len() > 0
    &&& is_word_start(word[0])
    &&& forall|i: int|
        0 <= i < word.len() ==> is_word_start(#[trigger] word[i]) || is_digit(word[i])
}

/// A character that may stand alone as punctuation.
pub open spec fn is_punct(c: char) -> bool {
    ||| c == '!'
    ||| c == '#'
    ||| c == '$'
    ||| c == '%'
    ||| c == '&'
    ||| c == '\''
    ||| c == '*'
    ||| c == '+'
    ||| c == ','
    ||| c == '-'
    ||| c == '.'
    ||| c == '/'
    ||| c == ':'
    ||| c == ';'
    ||| c == '<'
    ||| c == '='
    ||| c == '>'
    ||| c == '?'
    ||| c == '@'
    ||| c == '^'
    ||| c == '|'
    ||| c == '~'
}

/// `proc_macro2::TokenStream::new`: a stream without tokens.
#[verifier::external_body]
pub(crate) fn empty_stream() -> (stream: TokenStream)
    ensures
        tokens(stream) == Seq::<Token>::empty(),
{
    TokenStream::new()
}

/// `proc_macro2::Ident::new`, put at the end of a stream with `extend`. It
/// accepts every ASCII identifier and keyword, and the identifier is the word.
#[verifier::external_body]
pub(crate) fn push_ident(stream: &mut TokenStream, word: &str)
    requires
        is_word(word@),
    ensures
        tokens(*final(stream)) == tokens(*old(stream)) + ident(word@),
{
    let word = proc_macro2::Ident::new(word, proc_macro2::Span::call_site());
    stream.extend(std::iter::once(proc_macro2::TokenTree::Ident(word)));
}

/// `proc_macro2::Punct::new`, put at the end of a stream with `extend`. It
/// accepts the characters of [`is_punct`] and no others.
#[verifier::external_body]
pub(crate) fn push_punct(stream: &mut TokenStream, c: char, joint: bool)
    requires
        is_punct(c),
    ensures
        tokens(*final(stream)) == tokens(*old(stream)) + punct(c, joint),
{
    let spacing = match joint {
        true => proc_macro2::Spacing::Joint,
        false => proc_macro2::Spacing::Alone,
    };
    let punct = proc_macro2::Punct::new(c, spacing);
    stream.extend(std::iter::once(proc_macro2::TokenTree::Punct(punct)));
}

/// `proc_macro2::Group::new`, put at the end of a stream with `extend`.
#[verifier::external_body]
pub(crate) fn push_group(stream: &mut TokenStream, delimiter: Delimiter, inner: TokenStream)
    ensures
        tokens(*final(stream)) == tokens(*old(stream)) + group(delimiter, tokens(inner)),
{
    let delimiter = match delimiter {
        Delimiter::Parenthesis => proc_macro2::Delimiter::Parenthesis,
        Delimiter::Brace => proc_macro2::Delimiter::Brace,
        Delimiter::Bracket => proc_macro2::Delimiter::Bracket,
    };
    let group = proc_macro2::Group::new(delimiter, inner);
    stream.extend(std::iter::once(proc_macro2::TokenTree::Group(group)));
}

/// `proc_macro2::Literal::string`, put at the end of a stream with `extend`: a
/// literal that stands for the value, with escapes where they are needed.
#[verifier::external_body]
pub(crate) fn push_string(stream: &mut TokenStream, value: &str)
    ensures
        tokens(*final(stream)) == tokens(*old(stream)) + text_literal(value@),
{
    let literal = proc_macro2::Literal::string(value);
    stream.extend(std::iter::once(proc_macro2::TokenTree::Literal(literal)));
}

/// `proc_macro2::Literal::from_str` on a raw string literal without hashes, put at
/// the end of a stream with `extend`. It accepts every such literal whose value
/// has neither a quotation mark nor a carriage return, and keeps its text.
#[verifier::external_body]
pub(crate) fn push_raw_string(stream: &mut TokenStream, value: &str)
    requires
        is_raw(value@),
    ensures
        tokens(*final(stream)) == tokens(*old(stream)) + raw_literal(value@),
{
    let literal = format!("r\"{}\"", value).parse::<proc_macro2::Literal>().unwrap();
    stream.extend(std::iter::once(proc_macro2::TokenTree::Literal(literal)));
}

/// `proc_macro2::Literal::u64_unsuffixed`, put at the end of a stream with
/// `extend`: the number in decimal notation, without a suffix.
#[verifier::external_body]
pub(crate) fn push_number(stream: &mut TokenStream, n: u64)
    ensures
        tokens(*final(stream)) == tokens(*old(stream)) + number_literal(n as nat),
{
    let literal = proc_macro2::Literal::u64_unsuffixed(n);
    stream.extend(std::iter::once(proc_macro2::TokenTree::Literal(literal)));
}

/// `proc_macro2::TokenStream::extend` with one other stream: its tokens come
/// after those that are there. (Both streams are made under the same reader,
/// unless `proc_macro2::fallback::force` is called in between.)
#[verifier::external_body]
pub(crate) fn push_stream(stream: &mut TokenStream, other: TokenStream)
    ensures
        tokens(*final(stream)) == tokens(*old(stream)) + tokens(other),
{
    stream.extend(std::iter::once(other));
}

/// The tokens of a text that may have been read.
pub open spec fn read_tokens(read: Option<TokenStream>) -> Option<Seq<Token>> {
    match read {
        Some(stream) => Some(tokens(stream)),
        None => None,
    }
}

/// `proc_macro2::TokenStream::from_str`: the tokens of a text, where it can be
/// read as Rust tokens. An ASCII identifier or keyword is always read, as the one
/// identifier that it is. Of another text one of its [`readings`] comes.
#[verifier::external_body]
pub(crate) fn lex(text: &str) -> (result: Option<TokenStream>)
    ensures
        readings(text@).contains(read_tokens(result)),
        is_word(text@) ==> read_tokens(result) == Some(ident(text@)),
{
    text.parse::<TokenStream>().ok()
}

/// `proc_macro2::TokenStream::clone`: another stream of the same tokens.
pub assume_specification[ <TokenStream as Clone>::clone ](stream: &TokenStream) -> (copy: TokenStream)
    ensures
        tokens(copy) == tokens(*stream),
;

} // verus!
