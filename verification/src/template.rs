//! A compact notation for fixed pieces of Rust code.
//!
//! A text is read as identifiers, punctuation and groups. Words stand for
//! identifiers and keywords, punctuation characters for themselves (joined to
//! the next one where nothing stands between the two, as in `->`), brackets
//! for groups. Spaces separate, and so does every character without a meaning
//! of its own. A bracket that is still open at the end is closed there.
use crate::tokens::{
    empty_stream, group, ident, is_digit, is_punct, is_word, is_word_start, punct, push_group,
    push_ident, push_punct, push_stream, tokens, Delimiter, Token,
};
use proc_macro2::TokenStream;
use vstd::prelude::*;
use vstd::string::*;

verus! {

/// What has been read of a text so far.
pub struct Scan {
    /// The groups that are open, outermost first, each with the tokens before it.
    pub open: Seq<(Delimiter, Seq<Token>)>,
    /// The tokens of the innermost open group, or of the text itself.
    pub here: Seq<Token>,
    /// The characters of the word that is being read.
    pub word: Seq<char>,
}

/// The group that an opening bracket begins.
pub open spec fn opened(c: char) -> Option<Delimiter> {
    if c == '(' {
        Some(Delimiter::Parenthesis)
    } else if c == '{' {
        Some(Delimiter::Brace)
    } else if c == '[' {
        Some(Delimiter::Bracket)
    } else {
        None
    }
}

/// A closing bracket.
pub open spec fn is_closing(c: char) -> bool {
    c == ')' || c == '}' || c == ']'
}

/// The word that was being read has ended.
pub open spec fn word_ended(scan: Scan) -> Scan {
    if scan.word.len() == 0 {
        scan
    } else {
        Scan { open: scan.open, here: scan.here + ident(scan.word), word: Seq::empty() }
    }
}

/// The innermost open group has ended.
pub open spec fn group_ended(scan: Scan) -> Scan {
    let (delimiter, before) = scan.open.last();
    Scan {
        open: scan.open.drop_last(),
        here: before + group(delimiter, scan.here),
        word: scan.word,
    }
}

/// One more character has been read; `joint` says that it is punctuation to
/// which the next character is joined.
pub open spec fn char_read(scan: Scan, c: char, joint: bool) -> Scan {
    if is_word_start(c) || (is_digit(c) && scan.word.len() > 0) {
        Scan { open: scan.open, here: scan.here, word: scan.word.push(c) }
    } else {
        let ended = word_ended(scan);
        if let Some(delimiter) = opened(c) {
            Scan {
                open: ended.open.push((delimiter, ended.here)),
                here: Seq::empty(),
                word: ended.word,
            }
        } else if is_closing(c) && ended.open.len() > 0 {
            group_ended(ended)
        } else if is_punct(c) {
            Scan { open: ended.open, here: ended.here + punct(c, joint), word: ended.word }
        } else {
            ended
        }
    }
}

/// Whether the character at `i` is joined to the next one. A quote begins a
/// lifetime, and is joined to its name.
pub open spec fn joined(text: Seq<char>, i: int) -> bool {
    text[i] == '\'' || (i + 1 < text.len() && is_punct(text[i + 1]))
}

/// The first `n` characters of a text have been read.
pub open spec fn scanned(text: Seq<char>, n: nat) -> Scan
    decreases n,
{
    if n == 0 {
        Scan { open: Seq::empty(), here: Seq::empty(), word: Seq::empty() }
    } else {
        char_read(scanned(text, (n - 1) as nat), text[n - 1], joined(text, n - 1))
    }
}

/// The tokens of what has been read once every open group has ended.
pub open spec fn all_ended(scan: Scan) -> Seq<Token>
    decreases scan.open.len(),
{
    if scan.open.len() == 0 {
        scan.here
    } else {
        all_ended(group_ended(scan))
    }
}

/// The tokens for which a text stands.
pub open spec fn quoted(text: Seq<char>) -> Seq<Token> {
    all_ended(word_ended(scanned(text, text.len())))
}

/// The stack of open groups is that of a scan.
spec fn holds_open(stack: Seq<(Delimiter, TokenStream)>, open: Seq<(Delimiter, Seq<Token>)>) -> bool {
    &&& stack.len() == open.len()
    &&& forall|i: int|
        0 <= i < stack.len() ==> (#[trigger] open[i]) == (stack[i].0, tokens(stack[i].1))
}

fn word_start(c: char) -> (yes: bool)
    ensures
        yes == is_word_start(c),
{
    ('a' <= c && c <= 'z') || ('A' <= c && c <= 'Z') || c == '_'
}

fn digit(c: char) -> (yes: bool)
    ensures
        yes == is_digit(c),
{
    '0' <= c && c <= '9'
}

fn punctuation(c: char) -> (yes: bool)
    ensures
        yes == is_punct(c),
{
    match c {
        '!' | '#' | '$' | '%' | '&' | '\'' | '*' | '+' | ',' | '-' | '.' => true,
        '/' | ':' | ';' | '<' | '=' | '>' | '?' | '@' | '^' | '|' | '~' => true,
        _ => false,
    }
}

fn opening(c: char) -> (delimiter: Option<Delimiter>)
    ensures
        delimiter == opened(c),
{
    match c {
        '(' => Some(Delimiter::Parenthesis),
        '{' => Some(Delimiter::Brace),
        '[' => Some(Delimiter::Bracket),
        _ => None,
    }
}

fn close_group(stack: &mut Vec<(Delimiter, TokenStream)>, here: TokenStream) -> (outer: TokenStream)
    requires
        old(stack)@.len() > 0,
    ensures
        final(stack)@ == old(stack)@.drop_last(),
        tokens(outer) == tokens(old(stack)@.last().1) + group(old(stack)@.last().0, tokens(here)),
{
    match stack.pop() {
        Some((delimiter, before)) => {
            let mut outer = before;
            push_group(&mut outer, delimiter, here);
            outer
        },
        None => here,
    }
}

/// The stream of tokens for which a text stands.
pub fn quote_text(text: &str) -> (stream: TokenStream)
    ensures
        tokens(stream) == quoted(text@),
{
    let n: usize = text.unicode_len();
    let mut stack: Vec<(Delimiter, TokenStream)> = Vec::new();
    let mut here = empty_stream();
    let mut start: usize = 0;
    let mut i: usize = 0;
    while i < n
        invariant
            n == text@.len(),
            start <= i <= n,
            holds_open(stack@, scanned(text@, i as nat).open),
            tokens(here) == scanned(text@, i as nat).here,
            scanned(text@, i as nat).word == text@.subrange(start as int, i as int),
            start < i ==> is_word(text@.subrange(start as int, i as int)),
        decreases n - i,
    {
        let c = text.get_char(i);
        let ghost before = scanned(text@, i as nat);
        assert(scanned(text@, (i + 1) as nat) == char_read(before, c, joined(text@, i as int)));
        if word_start(c) || (digit(c) && start < i) {
            proof {
                let word = text@.subrange(start as int, i + 1);
                assert(word =~= before.word.push(c));
                assert forall|k: int| 0 <= k < word.len() implies is_word_start(#[trigger] word[k])
                    || is_digit(word[k]) by {
                    if k < before.word.len() {
                        assert(word[k] == before.word[k]);
                    }
                }
                if start < i {
                    assert(word[0] == before.word[0]);
                }
            }
        } else {
            if start < i {
                push_ident(&mut here, text.substring_char(start, i));
            }
            start = i + 1;
            assert(tokens(here) == word_ended(before).here);
            assert(text@.subrange(start as int, i + 1) =~= Seq::<char>::empty());
            if let Some(delimiter) = opening(c) {
                stack.push((delimiter, here));
                here = empty_stream();
            } else if (c == ')' || c == '}' || c == ']') && stack.len() > 0 {
                here = close_group(&mut stack, here);
            } else if punctuation(c) {
                let joint = c == '\'' || (i + 1 < n && punctuation(text.get_char(i + 1)));
                push_punct(&mut here, c, joint);
            }
        }
        i = i + 1;
    }
    let ghost end = scanned(text@, n as nat);
    if start < n {
        push_ident(&mut here, text.substring_char(start, n));
    }
    let ghost mut scan = word_ended(end);
    while stack.len() > 0
        invariant
            holds_open(stack@, scan.open),
            tokens(here) == scan.here,
            all_ended(scan) == quoted(text@),
        decreases stack.len(),
    {
        here = close_group(&mut stack, here);
        proof {
            scan = group_ended(scan);
        }
    }
    here
}

/// Puts the tokens for which a text stands at the end of a stream.
pub fn put(stream: &mut TokenStream, text: &str)
    ensures
        tokens(*final(stream)) == tokens(*old(stream)) + quoted(text@),
{
    push_stream(stream, quote_text(text));
}

/// While a word is read nothing else is.
proof fn lemma_word_scanned(word: Seq<char>, n: nat)
    requires
        is_word(word),
        n <= word.len(),
    ensures
        scanned(word, n) == (Scan {
            open: Seq::empty(),
            here: Seq::empty(),
            word: word.take(n as int),
        }),
    decreases n,
{
    if n > 0 {
        lemma_word_scanned(word, (n - 1) as nat);
        let c = word[n - 1];
        assert(is_word_start(c) || is_digit(c));
        if n == 1 {
            assert(is_word_start(c));
        }
        assert(word.take(n as int) =~= word.take(n - 1).push(c));
    } else {
        assert(word.take(0) =~= Seq::empty());
    }
}

/// A word stands for the identifier that it is.
pub proof fn law_word_is_an_identifier(word: Seq<char>)
    requires
        is_word(word),
    ensures
        quoted(word) == ident(word),
{
    lemma_word_scanned(word, word.len());
    assert(word.take(word.len() as int) =~= word);
    assert(quoted(word) =~= ident(word));
}

} // verus!
