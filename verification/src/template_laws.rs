//! What holds of the notation for fixed pieces of code.
use crate::template::{
    all_ended, char_read, group_ended, is_closing, joined, opened, quoted, scanned, word_ended,
    Scan,
};
use crate::tokens::{group, ident, is_digit, is_punct, is_word_start, punct, Delimiter, Token};
use vstd::prelude::*;

verus! {

/// Words are made of ASCII letters, underscores and digits, and do not begin with a
/// digit. Three brackets open a group, three close one, and punctuation is every other
/// ASCII character that is seen, but for the quotation mark, the backslash and the
/// grave accent.
pub proof fn law_characters(c: char)
    ensures
        is_word_start(c) <==> 65 <= c as u32 <= 90 || c as u32 == 95 || 97 <= c as u32 <= 122,
        is_digit(c) <==> 48 <= c as u32 <= 57,
        opened(c) == Some(Delimiter::Parenthesis) <==> c as u32 == 40,
        opened(c) == Some(Delimiter::Bracket) <==> c as u32 == 91,
        opened(c) == Some(Delimiter::Brace) <==> c as u32 == 123,
        is_closing(c) <==> c as u32 == 41 || c as u32 == 93 || c as u32 == 125,
        is_punct(c) <==> {
            &&& 33 <= c as u32 <= 126
            &&& !is_word_start(c)
            &&& !is_digit(c)
            &&& opened(c) is None
            &&& !is_closing(c)
            &&& c as u32 != 34
            &&& c as u32 != 92
            &&& c as u32 != 96
        },
{
}

/// Every group of a text is closed within it, and nothing else is closed.
pub open spec fn balanced(text: Seq<char>) -> bool {
    &&& scanned(text, text.len()).open.len() == 0
    &&& forall|i: int|
        0 <= i < text.len() && is_closing(#[trigger] text[i]) ==> scanned(
            text,
            i as nat,
        ).open.len() > 0
}

/// A character that may stand within a word.
pub open spec fn in_word(c: char) -> bool {
    is_word_start(c) || is_digit(c)
}

/// What has been read, after some tokens.
spec fn behind(before: Seq<Token>, scan: Scan) -> Scan {
    if scan.open.len() == 0 {
        Scan { open: scan.open, here: before + scan.here, word: scan.word }
    } else {
        Scan {
            open: scan.open.update(0, (scan.open[0].0, before + scan.open[0].1)),
            here: scan.here,
            word: scan.word,
        }
    }
}

/// What has been read, within a group.
spec fn within(delimiter: Delimiter, scan: Scan) -> Scan {
    Scan {
        open: seq![(delimiter, Seq::<Token>::empty())] + scan.open,
        here: scan.here,
        word: scan.word,
    }
}

/// A group ends behind some tokens as it ends without them.
proof fn lemma_group_ended_behind(before: Seq<Token>, scan: Scan)
    requires
        scan.open.len() > 0,
    ensures
        group_ended(behind(before, scan)) == behind(before, group_ended(scan)),
{
    let there = behind(before, scan);
    let (delimiter, outer) = scan.open.last();
    if scan.open.len() == 1 {
        assert(there.open.drop_last() =~= scan.open.drop_last());
        assert((before + outer) + group(delimiter, scan.here) =~= before + (outer + group(
            delimiter,
            scan.here,
        )));
    } else {
        assert(there.open.last() == scan.open.last());
        assert(there.open.drop_last() =~= scan.open.drop_last().update(
            0,
            (scan.open[0].0, before + scan.open[0].1),
        ));
    }
}

/// A word ends behind some tokens as it ends without them.
proof fn lemma_word_ended_behind(before: Seq<Token>, scan: Scan)
    ensures
        word_ended(behind(before, scan)) == behind(before, word_ended(scan)),
{
    if scan.open.len() == 0 && scan.word.len() > 0 {
        assert((before + scan.here) + ident(scan.word) =~= before + (scan.here
            + ident(scan.word)));
    }
}

/// A character is read behind some tokens as it is read without them.
proof fn lemma_char_behind(before: Seq<Token>, scan: Scan, c: char, joint: bool)
    ensures
        char_read(behind(before, scan), c, joint) == behind(before, char_read(scan, c, joint)),
{
    lemma_word_ended_behind(before, scan);
    let ended = word_ended(scan);
    let there = word_ended(behind(before, scan));
    if is_word_start(c) || (is_digit(c) && scan.word.len() > 0) {
    } else if opened(c) is Some {
        let delimiter = opened(c).unwrap();
        let after = char_read(scan, c, joint);
        assert(there.open.push((delimiter, there.here)) =~= behind(before, after).open);
    } else if is_closing(c) && ended.open.len() > 0 {
        lemma_group_ended_behind(before, ended);
    } else if is_punct(c) {
        if ended.open.len() == 0 {
            assert((before + ended.here) + punct(c, joint) =~= before + (ended.here
                + punct(c, joint)));
        }
    }
}

/// All groups end behind some tokens as they end without them.
proof fn lemma_all_ended_behind(before: Seq<Token>, scan: Scan)
    ensures
        all_ended(behind(before, scan)) == before + all_ended(scan),
    decreases scan.open.len(),
{
    if scan.open.len() > 0 {
        lemma_group_ended_behind(before, scan);
        lemma_all_ended_behind(before, group_ended(scan));
    }
}

/// A character is read within a group as it is read outside, unless it closes the
/// group.
proof fn lemma_char_within(delimiter: Delimiter, scan: Scan, c: char, joint: bool)
    requires
        is_closing(c) ==> scan.open.len() > 0,
    ensures
        char_read(within(delimiter, scan), c, joint) == within(
            delimiter,
            char_read(scan, c, joint),
        ),
{
    let ended = word_ended(scan);
    let there = word_ended(within(delimiter, scan));
    assert(there == within(delimiter, ended));
    if is_word_start(c) || (is_digit(c) && scan.word.len() > 0) {
    } else if opened(c) is Some {
        let after = char_read(scan, c, joint);
        assert(there.open.push((opened(c).unwrap(), there.here)) =~= within(
            delimiter,
            after,
        ).open);
    } else if is_closing(c) {
        assert(there.open.last() == ended.open.last());
        assert(there.open.drop_last() =~= seq![(delimiter, Seq::<Token>::empty())]
            + ended.open.drop_last());
    }
}

/// The beginning of a text is read as it is by itself, where the rest does not join it.
proof fn lemma_beginning(a: Seq<char>, b: Seq<char>, n: nat)
    requires
        n <= a.len(),
        a.len() > 0 && b.len() > 0 ==> !(is_punct(a.last()) && is_punct(b[0])),
    ensures
        scanned(a + b, n) == scanned(a, n),
    decreases n,
{
    if n > 0 {
        lemma_beginning(a, b, (n - 1) as nat);
        let i = n - 1;
        assert((a + b)[i] == a[i]);
        if i + 1 < a.len() {
            assert((a + b)[i + 1] == a[i + 1]);
            assert(joined(a + b, i) == joined(a, i));
        } else if is_punct(a[i]) {
            if b.len() > 0 {
                assert((a + b)[i + 1] == b[0]);
            }
            assert(joined(a + b, i) == joined(a, i));
        }
    }
}

/// No word is being read behind a character that does not stand within one.
proof fn lemma_no_word(text: Seq<char>)
    requires
        text.len() > 0 ==> !in_word(text.last()),
    ensures
        scanned(text, text.len()).word.len() == 0,
{
}

/// The rest of a text is read behind the tokens of its beginning.
proof fn lemma_rest(a: Seq<char>, b: Seq<char>, k: nat)
    requires
        balanced(a),
        0 < k <= b.len(),
        a.len() > 0 ==> !(in_word(a.last()) && in_word(b[0])),
        a.len() > 0 ==> !(is_punct(a.last()) && is_punct(b[0])),
    ensures
        scanned(a + b, (a.len() + k) as nat) == behind(
            word_ended(scanned(a, a.len())).here,
            scanned(b, k),
        ),
    decreases k,
{
    let text = a + b;
    let n = (a.len() + k) as nat;
    let i = n - 1;
    let begun = scanned(a, a.len());
    let before = word_ended(begun).here;
    assert(text[i] == b[k - 1]);
    if i + 1 < text.len() {
        assert(text[i + 1] == b[k as int]);
    }
    assert(joined(text, i) == joined(b, k - 1));
    if k == 1 {
        lemma_beginning(a, b, a.len());
        let empty = Scan { open: Seq::empty(), here: Seq::empty(), word: Seq::empty() };
        assert(scanned(b, 0) == empty);
        assert(behind(before, empty).here =~= before);
        assert(word_ended(begun).open =~= Seq::empty());
        assert(word_ended(begun).word =~= Seq::empty());
        assert(behind(before, empty) == word_ended(begun));
        if in_word(b[0]) {
            lemma_no_word(a);
            assert(word_ended(begun) == begun);
        }
        assert(char_read(begun, b[0], joined(b, 0)) == char_read(
            word_ended(begun),
            b[0],
            joined(b, 0),
        ));
        lemma_char_behind(before, empty, b[0], joined(b, 0));
    } else {
        lemma_rest(a, b, (k - 1) as nat);
        lemma_char_behind(before, scanned(b, (k - 1) as nat), b[k - 1], joined(b, k - 1));
    }
}

/// A text stands for what its beginning and its rest stand for, one after the other,
/// where it is not within a group, a word or a run of punctuation that the rest begins.
pub proof fn law_side_by_side(a: Seq<char>, b: Seq<char>)
    requires
        balanced(a),
        b.len() > 0,
        a.len() > 0 ==> !(in_word(a.last()) && in_word(b[0])),
        a.len() > 0 ==> !(is_punct(a.last()) && is_punct(b[0])),
    ensures
        quoted(a + b) == quoted(a) + quoted(b),
{
    let before = word_ended(scanned(a, a.len())).here;
    lemma_rest(a, b, b.len());
    assert((a + b).len() == a.len() + b.len());
    lemma_word_ended_behind(before, scanned(b, b.len()));
    lemma_all_ended_behind(before, word_ended(scanned(b, b.len())));
    assert(quoted(a) == before);
}

/// What stands within brackets stands for a group of what it stands for by itself. A
/// group that is still open at the end is closed there.
pub proof fn law_groups(open: char, inner: Seq<char>, close: char)
    requires
        opened(open) is Some,
        is_closing(close),
        balanced(inner),
    ensures
        quoted(seq![open] + inner + seq![close]) == group(opened(open).unwrap(), quoted(inner)),
        quoted(seq![open] + inner) == group(opened(open).unwrap(), quoted(inner)),
{
    let delimiter = opened(open).unwrap();
    let n = inner.len();
    let read = scanned(inner, n);
    let ended = word_ended(read);
    assert(ended.open =~= Seq::empty());
    assert(quoted(inner) == ended.here);
    let one = seq![(delimiter, Seq::<Token>::empty())];
    let around = within(delimiter, ended);
    assert(around.open =~= one);
    assert(one.drop_last() =~= Seq::empty());
    assert(word_ended(within(delimiter, read)) == around);
    assert(group_ended(around).here =~= group(delimiter, ended.here));
    assert(group_ended(around).open =~= Seq::empty());
    // without the closing bracket
    let half = seq![open] + inner;
    assert(half + Seq::<char>::empty() =~= half);
    lemma_inside(open, inner, Seq::empty(), n);
    assert(half.len() == n + 1);
    assert(quoted(half) == all_ended(around));
    reveal_with_fuel(all_ended, 2);
    // with it
    let whole = seq![open] + inner + seq![close];
    lemma_inside(open, inner, seq![close], n);
    assert(whole.len() == n + 2);
    assert(whole[n + 1int] == close);
    let last = scanned(whole, (n + 2) as nat);
    assert(last == group_ended(around));
    assert(last.word =~= Seq::empty());
    assert(quoted(whole) == last.here);
}

/// What stands within a bracket is read within the group.
proof fn lemma_inside(open: char, inner: Seq<char>, rest: Seq<char>, k: nat)
    requires
        opened(open) is Some,
        balanced(inner),
        rest.len() > 0 ==> !is_punct(rest[0]),
        k <= inner.len(),
    ensures
        scanned(seq![open] + inner + rest, (k + 1) as nat) == within(
            opened(open).unwrap(),
            scanned(inner, k),
        ),
    decreases k,
{
    let text = seq![open] + inner + rest;
    let delimiter = opened(open).unwrap();
    if k == 0 {
        let empty = Scan { open: Seq::empty(), here: Seq::empty(), word: Seq::empty() };
        assert(scanned(text, 0) == empty);
        assert(text[0] == open);
        assert(scanned(text, 1) == char_read(scanned(text, 0), text[0], joined(text, 0)));
        assert(scanned(text, 1).open =~= within(delimiter, empty).open);
    } else {
        lemma_inside(open, inner, rest, (k - 1) as nat);
        let c = inner[k - 1];
        assert(text[k as int] == c);
        if k < inner.len() {
            assert(text[k + 1int] == inner[k as int]);
        } else if rest.len() > 0 {
            assert(text[k + 1int] == rest[0]);
        }
        assert(joined(text, k as int) == joined(inner, k - 1));
        lemma_char_within(delimiter, scanned(inner, (k - 1) as nat), c, joined(inner, k - 1));
    }
}

/// Punctuation stands for itself. In a run each character is joined to the next; a
/// quote is always joined.
pub proof fn law_runs_of_punctuation(text: Seq<char>)
    requires
        forall|i: int| 0 <= i < text.len() ==> is_punct(#[trigger] text[i]),
    ensures
        quoted(text).len() == text.len(),
        forall|i: int|
            0 <= i < text.len() ==> #[trigger] quoted(text)[i] == Token::Punct(
                text[i],
                text[i] == '\'' || i + 1 < text.len(),
            ),
        balanced(text),
{
    lemma_run(text, text.len());
    assert forall|i: int| 0 <= i < text.len() && is_closing(#[trigger] text[i]) implies scanned(
        text,
        i as nat,
    ).open.len() > 0 by {
        assert(is_punct(text[i]));
    }
}

/// Punctuation is read one character after the other.
proof fn lemma_run(text: Seq<char>, n: nat)
    requires
        forall|i: int| 0 <= i < text.len() ==> is_punct(#[trigger] text[i]),
        n <= text.len(),
    ensures
        scanned(text, n).open.len() == 0,
        scanned(text, n).word.len() == 0,
        scanned(text, n).here.len() == n,
        forall|i: int|
            0 <= i < n ==> #[trigger] scanned(text, n).here[i] == Token::Punct(
                text[i],
                text[i] == '\'' || i + 1 < text.len(),
            ),
    decreases n,
{
    if n > 0 {
        lemma_run(text, (n - 1) as nat);
        assert(is_punct(text[n - 1]));
        if n < text.len() {
            assert(is_punct(text[n as int]));
        }
    }
}

/// A character without a meaning of its own stands for nothing. That is every one that
/// is neither a letter or an underscore nor punctuation nor an opening bracket.
pub proof fn law_other_characters(c: char)
    requires
        !is_word_start(c),
        !is_punct(c),
        opened(c) is None,
    ensures
        quoted(seq![c]) == Seq::<Token>::empty(),
{
    reveal_with_fuel(scanned, 2);
    let text = seq![c];
    let empty = Scan { open: Seq::empty(), here: Seq::empty(), word: Seq::empty() };
    assert(scanned(text, 0) == empty);
    assert(scanned(text, 1) == char_read(empty, c, joined(text, 0)));
}

} // verus!
