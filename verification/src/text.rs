//! Text.
use vstd::prelude::*;
use vstd::string::*;

verus! {

/// `String::push`: the character comes after those that are there.
pub assume_specification[ std::string::String::push ](text: &mut std::string::String, c: char)
    ensures
        final(text)@ == old(text)@.push(c),
;

/// Whether two texts are the same.
pub(crate) fn same_text(a: &str, b: &str) -> (same: bool)
    ensures
        same == (a@ == b@),
{
    a.to_owned() == b.to_owned()
}

/// The capital of an ASCII letter; any other character as it is.
pub open spec fn upper(c: char) -> char {
    if 'a' <= c && c <= 'z' {
        ((c as u8) - 32) as char
    } else {
        c
    }
}

/// A text with its first character made a capital.
pub open spec fn capitalized(text: Seq<char>) -> Seq<char> {
    if text.len() == 0 {
        text
    } else {
        seq![upper(text[0])] + text.skip(1)
    }
}

/// A text with its first character made a capital.
pub(crate) fn capitalize(text: &str) -> (result: String)
    ensures
        result@ == capitalized(text@),
{
    let n: usize = text.unicode_len();
    if n == 0 {
        return text.to_owned();
    }
    let first = text.get_char(0);
    let mut result = String::new();
    if 'a' <= first && first <= 'z' {
        result.push(((first as u8) - 32) as char);
    } else {
        result.push(first);
    }
    assert(result@ =~= seq![upper(first)]);
    assert(text@.subrange(1, n as int) =~= text@.skip(1));
    result.concat(text.substring_char(1, n))
}

/// A text comes before another in the order of their characters' code points.
pub open spec fn precedes(a: Seq<char>, b: Seq<char>) -> bool
    decreases a.len(),
{
    if b.len() == 0 {
        false
    } else if a.len() == 0 {
        true
    } else if a[0] != b[0] {
        a[0] < b[0]
    } else {
        precedes(a.skip(1), b.skip(1))
    }
}

/// Of two texts one comes before the other, unless they are the same.
pub proof fn lemma_precedes_total(a: Seq<char>, b: Seq<char>)
    ensures
        precedes(a, b) || precedes(b, a) || a == b,
        precedes(a, b) ==> !precedes(b, a) && a != b,
    decreases a.len(),
{
    if a.len() > 0 && b.len() > 0 {
        lemma_precedes_total(a.skip(1), b.skip(1));
        if a[0] == b[0] && a.skip(1) == b.skip(1) {
            assert(a =~= seq![a[0]] + a.skip(1));
            assert(b =~= seq![b[0]] + b.skip(1));
        }
    } else if a.len() == 0 && b.len() == 0 {
        assert(a =~= b);
    }
}

/// A text that comes before one that comes before a third comes before the third.
pub proof fn lemma_precedes_transitive(a: Seq<char>, b: Seq<char>, c: Seq<char>)
    requires
        precedes(a, b),
        precedes(b, c),
    ensures
        precedes(a, c),
    decreases a.len(),
{
    if a.len() > 0 && a[0] == b[0] && b[0] == c[0] {
        lemma_precedes_transitive(a.skip(1), b.skip(1), c.skip(1));
    }
}

/// Whether a text comes before another.
pub(crate) fn comes_before(a: &str, b: &str) -> (yes: bool)
    ensures
        yes == precedes(a@, b@),
{
    let n: usize = a.unicode_len();
    let m: usize = b.unicode_len();
    let mut i: usize = 0;
    assert(a@.skip(0) =~= a@);
    assert(b@.skip(0) =~= b@);
    while i < n && i < m
        invariant
            n == a@.len(),
            m == b@.len(),
            0 <= i <= n,
            i <= m,
            precedes(a@, b@) == precedes(a@.skip(i as int), b@.skip(i as int)),
        decreases n - i,
    {
        let c = a.get_char(i);
        let d = b.get_char(i);
        if c != d {
            return c < d;
        }
        assert(a@.skip(i as int).skip(1) =~= a@.skip(i + 1));
        assert(b@.skip(i as int).skip(1) =~= b@.skip(i + 1));
        i = i + 1;
    }
    i < m
}

/// A text with a capital in front is as long as it was, and differs at most in its
/// first character. Where that is an ASCII letter in lower case, it is the letter
/// in upper case.
pub proof fn law_capital_in_front(text: Seq<char>)
    ensures
        capitalized(text).len() == text.len(),
        forall|i: int| 0 < i < text.len() ==> capitalized(text)[i] == text[i],
        text.len() > 0 && 'a' <= text[0] <= 'z' ==> capitalized(text)[0] as int + 32
            == text[0] as int,
        text.len() > 0 && !('a' <= text[0] <= 'z') ==> capitalized(text)[0] == text[0],
{
}

/// A text comes before another exactly where it is a beginning of it, or has the
/// lower character at the first place where the two differ.
pub proof fn law_order_of_texts(a: Seq<char>, b: Seq<char>)
    ensures
        precedes(a, b) <==> exists|k: int|
            {
                &&& 0 <= k <= a.len()
                &&& k < b.len()
                &&& #[trigger] a.take(k) == b.take(k)
                &&& k == a.len() || a[k] < b[k]
            },
    decreases a.len(),
{
    if b.len() == 0 {
    } else if a.len() == 0 {
        assert(a.take(0) =~= b.take(0));
    } else {
        let c = a.skip(1);
        let d = b.skip(1);
        law_order_of_texts(c, d);
        if precedes(a, b) {
            if a[0] != b[0] {
                assert(a.take(0) =~= b.take(0));
            } else {
                let k = choose|k: int|
                    {
                        &&& 0 <= k <= c.len()
                        &&& k < d.len()
                        &&& #[trigger] c.take(k) == d.take(k)
                        &&& k == c.len() || c[k] < d[k]
                    };
                assert forall|i: int| 0 <= i < k + 1 implies a[i] == b[i] by {
                    if i > 0 {
                        assert(c.take(k)[i - 1] == d.take(k)[i - 1]);
                    }
                }
                assert(a.take(k + 1) =~= b.take(k + 1));
            }
        }
        if exists|k: int|
            {
                &&& 0 <= k <= a.len()
                &&& k < b.len()
                &&& #[trigger] a.take(k) == b.take(k)
                &&& k == a.len() || a[k] < b[k]
            } {
            let k = choose|k: int|
                {
                    &&& 0 <= k <= a.len()
                    &&& k < b.len()
                    &&& #[trigger] a.take(k) == b.take(k)
                    &&& k == a.len() || a[k] < b[k]
                };
            if k > 0 {
                assert(a.take(k)[0] == b.take(k)[0]);
                assert forall|i: int| 0 <= i < k - 1 implies c[i] == d[i] by {
                    assert(a.take(k)[i + 1] == b.take(k)[i + 1]);
                }
                assert(c.take(k - 1) =~= d.take(k - 1));
            }
        }
    }
}

} // verus!
