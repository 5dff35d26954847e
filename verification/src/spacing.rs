//! Blank lines between the items of generated code.
use crate::error::Error;
use vstd::prelude::*;

verus! {

/// The end of an item and the line after it, as a regular expression, where
/// lines end with a line feed.
pub open spec fn item_end() -> Seq<char> {
    r"(\n\s{0,8}})(\n\s{0,8}[^} ])"@
}

/// The end of an item and the line after it, as a regular expression, where
/// lines end with a carriage return and a line feed.
pub open spec fn item_end_windows() -> Seq<char> {
    r"(\n\s{0,8}})(\r\n\s{0,8}[^} ])"@
}

/// What ends a line.
pub open spec fn line_end(windows: bool) -> Seq<char> {
    if windows {
        "\r\n"@
    } else {
        "\n"@
    }
}

/// What ends a line on the system on which paths have the given separator: a
/// backslash is that of Windows.
pub open spec fn line_end_with(separator: char) -> Seq<char> {
    line_end(separator == '\\')
}

/// White space.
pub open spec fn is_white(c: char) -> bool {
    let code = c as u32;
    ||| 0x09 <= code <= 0x0d
    ||| code == 0x20
    ||| code == 0x85
    ||| code == 0xa0
    ||| code == 0x1680
    ||| 0x2000 <= code <= 0x200a
    ||| code == 0x2028
    ||| code == 0x2029
    ||| code == 0x202f
    ||| code == 0x205f
    ||| code == 0x3000
}

/// There is nothing but white space from one place in a text to another.
pub open spec fn all_white(text: Seq<char>, from: int, to: int) -> bool {
    forall|i: int| from <= i < to ==> is_white(#[trigger] text[i])
}

/// The end of an item.
pub struct ItemEnd {
    /// The place behind the closing brace.
    pub place: int,
    /// The place behind what shows that another item follows.
    pub end: int,
}

/// A closing brace stands before a place, and is the first thing in its line, at
/// two levels of indentation or fewer. The line end before it stands at or after
/// `from`.
pub open spec fn brace_before(text: Seq<char>, from: int, place: int) -> bool {
    &&& from <= place - 2
    &&& place <= text.len()
    &&& text[place - 1] == '}'
    &&& exists|start: int|
        {
            &&& from <= start < place - 1
            &&& place - 2 - start <= 8
            &&& #[trigger] text[start] == '\n'
            &&& all_white(text, start + 1, place - 1)
        }
}

/// At most eight characters of white space stand between two places, and then
/// something that is neither a closing brace nor a space.
pub open spec fn goes_on(text: Seq<char>, next: int, last: int) -> bool {
    &&& next <= last <= next + 8
    &&& last < text.len()
    &&& all_white(text, next, last)
    &&& text[last] != '}'
    &&& text[last] != ' '
}

/// An item ends in a line that begins at or after `from`, and the next line goes
/// on with something else. Where it can be said in several ways what it goes on
/// with, it is what comes last.
pub open spec fn ends_item(
    text: Seq<char>,
    from: int,
    found: ItemEnd,
    newline: Seq<char>,
) -> bool {
    let next = found.place + newline.len();
    &&& brace_before(text, from, found.place)
    &&& next <= text.len()
    &&& text.subrange(found.place, next) == newline
    &&& goes_on(text, next, found.end - 1)
    &&& forall|last: int| #[trigger] goes_on(text, next, last) ==> last <= found.end - 1
}

/// Where the search for the end of an item goes on when some have been found.
pub open spec fn searched(found: Seq<ItemEnd>, n: int) -> int {
    if n == 0 {
        0
    } else {
        found[n - 1].end
    }
}

/// The ends of items in a text, each the first behind the one before it.
pub open spec fn item_ends(text: Seq<char>, found: Seq<ItemEnd>, newline: Seq<char>) -> bool {
    &&& forall|i: int|
        0 <= i < found.len() ==> #[trigger] ends_item(
            text,
            searched(found, i),
            found[i],
            newline,
        )
    &&& forall|i: int, other: ItemEnd|
        0 <= i < found.len() && #[trigger] ends_item(text, searched(found, i), other, newline)
            ==> found[i].place <= other.place
    &&& forall|other: ItemEnd|
        !#[trigger] ends_item(text, searched(found, found.len() as int), other, newline)
}

/// A text with an insertion at the ends of some items.
pub open spec fn opened(text: Seq<char>, found: Seq<ItemEnd>, insertion: Seq<char>) -> Seq<char>
    decreases found.len(),
{
    if found.len() == 0 {
        text
    } else {
        let place = found.last().place;
        opened(text.take(place), found.drop_last(), insertion) + insertion + text.skip(place)
    }
}

/// A text is another with one more line end at the ends of its items.
pub open spec fn spaced_out(text: Seq<char>, result: Seq<char>, newline: Seq<char>) -> bool {
    exists|found: Seq<ItemEnd>| #[trigger]
        item_ends(text, found, newline) && result == opened(text, found, newline)
}

/// `regex::Regex::new`, then `Regex::replace_all`: the text with each match of
/// the expression replaced; nothing where the expression is refused. The two
/// expressions for the ends of items are accepted. A match of one of them is the
/// end of an item: it is the leftmost behind the match before it, and its
/// repetitions take as much as they can. A replacement that puts a line end
/// between the two groups leaves the text as it is but for these line ends. Of
/// other expressions and replacements nothing is said.
#[verifier::external_body]
fn replace_all(pattern: &str, text: &str, replacement: &str) -> (result: Option<String>)
    ensures
        match result {
            Some(replaced) => {
                &&& pattern@ == item_end() && replacement@ == "$1\n$2"@ ==> spaced_out(
                    text@,
                    replaced@,
                    line_end(false),
                )
                &&& pattern@ == item_end_windows() && replacement@ == "$1\r\n$2"@ ==> spaced_out(
                    text@,
                    replaced@,
                    line_end(true),
                )
            },
            None => pattern@ != item_end() && pattern@ != item_end_windows(),
        },
{
    match regex::Regex::new(pattern) {
        Ok(regex) => Some(regex.replace_all(text, replacement).to_string()),
        Err(_) => None,
    }
}

/// What separates the parts of a path on the machine for which this code is
/// compiled. Which character that is is not said, only that it is always the same.
pub closed spec fn target_separator() -> char {
    arbitrary()
}

/// `std::path::MAIN_SEPARATOR`: a constant of the machine for which this code is
/// compiled.
#[verifier::external_body]
fn path_separator() -> (separator: char)
    ensures
        separator == target_separator(),
{
    std::path::MAIN_SEPARATOR
}

/// Add newlines after end-braces at <= two levels of indentation, with the line
/// ends of Windows or those of other systems.
pub fn space_out_lines(content: &str, windows: bool) -> (result: String)
    ensures
        spaced_out(content@, result@, line_end(windows)),
{
    let replaced = if windows {
        replace_all(r"(\n\s{0,8}})(\r\n\s{0,8}[^} ])", content, "$1\r\n$2")
    } else {
        replace_all(r"(\n\s{0,8}})(\n\s{0,8}[^} ])", content, "$1\n$2")
    };
    replaced.unwrap()
}

/// Add newlines after end-braces at <= two levels of indentation, with the line
/// ends of the system on which paths have the given separator: a backslash is
/// that of Windows.
pub fn space_out_for(content: &str, separator: char) -> (result: String)
    ensures
        spaced_out(content@, result@, line_end_with(separator)),
{
    space_out_lines(content, separator == '\\')
}

/// Add newlines after end-braces at <= two levels of indentation. Lines end as
/// on Windows where the machine for which this code is compiled separates the
/// parts of a path with a backslash.
pub fn space_out_items(content: String) -> (result: Result<String, Error>)
    ensures
        result matches Ok(text) && spaced_out(
            content@,
            text@,
            line_end_with(target_separator()),
        ),
{
    Ok(space_out_for(content.as_str(), path_separator()))
}

/// The text with its lines run together.
pub open spec fn run_together(text: Seq<char>) -> Seq<char> {
    text.filter(|c: char| c != '\n' && c != '\r')
}

/// A line end is not empty, and nothing else.
proof fn lemma_line_end(windows: bool)
    ensures
        line_end(windows).len() > 0,
        run_together(line_end(windows)) == Seq::<char>::empty(),
{
    reveal_strlit("\n");
    reveal_strlit("\r\n");
    reveal_with_fuel(Seq::filter, 4);
    assert(run_together(line_end(windows)) =~= Seq::empty());
}

/// The ends of items come one after the other.
proof fn lemma_ascending(text: Seq<char>, found: Seq<ItemEnd>, newline: Seq<char>, n: int)
    requires
        item_ends(text, found, newline),
        0 <= n <= found.len(),
    ensures
        0 <= searched(found, n),
        forall|i: int| 0 <= i < n ==> (#[trigger] found[i]).place < searched(found, n),
        forall|i: int, j: int|
            0 <= i < j < n ==> (#[trigger] found[i]).place < (#[trigger] found[j]).place,
    decreases n,
{
    if n > 0 {
        lemma_ascending(text, found, newline, n - 1);
        assert(ends_item(text, searched(found, n - 1), found[n - 1], newline));
    }
}

/// Inserting line ends leaves the text as it is when its lines are run together.
proof fn lemma_opened(text: Seq<char>, found: Seq<ItemEnd>, insertion: Seq<char>)
    requires
        forall|i: int, j: int|
            0 <= i < j < found.len() ==> (#[trigger] found[i]).place < (#[trigger] found[j]).place,
        forall|i: int| 0 <= i < found.len() ==> 0 <= (#[trigger] found[i]).place <= text.len(),
        run_together(insertion) == Seq::<char>::empty(),
    ensures
        run_together(opened(text, found, insertion)) == run_together(text),
        opened(text, found, insertion).len() == text.len() + found.len() * insertion.len(),
    decreases found.len(),
{
    let n = insertion.len();
    if found.len() > 0 {
        let place = found.last().place;
        let kept = |c: char| c != '\n' && c != '\r';
        let start = opened(text.take(place), found.drop_last(), insertion);
        lemma_opened(text.take(place), found.drop_last(), insertion);
        Seq::filter_distributes_over_add(start, insertion, kept);
        Seq::filter_distributes_over_add(start + insertion, text.skip(place), kept);
        Seq::filter_distributes_over_add(text.take(place), text.skip(place), kept);
        assert(text.take(place) + text.skip(place) =~= text);
        assert(run_together(start) + Seq::<char>::empty() =~= run_together(start));
        assert(found.len() * n == (found.len() - 1) * n + n) by (nonlinear_arith);
    } else {
        assert(0 * n == 0) by (nonlinear_arith);
    }
}

/// Spacing out a text only adds line ends: with its lines run together the text
/// stays as it is, and one line end is added for each item that ends in it.
pub proof fn law_spacing_adds_line_ends(
    text: Seq<char>,
    result: Seq<char>,
    windows: bool,
    found: Seq<ItemEnd>,
)
    requires
        item_ends(text, found, line_end(windows)),
        result == opened(text, found, line_end(windows)),
    ensures
        run_together(result) == run_together(text),
        result.len() == text.len() + found.len() * line_end(windows).len(),
{
    let newline = line_end(windows);
    lemma_line_end(windows);
    lemma_ascending(text, found, newline, found.len() as int);
    assert forall|i: int| 0 <= i < found.len() implies 0 <= (#[trigger] found[i]).place
        <= text.len() by {
        assert(ends_item(text, searched(found, i), found[i], newline));
        lemma_ascending(text, found, newline, i);
    }
    lemma_opened(text, found, newline);
}

/// A text stays as it is exactly where no item ends in it.
pub proof fn law_nothing_to_space_out(text: Seq<char>, result: Seq<char>, windows: bool)
    requires
        spaced_out(text, result, line_end(windows)),
    ensures
        result == text <==> forall|found: ItemEnd|
            !#[trigger] ends_item(text, 0, found, line_end(windows)),
{
    let newline = line_end(windows);
    let found = choose|found: Seq<ItemEnd>| #[trigger]
        item_ends(text, found, newline) && result == opened(text, found, newline);
    lemma_line_end(windows);
    law_spacing_adds_line_ends(text, result, windows, found);
    if found.len() > 0 {
        assert(ends_item(text, searched(found, 0), found[0], newline));
        let n = found.len();
        let m = newline.len();
        assert(n * m > 0) by (nonlinear_arith)
            requires
                n > 0,
                m > 0,
        ;
    } else {
        assert forall|other: ItemEnd| !#[trigger] ends_item(text, 0, other, newline) by {
            assert(!ends_item(text, searched(found, 0), other, newline));
        }
    }
}

/// The ends of items are the same, as far as two lists of them go.
proof fn lemma_same_ends(
    text: Seq<char>,
    one: Seq<ItemEnd>,
    other: Seq<ItemEnd>,
    newline: Seq<char>,
    n: int,
)
    requires
        item_ends(text, one, newline),
        item_ends(text, other, newline),
        0 <= n <= one.len(),
        n <= other.len(),
    ensures
        forall|i: int| 0 <= i < n ==> #[trigger] one[i] == other[i],
        searched(one, n) == searched(other, n),
    decreases n,
{
    if n > 0 {
        lemma_same_ends(text, one, other, newline, n - 1);
        let a = one[n - 1];
        let b = other[n - 1];
        assert(ends_item(text, searched(one, n - 1), a, newline));
        assert(ends_item(text, searched(other, n - 1), b, newline));
        assert(a.place == b.place);
        let next = a.place + newline.len();
        assert(goes_on(text, next, a.end - 1));
        assert(goes_on(text, next, b.end - 1));
        assert(a.end == b.end);
    }
}

/// There is one way only to space out a text.
pub proof fn law_spacing_is_determined(
    text: Seq<char>,
    one: Seq<char>,
    other: Seq<char>,
    windows: bool,
)
    requires
        spaced_out(text, one, line_end(windows)),
        spaced_out(text, other, line_end(windows)),
    ensures
        one == other,
{
    let newline = line_end(windows);
    let a = choose|found: Seq<ItemEnd>| #[trigger]
        item_ends(text, found, newline) && one == opened(text, found, newline);
    let b = choose|found: Seq<ItemEnd>| #[trigger]
        item_ends(text, found, newline) && other == opened(text, found, newline);
    let n: int = if a.len() <= b.len() {
        a.len() as int
    } else {
        b.len() as int
    };
    lemma_same_ends(text, a, b, newline, n);
    if n < a.len() {
        assert(ends_item(text, searched(a, n), a[n], newline));
        assert(!ends_item(text, searched(b, n), a[n], newline));
    }
    if n < b.len() {
        assert(ends_item(text, searched(b, n), b[n], newline));
        assert(!ends_item(text, searched(a, n), b[n], newline));
    }
    assert(a =~= b);
}

/// Lines end with a carriage return and a line feed where paths are separated by a
/// backslash, and with a line feed alone where they are not.
pub proof fn law_line_ends(separator: char)
    ensures
        separator == '\\' ==> line_end_with(separator) == seq!['\r', '\n'],
        separator != '\\' ==> line_end_with(separator) == seq!['\n'],
{
    reveal_strlit("\n");
    reveal_strlit("\r\n");
    assert("\n"@ =~= seq!['\n']);
    assert("\r\n"@ =~= seq!['\r', '\n']);
}

/// All texts are spaced out with the same line end: which one it is rests on the
/// machine alone, not on the text.
pub proof fn law_one_line_end_for_all_texts()
    ensures
        exists|newline: Seq<char>|
            {
                &&& newline == seq!['\n'] || newline == seq!['\r', '\n']
                &&& #[trigger] always_spaced_with(newline)
            },
{
    law_line_ends(target_separator());
    assert(always_spaced_with(line_end_with(target_separator())));
}

/// What is spaced out for the machine for which this code is compiled is spaced out
/// with a given line end, whatever the text.
pub open spec fn always_spaced_with(newline: Seq<char>) -> bool {
    forall|text: Seq<char>, result: Seq<char>| #[trigger]
        spaced_out(text, result, line_end_with(target_separator())) <==> spaced_out(
            text,
            result,
            newline,
        )
}

/// What counts as white space among the ASCII characters: the space, and the
/// characters from the tabulator to the carriage return.
pub proof fn law_white_space(c: char)
    requires
        (c as u32) < 128,
    ensures
        is_white(c) <==> c == ' ' || '\t' <= c <= '\r',
{
}

/// A line end is put only behind a closing brace that stands in its line behind at
/// most eight characters, all of them white space, and only where the line ends
/// there and the next begins with at most eight such characters and then something
/// that is neither a closing brace nor a space.
pub proof fn law_only_shallow_items_are_spaced(
    text: Seq<char>,
    found: Seq<ItemEnd>,
    newline: Seq<char>,
    i: int,
)
    requires
        item_ends(text, found, newline),
        0 <= i < found.len(),
    ensures
        ({
            let place = found[i].place;
            &&& exists|start: int|
                {
                    &&& 0 <= start < place - 1 <= start + 9
                    &&& place <= text.len()
                    &&& #[trigger] text[start] == '\n'
                    &&& forall|k: int| start < k < place - 1 ==> is_white(#[trigger] text[k])
                }
            &&& text[place - 1] == '}'
            &&& forall|k: int|
                0 <= k < newline.len() ==> text[place + k] == #[trigger] newline[k]
            &&& exists|last: int|
                {
                    let next = place + newline.len();
                    &&& next <= last <= next + 8
                    &&& last < text.len()
                    &&& #[trigger] text[last] != '}'
                    &&& text[last] != ' '
                    &&& forall|k: int| next <= k < last ==> is_white(#[trigger] text[k])
                }
        }),
{
    let place = found[i].place;
    let next = place + newline.len();
    lemma_ascending(text, found, newline, i);
    assert(ends_item(text, searched(found, i), found[i], newline));
    assert(brace_before(text, searched(found, i), place));
    let start = choose|start: int|
        {
            &&& searched(found, i) <= start < place - 1
            &&& place - 2 - start <= 8
            &&& #[trigger] text[start] == '\n'
            &&& all_white(text, start + 1, place - 1)
        };
    assert(text[start] == '\n');
    assert forall|k: int| 0 <= k < newline.len() implies text[place + k]
        == #[trigger] newline[k] by {
        assert(text.subrange(place, next)[k] == newline[k]);
    }
    let last = found[i].end - 1;
    assert(goes_on(text, next, last));
    assert(text[last] != '}');
}

/// Where a line can go on, it goes on with what comes last.
proof fn lemma_goes_on(text: Seq<char>, next: int, last: int) -> (end: int)
    requires
        goes_on(text, next, last),
    ensures
        goes_on(text, next, end),
        forall|other: int| #[trigger] goes_on(text, next, other) ==> other <= end,
    decreases next + 8 - last,
{
    if exists|other: int| #[trigger] goes_on(text, next, other) && other > last {
        let other = choose|other: int| #[trigger] goes_on(text, next, other) && other > last;
        lemma_goes_on(text, next, other)
    } else {
        last
    }
}

/// Every closing brace that stands at two levels of indentation or fewer, and is
/// followed by a line at two levels or fewer that begins with anything else, gets its
/// line end, unless what comes right before it was taken for what follows an earlier
/// one.
pub proof fn law_every_shallow_item_is_spaced(
    text: Seq<char>,
    found: Seq<ItemEnd>,
    newline: Seq<char>,
    start: int,
    place: int,
    last: int,
)
    requires
        item_ends(text, found, newline),
        0 <= start < place - 1 <= start + 9,
        text[start] == '\n',
        forall|k: int| start < k < place - 1 ==> #[trigger] text[k] == ' ',
        text[place - 1] == '}',
        place + newline.len() <= last <= place + newline.len() + 8,
        last < text.len(),
        forall|k: int| 0 <= k < newline.len() ==> text[place + k] == #[trigger] newline[k],
        forall|k: int| place + newline.len() <= k < last ==> #[trigger] text[k] == ' ',
        text[last] != '}',
        text[last] != ' ',
    ensures
        exists|i: int|
            {
                &&& 0 <= i < found.len()
                &&& (#[trigger] found[i]).place <= place
                &&& start < found[i].end
            },
{
    let next = place + newline.len();
    assert(text.subrange(place, next) =~= newline);
    assert(goes_on(text, next, last));
    let end = lemma_goes_on(text, next, last);
    let item = ItemEnd { place, end: end + 1 };
    lemma_found(text, found, newline, start, item, found.len() as int);
}

/// An item whose line begins at or after some of the ends that were found comes at or
/// after the next of them.
proof fn lemma_found(
    text: Seq<char>,
    found: Seq<ItemEnd>,
    newline: Seq<char>,
    start: int,
    item: ItemEnd,
    n: int,
)
    requires
        item_ends(text, found, newline),
        0 <= n <= found.len(),
        0 <= start < item.place - 1 <= start + 9,
        text[start] == '\n',
        forall|k: int| start < k < item.place - 1 ==> #[trigger] text[k] == ' ',
        text[item.place - 1] == '}',
        item.place + newline.len() <= text.len(),
        text.subrange(item.place, item.place + newline.len()) == newline,
        goes_on(text, item.place + newline.len(), item.end - 1),
        forall|other: int| #[trigger]
            goes_on(text, item.place + newline.len(), other) ==> other <= item.end - 1,
        n < found.len() ==> start < found[n].end,
    ensures
        exists|i: int|
            {
                &&& 0 <= i < found.len()
                &&& (#[trigger] found[i]).place <= item.place
                &&& start < found[i].end
            },
    decreases n,
{
    assert(all_white(text, start + 1, item.place - 1));
    if searched(found, n) <= start {
        assert(brace_before(text, searched(found, n), item.place));
        assert(ends_item(text, searched(found, n), item, newline));
        assert(n < found.len());
        assert(found[n].place <= item.place);
    } else {
        assert(n > 0);
        lemma_found(text, found, newline, start, item, n - 1);
    }
}

/// The end of an item is a brace at the beginning of a line, behind at most eight
/// characters of white space, and then a line that begins, behind as many, with
/// something that is neither a brace nor a space. The expression for Windows differs in
/// the carriage return that ends the line of the brace.
pub proof fn law_expressions()
    ensures
        item_end() == r"(\n\s{0,8}})(\n\s{0,8}[^} ])"@,
        item_end_windows().len() == item_end().len() + 2,
        item_end_windows().take(13) == item_end().take(13),
        item_end_windows().subrange(13, 15) == seq!['\\', 'r'],
        item_end_windows().skip(15) == item_end().skip(13),
{
    reveal_strlit(r"(\n\s{0,8}})(\n\s{0,8}[^} ])");
    reveal_strlit(r"(\n\s{0,8}})(\r\n\s{0,8}[^} ])");
    assert(item_end_windows().take(13) =~= item_end().take(13));
    assert(item_end_windows().subrange(13, 15) =~= seq!['\\', 'r']);
    assert(item_end_windows().skip(15) =~= item_end().skip(13));
}

} // verus!
