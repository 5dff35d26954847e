//! The methods that turn a request body into a form.
use crate::distinct::{distinct, lemma_distinct};
use crate::document::{operations_of, Listed, OpenAPI, Operation, OperationRef};
use crate::multipart::{document_parts, form_parts, rows, FormPart, PartKind, Row};
use crate::template::{put, quote_text, quoted};
use crate::text::same_text;
use crate::tokens::{
    braces, empty_stream, ident, is_word, lex, parens, push_group, push_stream, push_string,
    read_tokens, readings, text_literal, tokens, Delimiter, Token,
};
use proc_macro2::TokenStream;
use vstd::prelude::*;
use vstd::string::*;

verus! {

/// A part of a form, ready to be sent.
#[derive(Debug, Clone)]
pub struct MultiPartParts {
    /// The name of the part.
    pub name: String,
    /// The content type of the part.
    pub content_type: String,
    /// Whether the part is sent as bytes.
    pub binary: bool,
}

impl MultiPartParts {
    /// A text part without a name or a content type.
    pub fn new() -> (part: Self)
        ensures
            part.name@ == Seq::<char>::empty(),
            part.content_type@ == Seq::<char>::empty(),
            !part.binary,
    {
        MultiPartParts { name: String::new(), content_type: String::new(), binary: false }
    }
}

/// The statements that add a part to a form; `code` is the name of the part as
/// code.
pub open spec fn part_tokens(
    name: Seq<char>,
    content_type: Seq<char>,
    binary: bool,
    code: Seq<Token>,
) -> Seq<Token> {
    quoted("let"@) + code + quoted("= reqwest::multipart::Part::"@) + (if binary {
        quoted("bytes"@)
    } else {
        quoted("text"@)
    }) + parens(quoted("self."@) + code + quoted(".clone()"@)) + quoted(".mime_str"@) + parens(
        text_literal(content_type),
    ) + quoted("? ; form = form.part"@) + parens(text_literal(name) + quoted(","@) + code)
        + quoted(";"@)
}

/// The statements that add a part to a form; `code` is the name of the part as
/// code.
pub fn part_code(part: &MultiPartParts, code: TokenStream) -> (stream: TokenStream)
    ensures
        tokens(stream) == part_tokens(
            part.name@,
            part.content_type@,
            part.binary,
            tokens(code),
        ),
{
    let mut stream = quote_text("let");
    push_stream(&mut stream, code.clone());
    put(&mut stream, "= reqwest::multipart::Part::");
    if part.binary {
        put(&mut stream, "bytes");
    } else {
        put(&mut stream, "text");
    }
    let mut value = quote_text("self.");
    push_stream(&mut value, code.clone());
    put(&mut value, ".clone()");
    push_group(&mut stream, Delimiter::Parenthesis, value);
    put(&mut stream, ".mime_str");
    let mut content_type = empty_stream();
    push_string(&mut content_type, part.content_type.as_str());
    assert(tokens(content_type) =~= text_literal(part.content_type@));
    push_group(&mut stream, Delimiter::Parenthesis, content_type);
    put(&mut stream, "? ; form = form.part");
    let mut entry = empty_stream();
    push_string(&mut entry, part.name.as_str());
    assert(tokens(entry) =~= text_literal(part.name@));
    put(&mut entry, ",");
    push_stream(&mut entry, code);
    push_group(&mut stream, Delimiter::Parenthesis, entry);
    put(&mut stream, ";");
    stream
}

/// The method of one body type; `name` is the name of the type as code, `parts`
/// the statements that add the parts.
pub open spec fn form_tokens(name: Seq<Token>, parts: Seq<Token>) -> Seq<Token> {
    quoted("impl"@) + name + braces(
        quoted(
            "pub fn into_multipart(self) -> Result<reqwest::multipart::Form, reqwest::Error>"@,
        ) + braces(
            quoted("let mut form = reqwest::multipart::Form::new();"@) + parts + quoted(
                "Ok(form)"@,
            ),
        ),
    )
}

/// The method of one body type; `name` is the name of the type as code, `parts`
/// the statements that add the parts.
pub fn form_code(name: TokenStream, parts: TokenStream) -> (stream: TokenStream)
    ensures
        tokens(stream) == form_tokens(tokens(name), tokens(parts)),
{
    let mut body = quote_text("let mut form = reqwest::multipart::Form::new();");
    push_stream(&mut body, parts);
    put(&mut body, "Ok(form)");
    let mut method = quote_text(
        "pub fn into_multipart(self) -> Result<reqwest::multipart::Form, reqwest::Error>",
    );
    push_group(&mut method, Delimiter::Brace, body);
    let mut stream = quote_text("impl");
    push_stream(&mut stream, name);
    push_group(&mut stream, Delimiter::Brace, method);
    stream
}

/// All that has to be known of a part is known: how it is sent and its content
/// type.
pub open spec fn complete_part(row: Row) -> bool {
    row.part.kind is Some && row.part.content_type is Some
}

/// All that has to be known of some parts is known.
pub open spec fn complete(all: Seq<Row>) -> bool {
    forall|i: int| 0 <= i < all.len() ==> complete_part(#[trigger] all[i])
}

/// The statements that add one part to its form; `code` is the name of the part
/// as code.
pub open spec fn row_tokens(row: Row, code: Seq<Token>) -> Seq<Token> {
    part_tokens(
        row.name,
        row.part.content_type.unwrap(),
        row.part.kind == Some(PartKind::Bytes),
        code,
    )
}

/// The statements that add the parts of one form; `codes` are the names of all
/// parts as code.
pub open spec fn parts_tokens(form: Seq<char>, all: Seq<Row>, codes: Seq<Seq<Token>>) -> Seq<Token>
    decreases all.len(),
{
    if all.len() == 0 {
        Seq::empty()
    } else {
        let earlier = parts_tokens(form, all.drop_last(), codes);
        if all.last().form == form {
            earlier + row_tokens(all.last(), codes[all.len() - 1])
        } else {
            earlier
        }
    }
}

/// The methods of some forms; `names` are the names of the forms as code, `codes`
/// those of all parts.
pub open spec fn forms_tokens(
    forms: Seq<Seq<char>>,
    names: Seq<Seq<Token>>,
    all: Seq<Row>,
    codes: Seq<Seq<Token>>,
) -> Seq<Token>
    decreases forms.len(),
{
    if forms.len() == 0 {
        Seq::empty()
    } else {
        forms_tokens(forms.drop_last(), names, all, codes) + form_tokens(
            names[forms.len() - 1],
            parts_tokens(forms.last(), all, codes),
        )
    }
}

/// The forms to which some parts belong, in the order of the parts.
pub open spec fn form_order(all: Seq<Row>) -> Seq<Seq<char>> {
    distinct(all.map_values(|r: Row| r.form))
}

/// The names of parts and of forms as code.
pub struct Names {
    /// The names of the parts.
    pub parts: Seq<Seq<Token>>,
    /// The names of the forms.
    pub forms: Seq<Seq<Token>>,
}

/// The methods of the forms to which some parts belong, in the order of the parts.
pub open spec fn multipart_tokens(all: Seq<Row>, names: Names) -> Seq<Token> {
    forms_tokens(form_order(all), names.forms, all, names.parts)
}

/// The part as it is sent.
fn resolve(part: &FormPart) -> (resolved: MultiPartParts)
    requires
        part.kind is Some,
        part.content_type is Some,
    ensures
        resolved.name@ == part@.name,
        resolved.content_type@ == part@.part.content_type.unwrap(),
        resolved.binary == (part.kind == Some(PartKind::Bytes)),
{
    let mut resolved = MultiPartParts::new();
    resolved.name = part.name.clone();
    if let Some(content_type) = &part.content_type {
        resolved.content_type = content_type.clone();
    }
    resolved.binary = match part.kind {
        Some(PartKind::Bytes) => true,
        _ => false,
    };
    resolved
}

/// The tokens of some streams.
pub open spec fn streams_tokens(streams: Seq<TokenStream>) -> Seq<Seq<Token>> {
    streams.map_values(|s: TokenStream| tokens(s))
}

/// The statements that add the parts of one form.
fn parts_code(form: &str, parts: &Vec<FormPart>, codes: &Vec<TokenStream>) -> (stream: TokenStream)
    requires
        complete(rows(parts@)),
        codes@.len() == parts@.len(),
    ensures
        tokens(stream) == parts_tokens(form@, rows(parts@), streams_tokens(codes@)),
{
    let ghost all = rows(parts@);
    let mut stream = empty_stream();
    let mut i: usize = 0;
    while i < parts.len()
        invariant
            0 <= i <= parts@.len(),
            codes@.len() == parts@.len(),
            all == rows(parts@),
            complete(all),
            tokens(stream) == parts_tokens(form@, all.take(i as int), streams_tokens(codes@)),
        decreases parts@.len() - i,
    {
        assert(all.take(i + 1).drop_last() =~= all.take(i as int));
        assert(complete_part(all[i as int]));
        assert(all[i as int] == parts@[i as int]@);
        if same_text(parts[i].form.as_str(), form) {
            let resolved = resolve(&parts[i]);
            push_stream(&mut stream, part_code(&resolved, codes[i].clone()));
        }
        i = i + 1;
    }
    assert(all.take(i as int) =~= all);
    stream
}

/// Whether a text is one of some texts.
fn is_among(texts: &Vec<String>, text: &str) -> (yes: bool)
    ensures
        yes == texts@.map_values(|t: String| t@).contains(text@),
{
    let ghost all = texts@.map_values(|t: String| t@);
    let mut i: usize = 0;
    while i < texts.len()
        invariant
            0 <= i <= texts@.len(),
            all == texts@.map_values(|t: String| t@),
            forall|k: int| 0 <= k < i ==> all[k] != text@,
        decreases texts@.len() - i,
    {
        if same_text(texts[i].as_str(), text) {
            assert(all[i as int] == text@);
            return true;
        }
        i = i + 1;
    }
    false
}

/// The names of the forms to which some parts belong, in the order of the parts.
fn form_names(parts: &Vec<FormPart>) -> (names: Vec<String>)
    ensures
        names@.map_values(|t: String| t@) == form_order(rows(parts@)),
{
    let ghost all = rows(parts@).map_values(|r: Row| r.form);
    let mut names: Vec<String> = Vec::new();
    let mut i: usize = 0;
    assert(names@.map_values(|t: String| t@) =~= distinct(all.take(0)));
    while i < parts.len()
        invariant
            0 <= i <= parts@.len(),
            all == rows(parts@).map_values(|r: Row| r.form),
            names@.map_values(|t: String| t@) == distinct(all.take(i as int)),
        decreases parts@.len() - i,
    {
        let ghost before = names@;
        assert(all.take(i + 1) =~= all.take(i as int).push(all[i as int]));
        assert(all.take(i + 1).drop_last() =~= all.take(i as int));
        if !is_among(&names, parts[i].form.as_str()) {
            let name = parts[i].form.clone();
            names.push(name);
            assert(names@.map_values(|t: String| t@) =~= before.map_values(|t: String| t@).push(
                name@,
            ));
        }
        i = i + 1;
    }
    assert(all.take(i as int) =~= all);
    names
}

/// The methods of the forms to which some parts belong; `codes` are the names of
/// the parts as code, `forms` those of the forms.
pub fn multipart_code(
    parts: &Vec<FormPart>,
    codes: &Vec<TokenStream>,
    forms: &Vec<TokenStream>,
) -> (stream: TokenStream)
    requires
        complete(rows(parts@)),
        codes@.len() == parts@.len(),
        forms@.len() == form_order(rows(parts@)).len(),
    ensures
        tokens(stream) == multipart_tokens(
            rows(parts@),
            (Names { parts: streams_tokens(codes@), forms: streams_tokens(forms@) }),
        ),
{
    let names = form_names(parts);
    let ghost all = rows(parts@);
    let ghost order = form_order(all);
    let mut stream = empty_stream();
    let mut i: usize = 0;
    while i < names.len()
        invariant
            0 <= i <= names@.len(),
            all == rows(parts@),
            complete(all),
            codes@.len() == parts@.len(),
            order == names@.map_values(|t: String| t@),
            forms@.len() == order.len(),
            tokens(stream) == forms_tokens(
                order.take(i as int),
                streams_tokens(forms@),
                all,
                streams_tokens(codes@),
            ),
        decreases names@.len() - i,
    {
        assert(order.take(i + 1).drop_last() =~= order.take(i as int));
        assert(order[i as int] == names@[i as int]@);
        let inner = parts_code(names[i].as_str(), parts, codes);
        push_stream(&mut stream, form_code(forms[i].clone(), inner));
        i = i + 1;
    }
    assert(order.take(i as int) =~= order);
    stream
}

/// What may come of reading a name.
pub open spec fn may_read(name: Seq<char>, read: Option<Seq<Token>>) -> bool {
    &&& readings(name).contains(read)
    &&& is_word(name) ==> read == Some(ident(name))
}

/// What may come of reading some names, all of which are read.
pub open spec fn may_read_all(names: Seq<Seq<char>>, read: Seq<Seq<Token>>) -> bool {
    &&& read.len() == names.len()
    &&& forall|i: int| 0 <= i < names.len() ==> may_read(#[trigger] names[i], Some(read[i]))
}

/// One of some names may be refused.
pub open spec fn may_refuse_one(names: Seq<Seq<char>>) -> bool {
    exists|i: int| 0 <= i < names.len() && may_read(#[trigger] names[i], None)
}

/// The names of some parts.
pub open spec fn part_order(all: Seq<Row>) -> Seq<Seq<char>> {
    all.map_values(|r: Row| r.name)
}

/// Reads some names as code, unless one of them is refused.
fn read_names(names: &Vec<String>) -> (read: Option<Vec<TokenStream>>)
    ensures
        match read {
            Some(read) => may_read_all(
                names@.map_values(|t: String| t@),
                streams_tokens(read@),
            ),
            None => may_refuse_one(names@.map_values(|t: String| t@)),
        },
{
    let ghost all = names@.map_values(|t: String| t@);
    let mut read: Vec<TokenStream> = Vec::new();
    let mut i: usize = 0;
    while i < names.len()
        invariant
            0 <= i <= names@.len(),
            all == names@.map_values(|t: String| t@),
            read@.len() == i,
            forall|k: int|
                0 <= k < i ==> may_read(#[trigger] all[k], Some(streams_tokens(read@)[k])),
        decreases names@.len() - i,
    {
        let ghost before = streams_tokens(read@);
        assert(all[i as int] == names@[i as int]@);
        match lex(names[i].as_str()) {
            Some(stream) => {
                read.push(stream);
                assert(streams_tokens(read@) =~= before.push(tokens(stream)));
            },
            None => {
                assert(may_read(all[i as int], None));
                return None;
            },
        }
        i = i + 1;
    }
    Some(read)
}

/// The names of some parts.
fn part_names(parts: &Vec<FormPart>) -> (names: Vec<String>)
    ensures
        names@.map_values(|t: String| t@) == part_order(rows(parts@)),
{
    let mut names: Vec<String> = Vec::new();
    let mut i: usize = 0;
    while i < parts.len()
        invariant
            0 <= i <= parts@.len(),
            names@.map_values(|t: String| t@) =~= part_order(rows(parts@)).take(i as int),
        decreases parts@.len() - i,
    {
        let ghost before = names@.map_values(|t: String| t@);
        let name = parts[i].name.clone();
        names.push(name);
        assert(names@.map_values(|t: String| t@) =~= before.push(name@));
        i = i + 1;
    }
    names
}

/// The identifier of every operation with a request body begins with an ASCII
/// character, which can be made a capital by itself.
pub open spec fn names_can_be_capitalized(operations: Seq<Listed>) -> bool {
    forall|i: int| 0 <= i < operations.len() ==> name_can_be_capitalized(#[trigger] operations[i])
}

/// The identifier of an operation, where it has one and a request body, begins
/// with an ASCII character or is empty.
pub open spec fn name_can_be_capitalized(listed: Listed) -> bool {
    listed.operation.request_body is Some ==> match listed.operation.operation_id {
        Some(id) => id@.len() > 0 ==> id@[0] as u32 <= 0x7f,
        None => true,
    }
}

/// The forms of a document can be rendered, once their names have been read.
pub open spec fn multipart_ready(spec: OpenAPI) -> bool {
    &&& names_can_be_capitalized(operations_of(spec.paths@))
    &&& complete(document_parts(spec))
}

/// What may come of rendering the forms of a document: their methods, or nothing
/// where one of their names is refused.
pub open spec fn may_render(spec: OpenAPI, rendered: Option<Seq<Token>>) -> bool {
    let all = document_parts(spec);
    match rendered {
        Some(methods) => exists|names: Names|
            {
                &&& may_read_all(part_order(all), names.parts)
                &&& may_read_all(form_order(all), names.forms)
                &&& methods == #[trigger] multipart_tokens(all, names)
            },
        None => may_refuse_one(part_order(all)) || may_refuse_one(form_order(all)),
    }
}

/// Whether all that has to be known of some parts is known.
fn are_complete(parts: &Vec<FormPart>) -> (yes: bool)
    ensures
        yes == complete(rows(parts@)),
{
    let ghost all = rows(parts@);
    let mut i: usize = 0;
    while i < parts.len()
        invariant
            0 <= i <= parts@.len(),
            all == rows(parts@),
            forall|k: int| 0 <= k < i ==> complete_part(#[trigger] all[k]),
        decreases parts@.len() - i,
    {
        let part = &parts[i];
        assert(all[i as int] == part@);
        if !(part.kind.is_some() && part.content_type.is_some()) {
            assert(!complete_part(all[i as int]));
            return false;
        }
        i = i + 1;
    }
    true
}

/// Whether the identifier of an operation begins with an ASCII character or is
/// empty, where that matters.
fn can_be_capitalized(operation: &Operation) -> (yes: bool)
    ensures
        forall|listed: Listed| #[trigger]
            name_can_be_capitalized(listed) == yes || listed.operation != *operation,
{
    match (&operation.request_body, &operation.operation_id) {
        (Some(_), Some(id)) => {
            id.as_str().is_empty() || (id.as_str().get_char(0) as u32) <= 0x7f
        },
        _ => true,
    }
}

/// Whether every name of a body type in a document can be given its capital.
fn can_all_be_capitalized(spec: &OpenAPI) -> (yes: bool)
    ensures
        yes == names_can_be_capitalized(operations_of(spec.paths@)),
{
    let operations = spec.operations();
    let ghost listed = operations_of(spec.paths@);
    let mut i: usize = 0;
    while i < operations.len()
        invariant
            0 <= i <= operations@.len(),
            listed == operations_of(spec.paths@),
            listed == operations@.map_values(|r: OperationRef<'_>| r@),
            forall|k: int| 0 <= k < i ==> name_can_be_capitalized(#[trigger] listed[k]),
        decreases operations@.len() - i,
    {
        assert(listed[i as int] == operations@[i as int]@);
        if !can_be_capitalized(operations[i].operation) {
            assert(!name_can_be_capitalized(listed[i as int]));
            return false;
        }
        assert(name_can_be_capitalized(listed[i as int]));
        i = i + 1;
    }
    true
}

/// Whether the forms of a document can be rendered, once their names have been
/// read.
pub fn is_multipart_ready(spec: &OpenAPI) -> (yes: bool)
    ensures
        yes == multipart_ready(*spec),
{
    let parts = form_parts(spec);
    can_all_be_capitalized(spec) && are_complete(&parts)
}

/// The methods that turn the request bodies of a document into forms, unless one
/// of their names cannot be read as code.
pub fn process_multipart_form(spec: &OpenAPI) -> (result: Option<TokenStream>)
    requires
        multipart_ready(*spec),
    ensures
        may_render(*spec, read_tokens(result)),
{
    let parts = form_parts(spec);
    let codes = match read_names(&part_names(&parts)) {
        Some(codes) => codes,
        None => {
            return None;
        },
    };
    let forms = match read_names(&form_names(&parts)) {
        Some(forms) => forms,
        None => {
            return None;
        },
    };
    let stream = multipart_code(&parts, &codes, &forms);
    let ghost names = Names { parts: streams_tokens(codes@), forms: streams_tokens(forms@) };
    assert(tokens(stream) == multipart_tokens(document_parts(*spec), names));
    Some(stream)
}

/// Where the names of parts and forms are ASCII identifiers, it is certain what
/// comes of rendering: the methods, with each name as the identifier that it is.
pub proof fn law_words_are_read(spec: OpenAPI, rendered: Option<Seq<Token>>)
    requires
        may_render(spec, rendered),
        forall|i: int|
            0 <= i < document_parts(spec).len() ==> is_word(
                (#[trigger] document_parts(spec)[i]).name,
            ) && is_word(document_parts(spec)[i].form),
    ensures
        rendered == Some(
            multipart_tokens(
                document_parts(spec),
                (Names {
                    parts: part_order(document_parts(spec)).map_values(|w: Seq<char>| ident(w)),
                    forms: form_order(document_parts(spec)).map_values(|w: Seq<char>| ident(w)),
                }),
            ),
        ),
{
    let all = document_parts(spec);
    let sure = Names {
        parts: part_order(all).map_values(|w: Seq<char>| ident(w)),
        forms: form_order(all).map_values(|w: Seq<char>| ident(w)),
    };
    law_forms_rendered_once(all);
    assert forall|i: int| 0 <= i < part_order(all).len() implies is_word(
        #[trigger] part_order(all)[i],
    ) by {
        assert(is_word(all[i].name));
    }
    assert forall|k: int| 0 <= k < form_order(all).len() implies is_word(
        #[trigger] form_order(all)[k],
    ) by {
        let i = choose|i: int|
            0 <= i < all.len() && (#[trigger] all[i]).form == form_order(all)[k];
        assert(is_word(all[i].name) && is_word(all[i].form));
    }
    match rendered {
        Some(methods) => {
            let names = choose|names: Names|
                {
                    &&& may_read_all(part_order(all), names.parts)
                    &&& may_read_all(form_order(all), names.forms)
                    &&& methods == #[trigger] multipart_tokens(all, names)
                };
            assert(names.parts =~= sure.parts) by {
                assert forall|i: int| 0 <= i < part_order(all).len() implies names.parts[i]
                    == #[trigger] sure.parts[i] by {
                    assert(may_read(part_order(all)[i], Some(names.parts[i])));
                }
            }
            assert(names.forms =~= sure.forms) by {
                assert forall|i: int| 0 <= i < form_order(all).len() implies names.forms[i]
                    == #[trigger] sure.forms[i] by {
                    assert(may_read(form_order(all)[i], Some(names.forms[i])));
                }
            }
        },
        None => {},
    }
}

/// Every form that has a part gets a method, once.
pub proof fn law_forms_rendered_once(all: Seq<Row>)
    ensures
        form_order(all).no_duplicates(),
        forall|i: int|
            0 <= i < all.len() ==> form_order(all).contains((#[trigger] all[i]).form),
        forall|k: int|
            0 <= k < form_order(all).len() ==> exists|i: int|
                0 <= i < all.len() && (#[trigger] all[i]).form == #[trigger] form_order(all)[k],
{
    let forms = all.map_values(|r: Row| r.form);
    lemma_distinct(forms);
    assert forall|i: int| 0 <= i < all.len() implies form_order(all).contains(
        (#[trigger] all[i]).form,
    ) by {
        assert(forms[i] == all[i].form);
        assert(forms.contains(all[i].form));
    }
    assert forall|k: int| 0 <= k < form_order(all).len() implies exists|i: int|
        0 <= i < all.len() && (#[trigger] all[i]).form == #[trigger] form_order(all)[k] by {
        assert(form_order(all).contains(form_order(all)[k]));
        let i = choose|i: int| 0 <= i < forms.len() && forms[i] == form_order(all)[k];
        assert(all[i].form == form_order(all)[k]);
    }
}

} // verus!
