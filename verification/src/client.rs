//! The code of a client.
use crate::document::Info;
use crate::settings::optional_tokens;
use crate::template::{put, quote_text, quoted};
use crate::tokens::{
    braces, brackets, empty_stream, is_raw, number_literal, parens, push_group, push_number,
    push_raw_string, push_stream, push_string, raw_literal, text_literal, tokens, Delimiter, Token,
};
use proc_macro2::TokenStream;
use vstd::prelude::*;
use vstd::string::*;

verus! {

/// A line of documentation: a raw string, where it can be one.
pub open spec fn doc_tokens(text: Seq<char>) -> Seq<Token> {
    doc_attribute(
        if is_raw(text) {
            raw_literal(text)
        } else {
            text_literal(text)
        },
    )
}

/// The attribute that holds documentation.
pub open spec fn doc_attribute(literal: Seq<Token>) -> Seq<Token> {
    quoted("#"@) + brackets(quoted("doc ="@) + literal)
}

/// Whether a text can stand in a raw string literal.
fn can_be_raw(text: &str) -> (yes: bool)
    ensures
        yes == is_raw(text@),
{
    let n: usize = text.unicode_len();
    let mut i: usize = 0;
    while i < n
        invariant
            n == text@.len(),
            0 <= i <= n,
            forall|k: int| 0 <= k < i ==> #[trigger] text@[k] != '"' && text@[k] != '\r',
        decreases n - i,
    {
        let c = text.get_char(i);
        if c == '"' || c == '\r' {
            return false;
        }
        i = i + 1;
    }
    true
}

/// A line of documentation.
fn doc(text: &str) -> (stream: TokenStream)
    ensures
        tokens(stream) == doc_tokens(text@),
{
    let mut content = quote_text("doc =");
    if can_be_raw(text) {
        push_raw_string(&mut content, text);
    } else {
        push_string(&mut content, text);
    }
    let mut stream = quote_text("#");
    push_group(&mut stream, Delimiter::Bracket, content);
    stream
}

/// Puts a line of documentation at the end of a stream.
fn put_doc(stream: &mut TokenStream, text: &str)
    ensures
        tokens(*final(stream)) == tokens(*old(stream)) + doc_tokens(text@),
{
    push_stream(stream, doc(text));
}

/// What the documentation of a client says: its title, its description and
/// terms of service where there are any, and its version.
pub open spec fn docstring(info: Info) -> Seq<char> {
    "Client for "@ + info.title@ + paragraph(info.description) + paragraph(info.terms_of_service)
        + "\n\nVersion: "@ + info.version@
}

/// A text as a paragraph of its own.
pub open spec fn paragraph(text: Option<String>) -> Seq<char> {
    match text {
        Some(text) => "\n\n"@ + text@,
        None => Seq::empty(),
    }
}

/// What the documentation of a client says.
pub fn client_docstring(info: &Info) -> (text: String)
    ensures
        text@ == docstring(*info),
{
    let mut text = "Client for ".to_owned();
    text.append(info.title.as_str());
    let ghost title = text@;
    if let Some(description) = &info.description {
        text.append("\n\n");
        text.append(description.as_str());
    }
    assert(text@ =~= title + paragraph(info.description));
    let ghost described = text@;
    if let Some(terms) = &info.terms_of_service {
        text.append("\n\n");
        text.append(terms.as_str());
    }
    assert(text@ =~= described + paragraph(info.terms_of_service));
    text.append("\n\nVersion: ");
    text.append(info.version.as_str());
    text
}

/// The tokens of some streams, one after the other.
pub open spec fn joined_tokens(streams: Seq<TokenStream>) -> Seq<Token>
    decreases streams.len(),
{
    if streams.len() == 0 {
        Seq::empty()
    } else {
        joined_tokens(streams.drop_last()) + tokens(streams.last())
    }
}

/// Joins some streams.
pub fn join_streams(streams: Vec<TokenStream>) -> (stream: TokenStream)
    ensures
        tokens(stream) == joined_tokens(streams@),
{
    let mut stream = empty_stream();
    let ghost all = streams@;
    assert(all.take(0) =~= Seq::empty());
    for next in it: streams
        invariant
            it.seq() == all,
            tokens(stream) == joined_tokens(all.take(it.index() as int)),
    {
        let ghost i = it.index() as int;
        assert(all.take(i + 1).drop_last() =~= all.take(i));
        push_stream(&mut stream, next);
    }
    assert(all.take(all.len() as int) =~= all);
    stream
}

/// The operations of a client as methods with positional arguments.
pub open spec fn positional_tokens(methods: Seq<Token>) -> Seq<Token> {
    quoted("#[allow(clippy::all)] impl Client"@) + braces(methods) + doc_tokens(
        " Items consumers will typically use such as the Client."@,
    ) + quoted(
        "pub mod prelude { #[allow(unused_imports)] pub use super::Client; }"@,
    )
}

/// The module of the types that compose the parameters of operations.
pub open spec fn builder_module_tokens(structs: Seq<Token>) -> Seq<Token> {
    doc_tokens(" Types for composing operation parameters."@) + quoted(
        "#[allow(clippy::all)] pub mod builder"@,
    ) + braces(
        quoted("use super::types; #[allow(unused_imports)] use super::"@) + braces(
            quoted("encode_path, ByteStream, Error, HeaderMap, HeaderValue,"@) + quoted(
                "RequestBuilderExt, ResponseValue,"@,
            ),
        ) + quoted(";"@) + structs,
    )
}

/// The operations of a client as methods that return builders.
pub open spec fn builder_merged_tokens(methods: Seq<Token>, structs: Seq<Token>) -> Seq<Token> {
    quoted("impl Client"@) + braces(methods) + builder_module_tokens(structs) + doc_tokens(
        " Items consumers will typically use such as the Client."@,
    ) + quoted("pub mod prelude { pub use self::super::Client; }"@)
}

/// The operations of a client as methods of one trait for each tag.
pub open spec fn builder_separate_tokens(
    traits: Seq<Token>,
    preludes: Seq<Token>,
    structs: Seq<Token>,
) -> Seq<Token> {
    traits + builder_module_tokens(structs) + doc_tokens(
        " Items consumers will typically use such as the Client and"@,
    ) + doc_tokens(" extension traits."@) + quoted("pub mod prelude"@) + braces(
        quoted("#[allow(unused_imports)] pub use super::Client;"@) + preludes,
    )
}

/// The module of the types that compose the parameters of operations.
fn builder_module(structs: TokenStream) -> (stream: TokenStream)
    ensures
        tokens(stream) == builder_module_tokens(tokens(structs)),
{
    let mut names = quote_text("encode_path, ByteStream, Error, HeaderMap, HeaderValue,");
    put(&mut names, "RequestBuilderExt, ResponseValue,");
    let mut module = quote_text("use super::types; #[allow(unused_imports)] use super::");
    push_group(&mut module, Delimiter::Brace, names);
    put(&mut module, ";");
    push_stream(&mut module, structs);
    let mut stream = doc(" Types for composing operation parameters.");
    put(&mut stream, "#[allow(clippy::all)] pub mod builder");
    push_group(&mut stream, Delimiter::Brace, module);
    stream
}

/// The operations of a client as methods with positional arguments.
pub fn positional_code(methods: TokenStream) -> (stream: TokenStream)
    ensures
        tokens(stream) == positional_tokens(tokens(methods)),
{
    let mut stream = quote_text("#[allow(clippy::all)] impl Client");
    push_group(&mut stream, Delimiter::Brace, methods);
    put_doc(&mut stream, " Items consumers will typically use such as the Client.");
    put(&mut stream, "pub mod prelude { #[allow(unused_imports)] pub use super::Client; }");
    stream
}

/// The operations of a client as methods that return builders.
pub fn builder_merged_code(methods: TokenStream, structs: TokenStream) -> (stream: TokenStream)
    ensures
        tokens(stream) == builder_merged_tokens(tokens(methods), tokens(structs)),
{
    let mut stream = quote_text("impl Client");
    push_group(&mut stream, Delimiter::Brace, methods);
    let module = builder_module(structs);
    push_stream(&mut stream, module);
    put_doc(&mut stream, " Items consumers will typically use such as the Client.");
    put(&mut stream, "pub mod prelude { pub use self::super::Client; }");
    stream
}

/// The operations of a client as methods of one trait for each tag.
pub fn builder_separate_code(
    traits: TokenStream,
    preludes: TokenStream,
    structs: TokenStream,
) -> (stream: TokenStream)
    ensures
        tokens(stream) == builder_separate_tokens(
            tokens(traits),
            tokens(preludes),
            tokens(structs),
        ),
{
    let mut stream = traits;
    let module = builder_module(structs);
    push_stream(&mut stream, module);
    put_doc(&mut stream, " Items consumers will typically use such as the Client and");
    put_doc(&mut stream, " extension traits.");
    put(&mut stream, "pub mod prelude");
    let mut prelude = quote_text("#[allow(unused_imports)] pub use super::Client;");
    push_stream(&mut prelude, preludes);
    push_group(&mut stream, Delimiter::Brace, prelude);
    stream
}

/// `#[cfg(target_arch = "wasm32")]`, or the same with `not`.
pub open spec fn wasm_tokens(wasm: bool) -> Seq<Token> {
    let condition = quoted("target_arch ="@) + text_literal("wasm32"@);
    quoted("#"@) + brackets(
        quoted("cfg"@) + parens(
            if wasm {
                condition
            } else {
                quoted("not"@) + parens(condition)
            },
        ),
    )
}

/// The field of the inner type.
pub open spec fn inner_property(inner: Option<Seq<Token>>) -> Seq<Token> {
    match inner {
        Some(inner) => quoted("pub(crate) inner:"@) + inner + quoted(","@),
        None => Seq::empty(),
    }
}

/// The parameter of the inner type.
pub open spec fn inner_parameter(inner: Option<Seq<Token>>) -> Seq<Token> {
    match inner {
        Some(inner) => quoted("inner:"@) + inner + quoted(","@),
        None => Seq::empty(),
    }
}

/// The value of the inner type.
pub open spec fn inner_value(inner: Option<Seq<Token>>) -> Seq<Token> {
    match inner {
        Some(_) => quoted("inner"@),
        None => Seq::empty(),
    }
}

/// The method that gives access to the inner type.
pub open spec fn inner_method(inner: Option<Seq<Token>>) -> Seq<Token> {
    match inner {
        Some(inner) => doc_tokens(" Return a reference to the inner type stored in `self`."@)
            + quoted("pub fn inner(&self) -> &"@) + inner + quoted("{ &self.inner }"@),
        None => Seq::empty(),
    }
}

/// What the client takes from other crates.
pub open spec fn imports_tokens() -> Seq<Token> {
    quoted(
        "#[allow(unused_imports)] pub use progenitor_client::{ByteStream, Error, ResponseValue};"@,
    ) + quoted(
        "#[allow(unused_imports)] use progenitor_client::{encode_path, RequestBuilderExt};"@,
    ) + quoted("#[allow(unused_imports)] use reqwest::header::{HeaderMap, HeaderValue};"@)
}

/// The module of the types.
pub open spec fn types_tokens(types: Seq<Token>, multipart: Seq<Token>) -> Seq<Token> {
    doc_tokens(" Types used as operation parameters and responses."@) + quoted(
        "#[allow(clippy::all)]"@,
    ) + quoted("pub"@) + quoted("mod"@) + quoted("types"@) + braces(types + multipart)
}

/// The struct of the client.
pub open spec fn client_struct_tokens(docs: Seq<char>, inner: Option<Seq<Token>>) -> Seq<Token> {
    quoted("#[derive(Clone, Debug)]"@) + doc_attribute(text_literal(docs)) + quoted(
        "pub struct Client"@,
    ) + braces(
        quoted("pub(crate) baseurl: String, pub(crate) client: reqwest::Client,"@)
            + inner_property(inner),
    )
}

/// The function that makes a client.
pub open spec fn new_tokens(inner: Option<Seq<Token>>) -> Seq<Token> {
    doc_tokens(" Create a new client."@)
        + doc_tokens(""@)
        + doc_tokens(" `baseurl` is the base URL provided to the internal"@)
        + doc_tokens(" `reqwest::Client`, and should include a scheme and hostname,"@)
        + doc_tokens(" as well as port and a path stem if applicable."@)
        + quoted("pub fn new"@) + parens(
        quoted("baseurl: &str,"@) + inner_parameter(inner),
    ) + quoted("-> Self"@) + braces(
        wasm_tokens(false) + quoted("let client ="@) + braces(
            quoted("let dur = std::time::Duration::from_secs"@) + parens(number_literal(15))
                + quoted("; reqwest::ClientBuilder::new().connect_timeout(dur).timeout(dur)"@),
        ) + quoted(";"@) + wasm_tokens(true) + quoted(
            "let client = reqwest::ClientBuilder::new(); Self::new_with_client"@,
        ) + parens(quoted("baseurl, client.build().unwrap(),"@) + inner_value(inner)),
    )
}

/// The function that makes a client from one that is there.
pub open spec fn new_with_client_tokens(inner: Option<Seq<Token>>) -> Seq<Token> {
    doc_tokens(" Construct a new client with an existing `reqwest::Client`,"@)
        + doc_tokens(" allowing more control over its configuration."@)
        + doc_tokens(""@)
        + doc_tokens(" `baseurl` is the base URL provided to the internal"@)
        + doc_tokens(" `reqwest::Client`, and should include a scheme and hostname,"@)
        + doc_tokens(" as well as port and a path stem if applicable."@)
        + quoted("pub fn new_with_client"@) + parens(
        quoted("baseurl: &str, client: reqwest::Client,"@) + inner_parameter(inner),
    ) + quoted("-> Self"@) + braces(
        quoted("Self"@) + braces(
            quoted("baseurl: baseurl.to_string(), client,"@) + inner_value(inner),
        ),
    )
}

/// The functions that tell what a client is made of.
pub open spec fn accessors_tokens(version: Seq<char>) -> Seq<Token> {
    doc_tokens(" Get the base URL to which requests are made."@) + quoted(
        "pub fn baseurl(&self) -> &String { &self.baseurl }"@,
    ) + doc_tokens(" Get the internal `reqwest::Client` used to make requests."@) + quoted(
        "pub fn client(&self) -> &reqwest::Client { &self.client }"@,
    ) + doc_tokens(" Get the version of this API."@) + doc_tokens(""@) + doc_tokens(
        " This string is pulled directly from the source OpenAPI"@,
    ) + doc_tokens(" document and may be in any format the API selects."@) + quoted(
        "pub fn api_version(&self) -> & 'static str"@,
    ) + braces(text_literal(version))
}

/// A client: what it imports, its types, itself and its operations.
pub open spec fn client_tokens(
    info: Info,
    inner: Option<Seq<Token>>,
    types: Seq<Token>,
    multipart: Seq<Token>,
    operations: Seq<Token>,
) -> Seq<Token> {
    imports_tokens() + types_tokens(types, multipart) + client_struct_tokens(
        docstring(info),
        inner,
    ) + quoted("impl Client"@) + braces(
        new_tokens(inner) + new_with_client_tokens(inner) + accessors_tokens(info.version@)
            + inner_method(inner),
    ) + operations
}

/// `#[cfg(target_arch = "wasm32")]`, or the same with `not`.
fn wasm_attribute(wasm: bool) -> (stream: TokenStream)
    ensures
        tokens(stream) == wasm_tokens(wasm),
{
    let mut condition = quote_text("target_arch =");
    push_string(&mut condition, "wasm32");
    let mut cfg = quote_text("cfg");
    if wasm {
        push_group(&mut cfg, Delimiter::Parenthesis, condition);
    } else {
        let mut not = quote_text("not");
        push_group(&mut not, Delimiter::Parenthesis, condition);
        push_group(&mut cfg, Delimiter::Parenthesis, not);
    }
    let mut stream = quote_text("#");
    push_group(&mut stream, Delimiter::Bracket, cfg);
    stream
}

/// Puts the field of the inner type at the end of a stream.
fn put_inner_property(stream: &mut TokenStream, inner: &Option<TokenStream>)
    ensures
        tokens(*final(stream)) == tokens(*old(stream)) + inner_property(optional_tokens(*inner)),
{
    if let Some(inner) = inner {
        let mut property = quote_text("pub(crate) inner:");
        push_stream(&mut property, inner.clone());
        put(&mut property, ",");
        push_stream(stream, property);
    } else {
        assert(tokens(*stream) + inner_property(optional_tokens(*inner)) =~= tokens(*stream));
    }
}

/// Puts the parameter of the inner type at the end of a stream.
fn put_inner_parameter(stream: &mut TokenStream, inner: &Option<TokenStream>)
    ensures
        tokens(*final(stream)) == tokens(*old(stream)) + inner_parameter(optional_tokens(*inner)),
{
    if let Some(inner) = inner {
        let mut parameter = quote_text("inner:");
        push_stream(&mut parameter, inner.clone());
        put(&mut parameter, ",");
        push_stream(stream, parameter);
    } else {
        assert(tokens(*stream) + inner_parameter(optional_tokens(*inner)) =~= tokens(*stream));
    }
}

/// Puts the value of the inner type at the end of a stream.
fn put_inner_value(stream: &mut TokenStream, inner: &Option<TokenStream>)
    ensures
        tokens(*final(stream)) == tokens(*old(stream)) + inner_value(optional_tokens(*inner)),
{
    if inner.is_some() {
        put(stream, "inner");
    } else {
        assert(tokens(*stream) + inner_value(optional_tokens(*inner)) =~= tokens(*stream));
    }
}

/// Puts the method that gives access to the inner type at the end of a stream.
fn put_inner_method(stream: &mut TokenStream, inner: &Option<TokenStream>)
    ensures
        tokens(*final(stream)) == tokens(*old(stream)) + inner_method(optional_tokens(*inner)),
{
    if let Some(inner) = inner {
        let mut method = doc(" Return a reference to the inner type stored in `self`.");
        put(&mut method, "pub fn inner(&self) -> &");
        push_stream(&mut method, inner.clone());
        put(&mut method, "{ &self.inner }");
        push_stream(stream, method);
    } else {
        assert(tokens(*stream) + inner_method(optional_tokens(*inner)) =~= tokens(*stream));
    }
}

/// What the client takes from other crates.
fn imports() -> (stream: TokenStream)
    ensures
        tokens(stream) == imports_tokens(),
{
    let mut stream = quote_text(
        "#[allow(unused_imports)] pub use progenitor_client::{ByteStream, Error, ResponseValue};",
    );
    put(
        &mut stream,
        "#[allow(unused_imports)] use progenitor_client::{encode_path, RequestBuilderExt};",
    );
    put(
        &mut stream,
        "#[allow(unused_imports)] use reqwest::header::{HeaderMap, HeaderValue};",
    );
    stream
}

/// The module of the types.
fn types_module(types: TokenStream, multipart: TokenStream) -> (stream: TokenStream)
    ensures
        tokens(stream) == types_tokens(tokens(types), tokens(multipart)),
{
    let mut module = types;
    push_stream(&mut module, multipart);
    let mut stream = doc(" Types used as operation parameters and responses.");
    put(&mut stream, "#[allow(clippy::all)]");
    put(&mut stream, "pub");
    put(&mut stream, "mod");
    put(&mut stream, "types");
    push_group(&mut stream, Delimiter::Brace, module);
    stream
}

/// The struct of the client.
fn client_struct(docs: &str, inner: &Option<TokenStream>) -> (stream: TokenStream)
    ensures
        tokens(stream) == client_struct_tokens(docs@, optional_tokens(*inner)),
{
    let mut fields = quote_text("pub(crate) baseurl: String, pub(crate) client: reqwest::Client,");
    put_inner_property(&mut fields, inner);
    let mut content = quote_text("doc =");
    push_string(&mut content, docs);
    let mut stream = quote_text("#[derive(Clone, Debug)]");
    put(&mut stream, "#");
    push_group(&mut stream, Delimiter::Bracket, content);
    put(&mut stream, "pub struct Client");
    push_group(&mut stream, Delimiter::Brace, fields);
    stream
}

/// The function that makes a client.
fn new_function(inner: &Option<TokenStream>) -> (stream: TokenStream)
    ensures
        tokens(stream) == new_tokens(optional_tokens(*inner)),
{
    let mut seconds = empty_stream();
    push_number(&mut seconds, 15);
    assert(tokens(seconds) =~= number_literal(15));
    let mut built = quote_text("let dur = std::time::Duration::from_secs");
    push_group(&mut built, Delimiter::Parenthesis, seconds);
    put(&mut built, "; reqwest::ClientBuilder::new().connect_timeout(dur).timeout(dur)");
    let mut body = wasm_attribute(false);
    put(&mut body, "let client =");
    push_group(&mut body, Delimiter::Brace, built);
    put(&mut body, ";");
    push_stream(&mut body, wasm_attribute(true));
    put(&mut body, "let client = reqwest::ClientBuilder::new(); Self::new_with_client");
    let mut arguments = quote_text("baseurl, client.build().unwrap(),");
    put_inner_value(&mut arguments, inner);
    push_group(&mut body, Delimiter::Parenthesis, arguments);
    let mut parameters = quote_text("baseurl: &str,");
    put_inner_parameter(&mut parameters, inner);
    let mut stream = doc(" Create a new client.");
    put_doc(&mut stream, "");
    put_doc(&mut stream, " `baseurl` is the base URL provided to the internal");
    put_doc(&mut stream, " `reqwest::Client`, and should include a scheme and hostname,");
    put_doc(&mut stream, " as well as port and a path stem if applicable.");
    put(&mut stream, "pub fn new");
    push_group(&mut stream, Delimiter::Parenthesis, parameters);
    put(&mut stream, "-> Self");
    push_group(&mut stream, Delimiter::Brace, body);
    stream
}

/// The function that makes a client from one that is there.
fn new_with_client_function(inner: &Option<TokenStream>) -> (stream: TokenStream)
    ensures
        tokens(stream) == new_with_client_tokens(optional_tokens(*inner)),
{
    let mut fields = quote_text("baseurl: baseurl.to_string(), client,");
    put_inner_value(&mut fields, inner);
    let mut body = quote_text("Self");
    push_group(&mut body, Delimiter::Brace, fields);
    let mut parameters = quote_text("baseurl: &str, client: reqwest::Client,");
    put_inner_parameter(&mut parameters, inner);
    let mut stream = doc(" Construct a new client with an existing `reqwest::Client`,");
    put_doc(&mut stream, " allowing more control over its configuration.");
    put_doc(&mut stream, "");
    put_doc(&mut stream, " `baseurl` is the base URL provided to the internal");
    put_doc(&mut stream, " `reqwest::Client`, and should include a scheme and hostname,");
    put_doc(&mut stream, " as well as port and a path stem if applicable.");
    put(&mut stream, "pub fn new_with_client");
    push_group(&mut stream, Delimiter::Parenthesis, parameters);
    put(&mut stream, "-> Self");
    push_group(&mut stream, Delimiter::Brace, body);
    stream
}

/// The functions that tell what a client is made of.
fn accessors(version: &str) -> (stream: TokenStream)
    ensures
        tokens(stream) == accessors_tokens(version@),
{
    let mut stream = doc(" Get the base URL to which requests are made.");
    put(&mut stream, "pub fn baseurl(&self) -> &String { &self.baseurl }");
    put_doc(&mut stream, " Get the internal `reqwest::Client` used to make requests.");
    put(&mut stream, "pub fn client(&self) -> &reqwest::Client { &self.client }");
    put_doc(&mut stream, " Get the version of this API.");
    put_doc(&mut stream, "");
    put_doc(&mut stream, " This string is pulled directly from the source OpenAPI");
    put_doc(&mut stream, " document and may be in any format the API selects.");
    put(&mut stream, "pub fn api_version(&self) -> & 'static str");
    let mut text = empty_stream();
    push_string(&mut text, version);
    assert(tokens(text) =~= text_literal(version@));
    push_group(&mut stream, Delimiter::Brace, text);
    stream
}

/// A client: what it imports, its types, itself and its operations.
pub fn client_code(
    info: &Info,
    inner: &Option<TokenStream>,
    types: TokenStream,
    multipart: TokenStream,
    operations: TokenStream,
) -> (stream: TokenStream)
    ensures
        tokens(stream) == client_tokens(
            *info,
            optional_tokens(*inner),
            tokens(types),
            tokens(multipart),
            tokens(operations),
        ),
{
    let mut functions = new_function(inner);
    push_stream(&mut functions, new_with_client_function(inner));
    push_stream(&mut functions, accessors(info.version.as_str()));
    put_inner_method(&mut functions, inner);
    let docs = client_docstring(info);
    let mut stream = imports();
    push_stream(&mut stream, types_module(types, multipart));
    push_stream(&mut stream, client_struct(docs.as_str(), inner));
    put(&mut stream, "impl Client");
    push_group(&mut stream, Delimiter::Brace, functions);
    push_stream(&mut stream, operations);
    stream
}

/// The code of some streams followed by others is the code of the one followed
/// by that of the others.
pub proof fn law_code_keeps_order(first: Seq<TokenStream>, then: Seq<TokenStream>)
    ensures
        joined_tokens(first + then) == joined_tokens(first) + joined_tokens(then),
    decreases then.len(),
{
    if then.len() == 0 {
        assert(first + then =~= first);
        assert(joined_tokens(first) + joined_tokens(then) =~= joined_tokens(first));
    } else {
        assert((first + then).drop_last() =~= first + then.drop_last());
        law_code_keeps_order(first, then.drop_last());
        assert(joined_tokens(first + then) =~= joined_tokens(first) + joined_tokens(then));
    }
}

/// The documentation of a client begins with its title and ends with its version.
pub proof fn law_docstring(info: Info)
    ensures
        ("Client for "@ + info.title@).is_prefix_of(docstring(info)),
        ("\n\nVersion: "@ + info.version@).is_suffix_of(docstring(info)),
{
    let start = "Client for "@ + info.title@;
    let end = "\n\nVersion: "@ + info.version@;
    let all = docstring(info);
    assert(all.take(start.len() as int) =~= start);
    assert(all.skip(all.len() - end.len()) =~= end);
}

} // verus!
