//! What holds of the code of every client.
use crate::client::{
    accessors_tokens, builder_merged_tokens, builder_module_tokens, builder_separate_tokens,
    client_struct_tokens, client_tokens, doc_tokens, docstring, imports_tokens,
    inner_method, inner_parameter, inner_property, inner_value, joined_tokens, new_tokens,
    new_with_client_tokens, paragraph, positional_tokens, types_tokens, wasm_tokens,
};
use crate::document::Info;
use crate::generator::default_generator;
use crate::settings::{type_settings_for, Settings};
use crate::template::{law_word_is_an_identifier, quoted};
use crate::tokens::{
    braces, brackets, ident, is_word, number_literal, parens, text_literal, tokens, Token,
};
use crate::typespace::{empty_space, initial_type_settings, TypeSettings};
use proc_macro2::TokenStream;
use vstd::prelude::*;

verus! {

/// The documentation of every client is made of the same pieces round what its
/// document says: one before the title, one before the description and one before
/// the terms of service where there are any, and one before the version.
pub proof fn law_documentation_is_uniform()
    ensures
        exists|title: Seq<char>, gap: Seq<char>, version: Seq<char>| #[trigger]
            uniform_docs(title, gap, version),
{
    assert forall|info: Info| #[trigger] docstring(info) == pieced_docs(
        "Client for "@,
        "\n\n"@,
        "\n\nVersion: "@,
        info,
    ) by {
        assert(docstring(info) =~= "Client for "@ + info.title@ + paragraph(info.description)
            + paragraph(info.terms_of_service) + "\n\nVersion: "@ + info.version@);
    }
    assert(uniform_docs("Client for "@, "\n\n"@, "\n\nVersion: "@));
}

/// The documentation of every client is made of given pieces.
pub open spec fn uniform_docs(title: Seq<char>, gap: Seq<char>, version: Seq<char>) -> bool {
    forall|info: Info| #[trigger] docstring(info) == pieced_docs(title, gap, version, info)
}

/// Documentation that is made of given pieces.
pub open spec fn pieced_docs(
    title: Seq<char>,
    gap: Seq<char>,
    version: Seq<char>,
    info: Info,
) -> Seq<char> {
    title + info.title@ + (if info.description is Some {
        gap + info.description.unwrap()@
    } else {
        Seq::empty()
    }) + (if info.terms_of_service is Some {
        gap + info.terms_of_service.unwrap()@
    } else {
        Seq::empty()
    }) + version + info.version@
}

/// The documentation of a client is as long as what the document says, the gaps
/// and the two labels, whatever the document says.
pub proof fn law_length_of_documentation(info: Info)
    ensures
        docstring(info).len() == 11 + info.title@.len() + (match info.description {
            Some(text) => 2 + text@.len(),
            None => 0,
        }) + (match info.terms_of_service {
            Some(text) => 2 + text@.len(),
            None => 0,
        }) + 11 + info.version@.len(),
{
    reveal_strlit("Client for ");
    reveal_strlit("\n\n");
    reveal_strlit("\n\nVersion: ");
}

/// Streams are joined one after the other, each as it is.
pub proof fn law_streams_are_joined(streams: Seq<TokenStream>)
    ensures
        joined_tokens(streams) == streams.flat_map(|stream: TokenStream| tokens(stream)),
    decreases streams.len(),
{
    let f = |stream: TokenStream| tokens(stream);
    if streams.len() == 0 {
        assert(streams.map_values(f) =~= Seq::empty());
    } else {
        let shorter = streams.drop_last();
        law_streams_are_joined(shorter);
        assert(streams.map_values(f) =~= shorter.map_values(f).push(f(streams.last())));
        shorter.map_values(f).lemma_flatten_push(f(streams.last()));
    }
}

/// `types` is a word.
proof fn lemma_words()
    ensures
        is_word("types"@),
        is_word("mod"@),
        is_word("pub"@),
        "types"@ == seq!['t', 'y', 'p', 'e', 's'],
{
    reveal_strlit("types");
    reveal_strlit("mod");
    reveal_strlit("pub");
    assert("types"@ =~= seq!['t', 'y', 'p', 'e', 's']);
}

/// The module under which the types of a client are named is the module in which
/// the client defines them: its name stands behind `pub mod`, before the group that
/// holds the definitions. It is `types`, with whatever settings, and also with
/// none.
pub proof fn law_types_are_where_they_are_named(
    settings: Settings,
    info: Info,
    inner: Option<Seq<Token>>,
    types: Seq<Token>,
    forms: Seq<Token>,
    operations: Seq<Token>,
)
    ensures
        exists|module: Seq<char>, before: Seq<Token>, after: Seq<Token>|
            {
                &&& type_settings_for(settings).type_mod == Some(module)
                &&& default_generator().type_space == empty_space(
                    TypeSettings { type_mod: Some(module), ..initial_type_settings() },
                )
                &&& module == seq!['t', 'y', 'p', 'e', 's']
                &&& client_tokens(info, inner, types, forms, operations)
                    == #[trigger] defining_module(before, module, types + forms, after)
            },
{
    lemma_words();
    law_word_is_an_identifier("types"@);
    law_word_is_an_identifier("mod"@);
    law_word_is_an_identifier("pub"@);
    let before = imports_tokens() + doc_tokens(
        " Types used as operation parameters and responses."@,
    ) + quoted("#[allow(clippy::all)]"@);
    let after = client_struct_tokens(docstring(info), inner) + quoted("impl Client"@) + braces(
        new_tokens(inner) + new_with_client_tokens(inner) + accessors_tokens(info.version@)
            + inner_method(inner),
    ) + operations;
    assert(client_tokens(info, inner, types, forms, operations) =~= defining_module(
        before,
        "types"@,
        types + forms,
        after,
    ));
}

/// Code in which a public module of a given name holds given code.
pub open spec fn defining_module(
    before: Seq<Token>,
    module: Seq<char>,
    inside: Seq<Token>,
    after: Seq<Token>,
) -> Seq<Token> {
    before + ident("pub"@) + ident("mod"@) + ident(module) + braces(inside) + after
}

/// The pieces of which a client is made.
pub struct ClientPieces {
    /// Before the types.
    pub imports: Seq<Token>,
    /// Between the types and the documentation.
    pub derive: Seq<Token>,
    /// What begins the documentation.
    pub doc: Seq<Token>,
    /// Between the documentation and the fields.
    pub name: Seq<Token>,
    /// The fields.
    pub fields: Seq<Token>,
    /// Between the fields and the functions.
    pub functions: Seq<Token>,
    /// Before the parameters of the first function.
    pub new: Seq<Token>,
    /// The parameters of the first function.
    pub new_parameters: Seq<Token>,
    /// Between the parameters of the first function and its body.
    pub new_result: Seq<Token>,
    /// The body of the first function, before its last arguments.
    pub new_body: Seq<Token>,
    /// The last arguments in the body of the first function.
    pub new_arguments: Seq<Token>,
    /// Between the first function and the parameters of the second.
    pub with_client: Seq<Token>,
    /// The parameters of the second function.
    pub with_client_parameters: Seq<Token>,
    /// Between the parameters of the second function and its body.
    pub with_client_result: Seq<Token>,
    /// The body of the second function, before its fields.
    pub with_client_body: Seq<Token>,
    /// The fields in the body of the second function.
    pub with_client_fields: Seq<Token>,
    /// Between the second function and the version.
    pub version: Seq<Token>,
}

/// What is made of the inner type.
pub struct InnerPieces {
    /// The field.
    pub field: Seq<Token>,
    /// The parameter.
    pub parameter: Seq<Token>,
    /// The value.
    pub value: Seq<Token>,
    /// The method.
    pub method: Seq<Token>,
}

/// A client that is made of given pieces.
pub open spec fn pieced_client(
    pieces: ClientPieces,
    inner: InnerPieces,
    info: Info,
    types: Seq<Token>,
    forms: Seq<Token>,
    operations: Seq<Token>,
) -> Seq<Token> {
    pieces.imports + braces(types + forms) + pieces.derive + brackets(
        pieces.doc + text_literal(docstring(info)),
    ) + pieces.name + braces(pieces.fields + inner.field) + pieces.functions + braces(
        pieces.new + parens(pieces.new_parameters + inner.parameter) + pieces.new_result + braces(
            pieces.new_body + parens(pieces.new_arguments + inner.value),
        ) + pieces.with_client + parens(pieces.with_client_parameters + inner.parameter)
            + pieces.with_client_result + braces(
            pieces.with_client_body + braces(pieces.with_client_fields + inner.value),
        ) + pieces.version + braces(text_literal(info.version@)) + inner.method,
    ) + operations
}

/// The pieces of which every client is made.
spec fn all_pieces() -> ClientPieces {
    ClientPieces {
        imports: imports_tokens() + doc_tokens(
            " Types used as operation parameters and responses."@,
        ) + quoted("#[allow(clippy::all)]"@) + quoted("pub"@) + quoted("mod"@) + quoted("types"@),
        derive: quoted("#[derive(Clone, Debug)]"@) + quoted("#"@),
        doc: quoted("doc ="@),
        name: quoted("pub struct Client"@),
        fields: quoted("pub(crate) baseurl: String, pub(crate) client: reqwest::Client,"@),
        functions: quoted("impl Client"@),
        new: doc_tokens(" Create a new client."@) + doc_tokens(""@) + doc_tokens(
            " `baseurl` is the base URL provided to the internal"@,
        ) + doc_tokens(" `reqwest::Client`, and should include a scheme and hostname,"@)
            + doc_tokens(" as well as port and a path stem if applicable."@) + quoted(
            "pub fn new"@,
        ),
        new_parameters: quoted("baseurl: &str,"@),
        new_result: quoted("-> Self"@),
        new_body: wasm_tokens(false) + quoted("let client ="@) + braces(
            quoted("let dur = std::time::Duration::from_secs"@) + parens(number_literal(15))
                + quoted("; reqwest::ClientBuilder::new().connect_timeout(dur).timeout(dur)"@),
        ) + quoted(";"@) + wasm_tokens(true) + quoted(
            "let client = reqwest::ClientBuilder::new(); Self::new_with_client"@,
        ),
        new_arguments: quoted("baseurl, client.build().unwrap(),"@),
        with_client: doc_tokens(" Construct a new client with an existing `reqwest::Client`,"@)
            + doc_tokens(" allowing more control over its configuration."@) + doc_tokens(""@)
            + doc_tokens(" `baseurl` is the base URL provided to the internal"@) + doc_tokens(
            " `reqwest::Client`, and should include a scheme and hostname,"@,
        ) + doc_tokens(" as well as port and a path stem if applicable."@) + quoted(
            "pub fn new_with_client"@,
        ),
        with_client_parameters: quoted("baseurl: &str, client: reqwest::Client,"@),
        with_client_result: quoted("-> Self"@),
        with_client_body: quoted("Self"@),
        with_client_fields: quoted("baseurl: baseurl.to_string(), client,"@),
        version: doc_tokens(" Get the base URL to which requests are made."@) + quoted(
            "pub fn baseurl(&self) -> &String { &self.baseurl }"@,
        ) + doc_tokens(" Get the internal `reqwest::Client` used to make requests."@) + quoted(
            "pub fn client(&self) -> &reqwest::Client { &self.client }"@,
        ) + doc_tokens(" Get the version of this API."@) + doc_tokens(""@) + doc_tokens(
            " This string is pulled directly from the source OpenAPI"@,
        ) + doc_tokens(" document and may be in any format the API selects."@) + quoted(
            "pub fn api_version(&self) -> & 'static str"@,
        ),
    }
}

/// What is made of an inner type that may be there.
spec fn inner_pieces(inner: Option<Seq<Token>>) -> InnerPieces {
    InnerPieces {
        field: inner_property(inner),
        parameter: inner_parameter(inner),
        value: inner_value(inner),
        method: inner_method(inner),
    }
}

/// A client is made of the pieces of every client and of its inner type.
#[verifier::spinoff_prover]
#[verifier::rlimit(60)]
proof fn lemma_pieced_client(
    info: Info,
    inner: Option<Seq<Token>>,
    types: Seq<Token>,
    forms: Seq<Token>,
    operations: Seq<Token>,
)
    ensures
        client_tokens(info, inner, types, forms, operations) == pieced_client(
            all_pieces(),
            inner_pieces(inner),
            info,
            types,
            forms,
            operations,
        ),
{
    let p = all_pieces();
    let i = inner_pieces(inner);
    assert(new_tokens(inner) =~= p.new + parens(p.new_parameters + i.parameter) + p.new_result
        + braces(p.new_body + parens(p.new_arguments + i.value)));
    assert(new_with_client_tokens(inner) =~= p.with_client + parens(
        p.with_client_parameters + i.parameter,
    ) + p.with_client_result + braces(
        p.with_client_body + braces(p.with_client_fields + i.value),
    ));
    assert(accessors_tokens(info.version@) =~= p.version + braces(text_literal(info.version@)));
    let functions = new_tokens(inner) + new_with_client_tokens(inner) + accessors_tokens(
        info.version@,
    ) + inner_method(inner);
    let pieced = p.new + parens(p.new_parameters + i.parameter) + p.new_result + braces(
        p.new_body + parens(p.new_arguments + i.value),
    ) + p.with_client + parens(p.with_client_parameters + i.parameter) + p.with_client_result
        + braces(p.with_client_body + braces(p.with_client_fields + i.value)) + p.version + braces(
        text_literal(info.version@),
    ) + i.method;
    assert(functions =~= pieced);
    assert(client_struct_tokens(docstring(info), inner) =~= p.derive + brackets(
        p.doc + text_literal(docstring(info)),
    ) + p.name + braces(p.fields + i.field));
    assert(imports_tokens() + types_tokens(types, forms) =~= p.imports + braces(types + forms));
    assert(client_tokens(info, inner, types, forms, operations) =~= pieced_client(
        p,
        i,
        info,
        types,
        forms,
        operations,
    ));
}

/// Every client is made of the same pieces, round the documentation, the types, the
/// forms, the version and the operations of its document. Without an inner type
/// there is nothing between the pieces that would speak of one; the field, the
/// parameter, the value and the method of an inner type are themselves the same
/// for every client, but for the inner type.
pub proof fn law_clients_are_uniform()
    ensures
        exists|
            pieces: ClientPieces,
            field: (Seq<Token>, Seq<Token>),
            parameter: (Seq<Token>, Seq<Token>),
            value: Seq<Token>,
            method: (Seq<Token>, Seq<Token>),
        | #[trigger]
            uniform_clients(pieces, field, parameter, value, method),
{
    let field = (quoted("pub(crate) inner:"@), quoted(","@));
    let parameter = (quoted("inner:"@), quoted(","@));
    let value = quoted("inner"@);
    let method = (
        doc_tokens(" Return a reference to the inner type stored in `self`."@) + quoted(
            "pub fn inner(&self) -> &"@,
        ),
        quoted("{ &self.inner }"@),
    );
    assert forall|
        info: Info,
        inner: Option<Seq<Token>>,
        types: Seq<Token>,
        forms: Seq<Token>,
        operations: Seq<Token>,
    | #[trigger] client_tokens(info, inner, types, forms, operations) == pieced_client(
        all_pieces(),
        around_inner(field, parameter, value, method, inner),
        info,
        types,
        forms,
        operations,
    ) by {
        lemma_pieced_client(info, inner, types, forms, operations);
        let made = around_inner(field, parameter, value, method, inner);
        assert(inner_pieces(inner).field =~= made.field);
        assert(inner_pieces(inner).parameter =~= made.parameter);
        assert(inner_pieces(inner).method =~= made.method);
    }
    assert(uniform_clients(all_pieces(), field, parameter, value, method));
}

/// What pieces make of an inner type that may be there.
pub open spec fn around_inner(
    field: (Seq<Token>, Seq<Token>),
    parameter: (Seq<Token>, Seq<Token>),
    value: Seq<Token>,
    method: (Seq<Token>, Seq<Token>),
    inner: Option<Seq<Token>>,
) -> InnerPieces {
    if inner is Some {
        InnerPieces {
            field: field.0 + inner.unwrap() + field.1,
            parameter: parameter.0 + inner.unwrap() + parameter.1,
            value,
            method: method.0 + inner.unwrap() + method.1,
        }
    } else {
        InnerPieces {
            field: Seq::empty(),
            parameter: Seq::empty(),
            value: Seq::empty(),
            method: Seq::empty(),
        }
    }
}

/// Every client is made of the given pieces.
pub open spec fn uniform_clients(
    pieces: ClientPieces,
    field: (Seq<Token>, Seq<Token>),
    parameter: (Seq<Token>, Seq<Token>),
    value: Seq<Token>,
    method: (Seq<Token>, Seq<Token>),
) -> bool {
    forall|
        info: Info,
        inner: Option<Seq<Token>>,
        types: Seq<Token>,
        forms: Seq<Token>,
        operations: Seq<Token>,
    | #[trigger]
        client_tokens(info, inner, types, forms, operations) == pieced_client(
            pieces,
            around_inner(field, parameter, value, method, inner),
            info,
            types,
            forms,
            operations,
        )
}

/// The operations of every client stand between the same pieces, all of them as
/// they are: methods with positional arguments in one group, builders in another
/// with the methods that return them before it, or with traits before it and what
/// makes these available behind it.
pub proof fn law_operations_are_uniform()
    ensures
        exists|a: Seq<Token>, b: Seq<Token>| #[trigger] uniform_positional(a, b),
        exists|a: Seq<Token>, b: Seq<Token>, c: Seq<Token>, d: Seq<Token>|
            #[trigger] uniform_merged(a, b, c, d),
        exists|a: Seq<Token>, b: Seq<Token>, c: Seq<Token>, d: Seq<Token>|
            #[trigger] uniform_separate(a, b, c, d),
{
    let lines = doc_tokens(" Items consumers will typically use such as the Client."@);
    let a = quoted("#[allow(clippy::all)] impl Client"@);
    let b = lines + quoted("pub mod prelude { #[allow(unused_imports)] pub use super::Client; }"@);
    assert forall|methods: Seq<Token>| #[trigger] positional_tokens(methods) == around(
        a,
        methods,
        b,
    ) by {
        assert(positional_tokens(methods) =~= around(a, methods, b));
    }
    assert(uniform_positional(a, b));
    let module = doc_tokens(" Types for composing operation parameters."@) + quoted(
        "#[allow(clippy::all)] pub mod builder"@,
    );
    let uses = quoted("use super::types; #[allow(unused_imports)] use super::"@) + braces(
        quoted("encode_path, ByteStream, Error, HeaderMap, HeaderValue,"@) + quoted(
            "RequestBuilderExt, ResponseValue,"@,
        ),
    ) + quoted(";"@);
    let c = quoted("impl Client"@);
    let d = lines + quoted("pub mod prelude { pub use self::super::Client; }"@);
    assert forall|structs: Seq<Token>| #[trigger] builder_module_tokens(structs) == around(
        module,
        uses + structs,
        Seq::empty(),
    ) by {
        assert(builder_module_tokens(structs) =~= around(module, uses + structs, Seq::empty()));
    }
    assert forall|methods: Seq<Token>, structs: Seq<Token>| #[trigger] builder_merged_tokens(
        methods,
        structs,
    ) == c + braces(methods) + module + braces(uses + structs) + d by {
        assert(builder_module_tokens(structs) =~= around(module, uses + structs, Seq::empty()));
        assert(builder_merged_tokens(methods, structs) =~= c + braces(methods) + module + braces(
            uses + structs,
        ) + d);
    }
    assert(uniform_merged(c, module, uses, d));
    let e = doc_tokens(" Items consumers will typically use such as the Client and"@) + doc_tokens(
        " extension traits."@,
    ) + quoted("pub mod prelude"@);
    let f = quoted("#[allow(unused_imports)] pub use super::Client;"@);
    assert forall|traits: Seq<Token>, preludes: Seq<Token>, structs: Seq<Token>| #[trigger]
        builder_separate_tokens(traits, preludes, structs) == traits + module + braces(
        uses + structs,
    ) + e + braces(f + preludes) by {
        assert(builder_module_tokens(structs) =~= around(module, uses + structs, Seq::empty()));
        assert(builder_separate_tokens(traits, preludes, structs) =~= traits + module + braces(
            uses + structs,
        ) + e + braces(f + preludes));
    }
    assert(uniform_separate(module, uses, e, f));
}

/// Code in a group, with other code before and behind it.
pub open spec fn around(a: Seq<Token>, inside: Seq<Token>, b: Seq<Token>) -> Seq<Token> {
    a + braces(inside) + b
}

/// The operations of every client with positional arguments stand between the
/// given pieces.
pub open spec fn uniform_positional(a: Seq<Token>, b: Seq<Token>) -> bool {
    forall|methods: Seq<Token>| #[trigger] positional_tokens(methods) == around(a, methods, b)
}

/// The operations of every client with builders and merged tags stand between the
/// given pieces.
pub open spec fn uniform_merged(
    a: Seq<Token>,
    b: Seq<Token>,
    c: Seq<Token>,
    d: Seq<Token>,
) -> bool {
    forall|methods: Seq<Token>, structs: Seq<Token>| #[trigger]
        builder_merged_tokens(methods, structs) == a + braces(methods) + b + braces(c + structs) + d
}

/// The operations of every client with builders and separate tags stand between
/// the given pieces.
pub open spec fn uniform_separate(
    a: Seq<Token>,
    b: Seq<Token>,
    c: Seq<Token>,
    d: Seq<Token>,
) -> bool {
    forall|traits: Seq<Token>, preludes: Seq<Token>, structs: Seq<Token>| #[trigger]
        builder_separate_tokens(traits, preludes, structs) == traits + a + braces(b + structs) + c
            + braces(d + preludes)
}

} // verus!
