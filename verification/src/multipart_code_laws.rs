//! What holds of the code of every form.
use crate::distinct::{distinct, law_first_occurrences_in_order};
use crate::document::{operations_of, OpenAPI};
use crate::multipart::{document_parts, PartKind, Row};
use crate::multipart_code::{
    form_order, form_tokens, forms_tokens, law_forms_rendered_once, may_read, may_read_all,
    may_refuse_one, may_render, multipart_ready, multipart_tokens, name_can_be_capitalized,
    names_can_be_capitalized, part_order, part_tokens, parts_tokens, streams_tokens, Names,
};
use crate::template::{law_word_is_an_identifier, quoted};
use crate::tokens::{braces, ident, is_word, parens, readings, text_literal, tokens, Token};
use proc_macro2::TokenStream;
use vstd::prelude::*;

verus! {

/// The statements that add the parts of one form are those of its parts, in the
/// order of the parts, each with its own name, content type and kind.
pub proof fn law_parts_are_added_in_order(
    form: Seq<char>,
    all: Seq<Row>,
    codes: Seq<Seq<Token>>,
)
    ensures
        parts_tokens(form, all, codes) == Seq::new(
            all.len(),
            |i: int|
                if all[i].form == form {
                    part_tokens(
                        all[i].name,
                        all[i].part.content_type.unwrap(),
                        all[i].part.kind == Some(PartKind::Bytes),
                        codes[i],
                    )
                } else {
                    Seq::empty()
                },
        ).flatten(),
    decreases all.len(),
{
    let f = |i: int|
        if all[i].form == form {
            part_tokens(
                all[i].name,
                all[i].part.content_type.unwrap(),
                all[i].part.kind == Some(PartKind::Bytes),
                codes[i],
            )
        } else {
            Seq::empty()
        };
    let chunks = Seq::new(all.len(), f);
    if all.len() == 0 {
        assert(chunks =~= Seq::empty());
    } else {
        let shorter = all.drop_last();
        law_parts_are_added_in_order(form, shorter, codes);
        let fewer = Seq::new(
            shorter.len(),
            |i: int|
                if shorter[i].form == form {
                    part_tokens(
                        shorter[i].name,
                        shorter[i].part.content_type.unwrap(),
                        shorter[i].part.kind == Some(PartKind::Bytes),
                        codes[i],
                    )
                } else {
                    Seq::empty()
                },
        );
        let last = f(all.len() - 1);
        assert(chunks =~= fewer.push(last));
        fewer.lemma_flatten_push(last);
        assert(parts_tokens(form, all, codes) =~= parts_tokens(form, shorter, codes) + last);
    }
}

/// Every form gets its method, one after the other, each with all its parts.
pub proof fn law_forms_are_written_in_order(all: Seq<Row>, names: Names)
    ensures
        multipart_tokens(all, names) == Seq::new(
            form_order(all).len(),
            |k: int|
                form_tokens(names.forms[k], parts_tokens(form_order(all)[k], all, names.parts)),
        ).flatten(),
{
    lemma_forms_in_order(form_order(all), names.forms, all, names.parts);
}

/// The methods of forms come one after the other.
proof fn lemma_forms_in_order(
    forms: Seq<Seq<char>>,
    names: Seq<Seq<Token>>,
    all: Seq<Row>,
    codes: Seq<Seq<Token>>,
)
    ensures
        forms_tokens(forms, names, all, codes) == Seq::new(
            forms.len(),
            |k: int| form_tokens(names[k], parts_tokens(forms[k], all, codes)),
        ).flatten(),
    decreases forms.len(),
{
    let chunks = Seq::new(
        forms.len(),
        |k: int| form_tokens(names[k], parts_tokens(forms[k], all, codes)),
    );
    if forms.len() == 0 {
        assert(chunks =~= Seq::empty());
    } else {
        let shorter = forms.drop_last();
        lemma_forms_in_order(shorter, names, all, codes);
        let fewer = Seq::new(
            shorter.len(),
            |k: int| form_tokens(names[k], parts_tokens(shorter[k], all, codes)),
        );
        let last = form_tokens(
            names[forms.len() - 1],
            parts_tokens(forms.last(), all, codes),
        );
        assert(chunks =~= fewer.push(last));
        fewer.lemma_flatten_push(last);
    }
}

/// The pieces of which the statements for a part are made.
pub struct PartPieces {
    /// Before the name.
    pub start: Seq<Token>,
    /// Between the name and the kind.
    pub equals: Seq<Token>,
    /// Before the name of the field.
    pub field: Seq<Token>,
    /// Behind the name of the field.
    pub copy: Seq<Token>,
    /// Before the content type.
    pub mime: Seq<Token>,
    /// Between the content type and the name of the part.
    pub add_to: Seq<Token>,
    /// Between the name of the part and its value.
    pub comma: Seq<Token>,
    /// Behind all.
    pub end: Seq<Token>,
}

/// Statements for a part that are made of given pieces.
pub open spec fn pieced_part(
    pieces: PartPieces,
    name: Seq<char>,
    content_type: Seq<char>,
    binary: bool,
    code: Seq<Token>,
) -> Seq<Token> {
    pieces.start + code + pieces.equals + (if binary {
        ident(seq!['b', 'y', 't', 'e', 's'])
    } else {
        ident(seq!['t', 'e', 'x', 't'])
    }) + parens(pieces.field + code + pieces.copy) + pieces.mime + parens(
        text_literal(content_type),
    ) + pieces.add_to + parens(text_literal(name) + pieces.comma + code) + pieces.end
}

/// The statements for every part are made of the given pieces.
pub open spec fn uniform_parts(pieces: PartPieces) -> bool {
    forall|name: Seq<char>, content_type: Seq<char>, binary: bool, code: Seq<Token>| #[trigger]
        part_tokens(name, content_type, binary, code) == pieced_part(
            pieces,
            name,
            content_type,
            binary,
            code,
        )
}

/// The statements that add a part are the same for every part, but for its name,
/// its content type and whether it is sent as bytes or as text. All of these are
/// written as they are.
pub proof fn law_parts_are_uniform()
    ensures
        exists|pieces: PartPieces| #[trigger] uniform_parts(pieces),
{
    reveal_strlit("bytes");
    reveal_strlit("text");
    assert("bytes"@ =~= seq!['b', 'y', 't', 'e', 's']);
    assert("text"@ =~= seq!['t', 'e', 'x', 't']);
    law_word_is_an_identifier("bytes"@);
    law_word_is_an_identifier("text"@);
    let pieces = PartPieces {
        start: quoted("let"@),
        equals: quoted("= reqwest::multipart::Part::"@),
        field: quoted("self."@),
        copy: quoted(".clone()"@),
        mime: quoted(".mime_str"@),
        add_to: quoted("? ; form = form.part"@),
        comma: quoted(","@),
        end: quoted(";"@),
    };
    assert forall|name: Seq<char>, content_type: Seq<char>, binary: bool, code: Seq<Token>| #[trigger]
        part_tokens(name, content_type, binary, code) == pieced_part(
        pieces,
        name,
        content_type,
        binary,
        code,
    ) by {
        assert(part_tokens(name, content_type, binary, code) =~= pieced_part(
            pieces,
            name,
            content_type,
            binary,
            code,
        ));
    }
    assert(uniform_parts(pieces));
}

/// The method of every form is made of the given pieces.
pub open spec fn uniform_forms(
    a: Seq<Token>,
    b: Seq<Token>,
    c: Seq<Token>,
    d: Seq<Token>,
) -> bool {
    forall|name: Seq<Token>, parts: Seq<Token>| #[trigger]
        form_tokens(name, parts) == a + name + braces(b + braces(c + parts + d))
}

/// The method of a form is the same for every form, but for its name and the
/// statements that add its parts.
pub proof fn law_forms_are_uniform()
    ensures
        exists|a: Seq<Token>, b: Seq<Token>, c: Seq<Token>, d: Seq<Token>| #[trigger]
            uniform_forms(a, b, c, d),
{
    assert(uniform_forms(
        quoted("impl"@),
        quoted("pub fn into_multipart(self) -> Result<reqwest::multipart::Form, reqwest::Error>"@),
        quoted("let mut form = reqwest::multipart::Form::new();"@),
        quoted("Ok(form)"@),
    ));
}

/// The forms of a document can be rendered exactly where every part has a kind and a
/// content type, and no operation with a request body has an identifier that begins
/// with a character beyond ASCII.
pub proof fn law_what_can_be_rendered(spec: OpenAPI)
    ensures
        multipart_ready(spec) <==> {
            &&& forall|i: int|
                0 <= i < document_parts(spec).len() ==> (
                #[trigger] document_parts(spec)[i]).part.kind is Some && document_parts(
                    spec,
                )[i].part.content_type is Some
            &&& forall|i: int|
                0 <= i < operations_of(spec.paths@).len() ==> !({
                    let operation = (#[trigger] operations_of(spec.paths@)[i]).operation;
                    &&& operation.request_body is Some
                    &&& operation.operation_id is Some
                    &&& operation.operation_id.unwrap()@.len() > 0
                    &&& operation.operation_id.unwrap()@[0] as u32 >= 128
                })
        },
{
    let operations = operations_of(spec.paths@);
    if multipart_ready(spec) {
        assert forall|i: int| 0 <= i < operations.len() implies !({
            let operation = (#[trigger] operations[i]).operation;
            &&& operation.request_body is Some
            &&& operation.operation_id is Some
            &&& operation.operation_id.unwrap()@.len() > 0
            &&& operation.operation_id.unwrap()@[0] as u32 >= 128
        }) by {
            assert(name_can_be_capitalized(operations[i]));
        }
    }
    if forall|i: int|
        0 <= i < operations.len() ==> !({
            let operation = (#[trigger] operations[i]).operation;
            &&& operation.request_body is Some
            &&& operation.operation_id is Some
            &&& operation.operation_id.unwrap()@.len() > 0
            &&& operation.operation_id.unwrap()@[0] as u32 >= 128
        }) {
        assert(names_can_be_capitalized(operations));
    }
}

/// Where something comes of rendering the forms of a document, it is their methods,
/// with every name as it was read; an ASCII identifier is read as itself. Where
/// nothing comes, a name was refused, and it was no ASCII identifier.
pub proof fn law_what_comes_of_rendering(spec: OpenAPI, rendered: Option<Seq<Token>>)
    requires
        may_render(spec, rendered),
    ensures
        match rendered {
            Some(methods) => exists|names: Names|
                {
                    &&& methods == #[trigger] multipart_tokens(document_parts(spec), names)
                    &&& names.parts.len() == document_parts(spec).len()
                    &&& forall|i: int|
                        0 <= i < document_parts(spec).len() ==> readings(
                            (#[trigger] document_parts(spec)[i]).name,
                        ).contains(Some(names.parts[i])) && (is_word(
                            document_parts(spec)[i].name,
                        ) ==> names.parts[i] == ident(document_parts(spec)[i].name))
                    &&& names.forms.len() == form_order(document_parts(spec)).len()
                    &&& forall|k: int|
                        0 <= k < form_order(document_parts(spec)).len() ==> readings(
                            #[trigger] form_order(document_parts(spec))[k],
                        ).contains(Some(names.forms[k])) && (is_word(
                            form_order(document_parts(spec))[k],
                        ) ==> names.forms[k] == ident(form_order(document_parts(spec))[k]))
                },
            None => exists|i: int|
                {
                    &&& 0 <= i < document_parts(spec).len()
                    &&& {
                        ||| readings((#[trigger] document_parts(spec)[i]).name).contains(None)
                            && !is_word(document_parts(spec)[i].name)
                        ||| readings(document_parts(spec)[i].form).contains(None) && !is_word(
                            document_parts(spec)[i].form,
                        )
                    }
                },
        },
{
    let all = document_parts(spec);
    match rendered {
        Some(methods) => {
            let names = choose|names: Names|
                {
                    &&& may_read_all(part_order(all), names.parts)
                    &&& may_read_all(form_order(all), names.forms)
                    &&& methods == #[trigger] multipart_tokens(all, names)
                };
            assert forall|i: int| 0 <= i < all.len() implies readings(
                (#[trigger] all[i]).name,
            ).contains(Some(names.parts[i])) && (is_word(all[i].name) ==> names.parts[i] == ident(
                all[i].name,
            )) by {
                assert(may_read(part_order(all)[i], Some(names.parts[i])));
            }
            assert(methods == multipart_tokens(all, names));
        },
        None => {
            law_forms_rendered_once(all);
            if may_refuse_one(part_order(all)) {
                let i = choose|i: int|
                    0 <= i < part_order(all).len() && may_read(#[trigger] part_order(all)[i], None);
                assert(all[i].name == part_order(all)[i]);
            } else {
                let k = choose|k: int|
                    0 <= k < form_order(all).len() && may_read(#[trigger] form_order(all)[k], None);
                let i = choose|i: int|
                    0 <= i < all.len() && (#[trigger] all[i]).form == form_order(all)[k];
                assert(readings(all[i].form).contains(None));
                assert(readings(all[i].name) == readings(all[i].name));
            }
        },
    }
}

/// Forms are written in the order in which their parts are listed: of two, the one
/// that is written first has a part before which the other has none.
pub proof fn law_order_of_forms(all: Seq<Row>, i: int, j: int)
    requires
        0 <= i < j < form_order(all).len(),
    ensures
        exists|k: int|
            {
                &&& 0 <= k < all.len()
                &&& (#[trigger] all[k]).form == form_order(all)[i]
                &&& forall|m: int| 0 <= m <= k ==> (#[trigger] all[m]).form != form_order(all)[j]
            },
{
    let forms = all.map_values(|r: Row| r.form);
    law_first_occurrences_in_order(forms, i, j);
    let k = choose|k: int|
        {
            &&& 0 <= k < forms.len()
            &&& #[trigger] forms[k] == distinct(forms)[i]
            &&& forall|m: int| 0 <= m <= k ==> #[trigger] forms[m] != distinct(forms)[j]
        };
    assert(all[k].form == form_order(all)[i]);
    assert forall|m: int| 0 <= m <= k implies (#[trigger] all[m]).form != form_order(all)[j] by {
        assert(forms[m] != distinct(forms)[j]);
    }
}

/// Streams are spoken of by their tokens, one after the other.
pub proof fn law_streams_by_their_tokens(streams: Seq<TokenStream>)
    ensures
        streams_tokens(streams).len() == streams.len(),
        forall|i: int|
            0 <= i < streams.len() ==> #[trigger] streams_tokens(streams)[i] == tokens(streams[i]),
{
}

} // verus!
