//! What holds of the multipart forms of a document.
use crate::distinct::{distinct, law_first_occurrences_in_order};
use crate::document::{
    operations_of, Encoding, Listed, MediaType, OpenAPI, Operation, ReferenceOr, Schema,
    SchemaKind, StringFormat, Type, VariantOrUnknownOrEmpty,
};
use crate::multipart::{
    all_encoding_notes, all_notes, all_property_notes, body_form, body_type_name, both_texts,
    content_types, document_parts, encoding_notes, encodings_of, form_properties, forms_of, known_part,
    last_content_type, last_property, law_parts_listed_once, law_schema_and_encodings,
    lemma_only_content_types, lemma_only_properties, only_content_types, only_properties, part_of,
    property_kind, rows, table, under_media_type, Form, FormPart, NamedForm, Note, PartKind, Says,
};
use crate::text::law_capital_in_front;
use vstd::prelude::*;

verus! {

/// A property is a string that is given in place, and has the given format.
pub open spec fn is_string_of(property: ReferenceOr<Schema>, format: StringFormat) -> bool {
    &&& property matches ReferenceOr::Item(schema)
    &&& schema.schema_kind matches SchemaKind::Type(kind)
    &&& kind matches Type::String(string)
    &&& string.format matches VariantOrUnknownOrEmpty::Item(own)
    &&& own == format
}

/// A property is sent as bytes exactly where it is a binary string that is given in
/// place, and as text exactly where it is a string of another known format.
pub proof fn law_how_properties_are_sent(property: ReferenceOr<Schema>)
    ensures
        property_kind(property) == Some(PartKind::Bytes) <==> is_string_of(
            property,
            StringFormat::Binary,
        ),
        property_kind(property) == Some(PartKind::Text) <==> {
            ||| is_string_of(property, StringFormat::Date)
            ||| is_string_of(property, StringFormat::DateTime)
            ||| is_string_of(property, StringFormat::Password)
            ||| is_string_of(property, StringFormat::Byte)
        },
{
}

/// What stands under a media type is what the first entry of that name holds.
proof fn lemma_under_media_type(content: Seq<(String, MediaType)>, name: Seq<char>)
    ensures
        match under_media_type(content, name) {
            Some(found) => exists|i: int|
                {
                    &&& 0 <= i < content.len()
                    &&& (#[trigger] content[i]).0@ == name
                    &&& content[i].1 == found
                    &&& forall|j: int| 0 <= j < i ==> (#[trigger] content[j]).0@ != name
                },
            None => forall|i: int| 0 <= i < content.len() ==> (#[trigger] content[i]).0@ != name,
        },
    decreases content.len(),
{
    if content.len() > 0 && content[0].0@ != name {
        let rest = content.skip(1);
        lemma_under_media_type(rest, name);
        match under_media_type(rest, name) {
            Some(found) => {
                let i = choose|i: int|
                    {
                        &&& 0 <= i < rest.len()
                        &&& (#[trigger] rest[i]).0@ == name
                        &&& rest[i].1 == found
                        &&& forall|j: int| 0 <= j < i ==> (#[trigger] rest[j]).0@ != name
                    };
                assert(content[i + 1].0@ == name);
                assert forall|j: int| 0 <= j < i + 1 implies (#[trigger] content[j]).0@ != name by {
                    if j > 0 {
                        assert(rest[j - 1].0@ != name);
                    }
                }
            },
            None => {
                assert forall|i: int| 0 <= i < content.len() implies (
                #[trigger] content[i]).0@ != name by {
                    if i > 0 {
                        assert(rest[i - 1].0@ != name);
                    }
                }
            },
        }
    }
}

/// An operation has a form exactly where its request body is given in place and
/// has an entry for `multipart/form-data`; the form is what that entry holds.
pub proof fn law_form_of_a_body(operation: Operation)
    ensures
        match body_form(operation) {
            Some(form) => {
                &&& operation.request_body matches Some(ReferenceOr::Item(body))
                &&& exists|i: int|
                    {
                        &&& 0 <= i < body.content@.len()
                        &&& (#[trigger] body.content@[i]).0@ == "multipart/form-data"@
                        &&& body.content@[i].1 == form
                        &&& forall|j: int|
                            0 <= j < i ==> (#[trigger] body.content@[j]).0@
                                != "multipart/form-data"@
                    }
            },
            None => operation.request_body matches Some(ReferenceOr::Item(body)) ==> forall|i: int|
                0 <= i < body.content@.len() ==> (#[trigger] body.content@[i]).0@
                    != "multipart/form-data"@,
        },
{
    if let Some(ReferenceOr::Item(body)) = operation.request_body {
        lemma_under_media_type(body.content@, "multipart/form-data"@);
    }
}

/// The properties of a form are all those of its schema, where that is an object
/// that is given in place. Otherwise it has none.
pub proof fn law_properties_of_a_form(form: MediaType)
    ensures
        forall|schema: Schema|
            form.schema == Some(ReferenceOr::Item(schema)) ==> (
            #[trigger] schema.schema_kind matches SchemaKind::Type(Type::Object(object))
                ==> form_properties(form) == object.properties@),
        form_properties(form).len() > 0 ==> {
            &&& form.schema matches Some(ReferenceOr::Item(schema))
            &&& schema.schema_kind matches SchemaKind::Type(Type::Object(_))
        },
{
}

/// The forms of operations are those of the operations that have a form and an
/// identifier, in their order, under the names of their body types.
pub proof fn law_forms_in_order(operations: Seq<Listed>)
    ensures
        forms_of(operations) == operations.flat_map(
            |listed: Listed|
                if body_form(listed.operation) is Some && listed.operation.operation_id is Some {
                    seq![
                        NamedForm {
                            name: body_type_name(listed.operation.operation_id.unwrap()@),
                            media_type: body_form(listed.operation).unwrap(),
                        },
                    ]
                } else {
                    Seq::empty()
                },
        ),
    decreases operations.len(),
{
    let f = |listed: Listed|
        if body_form(listed.operation) is Some && listed.operation.operation_id is Some {
            seq![
                NamedForm {
                    name: body_type_name(listed.operation.operation_id.unwrap()@),
                    media_type: body_form(listed.operation).unwrap(),
                },
            ]
        } else {
            Seq::empty()
        };
    if operations.len() == 0 {
        assert(operations.map_values(f) =~= Seq::empty());
    } else {
        let shorter = operations.drop_last();
        law_forms_in_order(shorter);
        assert(operations.map_values(f) =~= shorter.map_values(f).push(f(operations.last())));
        shorter.map_values(f).lemma_flatten_push(f(operations.last()));
        assert(forms_of(operations) =~= forms_of(shorter) + f(operations.last()));
    }
}

/// Encodings say of each part that has a content type which it has, in their
/// order, and nothing else.
pub proof fn law_what_encodings_say(form: Seq<char>, encoding: Seq<(String, Encoding)>)
    ensures
        encoding_notes(form, encoding) == encoding.flat_map(
            |entry: (String, Encoding)|
                match entry.1.content_type {
                    Some(text) => seq![
                        Note { form, part: entry.0@, says: Says::ContentType(text@) },
                    ],
                    None => Seq::empty(),
                },
        ),
        content_types(encoding) == encoding.flat_map(
            |entry: (String, Encoding)|
                match entry.1.content_type {
                    Some(text) => seq![(entry.0@, text@)],
                    None => Seq::empty(),
                },
        ),
    decreases encoding.len(),
{
    let f = |entry: (String, Encoding)|
        match entry.1.content_type {
            Some(text) => seq![Note { form, part: entry.0@, says: Says::ContentType(text@) }],
            None => Seq::empty(),
        };
    let g = |entry: (String, Encoding)|
        match entry.1.content_type {
            Some(text) => seq![(entry.0@, text@)],
            None => Seq::empty(),
        };
    if encoding.len() == 0 {
        assert(encoding.map_values(f) =~= Seq::empty());
        assert(encoding.map_values(g) =~= Seq::empty());
    } else {
        let shorter = encoding.drop_last();
        law_what_encodings_say(form, shorter);
        assert(encoding.map_values(f) =~= shorter.map_values(f).push(f(encoding.last())));
        assert(encoding.map_values(g) =~= shorter.map_values(g).push(g(encoding.last())));
        shorter.map_values(f).lemma_flatten_push(f(encoding.last()));
        shorter.map_values(g).lemma_flatten_push(g(encoding.last()));
        assert(encoding_notes(form, encoding) =~= encoding_notes(form, shorter) + f(
            encoding.last(),
        ));
        assert(content_types(encoding) =~= content_types(shorter) + g(encoding.last()));
    }
}

/// Schemas say of each of their properties how it is sent, and nothing else. The
/// forms speak in their order, first all schemas and then all encodings.
pub proof fn law_what_forms_say(forms: Seq<NamedForm>)
    ensures
        all_notes(forms) == forms.flat_map(
            |form: NamedForm|
                form_properties(form.media_type).map_values(
                    |property: (String, ReferenceOr<Schema>)|
                        Note {
                            form: form.name,
                            part: property.0@,
                            says: Says::Property(property_kind(property.1)),
                        },
                ),
        ) + forms.flat_map(
            |form: NamedForm| encoding_notes(form.name, form.media_type.encoding@),
        ),
{
    law_what_schemas_say(forms);
    law_what_all_encodings_say(forms);
}

/// Schemas say of each of their properties how it is sent.
pub proof fn law_what_schemas_say(forms: Seq<NamedForm>)
    ensures
        all_property_notes(forms) == forms.flat_map(
            |form: NamedForm|
                form_properties(form.media_type).map_values(
                    |property: (String, ReferenceOr<Schema>)|
                        Note {
                            form: form.name,
                            part: property.0@,
                            says: Says::Property(property_kind(property.1)),
                        },
                ),
        ),
    decreases forms.len(),
{
    let f = |form: NamedForm|
        form_properties(form.media_type).map_values(
            |property: (String, ReferenceOr<Schema>)|
                Note {
                    form: form.name,
                    part: property.0@,
                    says: Says::Property(property_kind(property.1)),
                },
        );
    if forms.len() == 0 {
        assert(forms.map_values(f) =~= Seq::empty());
    } else {
        let shorter = forms.drop_last();
        law_what_schemas_say(shorter);
        assert(forms.map_values(f) =~= shorter.map_values(f).push(f(forms.last())));
        shorter.map_values(f).lemma_flatten_push(f(forms.last()));
        assert(all_property_notes(forms) =~= all_property_notes(shorter) + f(forms.last()));
    }
}

/// The encodings of forms speak in the order of the forms.
pub proof fn law_what_all_encodings_say(forms: Seq<NamedForm>)
    ensures
        all_encoding_notes(forms) == forms.flat_map(
            |form: NamedForm| encoding_notes(form.name, form.media_type.encoding@),
        ),
    decreases forms.len(),
{
    let f = |form: NamedForm| encoding_notes(form.name, form.media_type.encoding@);
    if forms.len() == 0 {
        assert(forms.map_values(f) =~= Seq::empty());
    } else {
        let shorter = forms.drop_last();
        law_what_all_encodings_say(shorter);
        assert(forms.map_values(f) =~= shorter.map_values(f).push(f(forms.last())));
        shorter.map_values(f).lemma_flatten_push(f(forms.last()));
        assert(all_encoding_notes(forms) =~= all_encoding_notes(shorter) + f(forms.last()));
    }
}

/// The content types that are listed for a document are those of the forms of its
/// operations, in their order.
pub proof fn law_listed_encodings(operations: Seq<Listed>)
    ensures
        encodings_of(operations) == operations.flat_map(
            |listed: Listed|
                if body_form(listed.operation) is Some {
                    content_types(body_form(listed.operation).unwrap().encoding@)
                } else {
                    Seq::empty()
                },
        ),
    decreases operations.len(),
{
    let f = |listed: Listed|
        if body_form(listed.operation) is Some {
            content_types(body_form(listed.operation).unwrap().encoding@)
        } else {
            Seq::empty()
        };
    if operations.len() == 0 {
        assert(operations.map_values(f) =~= Seq::empty());
    } else {
        let shorter = operations.drop_last();
        law_listed_encodings(shorter);
        assert(operations.map_values(f) =~= shorter.map_values(f).push(f(operations.last())));
        shorter.map_values(f).lemma_flatten_push(f(operations.last()));
        assert(encodings_of(operations) =~= encodings_of(shorter) + f(operations.last()));
    }
}

/// Each part of a document is listed once. How it is sent is what the last schema
/// that has it as a property says, and its content type is what the last encoding
/// of it says. Every part of which a schema or an encoding speaks is listed.
pub proof fn law_parts_of_a_document(spec: OpenAPI)
    ensures
        ({
            let forms = forms_of(operations_of(spec.paths@));
            let notes = all_notes(forms);
            let parts = document_parts(spec);
            &&& forall|i: int|
                0 <= i < parts.len() ==> Some((#[trigger] parts[i]).part) == known_part(
                    last_property(all_property_notes(forms), parts[i].form, parts[i].name),
                    last_content_type(all_encoding_notes(forms), parts[i].form, parts[i].name),
                )
            &&& forall|i: int, j: int|
                0 <= i < j < parts.len() ==> (#[trigger] parts[i]).form != (
                #[trigger] parts[j]).form || parts[i].name != parts[j].name
            &&& forall|k: int|
                0 <= k < notes.len() ==> exists|i: int|
                    {
                        &&& 0 <= i < parts.len()
                        &&& (#[trigger] parts[i]).form == (#[trigger] notes[k]).form
                        &&& parts[i].name == notes[k].part
                    }
        }),
{
    let forms = forms_of(operations_of(spec.paths@));
    let notes = all_notes(forms);
    let parts = document_parts(spec);
    law_parts_listed_once(notes);
    assert(parts == table(notes));
    assert forall|i: int| 0 <= i < parts.len() implies Some((#[trigger] parts[i]).part)
        == known_part(
        last_property(all_property_notes(forms), parts[i].form, parts[i].name),
        last_content_type(all_encoding_notes(forms), parts[i].form, parts[i].name),
    ) by {
        law_schema_and_encodings(forms, parts[i].form, parts[i].name);
        let k = choose|k: int|
            {
                &&& 0 <= k < notes.len()
                &&& (#[trigger] notes[k]).form == table(notes)[i].form
                &&& notes[k].part == table(notes)[i].name
            };
        lemma_spoken_of(notes, k);
        assert(table(notes)[i].part == part_of(
            notes,
            table(notes)[i].form,
            table(notes)[i].name,
        ).unwrap());
    }
}

/// A note speaks of a part of a form.
pub open spec fn speaks_of(note: Note, form: Seq<char>, part: Seq<char>) -> bool {
    note.form == form && note.part == part
}

/// How a part is sent and its content type rest on the last note of each kind that
/// speaks of it; where there is none, nothing is known.
pub proof fn law_last_word_counts(spec: OpenAPI, i: int)
    requires
        0 <= i < document_parts(spec).len(),
    ensures
        ({
            let forms = forms_of(operations_of(spec.paths@));
            let schemas = all_property_notes(forms);
            let encodings = all_encoding_notes(forms);
            let row = document_parts(spec)[i];
            &&& forall|k: int|
                {
                    &&& 0 <= k < schemas.len()
                    &&& #[trigger] speaks_of(schemas[k], row.form, row.name)
                    &&& forall|j: int|
                        k < j < schemas.len() ==> !#[trigger] speaks_of(
                            schemas[j],
                            row.form,
                            row.name,
                        )
                } ==> schemas[k].says == Says::Property(row.part.kind)
            &&& (forall|k: int|
                0 <= k < schemas.len() ==> !#[trigger] speaks_of(
                    schemas[k],
                    row.form,
                    row.name,
                )) ==> row.part.kind is None
            &&& forall|k: int|
                {
                    &&& 0 <= k < encodings.len()
                    &&& #[trigger] speaks_of(encodings[k], row.form, row.name)
                    &&& forall|j: int|
                        k < j < encodings.len() ==> !#[trigger] speaks_of(
                            encodings[j],
                            row.form,
                            row.name,
                        )
                } ==> row.part.content_type is Some && encodings[k].says == Says::ContentType(
                    row.part.content_type.unwrap(),
                )
            &&& (forall|k: int|
                0 <= k < encodings.len() ==> !#[trigger] speaks_of(
                    encodings[k],
                    row.form,
                    row.name,
                )) ==> row.part.content_type is None
        }),
{
    let forms = forms_of(operations_of(spec.paths@));
    let schemas = all_property_notes(forms);
    let encodings = all_encoding_notes(forms);
    let row = document_parts(spec)[i];
    law_parts_of_a_document(spec);
    assert(Some(row.part) == known_part(
        last_property(schemas, row.form, row.name),
        last_content_type(encodings, row.form, row.name),
    ));
    lemma_only_properties(forms);
    lemma_only_content_types(forms);
    lemma_last_property(schemas, row.form, row.name);
    lemma_last_content_type(encodings, row.form, row.name);
}

/// The last property of a part is that of the last note that speaks of it.
proof fn lemma_last_property(notes: Seq<Note>, form: Seq<char>, part: Seq<char>)
    requires
        only_properties(notes),
    ensures
        forall|k: int|
            {
                &&& 0 <= k < notes.len()
                &&& #[trigger] speaks_of(notes[k], form, part)
                &&& forall|j: int|
                    k < j < notes.len() ==> !#[trigger] speaks_of(notes[j], form, part)
            } ==> last_property(notes, form, part) is Some && notes[k].says == Says::Property(
                last_property(notes, form, part).unwrap(),
            ),
        (forall|k: int| 0 <= k < notes.len() ==> !#[trigger] speaks_of(notes[k], form, part))
            ==> last_property(notes, form, part) is None,
    decreases notes.len(),
{
    if notes.len() > 0 {
        let shorter = notes.drop_last();
        let n = notes.len() - 1;
        assert(notes[n].says is Property);
        assert(only_properties(shorter)) by {
            assert forall|i: int| 0 <= i < shorter.len() implies (
            #[trigger] shorter[i]).says is Property by {
                assert(notes[i].says is Property);
            }
        }
        lemma_last_property(shorter, form, part);
        assert forall|k: int|
            {
                &&& 0 <= k < notes.len()
                &&& #[trigger] speaks_of(notes[k], form, part)
                &&& forall|j: int|
                    k < j < notes.len() ==> !#[trigger] speaks_of(notes[j], form, part)
            } implies last_property(notes, form, part) is Some && notes[k].says
            == Says::Property(last_property(notes, form, part).unwrap()) by {
            if k < n {
                assert(!speaks_of(notes[n], form, part));
                assert(speaks_of(shorter[k], form, part));
                assert forall|j: int| k < j < shorter.len() implies !#[trigger] speaks_of(
                    shorter[j],
                    form,
                    part,
                ) by {
                    assert(!speaks_of(notes[j], form, part));
                }
            }
        }
        if forall|k: int| 0 <= k < notes.len() ==> !#[trigger] speaks_of(notes[k], form, part) {
            assert(!speaks_of(notes[n], form, part));
            assert forall|k: int| 0 <= k < shorter.len() implies !#[trigger] speaks_of(
                shorter[k],
                form,
                part,
            ) by {
                assert(!speaks_of(notes[k], form, part));
            }
        }
    }
}

/// The last content type of a part is that of the last note that speaks of it.
proof fn lemma_last_content_type(notes: Seq<Note>, form: Seq<char>, part: Seq<char>)
    requires
        only_content_types(notes),
    ensures
        forall|k: int|
            {
                &&& 0 <= k < notes.len()
                &&& #[trigger] speaks_of(notes[k], form, part)
                &&& forall|j: int|
                    k < j < notes.len() ==> !#[trigger] speaks_of(notes[j], form, part)
            } ==> last_content_type(notes, form, part) is Some && notes[k].says
                == Says::ContentType(last_content_type(notes, form, part).unwrap()),
        (forall|k: int| 0 <= k < notes.len() ==> !#[trigger] speaks_of(notes[k], form, part))
            ==> last_content_type(notes, form, part) is None,
    decreases notes.len(),
{
    if notes.len() > 0 {
        let shorter = notes.drop_last();
        let n = notes.len() - 1;
        assert(notes[n].says is ContentType);
        assert(only_content_types(shorter)) by {
            assert forall|i: int| 0 <= i < shorter.len() implies (
            #[trigger] shorter[i]).says is ContentType by {
                assert(notes[i].says is ContentType);
            }
        }
        lemma_last_content_type(shorter, form, part);
        assert forall|k: int|
            {
                &&& 0 <= k < notes.len()
                &&& #[trigger] speaks_of(notes[k], form, part)
                &&& forall|j: int|
                    k < j < notes.len() ==> !#[trigger] speaks_of(notes[j], form, part)
            } implies last_content_type(notes, form, part) is Some && notes[k].says
            == Says::ContentType(last_content_type(notes, form, part).unwrap()) by {
            if k < n {
                assert(!speaks_of(notes[n], form, part));
                assert(speaks_of(shorter[k], form, part));
                assert forall|j: int| k < j < shorter.len() implies !#[trigger] speaks_of(
                    shorter[j],
                    form,
                    part,
                ) by {
                    assert(!speaks_of(notes[j], form, part));
                }
            }
        }
        if forall|k: int| 0 <= k < notes.len() ==> !#[trigger] speaks_of(notes[k], form, part) {
            assert(!speaks_of(notes[n], form, part));
            assert forall|k: int| 0 <= k < shorter.len() implies !#[trigger] speaks_of(
                shorter[k],
                form,
                part,
            ) by {
                assert(!speaks_of(notes[k], form, part));
            }
        }
    }
}

/// Something is known of a part of which a note speaks.
proof fn lemma_spoken_of(notes: Seq<Note>, k: int)
    requires
        0 <= k < notes.len(),
    ensures
        part_of(notes, notes[k].form, notes[k].part) is Some,
    decreases notes.len(),
{
    if k < notes.len() - 1 {
        lemma_spoken_of(notes.drop_last(), k);
    }
}

/// The name of a body type is the identifier of its operation with `Body` behind
/// it. It differs at most in its first character: an ASCII letter in lower case
/// gives way to the letter in upper case.
pub proof fn law_name_of_a_body_type(operation_id: Seq<char>)
    ensures
        ({
            let name = body_type_name(operation_id);
            let plain = operation_id + seq!['B', 'o', 'd', 'y'];
            &&& name.len() == plain.len()
            &&& forall|i: int| 0 < i < plain.len() ==> name[i] == plain[i]
            &&& 'a' <= plain[0] <= 'z' ==> name[0] as int + 32 == plain[0] as int
            &&& !('a' <= plain[0] <= 'z') ==> name[0] == plain[0]
        }),
{
    reveal_strlit("Body");
    assert(operation_id + "Body"@ =~= operation_id + seq!['B', 'o', 'd', 'y']);
    law_capital_in_front(operation_id + "Body"@);
}

/// Parts are listed in the order in which they are first spoken of: of two, the one
/// that is listed first is spoken of before anything is said of the other.
pub proof fn law_parts_in_order(notes: Seq<Note>, i: int, j: int)
    requires
        0 <= i < j < table(notes).len(),
    ensures
        exists|k: int|
            {
                &&& 0 <= k < notes.len()
                &&& #[trigger] speaks_of(notes[k], table(notes)[i].form, table(notes)[i].name)
                &&& forall|m: int|
                    0 <= m <= k ==> !#[trigger] speaks_of(
                        notes[m],
                        table(notes)[j].form,
                        table(notes)[j].name,
                    )
            },
{
    let keys = notes.map_values(|n: Note| (n.form, n.part));
    law_first_occurrences_in_order(keys, i, j);
    let k = choose|k: int|
        {
            &&& 0 <= k < keys.len()
            &&& #[trigger] keys[k] == distinct(keys)[i]
            &&& forall|m: int| 0 <= m <= k ==> #[trigger] keys[m] != distinct(keys)[j]
        };
    assert(speaks_of(notes[k], table(notes)[i].form, table(notes)[i].name));
    assert forall|m: int| 0 <= m <= k implies !#[trigger] speaks_of(
        notes[m],
        table(notes)[j].form,
        table(notes)[j].name,
    ) by {
        assert(keys[m] != distinct(keys)[j]);
    }
}

/// A form is spoken of by its own name and its own media type, and a part by what it
/// holds. Nothing is added or left out.
pub proof fn law_forms_and_parts_as_they_are(
    form: Form<'_>,
    part: FormPart,
    parts: Seq<FormPart>,
    pair: (String, String),
)
    ensures
        form@.name == form.name@,
        form@.media_type == *form.media_type,
        part@.form == part.form@,
        part@.name == part.name@,
        part@.part.kind == part.kind,
        part.content_type is Some <==> part@.part.content_type is Some,
        part.content_type is Some ==> part@.part.content_type.unwrap()
            == part.content_type.unwrap()@,
        rows(parts).len() == parts.len(),
        forall|i: int| 0 <= i < parts.len() ==> #[trigger] rows(parts)[i] == parts[i]@,
        both_texts(pair).0 == pair.0@,
        both_texts(pair).1 == pair.1@,
{
}

} // verus!
