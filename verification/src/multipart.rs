//! Code for the bodies that are sent as `multipart/form-data`.
//!
//! An operation whose request body is such a form gets a method on the type of
//! its body that turns a value into the form. What the form holds is gathered
//! from the schema of the body, which says whether a part is text or bytes, and
//! from the encodings, which give each part its content type.
use crate::distinct::{distinct, lemma_distinct, lemma_distinct_push};
use crate::document::{
    operations_of, Encoding, Listed, MediaType, OpenAPI, Operation, OperationRef, ReferenceOr,
    Schema, SchemaKind, StringFormat, Type, VariantOrUnknownOrEmpty,
};
use crate::text::{capitalize, capitalized, same_text, upper};
use crate::validate::{law_valid_documents, objection, operation_id};
use vstd::prelude::*;
use vstd::string::*;

verus! {

/// The name of the type of a request body: that of its operation, with a
/// capital in front and `Body` behind.
pub open spec fn body_type_name(operation_id: Seq<char>) -> Seq<char> {
    capitalized(operation_id + "Body"@)
}

/// What stands under a media type, where it stands there.
pub open spec fn under_media_type(content: Seq<(String, MediaType)>, name: Seq<char>) -> Option<
    MediaType,
>
    decreases content.len(),
{
    if content.len() == 0 {
        None
    } else if content[0].0@ == name {
        Some(content[0].1)
    } else {
        under_media_type(content.skip(1), name)
    }
}

/// The form that a request body is, where it is one.
pub open spec fn body_form(operation: Operation) -> Option<MediaType> {
    match operation.request_body {
        Some(ReferenceOr::Item(body)) => under_media_type(
            body.content@,
            "multipart/form-data"@,
        ),
        _ => None,
    }
}

/// A form with the name of the type of the body.
pub struct NamedForm {
    /// The name of the type.
    pub name: Seq<char>,
    /// The form.
    pub media_type: MediaType,
}

/// The form of an operation, where it has one and can be named.
pub open spec fn operation_form(operation: Operation) -> Option<NamedForm> {
    match (body_form(operation), operation.operation_id) {
        (Some(media_type), Some(id)) => Some(NamedForm { name: body_type_name(id@), media_type }),
        _ => None,
    }
}

/// The forms of some operations, in their order.
pub open spec fn forms_of(operations: Seq<Listed>) -> Seq<NamedForm>
    decreases operations.len(),
{
    if operations.len() == 0 {
        Seq::empty()
    } else {
        let earlier = forms_of(operations.drop_last());
        match operation_form(operations.last().operation) {
            Some(form) => earlier.push(form),
            None => earlier,
        }
    }
}

/// A form of a document, borrowed from it.
pub struct Form<'a> {
    /// The name of the type of the body.
    pub name: String,
    /// The form.
    pub media_type: &'a MediaType,
}

impl<'a> View for Form<'a> {
    type V = NamedForm;

    open spec fn view(&self) -> NamedForm {
        NamedForm { name: self.name@, media_type: *self.media_type }
    }
}

/// Finds what stands under a media type.
fn find_media_type<'a>(content: &'a Vec<(String, MediaType)>, name: &str) -> (found: Option<
    &'a MediaType,
>)
    ensures
        match found {
            Some(media_type) => under_media_type(content@, name@) == Some(*media_type),
            None => under_media_type(content@, name@) is None,
        },
{
    let mut i: usize = 0;
    assert(content@.skip(0) =~= content@);
    while i < content.len()
        invariant
            0 <= i <= content@.len(),
            under_media_type(content@, name@) == under_media_type(content@.skip(i as int), name@),
        decreases content@.len() - i,
    {
        if same_text(content[i].0.as_str(), name) {
            return Some(&content[i].1);
        }
        assert(content@.skip(i as int).skip(1) =~= content@.skip(i + 1));
        i = i + 1;
    }
    None
}

/// Finds the form that a request body is.
fn find_form<'a>(operation: &'a Operation) -> (found: Option<&'a MediaType>)
    ensures
        match found {
            Some(media_type) => body_form(*operation) == Some(*media_type),
            None => body_form(*operation) is None,
        },
{
    match &operation.request_body {
        Some(ReferenceOr::Item(body)) => find_media_type(&body.content, "multipart/form-data"),
        _ => None,
    }
}

/// The forms of a document, in its order.
pub fn multipart_forms<'a>(spec: &'a OpenAPI) -> (forms: Vec<Form<'a>>)
    ensures
        forms@.map_values(|f: Form<'_>| f@) == forms_of(operations_of(spec.paths@)),
{
    let operations = spec.operations();
    let ghost listed = operations@.map_values(|r: OperationRef<'_>| r@);
    let mut forms: Vec<Form<'a>> = Vec::new();
    let mut i: usize = 0;
    assert(forms@.map_values(|f: Form<'_>| f@) =~= forms_of(listed.take(0)));
    while i < operations.len()
        invariant
            0 <= i <= operations@.len(),
            listed == operations@.map_values(|r: OperationRef<'_>| r@),
            forms@.map_values(|f: Form<'_>| f@) == forms_of(listed.take(i as int)),
        decreases operations@.len() - i,
    {
        let operation: &'a Operation = operations[i].operation;
        let ghost before = forms@;
        assert(listed.take(i + 1).drop_last() =~= listed.take(i as int));
        assert(listed.take(i + 1).last().operation == *operation);
        if let Some(media_type) = find_form(operation) {
            if let Some(id) = &operation.operation_id {
                let name = capitalize(id.clone().concat("Body").as_str());
                let form = Form { name, media_type };
                forms.push(form);
                assert(forms@.map_values(|f: Form<'_>| f@) =~= before.map_values(
                    |f: Form<'_>| f@,
                ).push(form@));
            }
        }
        i = i + 1;
    }
    assert(listed.take(i as int) =~= listed);
    forms
}

/// The properties of a form that are given a content type, each with its content type.
pub open spec fn content_types(encoding: Seq<(String, Encoding)>) -> Seq<(Seq<char>, Seq<char>)>
    decreases encoding.len(),
{
    if encoding.len() == 0 {
        Seq::empty()
    } else {
        let earlier = content_types(encoding.drop_last());
        match encoding.last().1.content_type {
            Some(content_type) => earlier.push((encoding.last().0@, content_type@)),
            None => earlier,
        }
    }
}

/// The content types that the forms of some operations give to their properties.
pub open spec fn encodings_of(operations: Seq<Listed>) -> Seq<(Seq<char>, Seq<char>)>
    decreases operations.len(),
{
    if operations.len() == 0 {
        Seq::empty()
    } else {
        let earlier = encodings_of(operations.drop_last());
        match body_form(operations.last().operation) {
            Some(form) => earlier + content_types(form.encoding@),
            None => earlier,
        }
    }
}

/// Two texts by what they hold.
pub open spec fn both_texts(pair: (String, String)) -> (Seq<char>, Seq<char>) {
    (pair.0@, pair.1@)
}

/// The properties of the forms of a document that are given a content type, each
/// with its content type.
pub fn multipart_encodings(spec: &OpenAPI) -> (encodings: Vec<(String, String)>)
    ensures
        encodings@.map_values(|e: (String, String)| both_texts(e)) == encodings_of(
            operations_of(spec.paths@),
        ),
{
    let operations = spec.operations();
    let ghost listed = operations@.map_values(|r: OperationRef<'_>| r@);
    let mut encodings: Vec<(String, String)> = Vec::new();
    let mut i: usize = 0;
    assert(encodings@.map_values(|e: (String, String)| both_texts(e)) =~= encodings_of(
        listed.take(0),
    ));
    while i < operations.len()
        invariant
            0 <= i <= operations@.len(),
            listed == operations@.map_values(|r: OperationRef<'_>| r@),
            encodings@.map_values(|e: (String, String)| both_texts(e)) == encodings_of(
                listed.take(i as int),
            ),
        decreases operations@.len() - i,
    {
        assert(listed.take(i + 1).drop_last() =~= listed.take(i as int));
        assert(listed.take(i + 1).last().operation == *operations@[i as int].operation);
        if let Some(form) = find_form(operations[i].operation) {
            list_content_types(&mut encodings, &form.encoding);
        }
        i = i + 1;
    }
    assert(listed.take(i as int) =~= listed);
    encodings
}

/// Adds the content types that some encodings give to a list.
fn list_content_types(list: &mut Vec<(String, String)>, encoding: &Vec<(String, Encoding)>)
    ensures
        final(list)@.map_values(|e: (String, String)| both_texts(e)) == old(list)@.map_values(
            |e: (String, String)| both_texts(e),
        ) + content_types(encoding@),
{
    let ghost before = list@.map_values(|e: (String, String)| both_texts(e));
    let mut i: usize = 0;
    assert(before + content_types(encoding@.take(0)) =~= before);
    while i < encoding.len()
        invariant
            0 <= i <= encoding@.len(),
            list@.map_values(|e: (String, String)| both_texts(e)) == before + content_types(
                encoding@.take(i as int),
            ),
        decreases encoding@.len() - i,
    {
        let ghost earlier = list@.map_values(|e: (String, String)| both_texts(e));
        let entry = &encoding[i];
        assert(encoding@.take(i + 1).drop_last() =~= encoding@.take(i as int));
        if let Some(content_type) = &entry.1.content_type {
            let pair = (entry.0.clone(), content_type.clone());
            list.push(pair);
            assert(list@.map_values(|e: (String, String)| both_texts(e)) =~= earlier.push(
                both_texts(pair),
            ));
            assert(before + content_types(encoding@.take(i + 1)) =~= earlier.push(
                (entry.0@, content_type@),
            ));
        }
        i = i + 1;
    }
    assert(encoding@.take(i as int) =~= encoding@);
}

/// How a part of a form is sent.
#[derive(Clone, Copy, Debug, PartialEq, Eq, Structural)]
pub enum PartKind {
    /// As bytes.
    Bytes,
    /// As text.
    Text,
}

/// How a property is sent: a string of the binary format as bytes, a string of
/// any other known format as text. Nothing is known of other properties.
pub open spec fn property_kind(property: ReferenceOr<Schema>) -> Option<PartKind> {
    match property {
        ReferenceOr::Item(Schema { schema_kind: SchemaKind::Type(Type::String(string)) }) => {
            match string.format {
                VariantOrUnknownOrEmpty::Item(StringFormat::Binary) => Some(PartKind::Bytes),
                VariantOrUnknownOrEmpty::Item(_) => Some(PartKind::Text),
                _ => None,
            }
        },
        _ => None,
    }
}

/// The properties of a form: those of its schema, where that is an object.
pub open spec fn form_properties(media_type: MediaType) -> Seq<(String, ReferenceOr<Schema>)> {
    match media_type.schema {
        Some(
            ReferenceOr::Item(Schema { schema_kind: SchemaKind::Type(Type::Object(object)) }),
        ) => object.properties@,
        _ => Seq::empty(),
    }
}

/// What a document says of one part of one form.
pub struct Note {
    /// The name of the form.
    pub form: Seq<char>,
    /// The name of the part.
    pub part: Seq<char>,
    /// What is said of the part.
    pub says: Says,
}

/// What is said of a part.
pub enum Says {
    /// The part is a property of the schema.
    Property(Option<PartKind>),
    /// The part has a content type.
    ContentType(Seq<char>),
}

/// What the schema of a form says of its parts.
pub open spec fn property_notes(form: NamedForm) -> Seq<Note> {
    Seq::new(
        form_properties(form.media_type).len(),
        |i: int|
            Note {
                form: form.name,
                part: form_properties(form.media_type)[i].0@,
                says: Says::Property(property_kind(form_properties(form.media_type)[i].1)),
            },
    )
}

/// What some encodings say of the parts of a form.
pub open spec fn encoding_notes(form: Seq<char>, encoding: Seq<(String, Encoding)>) -> Seq<Note>
    decreases encoding.len(),
{
    if encoding.len() == 0 {
        Seq::empty()
    } else {
        let earlier = encoding_notes(form, encoding.drop_last());
        match encoding.last().1.content_type {
            Some(content_type) => earlier.push(
                Note {
                    form,
                    part: encoding.last().0@,
                    says: Says::ContentType(content_type@),
                },
            ),
            None => earlier,
        }
    }
}

/// What the schemas of some forms say of their parts.
pub open spec fn all_property_notes(forms: Seq<NamedForm>) -> Seq<Note>
    decreases forms.len(),
{
    if forms.len() == 0 {
        Seq::empty()
    } else {
        all_property_notes(forms.drop_last()) + property_notes(forms.last())
    }
}

/// What the encodings of some forms say of their parts.
pub open spec fn all_encoding_notes(forms: Seq<NamedForm>) -> Seq<Note>
    decreases forms.len(),
{
    if forms.len() == 0 {
        Seq::empty()
    } else {
        all_encoding_notes(forms.drop_last()) + encoding_notes(
            forms.last().name,
            forms.last().media_type.encoding@,
        )
    }
}

/// All that is said of the parts of some forms: what the schemas say first.
pub open spec fn all_notes(forms: Seq<NamedForm>) -> Seq<Note> {
    all_property_notes(forms) + all_encoding_notes(forms)
}

/// What is known of a part.
pub struct Part {
    /// How it is sent.
    pub kind: Option<PartKind>,
    /// Its content type.
    pub content_type: Option<Seq<char>>,
}

/// What is known of a part once one more thing has been said of it. A property
/// of a later schema takes the place of all that was known.
pub open spec fn part_after(known: Option<Part>, says: Says) -> Part {
    match says {
        Says::Property(kind) => Part { kind, content_type: None },
        Says::ContentType(content_type) => Part {
            kind: match known {
                Some(part) => part.kind,
                None => None,
            },
            content_type: Some(content_type),
        },
    }
}

/// What some notes say of a part, where they say anything.
pub open spec fn part_of(notes: Seq<Note>, form: Seq<char>, part: Seq<char>) -> Option<Part>
    decreases notes.len(),
{
    if notes.len() == 0 {
        None
    } else {
        let known = part_of(notes.drop_last(), form, part);
        if notes.last().form == form && notes.last().part == part {
            Some(part_after(known, notes.last().says))
        } else {
            known
        }
    }
}

/// A part with the names of its form and of itself, and what is known of it.
pub struct Row {
    /// The name of the form.
    pub form: Seq<char>,
    /// The name of the part.
    pub name: Seq<char>,
    /// What is known of the part.
    pub part: Part,
}

/// The parts of which some notes speak, in the order of their first mention.
pub open spec fn mentioned(notes: Seq<Note>) -> Seq<(Seq<char>, Seq<char>)> {
    distinct(notes.map_values(|n: Note| (n.form, n.part)))
}

/// What some notes say: one row for each part of which they speak.
pub open spec fn table(notes: Seq<Note>) -> Seq<Row> {
    Seq::new(
        mentioned(notes).len(),
        |i: int|
            Row {
                form: mentioned(notes)[i].0,
                name: mentioned(notes)[i].1,
                part: part_of(notes, mentioned(notes)[i].0, mentioned(notes)[i].1).unwrap(),
            },
    )
}

/// The parts of the forms of a document.
pub open spec fn document_parts(spec: OpenAPI) -> Seq<Row> {
    table(all_notes(forms_of(operations_of(spec.paths@))))
}

/// A part of a form.
pub struct FormPart {
    /// The name of the form.
    pub form: String,
    /// The name of the part.
    pub name: String,
    /// How the part is sent.
    pub kind: Option<PartKind>,
    /// The content type of the part.
    pub content_type: Option<String>,
}

impl View for FormPart {
    type V = Row;

    open spec fn view(&self) -> Row {
        Row {
            form: self.form@,
            name: self.name@,
            part: Part {
                kind: self.kind,
                content_type: match self.content_type {
                    Some(content_type) => Some(content_type@),
                    None => None,
                },
            },
        }
    }
}

/// The rows that some parts are.
pub open spec fn rows(parts: Seq<FormPart>) -> Seq<Row> {
    parts.map_values(|p: FormPart| p@)
}

/// Notes say something of a part exactly where they mention it.
proof fn lemma_part_mentioned(notes: Seq<Note>, form: Seq<char>, part: Seq<char>)
    ensures
        part_of(notes, form, part) is Some <==> notes.map_values(
            |n: Note| (n.form, n.part),
        ).contains((form, part)),
    decreases notes.len(),
{
    let keys = notes.map_values(|n: Note| (n.form, n.part));
    if notes.len() > 0 {
        let shorter = notes.drop_last();
        let fewer = shorter.map_values(|n: Note| (n.form, n.part));
        lemma_part_mentioned(shorter, form, part);
        assert(keys =~= fewer.push((notes.last().form, notes.last().part)));
        if fewer.contains((form, part)) {
            let i = choose|i: int| 0 <= i < fewer.len() && fewer[i] == (form, part);
            assert(keys[i] == (form, part));
        }
        if keys.contains((form, part)) {
            let i = choose|i: int| 0 <= i < keys.len() && keys[i] == (form, part);
            if i < fewer.len() {
                assert(fewer[i] == (form, part));
            }
        }
        if notes.last().form == form && notes.last().part == part {
            assert(keys[keys.len() - 1] == (form, part));
        }
    }
}

/// What one more note does to the table: it changes the row of its part, or
/// adds one at the end.
proof fn lemma_table_push(notes: Seq<Note>, note: Note)
    ensures
        ({
            let known = part_of(notes, note.form, note.part);
            let row = Row {
                form: note.form,
                name: note.part,
                part: part_after(known, note.says),
            };
            let longer = table(notes.push(note));
            &&& forall|i: int|
                0 <= i < table(notes).len() && table(notes)[i].form == note.form && table(
                    notes,
                )[i].name == note.part ==> {
                    &&& known == Some((#[trigger] table(notes)[i]).part)
                    &&& longer == table(notes).update(i, row)
                }
            &&& (forall|i: int|
                0 <= i < table(notes).len() ==> !((#[trigger] table(notes)[i]).form == note.form
                    && table(notes)[i].name == note.part)) ==> {
                &&& known is None
                &&& longer == table(notes).push(row)
            }
        }),
{
    let longer = notes.push(note);
    let keys = notes.map_values(|n: Note| (n.form, n.part));
    let key = (note.form, note.part);
    let known = part_of(notes, note.form, note.part);
    let row = Row { form: note.form, name: note.part, part: part_after(known, note.says) };
    assert(longer.drop_last() =~= notes);
    assert(longer.map_values(|n: Note| (n.form, n.part)) =~= keys.push(key));
    lemma_distinct_push(keys, key);
    lemma_distinct(keys);
    lemma_part_mentioned(notes, note.form, note.part);
    let old_rows = table(notes);
    let m = mentioned(notes);
    assert forall|i: int|
        0 <= i < old_rows.len() && old_rows[i].form == note.form && old_rows[i].name
            == note.part implies known == Some((#[trigger] old_rows[i]).part) && table(longer)
        == old_rows.update(i, row) by {
        assert(m[i] == key);
        assert(m.contains(key));
        assert(table(longer) =~= old_rows.update(i, row));
    }
    if forall|i: int|
        0 <= i < old_rows.len() ==> !((#[trigger] old_rows[i]).form == note.form
            && old_rows[i].name == note.part) {
        if m.contains(key) {
            let i = choose|i: int| 0 <= i < m.len() && m[i] == key;
            assert(old_rows[i].form == note.form);
        }
        assert(!keys.contains(key));
        assert(table(longer) =~= old_rows.push(row));
    }
}

/// Finds the row of a part.
fn find_part(parts: &Vec<FormPart>, form: &str, name: &str) -> (found: Option<usize>)
    ensures
        match found {
            Some(i) => i < parts@.len() && rows(parts@)[i as int].form == form@ && rows(
                parts@,
            )[i as int].name == name@,
            None => forall|i: int|
                0 <= i < rows(parts@).len() ==> !((#[trigger] rows(parts@)[i]).form == form@
                    && rows(parts@)[i].name == name@),
        },
{
    let mut i: usize = 0;
    while i < parts.len()
        invariant
            0 <= i <= parts@.len(),
            forall|k: int|
                0 <= k < i ==> !((#[trigger] rows(parts@)[k]).form == form@ && rows(
                    parts@,
                )[k].name == name@),
        decreases parts@.len() - i,
    {
        if same_text(parts[i].form.as_str(), form) && same_text(parts[i].name.as_str(), name) {
            return Some(i);
        }
        i = i + 1;
    }
    None
}

/// Takes down that a part is a property of a schema.
fn note_property(
    parts: &mut Vec<FormPart>,
    form: &str,
    name: &str,
    kind: Option<PartKind>,
    notes: Ghost<Seq<Note>>,
)
    requires
        rows(old(parts)@) == table(notes@),
    ensures
        rows(final(parts)@) == table(
            notes@.push(Note { form: form@, part: name@, says: Says::Property(kind) }),
        ),
{
    let part = FormPart { form: form.to_owned(), name: name.to_owned(), kind, content_type: None };
    proof {
        lemma_table_push(
            notes@,
            Note { form: form@, part: name@, says: Says::Property(kind) },
        );
    }
    match find_part(parts, form, name) {
        Some(i) => {
            parts.set(i, part);
            assert(rows(parts@) =~= rows(old(parts)@).update(i as int, part@));
        },
        None => {
            parts.push(part);
            assert(rows(parts@) =~= rows(old(parts)@).push(part@));
        },
    }
}

/// Takes down the content type of a part.
fn note_content_type(
    parts: &mut Vec<FormPart>,
    form: &str,
    name: &str,
    content_type: &str,
    notes: Ghost<Seq<Note>>,
)
    requires
        rows(old(parts)@) == table(notes@),
    ensures
        rows(final(parts)@) == table(
            notes@.push(
                Note { form: form@, part: name@, says: Says::ContentType(content_type@) },
            ),
        ),
{
    proof {
        lemma_table_push(
            notes@,
            Note { form: form@, part: name@, says: Says::ContentType(content_type@) },
        );
    }
    let found = find_part(parts, form, name);
    let kind = match found {
        Some(i) => parts[i].kind,
        None => None,
    };
    let part = FormPart {
        form: form.to_owned(),
        name: name.to_owned(),
        kind,
        content_type: Some(content_type.to_owned()),
    };
    match found {
        Some(i) => {
            parts.set(i, part);
            assert(rows(parts@) =~= rows(old(parts)@).update(i as int, part@));
        },
        None => {
            parts.push(part);
            assert(rows(parts@) =~= rows(old(parts)@).push(part@));
        },
    }
}

/// How a property is sent.
fn kind_of_property(property: &ReferenceOr<Schema>) -> (kind: Option<PartKind>)
    ensures
        kind == property_kind(*property),
{
    match property {
        ReferenceOr::Item(Schema { schema_kind: SchemaKind::Type(Type::String(string)) }) => {
            match &string.format {
                VariantOrUnknownOrEmpty::Item(format) => match format {
                    StringFormat::Binary => Some(PartKind::Bytes),
                    _ => Some(PartKind::Text),
                },
                _ => None,
            }
        },
        _ => None,
    }
}

/// The properties of a form, where its schema is an object.
fn properties_of<'a>(media_type: &'a MediaType) -> (properties: Option<
    &'a Vec<(String, ReferenceOr<Schema>)>,
>)
    ensures
        match properties {
            Some(properties) => form_properties(*media_type) == properties@,
            None => form_properties(*media_type) == Seq::<(String, ReferenceOr<Schema>)>::empty(),
        },
{
    match &media_type.schema {
        Some(
            ReferenceOr::Item(Schema { schema_kind: SchemaKind::Type(Type::Object(object)) }),
        ) => Some(&object.properties),
        _ => None,
    }
}

/// Takes down what the schema of a form says of its parts.
fn note_properties(parts: &mut Vec<FormPart>, form: &Form<'_>, notes: Ghost<Seq<Note>>)
    requires
        rows(old(parts)@) == table(notes@),
    ensures
        rows(final(parts)@) == table(notes@ + property_notes(form@)),
{
    let ghost said = property_notes(form@);
    assert(notes@ + said.take(0) =~= notes@);
    if let Some(properties) = properties_of(form.media_type) {
        let mut i: usize = 0;
        while i < properties.len()
            invariant
                0 <= i <= properties@.len(),
                properties@ == form_properties(*form.media_type),
                said == property_notes(form@),
                rows(parts@) == table(notes@ + said.take(i as int)),
            decreases properties@.len() - i,
        {
            let property = &properties[i];
            let kind = kind_of_property(&property.1);
            note_property(
                parts,
                form.name.as_str(),
                property.0.as_str(),
                kind,
                Ghost(notes@ + said.take(i as int)),
            );
            assert(notes@ + said.take(i + 1) =~= (notes@ + said.take(i as int)).push(
                said[i as int],
            ));
            i = i + 1;
        }
        assert(said.take(i as int) =~= said);
    } else {
        assert(notes@ + said =~= notes@);
    }
}

/// Takes down what the encodings of a form say of its parts.
fn note_encodings(parts: &mut Vec<FormPart>, form: &Form<'_>, notes: Ghost<Seq<Note>>)
    requires
        rows(old(parts)@) == table(notes@),
    ensures
        rows(final(parts)@) == table(
            notes@ + encoding_notes(form@.name, form@.media_type.encoding@),
        ),
{
    let encoding = &form.media_type.encoding;
    let mut i: usize = 0;
    assert(notes@ + encoding_notes(form@.name, encoding@.take(0)) =~= notes@);
    while i < encoding.len()
        invariant
            0 <= i <= encoding@.len(),
            rows(parts@) == table(notes@ + encoding_notes(form@.name, encoding@.take(i as int))),
        decreases encoding@.len() - i,
    {
        let entry = &encoding[i];
        let ghost earlier = encoding_notes(form@.name, encoding@.take(i as int));
        assert(encoding@.take(i + 1).drop_last() =~= encoding@.take(i as int));
        if let Some(content_type) = &entry.1.content_type {
            note_content_type(
                parts,
                form.name.as_str(),
                entry.0.as_str(),
                content_type.as_str(),
                Ghost(notes@ + earlier),
            );
            let ghost next = Note {
                form: form@.name,
                part: entry.0@,
                says: Says::ContentType(content_type@),
            };
            assert(notes@ + earlier.push(next) =~= (notes@ + earlier).push(next));
        }
        i = i + 1;
    }
    assert(encoding@.take(i as int) =~= encoding@);
}

/// The parts of some forms.
pub fn multipart_form_parts(forms: &Vec<Form<'_>>) -> (parts: Vec<FormPart>)
    ensures
        rows(parts@) == table(all_notes(forms@.map_values(|f: Form<'_>| f@))),
{
    let ghost named = forms@.map_values(|f: Form<'_>| f@);
    let mut parts: Vec<FormPart> = Vec::new();
    let mut i: usize = 0;
    assert(rows(parts@) =~= table(all_property_notes(named.take(0))));
    while i < forms.len()
        invariant
            0 <= i <= forms@.len(),
            named == forms@.map_values(|f: Form<'_>| f@),
            rows(parts@) == table(all_property_notes(named.take(i as int))),
        decreases forms@.len() - i,
    {
        assert(named.take(i + 1).drop_last() =~= named.take(i as int));
        note_properties(
            &mut parts,
            &forms[i],
            Ghost(all_property_notes(named.take(i as int))),
        );
        i = i + 1;
    }
    assert(named.take(i as int) =~= named);
    let ghost first = all_property_notes(named);
    let mut j: usize = 0;
    assert(first + all_encoding_notes(named.take(0)) =~= first);
    while j < forms.len()
        invariant
            0 <= j <= forms@.len(),
            named == forms@.map_values(|f: Form<'_>| f@),
            rows(parts@) == table(first + all_encoding_notes(named.take(j as int))),
        decreases forms@.len() - j,
    {
        let ghost earlier = all_encoding_notes(named.take(j as int));
        assert(named.take(j + 1).drop_last() =~= named.take(j as int));
        note_encodings(&mut parts, &forms[j], Ghost(first + earlier));
        let ghost more = encoding_notes(
            named[j as int].name,
            named[j as int].media_type.encoding@,
        );
        assert(first + (earlier + more) =~= (first + earlier) + more);
        j = j + 1;
    }
    assert(named.take(j as int) =~= named);
    parts
}

/// The parts of the forms of a document.
pub fn form_parts(spec: &OpenAPI) -> (parts: Vec<FormPart>)
    ensures
        rows(parts@) == document_parts(*spec),
{
    let forms = multipart_forms(spec);
    multipart_form_parts(&forms)
}

/// Each part is listed once, and the parts that are listed are those of which the
/// notes speak.
pub proof fn law_parts_listed_once(notes: Seq<Note>)
    ensures
        forall|i: int, j: int|
            0 <= i < j < table(notes).len() ==> !((#[trigger] table(notes)[i]).form == (
            #[trigger] table(notes)[j]).form && table(notes)[i].name == table(notes)[j].name),
        forall|k: int|
            0 <= k < notes.len() ==> exists|i: int|
                {
                    &&& 0 <= i < table(notes).len()
                    &&& (#[trigger] table(notes)[i]).form == (#[trigger] notes[k]).form
                    &&& table(notes)[i].name == notes[k].part
                },
        forall|i: int|
            0 <= i < table(notes).len() ==> exists|k: int|
                {
                    &&& 0 <= k < notes.len()
                    &&& (#[trigger] notes[k]).form == (#[trigger] table(notes)[i]).form
                    &&& notes[k].part == table(notes)[i].name
                },
{
    let keys = notes.map_values(|n: Note| (n.form, n.part));
    let listed = mentioned(notes);
    lemma_distinct(keys);
    assert forall|i: int, j: int| 0 <= i < j < table(notes).len() implies !((#[trigger] table(
        notes,
    )[i]).form == (#[trigger] table(notes)[j]).form && table(notes)[i].name == table(
        notes,
    )[j].name) by {
        assert(listed[i] != listed[j]);
    }
    assert forall|k: int| 0 <= k < notes.len() implies exists|i: int|
        {
            &&& 0 <= i < table(notes).len()
            &&& (#[trigger] table(notes)[i]).form == (#[trigger] notes[k]).form
            &&& table(notes)[i].name == notes[k].part
        } by {
        assert(keys[k] == (notes[k].form, notes[k].part));
        assert(listed.contains(keys[k]));
        let i = choose|i: int| 0 <= i < listed.len() && listed[i] == keys[k];
        assert(table(notes)[i].form == notes[k].form);
    }
    assert forall|i: int| 0 <= i < table(notes).len() implies exists|k: int|
        {
            &&& 0 <= k < notes.len()
            &&& (#[trigger] notes[k]).form == (#[trigger] table(notes)[i]).form
            &&& notes[k].part == table(notes)[i].name
        } by {
        assert(listed.contains(listed[i]));
        let k = choose|k: int| 0 <= k < keys.len() && keys[k] == listed[i];
        assert(notes[k].form == table(notes)[i].form);
    }
}

/// What the last of some schemas that have a part as a property say of how it is
/// sent, where one has it.
pub open spec fn last_property(notes: Seq<Note>, form: Seq<char>, part: Seq<char>) -> Option<
    Option<PartKind>,
>
    decreases notes.len(),
{
    if notes.len() == 0 {
        None
    } else {
        match notes.last().says {
            Says::Property(kind) if notes.last().form == form && notes.last().part == part => Some(
                kind,
            ),
            _ => last_property(notes.drop_last(), form, part),
        }
    }
}

/// The content type that the last of some encodings of a part give it, where
/// there is one.
pub open spec fn last_content_type(notes: Seq<Note>, form: Seq<char>, part: Seq<char>) -> Option<
    Seq<char>,
>
    decreases notes.len(),
{
    if notes.len() == 0 {
        None
    } else {
        match notes.last().says {
            Says::ContentType(content_type) if notes.last().form == form && notes.last().part
                == part => Some(content_type),
            _ => last_content_type(notes.drop_last(), form, part),
        }
    }
}

/// Notes that speak of properties only.
pub open spec fn only_properties(notes: Seq<Note>) -> bool {
    forall|i: int| 0 <= i < notes.len() ==> (#[trigger] notes[i]).says is Property
}

/// Notes that speak of content types only.
pub open spec fn only_content_types(notes: Seq<Note>) -> bool {
    forall|i: int| 0 <= i < notes.len() ==> (#[trigger] notes[i]).says is ContentType
}

/// The schemas of forms speak of properties only.
pub(crate) proof fn lemma_only_properties(forms: Seq<NamedForm>)
    ensures
        only_properties(all_property_notes(forms)),
    decreases forms.len(),
{
    if forms.len() > 0 {
        lemma_only_properties(forms.drop_last());
    }
}

/// Encodings speak of content types only.
proof fn lemma_encoding_notes(form: Seq<char>, encoding: Seq<(String, Encoding)>)
    ensures
        only_content_types(encoding_notes(form, encoding)),
    decreases encoding.len(),
{
    if encoding.len() > 0 {
        lemma_encoding_notes(form, encoding.drop_last());
    }
}

/// The encodings of forms speak of content types only.
pub(crate) proof fn lemma_only_content_types(forms: Seq<NamedForm>)
    ensures
        only_content_types(all_encoding_notes(forms)),
    decreases forms.len(),
{
    if forms.len() > 0 {
        lemma_only_content_types(forms.drop_last());
        lemma_encoding_notes(forms.last().name, forms.last().media_type.encoding@);
    }
}

/// Of properties the last counts.
proof fn lemma_part_of_properties(notes: Seq<Note>, form: Seq<char>, part: Seq<char>)
    requires
        only_properties(notes),
    ensures
        part_of(notes, form, part) == (match last_property(notes, form, part) {
            Some(kind) => Some(Part { kind, content_type: None }),
            None => None,
        }),
    decreases notes.len(),
{
    if notes.len() > 0 {
        lemma_part_of_properties(notes.drop_last(), form, part);
        assert(notes[notes.len() - 1].says is Property);
    }
}

/// What is known of a part once content types have been given to it.
proof fn lemma_part_of_content_types(
    properties: Seq<Note>,
    encodings: Seq<Note>,
    form: Seq<char>,
    part: Seq<char>,
)
    requires
        only_properties(properties),
        only_content_types(encodings),
    ensures
        part_of(properties + encodings, form, part) == known_part(
            last_property(properties, form, part),
            last_content_type(encodings, form, part),
        ),
    decreases encodings.len(),
{
    if encodings.len() == 0 {
        assert(properties + encodings =~= properties);
        lemma_part_of_properties(properties, form, part);
    } else {
        assert((properties + encodings).drop_last() =~= properties + encodings.drop_last());
        assert((properties + encodings).last() == encodings.last());
        assert(encodings[encodings.len() - 1].says is ContentType);
        lemma_part_of_content_types(properties, encodings.drop_last(), form, part);
    }
}

/// What is known of a part of which schemas say how it is sent, and to which
/// encodings give a content type. Nothing is known where neither speaks of it.
pub open spec fn known_part(
    property: Option<Option<PartKind>>,
    content_type: Option<Seq<char>>,
) -> Option<Part> {
    match (property, content_type) {
        (None, None) => None,
        (Some(kind), content_type) => Some(Part { kind, content_type }),
        (None, content_type) => Some(Part { kind: None, content_type }),
    }
}

/// How a part is sent is what the last schema that has it as a property says;
/// its content type is what the last encoding of it says. Neither takes from the
/// other.
pub proof fn law_schema_and_encodings(forms: Seq<NamedForm>, form: Seq<char>, part: Seq<char>)
    ensures
        part_of(all_notes(forms), form, part) == known_part(
            last_property(all_property_notes(forms), form, part),
            last_content_type(all_encoding_notes(forms), form, part),
        ),
{
    lemma_only_properties(forms);
    lemma_only_content_types(forms);
    lemma_part_of_content_types(
        all_property_notes(forms),
        all_encoding_notes(forms),
        form,
        part,
    );
}

/// The forms of operations are those of the operations that have one.
proof fn lemma_forms_of(operations: Seq<Listed>, i: int)
    requires
        0 <= i < operations.len(),
        operation_form(operations[i].operation) is Some,
    ensures
        forms_of(operations).contains(operation_form(operations[i].operation).unwrap()),
    decreases operations.len(),
{
    let shorter = operations.drop_last();
    let form = operation_form(operations[i].operation).unwrap();
    if i == operations.len() - 1 {
        assert(forms_of(operations)[forms_of(shorter).len() as int] == form);
    } else {
        assert(shorter[i] == operations[i]);
        lemma_forms_of(shorter, i);
        let k = choose|k: int| 0 <= k < forms_of(shorter).len() && forms_of(shorter)[k] == form;
        assert(forms_of(operations)[k] == form);
    }
}

/// In a document with which nothing is wrong, every operation whose request body
/// is a form has its form listed, under the name of its body type.
pub proof fn law_forms_are_listed(spec: OpenAPI)
    requires
        objection(spec) is None,
    ensures
        forall|i: int|
            0 <= i < operations_of(spec.paths@).len() && body_form(
                (#[trigger] operations_of(spec.paths@)[i]).operation,
            ) is Some ==> {
                let operation = operations_of(spec.paths@)[i].operation;
                &&& operation.operation_id matches Some(id)
                &&& forms_of(operations_of(spec.paths@)).contains(
                    NamedForm {
                        name: body_type_name(id@),
                        media_type: body_form(operation).unwrap(),
                    },
                )
            },
{
    let operations = operations_of(spec.paths@);
    law_valid_documents(spec);
    assert forall|i: int|
        0 <= i < operations.len() && body_form(
            (#[trigger] operations[i]).operation,
        ) is Some implies operations[i].operation.operation_id matches Some(id)
        && forms_of(operations).contains(
        NamedForm {
            name: body_type_name(id@),
            media_type: body_form(operations[i].operation).unwrap(),
        },
    ) by {
        assert(operation_id(operations[i].operation) is Some);
        lemma_forms_of(operations, i);
    }
}

/// The name of a body type begins with the identifier of its operation, but for
/// the first character, and ends with `Body`.
pub proof fn law_body_type_name(operation_id: Seq<char>)
    ensures
        body_type_name(operation_id).len() == operation_id.len() + 4,
        body_type_name(operation_id).skip(operation_id.len() as int) == "Body"@,
        operation_id.len() > 0 ==> body_type_name(operation_id)[0] == upper(operation_id[0]),
        forall|i: int|
            0 < i < operation_id.len() ==> body_type_name(operation_id)[i] == operation_id[i],
{
    reveal_strlit("Body");
    assert(body_type_name(operation_id).skip(operation_id.len() as int) =~= "Body"@);
}

} // verus!
