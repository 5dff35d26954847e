//! The parts of an OpenAPI document that the generator reads.
//!
//! The types follow the shape of the document. A table of the document is a
//! list of its entries in the order of the document; no key occurs twice in it.
use schemars::schema::Schema as JsonSchema;
use vstd::prelude::*;

verus! {

/// `schemars::schema::Schema`, the schema of a component.
#[verifier::external_type_specification]
#[verifier::external_body]
pub struct ExJsonSchema(JsonSchema);

/// An OpenAPI document.
pub struct OpenAPI {
    /// The version of OpenAPI to which the document keeps.
    pub openapi: String,
    /// What the document says of itself.
    pub info: Info,
    /// The paths, each with its operations.
    pub paths: Vec<(String, ReferenceOr<PathItem>)>,
    /// The reusable parts.
    pub components: Option<Components>,
    /// The tags with which operations are grouped.
    pub tags: Vec<Tag>,
}

/// What a document says of itself.
pub struct Info {
    /// The title of the API.
    pub title: String,
    /// A description of the API.
    pub description: Option<String>,
    /// The terms under which it may be used.
    pub terms_of_service: Option<String>,
    /// The version of the API.
    pub version: String,
}

/// The reusable parts of a document.
pub struct Components {
    /// The schemas by name.
    pub schemas: Vec<(String, JsonSchema)>,
}

/// A tag.
pub struct Tag {
    /// The name by which operations refer to the tag.
    pub name: String,
    /// A description of the tag.
    pub description: Option<String>,
}

/// A thing, or a reference to where it stands.
pub enum ReferenceOr<T> {
    /// A reference.
    Reference {
        /// Where the thing stands.
        reference: String,
    },
    /// The thing itself.
    Item(T),
}

/// The operations of one path, by HTTP method.
pub struct PathItem {
    /// GET
    pub get: Option<Operation>,
    /// PUT
    pub put: Option<Operation>,
    /// POST
    pub post: Option<Operation>,
    /// DELETE
    pub delete: Option<Operation>,
    /// OPTIONS
    pub options: Option<Operation>,
    /// HEAD
    pub head: Option<Operation>,
    /// PATCH
    pub patch: Option<Operation>,
    /// TRACE
    pub trace: Option<Operation>,
}

/// An operation.
pub struct Operation {
    /// The identifier of the operation.
    pub operation_id: Option<String>,
    /// What a request carries.
    pub request_body: Option<ReferenceOr<RequestBody>>,
}

/// The body of a request.
pub struct RequestBody {
    /// The body by media type.
    pub content: Vec<(String, MediaType)>,
}

/// A body of one media type.
pub struct MediaType {
    /// The schema of the body.
    pub schema: Option<ReferenceOr<Schema>>,
    /// How the properties of the body are encoded.
    pub encoding: Vec<(String, Encoding)>,
}

/// How a property is encoded.
pub struct Encoding {
    /// The content type of the property.
    pub content_type: Option<String>,
}

/// A schema.
pub struct Schema {
    /// What the schema describes.
    pub schema_kind: SchemaKind,
}

/// What a schema describes.
pub enum SchemaKind {
    /// A value of one type.
    Type(Type),
    /// Anything else.
    Other,
}

/// The type of a value.
pub enum Type {
    /// A string.
    String(StringType),
    /// An object.
    Object(ObjectType),
    /// Any other type.
    Other,
}

/// A string.
pub struct StringType {
    /// The format of the string.
    pub format: VariantOrUnknownOrEmpty<StringFormat>,
}

/// An object.
pub struct ObjectType {
    /// The properties of the object.
    pub properties: Vec<(String, ReferenceOr<Schema>)>,
}

/// A value that is known, one that is not, or none.
pub enum VariantOrUnknownOrEmpty<T> {
    /// A known value.
    Item(T),
    /// An unknown value.
    Unknown(String),
    /// No value.
    Empty,
}

/// The known formats of a string.
#[derive(Clone, Copy, Debug, PartialEq, Eq, Structural)]
pub enum StringFormat {
    /// A date.
    Date,
    /// A date with a time.
    DateTime,
    /// A password.
    Password,
    /// Base64.
    Byte,
    /// Any bytes.
    Binary,
}

impl<T> ReferenceOr<T> {
    /// The thing itself, where it stands here.
    pub fn as_item(&self) -> (item: Option<&T>)
        ensures
            item == (match self {
                ReferenceOr::Reference { .. } => None,
                ReferenceOr::Item(item) => Some(item),
            }),
    {
        match self {
            ReferenceOr::Reference { .. } => None,
            ReferenceOr::Item(item) => Some(item),
        }
    }
}

/// An operation under the method by which it is called, where there is one.
pub open spec fn under(method: Seq<char>, operation: Option<Operation>) -> Seq<
    (Seq<char>, Operation),
> {
    match operation {
        Some(operation) => seq![(method, operation)],
        None => Seq::empty(),
    }
}

/// The operations of a path, each with its method.
pub open spec fn item_operations(item: PathItem) -> Seq<(Seq<char>, Operation)> {
    under("get"@, item.get) + under("put"@, item.put) + under("post"@, item.post) + under(
        "delete"@,
        item.delete,
    ) + under("options"@, item.options) + under("head"@, item.head) + under("patch"@, item.patch)
        + under("trace"@, item.trace)
}

/// A method with its operation, as [`item_operations`] gives them.
pub open spec fn method_and_operation(entry: (&'static str, &Operation)) -> (Seq<char>, Operation) {
    (entry.0@, *entry.1)
}

/// Adds an operation to a list, where there is one.
fn list_under<'a>(
    list: &mut Vec<(&'static str, &'a Operation)>,
    method: &'static str,
    operation: &'a Option<Operation>,
)
    ensures
        final(list)@.map_values(|e: (&'static str, &Operation)| method_and_operation(e)) == old(
            list,
        )@.map_values(|e: (&'static str, &Operation)| method_and_operation(e)) + under(
            method@,
            *operation,
        ),
{
    if let Some(operation) = operation {
        list.push((method, operation));
    }
}

impl PathItem {
    /// The operations of the path, each with its method.
    pub fn iter(&self) -> (list: Vec<(&'static str, &Operation)>)
        ensures
            list@.map_values(|e: (&'static str, &Operation)| method_and_operation(e))
                == item_operations(*self),
    {
        let mut list: Vec<(&'static str, &Operation)> = Vec::new();
        assert(list@.map_values(|e: (&'static str, &Operation)| method_and_operation(e))
            =~= Seq::empty());
        list_under(&mut list, "get", &self.get);
        assert(list@.map_values(|e: (&'static str, &Operation)| method_and_operation(e)) =~= under(
            "get"@,
            self.get,
        ));
        list_under(&mut list, "put", &self.put);
        list_under(&mut list, "post", &self.post);
        list_under(&mut list, "delete", &self.delete);
        list_under(&mut list, "options", &self.options);
        list_under(&mut list, "head", &self.head);
        list_under(&mut list, "patch", &self.patch);
        list_under(&mut list, "trace", &self.trace);
        list
    }
}

/// An operation with where it stands in the document.
pub struct Listed {
    /// The path.
    pub path: Seq<char>,
    /// The method.
    pub method: Seq<char>,
    /// The operation.
    pub operation: Operation,
}

/// The operations of one entry of the paths; a reference has none.
pub open spec fn path_operations(path: (String, ReferenceOr<PathItem>)) -> Seq<Listed> {
    match path.1 {
        ReferenceOr::Reference { .. } => Seq::empty(),
        ReferenceOr::Item(item) => Seq::new(
            item_operations(item).len(),
            |i: int|
                Listed {
                    path: path.0@,
                    method: item_operations(item)[i].0,
                    operation: item_operations(item)[i].1,
                },
        ),
    }
}

/// The operations of a document, in its order.
pub open spec fn operations_of(paths: Seq<(String, ReferenceOr<PathItem>)>) -> Seq<Listed>
    decreases paths.len(),
{
    if paths.len() == 0 {
        Seq::empty()
    } else {
        operations_of(paths.drop_last()) + path_operations(paths.last())
    }
}

/// An operation of a document, borrowed from it.
pub struct OperationRef<'a> {
    /// The path under which the operation stands.
    pub path: &'a String,
    /// The method by which it is called.
    pub method: &'static str,
    /// The operation.
    pub operation: &'a Operation,
}

impl<'a> View for OperationRef<'a> {
    type V = Listed;

    open spec fn view(&self) -> Listed {
        Listed { path: self.path@, method: self.method@, operation: *self.operation }
    }
}

impl OpenAPI {
    /// The operations of the document, in its order.
    pub fn operations(&self) -> (list: Vec<OperationRef<'_>>)
        ensures
            list@.map_values(|r: OperationRef<'_>| r@) == operations_of(self.paths@),
    {
        let mut list: Vec<OperationRef<'_>> = Vec::new();
        let mut i: usize = 0;
        assert(list@.map_values(|r: OperationRef<'_>| r@) =~= operations_of(self.paths@.take(0)));
        while i < self.paths.len()
            invariant
                0 <= i <= self.paths@.len(),
                list@.map_values(|r: OperationRef<'_>| r@) == operations_of(
                    self.paths@.take(i as int),
                ),
            decreases self.paths@.len() - i,
        {
            let path = &self.paths[i];
            assert(self.paths@.take(i + 1).drop_last() =~= self.paths@.take(i as int));
            let ghost before = list@;
            if let Some(item) = path.1.as_item() {
                let entries = item.iter();
                let ghost pairs = item_operations(*item);
                let mut j: usize = 0;
                while j < entries.len()
                    invariant
                        0 <= j <= entries@.len(),
                        pairs == entries@.map_values(
                            |e: (&'static str, &Operation)| method_and_operation(e),
                        ),
                        path.1 == ReferenceOr::Item(*item),
                        pairs == item_operations(*item),
                        list@.map_values(|r: OperationRef<'_>| r@) =~= before.map_values(
                            |r: OperationRef<'_>| r@,
                        ) + path_operations(*path).take(j as int),
                    decreases entries@.len() - j,
                {
                    let entry = entries[j];
                    assert(pairs[j as int] == method_and_operation(entry));
                    let ghost shorter = list@;
                    let next = OperationRef { path: &path.0, method: entry.0, operation: entry.1 };
                    list.push(next);
                    assert(next@ == path_operations(*path)[j as int]);
                    assert(list@.map_values(|r: OperationRef<'_>| r@) =~= shorter.map_values(
                        |r: OperationRef<'_>| r@,
                    ).push(next@));
                    assert(path_operations(*path).take(j + 1) =~= path_operations(*path).take(
                        j as int,
                    ).push(next@));
                    j = j + 1;
                }
                assert(path_operations(*path).take(j as int) =~= path_operations(*path));
            } else {
                assert(path_operations(*path) =~= Seq::empty());
                assert(list@.map_values(|r: OperationRef<'_>| r@) =~= before.map_values(
                    |r: OperationRef<'_>| r@,
                ) + path_operations(*path));
            }
            i = i + 1;
        }
        assert(self.paths@.take(i as int) =~= self.paths@);
        list
    }
}

} // verus!
