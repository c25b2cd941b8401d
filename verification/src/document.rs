//! The API description that completions are generated from: paths, their
//! operations, and the shared components that references point into.

use crate::named_map::NamedMap;
use vstd::prelude::*;

verus! {

/// An HTTP method that an operation can be bound to.
#[derive(Clone, Copy, Debug, PartialEq, Eq, Structural)]
pub enum Method {
    Get,
    Put,
    Post,
    Delete,
    Options,
    Head,
    Patch,
    Trace,
}

impl Method {
    /// The method's name in upper case.
    pub open spec fn upper_text(self) -> Seq<char> {
        match self {
            Method::Get => "GET"@,
            Method::Put => "PUT"@,
            Method::Post => "POST"@,
            Method::Delete => "DELETE"@,
            Method::Options => "OPTIONS"@,
            Method::Head => "HEAD"@,
            Method::Patch => "PATCH"@,
            Method::Trace => "TRACE"@,
        }
    }

    /// The method's name in upper case, as a request line spells it.
    pub fn upper(&self) -> (name: &'static str)
        ensures
            name@ == self.upper_text(),
    {
        match self {
            Method::Get => "GET",
            Method::Put => "PUT",
            Method::Post => "POST",
            Method::Delete => "DELETE",
            Method::Options => "OPTIONS",
            Method::Head => "HEAD",
            Method::Patch => "PATCH",
            Method::Trace => "TRACE",
        }
    }
}

/// Where a parameter travels in a request.
#[derive(Clone, Copy, Debug, PartialEq, Eq, Structural)]
pub enum Location {
    Query,
    Path,
    Header,
    Cookie,
}

/// A parameter of an operation.
#[derive(Clone, Debug, PartialEq, Eq)]
pub struct Parameter {
    pub name: String,
    pub location: Location,
}

/// The model of a [`Parameter`].
pub struct ParameterView {
    pub name: Seq<char>,
    pub location: Location,
}

impl View for Parameter {
    type V = ParameterView;

    open spec fn view(&self) -> ParameterView {
        ParameterView { name: self.name@, location: self.location }
    }
}

impl Parameter {
    /// The parameter called `name` that travels in `location`.
    pub fn new(name: String, location: Location) -> (p: Parameter)
        ensures
            p@ == (ParameterView { name: name@, location }),
    {
        Parameter { name, location }
    }
}

/// A value given in place, or a pointer to a component that holds it.
///
/// A pointer keeps the text of the reference as the document wrote it, such
/// as `#/components/parameters/limit`.
#[derive(Clone, Debug, PartialEq, Eq)]
pub enum Reference<T> {
    Inline(T),
    Pointer(String),
}

/// The model of a [`Reference`].
pub enum ReferenceView<V> {
    Inline(V),
    Pointer(Seq<char>),
}

impl<T: View> View for Reference<T> {
    type V = ReferenceView<T::V>;

    open spec fn view(&self) -> ReferenceView<T::V> {
        match self {
            Reference::Inline(value) => ReferenceView::Inline(value@),
            Reference::Pointer(text) => ReferenceView::Pointer(text@),
        }
    }
}

/// The models of a list of references.
pub open spec fn reference_views<T: View>(references: Seq<Reference<T>>) -> Seq<
    ReferenceView<T::V>,
> {
    references.map_values(|r: Reference<T>| r@)
}

/// An example of a request body. It is its own model.
#[derive(Clone, Debug, PartialEq, Eq)]
pub struct Example {
    pub value: Option<serde_json::Value>,
}

impl View for Example {
    type V = Example;

    open spec fn view(&self) -> Example {
        *self
    }
}

/// A response, of which a completion needs no more than the name it is
/// stored under. It is its own model.
#[derive(Clone, Copy, Debug, PartialEq, Eq, Structural)]
pub struct Response {}

impl View for Response {
    type V = Response;

    open spec fn view(&self) -> Response {
        *self
    }
}

/// A schema, of which a completion needs no more than the name it is stored
/// under. It is its own model.
#[derive(Clone, Copy, Debug, PartialEq, Eq, Structural)]
pub struct Schema {}

impl View for Schema {
    type V = Schema;

    open spec fn view(&self) -> Schema {
        *self
    }
}

/// What a request body looks like in one media type.
#[derive(Debug)]
pub struct MediaType {
    /// The single example given in place, if any.
    pub example: Option<serde_json::Value>,
    /// The named examples, in the order of the document.
    pub examples: NamedMap<Reference<Example>>,
}

/// The model of a [`MediaType`].
pub struct MediaTypeView {
    pub example: Option<serde_json::Value>,
    pub examples: Seq<(Seq<char>, ReferenceView<Example>)>,
}

impl View for MediaType {
    type V = MediaTypeView;

    open spec fn view(&self) -> MediaTypeView {
        MediaTypeView { example: self.example, examples: self.examples@ }
    }
}

/// A request body: its content for each media type.
#[derive(Debug)]
pub struct RequestBody {
    pub content: NamedMap<MediaType>,
}

/// The model of a [`RequestBody`].
pub struct RequestBodyView {
    pub content: Seq<(Seq<char>, MediaTypeView)>,
}

impl View for RequestBody {
    type V = RequestBodyView;

    open spec fn view(&self) -> RequestBodyView {
        RequestBodyView { content: self.content@ }
    }
}

/// One operation: its parameters in declaration order and its request body.
#[derive(Debug)]
pub struct Operation {
    pub parameters: Vec<Reference<Parameter>>,
    pub request_body: Option<Reference<RequestBody>>,
}

/// The model of an [`Operation`].
pub struct OperationView {
    pub parameters: Seq<ReferenceView<ParameterView>>,
    pub request_body: Option<ReferenceView<RequestBodyView>>,
}

impl View for Operation {
    type V = OperationView;

    open spec fn view(&self) -> OperationView {
        OperationView {
            parameters: reference_views(self.parameters@),
            request_body: match self.request_body {
                Some(body) => Some(body@),
                None => None,
            },
        }
    }
}

/// The operations of one path, at most one for each method.
#[derive(Debug)]
pub struct PathItem {
    pub get: Option<Operation>,
    pub put: Option<Operation>,
    pub post: Option<Operation>,
    pub delete: Option<Operation>,
    pub options: Option<Operation>,
    pub head: Option<Operation>,
    pub patch: Option<Operation>,
    pub trace: Option<Operation>,
}

/// The model of a [`PathItem`].
pub struct PathItemView {
    pub get: Option<OperationView>,
    pub put: Option<OperationView>,
    pub post: Option<OperationView>,
    pub delete: Option<OperationView>,
    pub options: Option<OperationView>,
    pub head: Option<OperationView>,
    pub patch: Option<OperationView>,
    pub trace: Option<OperationView>,
}

/// The model of an operation that may be missing.
pub open spec fn operation_view(operation: Option<Operation>) -> Option<OperationView> {
    match operation {
        Some(op) => Some(op@),
        None => None,
    }
}

impl View for PathItem {
    type V = PathItemView;

    open spec fn view(&self) -> PathItemView {
        PathItemView {
            get: operation_view(self.get),
            put: operation_view(self.put),
            post: operation_view(self.post),
            delete: operation_view(self.delete),
            options: operation_view(self.options),
            head: operation_view(self.head),
            patch: operation_view(self.patch),
            trace: operation_view(self.trace),
        }
    }
}

/// The operation bound to `method`, as a list of none or one.
pub open spec fn bound(method: Method, operation: Option<OperationView>) -> Seq<
    (Method, OperationView),
> {
    match operation {
        Some(op) => seq![(method, op)],
        None => Seq::empty(),
    }
}

impl PathItemView {
    /// The operations of the path with their methods, in the fixed order
    /// get, put, post, delete, options, head, patch, trace.
    pub open spec fn operations(self) -> Seq<(Method, OperationView)> {
        bound(Method::Get, self.get) + bound(Method::Put, self.put) + bound(
            Method::Post,
            self.post,
        ) + bound(Method::Delete, self.delete) + bound(Method::Options, self.options) + bound(
            Method::Head,
            self.head,
        ) + bound(Method::Patch, self.patch) + bound(Method::Trace, self.trace)
    }
}

/// The models of a list of operations with their methods.
pub open spec fn bound_views(operations: Seq<(Method, &Operation)>) -> Seq<
    (Method, OperationView),
> {
    operations.map_values(|e: (Method, &Operation)| (e.0, e.1@))
}

impl PathItem {
    /// A path with no operation.
    pub fn new() -> (item: PathItem)
        ensures
            item@.operations() == Seq::<(Method, OperationView)>::empty(),
    {
        let item = PathItem {
            get: None,
            put: None,
            post: None,
            delete: None,
            options: None,
            head: None,
            patch: None,
            trace: None,
        };
        assert(item@.operations() =~= Seq::empty());
        item
    }

    /// The operations of the path with their methods, in the fixed order
    /// get, put, post, delete, options, head, patch, trace.
    pub fn operations(&self) -> (found: Vec<(Method, &Operation)>)
        ensures
            bound_views(found@) == self@.operations(),
    {
        let mut found: Vec<(Method, &Operation)> = Vec::new();
        assert(bound_views(found@) =~= Seq::empty());
        push_bound(&mut found, Method::Get, &self.get);
        push_bound(&mut found, Method::Put, &self.put);
        push_bound(&mut found, Method::Post, &self.post);
        push_bound(&mut found, Method::Delete, &self.delete);
        push_bound(&mut found, Method::Options, &self.options);
        push_bound(&mut found, Method::Head, &self.head);
        push_bound(&mut found, Method::Patch, &self.patch);
        push_bound(&mut found, Method::Trace, &self.trace);
        assert(bound_views(found@) =~= self@.operations());
        found
    }
}

/// Adds the operation bound to `method`, if there is one, to `found`.
fn push_bound<'a>(
    found: &mut Vec<(Method, &'a Operation)>,
    method: Method,
    operation: &'a Option<Operation>,
)
    ensures
        bound_views(final(found)@) == bound_views(old(found)@) + bound(
            method,
            operation_view(*operation),
        ),
{
    match operation {
        Some(op) => {
            found.push((method, op));
            assert(bound_views(found@) =~= bound_views(old(found)@) + bound(
                method,
                operation_view(*operation),
            ));
        },
        None => {
            assert(bound_views(found@) =~= bound_views(old(found)@) + bound(
                method,
                operation_view(*operation),
            ));
        },
    }
}

/// The shared components of a document, one mapping for each kind.
#[derive(Debug)]
pub struct ComponentStore {
    pub parameters: NamedMap<Parameter>,
    pub request_bodies: NamedMap<RequestBody>,
    pub responses: NamedMap<Response>,
    pub schemas: NamedMap<Schema>,
    pub examples: NamedMap<Example>,
}

/// The model of a [`ComponentStore`].
pub struct ComponentStoreView {
    pub parameters: Seq<(Seq<char>, ParameterView)>,
    pub request_bodies: Seq<(Seq<char>, RequestBodyView)>,
    pub responses: Seq<(Seq<char>, Response)>,
    pub schemas: Seq<(Seq<char>, Schema)>,
    pub examples: Seq<(Seq<char>, Example)>,
}

impl View for ComponentStore {
    type V = ComponentStoreView;

    open spec fn view(&self) -> ComponentStoreView {
        ComponentStoreView {
            parameters: self.parameters@,
            request_bodies: self.request_bodies@,
            responses: self.responses@,
            schemas: self.schemas@,
            examples: self.examples@,
        }
    }
}

impl ComponentStore {
    /// A store with no component of any kind.
    pub fn new() -> (store: ComponentStore)
        ensures
            store@.parameters.len() == 0,
            store@.request_bodies.len() == 0,
            store@.responses.len() == 0,
            store@.schemas.len() == 0,
            store@.examples.len() == 0,
    {
        ComponentStore {
            parameters: NamedMap::new(),
            request_bodies: NamedMap::new(),
            responses: NamedMap::new(),
            schemas: NamedMap::new(),
            examples: NamedMap::new(),
        }
    }
}

/// The model of a store that may be missing.
pub open spec fn store_view(components: Option<ComponentStore>) -> Option<ComponentStoreView> {
    match components {
        Some(store) => Some(store@),
        None => None,
    }
}

/// A decoded API description.
#[derive(Debug)]
pub struct Document {
    /// The path templates with their operations, in the order of the document.
    pub paths: NamedMap<PathItem>,
    /// The shared components, if the document has any.
    pub components: Option<ComponentStore>,
}

/// The model of a [`Document`].
pub struct DocumentView {
    pub paths: Seq<(Seq<char>, PathItemView)>,
    pub components: Option<ComponentStoreView>,
}

impl View for Document {
    type V = DocumentView;

    open spec fn view(&self) -> DocumentView {
        DocumentView { paths: self.paths@, components: store_view(self.components) }
    }
}

/// One operation of a document: the template of its path, its method, and
/// the operation itself.
pub struct Entry<'a> {
    pub template: &'a str,
    pub method: Method,
    pub operation: &'a Operation,
}

/// The model of an [`Entry`].
pub struct EntryView {
    pub template: Seq<char>,
    pub method: Method,
    pub operation: OperationView,
}

impl<'a> View for Entry<'a> {
    type V = EntryView;

    open spec fn view(&self) -> EntryView {
        EntryView { template: self.template@, method: self.method, operation: self.operation@ }
    }
}

/// The operations of one path, each with the path's template.
pub open spec fn path_entries(template: Seq<char>, item: PathItemView) -> Seq<EntryView> {
    item.operations().map_values(
        |e: (Method, OperationView)| EntryView { template, method: e.0, operation: e.1 },
    )
}

/// The operations of all paths: path by path in the order of the document,
/// and within a path in the order of its methods.
pub open spec fn all_entries(paths: Seq<(Seq<char>, PathItemView)>) -> Seq<EntryView>
    decreases paths.len(),
{
    if paths.len() == 0 {
        Seq::empty()
    } else {
        all_entries(paths.drop_last()) + path_entries(paths.last().0, paths.last().1)
    }
}

/// The models of a list of entries.
pub open spec fn entry_views(entries: Seq<Entry<'_>>) -> Seq<EntryView> {
    entries.map_values(|e: Entry<'_>| e@)
}

impl Document {
    /// A document with no path and no components.
    pub fn new() -> (document: Document)
        ensures
            document@.paths.len() == 0,
            document@.components is None,
    {
        Document { paths: NamedMap::new(), components: None }
    }

    /// Every operation of the document with its path and method: path by
    /// path in the order of the document, and within a path in the order of
    /// its methods.
    pub fn operations(&self) -> (entries: Vec<Entry<'_>>)
        ensures
            entry_views(entries@) == all_entries(self@.paths),
    {
        let mut entries: Vec<Entry<'_>> = Vec::new();
        let n = self.paths.len();
        let mut i: usize = 0;
        assert(self@.paths.take(0) =~= Seq::empty());
        assert(entry_views(entries@) =~= Seq::empty());
        while i < n
            invariant
                i <= n,
                n == self@.paths.len(),
                entry_views(entries@) == all_entries(self@.paths.take(i as int)),
            decreases n - i,
        {
            let template = self.paths.name_at(i);
            let item = self.paths.value_at(i);
            let found = item.operations();
            let ghost before = entry_views(entries@);
            let ghost wanted = path_entries(template@, item@);
            assert(self@.paths.take(i + 1).drop_last() =~= self@.paths.take(i as int));
            assert(self@.paths.take(i + 1).last() == self@.paths[i as int]);
            let mut j: usize = 0;
            while j < found.len()
                invariant
                    j <= found.len(),
                    bound_views(found@) == item@.operations(),
                    wanted == path_entries(template@, item@),
                    entry_views(entries@) == before + wanted.take(j as int),
                decreases found.len() - j,
            {
                let (method, operation) = found[j];
                assert(bound_views(found@)[j as int] == (method, operation@));
                let ghost earlier = entry_views(entries@);
                let entry = Entry { template, method, operation };
                entries.push(entry);
                assert(wanted[j as int] == entry@);
                assert(wanted.take(j + 1) =~= wanted.take(j as int).push(entry@));
                assert(entry_views(entries@) =~= earlier.push(entry@));
                j += 1;
            }
            assert(wanted.take(found.len() as int) =~= wanted);
            i += 1;
        }
        assert(self@.paths.take(n as int) =~= self@.paths);
        entries
    }
}

} // verus!
