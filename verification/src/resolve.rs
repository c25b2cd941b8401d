//! Resolving references against the components of a document.
//!
//! A reference is resolved by a single lookup: the name after the last `/`
//! of its text is looked up in the one mapping that holds components of the
//! expected kind. A failure is an ordinary result; it is left to the caller
//! to decide what a failed reference means for the run.

use crate::document::{
    reference_views, store_view, ComponentStore, ComponentStoreView, Example, Parameter,
    Reference, ReferenceView, RequestBody, Response, Schema,
};
use crate::named_map::{lookup, NamedMap};
use crate::text::{chars_of, push_char};
use vstd::prelude::*;

verus! {

/// The kinds of component that a document can share.
#[derive(Clone, Copy, Debug, PartialEq, Eq, Structural)]
pub enum ComponentKind {
    Parameter,
    RequestBody,
    Response,
    Schema,
    Example,
}

/// Why a reference could not be resolved.
#[derive(Clone, Debug, PartialEq, Eq)]
pub enum ResolveError {
    /// The reference is a pointer, and the document has no components.
    ComponentsAbsent,
    /// No component of the expected kind is stored under the pointer's name.
    UnknownComponentKey { kind: ComponentKind, key: String },
}

/// The model of a [`ResolveError`].
pub enum ResolveErrorView {
    ComponentsAbsent,
    UnknownComponentKey { kind: ComponentKind, key: Seq<char> },
}

impl View for ResolveError {
    type V = ResolveErrorView;

    open spec fn view(&self) -> ResolveErrorView {
        match self {
            ResolveError::ComponentsAbsent => ResolveErrorView::ComponentsAbsent,
            ResolveError::UnknownComponentKey { kind, key } => ResolveErrorView::UnknownComponentKey {
                kind: *kind,
                key: key@,
            },
        }
    }
}

/// The name that a reference points at: what follows its last `/`, or the
/// whole text where it has none.
pub open spec fn key_of(reference: Seq<char>) -> Seq<char>
    decreases reference.len(),
{
    if reference.len() == 0 {
        reference
    } else if reference.last() == '/' {
        Seq::empty()
    } else {
        key_of(reference.drop_last()).push(reference.last())
    }
}

/// What a reference resolves to, given the mapping for its kind: the value
/// in place, or the component stored under the pointer's name.
pub open spec fn resolved<V>(
    reference: ReferenceView<V>,
    kind: ComponentKind,
    collection: Option<Seq<(Seq<char>, V)>>,
) -> Result<V, ResolveErrorView> {
    match reference {
        ReferenceView::Inline(value) => Ok(value),
        ReferenceView::Pointer(text) => match collection {
            None => Err(ResolveErrorView::ComponentsAbsent),
            Some(entries) => match lookup(entries, key_of(text)) {
                Some(value) => Ok(value),
                None => Err(ResolveErrorView::UnknownComponentKey { kind, key: key_of(text) }),
            },
        },
    }
}

/// What a list of references resolves to: every value in order, or the
/// failure of the first reference that fails.
pub open spec fn resolved_all<V>(
    references: Seq<ReferenceView<V>>,
    kind: ComponentKind,
    collection: Option<Seq<(Seq<char>, V)>>,
) -> Result<Seq<V>, ResolveErrorView>
    decreases references.len(),
{
    if references.len() == 0 {
        Ok(Seq::empty())
    } else {
        match resolved_all(references.drop_last(), kind, collection) {
            Err(e) => Err(e),
            Ok(values) => match resolved(references.last(), kind, collection) {
                Err(e) => Err(e),
                Ok(value) => Ok(values.push(value)),
            },
        }
    }
}

/// A kind of component: it knows which mapping of a store holds its values.
pub trait ComponentLookup: View + Sized {
    /// The kind that this type is.
    spec fn kind() -> ComponentKind;

    /// The mapping of the store that holds components of this kind.
    spec fn collection(store: ComponentStoreView) -> Seq<(Seq<char>, Self::V)>;

    /// The kind that this type is.
    fn component_kind() -> (k: ComponentKind)
        ensures
            k == Self::kind(),
    ;

    /// The mapping of the store that holds components of this kind.
    fn get_components(components: &ComponentStore) -> (r: &NamedMap<Self>)
        ensures
            r@ == Self::collection(components@),
    ;
}

impl ComponentLookup for Parameter {
    open spec fn kind() -> ComponentKind {
        ComponentKind::Parameter
    }

    open spec fn collection(store: ComponentStoreView) -> Seq<(Seq<char>, Self::V)> {
        store.parameters
    }

    fn component_kind() -> (k: ComponentKind) {
        ComponentKind::Parameter
    }

    fn get_components(components: &ComponentStore) -> (r: &NamedMap<Self>) {
        &components.parameters
    }
}

impl ComponentLookup for RequestBody {
    open spec fn kind() -> ComponentKind {
        ComponentKind::RequestBody
    }

    open spec fn collection(store: ComponentStoreView) -> Seq<(Seq<char>, Self::V)> {
        store.request_bodies
    }

    fn component_kind() -> (k: ComponentKind) {
        ComponentKind::RequestBody
    }

    fn get_components(components: &ComponentStore) -> (r: &NamedMap<Self>) {
        &components.request_bodies
    }
}

impl ComponentLookup for Response {
    open spec fn kind() -> ComponentKind {
        ComponentKind::Response
    }

    open spec fn collection(store: ComponentStoreView) -> Seq<(Seq<char>, Self::V)> {
        store.responses
    }

    fn component_kind() -> (k: ComponentKind) {
        ComponentKind::Response
    }

    fn get_components(components: &ComponentStore) -> (r: &NamedMap<Self>) {
        &components.responses
    }
}

impl ComponentLookup for Schema {
    open spec fn kind() -> ComponentKind {
        ComponentKind::Schema
    }

    open spec fn collection(store: ComponentStoreView) -> Seq<(Seq<char>, Self::V)> {
        store.schemas
    }

    fn component_kind() -> (k: ComponentKind) {
        ComponentKind::Schema
    }

    fn get_components(components: &ComponentStore) -> (r: &NamedMap<Self>) {
        &components.schemas
    }
}

impl ComponentLookup for Example {
    open spec fn kind() -> ComponentKind {
        ComponentKind::Example
    }

    open spec fn collection(store: ComponentStoreView) -> Seq<(Seq<char>, Self::V)> {
        store.examples
    }

    fn component_kind() -> (k: ComponentKind) {
        ComponentKind::Example
    }

    fn get_components(components: &ComponentStore) -> (r: &NamedMap<Self>) {
        &components.examples
    }
}

/// The mapping for components of type `T`, in a store that may be missing.
pub open spec fn collection_of<T: ComponentLookup>(components: Option<ComponentStoreView>) -> Option<
    Seq<(Seq<char>, T::V)>,
> {
    match components {
        Some(store) => Some(T::collection(store)),
        None => None,
    }
}

/// The model of the outcome of resolving one reference.
pub open spec fn outcome<T: View>(r: Result<&T, ResolveError>) -> Result<T::V, ResolveErrorView> {
    match r {
        Ok(value) => Ok(value@),
        Err(e) => Err(e@),
    }
}

/// The models of the values in a list.
pub open spec fn views<T: View>(values: Seq<&T>) -> Seq<T::V> {
    values.map_values(|v: &T| v@)
}

/// The model of the outcome of resolving a list of references.
pub open spec fn outcomes<T: View>(r: Result<Vec<&T>, ResolveError>) -> Result<
    Seq<T::V>,
    ResolveErrorView,
> {
    match r {
        Ok(values) => Ok(views(values@)),
        Err(e) => Err(e@),
    }
}

/// The name that a reference points at: what follows its last `/`, or the
/// whole text where it has none.
pub fn component_key(reference: &str) -> (key: String)
    ensures
        key@ == key_of(reference@),
{
    let chars = chars_of(reference);
    let mut key = String::new();
    let mut i: usize = 0;
    assert(chars@.take(0) =~= Seq::empty());
    while i < chars.len()
        invariant
            i <= chars.len(),
            key@ == key_of(chars@.take(i as int)),
        decreases chars.len() - i,
    {
        let c = chars[i];
        assert(chars@.take(i + 1).drop_last() =~= chars@.take(i as int));
        assert(chars@.take(i + 1).last() == c);
        if c == '/' {
            key = String::new();
        } else {
            push_char(&mut key, c);
        }
        i += 1;
    }
    assert(chars@.take(chars.len() as int) =~= chars@);
    key
}

impl<T: ComponentLookup> Reference<T> {
    /// The value that this reference stands for: the value given in place,
    /// or the component of kind `T` that the pointer names.
    pub fn item<'a>(&'a self, components: &'a Option<ComponentStore>) -> (r: Result<
        &'a T,
        ResolveError,
    >)
        ensures
            outcome(r) == resolved(self@, T::kind(), collection_of::<T>(store_view(*components))),
    {
        match self {
            Reference::Inline(value) => Ok(value),
            Reference::Pointer(text) => {
                match components {
                    None => Err(ResolveError::ComponentsAbsent),
                    Some(store) => {
                        let key = component_key(text.as_str());
                        match T::get_components(store).get(key.as_str()) {
                            Some(value) => Ok(value),
                            None => Err(
                                ResolveError::UnknownComponentKey {
                                    kind: T::component_kind(),
                                    key,
                                },
                            ),
                        }
                    },
                }
            },
        }
    }
}

/// The values that a list of references stands for, in order, or the failure
/// of the first reference that cannot be resolved.
pub fn items<'a, T: ComponentLookup>(
    references: &'a [Reference<T>],
    components: &'a Option<ComponentStore>,
) -> (r: Result<Vec<&'a T>, ResolveError>)
    ensures
        outcomes(r) == resolved_all(
            reference_views(references@),
            T::kind(),
            collection_of::<T>(store_view(*components)),
        ),
{
    let mut values: Vec<&'a T> = Vec::new();
    let ghost all = reference_views(references@);
    let mut i: usize = 0;
    assert(all.take(0) =~= Seq::empty());
    assert(views(values@) =~= Seq::empty());
    while i < references.len()
        invariant
            i <= references.len(),
            all == reference_views(references@),
            Ok::<Seq<T::V>, ResolveErrorView>(views(values@)) == resolved_all(
                all.take(i as int),
                T::kind(),
                collection_of::<T>(store_view(*components)),
            ),
        decreases references.len() - i,
    {
        assert(all.take(i + 1).drop_last() =~= all.take(i as int));
        assert(all.take(i + 1).last() == references@[i as int]@);
        match references[i].item(components) {
            Ok(value) => {
                let ghost before = views(values@);
                values.push(value);
                assert(views(values@) =~= before.push(value@));
            },
            Err(e) => {
                proof {
                    lemma_failure_stays(
                        all,
                        i + 1,
                        T::kind(),
                        collection_of::<T>(store_view(*components)),
                    );
                }
                return Err(e);
            },
        }
        i += 1;
    }
    assert(all.take(references.len() as int) =~= all);
    Ok(values)
}

/// Once a prefix of a list has failed, the whole list fails in the same way.
pub proof fn lemma_failure_stays<V>(
    references: Seq<ReferenceView<V>>,
    n: int,
    kind: ComponentKind,
    collection: Option<Seq<(Seq<char>, V)>>,
)
    requires
        0 <= n <= references.len(),
        resolved_all(references.take(n), kind, collection) is Err,
    ensures
        resolved_all(references, kind, collection) == resolved_all(
            references.take(n),
            kind,
            collection,
        ),
    decreases references.len() - n,
{
    if n == references.len() {
        assert(references.take(n) =~= references);
    } else {
        assert(references.take(n + 1).drop_last() =~= references.take(n));
        lemma_failure_stays(references, n + 1, kind, collection);
    }
}

/// Whether one of the references is a pointer.
pub open spec fn has_pointer<V>(references: Seq<ReferenceView<V>>) -> bool {
    exists|i: int| 0 <= i < references.len() && #[trigger] references[i] is Pointer
}

/// A list of references fails for want of components exactly when there are
/// no components and one of the references is a pointer. Without components
/// and without a pointer, every reference resolves.
pub proof fn lemma_components_absent<V>(
    references: Seq<ReferenceView<V>>,
    kind: ComponentKind,
    collection: Option<Seq<(Seq<char>, V)>>,
)
    ensures
        resolved_all(references, kind, collection) == Err::<Seq<V>, ResolveErrorView>(
            ResolveErrorView::ComponentsAbsent,
        ) <==> collection is None && has_pointer(references),
        collection is None && !has_pointer(references) ==> resolved_all(
            references,
            kind,
            collection,
        ) is Ok,
    decreases references.len(),
{
    if references.len() > 0 {
        let front = references.drop_last();
        lemma_components_absent(front, kind, collection);
        if has_pointer(front) {
            let i = choose|i: int| 0 <= i < front.len() && #[trigger] front[i] is Pointer;
            assert(references[i] is Pointer);
        }
        if references.last() is Pointer {
            assert(references[references.len() - 1] is Pointer);
        }
        if has_pointer(references) {
            let i = choose|i: int| 0 <= i < references.len() && #[trigger] references[i] is Pointer;
            if i < front.len() {
                assert(front[i] is Pointer);
            }
        }
    }
}

} // verus!
