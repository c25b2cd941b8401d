//! The parameter index of an operation: its resolved parameters, one for
//! each name, in ascending order of their names.
//!
//! Where two parameters of an operation share a name, the one declared
//! first stays. Where a reference among them cannot be resolved, the
//! operation has no index at all.

use crate::document::{
    reference_views, store_view, ComponentStore, ComponentStoreView, Location, Parameter,
    ParameterView, Reference, ReferenceView,
};
use crate::resolve::{
    collection_of, items, outcomes, resolved_all, views, ComponentKind, ResolveError,
    ResolveErrorView,
};
use crate::text::{
    lemma_text_lt_irreflexive, lemma_text_lt_total, lemma_text_lt_transitive, text_equal,
    text_less, text_lt, texts,
};
use vstd::prelude::*;

verus! {

/// How many leading parameters of `sorted` have a name that comes before
/// `name`.
pub open spec fn name_position(sorted: Seq<ParameterView>, name: Seq<char>) -> int
    decreases sorted.len(),
{
    if sorted.len() == 0 {
        0
    } else if text_lt(sorted[0].name, name) {
        1 + name_position(sorted.skip(1), name)
    } else {
        0
    }
}

/// `sorted` with `parameter` put where its name belongs, unless a parameter
/// of that name is already there.
pub open spec fn with_parameter(sorted: Seq<ParameterView>, parameter: ParameterView) -> Seq<
    ParameterView,
> {
    let i = name_position(sorted, parameter.name);
    if i < sorted.len() && sorted[i].name == parameter.name {
        sorted
    } else {
        sorted.insert(i, parameter)
    }
}

/// The index of a list of parameters: taken in declaration order, each goes
/// where its name belongs, and one whose name is already there is dropped.
pub open spec fn name_index(parameters: Seq<ParameterView>) -> Seq<ParameterView>
    decreases parameters.len(),
{
    if parameters.len() == 0 {
        Seq::empty()
    } else {
        with_parameter(name_index(parameters.drop_last()), parameters.last())
    }
}

/// The parameter index of an operation, or the failure of the first of its
/// references that cannot be resolved.
pub open spec fn parameter_index(
    references: Seq<ReferenceView<ParameterView>>,
    components: Option<ComponentStoreView>,
) -> Result<Seq<ParameterView>, ResolveErrorView> {
    match resolved_all(references, ComponentKind::Parameter, collection_of::<Parameter>(components)) {
        Ok(parameters) => Ok(name_index(parameters)),
        Err(e) => Err(e),
    }
}

/// The name of a parameter that travels in the query string.
pub open spec fn query_name(parameter: ParameterView) -> Option<Seq<char>> {
    if parameter.location == Location::Query {
        Some(parameter.name)
    } else {
        None
    }
}

/// The names of the query parameters among `parameters`, in their order.
pub open spec fn query_names_of(parameters: Seq<ParameterView>) -> Seq<Seq<char>> {
    parameters.filter_map(|p: ParameterView| query_name(p))
}

/// Whether the names strictly ascend.
pub open spec fn ascending(parameters: Seq<ParameterView>) -> bool {
    forall|i: int, j: int|
        0 <= i < j < parameters.len() ==> text_lt(
            (#[trigger] parameters[i]).name,
            (#[trigger] parameters[j]).name,
        )
}

/// The parameter index of an operation: its resolved parameters, one for
/// each name, in ascending order of their names. Fails as the first
/// reference that cannot be resolved fails.
pub fn parameter_map<'a>(
    references: &'a [Reference<Parameter>],
    components: &'a Option<ComponentStore>,
) -> (r: Result<Vec<&'a Parameter>, ResolveError>)
    ensures
        outcomes(r) == parameter_index(reference_views(references@), store_view(*components)),
        r matches Ok(found) ==> ascending(views(found@)),
{
    let declared = match items(references, components) {
        Ok(values) => values,
        Err(e) => {
            return Err(e);
        },
    };
    let ghost all = views(declared@);
    let mut sorted: Vec<&'a Parameter> = Vec::new();
    let mut k: usize = 0;
    assert(all.take(0) =~= Seq::empty());
    assert(views(sorted@) =~= Seq::empty());
    while k < declared.len()
        invariant
            k <= declared.len(),
            all == views(declared@),
            views(sorted@) == name_index(all.take(k as int)),
        decreases declared.len() - k,
    {
        let parameter = declared[k];
        assert(all.take(k + 1).drop_last() =~= all.take(k as int));
        assert(all.take(k + 1).last() == parameter@);
        let ghost before = views(sorted@);
        let i = place_of(&sorted, parameter.name.as_str());
        let present = i < sorted.len() && text_equal(
            sorted[i].name.as_str(),
            parameter.name.as_str(),
        );
        if !present {
            sorted.insert(i, parameter);
            assert(views(sorted@) =~= before.insert(i as int, parameter@));
        }
        k += 1;
    }
    assert(all.take(declared.len() as int) =~= all);
    proof {
        lemma_name_index(all);
    }
    Ok(sorted)
}

/// How many leading parameters of `sorted` have a name that comes before
/// `name`.
fn place_of(sorted: &Vec<&Parameter>, name: &str) -> (i: usize)
    ensures
        i == name_position(views(sorted@), name@),
        i <= sorted.len(),
{
    let ghost all = views(sorted@);
    let mut i: usize = 0;
    assert(all.skip(0) =~= all);
    while i < sorted.len() && text_less(sorted[i].name.as_str(), name)
        invariant
            i <= sorted.len(),
            all == views(sorted@),
            name_position(all, name@) == i + name_position(all.skip(i as int), name@),
        decreases sorted.len() - i,
    {
        assert(all.skip(i as int)[0] == sorted@[i as int]@);
        assert(all.skip(i as int).skip(1) =~= all.skip(i + 1));
        i += 1;
    }
    proof {
        if i < sorted.len() {
            assert(all.skip(i as int)[0] == sorted@[i as int]@);
        } else {
            assert(all.skip(i as int).len() == 0);
        }
    }
    i
}

/// The names of the query parameters among `parameters`, in their order.
pub fn query_names(parameters: &Vec<&Parameter>) -> (names: Vec<String>)
    ensures
        texts(names@) == query_names_of(views(parameters@)),
{
    let ghost all = views(parameters@);
    let ghost pick = |p: ParameterView| query_name(p);
    let mut names: Vec<String> = Vec::new();
    let mut i: usize = 0;
    assert(all.take(0) =~= Seq::empty());
    assert(texts(names@) =~= Seq::empty());
    while i < parameters.len()
        invariant
            i <= parameters.len(),
            all == views(parameters@),
            pick == (|p: ParameterView| query_name(p)),
            texts(names@) == all.take(i as int).filter_map(pick),
        decreases parameters.len() - i,
    {
        let parameter = parameters[i];
        proof {
            all.lemma_filter_map_take_succ(pick, i as int);
            assert(all[i as int] == parameter@);
        }
        let ghost before = texts(names@);
        match parameter.location {
            Location::Query => {
                let name = parameter.name.clone();
                names.push(name);
                assert(texts(names@) =~= before + seq![parameter@.name]);
            },
            _ => {
                assert(texts(names@) =~= before + Seq::<Seq<char>>::empty());
            },
        }
        i += 1;
    }
    assert(all.take(parameters.len() as int) =~= all);
    names
}

/// Whether a parameter of the list is called `name`.
pub open spec fn named_in(parameters: Seq<ParameterView>, name: Seq<char>) -> bool {
    exists|i: int| 0 <= i < parameters.len() && (#[trigger] parameters[i]).name == name
}

/// Whether parameter `k` of the list is the first of its name.
pub open spec fn first_of_its_name(parameters: Seq<ParameterView>, k: int) -> bool {
    &&& 0 <= k < parameters.len()
    &&& forall|j: int| 0 <= j < k ==> (#[trigger] parameters[j]).name != parameters[k].name
}

/// Whether no two parameters of the list share a name.
pub open spec fn distinct_parameter_names(parameters: Seq<ParameterView>) -> bool {
    forall|i: int, j: int|
        0 <= i < j < parameters.len() ==> (#[trigger] parameters[i]).name != (
        #[trigger] parameters[j]).name
}

/// `name_position` is in range; the parameters before it have names that
/// come before `name`, and the parameter at it has not.
pub proof fn lemma_name_position(sorted: Seq<ParameterView>, name: Seq<char>)
    ensures
        0 <= name_position(sorted, name) <= sorted.len(),
        forall|j: int|
            0 <= j < name_position(sorted, name) ==> text_lt((#[trigger] sorted[j]).name, name),
        name_position(sorted, name) < sorted.len() ==> !text_lt(
            sorted[name_position(sorted, name)].name,
            name,
        ),
    decreases sorted.len(),
{
    if sorted.len() > 0 && text_lt(sorted[0].name, name) {
        let rest = sorted.skip(1);
        lemma_name_position(rest, name);
        assert forall|j: int| 0 <= j < name_position(sorted, name) implies text_lt(
            (#[trigger] sorted[j]).name,
            name,
        ) by {
            if j > 0 {
                assert(sorted[j] == rest[j - 1]);
            }
        }
        if name_position(sorted, name) < sorted.len() {
            assert(sorted[name_position(sorted, name)] == rest[name_position(rest, name)]);
        }
    }
}

/// Putting a parameter into an ascending list keeps it ascending, keeps
/// every parameter that was there, and adds the new one exactly when its
/// name was not there.
pub proof fn lemma_with_parameter(sorted: Seq<ParameterView>, parameter: ParameterView)
    requires
        ascending(sorted),
    ensures
        ascending(with_parameter(sorted, parameter)),
        named_in(sorted, parameter.name) ==> with_parameter(sorted, parameter) == sorted,
        !named_in(sorted, parameter.name) ==> with_parameter(sorted, parameter) == sorted.insert(
            name_position(sorted, parameter.name),
            parameter,
        ),
        0 <= name_position(sorted, parameter.name) <= sorted.len(),
{
    let i = name_position(sorted, parameter.name);
    let name = parameter.name;
    lemma_name_position(sorted, name);
    if i < sorted.len() && sorted[i].name == name {
        assert(named_in(sorted, name));
    } else {
        assert(!named_in(sorted, name)) by {
            if named_in(sorted, name) {
                let k = choose|k: int| 0 <= k < sorted.len() && (#[trigger] sorted[k]).name == name;
                if k < i {
                    assert(text_lt(sorted[k].name, name));
                    lemma_text_lt_irreflexive(name);
                } else {
                    lemma_text_lt_total(sorted[i].name, name);
                    if k > i {
                        assert(text_lt(sorted[i].name, sorted[k].name));
                    }
                }
            }
        }
        let result = sorted.insert(i, parameter);
        assert forall|a: int, b: int| 0 <= a < b < result.len() implies text_lt(
            (#[trigger] result[a]).name,
            (#[trigger] result[b]).name,
        ) by {
            if a < i && b == i {
                assert(text_lt(sorted[a].name, name));
            } else if a < i && b > i {
                assert(text_lt(sorted[a].name, sorted[b - 1].name));
            } else if a < i {
                assert(text_lt(sorted[a].name, sorted[b].name));
            } else if a == i {
                lemma_text_lt_total(sorted[i].name, name);
                assert(text_lt(name, sorted[i].name));
                if b - 1 > i {
                    assert(text_lt(sorted[i].name, sorted[b - 1].name));
                    lemma_text_lt_transitive(name, sorted[i].name, sorted[b - 1].name);
                }
            } else {
                assert(text_lt(sorted[a - 1].name, sorted[b - 1].name));
            }
        }
    }
}

/// The index of a list of parameters is what the list asks for: its names
/// strictly ascend; each of its parameters is a parameter of the list that
/// is the first of its name; and every name of the list is in it.
pub proof fn lemma_name_index(parameters: Seq<ParameterView>)
    ensures
        ascending(name_index(parameters)),
        forall|i: int|
            0 <= i < name_index(parameters).len() ==> exists|k: int|
                first_of_its_name(parameters, k) && #[trigger] parameters[k] == (
                #[trigger] name_index(parameters)[i]),
        forall|name: Seq<char>|
            named_in(parameters, name) <==> #[trigger] named_in(name_index(parameters), name),
    decreases parameters.len(),
{
    let index = name_index(parameters);
    if parameters.len() == 0 {
    } else {
        let front = parameters.drop_last();
        let last = parameters.last();
        let n = front.len() as int;
        let before = name_index(front);
        lemma_name_index(front);
        lemma_with_parameter(before, last);
        let at = name_position(before, last.name);
        assert(parameters[n] == last);
        assert forall|name: Seq<char>| named_in(parameters, name) <==> #[trigger] named_in(
            index,
            name,
        ) by {
            if named_in(parameters, name) {
                let k = choose|k: int|
                    0 <= k < parameters.len() && (#[trigger] parameters[k]).name == name;
                if k < n {
                    assert(front[k].name == name);
                    assert(named_in(front, name));
                    assert(named_in(before, name));
                    let i = choose|i: int| 0 <= i < before.len() && (#[trigger] before[i]).name == name;
                    if named_in(before, last.name) {
                    } else if i < at {
                        assert(index[i] == before[i]);
                    } else {
                        assert(index[i + 1] == before[i]);
                    }
                } else {
                    if named_in(before, last.name) {
                    } else {
                        assert(index[at] == last);
                    }
                }
            }
            if named_in(index, name) {
                let i = choose|i: int| 0 <= i < index.len() && (#[trigger] index[i]).name == name;
                if named_in(before, last.name) {
                    assert(named_in(before, name));
                    assert(named_in(front, name));
                    let k = choose|k: int| 0 <= k < front.len() && (#[trigger] front[k]).name == name;
                    assert(parameters[k].name == name);
                } else if i == at {
                    assert(parameters[n].name == name);
                } else {
                    let j = if i < at { i } else { i - 1 };
                    assert(before[j].name == name);
                    assert(named_in(before, name));
                    assert(named_in(front, name));
                    let k = choose|k: int| 0 <= k < front.len() && (#[trigger] front[k]).name == name;
                    assert(parameters[k].name == name);
                }
            }
        }
        assert forall|i: int| 0 <= i < index.len() implies exists|k: int|
            first_of_its_name(parameters, k) && #[trigger] parameters[k] == (#[trigger] index[i]) by {
            if !named_in(before, last.name) && i == at {
                assert(first_of_its_name(parameters, n)) by {
                    assert forall|j: int| 0 <= j < n implies (#[trigger] parameters[j]).name
                        != parameters[n].name by {
                        if parameters[j].name == last.name {
                            assert(front[j].name == last.name);
                            assert(named_in(front, last.name));
                        }
                    }
                }
                assert(parameters[n] == index[i]);
            } else {
                let j = if named_in(before, last.name) || i < at { i } else { i - 1 };
                assert(before[j] == index[i]);
                let k = choose|k: int|
                    first_of_its_name(front, k) && #[trigger] front[k] == before[j];
                assert(first_of_its_name(parameters, k)) by {
                    assert forall|m: int| 0 <= m < k implies (#[trigger] parameters[m]).name
                        != parameters[k].name by {
                        assert(front[m].name != front[k].name);
                    }
                }
                assert(parameters[k] == index[i]);
            }
        }
    }
}

/// Two ascending lists that hold the same parameters are the same list.
pub proof fn lemma_ascending_is_unique(a: Seq<ParameterView>, b: Seq<ParameterView>)
    requires
        ascending(a),
        ascending(b),
        forall|p: ParameterView| a.contains(p) <==> b.contains(p),
    ensures
        a == b,
    decreases a.len(),
{
    if a.len() == 0 {
        if b.len() > 0 {
            assert(b.contains(b[0]));
            assert(a.contains(b[0]));
        }
        assert(a =~= b);
    } else {
        assert(a.contains(a[0]));
        assert(b.contains(a[0]));
        let j = choose|j: int| 0 <= j < b.len() && b[j] == a[0];
        assert(b.contains(b[0]));
        assert(a.contains(b[0]));
        let i = choose|i: int| 0 <= i < a.len() && a[i] == b[0];
        if j > 0 {
            assert(text_lt(b[0].name, b[j].name));
            if i > 0 {
                assert(text_lt(a[0].name, a[i].name));
                lemma_text_lt_transitive(b[0].name, a[0].name, b[0].name);
            }
            lemma_text_lt_irreflexive(b[0].name);
        }
        assert(a[0] == b[0]);
        let x = a.skip(1);
        let y = b.skip(1);
        assert forall|p: ParameterView| x.contains(p) <==> y.contains(p) by {
            if x.contains(p) {
                let m = choose|m: int| 0 <= m < x.len() && x[m] == p;
                assert(a[m + 1] == p);
                assert(a.contains(p));
                assert(b.contains(p));
                let q = choose|q: int| 0 <= q < b.len() && b[q] == p;
                assert(text_lt(a[0].name, a[m + 1].name));
                if q == 0 {
                    lemma_text_lt_irreflexive(p.name);
                }
                assert(y[q - 1] == p);
            }
            if y.contains(p) {
                let m = choose|m: int| 0 <= m < y.len() && y[m] == p;
                assert(b[m + 1] == p);
                assert(b.contains(p));
                assert(a.contains(p));
                let q = choose|q: int| 0 <= q < a.len() && a[q] == p;
                assert(text_lt(b[0].name, b[m + 1].name));
                if q == 0 {
                    lemma_text_lt_irreflexive(p.name);
                }
                assert(x[q - 1] == p);
            }
        }
        assert(ascending(x)) by {
            assert forall|m: int, q: int| 0 <= m < q < x.len() implies text_lt(
                (#[trigger] x[m]).name,
                (#[trigger] x[q]).name,
            ) by {
                assert(text_lt(a[m + 1].name, a[q + 1].name));
            }
        }
        assert(ascending(y)) by {
            assert forall|m: int, q: int| 0 <= m < q < y.len() implies text_lt(
                (#[trigger] y[m]).name,
                (#[trigger] y[q]).name,
            ) by {
                assert(text_lt(b[m + 1].name, b[q + 1].name));
            }
        }
        lemma_ascending_is_unique(x, y);
        assert(a =~= seq![a[0]] + x);
        assert(b =~= seq![b[0]] + y);
    }
}

/// Where no two parameters share a name, the index holds exactly the
/// parameters of the list.
pub proof fn lemma_name_index_keeps_all(parameters: Seq<ParameterView>)
    requires
        distinct_parameter_names(parameters),
    ensures
        forall|p: ParameterView| parameters.contains(p) <==> name_index(parameters).contains(p),
{
    let index = name_index(parameters);
    lemma_name_index(parameters);
    assert forall|p: ParameterView| parameters.contains(p) <==> index.contains(p) by {
        if parameters.contains(p) {
            let k = choose|k: int| 0 <= k < parameters.len() && parameters[k] == p;
            assert(named_in(parameters, p.name));
            assert(named_in(index, p.name));
            let i = choose|i: int| 0 <= i < index.len() && (#[trigger] index[i]).name == p.name;
            let m = choose|m: int|
                first_of_its_name(parameters, m) && #[trigger] parameters[m] == index[i];
            if m < k {
                assert(parameters[m].name != parameters[k].name);
            } else if k < m {
                assert(parameters[k].name != parameters[m].name);
            }
            assert(index[i] == p);
        }
        if index.contains(p) {
            let i = choose|i: int| 0 <= i < index.len() && index[i] == p;
            let m = choose|m: int|
                first_of_its_name(parameters, m) && #[trigger] parameters[m] == index[i];
            assert(parameters[m] == p);
        }
    }
}

/// The index does not depend on the order of declaration: two lists that
/// hold the same parameters, neither with a name twice, have the same
/// index, and so offer the same query parameters in the same order.
pub proof fn lemma_declaration_order_is_irrelevant(
    first: Seq<ParameterView>,
    second: Seq<ParameterView>,
)
    requires
        distinct_parameter_names(first),
        distinct_parameter_names(second),
        forall|p: ParameterView| first.contains(p) <==> second.contains(p),
    ensures
        name_index(first) == name_index(second),
        query_names_of(name_index(first)) == query_names_of(name_index(second)),
{
    lemma_name_index(first);
    lemma_name_index(second);
    lemma_name_index_keeps_all(first);
    lemma_name_index_keeps_all(second);
    assert forall|p: ParameterView| name_index(first).contains(p) <==> name_index(second).contains(
        p,
    ) by {
        assert(first.contains(p) <==> second.contains(p));
    }
    lemma_ascending_is_unique(name_index(first), name_index(second));
}

} // verus!
