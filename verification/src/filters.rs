//! Search filters from a JSON `where` clause: `{"$and": [clause, ...]}`
//! requires every clause, `{"$or": [clause, ...]}` any clause, and a plain
//! object requires each key to match its value (text, integer or boolean;
//! other numbers match within a rounding step). The JSON value is the
//! library's own tree; the vector store's filter type is built from the
//! result by the caller.
use vstd::prelude::*;
use crate::text::str_eq;
use crate::seqtext::views;
use crate::document::{digits, digits_string};
use crate::text::{concat_str, string_of, contains_spec, occurs_at};

verus! {

/// A JSON value. Numbers that are not 64-bit integers keep their text.
#[derive(Debug, PartialEq)]
pub enum JsonValue {
    Null,
    Bool(bool),
    Int(i64),
    Number(String),
    Str(String),
    Array(Vec<JsonValue>),
    Object(Vec<(String, JsonValue)>),
}

/// One condition of a filter.
pub enum Condition {
    /// A nested filter.
    Nested(QueryFilter),
    /// The key holds this text.
    MatchText(String, String),
    /// The key holds this integer.
    MatchInt(String, i64),
    /// The key holds this boolean.
    MatchBool(String, bool),
    /// The key holds a number within a rounding step of this one (its text).
    NearNumber(String, String),
}

/// A filter: every `must` condition holds, and (when there are any) some
/// `should` condition holds.
pub struct QueryFilter {
    pub must: Vec<Condition>,
    pub should: Vec<Condition>,
}

/// Why a `where` clause does not give a filter.
#[derive(Debug)]
pub enum FilterError {
    NotObject,
    AndNotArray,
    AndClauseNotObject,
    OrNotArray,
    OrClauseNotObject,
    /// A plain clause's value under this key is neither text, number nor
    /// boolean.
    Unsupported(String),
}

pub enum CondV {
    Nested(FilterV),
    Text(Seq<char>, Seq<char>),
    Int(Seq<char>, int),
    Bool(Seq<char>, bool),
    Near(Seq<char>, Seq<char>),
}

pub struct FilterV {
    pub must: Seq<CondV>,
    pub should: Seq<CondV>,
}

pub enum ErrV {
    NotObject,
    AndNotArray,
    AndClauseNotObject,
    OrNotArray,
    OrClauseNotObject,
    Unsupported(Seq<char>),
}

pub open spec fn err_view(e: FilterError) -> ErrV {
    match e {
        FilterError::NotObject => ErrV::NotObject,
        FilterError::AndNotArray => ErrV::AndNotArray,
        FilterError::AndClauseNotObject => ErrV::AndClauseNotObject,
        FilterError::OrNotArray => ErrV::OrNotArray,
        FilterError::OrClauseNotObject => ErrV::OrClauseNotObject,
        FilterError::Unsupported(k) => ErrV::Unsupported(k@),
    }
}

pub open spec fn cond_view(c: Condition) -> CondV
    decreases c,
{
    match c {
        Condition::Nested(f) => CondV::Nested(FilterV { must: conds_view(f.must@), should: conds_view(f.should@) }),
        Condition::MatchText(k, v) => CondV::Text(k@, v@),
        Condition::MatchInt(k, v) => CondV::Int(k@, v as int),
        Condition::MatchBool(k, v) => CondV::Bool(k@, v),
        Condition::NearNumber(k, v) => CondV::Near(k@, v@),
    }
}

pub open spec fn conds_view(s: Seq<Condition>) -> Seq<CondV>
    decreases s,
{
    if s.len() == 0 {
        Seq::empty()
    } else {
        conds_view(s.drop_last()).push(cond_view(s.last()))
    }
}

pub open spec fn filter_view(f: QueryFilter) -> FilterV {
    FilterV { must: conds_view(f.must@), should: conds_view(f.should@) }
}

/// The index of the first entry under `k`, or the length when none is.
pub open spec fn key_pos(m: Seq<(String, JsonValue)>, k: Seq<char>, i: int) -> int
    decreases m.len() - i,
{
    if i < 0 || i >= m.len() {
        m.len() as int
    } else if m[i].0@ == k {
        i
    } else {
        key_pos(m, k, i + 1)
    }
}

/// The condition a plain clause's entry gives.
pub open spec fn plain_cond(k: Seq<char>, v: JsonValue) -> Result<CondV, ErrV> {
    match v {
        JsonValue::Str(s) => Ok(CondV::Text(k, s@)),
        JsonValue::Int(i) => Ok(CondV::Int(k, i as int)),
        JsonValue::Number(t) => Ok(CondV::Near(k, t@)),
        JsonValue::Bool(b) => Ok(CondV::Bool(k, b)),
        _ => Err(ErrV::Unsupported(k)),
    }
}

/// The conditions of a plain clause's entries, in order; the first entry
/// that gives none stops it.
pub open spec fn plain_conds(m: Seq<(String, JsonValue)>) -> Result<Seq<CondV>, ErrV>
    decreases m.len(),
{
    if m.len() == 0 {
        Ok(Seq::empty())
    } else {
        match plain_conds(m.drop_last()) {
            Ok(prev) => match plain_cond(m.last().0@, m.last().1) {
                Ok(c) => Ok(prev.push(c)),
                Err(e) => Err(e),
            },
            Err(e) => Err(e),
        }
    }
}

/// The nested filters of an `$and` (or `$or`) list, in order; the first
/// clause that is not an object, or gives no filter, stops it.
pub open spec fn clause_list(arr: Seq<JsonValue>, is_and: bool) -> Result<Seq<CondV>, ErrV>
    decreases arr,
{
    if arr.len() == 0 {
        Ok(Seq::empty())
    } else {
        match clause_list(arr.drop_last(), is_and) {
            Ok(prev) => match arr.last() {
                JsonValue::Object(o) => match clause_filter(o@) {
                    Ok(f) => Ok(prev.push(CondV::Nested(f))),
                    Err(e) => Err(e),
                },
                _ => Err(if is_and { ErrV::AndClauseNotObject } else { ErrV::OrClauseNotObject }),
            },
            Err(e) => Err(e),
        }
    }
}

/// The filter of a clause (an object's entries): `$and` first, then `$or`,
/// else the plain conditions.
pub open spec fn clause_filter(m: Seq<(String, JsonValue)>) -> Result<FilterV, ErrV>
    decreases m,
{
    let ia = key_pos(m, "$and"@, 0);
    let io = key_pos(m, "$or"@, 0);
    if 0 <= ia < m.len() {
        match m[ia].1 {
            JsonValue::Array(a) => match clause_list(a@, true) {
                Ok(cs) => Ok(FilterV { must: cs, should: Seq::empty() }),
                Err(e) => Err(e),
            },
            _ => Err(ErrV::AndNotArray),
        }
    } else if 0 <= io < m.len() {
        match m[io].1 {
            JsonValue::Array(a) => match clause_list(a@, false) {
                Ok(cs) => Ok(FilterV { must: Seq::empty(), should: cs }),
                Err(e) => Err(e),
            },
            _ => Err(ErrV::OrNotArray),
        }
    } else {
        match plain_conds(m) {
            Ok(cs) => Ok(FilterV { must: cs, should: Seq::empty() }),
            Err(e) => Err(e),
        }
    }
}

/// The filter of a `where` clause, which must be an object.
pub open spec fn where_filter(v: JsonValue) -> Result<FilterV, ErrV> {
    match v {
        JsonValue::Object(o) => clause_filter(o@),
        _ => Err(ErrV::NotObject),
    }
}

pub open spec fn result_view(r: Result<QueryFilter, FilterError>) -> Result<FilterV, ErrV> {
    match r {
        Ok(f) => Ok(filter_view(f)),
        Err(e) => Err(err_view(e)),
    }
}


// ---------------------------------------------------------------------------
// Executable parts
// ---------------------------------------------------------------------------

fn key_pos_of(m: &Vec<(String, JsonValue)>, k: &str) -> (r: usize)
    ensures
        r as int == key_pos(m@, k@, 0),
        r <= m@.len(),
{
    let mut i: usize = 0;
    while i < m.len()
        invariant
            i <= m@.len(),
            key_pos(m@, k@, i as int) == key_pos(m@, k@, 0),
        decreases m.len() - i,
    {
        if str_eq(m[i].0.as_str(), k) {
            return i;
        }
        i += 1;
    }
    i
}

fn plain_cond_of(k: &String, v: &JsonValue) -> (r: Result<Condition, FilterError>)
    ensures
        match r {
            Ok(c) => plain_cond(k@, *v) == Ok::<CondV, ErrV>(cond_view(c)),
            Err(e) => plain_cond(k@, *v) == Err::<CondV, ErrV>(err_view(e)),
        },
{
    match v {
        JsonValue::Str(s) => Ok(Condition::MatchText(k.clone(), s.clone())),
        JsonValue::Int(i) => Ok(Condition::MatchInt(k.clone(), *i)),
        JsonValue::Number(t) => Ok(Condition::NearNumber(k.clone(), t.clone())),
        JsonValue::Bool(b) => Ok(Condition::MatchBool(k.clone(), *b)),
        _ => Err(FilterError::Unsupported(k.clone())),
    }
}

proof fn lemma_plain_err_extends(m: Seq<(String, JsonValue)>, j: int, n: int)
    requires
        0 <= j <= n <= m.len(),
        plain_conds(m.take(j)) is Err,
    ensures
        plain_conds(m.take(n)) == plain_conds(m.take(j)),
    decreases n - j,
{
    if n > j {
        lemma_plain_err_extends(m, j, n - 1);
        assert(m.take(n).drop_last() =~= m.take(n - 1));
    }
}

fn plain_conds_of(m: &Vec<(String, JsonValue)>) -> (r: Result<Vec<Condition>, FilterError>)
    ensures
        match r {
            Ok(cs) => plain_conds(m@) == Ok::<Seq<CondV>, ErrV>(conds_view(cs@)),
            Err(e) => plain_conds(m@) == Err::<Seq<CondV>, ErrV>(err_view(e)),
        },
{
    let mut out: Vec<Condition> = Vec::new();
    let mut i: usize = 0;
    assert(m@.take(0) =~= Seq::<(String, JsonValue)>::empty());
    while i < m.len()
        invariant
            i <= m@.len(),
            plain_conds(m@.take(i as int)) == Ok::<Seq<CondV>, ErrV>(conds_view(out@)),
        decreases m.len() - i,
    {
        assert(m@.take(i + 1).drop_last() =~= m@.take(i as int));
        assert(m@.take(i + 1).last() == m@[i as int]);
        match plain_cond_of(&m[i].0, &m[i].1) {
            Ok(c) => {
                let ghost before = out@;
                out.push(c);
                assert(out@.drop_last() =~= before);
            },
            Err(e) => {
                proof {
                    lemma_plain_err_extends(m@, i + 1, m@.len() as int);
                    assert(m@.take(m@.len() as int) =~= m@);
                }
                return Err(e);
            },
        }
        i += 1;
    }
    assert(m@.take(m@.len() as int) =~= m@);
    Ok(out)
}

proof fn lemma_clause_err_extends(arr: Seq<JsonValue>, is_and: bool, j: int, n: int)
    requires
        0 <= j <= n <= arr.len(),
        clause_list(arr.take(j), is_and) is Err,
    ensures
        clause_list(arr.take(n), is_and) == clause_list(arr.take(j), is_and),
    decreases n - j,
{
    if n > j {
        lemma_clause_err_extends(arr, is_and, j, n - 1);
        assert(arr.take(n).drop_last() =~= arr.take(n - 1));
    }
}

fn clause_list_of(arr: &Vec<JsonValue>, is_and: bool) -> (r: Result<Vec<Condition>, FilterError>)
    ensures
        match r {
            Ok(cs) => clause_list(arr@, is_and) == Ok::<Seq<CondV>, ErrV>(conds_view(cs@)),
            Err(e) => clause_list(arr@, is_and) == Err::<Seq<CondV>, ErrV>(err_view(e)),
        },
    decreases arr@,
{
    let mut out: Vec<Condition> = Vec::new();
    let mut i: usize = 0;
    assert(arr@.take(0) =~= Seq::<JsonValue>::empty());
    while i < arr.len()
        invariant
            i <= arr@.len(),
            clause_list(arr@.take(i as int), is_and) == Ok::<Seq<CondV>, ErrV>(conds_view(out@)),
        decreases arr.len() - i,
    {
        assert(arr@.take(i + 1).drop_last() =~= arr@.take(i as int));
        assert(arr@.take(i + 1).last() == arr@[i as int]);
        match &arr[i] {
            JsonValue::Object(o) => {
                proof {
                    assert(decreases_to!(arr@ => arr@[i as int]));
                }
                match clause_filter_of(o) {
                    Ok(f) => {
                        let ghost before = out@;
                        let ghost fv = filter_view(f);
                        let c = Condition::Nested(f);
                        assert(cond_view(c) == CondV::Nested(fv));
                        out.push(c);
                        assert(out@.drop_last() =~= before);
                        assert(conds_view(out@) == conds_view(before).push(CondV::Nested(fv)));
                    },
                    Err(e) => {
                        proof {
                            lemma_clause_err_extends(arr@, is_and, i + 1, arr@.len() as int);
                            assert(arr@.take(arr@.len() as int) =~= arr@);
                        }
                        return Err(e);
                    },
                }
            },
            _ => {
                proof {
                    lemma_clause_err_extends(arr@, is_and, i + 1, arr@.len() as int);
                    assert(arr@.take(arr@.len() as int) =~= arr@);
                }
                return Err(if is_and { FilterError::AndClauseNotObject } else { FilterError::OrClauseNotObject });
            },
        }
        i += 1;
    }
    assert(arr@.take(arr@.len() as int) =~= arr@);
    Ok(out)
}

fn clause_filter_of(m: &Vec<(String, JsonValue)>) -> (r: Result<QueryFilter, FilterError>)
    ensures
        result_view(r) == clause_filter(m@),
    decreases m@,
{
    let ia = key_pos_of(m, "$and");
    let io = key_pos_of(m, "$or");
    let empty: Vec<Condition> = Vec::new();
    assert(conds_view(empty@) =~= Seq::<CondV>::empty());
    if ia < m.len() {
        match &m[ia].1 {
            JsonValue::Array(a) => {
                proof {
                    assert(decreases_to!(m@ => m@[ia as int]));
                }
                match clause_list_of(a, true) {
                    Ok(cs) => Ok(QueryFilter { must: cs, should: empty }),
                    Err(e) => Err(e),
                }
            },
            _ => Err(FilterError::AndNotArray),
        }
    } else if io < m.len() {
        match &m[io].1 {
            JsonValue::Array(a) => {
                proof {
                    assert(decreases_to!(m@ => m@[io as int]));
                }
                match clause_list_of(a, false) {
                    Ok(cs) => Ok(QueryFilter { must: empty, should: cs }),
                    Err(e) => Err(e),
                }
            },
            _ => Err(FilterError::OrNotArray),
        }
    } else {
        match plain_conds_of(m) {
            Ok(cs) => Ok(QueryFilter { must: cs, should: empty }),
            Err(e) => Err(e),
        }
    }
}

/// The filter of a `where` clause (see `where_filter`): it must be an
/// object; `$and` lists clauses that must all hold, `$or` clauses of which
/// one must, and a plain object a condition per key.
pub fn build_filter(where_clause: &JsonValue) -> (r: Result<QueryFilter, FilterError>)
    ensures
        result_view(r) == where_filter(*where_clause),
{
    match where_clause {
        JsonValue::Object(o) => clause_filter_of(o),
        _ => Err(FilterError::NotObject),
    }
}

/// The filter of an optional `where` clause: none when it is absent or
/// JSON `null`.
pub fn optional_filter(where_clause: Option<&JsonValue>) -> (r: Result<Option<QueryFilter>, FilterError>)
    ensures
        match where_clause {
            Some(v) => !(v is Null) ==> match r {
                Ok(Some(f)) => where_filter(*v) == Ok::<FilterV, ErrV>(filter_view(f)),
                Ok(None) => false,
                Err(e) => where_filter(*v) == Err::<FilterV, ErrV>(err_view(e)),
            },
            None => true,
        },
        (where_clause is None || where_clause->0 is Null) ==> r matches Ok(None),
{
    match where_clause {
        Some(v) => match v {
            JsonValue::Null => Ok(None),
            _ => match build_filter(v) {
                Ok(f) => Ok(Some(f)),
                Err(e) => Err(e),
            },
        },
        None => Ok(None),
    }
}

/// A filter requiring each key to hold its text.
pub fn filter_eq(pairs: &[(&str, &str)]) -> (f: QueryFilter)
    ensures
        filter_view(f) == (FilterV {
            must: Seq::new(pairs@.len(), |i: int| CondV::Text(pairs@[i].0@, pairs@[i].1@)),
            should: Seq::empty(),
        }),
{
    let mut out: Vec<Condition> = Vec::new();
    let mut i: usize = 0;
    while i < pairs.len()
        invariant
            i <= pairs@.len(),
            conds_view(out@) == Seq::new(i as nat, |k: int| CondV::Text(pairs@[k].0@, pairs@[k].1@)),
        decreases pairs.len() - i,
    {
        let ghost before = out@;
        let c = Condition::MatchText(pairs[i].0.to_owned(), pairs[i].1.to_owned());
        assert(cond_view(c) == CondV::Text(pairs@[i as int].0@, pairs@[i as int].1@));
        out.push(c);
        assert(out@.drop_last() =~= before);
        assert(conds_view(out@) == conds_view(before).push(CondV::Text(pairs@[i as int].0@, pairs@[i as int].1@)));
        assert(conds_view(out@) =~= Seq::new((i + 1) as nat, |k: int| CondV::Text(pairs@[k].0@, pairs@[k].1@)));
        i += 1;
    }
    let empty: Vec<Condition> = Vec::new();
    assert(conds_view(empty@) =~= Seq::<CondV>::empty());
    QueryFilter { must: out, should: empty }
}

// ---------------------------------------------------------------------------
// Per-collection search requests of a tool
// ---------------------------------------------------------------------------

/// A tool's code-search scope: a collection and the repositories searched
/// in it.
pub struct ToolCodeSearchScope {
    pub id: String,
    pub tool_definition_id: String,
    pub collection: String,
    pub repo_names: Vec<String>,
}

/// A tool's document-search scope: a collection and the groups searched in
/// it.
pub struct ToolDocumentSearchScope {
    pub id: String,
    pub tool_definition_id: String,
    pub collection: String,
    pub group_ids: Vec<String>,
}

/// One search request: a collection and its `where` clause.
#[derive(Debug)]
pub struct CollectionRequest {
    pub collection: String,
    pub where_clause: JsonValue,
}

/// The non-empty values of `v`, in order.
pub open spec fn nonempty_values(v: Seq<Seq<char>>) -> Seq<Seq<char>>
    decreases v.len(),
{
    if v.len() == 0 {
        Seq::empty()
    } else if v.last().len() > 0 {
        nonempty_values(v.drop_last()).push(v.last())
    } else {
        nonempty_values(v.drop_last())
    }
}

/// `j` is the object `{key: val}`.
pub open spec fn is_eq_object(j: JsonValue, key: Seq<char>, val: Seq<char>) -> bool {
    &&& j matches JsonValue::Object(o)
    &&& o@.len() == 1
    &&& o@[0].0@ == key
    &&& o@[0].1 matches JsonValue::Str(v) && v@ == val
}

/// The `where` clause of a scope with these values: `{}` when no value is
/// non-empty, `{key: v}` for one, `{"$or": [{key: v}, ...]}` for several.
pub open spec fn scope_where(j: JsonValue, key: Seq<char>, values: Seq<Seq<char>>) -> bool {
    let vs = nonempty_values(values);
    if vs.len() == 0 {
        j matches JsonValue::Object(o) && o@.len() == 0
    } else if vs.len() == 1 {
        is_eq_object(j, key, vs[0])
    } else {
        &&& j matches JsonValue::Object(o)
        &&& o@.len() == 1
        &&& o@[0].0@ == "$or"@
        &&& o@[0].1 matches JsonValue::Array(a) && a@.len() == vs.len() && forall|i: int|
            0 <= i < vs.len() ==> is_eq_object(#[trigger] a@[i], key, vs[i])
    }
}

/// The request of a scope: its collection (the default when it names
/// none) and the `where` clause over `key`.
pub open spec fn scope_request_ok(
    r: CollectionRequest,
    collection: Seq<char>,
    default_collection: Seq<char>,
    key: Seq<char>,
    values: Seq<Seq<char>>,
) -> bool {
    &&& r.collection@ == if collection.len() == 0 {
        default_collection
    } else {
        collection
    }
    &&& scope_where(r.where_clause, key, values)
}

/// The filter of `{key: v}`: the key must hold `v`.
pub open spec fn eq_filter(key: Seq<char>, v: Seq<char>) -> FilterV {
    FilterV { must: seq![CondV::Text(key, v)], should: Seq::empty() }
}

/// The filter a scope's values give: nothing required for none, the key
/// holding the value for one, and one of the values for several.
pub open spec fn scope_filter(key: Seq<char>, vs: Seq<Seq<char>>) -> FilterV {
    if vs.len() == 0 {
        FilterV { must: Seq::empty(), should: Seq::empty() }
    } else if vs.len() == 1 {
        eq_filter(key, vs[0])
    } else {
        FilterV {
            must: Seq::empty(),
            should: Seq::new(vs.len(), |i: int| CondV::Nested(eq_filter(key, vs[i]))),
        }
    }
}

proof fn lemma_eq_object_filter(j: JsonValue, key: Seq<char>, v: Seq<char>)
    requires
        is_eq_object(j, key, v),
        key != "$and"@,
        key != "$or"@,
    ensures
        where_filter(j) == Ok::<FilterV, ErrV>(eq_filter(key, v)),
{
    let m = j->Object_0@;
    assert(key_pos(m, "$and"@, 1) == 1);
    assert(key_pos(m, "$and"@, 0) == 1);
    assert(key_pos(m, "$or"@, 1) == 1);
    assert(key_pos(m, "$or"@, 0) == 1);
    assert(m.drop_last().len() == 0);
    assert(plain_conds(m.drop_last()) == Ok::<Seq<CondV>, ErrV>(Seq::empty()));
    assert(plain_cond(m.last().0@, m.last().1) == Ok::<CondV, ErrV>(CondV::Text(key, v)));
    assert(Seq::<CondV>::empty().push(CondV::Text(key, v)) =~= seq![CondV::Text(key, v)]);
}

proof fn lemma_eq_clause_list(a: Seq<JsonValue>, key: Seq<char>, vs: Seq<Seq<char>>)
    requires
        a.len() == vs.len(),
        forall|i: int| 0 <= i < a.len() ==> is_eq_object(#[trigger] a[i], key, vs[i]),
        key != "$and"@,
        key != "$or"@,
    ensures
        clause_list(a, false) == Ok::<Seq<CondV>, ErrV>(
            Seq::new(a.len(), |i: int| CondV::Nested(eq_filter(key, vs[i]))),
        ),
    decreases a.len(),
{
    if a.len() > 0 {
        let d = a.drop_last();
        let dv = vs.drop_last();
        assert forall|i: int| 0 <= i < d.len() implies is_eq_object(#[trigger] d[i], key, dv[i]) by {
            assert(d[i] == a[i]);
        }
        lemma_eq_clause_list(d, key, dv);
        let n = (a.len() - 1) as int;
        assert(is_eq_object(a[n], key, vs[n]));
        lemma_eq_object_filter(a.last(), key, vs.last());
        assert(Seq::new(d.len(), |i: int| CondV::Nested(eq_filter(key, dv[i]))).push(
            CondV::Nested(eq_filter(key, vs.last())),
        ) =~= Seq::new(a.len(), |i: int| CondV::Nested(eq_filter(key, vs[i]))));
    } else {
        assert(Seq::new(a.len(), |i: int| CondV::Nested(eq_filter(key, vs[i]))) =~= Seq::<
            CondV,
        >::empty());
    }
}

/// Law: the `where` clause of a scope is always a valid filter, and it
/// filters on exactly the scope's non-empty values (for a key that is not
/// itself an operator).
pub proof fn lemma_scope_where_filter(j: JsonValue, key: Seq<char>, values: Seq<Seq<char>>)
    requires
        scope_where(j, key, values),
        key != "$and"@,
        key != "$or"@,
    ensures
        where_filter(j) == Ok::<FilterV, ErrV>(scope_filter(key, nonempty_values(values))),
{
    let vs = nonempty_values(values);
    if vs.len() == 0 {
        let m = j->Object_0@;
        assert(key_pos(m, "$and"@, 0) == 0);
        assert(key_pos(m, "$or"@, 0) == 0);
        assert(plain_conds(m) == Ok::<Seq<CondV>, ErrV>(Seq::empty()));
    } else if vs.len() == 1 {
        lemma_eq_object_filter(j, key, vs[0]);
    } else {
        let m = j->Object_0@;
        reveal_strlit("$and");
        reveal_strlit("$or");
        assert(m[0].0@ == "$or"@);
        assert("$or"@ != "$and"@) by {
            assert("$or"@[1] != "$and"@[1]);
        }
        assert(key_pos(m, "$and"@, 1) == 1);
        assert(key_pos(m, "$and"@, 0) == 1);
        assert(key_pos(m, "$or"@, 0) == 0);
        let a = m[0].1->Array_0@;
        lemma_eq_clause_list(a, key, vs);
    }
}

fn nonempty_strings(v: &Vec<String>) -> (r: Vec<String>)
    ensures
        views(r@) == nonempty_values(views(v@)),
{
    let mut r: Vec<String> = Vec::new();
    let mut i: usize = 0;
    while i < v.len()
        invariant
            i <= v.len(),
            views(r@) == nonempty_values(views(v@).take(i as int)),
        decreases v.len() - i,
    {
        let ghost before = r@;
        assert(views(v@).take(i + 1).drop_last() =~= views(v@).take(i as int));
        assert(views(v@).take(i + 1).last() == v@[i as int]@);
        if v[i].as_str().unicode_len() > 0 {
            r.push(v[i].as_str().to_owned());
            assert(r@.drop_last() == before);
            assert(views(r@) =~= views(before).push(v@[i as int]@));
        }
        i += 1;
    }
    assert(views(v@).take(v.len() as int) =~= views(v@));
    r
}

fn eq_object(key: &str, val: &str) -> (j: JsonValue)
    ensures
        is_eq_object(j, key@, val@),
{
    let mut o: Vec<(String, JsonValue)> = Vec::new();
    o.push((key.to_owned(), JsonValue::Str(val.to_owned())));
    JsonValue::Object(o)
}

/// The request of one scope.
fn scope_request(collection: &String, default_collection: &str, filter_key: &str, values: &Vec<String>) -> (r: CollectionRequest)
    ensures
        scope_request_ok(r, collection@, default_collection@, filter_key@, views(values@)),
{
    let vs = nonempty_strings(values);
    let ghost w = nonempty_values(views(values@));
    let where_clause = if vs.len() == 0 {
        JsonValue::Object(Vec::new())
    } else if vs.len() == 1 {
        assert(vs@[0]@ == w[0]);
        eq_object(filter_key, vs[0].as_str())
    } else {
        let mut a: Vec<JsonValue> = Vec::new();
        let mut i: usize = 0;
        while i < vs.len()
            invariant
                i <= vs.len(),
                views(vs@) == w,
                a@.len() == i,
                forall|k: int| 0 <= k < i ==> is_eq_object(#[trigger] a@[k], filter_key@, w[k]),
            decreases vs.len() - i,
        {
            assert(vs@[i as int]@ == w[i as int]);
            a.push(eq_object(filter_key, vs[i].as_str()));
            i += 1;
        }
        let mut o: Vec<(String, JsonValue)> = Vec::new();
        o.push(("$or".to_owned(), JsonValue::Array(a)));
        JsonValue::Object(o)
    };
    let coll = if collection.as_str().unicode_len() == 0 {
        default_collection.to_owned()
    } else {
        collection.as_str().to_owned()
    };
    CollectionRequest { collection: coll, where_clause }
}

/// The search requests of a tool: one per code scope (collection default
/// `codebase`, filtered on `repo_name`), then one per document scope
/// (default `general`, filtered on `group`); with no scope at all, a
/// single unfiltered request on `codebase`.
pub fn collection_requests(
    code_search_scopes: &Vec<ToolCodeSearchScope>,
    document_search_scopes: &Vec<ToolDocumentSearchScope>,
) -> (r: Vec<CollectionRequest>)
    ensures
        code_search_scopes.len() + document_search_scopes.len() == 0 ==> {
            &&& r.len() == 1
            &&& r@[0].collection@ == "codebase"@
            &&& r@[0].where_clause matches JsonValue::Object(o) && o@.len() == 0
        },
        code_search_scopes.len() + document_search_scopes.len() > 0 ==> {
            &&& r.len() == code_search_scopes.len() + document_search_scopes.len()
            &&& forall|i: int|
                0 <= i < code_search_scopes.len() ==> scope_request_ok(
                    #[trigger] r@[i],
                    code_search_scopes@[i].collection@,
                    "codebase"@,
                    "repo_name"@,
                    views(code_search_scopes@[i].repo_names@),
                )
            &&& forall|i: int|
                0 <= i < document_search_scopes.len() ==> scope_request_ok(
                    #[trigger] r@[code_search_scopes.len() + i],
                    document_search_scopes@[i].collection@,
                    "general"@,
                    "group"@,
                    views(document_search_scopes@[i].group_ids@),
                )
        },
{
    let n1 = code_search_scopes.len();
    let mut r: Vec<CollectionRequest> = Vec::new();
    let mut i: usize = 0;
    while i < n1
        invariant
            i <= n1 == code_search_scopes.len(),
            r@.len() == i,
            forall|k: int|
                0 <= k < i ==> scope_request_ok(
                    #[trigger] r@[k],
                    code_search_scopes@[k].collection@,
                    "codebase"@,
                    "repo_name"@,
                    views(code_search_scopes@[k].repo_names@),
                ),
        decreases n1 - i,
    {
        let s = &code_search_scopes[i];
        r.push(scope_request(&s.collection, "codebase", "repo_name", &s.repo_names));
        i += 1;
    }
    let mut j: usize = 0;
    while j < document_search_scopes.len()
        invariant
            j <= document_search_scopes.len(),
            n1 == code_search_scopes.len(),
            r@.len() == n1 + j,
            forall|k: int|
                0 <= k < n1 ==> scope_request_ok(
                    #[trigger] r@[k],
                    code_search_scopes@[k].collection@,
                    "codebase"@,
                    "repo_name"@,
                    views(code_search_scopes@[k].repo_names@),
                ),
            forall|k: int|
                0 <= k < j ==> scope_request_ok(
                    #[trigger] r@[n1 + k],
                    document_search_scopes@[k].collection@,
                    "general"@,
                    "group"@,
                    views(document_search_scopes@[k].group_ids@),
                ),
        decreases document_search_scopes.len() - j,
    {
        let s = &document_search_scopes[j];
        let q = scope_request(&s.collection, "general", "group", &s.group_ids);
        let ghost before = r@;
        r.push(q);
        assert forall|k: int| 0 <= k < n1 implies #[trigger] r@[k] == before[k] by {}
        assert forall|k: int| 0 <= k < j implies #[trigger] r@[n1 + k] == before[n1 + k] by {}
        assert(r@[n1 + j] == q);
        j += 1;
    }
    if r.len() == 0 {
        r.push(CollectionRequest { collection: "codebase".to_owned(), where_clause: JsonValue::Object(Vec::new()) });
    }
    r
}

// ---------------------------------------------------------------------------
// Upsert batches
// ---------------------------------------------------------------------------

/// The lengths of an upsert's four inputs, when they differ.
#[derive(Debug, PartialEq)]
pub struct LengthMismatch {
    pub ids: usize,
    pub documents: usize,
    pub dense: usize,
    pub metadatas: usize,
}

/// The message of a length mismatch: `upsert_items: ids (N), documents
/// (N), dense (N), metadatas (N): length mismatch`.
pub open spec fn mismatch_message(e: LengthMismatch) -> Seq<char> {
    "upsert_items: ids ("@ + digits(e.ids as nat) + "), documents ("@ + digits(e.documents as nat)
        + "), dense ("@ + digits(e.dense as nat) + "), metadatas ("@ + digits(e.metadatas as nat)
        + "): length mismatch"@
}

fn digits_text(n: usize) -> (s: String)
    ensures
        s@ == digits(n as nat),
{
    let v = digits_string(n as u64);
    string_of(&v)
}

impl LengthMismatch {
    /// The error message (see `mismatch_message`); it says "length mismatch".
    pub fn message(&self) -> (m: String)
        ensures
            m@ == mismatch_message(*self),
            contains_spec(m@, "length mismatch"@),
    {
        let s = concat_str("upsert_items: ids (", digits_text(self.ids).as_str());
        let s = concat_str(s.as_str(), "), documents (");
        let s = concat_str(s.as_str(), digits_text(self.documents).as_str());
        let s = concat_str(s.as_str(), "), dense (");
        let s = concat_str(s.as_str(), digits_text(self.dense).as_str());
        let s = concat_str(s.as_str(), "), metadatas (");
        let s = concat_str(s.as_str(), digits_text(self.metadatas).as_str());
        let pre = s;
        let m = concat_str(pre.as_str(), "): length mismatch");
        proof {
            reveal_strlit("): length mismatch");
            reveal_strlit("length mismatch");
            let n = pre@.len() as int;
            assert(m@.subrange(n + 3, n + 18) =~= "length mismatch"@);
            assert(occurs_at(m@, "length mismatch"@, n + 3));
        }
        m
    }
}

/// The batch size used: 250 when none (zero) is given.
pub open spec fn effective_batch(batch_size: nat) -> nat {
    if batch_size == 0 {
        250
    } else {
        batch_size
    }
}

/// Consecutive ranges `[start, min(start + bs, n))` from `start` to `n`.
pub open spec fn batch_ranges(start: int, n: int, bs: int) -> Seq<(int, int)>
    decreases if start < n { n - start } else { 0 },
{
    if start >= n || bs <= 0 {
        Seq::empty()
    } else {
        seq![(start, if start + bs < n { start + bs } else { n })] + batch_ranges(start + bs, n, bs)
    }
}

proof fn lemma_batch_ranges_step(start: int, n: int, bs: int)
    requires
        bs > 0,
        start < n,
    ensures
        batch_ranges(start, n, bs) == seq![(start, if start + bs < n { start + bs } else { n })]
            + batch_ranges(start + bs, n, bs),
{
}

/// The item ranges an upsert sends, batch by batch: an error when the ids,
/// documents, dense vectors and metadata differ in number; otherwise ranges
/// of the effective batch size covering all items (none for no items).
pub fn upsert_batches(
    ids: usize,
    documents: usize,
    dense: usize,
    metadatas: usize,
    batch_size: usize,
) -> (r: Result<Vec<(usize, usize)>, LengthMismatch>)
    ensures
        (ids != documents || ids != dense || ids != metadatas) <==> r is Err,
        (ids == 0 && documents == 0 && dense == 0 && metadatas == 0) ==> (r matches Ok(v)
            && v@.len() == 0),
        r matches Ok(v) ==> forall|k: int|
            0 <= k < v@.len() ==> (#[trigger] v@[k]).0 < v@[k].1 <= ids,
        r matches Err(e) ==> e == (LengthMismatch { ids, documents, dense, metadatas }),
        r matches Ok(v) ==> v@.len() == batch_ranges(0, ids as int, effective_batch(batch_size as nat) as int).len()
            && forall|k: int| 0 <= k < v@.len() ==> ((#[trigger] v@[k]).0 as int, v@[k].1 as int)
                == batch_ranges(0, ids as int, effective_batch(batch_size as nat) as int)[k],
{
    if ids != documents || ids != dense || ids != metadatas {
        return Err(LengthMismatch { ids, documents, dense, metadatas });
    }
    let bs: usize = if batch_size == 0 { 250 } else { batch_size };
    let ghost b = bs as int;
    let ghost all = batch_ranges(0, ids as int, b);
    let mut v: Vec<(usize, usize)> = Vec::new();
    let mut start: usize = 0;
    while start < ids
        invariant
            b == bs as int > 0,
            all == batch_ranges(0, ids as int, b),
            start <= ids,
            forall|k: int| 0 <= k < v@.len() ==> (#[trigger] v@[k]).0 < v@[k].1 <= ids,
            all == v@.map_values(|p: (usize, usize)| (p.0 as int, p.1 as int)) + batch_ranges(
                start as int,
                ids as int,
                b,
            ),
        decreases ids - start,
    {
        proof {
            lemma_batch_ranges_step(start as int, ids as int, b);
        }
        let end: usize = if bs < ids - start { start + bs } else { ids };
        let ghost before = v@.map_values(|p: (usize, usize)| (p.0 as int, p.1 as int));
        let ghost old_start = start as int;
        v.push((start, end));
        assert(v@.map_values(|p: (usize, usize)| (p.0 as int, p.1 as int)) =~= before.push(
            (start as int, end as int),
        ));
        start = end;
        if end == ids {
            assert(batch_ranges(old_start + b, ids as int, b) =~= Seq::<(int, int)>::empty());
            assert(batch_ranges(ids as int, ids as int, b) =~= Seq::<(int, int)>::empty());
        }
        assert(before + (seq![(old_start, end as int)] + batch_ranges(start as int, ids as int, b))
            =~= before.push((old_start, end as int)) + batch_ranges(start as int, ids as int, b));
    }
    Ok(v)
}


} // verus!
