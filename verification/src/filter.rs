//! The compiler of tag filters: from a filter to a condition in SQL on
//! `items i` and the parameters bound to its placeholders.
//!
//! The text of the condition depends on the form of the filter alone, never on
//! the names and values in it: every name and every value goes into a bind
//! parameter.

use vstd::prelude::*;
use vstd::string::*;
use vstd::utf8::encode_utf8;
use crate::error::{Error, ErrorKind};
use crate::keys::{EntryEncryptor, Field};
use crate::query::{ParamView, QueryParam, QueryParams, QueryPrepare, Statement};
use crate::types::{CompareOp, TagFilter, TagName};

verus! {

/// The form of a filter: what is left of it when names and values are taken out.
pub enum FilterShape {
    /// A comparison, and whether the tag it is made on is plain text.
    Compare(CompareOp, bool),
    /// A membership test, whether the tag is plain text, and the number of values.
    In(bool, nat),
    /// A test that tags exist; for each, whether it is plain text.
    Exist(Seq<bool>),
    And(Seq<FilterShape>),
    Or(Seq<FilterShape>),
    Not(Box<FilterShape>),
}

/// The form of a filter.
pub open spec fn shape_of(filter: TagFilter) -> FilterShape
    decreases filter,
{
    match filter {
        TagFilter::Eq(name, _) => FilterShape::Compare(CompareOp::Eq, name.spec_is_plaintext()),
        TagFilter::Neq(name, _) => FilterShape::Compare(CompareOp::Neq, name.spec_is_plaintext()),
        TagFilter::Gt(name, _) => FilterShape::Compare(CompareOp::Gt, name.spec_is_plaintext()),
        TagFilter::Gte(name, _) => FilterShape::Compare(CompareOp::Gte, name.spec_is_plaintext()),
        TagFilter::Lt(name, _) => FilterShape::Compare(CompareOp::Lt, name.spec_is_plaintext()),
        TagFilter::Lte(name, _) => FilterShape::Compare(CompareOp::Lte, name.spec_is_plaintext()),
        TagFilter::Like(name, _) => FilterShape::Compare(
            CompareOp::Like,
            name.spec_is_plaintext(),
        ),
        TagFilter::In(name, values) => FilterShape::In(name.spec_is_plaintext(), values@.len()),
        TagFilter::Exist(names) => FilterShape::Exist(
            names@.map_values(|n: TagName| n.spec_is_plaintext()),
        ),
        TagFilter::And(children) => FilterShape::And(shapes_of(children@, children@.len())),
        TagFilter::Or(children) => FilterShape::Or(shapes_of(children@, children@.len())),
        TagFilter::Not(child) => FilterShape::Not(Box::new(shape_of(*child))),
    }
}

/// The forms of the first `n` of a sequence of filters.
pub open spec fn shapes_of(filters: Seq<TagFilter>, n: nat) -> Seq<FilterShape>
    decreases filters, n,
{
    if n == 0 || n > filters.len() {
        Seq::empty()
    } else {
        shapes_of(filters, (n - 1) as nat).push(shape_of(filters[n - 1]))
    }
}

/// Whether a filter of this form can be compiled: a comparison of order, or
/// with a pattern, needs a tag whose value is plain text.
pub open spec fn shape_valid(shape: FilterShape) -> bool
    decreases shape, 0nat,
{
    match shape {
        FilterShape::Compare(op, plaintext) => plaintext || op.spec_on_ciphertext(),
        FilterShape::In(_, _) => true,
        FilterShape::Exist(_) => true,
        FilterShape::And(children) => shapes_valid(children, children.len()),
        FilterShape::Or(children) => shapes_valid(children, children.len()),
        FilterShape::Not(child) => shape_valid(*child),
    }
}

/// Whether the first `n` of a sequence of forms can all be compiled.
pub open spec fn shapes_valid(shapes: Seq<FilterShape>, n: nat) -> bool
    decreases shapes, n,
{
    if n == 0 || n > shapes.len() {
        true
    } else {
        shapes_valid(shapes, (n - 1) as nat) && shape_valid(shapes[n - 1])
    }
}

/// The number of parameters that a filter of this form binds.
pub open spec fn param_count(shape: FilterShape) -> nat
    decreases shape, 0nat,
{
    match shape {
        FilterShape::Compare(_, _) => 3,
        FilterShape::In(_, n) => if n == 0 {
            0
        } else {
            2 + n
        },
        FilterShape::Exist(flags) => 2 * flags.len(),
        FilterShape::And(children) => params_count(children, children.len()),
        FilterShape::Or(children) => params_count(children, children.len()),
        FilterShape::Not(child) => param_count(*child),
    }
}

/// The number of parameters that the first `n` of a sequence of forms bind.
pub open spec fn params_count(shapes: Seq<FilterShape>, n: nat) -> nat
    decreases shapes, n,
{
    if n == 0 || n > shapes.len() {
        0
    } else {
        params_count(shapes, (n - 1) as nat) + param_count(shapes[n - 1])
    }
}

pub const EXISTS_HEAD: &'static str =
    "EXISTS (SELECT 1 FROM items_tags it WHERE it.item_id = i.id AND it.plaintext=";

pub const NAME_IS: &'static str = " AND it.name=";

pub const VALUE: &'static str = " AND it.value ";

pub const VALUE_IN: &'static str = " AND it.value IN (";

/// The SQL operator of a comparison.
pub open spec fn spec_op_sql(op: CompareOp) -> Seq<char> {
    match op {
        CompareOp::Eq => "="@,
        CompareOp::Neq => "!="@,
        CompareOp::Gt => ">"@,
        CompareOp::Gte => ">="@,
        CompareOp::Lt => "<"@,
        CompareOp::Lte => "<="@,
        CompareOp::Like => "LIKE"@,
    }
}

/// The condition that a tag with the name in parameter `start + 1` exists,
/// with the plain-text flag in parameter `start`.
pub open spec fn exist_sql<Q: QueryPrepare>(start: int) -> Seq<char> {
    EXISTS_HEAD@ + Q::spec_placeholder(start) + NAME_IS@ + Q::spec_placeholder(start + 1) + ")"@
}

/// The conditions that `n` tags exist, joined by `AND`; the first takes its
/// parameters from `start`.
pub open spec fn exists_sql<Q: QueryPrepare>(start: int, n: nat) -> Seq<char>
    decreases n,
{
    if n == 0 {
        Seq::empty()
    } else if n == 1 {
        exist_sql::<Q>(start)
    } else {
        exists_sql::<Q>(start, (n - 1) as nat) + " AND "@ + exist_sql::<Q>(start + 2 * (n - 1))
    }
}

/// The placeholders `start`, `start + 1`, ..., `n` of them, separated by `, `.
pub open spec fn placeholder_list<Q: QueryPrepare>(start: int, n: nat) -> Seq<char>
    decreases n,
{
    if n == 0 {
        Seq::empty()
    } else if n == 1 {
        Q::spec_placeholder(start)
    } else {
        placeholder_list::<Q>(start, (n - 1) as nat) + ", "@ + Q::spec_placeholder(start + n - 1)
    }
}

/// The condition of a filter of the given form, for backend `Q`; `start` is
/// the position of the first parameter that it binds.
pub open spec fn shape_sql<Q: QueryPrepare>(shape: FilterShape, start: int) -> Seq<char>
    decreases shape, 0nat,
{
    match shape {
        FilterShape::Compare(op, _) => EXISTS_HEAD@ + Q::spec_placeholder(start) + NAME_IS@
            + Q::spec_placeholder(start + 1) + VALUE@ + spec_op_sql(op) + " "@
            + Q::spec_placeholder(start + 2) + ")"@,
        FilterShape::In(_, n) => if n == 0 {
            "FALSE"@
        } else {
            EXISTS_HEAD@ + Q::spec_placeholder(start) + NAME_IS@ + Q::spec_placeholder(start + 1)
                + VALUE_IN@ + placeholder_list::<Q>(start + 2, n) + "))"@
        },
        FilterShape::Exist(flags) => if flags.len() == 0 {
            "TRUE"@
        } else {
            "("@ + exists_sql::<Q>(start, flags.len()) + ")"@
        },
        FilterShape::And(children) => if children.len() == 0 {
            "TRUE"@
        } else {
            "("@ + shapes_sql::<Q>(children, children.len(), " AND "@, start) + ")"@
        },
        FilterShape::Or(children) => if children.len() == 0 {
            "FALSE"@
        } else {
            "("@ + shapes_sql::<Q>(children, children.len(), " OR "@, start) + ")"@
        },
        FilterShape::Not(child) => "NOT ("@ + shape_sql::<Q>(*child, start) + ")"@,
    }
}

/// The conditions of the first `n` of a sequence of forms, joined by `sep`;
/// each takes its parameters where the one before it stops.
pub open spec fn shapes_sql<Q: QueryPrepare>(
    shapes: Seq<FilterShape>,
    n: nat,
    sep: Seq<char>,
    start: int,
) -> Seq<char>
    decreases shapes, n,
{
    if n == 0 || n > shapes.len() {
        Seq::empty()
    } else if n == 1 {
        shape_sql::<Q>(shapes[0], start)
    } else {
        shapes_sql::<Q>(shapes, (n - 1) as nat, sep, start) + sep + shape_sql::<Q>(
            shapes[n - 1],
            start + params_count(shapes, (n - 1) as nat),
        )
    }
}

/// The plain-text flag of a tag name as a parameter.
pub open spec fn flag_param(name: TagName) -> ParamView {
    ParamView::SmallInt(
        if name.spec_is_plaintext() {
            1
        } else {
            0
        },
    )
}

/// The encrypted name of a tag as a parameter.
pub open spec fn name_param<K: EntryEncryptor>(key: K, name: TagName) -> ParamView {
    ParamView::Bytes(key.cipher(Field::TagName, name.text()))
}

/// A value to compare with the tag `name`, as a parameter: as its UTF-8 bytes
/// where the tag is plain text, encrypted where it is not.
pub open spec fn value_param<K: EntryEncryptor>(key: K, name: TagName, value: Seq<char>)
    -> ParamView {
    ParamView::Bytes(
        if name.spec_is_plaintext() {
            encode_utf8(value)
        } else {
            key.cipher(Field::TagValue, value)
        },
    )
}

/// The parameters of the first `n` values of a membership test.
pub open spec fn values_params<K: EntryEncryptor>(
    key: K,
    name: TagName,
    values: Seq<String>,
    n: nat,
) -> Seq<ParamView>
    decreases n,
{
    if n == 0 || n > values.len() {
        Seq::empty()
    } else {
        values_params(key, name, values, (n - 1) as nat).push(
            value_param(key, name, values[n - 1]@),
        )
    }
}

/// The parameters of the first `n` names of an existence test.
pub open spec fn names_params<K: EntryEncryptor>(key: K, names: Seq<TagName>, n: nat) -> Seq<
    ParamView,
>
    decreases n,
{
    if n == 0 || n > names.len() {
        Seq::empty()
    } else {
        names_params(key, names, (n - 1) as nat).push(flag_param(names[n - 1])).push(
            name_param(key, names[n - 1]),
        )
    }
}

/// The parameters of a comparison.
pub open spec fn compare_params<K: EntryEncryptor>(key: K, name: TagName, value: Seq<char>) -> Seq<
    ParamView,
> {
    seq![flag_param(name), name_param(key, name), value_param(key, name, value)]
}

/// The parameters that a filter binds under `key`, in the order of their
/// placeholders.
pub open spec fn filter_params<K: EntryEncryptor>(key: K, filter: TagFilter) -> Seq<ParamView>
    decreases filter, 0nat,
{
    match filter {
        TagFilter::Eq(name, value) => compare_params(key, name, value@),
        TagFilter::Neq(name, value) => compare_params(key, name, value@),
        TagFilter::Gt(name, value) => compare_params(key, name, value@),
        TagFilter::Gte(name, value) => compare_params(key, name, value@),
        TagFilter::Lt(name, value) => compare_params(key, name, value@),
        TagFilter::Lte(name, value) => compare_params(key, name, value@),
        TagFilter::Like(name, value) => compare_params(key, name, value@),
        TagFilter::In(name, values) => if values@.len() == 0 {
            Seq::empty()
        } else {
            seq![flag_param(name), name_param(key, name)] + values_params(
                key,
                name,
                values@,
                values@.len(),
            )
        },
        TagFilter::Exist(names) => names_params(key, names@, names@.len()),
        TagFilter::And(children) => filters_params(key, children@, children@.len()),
        TagFilter::Or(children) => filters_params(key, children@, children@.len()),
        TagFilter::Not(child) => filter_params(key, *child),
    }
}

/// The parameters that the first `n` of a sequence of filters bind, in order.
pub open spec fn filters_params<K: EntryEncryptor>(key: K, filters: Seq<TagFilter>, n: nat) -> Seq<
    ParamView,
>
    decreases filters, n,
{
    if n == 0 || n > filters.len() {
        Seq::empty()
    } else {
        filters_params(key, filters, (n - 1) as nat) + filter_params(key, filters[n - 1])
    }
}

/// The forms of a sequence of filters are the forms of its members, in order.
pub proof fn lemma_shapes_of(filters: Seq<TagFilter>, n: nat)
    requires
        n <= filters.len(),
    ensures
        shapes_of(filters, n).len() == n,
        forall|k: int| 0 <= k < n ==> #[trigger] shapes_of(filters, n)[k] == shape_of(filters[k]),
    decreases n,
{
    if n > 0 {
        lemma_shapes_of(filters, (n - 1) as nat);
    }
}

/// A longer prefix of a sequence of forms binds no fewer parameters, and can
/// be compiled only if every shorter one can, and each of its members.
pub proof fn lemma_shapes_prefix(shapes: Seq<FilterShape>, i: nat, n: nat)
    requires
        i <= n <= shapes.len(),
    ensures
        params_count(shapes, i) <= params_count(shapes, n),
        shapes_valid(shapes, n) ==> shapes_valid(shapes, i),
        shapes_valid(shapes, n) && i < n ==> shape_valid(shapes[i as int]),
    decreases n,
{
    if i < n {
        lemma_shapes_prefix(shapes, i, (n - 1) as nat);
    }
}

/// A filter binds as many parameters as its form says.
pub proof fn lemma_filter_params_len<K: EntryEncryptor>(key: K, filter: TagFilter)
    ensures
        filter_params(key, filter).len() == param_count(shape_of(filter)),
    decreases filter, 0nat,
{
    match filter {
        TagFilter::In(name, values) => {
            lemma_values_params_len(key, name, values@, values@.len());
        },
        TagFilter::Exist(names) => {
            lemma_names_params_len(key, names@, names@.len());
        },
        TagFilter::And(children) => {
            lemma_shapes_of(children@, children@.len());
            lemma_filters_params_len(key, children@, children@.len());
        },
        TagFilter::Or(children) => {
            lemma_shapes_of(children@, children@.len());
            lemma_filters_params_len(key, children@, children@.len());
        },
        TagFilter::Not(child) => {
            lemma_filter_params_len(key, *child);
        },
        _ => {},
    }
}

/// The first `n` of a sequence of filters bind as many parameters as their forms say.
pub proof fn lemma_filters_params_len<K: EntryEncryptor>(key: K, filters: Seq<TagFilter>, n: nat)
    requires
        n <= filters.len(),
    ensures
        filters_params(key, filters, n).len() == params_count(
            shapes_of(filters, filters.len()),
            n,
        ),
    decreases filters, n,
{
    if n > 0 {
        lemma_filters_params_len(key, filters, (n - 1) as nat);
        lemma_filter_params_len(key, filters[n - 1]);
        lemma_shapes_of(filters, filters.len());
    }
}

proof fn lemma_values_params_len<K: EntryEncryptor>(
    key: K,
    name: TagName,
    values: Seq<String>,
    n: nat,
)
    requires
        n <= values.len(),
    ensures
        values_params(key, name, values, n).len() == n,
    decreases n,
{
    if n > 0 {
        lemma_values_params_len(key, name, values, (n - 1) as nat);
    }
}

proof fn lemma_names_params_len<K: EntryEncryptor>(key: K, names: Seq<TagName>, n: nat)
    requires
        n <= names.len(),
    ensures
        names_params(key, names, n).len() == 2 * n,
    decreases n,
{
    if n > 0 {
        lemma_names_params_len(key, names, (n - 1) as nat);
    }
}

/// The condition of a filter is the same for every filter of its form: no
/// name and no value of the filter is part of the text.
pub proof fn lemma_sql_ignores_names_and_values<Q: QueryPrepare>(
    a: TagFilter,
    b: TagFilter,
    start: int,
)
    requires
        shape_of(a) == shape_of(b),
    ensures
        shape_sql::<Q>(shape_of(a), start) == shape_sql::<Q>(shape_of(b), start),
        param_count(shape_of(a)) == param_count(shape_of(b)),
{
}

fn op_sql(op: CompareOp) -> (s: &'static str)
    ensures
        s@ == spec_op_sql(op),
{
    match op {
        CompareOp::Eq => "=",
        CompareOp::Neq => "!=",
        CompareOp::Gt => ">",
        CompareOp::Gte => ">=",
        CompareOp::Lt => "<",
        CompareOp::Lte => "<=",
        CompareOp::Like => "LIKE",
    }
}

/// Checks that a filter can be compiled and binds at most `budget` parameters,
/// and counts them.
fn measure(filter: &TagFilter, budget: u64) -> (out: Option<u64>)
    ensures
        match out {
            Some(count) => shape_valid(shape_of(*filter)) && count == param_count(
                shape_of(*filter),
            ) && count <= budget,
            None => !shape_valid(shape_of(*filter)) || param_count(shape_of(*filter)) > budget,
        },
    decreases *filter,
{
    match filter {
        TagFilter::Eq(name, _) => measure_compare(CompareOp::Eq, name, budget),
        TagFilter::Neq(name, _) => measure_compare(CompareOp::Neq, name, budget),
        TagFilter::Gt(name, _) => measure_compare(CompareOp::Gt, name, budget),
        TagFilter::Gte(name, _) => measure_compare(CompareOp::Gte, name, budget),
        TagFilter::Lt(name, _) => measure_compare(CompareOp::Lt, name, budget),
        TagFilter::Lte(name, _) => measure_compare(CompareOp::Lte, name, budget),
        TagFilter::Like(name, _) => measure_compare(CompareOp::Like, name, budget),
        TagFilter::In(_, values) => {
            let n = values.len() as u64;
            if n == 0 {
                Some(0)
            } else if budget < 2 || n > budget - 2 {
                None
            } else {
                Some(n + 2)
            }
        },
        TagFilter::Exist(names) => {
            let n = names.len() as u64;
            if n > budget / 2 {
                None
            } else {
                Some(2 * n)
            }
        },
        TagFilter::And(children) => {
            proof {
                lemma_shapes_of(children@, children@.len());
            }
            measure_all(children, budget)
        },
        TagFilter::Or(children) => {
            proof {
                lemma_shapes_of(children@, children@.len());
            }
            measure_all(children, budget)
        },
        TagFilter::Not(child) => measure(child, budget),
    }
}

fn measure_compare(op: CompareOp, name: &TagName, budget: u64) -> (out: Option<u64>)
    ensures
        match out {
            Some(count) => (name.spec_is_plaintext() || op.spec_on_ciphertext()) && count == 3
                && count <= budget,
            None => !(name.spec_is_plaintext() || op.spec_on_ciphertext()) || 3 > budget,
        },
{
    if (name.is_plaintext() || op.on_ciphertext()) && budget >= 3 {
        Some(3)
    } else {
        None
    }
}

fn measure_all(children: &Vec<TagFilter>, budget: u64) -> (out: Option<u64>)
    ensures
        match out {
            Some(count) => shapes_valid(shapes_of(children@, children@.len()), children@.len())
                && count == params_count(shapes_of(children@, children@.len()), children@.len())
                && count <= budget,
            None => !shapes_valid(shapes_of(children@, children@.len()), children@.len())
                || params_count(shapes_of(children@, children@.len()), children@.len()) > budget,
        },
    decreases children,
{
    let ghost shapes = shapes_of(children@, children@.len());
    proof {
        lemma_shapes_of(children@, children@.len());
    }
    let mut total: u64 = 0;
    let mut i: usize = 0;
    while i < children.len()
        invariant
            i <= children@.len(),
            shapes == shapes_of(children@, children@.len()),
            shapes.len() == children@.len(),
            forall|k: int| 0 <= k < shapes.len() ==> #[trigger] shapes[k] == shape_of(children@[k]),
            total == params_count(shapes, i as nat),
            total <= budget,
            shapes_valid(shapes, i as nat),
        decreases children@.len() - i,
    {
        match measure(&children[i], budget - total) {
            Some(count) => {
                total = total + count;
            },
            None => {
                proof {
                    lemma_shapes_prefix(shapes, (i + 1) as nat, shapes.len());
                    lemma_shapes_prefix(shapes, i as nat, shapes.len());
                }
                return None;
            },
        }
        i += 1;
    }
    Some(total)
}

fn push_placeholder<Q: QueryPrepare>(sql: &mut String, index: u64)
    requires
        index <= i64::MAX,
    ensures
        final(sql)@ == old(sql)@ + Q::spec_placeholder(index as int),
{
    let ph = Q::placeholder(index as i64);
    sql.append(ph.as_str());
}

fn flag_of(name: &TagName) -> (p: QueryParam)
    ensures
        p@ == flag_param(*name),
{
    if name.is_plaintext() {
        QueryParam::SmallInt(1)
    } else {
        QueryParam::SmallInt(0)
    }
}

fn encrypt_name_of<K: EntryEncryptor>(key: &K, name: &TagName) -> (out: Result<QueryParam, Error>)
    ensures
        match out {
            Ok(p) => p@ == name_param(*key, *name),
            Err(e) => e.kind == ErrorKind::Encryption,
        },
        key.encrypts_always() ==> out is Ok,
{
    let data = key.encrypt_tag_name(name.as_str())?;
    Ok(QueryParam::Bytes(data))
}

fn encrypt_value_of<K: EntryEncryptor>(key: &K, name: &TagName, value: &str) -> (out: Result<
    QueryParam,
    Error,
>)
    ensures
        match out {
            Ok(p) => p@ == value_param(*key, *name, value@),
            Err(e) => e.kind == ErrorKind::Encryption,
        },
        key.encrypts_always() ==> out is Ok,
{
    if name.is_plaintext() {
        Ok(QueryParam::Bytes(value.as_bytes_vec()))
    } else {
        let data = key.encrypt_tag_value(value)?;
        Ok(QueryParam::Bytes(data))
    }
}

/// The position of the placeholder of the next parameter, less one.
fn bound_so_far(params: &QueryParams, offset: usize) -> (n: u64)
    requires
        offset + params@.len() <= u64::MAX,
    ensures
        n == offset + params@.len(),
{
    offset as u64 + params.len() as u64
}

fn push_compare<Q: QueryPrepare, K: EntryEncryptor>(
    op: CompareOp,
    name: &TagName,
    value: &str,
    key: &K,
    sql: &mut String,
    params: &mut QueryParams,
    offset: usize,
) -> (out: Result<(), Error>)
    requires
        offset + old(params)@.len() + 3 < i64::MAX,
    ensures
        match out {
            Ok(()) => final(sql)@ == old(sql)@ + shape_sql::<Q>(
                FilterShape::Compare(op, name.spec_is_plaintext()),
                offset + old(params)@.len() + 1,
            ) && final(params)@ == old(params)@ + compare_params(*key, *name, value@),
            Err(e) => e.kind == ErrorKind::Encryption,
        },
        key.encrypts_always() ==> out is Ok,
{
    let enc_name = encrypt_name_of(key, name)?;
    let enc_value = encrypt_value_of(key, name, value)?;
    let next = bound_so_far(params, offset);
    sql.append(EXISTS_HEAD);
    push_placeholder::<Q>(sql, next + 1);
    sql.append(NAME_IS);
    push_placeholder::<Q>(sql, next + 2);
    sql.append(VALUE);
    sql.append(op_sql(op));
    sql.append(" ");
    push_placeholder::<Q>(sql, next + 3);
    sql.append(")");
    params.push(flag_of(name));
    params.push(enc_name);
    params.push(enc_value);
    assert(sql@ =~= old(sql)@ + shape_sql::<Q>(
        FilterShape::Compare(op, name.spec_is_plaintext()),
        offset + old(params)@.len() + 1,
    ));
    assert(params@ =~= old(params)@ + compare_params(*key, *name, value@));
    Ok(())
}

fn push_in<Q: QueryPrepare, K: EntryEncryptor>(
    name: &TagName,
    values: &Vec<String>,
    key: &K,
    sql: &mut String,
    params: &mut QueryParams,
    offset: usize,
) -> (out: Result<(), Error>)
    requires
        values@.len() > 0,
        offset + old(params)@.len() + 2 + values@.len() < i64::MAX,
    ensures
        match out {
            Ok(()) => final(sql)@ == old(sql)@ + shape_sql::<Q>(
                FilterShape::In(name.spec_is_plaintext(), values@.len()),
                offset + old(params)@.len() + 1,
            ) && final(params)@ == old(params)@ + (seq![flag_param(*name), name_param(*key, *name)]
                + values_params(*key, *name, values@, values@.len())),
            Err(e) => e.kind == ErrorKind::Encryption,
        },
        key.encrypts_always() ==> out is Ok,
{
    let enc_name = encrypt_name_of(key, name)?;
    let next = bound_so_far(params, offset);
    let ghost start = offset + old(params)@.len() + 1;
    sql.append(EXISTS_HEAD);
    push_placeholder::<Q>(sql, next + 1);
    sql.append(NAME_IS);
    push_placeholder::<Q>(sql, next + 2);
    sql.append(VALUE_IN);
    params.push(flag_of(name));
    params.push(enc_name);
    let ghost head = sql@;
    let ghost bound = params@;
    let mut i: usize = 0;
    assert(sql@ =~= head + placeholder_list::<Q>(start + 2, 0));
    assert(params@ =~= bound + values_params(*key, *name, values@, 0));
    while i < values.len()
        invariant
            i <= values@.len(),
            start == offset + old(params)@.len() + 1,
            start + 1 + values@.len() < i64::MAX,
            next + 1 == start,
            sql@ == head + placeholder_list::<Q>(start + 2, i as nat),
            params@ == bound + values_params(*key, *name, values@, i as nat),
        decreases values@.len() - i,
    {
        let enc = encrypt_value_of(key, name, values[i].as_str())?;
        let ghost sql_before = sql@;
        if i > 0 {
            sql.append(", ");
        }
        push_placeholder::<Q>(sql, next + 3 + i as u64);
        params.push(enc);
        assert(sql@ =~= head + placeholder_list::<Q>(start + 2, (i + 1) as nat));
        assert(params@ =~= bound + values_params(*key, *name, values@, (i + 1) as nat));
        i += 1;
    }
    sql.append("))");
    assert(sql@ =~= old(sql)@ + shape_sql::<Q>(
        FilterShape::In(name.spec_is_plaintext(), values@.len()),
        start,
    ));
    assert(params@ =~= old(params)@ + (seq![flag_param(*name), name_param(*key, *name)]
        + values_params(*key, *name, values@, values@.len())));
    Ok(())
}

fn push_exist<Q: QueryPrepare, K: EntryEncryptor>(
    names: &Vec<TagName>,
    key: &K,
    sql: &mut String,
    params: &mut QueryParams,
    offset: usize,
) -> (out: Result<(), Error>)
    requires
        offset + old(params)@.len() + 2 * names@.len() < i64::MAX,
    ensures
        match out {
            Ok(()) => final(sql)@ == old(sql)@ + shape_sql::<Q>(
                FilterShape::Exist(names@.map_values(|n: TagName| n.spec_is_plaintext())),
                offset + old(params)@.len() + 1,
            ) && final(params)@ == old(params)@ + names_params(*key, names@, names@.len()),
            Err(e) => e.kind == ErrorKind::Encryption,
        },
        key.encrypts_always() ==> out is Ok,
{
    let ghost start = offset + old(params)@.len() + 1;
    if names.len() == 0 {
        sql.append("TRUE");
        assert(params@ =~= old(params)@ + names_params(*key, names@, 0));
        return Ok(());
    }
    sql.append("(");
    let ghost head = sql@;
    let ghost bound = params@;
    let mut i: usize = 0;
    assert(sql@ =~= head + exists_sql::<Q>(start, 0));
    assert(params@ =~= bound + names_params(*key, names@, 0));
    while i < names.len()
        invariant
            i <= names@.len(),
            start == offset + bound.len() + 1,
            offset + bound.len() + 2 * names@.len() < i64::MAX,
            sql@ == head + exists_sql::<Q>(start, i as nat),
            params@ == bound + names_params(*key, names@, i as nat),
        decreases names@.len() - i,
    {
        let enc_name = encrypt_name_of(key, &names[i])?;
        proof {
            lemma_names_params_len(*key, names@, i as nat);
        }
        let next = bound_so_far(params, offset);
        if i > 0 {
            sql.append(" AND ");
        }
        sql.append(EXISTS_HEAD);
        push_placeholder::<Q>(sql, next + 1);
        sql.append(NAME_IS);
        push_placeholder::<Q>(sql, next + 2);
        sql.append(")");
        params.push(flag_of(&names[i]));
        params.push(enc_name);
        assert(sql@ =~= head + exists_sql::<Q>(start, (i + 1) as nat));
        assert(params@ =~= bound + names_params(*key, names@, (i + 1) as nat));
        i += 1;
    }
    sql.append(")");
    assert(sql@ =~= old(sql)@ + shape_sql::<Q>(
        FilterShape::Exist(names@.map_values(|n: TagName| n.spec_is_plaintext())),
        start,
    ));
    Ok(())
}

/// Appends the condition of a filter to `sql` and its parameters to `params`.
/// The placeholder of the parameter at position `p` of `params`, counted from
/// one, is the one numbered `offset + p`.
fn push_filter<Q: QueryPrepare, K: EntryEncryptor>(
    filter: &TagFilter,
    key: &K,
    sql: &mut String,
    params: &mut QueryParams,
    offset: usize,
) -> (out: Result<(), Error>)
    requires
        shape_valid(shape_of(*filter)),
        offset + old(params)@.len() + param_count(shape_of(*filter)) < i64::MAX,
    ensures
        match out {
            Ok(()) => final(sql)@ == old(sql)@ + shape_sql::<Q>(
                shape_of(*filter),
                offset + old(params)@.len() + 1,
            ) && final(params)@ == old(params)@ + filter_params(*key, *filter),
            Err(e) => e.kind == ErrorKind::Encryption,
        },
        key.encrypts_always() ==> out is Ok,
    decreases *filter,
{
    match filter {
        TagFilter::Eq(name, value) => push_compare::<Q, K>(
            CompareOp::Eq,
            name,
            value.as_str(),
            key,
            sql,
            params,
            offset,
        ),
        TagFilter::Neq(name, value) => push_compare::<Q, K>(
            CompareOp::Neq,
            name,
            value.as_str(),
            key,
            sql,
            params,
            offset,
        ),
        TagFilter::Gt(name, value) => push_compare::<Q, K>(
            CompareOp::Gt,
            name,
            value.as_str(),
            key,
            sql,
            params,
            offset,
        ),
        TagFilter::Gte(name, value) => push_compare::<Q, K>(
            CompareOp::Gte,
            name,
            value.as_str(),
            key,
            sql,
            params,
            offset,
        ),
        TagFilter::Lt(name, value) => push_compare::<Q, K>(
            CompareOp::Lt,
            name,
            value.as_str(),
            key,
            sql,
            params,
            offset,
        ),
        TagFilter::Lte(name, value) => push_compare::<Q, K>(
            CompareOp::Lte,
            name,
            value.as_str(),
            key,
            sql,
            params,
            offset,
        ),
        TagFilter::Like(name, value) => push_compare::<Q, K>(
            CompareOp::Like,
            name,
            value.as_str(),
            key,
            sql,
            params,
            offset,
        ),
        TagFilter::In(name, values) => {
            if values.len() == 0 {
                sql.append("FALSE");
                assert(params@ =~= old(params)@ + filter_params(*key, *filter));
                Ok(())
            } else {
                push_in::<Q, K>(name, values, key, sql, params, offset)
            }
        },
        TagFilter::Exist(names) => push_exist::<Q, K>(names, key, sql, params, offset),
        TagFilter::And(children) => {
            proof {
                lemma_shapes_of(children@, children@.len());
            }
            push_all::<Q, K>(children, true, key, sql, params, offset)
        },
        TagFilter::Or(children) => {
            proof {
                lemma_shapes_of(children@, children@.len());
            }
            push_all::<Q, K>(children, false, key, sql, params, offset)
        },
        TagFilter::Not(child) => {
            sql.append("NOT (");
            push_filter::<Q, K>(child, key, sql, params, offset)?;
            sql.append(")");
            assert(sql@ =~= old(sql)@ + shape_sql::<Q>(
                shape_of(*filter),
                offset + old(params)@.len() + 1,
            ));
            Ok(())
        },
    }
}

/// The separator of a conjunction or of a disjunction.
pub open spec fn spec_separator(all: bool) -> Seq<char> {
    if all {
        " AND "@
    } else {
        " OR "@
    }
}

fn push_all<Q: QueryPrepare, K: EntryEncryptor>(
    children: &Vec<TagFilter>,
    all: bool,
    key: &K,
    sql: &mut String,
    params: &mut QueryParams,
    offset: usize,
) -> (out: Result<(), Error>)
    requires
        shapes_valid(shapes_of(children@, children@.len()), children@.len()),
        offset + old(params)@.len() + params_count(
            shapes_of(children@, children@.len()),
            children@.len(),
        ) < i64::MAX,
    ensures
        match out {
            Ok(()) => final(sql)@ == old(sql)@ + (if children@.len() == 0 {
                if all {
                    "TRUE"@
                } else {
                    "FALSE"@
                }
            } else {
                "("@ + shapes_sql::<Q>(
                    shapes_of(children@, children@.len()),
                    children@.len(),
                    spec_separator(all),
                    offset + old(params)@.len() + 1,
                ) + ")"@
            }) && final(params)@ == old(params)@ + filters_params(
                *key,
                children@,
                children@.len(),
            ),
            Err(e) => e.kind == ErrorKind::Encryption,
        },
        key.encrypts_always() ==> out is Ok,
    decreases children,
{
    let ghost shapes = shapes_of(children@, children@.len());
    let ghost start = offset + old(params)@.len() + 1;
    let ghost sep = spec_separator(all);
    proof {
        lemma_shapes_of(children@, children@.len());
    }
    if children.len() == 0 {
        if all {
            sql.append("TRUE");
        } else {
            sql.append("FALSE");
        }
        assert(params@ =~= old(params)@ + filters_params(*key, children@, 0));
        return Ok(());
    }
    sql.append("(");
    let ghost head = sql@;
    let ghost bound = params@;
    let mut i: usize = 0;
    assert(sql@ =~= head + shapes_sql::<Q>(shapes, 0, sep, start));
    assert(params@ =~= bound + filters_params(*key, children@, 0));
    while i < children.len()
        invariant
            i <= children@.len(),
            shapes == shapes_of(children@, children@.len()),
            shapes.len() == children@.len(),
            forall|k: int| 0 <= k < shapes.len() ==> #[trigger] shapes[k] == shape_of(children@[k]),
            shapes_valid(shapes, shapes.len()),
            sep == spec_separator(all),
            start == offset + bound.len() + 1,
            offset + bound.len() + params_count(shapes, shapes.len()) < i64::MAX,
            sql@ == head + shapes_sql::<Q>(shapes, i as nat, sep, start),
            params@ == bound + filters_params(*key, children@, i as nat),
        decreases children@.len() - i,
    {
        proof {
            lemma_shapes_prefix(shapes, i as nat, shapes.len());
            lemma_shapes_prefix(shapes, (i + 1) as nat, shapes.len());
            lemma_filters_params_len(*key, children@, i as nat);
        }
        if i > 0 {
            if all {
                sql.append(" AND ");
            } else {
                sql.append(" OR ");
            }
        }
        push_filter::<Q, K>(&children[i], key, sql, params, offset)?;
        assert(sql@ =~= head + shapes_sql::<Q>(shapes, (i + 1) as nat, sep, start));
        assert(params@ =~= bound + filters_params(*key, children@, (i + 1) as nat));
        i += 1;
    }
    sql.append(")");
    assert(sql@ =~= old(sql)@ + ("("@ + shapes_sql::<Q>(shapes, children@.len(), sep, start)
        + ")"@));
    Ok(())
}

/// Whether a filter can be compiled behind `offset` parameters that are bound
/// already: its form is valid, and the positions of its parameters fit a
/// 64-bit signed integer.
pub open spec fn compilable(filter: TagFilter, offset: int) -> bool {
    shape_valid(shape_of(filter)) && offset + param_count(shape_of(filter)) < i64::MAX
}

/// Checks that a filter, if there is one, can be compiled behind `offset`
/// parameters; one that cannot is rejected as `Input`.
pub fn check_tag_filter(tag_filter: Option<&TagFilter>, offset: usize) -> (out: Result<(), Error>)
    ensures
        match out {
            Ok(()) => tag_filter matches Some(filter) ==> compilable(*filter, offset as int),
            Err(e) => e.kind == ErrorKind::Input && (tag_filter matches Some(filter) && !compilable(
                *filter,
                offset as int,
            )),
        },
{
    match tag_filter {
        None => Ok(()),
        Some(filter) => {
            if offset as u64 > 0x7fff_ffff_ffff_fffe {
                return Err(Error::new(ErrorKind::Input));
            }
            match measure(filter, 0x7fff_ffff_ffff_fffe - offset as u64) {
                None => Err(Error::new(ErrorKind::Input)),
                Some(_) => Ok(()),
            }
        },
    }
}

/// Compiles a tag filter for backend `Q` under the store key `key`, to stand
/// in a statement behind `offset` parameters that are bound already.
///
/// Without a filter there is nothing to compile. A filter that asks for a
/// comparison of order, or for a pattern, on an encrypted tag is rejected as
/// `Input`, before anything is encrypted.
pub fn encode_tag_filter<Q: QueryPrepare, K: EntryEncryptor>(
    tag_filter: Option<&TagFilter>,
    key: &K,
    offset: usize,
) -> (out: Result<Option<Statement>, Error>)
    ensures
        tag_filter is None ==> out matches Ok(None),
        tag_filter matches Some(filter) ==> (match out {
            Ok(Some(compiled)) => compilable(*filter, offset as int) && compiled.sql@
                == shape_sql::<Q>(shape_of(*filter), offset + 1) && compiled.params@
                == filter_params(*key, *filter),
            Ok(None) => false,
            Err(e) => if compilable(*filter, offset as int) {
                e.kind == ErrorKind::Encryption && !key.encrypts_always()
            } else {
                e.kind == ErrorKind::Input
            },
        }),
{
    match tag_filter {
        None => Ok(None),
        Some(filter) => {
            check_tag_filter(tag_filter, offset)?;
            let mut sql = String::new();
            let mut params = QueryParams::new();
            push_filter::<Q, K>(filter, key, &mut sql, &mut params, offset)?;
            assert(sql@ =~= shape_sql::<Q>(shape_of(*filter), offset + 1));
            assert(params@ =~= filter_params(*key, *filter));
            Ok(Some(Statement { sql, params }))
        },
    }
}

} // verus!
