//! Bind parameters, statements, and the rendering of placeholders.

use vstd::prelude::*;
use vstd::string::*;
use crate::text::{all_digits, digit_run, digit_value, digits_value, is_digit, lemma_digit_run, lemma_digits_value_prefix};

verus! {

/// A point in time as seconds and nanoseconds since the Unix epoch.
#[derive(Clone, Copy, Debug, PartialEq, Eq, Structural)]
pub struct Timestamp {
    pub secs: i64,
    pub nanos: u32,
}

/// One typed bind parameter of a statement.
#[derive(Clone, Debug, PartialEq, Eq)]
pub enum QueryParam {
    /// A 64-bit integer, such as a profile or row identifier.
    Int(i64),
    /// A 16-bit integer, such as an entry kind or a flag.
    SmallInt(i16),
    /// A byte string, such as an encrypted column.
    Bytes(Vec<u8>),
    /// A text value.
    Text(String),
    /// An integer that may be `NULL`.
    OptInt(Option<i64>),
    /// A timestamp that may be `NULL`.
    OptTimestamp(Option<Timestamp>),
}

/// The value of a bind parameter.
pub enum ParamView {
    Int(i64),
    SmallInt(i16),
    Bytes(Seq<u8>),
    Text(Seq<char>),
    OptInt(Option<i64>),
    OptTimestamp(Option<Timestamp>),
}

impl View for QueryParam {
    type V = ParamView;

    open spec fn view(&self) -> ParamView {
        match self {
            QueryParam::Int(v) => ParamView::Int(*v),
            QueryParam::SmallInt(v) => ParamView::SmallInt(*v),
            QueryParam::Bytes(v) => ParamView::Bytes(v@),
            QueryParam::Text(v) => ParamView::Text(v@),
            QueryParam::OptInt(v) => ParamView::OptInt(*v),
            QueryParam::OptTimestamp(v) => ParamView::OptTimestamp(*v),
        }
    }
}

/// An append-only list of bind parameters, in the order of their placeholders.
#[derive(Clone, Debug, PartialEq, Eq)]
pub struct QueryParams {
    pub items: Vec<QueryParam>,
}

impl View for QueryParams {
    type V = Seq<ParamView>;

    open spec fn view(&self) -> Seq<ParamView> {
        self.items@.map_values(|p: QueryParam| p@)
    }
}

impl QueryParams {
    /// An empty list.
    pub fn new() -> (params: QueryParams)
        ensures
            params@ == Seq::<ParamView>::empty(),
    {
        let params = QueryParams { items: Vec::new() };
        assert(params@ =~= Seq::<ParamView>::empty());
        params
    }

    /// The number of parameters.
    pub fn len(&self) -> (n: usize)
        ensures
            n == self@.len(),
    {
        self.items.len()
    }

    /// Appends one parameter.
    pub fn push(&mut self, param: QueryParam)
        ensures
            final(self)@ == old(self)@.push(param@),
    {
        self.items.push(param);
        assert(self@ =~= old(self)@.push(param@));
    }

    /// Appends all parameters of `other`, in order.
    pub fn extend(&mut self, other: QueryParams)
        ensures
            final(self)@ == old(self)@ + other@,
    {
        let mut other = other;
        let ghost added = other@;
        self.items.append(&mut other.items);
        assert(self@ =~= old(self)@ + added);
    }
}

/// A statement ready to be run: its text and the parameters bound to its placeholders.
#[derive(Clone, Debug, PartialEq, Eq)]
pub struct Statement {
    pub sql: String,
    pub params: QueryParams,
}

/// The value of a statement.
pub struct StatementView {
    pub sql: Seq<char>,
    pub params: Seq<ParamView>,
}

impl View for Statement {
    type V = StatementView;

    open spec fn view(&self) -> StatementView {
        StatementView { sql: self.sql@, params: self.params@ }
    }
}

/// How a backend writes its statements.
pub trait QueryPrepare: Sized {
    /// The text of the placeholder for the parameter at position `index`, counted from one.
    spec fn spec_placeholder(index: int) -> Seq<char>;

    /// Renders the placeholder for the parameter at position `index`.
    fn placeholder(index: i64) -> (s: String)
        ensures
            s@ == Self::spec_placeholder(index as int),
    ;

    /// Appends the clause that limits the rows of a query, where an offset or
    /// a limit is given, and binds its two parameters: the limit, `NULL`
    /// standing for none, and then the offset, zero standing for none.
    fn limit_query(query: String, args: &mut QueryParams, offset: Option<i64>, limit: Option<i64>)
        -> (out: String)
        requires
            old(args)@.len() + 2 < i64::MAX,
        ensures
            out@ == query@ + (if offset is Some || limit is Some {
                " LIMIT "@ + Self::spec_placeholder(old(args)@.len() as int + 1) + " OFFSET "@
                    + Self::spec_placeholder(old(args)@.len() as int + 2)
            } else {
                Seq::empty()
            }),
            final(args)@ == old(args)@ + limit_params(offset, limit),
    {
        let ghost base = query@;
        let mut query = query;
        if offset.is_some() || limit.is_some() {
            let last_idx = (args.len() as u64 + 1) as i64;
            args.push(QueryParam::OptInt(limit));
            args.push(
                QueryParam::Int(
                    match offset {
                        Some(n) => n,
                        None => 0,
                    },
                ),
            );
            query.append(" LIMIT ");
            query.append(Self::placeholder(last_idx).as_str());
            query.append(" OFFSET ");
            query.append(Self::placeholder(last_idx + 1).as_str());
            assert(query@ =~= base + (" LIMIT "@ + Self::spec_placeholder(old(args)@.len() as int + 1)
                + " OFFSET "@ + Self::spec_placeholder(old(args)@.len() as int + 2)));
            assert(args@ =~= old(args)@ + limit_params(offset, limit));
        } else {
            assert(query@ =~= base + Seq::<char>::empty());
            assert(args@ =~= old(args)@ + limit_params(offset, limit));
        }
        query
    }
}

/// The clause that limits the rows of a query behind `bound` parameters; empty
/// where neither an offset nor a limit is given.
pub open spec fn limit_sql<Q: QueryPrepare>(bound: int, offset: Option<i64>, limit: Option<i64>)
    -> Seq<char> {
    if offset is Some || limit is Some {
        " LIMIT "@ + Q::spec_placeholder(bound + 1) + " OFFSET "@ + Q::spec_placeholder(bound + 2)
    } else {
        Seq::empty()
    }
}

/// The parameters of the clause that limits the rows of a query.
pub open spec fn limit_params(offset: Option<i64>, limit: Option<i64>) -> Seq<ParamView> {
    if offset is Some || limit is Some {
        seq![
            ParamView::OptInt(limit),
            ParamView::Int(
                match offset {
                    Some(n) => n,
                    None => 0,
                },
            ),
        ]
    } else {
        Seq::empty()
    }
}

/// Appends to a base query the condition of a compiled tag filter, where
/// there is one, and then the clause that limits the rows, where an offset or
/// a limit is given. The base query must end within its `WHERE` clause; the
/// filter must have been compiled to stand behind the parameters in `args`.
pub fn extend_query<Q: QueryPrepare>(
    query: &str,
    args: &mut QueryParams,
    tag_filter: Option<Statement>,
    offset: Option<i64>,
    limit: Option<i64>,
) -> (out: String)
    requires
        old(args)@.len() + filter_len(tag_filter) + 2 < i64::MAX,
    ensures
        out@ == query@ + filter_clause(tag_filter) + limit_sql::<Q>(
            old(args)@.len() + filter_len(tag_filter),
            offset,
            limit,
        ),
        final(args)@ == old(args)@ + filter_args(tag_filter) + limit_params(offset, limit),
{
    let mut out = String::from_str(query);
    match tag_filter {
        Some(filter) => {
            args.extend(filter.params);
            out.append(" AND ");
            out.append(filter.sql.as_str());
        },
        None => {
            assert(args@ =~= old(args)@ + filter_args(tag_filter));
        },
    }
    assert(out@ =~= query@ + filter_clause(tag_filter));
    Q::limit_query(out, args, offset, limit)
}

/// The condition that a compiled filter adds to the `WHERE` clause of a query.
pub open spec fn filter_clause(tag_filter: Option<Statement>) -> Seq<char> {
    match tag_filter {
        Some(filter) => " AND "@ + filter.sql@,
        None => Seq::empty(),
    }
}

/// The parameters that a compiled filter binds.
pub open spec fn filter_args(tag_filter: Option<Statement>) -> Seq<ParamView> {
    match tag_filter {
        Some(filter) => filter.params@,
        None => Seq::empty(),
    }
}

/// The number of parameters that a compiled filter binds.
pub open spec fn filter_len(tag_filter: Option<Statement>) -> int {
    filter_args(tag_filter).len() as int
}

/// One lexical unit of a statement template.
pub enum Token {
    /// A character that is copied as it is.
    Text(char),
    /// `$$`: the next parameter in sequence.
    Next,
    /// `$N`: the parameter with the one-based number `N` among those of the template.
    Numbered(int),
    /// A `$` that starts neither of the two.
    Stray,
}

/// The token that a non-empty template starts with.
pub open spec fn first_token(s: Seq<char>) -> Token {
    if s[0] != '$' {
        Token::Text(s[0])
    } else if s.len() >= 2 && s[1] == '$' {
        Token::Next
    } else if digit_run(s.skip(1)) > 0 {
        Token::Numbered(digits_value(s.subrange(1, 1 + digit_run(s.skip(1)))))
    } else {
        Token::Stray
    }
}

/// The number of characters that the first token of a non-empty template takes.
pub open spec fn first_token_len(s: Seq<char>) -> int {
    if s[0] != '$' {
        1
    } else if s.len() >= 2 && s[1] == '$' {
        2
    } else {
        1 + digit_run(s.skip(1))
    }
}

/// The tokens of a template, in order.
pub open spec fn tokens(s: Seq<char>) -> Seq<Token>
    decreases s.len(),
{
    if s.len() == 0 {
        Seq::empty()
    } else {
        proof {
            lemma_digit_run(s.skip(1));
        }
        seq![first_token(s)] + tokens(s.skip(first_token_len(s)))
    }
}

/// The text of a token sequence once its placeholders are rendered. Parameters of
/// the template are numbered from `start`; `index` is the number that the next
/// `$$` gets, and every placeholder, numbered or not, advances it by one.
pub open spec fn render<Q: QueryPrepare>(toks: Seq<Token>, start: int, index: int) -> Seq<char>
    decreases toks.len(),
{
    if toks.len() == 0 {
        Seq::empty()
    } else {
        match toks[0] {
            Token::Text(c) => seq![c] + render::<Q>(toks.skip(1), start, index),
            Token::Next => Q::spec_placeholder(index) + render::<Q>(toks.skip(1), start, index + 1),
            Token::Numbered(n) => Q::spec_placeholder(n + start - 1) + render::<Q>(
                toks.skip(1),
                start,
                index + 1,
            ),
            Token::Stray => seq!['$'] + render::<Q>(toks.skip(1), start, index),
        }
    }
}

/// Whether a token sequence can be rendered: no `$` is stray, and every number
/// that is read or produced fits a 64-bit signed integer.
pub open spec fn renderable(toks: Seq<Token>, start: int, index: int) -> bool
    decreases toks.len(),
{
    if toks.len() == 0 {
        true
    } else {
        match toks[0] {
            Token::Text(c) => renderable(toks.skip(1), start, index),
            Token::Next => index < i64::MAX && renderable(toks.skip(1), start, index + 1),
            Token::Numbered(n) => n <= i64::MAX && i64::MIN <= n + start - 1 <= i64::MAX && index
                < i64::MAX && renderable(toks.skip(1), start, index + 1),
            Token::Stray => false,
        }
    }
}

/// The template `filter` with its placeholders rendered for backend `Q`, its
/// parameters numbered from `start`.
pub open spec fn replaced<Q: QueryPrepare>(filter: Seq<char>, start: int) -> Seq<char> {
    render::<Q>(tokens(filter), start, start)
}

fn digit_of(c: char) -> (d: Option<i64>)
    ensures
        d is Some <==> is_digit(c),
        d matches Some(v) ==> v == digit_value(c),
{
    match c {
        '0' => Some(0),
        '1' => Some(1),
        '2' => Some(2),
        '3' => Some(3),
        '4' => Some(4),
        '5' => Some(5),
        '6' => Some(6),
        '7' => Some(7),
        '8' => Some(8),
        '9' => Some(9),
        _ => None,
    }
}

/// Rewrites the abstract placeholders of a statement template in the style of
/// backend `Q`. Each `$$` becomes the placeholder of the next parameter, counted
/// from `start_index`; each `$N` becomes the placeholder `N + start_index - 1`
/// and counts as one parameter too. All other text is kept.
pub fn replace_arg_placeholders<Q: QueryPrepare>(filter: &str, start_index: i64) -> (out: String)
    requires
        renderable(tokens(filter@), start_index as int, start_index as int),
    ensures
        out@ == replaced::<Q>(filter@, start_index as int),
{
    let n = filter.unicode_len();
    let mut out = String::new();
    let mut index = start_index;
    let mut i: usize = 0;
    let ghost start = start_index as int;
    let ghost s = filter@;
    assert(s.skip(0) =~= s);
    while i < n
        invariant
            s == filter@,
            start == start_index as int,
            n == s.len(),
            i <= n,
            renderable(tokens(s.skip(i as int)), start, index as int),
            out@ + render::<Q>(tokens(s.skip(i as int)), start, index as int) == replaced::<Q>(
                s,
                start,
            ),
        decreases n - i,
    {
        let ghost rest = s.skip(i as int);
        let ghost toks = tokens(rest);
        assert(toks.skip(1) =~= tokens(rest.skip(first_token_len(rest))));
        assert(toks[0] == first_token(rest));
        let ghost before = out@;
        let c = filter.get_char(i);
        assert(rest[0] == c);
        if c != '$' {
            out.append(filter.substring_char(i, i + 1));
            assert(s.subrange(i as int, i + 1) =~= seq![c]);
            assert(rest.skip(1) =~= s.skip(i + 1));
            assert(out@ + render::<Q>(tokens(s.skip(i + 1)), start, index as int) =~= before
                + render::<Q>(toks, start, index as int));
            i += 1;
        } else {
            let next_is_mark = if i + 1 < n {
                filter.get_char(i + 1) == '$'
            } else {
                false
            };
            assert(next_is_mark == (rest.len() >= 2 && rest[1] == '$'));
            if next_is_mark {
                let ph = Q::placeholder(index);
                out.append(ph.as_str());
                assert(rest.skip(2) =~= s.skip(i + 2));
                assert(out@ + render::<Q>(tokens(s.skip(i + 2)), start, index + 1) =~= before
                    + render::<Q>(toks, start, index as int));
                index += 1;
                i += 2;
            } else {
                let ghost run = digit_run(rest.skip(1));
                let ghost digits = rest.subrange(1, 1 + run);
                proof {
                    lemma_digit_run(rest.skip(1));
                    assert(rest.skip(1).take(run) =~= digits);
                    assert(run > 0);
                }
                let mut j: usize = i + 1;
                let mut value: i64 = 0;
                assert(digits.take(0) =~= Seq::<char>::empty());
                loop
                    invariant
                        s == filter@,
                        n == s.len(),
                        rest == s.skip(i as int),
                        i + 1 <= j <= i + 1 + run <= n,
                        run == digit_run(rest.skip(1)),
                        digits == rest.subrange(1, 1 + run),
                        all_digits(digits),
                        i + 1 + run < n ==> !is_digit(s[i + 1 + run]),
                        digits_value(digits) <= i64::MAX,
                        value == digits_value(digits.take(j - i - 1)),
                        0 <= value,
                    ensures
                        j == i + 1 + run,
                        value == digits_value(digits),
                    decreases n - j,
                {
                    if j >= n {
                        assert(digits.take(j - i - 1) =~= digits);
                        break;
                    }
                    let d = digit_of(filter.get_char(j));
                    match d {
                        None => {
                            assert(j == i + 1 + run) by {
                                if j < i + 1 + run {
                                    assert(digits[j - i - 1] == s[j as int]);
                                }
                            }
                            assert(digits.take(j - i - 1) =~= digits);
                            break;
                        },
                        Some(v) => {
                            proof {
                                assert(j < i + 1 + run);
                                let k = j - i - 1;
                                assert(digits[k] == s[j as int]);
                                assert(digits.take(k + 1).drop_last() =~= digits.take(k));
                                assert(digits.take(k + 1).last() == digits[k]);
                                lemma_digits_value_prefix(digits, k + 1);
                            }
                            value = value * 10 + v;
                            j += 1;
                        },
                    }
                }
                assert(toks[0] == Token::Numbered(value as int));
                let ph = Q::placeholder(value - 1 + start_index);
                out.append(ph.as_str());
                assert(rest.skip(1 + run) =~= s.skip(j as int));
                assert(out@ + render::<Q>(tokens(s.skip(j as int)), start, index + 1) =~= before
                    + render::<Q>(toks, start, index as int));
                index += 1;
                i = j;
            }
        }
    }
    assert(tokens(s.skip(n as int)) =~= Seq::<Token>::empty());
    assert(out@ + Seq::<char>::empty() =~= out@);
    out
}

/// Whether a text holds no `$`.
pub open spec fn plain(text: Seq<char>) -> bool {
    forall|i: int| 0 <= i < text.len() ==> #[trigger] text[i] != '$'
}

/// The template that is made of the given texts with a `$$` between each two.
pub open spec fn template(texts: Seq<Seq<char>>) -> Seq<char>
    decreases texts.len(),
{
    if texts.len() == 0 {
        Seq::empty()
    } else if texts.len() == 1 {
        texts[0]
    } else {
        texts[0] + seq!['$', '$'] + template(texts.skip(1))
    }
}

/// The given texts with a placeholder between each two: the first one is
/// that of parameter `index`, and each one after it that of the next parameter.
pub open spec fn filled<Q: QueryPrepare>(texts: Seq<Seq<char>>, index: int) -> Seq<char>
    decreases texts.len(),
{
    if texts.len() == 0 {
        Seq::empty()
    } else if texts.len() == 1 {
        texts[0]
    } else {
        texts[0] + Q::spec_placeholder(index) + filled::<Q>(texts.skip(1), index + 1)
    }
}

/// Text without a `$` in front of a template is copied as it is.
pub proof fn lemma_plain_prefix<Q: QueryPrepare>(
    text: Seq<char>,
    rest: Seq<char>,
    start: int,
    index: int,
)
    requires
        plain(text),
    ensures
        render::<Q>(tokens(text + rest), start, index) == text + render::<Q>(
            tokens(rest),
            start,
            index,
        ),
        renderable(tokens(text + rest), start, index) == renderable(tokens(rest), start, index),
    decreases text.len(),
{
    if text.len() == 0 {
        assert(text + rest =~= rest);
        assert(text + render::<Q>(tokens(rest), start, index) =~= render::<Q>(
            tokens(rest),
            start,
            index,
        ));
    } else {
        let all = text + rest;
        assert(all[0] == text[0]);
        assert(all.skip(1) =~= text.skip(1) + rest);
        assert(plain(text.skip(1))) by {
            assert forall|i: int| 0 <= i < text.skip(1).len() implies #[trigger] text.skip(1)[i]
                != '$' by {
                assert(text.skip(1)[i] == text[i + 1]);
            }
        }
        lemma_plain_prefix::<Q>(text.skip(1), rest, start, index);
        assert(tokens(all).skip(1) =~= tokens(all.skip(1)));
        assert(seq![text[0]] + (text.skip(1) + render::<Q>(tokens(rest), start, index)) =~= text
            + render::<Q>(tokens(rest), start, index));
    }
}

/// A `$$` in front of a template becomes the placeholder of the next parameter.
pub proof fn lemma_mark_prefix<Q: QueryPrepare>(rest: Seq<char>, start: int, index: int)
    ensures
        render::<Q>(tokens(seq!['$', '$'] + rest), start, index) == Q::spec_placeholder(index)
            + render::<Q>(tokens(rest), start, index + 1),
        renderable(tokens(seq!['$', '$'] + rest), start, index) == (index < i64::MAX && renderable(
            tokens(rest),
            start,
            index + 1,
        )),
{
    let all = seq!['$', '$'] + rest;
    assert(all[0] == '$' && all[1] == '$');
    assert(all.skip(2) =~= rest);
    assert(tokens(all).skip(1) =~= tokens(all.skip(2)));
}

/// In a template whose only `$` are those of its `$$`, the first `$$` becomes
/// the placeholder of parameter `index`, and each one after it that of the
/// next parameter; all other text is kept.
pub proof fn lemma_sequential_placeholders<Q: QueryPrepare>(
    texts: Seq<Seq<char>>,
    start: int,
    index: int,
)
    requires
        texts.len() >= 1,
        forall|k: int| 0 <= k < texts.len() ==> plain(#[trigger] texts[k]),
        index + texts.len() - 1 <= i64::MAX,
    ensures
        renderable(tokens(template(texts)), start, index),
        render::<Q>(tokens(template(texts)), start, index) == filled::<Q>(texts, index),
    decreases texts.len(),
{
    let none = Seq::<char>::empty();
    if texts.len() == 1 {
        lemma_plain_prefix::<Q>(texts[0], none, start, index);
        assert(texts[0] + none =~= texts[0]);
        assert(tokens(none) =~= Seq::<Token>::empty());
        assert(texts[0] + render::<Q>(tokens(none), start, index) =~= texts[0]);
    } else {
        let rest = texts.skip(1);
        assert forall|k: int| 0 <= k < rest.len() implies plain(#[trigger] rest[k]) by {
            assert(rest[k] == texts[k + 1]);
        }
        lemma_sequential_placeholders::<Q>(rest, start, index + 1);
        let tail = seq!['$', '$'] + template(rest);
        lemma_mark_prefix::<Q>(template(rest), start, index);
        lemma_plain_prefix::<Q>(texts[0], tail, start, index);
        assert(template(texts) =~= texts[0] + tail);
        assert(texts[0] + (Q::spec_placeholder(index) + filled::<Q>(rest, index + 1)) =~= filled::<Q>(
            texts,
            index,
        ));
    }
}

} // verus!
