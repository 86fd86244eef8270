//! The query builder: SQL text and bound values accumulated side by side.

use vstd::prelude::*;

use crate::arguments::{encodable, ArgumentBuffer, BindError, BindValue};
use crate::placeholder::{placeholder, Dialect};

verus! {

/// Accumulates SQL text and the values bound to its placeholders.
///
/// A builder is finalized once its arguments have been taken out by
/// `finalize`; it must then be `reset` before it is changed again.
pub struct QueryBuilder {
    query: String,
    init: String,
    dialect: Dialect,
    arguments: Option<ArgumentBuffer>,
}

/// The state `reset` leaves `after` in, from `before`: the initial text, no
/// bound value, ready for use, with the same initial text and dialect.
pub open spec fn is_reset_of(after: QueryBuilder, before: QueryBuilder) -> bool {
    &&& after.wf()
    &&& !after.finalized()
    &&& after.text() == before.initial()
    &&& after.args() == Seq::<BindValue>::empty()
    &&& after.initial() == before.initial()
    &&& after.dialect() == before.dialect()
}

/// What `finalize` hands out of `b`: its text and its bound values.
pub open spec fn is_finalized_from(text: Seq<char>, args: Seq<BindValue>, b: QueryBuilder) -> bool {
    &&& text == b.text()
    &&& args == b.args()
}

/// A builder that was reset and then finalized yields its initial text and no
/// bound value, whatever was done to it before.
pub proof fn lemma_reset_then_finalize(
    before: QueryBuilder,
    after: QueryBuilder,
    text: Seq<char>,
    args: Seq<BindValue>,
)
    requires
        is_reset_of(after, before),
        is_finalized_from(text, args, after),
    ensures
        text == before.initial(),
        args == Seq::<BindValue>::empty(),
{
}

/// One successful call on a builder, as far as its text and bound values go:
/// `QueryBuilder::push` of some text, or `QueryBuilder::push_bind` of a value.
pub enum Step {
    Push(Seq<char>),
    Bind(BindValue),
}

/// The text and the bound values after `steps`, from `text` and `args`, each
/// step acting as the contract of its call says.
pub open spec fn run(
    dialect: Dialect,
    text: Seq<char>,
    args: Seq<BindValue>,
    steps: Seq<Step>,
) -> (Seq<char>, Seq<BindValue>)
    decreases steps.len(),
{
    if steps.len() == 0 {
        (text, args)
    } else {
        let (t, a) = run(dialect, text, args, steps.drop_last());
        match steps.last() {
            Step::Push(s) => (t + s, a),
            Step::Bind(v) => (t + placeholder(dialect, a.len() + 1), a.push(v)),
        }
    }
}

/// The values of the `Bind` steps, in order.
pub open spec fn binds(steps: Seq<Step>) -> Seq<BindValue>
    decreases steps.len(),
{
    if steps.len() == 0 {
        Seq::<BindValue>::empty()
    } else {
        match steps.last() {
            Step::Push(_) => binds(steps.drop_last()),
            Step::Bind(v) => binds(steps.drop_last()).push(v),
        }
    }
}

/// Where in the text each placeholder written by `steps` starts, in order.
pub open spec fn placeholder_starts(
    dialect: Dialect,
    text: Seq<char>,
    args: Seq<BindValue>,
    steps: Seq<Step>,
) -> Seq<int>
    decreases steps.len(),
{
    if steps.len() == 0 {
        Seq::<int>::empty()
    } else {
        let prev = placeholder_starts(dialect, text, args, steps.drop_last());
        match steps.last() {
            Step::Push(_) => prev,
            Step::Bind(_) => prev.push(run(dialect, text, args, steps.drop_last()).0.len() as int),
        }
    }
}

/// From a builder with no bound value, any sequence of `push` and `push_bind`
/// calls writes one placeholder per bound value: the `k`-th placeholder, in
/// the order of the text, is that of number `k` and stands for the `k`-th
/// bound value, and the placeholders do not overlap each other or the
/// initial text.
pub proof fn lemma_placeholders_match_arguments(
    dialect: Dialect,
    init: Seq<char>,
    steps: Seq<Step>,
)
    ensures
        ({
            let (t, a) = run(dialect, init, Seq::<BindValue>::empty(), steps);
            let p = placeholder_starts(dialect, init, Seq::<BindValue>::empty(), steps);
            &&& a == binds(steps)
            &&& init.len() <= t.len()
            &&& p.len() == a.len()
            &&& forall|k: int|
                0 <= k < p.len() ==> {
                    &&& init.len() <= #[trigger] p[k]
                    &&& p[k] + placeholder(dialect, (k + 1) as nat).len() <= t.len()
                    &&& t.subrange(p[k], p[k] + placeholder(dialect, (k + 1) as nat).len())
                        == placeholder(dialect, (k + 1) as nat)
                }
            &&& forall|k: int|
                0 <= k < p.len() - 1 ==> p[k] + placeholder(dialect, (k + 1) as nat).len()
                    <= #[trigger] p[k + 1]
        }),
    decreases steps.len(),
{
    let empty = Seq::<BindValue>::empty();
    if steps.len() > 0 {
        let prev_steps = steps.drop_last();
        lemma_placeholders_match_arguments(dialect, init, prev_steps);
        let (t0, a0) = run(dialect, init, empty, prev_steps);
        let p0 = placeholder_starts(dialect, init, empty, prev_steps);
        let (t, a) = run(dialect, init, empty, steps);
        let p = placeholder_starts(dialect, init, empty, steps);
        assert(forall|x: int, y: int|
            0 <= x <= y <= t0.len() ==> #[trigger] t.subrange(x, y) =~= t0.subrange(x, y));
        assert forall|k: int| 0 <= k < p0.len() implies t.subrange(
            #[trigger] p[k],
            p[k] + placeholder(dialect, (k + 1) as nat).len(),
        ) == placeholder(dialect, (k + 1) as nat) by {
            assert(p[k] == p0[k]);
            assert(init.len() <= p0[k]);
            assert(t.subrange(p[k], p[k] + placeholder(dialect, (k + 1) as nat).len())
                == t0.subrange(p0[k], p0[k] + placeholder(dialect, (k + 1) as nat).len()));
        }
        match steps.last() {
            Step::Push(_) => {},
            Step::Bind(_) => {
                let k = p0.len() as int;
                assert(t.subrange(p[k], p[k] + placeholder(dialect, (k + 1) as nat).len())
                    =~= placeholder(dialect, (k + 1) as nat));
                if k > 0 {
                    assert(p0[k - 1] + placeholder(dialect, k as nat).len() <= t0.len());
                }
            },
        }
    }
}

/// The text a bind writes depends on the dialect and on how many values
/// are bound, never on the value: from the same text and as many bound values,
/// binding any two values gives the same text.
pub proof fn lemma_bind_text_ignores_value(
    dialect: Dialect,
    text: Seq<char>,
    args1: Seq<BindValue>,
    args2: Seq<BindValue>,
    v1: BindValue,
    v2: BindValue,
)
    requires
        args1.len() == args2.len(),
    ensures
        run(dialect, text, args1, seq![Step::Bind(v1)]).0 == run(
            dialect,
            text,
            args2,
            seq![Step::Bind(v2)],
        ).0,
{
    let s1 = seq![Step::Bind(v1)];
    let s2 = seq![Step::Bind(v2)];
    assert(s1.drop_last() =~= Seq::<Step>::empty());
    assert(s2.drop_last() =~= Seq::<Step>::empty());
    assert(s1.last() == Step::Bind(v1));
    assert(s2.last() == Step::Bind(v2));
    assert(run(dialect, text, args1, s1.drop_last()) == (text, args1));
    assert(run(dialect, text, args2, s2.drop_last()) == (text, args2));
    assert(run(dialect, text, args1, s1).0 == text + placeholder(dialect, args1.len() + 1));
    assert(run(dialect, text, args2, s2).0 == text + placeholder(dialect, args2.len() + 1));
}

/// `items` with `sep` between each two consecutive ones.
pub open spec fn join(items: Seq<Seq<char>>, sep: Seq<char>) -> Seq<char>
    decreases items.len(),
{
    if items.len() == 0 {
        Seq::<char>::empty()
    } else if items.len() == 1 {
        items[0]
    } else {
        join(items.drop_last(), sep) + sep + items.last()
    }
}

/// The text after `Separated::push` of each of `items` in turn on a list
/// whose builder held `text`, `pushed` saying whether an element came before,
/// each push acting as its contract says.
pub open spec fn push_all(text: Seq<char>, pushed: bool, sep: Seq<char>, items: Seq<Seq<char>>) -> Seq<
    char,
>
    decreases items.len(),
{
    if items.len() == 0 {
        text
    } else {
        let before = push_all(text, pushed, sep, items.drop_last());
        if pushed || items.len() > 1 {
            before + sep + items.last()
        } else {
            before + items.last()
        }
    }
}

/// Pushing elements one by one on a fresh list appends them joined by the
/// separator: one separator between each two, none before the first or after
/// the last.
pub proof fn lemma_separated_joins(text: Seq<char>, sep: Seq<char>, items: Seq<Seq<char>>)
    ensures
        push_all(text, false, sep, items) == text + join(items, sep),
    decreases items.len(),
{
    if items.len() == 1 {
        assert(push_all(text, false, sep, items.drop_last()) == text);
    } else if items.len() > 1 {
        lemma_separated_joins(text, sep, items.drop_last());
        assert(text + join(items.drop_last(), sep) + sep + items.last() =~= text + join(items, sep));
    } else {
        assert(text + join(items, sep) =~= text);
    }
}

impl QueryBuilder {
    /// The SQL text built so far.
    pub closed spec fn text(&self) -> Seq<char> {
        self.query@
    }

    /// The text the builder was created with, which `reset` restores.
    pub closed spec fn initial(&self) -> Seq<char> {
        self.init@
    }

    pub closed spec fn spec_dialect(&self) -> Dialect {
        self.dialect
    }

    /// The arguments were taken out and the builder awaits `reset`.
    pub closed spec fn finalized(&self) -> bool {
        self.arguments is None
    }

    /// The values bound so far, in order; none once finalized.
    pub closed spec fn args(&self) -> Seq<BindValue> {
        match self.arguments {
            Some(a) => a@,
            None => Seq::<BindValue>::empty(),
        }
    }

    /// The text starts with the initial text, and the arguments, when there,
    /// are valid and of the builder's dialect.
    pub closed spec fn wf(&self) -> bool {
        &&& self.init@.is_prefix_of(self.query@)
        &&& match self.arguments {
            Some(a) => a.wf() && a.dialect() == self.dialect,
            None => true,
        }
    }

    /// A valid builder's text starts with its initial text.
    pub proof fn lemma_initial_is_prefix(&self)
        requires
            self.wf(),
        ensures
            self.initial().is_prefix_of(self.text()),
    {
    }

    /// Starts a query with the text `init` (possibly empty) and no bound value.
    pub fn new(init: &str, dialect: Dialect) -> (r: QueryBuilder)
        ensures
            r.wf(),
            !r.finalized(),
            r.text() == init@,
            r.initial() == init@,
            r.args() == Seq::<BindValue>::empty(),
            r.dialect() == dialect,
    {
        QueryBuilder {
            query: init.to_owned(),
            init: init.to_owned(),
            dialect,
            arguments: Some(ArgumentBuffer::new(dialect)),
        }
    }

    /// Starts a query with the text `init` and values already bound. Whether
    /// the values fit the placeholders in `init` is not checked.
    pub fn with_arguments(init: &str, arguments: ArgumentBuffer) -> (r: QueryBuilder)
        requires
            arguments.wf(),
        ensures
            r.wf(),
            !r.finalized(),
            r.text() == init@,
            r.initial() == init@,
            r.args() == arguments@,
            r.dialect() == arguments.dialect(),
    {
        let dialect = arguments.dialect();
        QueryBuilder {
            query: init.to_owned(),
            init: init.to_owned(),
            dialect,
            arguments: Some(arguments),
        }
    }

    /// The dialect whose placeholders the builder writes.
    #[verifier::when_used_as_spec(spec_dialect)]
    pub fn dialect(&self) -> (r: Dialect)
        ensures
            r == self.spec_dialect(),
    {
        self.dialect
    }

    /// Whether the arguments were taken out by `finalize`.
    pub fn is_finalized(&self) -> (r: bool)
        ensures
            r == self.finalized(),
    {
        self.arguments.is_none()
    }

    /// Appends `sql` to the text as it stands, without any escaping: never
    /// pass untrusted input here, bind it with `push_bind`.
    pub fn push(&mut self, sql: &str)
        requires
            old(self).wf(),
            !old(self).finalized(),
        ensures
            final(self).wf(),
            !final(self).finalized(),
            final(self).text() == old(self).text() + sql@,
            final(self).args() == old(self).args(),
            final(self).initial() == old(self).initial(),
            final(self).dialect() == old(self).dialect(),
    {
        self.query.append(sql);
    }

    /// Binds `value` and appends its placeholder: `?`, or `$n` where `n` is
    /// the number of values bound, this one included. The value is recorded
    /// before its placeholder is written; when the dialect cannot encode it,
    /// nothing changes.
    pub fn push_bind(&mut self, value: BindValue) -> (r: Result<(), BindError>)
        requires
            old(self).wf(),
            !old(self).finalized(),
        ensures
            final(self).wf(),
            !final(self).finalized(),
            final(self).initial() == old(self).initial(),
            final(self).dialect() == old(self).dialect(),
            r is Ok <==> encodable(old(self).dialect(), value),
            r is Ok ==> final(self).args() == old(self).args().push(value),
            r is Ok ==> final(self).text() == old(self).text() + placeholder(
                old(self).dialect(),
                final(self).args().len(),
            ),
            r is Err ==> final(self).args() == old(self).args() && final(self).text() == old(
                self,
            ).text(),
            r is Err ==> r == Err::<(), BindError>(BindError::Encode),
    {
        match &mut self.arguments {
            Some(arguments) => {
                let res = arguments.add(value);
                if res.is_ok() {
                    arguments.format_placeholder(&mut self.query);
                }
                res
            },
            None => Err(BindError::Encode),
        }
    }

    /// Merges `fragment`, built for the same dialect, into this builder:
    /// appends its text once and its bound values in order, and writes no
    /// placeholder of its own. Numbered placeholders in the fragment's text are
    /// not renumbered.
    pub fn push_fragment(&mut self, fragment: QueryBuilder)
        requires
            old(self).wf(),
            !old(self).finalized(),
            fragment.wf(),
            !fragment.finalized(),
            fragment.dialect() == old(self).dialect(),
        ensures
            final(self).wf(),
            !final(self).finalized(),
            final(self).initial() == old(self).initial(),
            final(self).dialect() == old(self).dialect(),
            final(self).text() == old(self).text() + fragment.text(),
            final(self).args() == old(self).args() + fragment.args(),
    {
        let QueryBuilder { query, init: _, dialect: _, arguments: fragment_arguments } = fragment;
        match (&mut self.arguments, fragment_arguments) {
            (Some(arguments), Some(other)) => {
                proof {
                    other.lemma_values_encodable();
                }
                arguments.reserve(other.len());
                let res = arguments.append(other);
                if res.is_ok() {
                    self.query.append(query.as_str());
                }
            },
            _ => {},
        }
    }

    /// Restores the initial text and drops every bound value, also after
    /// `finalize`.
    pub fn reset(&mut self)
        requires
            old(self).wf(),
        ensures
            is_reset_of(*final(self), *old(self)),
            final(self).text() == old(self).text().subrange(0, old(self).initial().len() as int),
    {
        self.query = self.init.clone();
        self.arguments = Some(ArgumentBuffer::new(self.dialect));
    }

    /// The text built so far; it need not be valid SQL.
    pub fn sql(&self) -> (r: &str)
        ensures
            r@ == self.text(),
    {
        self.query.as_str()
    }

    /// Consumes the builder and returns its text.
    pub fn into_sql(self) -> (r: String)
        ensures
            r@ == self.text(),
    {
        self.query
    }

    /// Takes out the text and the bound values, ready to be executed. The
    /// builder keeps its text for `sql` and must be reset before any other
    /// use.
    pub fn finalize(&mut self) -> (r: (String, ArgumentBuffer))
        requires
            old(self).wf(),
            !old(self).finalized(),
        ensures
            final(self).wf(),
            final(self).finalized(),
            final(self).text() == old(self).text(),
            final(self).initial() == old(self).initial(),
            final(self).dialect() == old(self).dialect(),
            r.1.wf(),
            r.1.dialect() == old(self).dialect(),
            is_finalized_from(r.0@, r.1@, *old(self)),
    {
        let arguments = self.arguments.take();
        match arguments {
            Some(a) => (self.query.clone(), a),
            None => (self.query.clone(), ArgumentBuffer::new(self.dialect)),
        }
    }

    /// Starts a list whose elements `Separated::push` and
    /// `Separated::push_bind` separate with `separator`.
    pub fn separated<'qb>(&'qb mut self, separator: &str) -> (r: Separated<'qb>)
        requires
            old(self).wf(),
            !old(self).finalized(),
        ensures
            *r.builder() == *old(self),
            r.separator() == separator@,
            !r.pushed(),
            *final(self) == *final(r.query_builder),
    {
        Separated { query_builder: self, separator: separator.to_owned(), push_separator: false }
    }
}

/// A list in the making on a builder it borrows exclusively: the separator
/// goes between elements, never before the first.
pub struct Separated<'qb> {
    /// The builder the list is written to.
    pub query_builder: &'qb mut QueryBuilder,
    /// Written between consecutive elements.
    pub separator: String,
    /// An element was pushed already.
    pub push_separator: bool,
}

impl<'qb> Separated<'qb> {
    /// The builder as it stands.
    pub open spec fn builder(&self) -> &QueryBuilder {
        &*self.query_builder
    }

    pub open spec fn separator(&self) -> Seq<char> {
        self.separator@
    }

    /// An element was pushed already, so the next one is preceded by the
    /// separator.
    pub open spec fn pushed(&self) -> bool {
        self.push_separator
    }

    /// The separator that goes before the next element.
    pub open spec fn next_separator(&self) -> Seq<char> {
        if self.pushed() {
            self.separator()
        } else {
            Seq::<char>::empty()
        }
    }

    /// Pushes the separator unless this is the first element, then `sql`.
    pub fn push(&mut self, sql: &str)
        requires
            old(self).builder().wf(),
            !old(self).builder().finalized(),
        ensures
            final(self).builder().wf(),
            !final(self).builder().finalized(),
            final(self).builder().text() == old(self).builder().text() + old(self).next_separator()
                + sql@,
            final(self).builder().args() == old(self).builder().args(),
            final(self).builder().initial() == old(self).builder().initial(),
            final(self).builder().dialect() == old(self).builder().dialect(),
            final(self).separator() == old(self).separator(),
            *final(final(self).query_builder) == *final(old(self).query_builder),
            final(self).pushed(),
    {
        if self.push_separator {
            self.query_builder.push(self.separator.as_str());
        }
        self.query_builder.push(sql);
        self.push_separator = true;
    }

    /// Pushes `sql` with no separator, whatever was pushed before: for the
    /// tokens that open or close a list.
    pub fn push_unseparated(&mut self, sql: &str)
        requires
            old(self).builder().wf(),
            !old(self).builder().finalized(),
        ensures
            final(self).builder().wf(),
            !final(self).builder().finalized(),
            final(self).builder().text() == old(self).builder().text() + sql@,
            final(self).builder().args() == old(self).builder().args(),
            final(self).builder().initial() == old(self).builder().initial(),
            final(self).builder().dialect() == old(self).builder().dialect(),
            final(self).separator() == old(self).separator(),
            *final(final(self).query_builder) == *final(old(self).query_builder),
            final(self).pushed() == old(self).pushed(),
    {
        self.query_builder.push(sql);
    }

    /// Pushes the separator unless this is the first element, then binds
    /// `value` as `QueryBuilder::push_bind` does. The value is encoded before
    /// any text is written: when it cannot be, nothing changes, the separator
    /// included.
    pub fn push_bind(&mut self, value: BindValue) -> (r: Result<(), BindError>)
        requires
            old(self).builder().wf(),
            !old(self).builder().finalized(),
        ensures
            final(self).builder().wf(),
            !final(self).builder().finalized(),
            final(self).builder().initial() == old(self).builder().initial(),
            final(self).builder().dialect() == old(self).builder().dialect(),
            final(self).separator() == old(self).separator(),
            *final(final(self).query_builder) == *final(old(self).query_builder),
            r is Ok ==> final(self).pushed(),
            r is Ok <==> encodable(old(self).builder().dialect(), value),
            r is Ok ==> final(self).builder().args() == old(self).builder().args().push(value),
            r is Ok ==> final(self).builder().text() == old(self).builder().text()
                + old(self).next_separator() + placeholder(
                old(self).builder().dialect(),
                final(self).builder().args().len(),
            ),
            r is Err ==> final(self).pushed() == old(self).pushed(),
            r is Err ==> final(self).builder().args() == old(self).builder().args()
                && final(self).builder().text() == old(self).builder().text(),
            r is Err ==> r == Err::<(), BindError>(BindError::Encode),
    {
        let qb = &mut *self.query_builder;
        match &mut qb.arguments {
            Some(arguments) => {
                let res = arguments.add(value);
                if res.is_ok() {
                    if self.push_separator {
                        qb.query.append(self.separator.as_str());
                    }
                    arguments.format_placeholder(&mut qb.query);
                    self.push_separator = true;
                }
                res
            },
            None => Err(BindError::Encode),
        }
    }

    /// Binds `value` as `QueryBuilder::push_bind` does, with no separator.
    pub fn push_bind_unseparated(&mut self, value: BindValue) -> (r: Result<(), BindError>)
        requires
            old(self).builder().wf(),
            !old(self).builder().finalized(),
        ensures
            final(self).builder().wf(),
            !final(self).builder().finalized(),
            final(self).builder().initial() == old(self).builder().initial(),
            final(self).builder().dialect() == old(self).builder().dialect(),
            final(self).separator() == old(self).separator(),
            *final(final(self).query_builder) == *final(old(self).query_builder),
            final(self).pushed() == old(self).pushed(),
            r is Ok <==> encodable(old(self).builder().dialect(), value),
            r is Ok ==> final(self).builder().args() == old(self).builder().args().push(value),
            r is Ok ==> final(self).builder().text() == old(self).builder().text() + placeholder(
                old(self).builder().dialect(),
                final(self).builder().args().len(),
            ),
            r is Err ==> final(self).builder().args() == old(self).builder().args()
                && final(self).builder().text() == old(self).builder().text(),
            r is Err ==> r == Err::<(), BindError>(BindError::Encode),
    {
        self.query_builder.push_bind(value)
    }
}


} // verus!
