//! The ordered buffer of bound values, encoded for one dialect.
//!
//! Each value is kept twice: as the plain value the caller bound, and encoded
//! by sqlx into the argument type of the dialect, ready to be sent with the
//! query text. The plain copy is what lets one buffer be merged into another.

use sqlx::any::AnyArguments;
use sqlx::postgres::PgArguments;
use sqlx::Arguments;

use vstd::prelude::*;

use crate::placeholder::{placeholder, write_placeholder, Dialect};

verus! {

#[verifier::external_type_specification]
#[verifier::external_body]
pub struct ExPgArguments(PgArguments);

#[verifier::external_type_specification]
#[verifier::external_body]
pub struct ExAnyArguments<'q>(AnyArguments<'q>);

/// A value that can be bound to a placeholder.
#[derive(Debug, PartialEq)]
pub enum BindValue {
    Bool(bool),
    Int(i64),
    Text(String),
}

/// A bound value that the dialect could not encode.
#[derive(Clone, Copy, Debug, PartialEq, Eq, Structural)]
pub enum BindError {
    Encode,
}

/// The number of bytes `c` takes in UTF-8.
pub open spec fn utf8_width(c: char) -> nat {
    if (c as u32) < 0x80 {
        1
    } else if (c as u32) < 0x800 {
        2
    } else if (c as u32) < 0x10000 {
        3
    } else {
        4
    }
}

/// The number of bytes `s` takes in UTF-8.
pub open spec fn utf8_len(s: Seq<char>) -> nat
    decreases s.len(),
{
    if s.len() == 0 {
        0
    } else {
        utf8_len(s.drop_last()) + utf8_width(s.last())
    }
}

/// The largest value, in bytes, that the Postgres protocol can carry.
pub const PG_MAX_VALUE_BYTES: u64 = 0x7fff_ffff;

/// Whether `dialect` accepts `value`: Postgres refuses a text whose UTF-8
/// form is longer than its protocol can carry; every other value is accepted.
pub open spec fn encodable(dialect: Dialect, value: BindValue) -> bool {
    match value {
        BindValue::Bool(_) => true,
        BindValue::Int(_) => true,
        BindValue::Text(t) => dialect == Dialect::Ordinal || utf8_len(t@) <= PG_MAX_VALUE_BYTES,
    }
}

/// The values that a `PgArguments` holds, in the order they were added.
pub uninterp spec fn pg_bound(a: PgArguments) -> Seq<BindValue>;

/// The values that an `AnyArguments` holds, in the order they were added.
pub uninterp spec fn any_bound(a: AnyArguments<'static>) -> Seq<BindValue>;

/// Relies on `PgArguments::default`: it holds no value.
#[verifier::external_body]
fn pg_new() -> (r: PgArguments)
    ensures
        pg_bound(r) == Seq::<BindValue>::empty(),
{
    PgArguments::default()
}

/// Relies on `<PgArguments as Arguments>::add` for `i64`: the eight bytes
/// are always accepted and the value is appended.
#[verifier::external_body]
fn pg_add_int(a: &mut PgArguments, v: i64) -> (r: bool)
    ensures
        r,
        pg_bound(*final(a)) == pg_bound(*old(a)).push(BindValue::Int(v)),
{
    Arguments::add(a, v).is_ok()
}

/// Relies on `<PgArguments as Arguments>::add` for `bool`: the one byte is
/// always accepted and the value is appended.
#[verifier::external_body]
fn pg_add_bool(a: &mut PgArguments, v: bool) -> (r: bool)
    ensures
        r,
        pg_bound(*final(a)) == pg_bound(*old(a)).push(BindValue::Bool(v)),
{
    Arguments::add(a, v).is_ok()
}

/// Relies on `<PgArguments as Arguments>::add` for `&str`: the text is
/// accepted exactly when its UTF-8 bytes fit in an `i32` length, and then
/// appended; otherwise the buffer is restored to what it was.
#[verifier::external_body]
fn pg_add_text(a: &mut PgArguments, v: &String) -> (r: bool)
    ensures
        r <==> utf8_len(v@) <= PG_MAX_VALUE_BYTES,
        r ==> pg_bound(*final(a)) == pg_bound(*old(a)).push(BindValue::Text(*v)),
        !r ==> pg_bound(*final(a)) == pg_bound(*old(a)),
{
    Arguments::add(a, v.as_str()).is_ok()
}

/// Relies on `<PgArguments as Arguments>::len`: the number of values added.
#[verifier::external_body]
fn pg_len(a: &PgArguments) -> (r: usize)
    ensures
        r == pg_bound(*a).len(),
{
    Arguments::len(a)
}

/// Relies on `<PgArguments as Arguments>::reserve`: a capacity hint that keeps
/// the values.
#[verifier::external_body]
fn pg_reserve(a: &mut PgArguments, additional: usize)
    ensures
        pg_bound(*final(a)) == pg_bound(*old(a)),
{
    Arguments::reserve(a, additional, 0)
}

/// Relies on `AnyArguments::default`: it holds no value.
#[verifier::external_body]
fn any_new() -> (r: AnyArguments<'static>)
    ensures
        any_bound(r) == Seq::<BindValue>::empty(),
{
    AnyArguments::default()
}

/// Relies on `<AnyArguments as Arguments>::add` for `i64`: the value is
/// always appended.
#[verifier::external_body]
fn any_add_int(a: &mut AnyArguments<'static>, v: i64) -> (r: bool)
    ensures
        r,
        any_bound(*final(a)) == any_bound(*old(a)).push(BindValue::Int(v)),
{
    Arguments::add(a, v).is_ok()
}

/// Relies on `<AnyArguments as Arguments>::add` for `bool`: the value is
/// always appended.
#[verifier::external_body]
fn any_add_bool(a: &mut AnyArguments<'static>, v: bool) -> (r: bool)
    ensures
        r,
        any_bound(*final(a)) == any_bound(*old(a)).push(BindValue::Bool(v)),
{
    Arguments::add(a, v).is_ok()
}

/// Relies on `<AnyArguments as Arguments>::add` for `String`: the text is
/// always appended.
#[verifier::external_body]
fn any_add_text(a: &mut AnyArguments<'static>, v: &String) -> (r: bool)
    ensures
        r,
        any_bound(*final(a)) == any_bound(*old(a)).push(BindValue::Text(*v)),
{
    Arguments::add(a, v.clone()).is_ok()
}

/// Relies on `<AnyArguments as Arguments>::len`: the number of values added.
#[verifier::external_body]
fn any_len(a: &AnyArguments<'static>) -> (r: usize)
    ensures
        r == any_bound(*a).len(),
{
    Arguments::len(a)
}

/// Relies on `<AnyArguments as Arguments>::reserve`: a capacity hint that keeps
/// the values.
#[verifier::external_body]
fn any_reserve(a: &mut AnyArguments<'static>, additional: usize)
    ensures
        any_bound(*final(a)) == any_bound(*old(a)),
{
    Arguments::reserve(a, additional, 0)
}

/// Bound values encoded by sqlx for one dialect.
pub enum EncodedArguments {
    Ordinal(AnyArguments<'static>),
    Numbered(PgArguments),
}

impl EncodedArguments {
    /// The values encoded so far, in order.
    pub open spec fn bound(&self) -> Seq<BindValue> {
        match self {
            EncodedArguments::Ordinal(a) => any_bound(*a),
            EncodedArguments::Numbered(a) => pg_bound(*a),
        }
    }

    pub open spec fn dialect_of(&self) -> Dialect {
        match self {
            EncodedArguments::Ordinal(_) => Dialect::Ordinal,
            EncodedArguments::Numbered(_) => Dialect::Numbered,
        }
    }

    /// An empty buffer for `dialect`.
    pub fn new(dialect: Dialect) -> (r: EncodedArguments)
        ensures
            r.dialect_of() == dialect,
            r.bound() == Seq::<BindValue>::empty(),
    {
        match dialect {
            Dialect::Ordinal => EncodedArguments::Ordinal(any_new()),
            Dialect::Numbered => EncodedArguments::Numbered(pg_new()),
        }
    }

    /// Encodes `value` and appends it; `false` when the dialect refuses it, in
    /// which case nothing was appended.
    pub fn add(&mut self, value: &BindValue) -> (r: bool)
        ensures
            final(self).dialect_of() == old(self).dialect_of(),
            r <==> encodable(old(self).dialect_of(), *value),
            r ==> final(self).bound() == old(self).bound().push(*value),
            !r ==> final(self).bound() == old(self).bound(),
    {
        match self {
            EncodedArguments::Ordinal(a) => match value {
                BindValue::Bool(b) => any_add_bool(a, *b),
                BindValue::Int(i) => any_add_int(a, *i),
                BindValue::Text(s) => any_add_text(a, s),
            },
            EncodedArguments::Numbered(a) => match value {
                BindValue::Bool(b) => pg_add_bool(a, *b),
                BindValue::Int(i) => pg_add_int(a, *i),
                BindValue::Text(s) => pg_add_text(a, s),
            },
        }
    }

    /// The number of values encoded.
    pub fn len(&self) -> (r: usize)
        ensures
            r == self.bound().len(),
    {
        match self {
            EncodedArguments::Ordinal(a) => any_len(a),
            EncodedArguments::Numbered(a) => pg_len(a),
        }
    }

    /// Makes room for `additional` more values; changes no value.
    pub fn reserve(&mut self, additional: usize)
        ensures
            final(self).dialect_of() == old(self).dialect_of(),
            final(self).bound() == old(self).bound(),
    {
        match self {
            EncodedArguments::Ordinal(a) => any_reserve(a, additional),
            EncodedArguments::Numbered(a) => pg_reserve(a, additional),
        }
    }
}


/// The bound values of one query, in order, for one dialect.
pub struct ArgumentBuffer {
    values: Vec<BindValue>,
    encoded: EncodedArguments,
}

impl View for ArgumentBuffer {
    type V = Seq<BindValue>;

    closed spec fn view(&self) -> Seq<BindValue> {
        self.values@
    }
}

impl ArgumentBuffer {
    /// The encoded values are exactly the plain ones, each accepted by the
    /// dialect.
    pub closed spec fn wf(&self) -> bool {
        &&& self.encoded.bound() == self.values@
        &&& forall|i: int|
            0 <= i < self.values@.len() ==> encodable(
                self.encoded.dialect_of(),
                #[trigger] self.values@[i],
            )
    }

    /// Every value held is one the buffer's dialect accepts.
    pub proof fn lemma_values_encodable(&self)
        requires
            self.wf(),
        ensures
            forall|i: int| 0 <= i < self@.len() ==> encodable(self.dialect(), #[trigger] self@[i]),
    {
    }

    pub closed spec fn spec_dialect(&self) -> Dialect {
        self.encoded.dialect_of()
    }

    /// An empty buffer for `dialect`.
    pub fn new(dialect: Dialect) -> (r: ArgumentBuffer)
        ensures
            r.wf(),
            r@ == Seq::<BindValue>::empty(),
            r.spec_dialect() == dialect,
    {
        ArgumentBuffer { values: Vec::new(), encoded: EncodedArguments::new(dialect) }
    }

    /// The dialect the values are encoded for.
    #[verifier::when_used_as_spec(spec_dialect)]
    pub fn dialect(&self) -> (r: Dialect)
        ensures
            r == self.spec_dialect(),
    {
        match &self.encoded {
            EncodedArguments::Ordinal(_) => Dialect::Ordinal,
            EncodedArguments::Numbered(_) => Dialect::Numbered,
        }
    }

    /// The bound values, in order.
    pub fn values(&self) -> (r: &Vec<BindValue>)
        ensures
            r@ == self@,
    {
        &self.values
    }

    /// The number of bound values.
    pub fn len(&self) -> (r: usize)
        requires
            self.wf(),
        ensures
            r == self@.len(),
    {
        self.encoded.len()
    }

    /// Encodes `value` and appends it. When the dialect cannot encode it the
    /// buffer is left as it was.
    pub fn add(&mut self, value: BindValue) -> (r: Result<(), BindError>)
        requires
            old(self).wf(),
        ensures
            final(self).wf(),
            final(self).dialect() == old(self).dialect(),
            r is Ok <==> encodable(old(self).dialect(), value),
            r is Ok ==> final(self)@ == old(self)@.push(value),
            r is Err ==> final(self)@ == old(self)@ && r == Err::<(), BindError>(BindError::Encode),
    {
        if self.encoded.add(&value) {
            self.values.push(value);
            Ok(())
        } else {
            Err(BindError::Encode)
        }
    }

    /// Makes room for `additional` more values; no value changes.
    pub fn reserve(&mut self, additional: usize)
        requires
            old(self).wf(),
        ensures
            final(self).wf(),
            final(self).dialect() == old(self).dialect(),
            final(self)@ == old(self)@,
    {
        self.encoded.reserve(additional);
        self.values.reserve(additional);
    }

    /// Appends the placeholder of the most recently added value to `out`.
    pub fn format_placeholder(&self, out: &mut String)
        requires
            self.wf(),
        ensures
            final(out)@ == old(out)@ + placeholder(self.dialect(), self@.len()),
    {
        let n = self.len();
        write_placeholder(out, self.dialect(), n);
    }

    /// Appends every value of `other`, in order, re-encoded for this buffer's
    /// dialect. Either all of them are appended or, when one cannot be
    /// encoded, none is and the buffer is left as it was.
    pub fn append(&mut self, other: ArgumentBuffer) -> (r: Result<(), BindError>)
        requires
            old(self).wf(),
        ensures
            final(self).wf(),
            final(self).dialect() == old(self).dialect(),
            r is Ok <==> forall|i: int|
                0 <= i < other@.len() ==> encodable(old(self).dialect(), #[trigger] other@[i]),
            r is Ok ==> final(self)@ == old(self)@ + other@,
            r is Err ==> final(self)@ == old(self)@ && r == Err::<(), BindError>(BindError::Encode),
    {
        let mut fresh = EncodedArguments::new(self.dialect());
        fresh.reserve(self.values.len());
        let mut i: usize = 0;
        while i < self.values.len()
            invariant
                *self == *old(self),
                self.wf(),
                i <= self.values@.len(),
                fresh.dialect_of() == self.spec_dialect(),
                fresh.bound() == self.values@.subrange(0, i as int),
            decreases self.values@.len() - i,
        {
            if !fresh.add(&self.values[i]) {
                return Err(BindError::Encode);
            }
            assert(self.values@.subrange(0, i + 1) =~= self.values@.subrange(0, i as int).push(
                self.values@[i as int],
            ));
            i = i + 1;
        }
        assert(self.values@.subrange(0, i as int) =~= self.values@);
        fresh.reserve(other.values.len());
        let mut j: usize = 0;
        while j < other.values.len()
            invariant
                *self == *old(self),
                self.wf(),
                j <= other.values@.len(),
                fresh.dialect_of() == self.spec_dialect(),
                fresh.bound() == self.values@ + other.values@.subrange(0, j as int),
                forall|k: int|
                    0 <= k < j ==> encodable(self.spec_dialect(), #[trigger] other.values@[k]),
            decreases other.values@.len() - j,
        {
            if !fresh.add(&other.values[j]) {
                assert(!encodable(self.spec_dialect(), other@[j as int]));
                return Err(BindError::Encode);
            }
            assert(self.values@ + other.values@.subrange(0, j + 1) =~= (self.values@
                + other.values@.subrange(0, j as int)).push(other.values@[j as int]));
            j = j + 1;
        }
        assert(other.values@.subrange(0, j as int) =~= other.values@);
        let ArgumentBuffer { values: mut rest, encoded: _ } = other;
        self.encoded = fresh;
        self.values.append(&mut rest);
        Ok(())
    }

    /// Hands out the plain values and their encoding.
    pub fn into_parts(self) -> (r: (Vec<BindValue>, EncodedArguments))
        requires
            self.wf(),
        ensures
            r.0@ == self@,
            r.1.bound() == self@,
            r.1.dialect_of() == self.dialect(),
    {
        (self.values, self.encoded)
    }
}

} // verus!
