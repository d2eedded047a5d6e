//! Reading and building the values of `meta` sections.

use crate::binary_io::write_bytes;
use crate::float32::F32;
use crate::ident::Ident;
use crate::pos::{sp, sp_null, Sp, Span, Spanned};
use crate::script::{
    field_seq_view, fields_view, ident_view, lemma_field_seq_view, lemma_metas_view, meta_view,
    metas_view, Expr, ExprV, Fields, Meta, MetaV,
};
use bstr::ByteSlice;
use vstd::prelude::*;
use vstd::string::*;
use vstd::utf8::{decode_utf8, decode_utf8_encode_utf8, encode_utf8, valid_utf8};

verus! {

/// A kind of value that a `meta` section can hold.
#[derive(Debug, Copy, Clone, PartialEq, Eq, Hash, Structural)]
pub enum MetaType {
    Int,
    Float,
    Text,
    Array,
    /// An array of a fixed length.
    ArrayOf(usize),
    Object,
    Variant,
}

/// An error in a `meta` section, with names of type `N`.
#[derive(Debug)]
#[allow(inconsistent_fields)]
pub enum FromMetaError<N> {
    /// A value of another kind was expected.
    Expected { expected: MetaType, got: Span },
    /// A field that must be there is not.
    MissingField { field: N, object: Span },
    /// A field that has no meaning here.
    UnexpectedField { field: Sp<N> },
    /// A variant that has no meaning here.
    UnexpectedVariant { name: Sp<N> },
}

pub open spec fn from_meta_error_view(e: FromMetaError<Ident>) -> FromMetaError<Seq<char>> {
    match e {
        FromMetaError::Expected { expected, got } => FromMetaError::Expected { expected, got },
        FromMetaError::MissingField { field, object } => FromMetaError::MissingField {
            field: field@,
            object,
        },
        FromMetaError::UnexpectedField { field } => FromMetaError::UnexpectedField {
            field: ident_view(field),
        },
        FromMetaError::UnexpectedVariant { name } => FromMetaError::UnexpectedVariant {
            name: ident_view(name),
        },
    }
}

/// An error in a `meta` section as code has it.
pub type MetaError = FromMetaError<Ident>;

/// An error in a `meta` section as contracts speak of it.
pub type MetaErrorV = FromMetaError<Seq<char>>;

/// The fields of an object as contracts speak of them.
pub type FieldsV = Seq<(Sp<Seq<char>>, Sp<MetaV>)>;

// =============================================================================
// Reading

/// The first field of a name.
pub open spec fn field_index(fields: FieldsV, name: Seq<char>) -> Option<int>
    decreases fields.len(),
{
    if fields.len() == 0 {
        None
    } else if field_index(fields.drop_last(), name) is Some {
        field_index(fields.drop_last(), name)
    } else if fields.last().0.value == name {
        Some(fields.len() - 1)
    } else {
        None
    }
}

/// The names of fields.
pub open spec fn field_names(fields: FieldsV) -> Seq<Seq<char>> {
    fields.map_values(|f: (Sp<Seq<char>>, Sp<MetaV>)| f.0.value)
}

/// The value of a field, where there is one.
pub open spec fn get_field_spec(fields: FieldsV, name: Seq<char>) -> Option<Sp<MetaV>> {
    match field_index(fields, name) {
        Some(i) => Some(fields[i].1),
        None => None,
    }
}

/// The value of a field that must be there.
pub open spec fn expect_field_spec(fields: Sp<FieldsV>, name: Seq<char>) -> Result<
    Sp<MetaV>,
    MetaErrorV,
> {
    match get_field_spec(fields.value, name) {
        Some(m) => Ok(m),
        None => Err(FromMetaError::MissingField { field: name, object: fields.span }),
    }
}

/// The error about the first field whose name is not among those that are allowed.
pub open spec fn unexpected_field(fields: FieldsV, allowed: Seq<Seq<char>>) -> Option<MetaErrorV>
    decreases fields.len(),
{
    if fields.len() == 0 {
        None
    } else if unexpected_field(fields.drop_last(), allowed) is Some {
        unexpected_field(fields.drop_last(), allowed)
    } else if allowed.contains(fields.last().0.value) {
        None
    } else {
        Some(FromMetaError::UnexpectedField { field: fields.last().0 })
    }
}

pub open spec fn meta_int(m: Sp<MetaV>) -> Result<i32, MetaErrorV> {
    match m.value {
        MetaV::Scalar(Spanned { value: ExprV::LitInt { value, .. }, .. }) => Ok(value),
        _ => Err(FromMetaError::Expected { expected: MetaType::Int, got: m.span }),
    }
}

pub open spec fn meta_float(m: Sp<MetaV>) -> Result<F32, MetaErrorV> {
    match m.value {
        MetaV::Scalar(Spanned { value: ExprV::LitFloat { value }, .. }) => Ok(value),
        _ => Err(FromMetaError::Expected { expected: MetaType::Float, got: m.span }),
    }
}

/// A text, as the bytes of its UTF-8 encoding.
pub open spec fn meta_bytes(m: Sp<MetaV>) -> Result<Seq<u8>, MetaErrorV> {
    match m.value {
        MetaV::Scalar(Spanned { value: ExprV::LitString { string }, .. }) => Ok(
            encode_utf8(string),
        ),
        _ => Err(FromMetaError::Expected { expected: MetaType::Text, got: m.span }),
    }
}

pub open spec fn meta_array(m: Sp<MetaV>) -> Result<Seq<Sp<MetaV>>, MetaErrorV> {
    match m.value {
        MetaV::Array(items) => Ok(items),
        _ => Err(FromMetaError::Expected { expected: MetaType::Array, got: m.span }),
    }
}

/// An array of a given length.
pub open spec fn meta_array_of(m: Sp<MetaV>, len: nat) -> Result<Seq<Sp<MetaV>>, MetaErrorV> {
    match m.value {
        MetaV::Array(items) => if items.len() == len {
            Ok(items)
        } else {
            Err(
                FromMetaError::Expected { expected: MetaType::ArrayOf(len as usize), got: m.span },
            )
        },
        _ => Err(FromMetaError::Expected { expected: MetaType::Array, got: m.span }),
    }
}

/// The first `n` values of a list as numbers.
pub open spec fn floats_of(items: Seq<Sp<MetaV>>, n: nat) -> Result<Seq<F32>, MetaErrorV>
    decreases n,
{
    if n == 0 {
        Ok(seq![])
    } else {
        match floats_of(items, (n - 1) as nat) {
            Err(e) => Err(e),
            Ok(done) => match meta_float(items[n - 1]) {
                Err(e) => Err(e),
                Ok(x) => Ok(done.push(x)),
            },
        }
    }
}

/// A vector of a given number of components.
pub open spec fn meta_floats(m: Sp<MetaV>, len: nat) -> Result<Seq<F32>, MetaErrorV> {
    match meta_array_of(m, len) {
        Err(e) => Err(e),
        Ok(items) => floats_of(items, len),
    }
}

pub open spec fn meta_object(m: Sp<MetaV>) -> Result<Sp<FieldsV>, MetaErrorV> {
    match m.value {
        MetaV::Object(fields) => Ok(fields),
        _ => Err(FromMetaError::Expected { expected: MetaType::Object, got: m.span }),
    }
}

pub open spec fn meta_variant(m: Sp<MetaV>) -> Result<(Sp<Seq<char>>, Sp<FieldsV>), MetaErrorV> {
    match m.value {
        MetaV::Variant { name, fields } => Ok((name, fields)),
        _ => Err(FromMetaError::Expected { expected: MetaType::Variant, got: m.span }),
    }
}

/// An integer field.
pub open spec fn int_field(fields: Sp<FieldsV>, name: Seq<char>) -> Result<i32, MetaErrorV> {
    match expect_field_spec(fields, name) {
        Err(e) => Err(e),
        Ok(m) => meta_int(m),
    }
}

/// A field that holds a number.
pub open spec fn float_field(fields: Sp<FieldsV>, name: Seq<char>) -> Result<F32, MetaErrorV> {
    match expect_field_spec(fields, name) {
        Err(e) => Err(e),
        Ok(m) => meta_float(m),
    }
}

/// A field that holds a vector.
pub open spec fn floats_field(fields: Sp<FieldsV>, name: Seq<char>, len: nat) -> Result<
    Seq<F32>,
    MetaErrorV,
> {
    match expect_field_spec(fields, name) {
        Err(e) => Err(e),
        Ok(m) => meta_floats(m, len),
    }
}

/// A field that holds a text.
pub open spec fn bytes_field(fields: Sp<FieldsV>, name: Seq<char>) -> Result<Seq<u8>, MetaErrorV> {
    match expect_field_spec(fields, name) {
        Err(e) => Err(e),
        Ok(m) => meta_bytes(m),
    }
}

// -----------------------------------------------------------------------------

/// A result of reading, with its error taken by view.
pub open spec fn meta_result<T>(r: Result<T, MetaError>) -> Result<T, MetaErrorV> {
    match r {
        Ok(x) => Ok(x),
        Err(e) => Err(from_meta_error_view(e)),
    }
}

/// Reads the fields of an object, and remembers which were asked for.
pub struct ParseObject<'m> {
    pub fields: &'m Sp<Fields>,
    pub used: Vec<String>,
}

/// The texts of a list of names.
pub open spec fn names_view(names: Seq<String>) -> Seq<Seq<char>> {
    names.map_values(|n: String| n@)
}

impl<'m> ParseObject<'m> {
    pub open spec fn view_fields(self) -> Sp<FieldsV> {
        fields_view(*self.fields)
    }

    /// The names of the fields that were asked for.
    pub open spec fn view_used(self) -> Seq<Seq<char>> {
        names_view(self.used@)
    }

    /// A field was asked for since an earlier state.
    pub open spec fn used_one(self, before: Self, name: Seq<char>) -> bool {
        &&& self.fields == before.fields
        &&& self.view_used() == before.view_used().push(name)
    }

    pub fn new(fields: &'m Sp<Fields>) -> (r: Self)
        ensures
            r.view_fields() == fields_view(*fields),
            r.view_used() == Seq::<Seq<char>>::empty(),
    {
        let r = ParseObject { fields, used: Vec::new() };
        assert(r.view_used() =~= Seq::<Seq<char>>::empty());
        r
    }

    /// The value of a field, where there is one.
    pub fn get_field(&mut self, name: &str) -> (r: Option<&'m Sp<Meta>>)
        ensures
            match get_field_spec(old(self).view_fields().value, name@) {
                Some(m) => r matches Some(x) && meta_view(*x) == m,
                None => r is None,
            },
            final(self).used_one(*old(self), name@),
    {
        let ghost before = self.used@;
        self.used.push(name.to_owned());
        proof {
            assert(names_view(self.used@) =~= names_view(before).push(name@));
        }
        find_field(self.fields, name)
    }

    /// The value of a field that must be there.
    pub fn expect_field(&mut self, name: &str) -> (r: Result<&'m Sp<Meta>, MetaError>)
        ensures
            match expect_field_spec(old(self).view_fields(), name@) {
                Ok(m) => r matches Ok(x) && meta_view(*x) == m,
                Err(e) => r matches Err(k) && from_meta_error_view(k) == e,
            },
            final(self).used_one(*old(self), name@),
    {
        let span = self.fields.span;
        match self.get_field(name) {
            Some(m) => Ok(m),
            None => Err(FromMetaError::MissingField { field: Ident::new(name), object: span }),
        }
    }

    /// An integer field.
    pub fn expect_int(&mut self, name: &str) -> (r: Result<i32, MetaError>)
        ensures
            meta_result(r) == int_field(old(self).view_fields(), name@),
            final(self).used_one(*old(self), name@),
    {
        match self.expect_field(name) {
            Ok(m) => read_int(m),
            Err(e) => Err(e),
        }
    }

    /// A field that holds a number.
    pub fn expect_float(&mut self, name: &str) -> (r: Result<F32, MetaError>)
        ensures
            meta_result(r) == float_field(old(self).view_fields(), name@),
            final(self).used_one(*old(self), name@),
    {
        match self.expect_field(name) {
            Ok(m) => read_float(m),
            Err(e) => Err(e),
        }
    }

    /// A field that holds a text.
    pub fn expect_bytes(&mut self, name: &str) -> (r: Result<Vec<u8>, MetaError>)
        ensures
            match bytes_field(old(self).view_fields(), name@) {
                Ok(s) => r matches Ok(v) && v@ == s,
                Err(e) => r matches Err(k) && from_meta_error_view(k) == e,
            },
            final(self).used_one(*old(self), name@),
    {
        match self.expect_field(name) {
            Ok(m) => read_bytes(m),
            Err(e) => Err(e),
        }
    }

    /// A field that holds a vector of two components.
    pub fn expect_floats_2(&mut self, name: &str) -> (r: Result<[F32; 2], MetaError>)
        ensures
            match floats_field(old(self).view_fields(), name@, 2) {
                Ok(s) => r matches Ok(v) && v@ == s,
                Err(e) => r matches Err(k) && from_meta_error_view(k) == e,
            },
            final(self).used_one(*old(self), name@),
    {
        let m = match self.expect_field(name) {
            Ok(m) => m,
            Err(e) => return Err(e),
        };
        match read_floats(m, 2) {
            Ok(v) => {
                let out = [v[0], v[1]];
                assert(out@ =~= v@);
                Ok(out)
            },
            Err(e) => Err(e),
        }
    }

    /// A field that holds a vector of three components.
    pub fn expect_floats_3(&mut self, name: &str) -> (r: Result<[F32; 3], MetaError>)
        ensures
            match floats_field(old(self).view_fields(), name@, 3) {
                Ok(s) => r matches Ok(v) && v@ == s,
                Err(e) => r matches Err(k) && from_meta_error_view(k) == e,
            },
            final(self).used_one(*old(self), name@),
    {
        let m = match self.expect_field(name) {
            Ok(m) => m,
            Err(e) => return Err(e),
        };
        match read_floats(m, 3) {
            Ok(v) => {
                let out = [v[0], v[1], v[2]];
                assert(out@ =~= v@);
                Ok(out)
            },
            Err(e) => Err(e),
        }
    }

    /// A field that holds a list.
    pub fn expect_list<T: FromMeta>(&mut self, name: &str) -> (r: Result<Vec<T>, MetaError>)
        ensures
            match list_field::<T>(old(self).view_fields(), name@) {
                Ok(s) => r matches Ok(v) && values_view(v@) == s,
                Err(e) => r matches Err(k) && from_meta_error_view(k) == e,
            },
            final(self).used_one(*old(self), name@),
    {
        let m = match self.expect_field(name) {
            Ok(m) => m,
            Err(e) => return Err(e),
        };
        let items = match read_array(m) {
            Ok(x) => x,
            Err(e) => return Err(e),
        };
        proof {
            lemma_metas_view(items@, items@.len());
        }
        read_list::<T>(items)
    }

    /// A field that holds a list of a given length.
    pub fn expect_list_of<T: FromMeta>(&mut self, name: &str, len: usize) -> (r: Result<
        Vec<T>,
        MetaError,
    >)
        ensures
            match list_field_of::<T>(old(self).view_fields(), name@, len as nat) {
                Ok(s) => r matches Ok(v) && values_view(v@) == s && v@.len() == len,
                Err(e) => r matches Err(k) && from_meta_error_view(k) == e,
            },
            final(self).used_one(*old(self), name@),
    {
        let m = match self.expect_field(name) {
            Ok(m) => m,
            Err(e) => return Err(e),
        };
        match read_array_of(m, len) {
            Ok(items) => read_list::<T>(items),
            Err(e) => Err(e),
        }
    }

    /// Fail if there is a field that was not asked for.
    pub fn finish(&self) -> (r: Result<(), MetaError>)
        ensures
            match unexpected_field(self.view_fields().value, self.view_used()) {
                None => r is Ok,
                Some(e) => r matches Err(k) && from_meta_error_view(k) == e,
            },
    {
        let list = &self.fields.value.0;
        let ghost views = field_seq_view(list@, list@.len());
        let ghost names = self.view_used();
        proof {
            lemma_field_seq_view(list@, list@.len());
            assert(views.take(0) =~= seq![]);
        }
        let mut i: usize = 0;
        while i < list.len()
            invariant
                i <= list@.len(),
                views.len() == list@.len(),
                views == self.view_fields().value,
                names == self.view_used(),
                forall|j: int|
                    0 <= j < list@.len() ==> #[trigger] views[j] == (
                        ident_view(list@[j].0),
                        meta_view(list@[j].1),
                    ),
                unexpected_field(views.take(i as int), names) is None,
            decreases list@.len() - i,
        {
            proof {
                assert(views.take(i + 1).drop_last() =~= views.take(i as int));
                assert(views[i as int].0 == ident_view(list@[i as int].0));
            }
            if !is_among(&list[i].0.value, &self.used) {
                proof {
                    lemma_first_unexpected_stays(views, names, (i + 1) as nat, views.len());
                    assert(views.take(views.len() as int) =~= views);
                }
                return Err(FromMetaError::UnexpectedField { field: list[i].0.clone() });
            }
            i = i + 1;
        }
        assert(views.take(views.len() as int) =~= views);
        Ok(())
    }
}

fn find_field<'m>(fields: &'m Sp<Fields>, name: &str) -> (r: Option<&'m Sp<Meta>>)
    ensures
        match get_field_spec(fields_view(*fields).value, name@) {
            Some(m) => r matches Some(x) && meta_view(*x) == m,
            None => r is None,
        },
{
    let list = &fields.value.0;
    let ghost views = field_seq_view(list@, list@.len());
    proof {
        lemma_field_seq_view(list@, list@.len());
        assert(views.take(0) =~= seq![]);
    }
    let mut i: usize = 0;
    while i < list.len()
        invariant
            i <= list@.len(),
            views.len() == list@.len(),
            views == fields_view(*fields).value,
            forall|j: int|
                0 <= j < list@.len() ==> #[trigger] views[j] == (
                    ident_view(list@[j].0),
                    meta_view(list@[j].1),
                ),
            field_index(views.take(i as int), name@) is None,
        decreases list@.len() - i,
    {
        proof {
            assert(views.take(i + 1).drop_last() =~= views.take(i as int));
            assert(views[i as int].0 == ident_view(list@[i as int].0));
        }
        if list[i].0.value.is(name) {
            proof {
                lemma_first_field_stays(views, name@, (i + 1) as nat, views.len());
                assert(views.take(views.len() as int) =~= views);
            }
            return Some(&list[i].1);
        }
        i = i + 1;
    }
    assert(views.take(views.len() as int) =~= views);
    None
}

fn is_among(name: &Ident, names: &Vec<String>) -> (r: bool)
    ensures
        r == names_view(names@).contains(name@),
{
    let ghost views = names_view(names@);
    let mut i: usize = 0;
    while i < names.len()
        invariant
            i <= names@.len(),
            views == names_view(names@),
            forall|j: int| 0 <= j < i ==> views[j] != name@,
        decreases names@.len() - i,
    {
        if name.is(names[i].as_str()) {
            assert(views[i as int] == name@);
            return true;
        }
        i = i + 1;
    }
    false
}

proof fn lemma_first_field_stays(fields: FieldsV, name: Seq<char>, m: nat, n: nat)
    requires
        m <= n <= fields.len(),
        field_index(fields.take(m as int), name) is Some,
    ensures
        field_index(fields.take(n as int), name) == field_index(fields.take(m as int), name),
    decreases n,
{
    if m < n {
        lemma_first_field_stays(fields, name, m, (n - 1) as nat);
        assert(fields.take(n as int).drop_last() =~= fields.take(n - 1));
    }
}

proof fn lemma_first_unexpected_stays(fields: FieldsV, allowed: Seq<Seq<char>>, m: nat, n: nat)
    requires
        m <= n <= fields.len(),
        unexpected_field(fields.take(m as int), allowed) is Some,
    ensures
        unexpected_field(fields.take(n as int), allowed) == unexpected_field(
            fields.take(m as int),
            allowed,
        ),
    decreases n,
{
    if m < n {
        lemma_first_unexpected_stays(fields, allowed, m, (n - 1) as nat);
        assert(fields.take(n as int).drop_last() =~= fields.take(n - 1));
    }
}

pub fn read_int(m: &Sp<Meta>) -> (r: Result<i32, MetaError>)
    ensures
        meta_result(r) == meta_int(meta_view(*m)),
{
    match &m.value {
        Meta::Scalar(Spanned { value: Expr::LitInt { value, .. }, .. }) => Ok(*value),
        _ => Err(FromMetaError::Expected { expected: MetaType::Int, got: m.span }),
    }
}

pub fn read_float(m: &Sp<Meta>) -> (r: Result<F32, MetaError>)
    ensures
        meta_result(r) == meta_float(meta_view(*m)),
{
    match &m.value {
        Meta::Scalar(Spanned { value: Expr::LitFloat { value }, .. }) => Ok(*value),
        _ => Err(FromMetaError::Expected { expected: MetaType::Float, got: m.span }),
    }
}

pub fn read_bytes(m: &Sp<Meta>) -> (r: Result<Vec<u8>, MetaError>)
    ensures
        match meta_bytes(meta_view(*m)) {
            Ok(s) => r matches Ok(v) && v@ == s,
            Err(e) => r matches Err(k) && from_meta_error_view(k) == e,
        },
{
    match &m.value {
        Meta::Scalar(Spanned { value: Expr::LitString { string }, .. }) => {
            let mut out: Vec<u8> = Vec::new();
            write_bytes(&mut out, string.as_str().as_bytes());
            assert(Seq::<u8>::empty() + encode_utf8(string@) =~= encode_utf8(string@));
            Ok(out)
        },
        _ => Err(FromMetaError::Expected { expected: MetaType::Text, got: m.span }),
    }
}

/// The values of an array.
pub fn read_array(m: &Sp<Meta>) -> (r: Result<&Vec<Sp<Meta>>, MetaError>)
    ensures
        match meta_array(meta_view(*m)) {
            Ok(s) => r matches Ok(v) && metas_view(v@, v@.len()) == s,
            Err(e) => r matches Err(k) && from_meta_error_view(k) == e,
        },
{
    match &m.value {
        Meta::Array(items) => Ok(items),
        _ => Err(FromMetaError::Expected { expected: MetaType::Array, got: m.span }),
    }
}

/// The values of an array of a given length.
pub fn read_array_of(m: &Sp<Meta>, len: usize) -> (r: Result<&Vec<Sp<Meta>>, MetaError>)
    ensures
        match meta_array_of(meta_view(*m), len as nat) {
            Ok(s) => r matches Ok(v) && metas_view(v@, v@.len()) == s && v@.len() == len,
            Err(e) => r matches Err(k) && from_meta_error_view(k) == e,
        },
{
    match &m.value {
        Meta::Array(items) => {
            proof {
                lemma_metas_view(items@, items@.len());
            }
            if items.len() == len {
                Ok(items)
            } else {
                Err(
                    FromMetaError::Expected { expected: MetaType::ArrayOf(len), got: m.span },
                )
            }
        },
        _ => Err(FromMetaError::Expected { expected: MetaType::Array, got: m.span }),
    }
}

/// The components of a vector.
pub fn read_floats(m: &Sp<Meta>, len: usize) -> (r: Result<Vec<F32>, MetaError>)
    ensures
        match meta_floats(meta_view(*m), len as nat) {
            Ok(s) => r matches Ok(v) && v@ == s && v@.len() == len,
            Err(e) => r matches Err(k) && from_meta_error_view(k) == e,
        },
{
    let items = match read_array_of(m, len) {
        Ok(x) => x,
        Err(e) => return Err(e),
    };
    let ghost views = metas_view(items@, items@.len());
    proof {
        lemma_metas_view(items@, items@.len());
    }
    let mut out: Vec<F32> = Vec::new();
    let mut i: usize = 0;
    assert(out@ =~= seq![]);
    while i < len
        invariant
            i <= len,
            len == items@.len(),
            views.len() == len,
            meta_floats(meta_view(*m), len as nat) == floats_of(views, len as nat),
            forall|j: int| 0 <= j < len ==> #[trigger] views[j] == meta_view(items@[j]),
            floats_of(views, i as nat) == Ok::<Seq<F32>, MetaErrorV>(out@),
            out@.len() == i,
        decreases len - i,
    {
        assert(views[i as int] == meta_view(items@[i as int]));
        match read_float(&items[i]) {
            Ok(x) => out.push(x),
            Err(e) => {
                proof {
                    lemma_floats_stop(views, (i + 1) as nat, len as nat);
                }
                return Err(e);
            },
        }
        i = i + 1;
    }
    Ok(out)
}

proof fn lemma_floats_stop(items: Seq<Sp<MetaV>>, m: nat, n: nat)
    requires
        m <= n,
        floats_of(items, m) is Err,
    ensures
        floats_of(items, n) == floats_of(items, m),
    decreases n,
{
    if m < n {
        lemma_floats_stop(items, m, (n - 1) as nat);
    }
}

/// The fields of an object.
pub fn read_object(m: &Sp<Meta>) -> (r: Result<&Sp<Fields>, MetaError>)
    ensures
        match meta_object(meta_view(*m)) {
            Ok(f) => r matches Ok(x) && fields_view(*x) == f,
            Err(e) => r matches Err(k) && from_meta_error_view(k) == e,
        },
{
    match &m.value {
        Meta::Object(fields) => Ok(fields),
        _ => Err(FromMetaError::Expected { expected: MetaType::Object, got: m.span }),
    }
}

/// The name and the fields of a variant.
pub fn read_variant(m: &Sp<Meta>) -> (r: Result<(&Sp<Ident>, &Sp<Fields>), MetaError>)
    ensures
        match meta_variant(meta_view(*m)) {
            Ok((name, f)) => r matches Ok((n, x)) && ident_view(*n) == name && fields_view(*x) == f,
            Err(e) => r matches Err(k) && from_meta_error_view(k) == e,
        },
{
    match &m.value {
        Meta::Variant { name, fields } => Ok((name, fields)),
        _ => Err(FromMetaError::Expected { expected: MetaType::Variant, got: m.span }),
    }
}

/// A value that can be read from a `meta` section.
pub trait FromMeta: View + Sized {
    /// What a value in a `meta` section stands for.
    spec fn from_meta_spec(m: Sp<MetaV>) -> Result<Self::V, MetaErrorV>;

    fn from_meta(meta: &Sp<Meta>) -> (r: Result<Self, MetaError>)
        ensures
            match Self::from_meta_spec(meta_view(*meta)) {
                Ok(v) => r matches Ok(x) && x@ == v,
                Err(e) => r matches Err(k) && from_meta_error_view(k) == e,
            },
    ;
}

/// The first `n` values of a list.
pub open spec fn list_of<T: FromMeta>(items: Seq<Sp<MetaV>>, n: nat) -> Result<
    Seq<T::V>,
    MetaErrorV,
>
    decreases n,
{
    if n == 0 {
        Ok(seq![])
    } else {
        match list_of::<T>(items, (n - 1) as nat) {
            Err(e) => Err(e),
            Ok(done) => match T::from_meta_spec(items[n - 1]) {
                Err(e) => Err(e),
                Ok(x) => Ok(done.push(x)),
            },
        }
    }
}

/// A field that holds a list.
pub open spec fn list_field<T: FromMeta>(fields: Sp<FieldsV>, name: Seq<char>) -> Result<
    Seq<T::V>,
    MetaErrorV,
> {
    match expect_field_spec(fields, name) {
        Err(e) => Err(e),
        Ok(m) => match meta_array(m) {
            Err(e) => Err(e),
            Ok(items) => list_of::<T>(items, items.len()),
        },
    }
}

/// A field that holds a list of a given length.
pub open spec fn list_field_of<T: FromMeta>(fields: Sp<FieldsV>, name: Seq<char>, len: nat) -> Result<
    Seq<T::V>,
    MetaErrorV,
> {
    match expect_field_spec(fields, name) {
        Err(e) => Err(e),
        Ok(m) => match meta_array_of(m, len) {
            Err(e) => Err(e),
            Ok(items) => list_of::<T>(items, len),
        },
    }
}

/// The values of a list.
pub open spec fn values_view<T: View>(xs: Seq<T>) -> Seq<T::V> {
    xs.map_values(|x: T| x@)
}

/// Read each value of a list.
pub fn read_list<T: FromMeta>(items: &Vec<Sp<Meta>>) -> (r: Result<Vec<T>, MetaError>)
    ensures
        match list_of::<T>(metas_view(items@, items@.len()), items@.len()) {
            Ok(s) => r matches Ok(v) && values_view(v@) == s && v@.len() == items@.len(),
            Err(e) => r matches Err(k) && from_meta_error_view(k) == e,
        },
{
    let ghost views = metas_view(items@, items@.len());
    proof {
        lemma_metas_view(items@, items@.len());
    }
    let mut out: Vec<T> = Vec::new();
    let mut i: usize = 0;
    assert(values_view(out@) =~= seq![]);
    while i < items.len()
        invariant
            i <= items@.len(),
            views == metas_view(items@, items@.len()),
            views.len() == items@.len(),
            forall|j: int| 0 <= j < items@.len() ==> #[trigger] views[j] == meta_view(items@[j]),
            list_of::<T>(views, i as nat) == Ok::<Seq<T::V>, MetaErrorV>(values_view(out@)),
            out@.len() == i,
        decreases items@.len() - i,
    {
        assert(views[i as int] == meta_view(items@[i as int]));
        let ghost before = out@;
        match T::from_meta(&items[i]) {
            Ok(x) => {
                out.push(x);
                assert(values_view(out@) =~= values_view(before).push(x@));
            },
            Err(e) => {
                proof {
                    lemma_list_stop::<T>(views, (i + 1) as nat, items@.len());
                }
                return Err(e);
            },
        }
        i = i + 1;
    }
    Ok(out)
}

pub proof fn lemma_list_len<T: FromMeta>(items: Seq<Sp<MetaV>>, n: nat)
    ensures
        list_of::<T>(items, n) matches Ok(xs) ==> xs.len() == n,
    decreases n,
{
    if n > 0 {
        lemma_list_len::<T>(items, (n - 1) as nat);
    }
}

proof fn lemma_list_stop<T: FromMeta>(items: Seq<Sp<MetaV>>, m: nat, n: nat)
    requires
        m <= n,
        list_of::<T>(items, m) is Err,
    ensures
        list_of::<T>(items, n) == list_of::<T>(items, m),
    decreases n,
{
    if m < n {
        lemma_list_stop::<T>(items, m, (n - 1) as nat);
    }
}

// =============================================================================
// Building

/// A value that can be written to a `meta` section.
pub trait ToMeta: View + Sized {
    /// What stands for a value in a `meta` section.
    spec fn to_meta_spec(v: Self::V) -> MetaV;

    fn to_meta(&self) -> (r: Sp<Meta>)
        ensures
            meta_view(r) == sp_null(Self::to_meta_spec(self@)),
    ;
}

/// What stands for a list of values.
pub open spec fn list_meta<T: ToMeta>(xs: Seq<T::V>) -> MetaV {
    MetaV::Array(xs.map_values(|x: T::V| sp_null(T::to_meta_spec(x))))
}

/// Build a list.
pub fn make_list<T: ToMeta>(xs: &[T]) -> (r: Sp<Meta>)
    ensures
        meta_view(r) == sp_null(list_meta::<T>(values_view(xs@))),
{
    let mut items: Vec<Sp<Meta>> = Vec::new();
    let mut i: usize = 0;
    while i < xs.len()
        invariant
            i <= xs@.len(),
            items@.len() == i,
            forall|j: int|
                0 <= j < i ==> meta_view(#[trigger] items@[j]) == sp_null(
                    T::to_meta_spec(xs@[j]@),
                ),
        decreases xs@.len() - i,
    {
        items.push(xs[i].to_meta());
        i = i + 1;
    }
    proof {
        lemma_metas_view(items@, items@.len());
        assert(metas_view(items@, items@.len()) =~= values_view(xs@).map_values(
            |x: T::V| sp_null(T::to_meta_spec(x)),
        ));
    }
    sp(Meta::Array(items))
}

pub open spec fn int_meta(x: i32) -> MetaV {
    MetaV::Scalar(sp_null(ExprV::LitInt { value: x, hex: false }))
}

pub open spec fn float_meta(x: F32) -> MetaV {
    MetaV::Scalar(sp_null(ExprV::LitFloat { value: x }))
}

/// The text of some bytes, with a replacement for what is not UTF-8.
pub uninterp spec fn lossy_text(bytes: Seq<u8>) -> Seq<char>;

/// `bstr::ByteSlice::to_str_lossy`: bytes that are UTF-8 give the text that they encode.  What the
/// others give depends on nothing but the bytes; which characters stand in for them is not said.
#[verifier::external_body]
fn to_str_lossy(bytes: &[u8]) -> (r: String)
    ensures
        r@ == lossy_text(bytes@),
        valid_utf8(bytes@) ==> r@ == decode_utf8(bytes@),
{
    bytes.to_str_lossy().into_owned()
}

/// The text of bytes: what they encode if they are UTF-8.
pub open spec fn text_of(bytes: Seq<u8>) -> Seq<char> {
    if valid_utf8(bytes) {
        decode_utf8(bytes)
    } else {
        lossy_text(bytes)
    }
}

pub open spec fn bytes_meta(bytes: Seq<u8>) -> MetaV {
    MetaV::Scalar(sp_null(ExprV::LitString { string: text_of(bytes) }))
}

pub open spec fn floats_meta(xs: Seq<F32>) -> MetaV {
    MetaV::Array(xs.map_values(|x: F32| sp_null(float_meta(x))))
}

/// A field that was built.
pub open spec fn built_field(name: Seq<char>, value: MetaV) -> (Sp<Seq<char>>, Sp<MetaV>) {
    (sp_null(name), sp_null(value))
}

pub open spec fn object_meta(fields: FieldsV) -> MetaV {
    MetaV::Object(sp_null(fields))
}

pub open spec fn variant_meta(name: Seq<char>, fields: FieldsV) -> MetaV {
    MetaV::Variant { name: sp_null(name), fields: sp_null(fields) }
}

pub fn make_int(x: i32) -> (r: Sp<Meta>)
    ensures
        meta_view(r) == sp_null(int_meta(x)),
{
    sp(Meta::Scalar(sp(Expr::LitInt { value: x, hex: false })))
}

pub fn make_float(x: F32) -> (r: Sp<Meta>)
    ensures
        meta_view(r) == sp_null(float_meta(x)),
{
    sp(Meta::Scalar(sp(Expr::LitFloat { value: x })))
}

pub fn make_bytes(bytes: &Vec<u8>) -> (r: Sp<Meta>)
    ensures
        meta_view(r) == sp_null(bytes_meta(bytes@)),
{
    sp(Meta::Scalar(sp(Expr::LitString { string: to_str_lossy(bytes.as_slice()) })))
}

pub fn make_floats(xs: &[F32]) -> (r: Sp<Meta>)
    ensures
        meta_view(r) == sp_null(floats_meta(xs@)),
{
    let mut items: Vec<Sp<Meta>> = Vec::new();
    let mut i: usize = 0;
    while i < xs.len()
        invariant
            i <= xs@.len(),
            items@.len() == i,
            forall|j: int|
                0 <= j < i ==> meta_view(#[trigger] items@[j]) == sp_null(float_meta(xs@[j])),
        decreases xs@.len() - i,
    {
        items.push(make_float(xs[i]));
        i = i + 1;
    }
    proof {
        lemma_metas_view(items@, items@.len());
        assert(metas_view(items@, items@.len()) =~= xs@.map_values(
            |x: F32| sp_null(float_meta(x)),
        ));
    }
    sp(Meta::Array(items))
}

/// Builds the fields of an object one after another.
pub struct BuildObject {
    pub fields: Vec<(Sp<Ident>, Sp<Meta>)>,
}

impl BuildObject {
    pub open spec fn built(self) -> FieldsV {
        field_seq_view(self.fields@, self.fields@.len())
    }

    pub fn new() -> (r: Self)
        ensures
            r.built() == Seq::<(Sp<Seq<char>>, Sp<MetaV>)>::empty(),
    {
        BuildObject { fields: Vec::new() }
    }

    /// Add a field.
    pub fn field(&mut self, name: &str, value: Sp<Meta>)
        ensures
            final(self).built() == old(self).built().push((sp_null(name@), meta_view(value))),
    {
        let ghost before = self.fields@;
        let key = sp(Ident::new(name));
        self.fields.push((key, value));
        proof {
            lemma_field_seq_view(before, before.len());
            lemma_field_seq_view(self.fields@, self.fields@.len());
            assert(self.built() =~= old(self).built().push((sp_null(name@), meta_view(value))));
        }
    }

    pub fn build_fields(self) -> (r: Fields)
        ensures
            r@ == self.built(),
    {
        Fields(self.fields)
    }

    pub fn build(self) -> (r: Sp<Meta>)
        ensures
            meta_view(r) == sp_null(object_meta(self.built())),
    {
        sp(Meta::Object(sp(Fields(self.fields))))
    }

    pub fn build_variant(self, name: &Ident) -> (r: Sp<Meta>)
        ensures
            meta_view(r) == sp_null(variant_meta(name@, self.built())),
    {
        sp(Meta::Variant { name: sp(name.clone()), fields: sp(Fields(self.fields)) })
    }
}

// =============================================================================

/// A vector is read back as it was built.
pub proof fn law_floats_round_trip(xs: Seq<F32>)
    ensures
        meta_floats(sp_null(floats_meta(xs)), xs.len()) == Ok::<Seq<F32>, MetaErrorV>(xs),
{
    let items = xs.map_values(|x: F32| sp_null(float_meta(x)));
    lemma_floats_of(xs, items, xs.len());
    assert(xs.take(xs.len() as int) =~= xs);
}

proof fn lemma_floats_of(xs: Seq<F32>, items: Seq<Sp<MetaV>>, n: nat)
    requires
        n <= xs.len(),
        items == xs.map_values(|x: F32| sp_null(float_meta(x))),
    ensures
        floats_of(items, n) == Ok::<Seq<F32>, MetaErrorV>(xs.take(n as int)),
    decreases n,
{
    if n > 0 {
        lemma_floats_of(xs, items, (n - 1) as nat);
        assert(xs.take(n as int) =~= xs.take(n - 1).push(xs[n - 1]));
    } else {
        assert(xs.take(0) =~= seq![]);
    }
}

/// A list is read back as it was built if each of its values is.
pub proof fn law_list_round_trip<T: FromMeta + ToMeta>(xs: Seq<T::V>)
    requires
        forall|i: int|
            0 <= i < xs.len() ==> T::from_meta_spec(
                sp_null(T::to_meta_spec(#[trigger] xs[i])),
            ) == Ok::<T::V, MetaErrorV>(xs[i]),
    ensures
        list_meta::<T>(xs) matches MetaV::Array(items) && items.len() == xs.len()
            && list_of::<T>(items, items.len()) == Ok::<Seq<T::V>, MetaErrorV>(xs),
{
    let items = xs.map_values(|x: T::V| sp_null(T::to_meta_spec(x)));
    lemma_list_of::<T>(xs, items, xs.len());
    assert(xs.take(xs.len() as int) =~= xs);
}

proof fn lemma_list_of<T: FromMeta + ToMeta>(xs: Seq<T::V>, items: Seq<Sp<MetaV>>, n: nat)
    requires
        n <= xs.len(),
        items == xs.map_values(|x: T::V| sp_null(T::to_meta_spec(x))),
        forall|i: int|
            0 <= i < xs.len() ==> T::from_meta_spec(
                sp_null(T::to_meta_spec(#[trigger] xs[i])),
            ) == Ok::<T::V, MetaErrorV>(xs[i]),
    ensures
        list_of::<T>(items, n) == Ok::<Seq<T::V>, MetaErrorV>(xs.take(n as int)),
    decreases n,
{
    if n > 0 {
        lemma_list_of::<T>(xs, items, (n - 1) as nat);
        assert(items[n - 1] == sp_null(T::to_meta_spec(xs[n - 1])));
        assert(xs.take(n as int) =~= xs.take(n - 1).push(xs[n - 1]));
    } else {
        assert(xs.take(0) =~= seq![]);
    }
}

/// Among fields whose names differ, each is found under its name.
pub proof fn lemma_field_found(fields: FieldsV, i: int)
    requires
        0 <= i < fields.len(),
        field_names(fields).no_duplicates(),
    ensures
        field_index(fields, fields[i].0.value) == Some(i),
    decreases fields.len(),
{
    let name = fields[i].0.value;
    let last = fields.len() - 1;
    assert(field_names(fields)[i] == name);
    assert(field_names(fields)[last] == fields.last().0.value);
    if i < last {
        assert(field_names(fields.drop_last()) =~= field_names(fields).drop_last());
        lemma_field_found(fields.drop_last(), i);
    } else {
        assert forall|j: int| 0 <= j < fields.drop_last().len() implies (
        #[trigger] fields.drop_last()[j]).0.value != name by {
            assert(field_names(fields)[j] == fields[j].0.value);
        }
        lemma_field_missing(fields.drop_last(), name);
    }
}

/// A name that no field has is not found.
pub proof fn lemma_field_missing(fields: FieldsV, name: Seq<char>)
    ensures
        (forall|i: int| 0 <= i < fields.len() ==> (#[trigger] fields[i]).0.value != name)
            ==> field_index(fields, name) is None,
    decreases fields.len(),
{
    if fields.len() > 0 {
        lemma_field_missing(fields.drop_last(), name);
        if forall|i: int| 0 <= i < fields.len() ==> (#[trigger] fields[i]).0.value != name {
            assert forall|i: int| 0 <= i < fields.drop_last().len() implies (
            #[trigger] fields.drop_last()[i]).0.value != name by {
                assert(fields.drop_last()[i] == fields[i]);
            }
        }
    }
}

/// There is no unexpected field if every name is allowed.
pub proof fn lemma_none_unexpected(fields: FieldsV, allowed: Seq<Seq<char>>)
    requires
        forall|i: int| 0 <= i < fields.len() ==> allowed.contains((#[trigger] fields[i]).0.value),
    ensures
        unexpected_field(fields, allowed) is None,
    decreases fields.len(),
{
    if fields.len() > 0 {
        assert forall|i: int| 0 <= i < fields.drop_last().len() implies allowed.contains(
            (#[trigger] fields.drop_last()[i]).0.value,
        ) by {
            assert(fields.drop_last()[i] == fields[i]);
        }
        lemma_none_unexpected(fields.drop_last(), allowed);
        assert(fields.last() == fields[fields.len() - 1]);
    }
}

/// A text that is UTF-8 is read back as it was built.
pub proof fn law_bytes_round_trip(bytes: Seq<u8>)
    requires
        valid_utf8(bytes),
    ensures
        meta_bytes(sp_null(bytes_meta(bytes))) == Ok::<Seq<u8>, MetaErrorV>(bytes),
{
    decode_utf8_encode_utf8(bytes);
}

// =============================================================================

pub open spec fn is_literal(e: ExprV) -> bool {
    e is LitInt || e is LitFloat || e is LitString
}

/// Whether a value is made of literals alone.
pub open spec fn literal_meta(m: Sp<MetaV>) -> bool
    decreases m, 0nat,
{
    match m.value {
        MetaV::Scalar(e) => is_literal(e.value),
        MetaV::Array(items) => literal_metas(items, items.len()),
        MetaV::Object(fields) => literal_fields(fields.value, fields.value.len()),
        MetaV::Variant { fields, .. } => literal_fields(fields.value, fields.value.len()),
    }
}

/// Whether the first `n` values of a list are made of literals alone.
pub open spec fn literal_metas(items: Seq<Sp<MetaV>>, n: nat) -> bool
    decreases items, n,
{
    n == 0 || n > items.len() || literal_metas(items, (n - 1) as nat) && literal_meta(items[n - 1])
}

/// Whether the first `n` fields of an object are made of literals alone.
pub open spec fn literal_fields(fields: FieldsV, n: nat) -> bool
    decreases fields, n,
{
    n == 0 || n > fields.len() || literal_fields(fields, (n - 1) as nat) && literal_meta(
        fields[n - 1].1,
    )
}

pub proof fn lemma_literal_fields(fields: FieldsV, n: nat)
    requires
        forall|i: int| 0 <= i < fields.len() ==> literal_meta((#[trigger] fields[i]).1),
    ensures
        literal_fields(fields, n),
    decreases n,
{
    if 0 < n <= fields.len() {
        lemma_literal_fields(fields, (n - 1) as nat);
        assert(literal_meta(fields[n - 1].1));
    }
}

pub proof fn lemma_literal_metas(items: Seq<Sp<MetaV>>, n: nat)
    requires
        forall|i: int| 0 <= i < items.len() ==> literal_meta(#[trigger] items[i]),
    ensures
        literal_metas(items, n),
    decreases n,
{
    if 0 < n <= items.len() {
        lemma_literal_metas(items, (n - 1) as nat);
        assert(literal_meta(items[n - 1]));
    }
}

/// A list of values that are made of literals is made of literals.
pub proof fn lemma_literal_list<T: ToMeta>(xs: Seq<T::V>)
    requires
        forall|i: int|
            0 <= i < xs.len() ==> literal_meta(sp_null(T::to_meta_spec(#[trigger] xs[i]))),
    ensures
        literal_meta(sp_null(list_meta::<T>(xs))),
{
    let items = xs.map_values(|x: T::V| sp_null(T::to_meta_spec(x)));
    assert forall|i: int| 0 <= i < items.len() implies literal_meta(#[trigger] items[i]) by {
        assert(items[i] == sp_null(T::to_meta_spec(xs[i])));
    }
    lemma_literal_metas(items, items.len());
}

/// A vector is made of literals.
pub proof fn lemma_literal_floats(xs: Seq<F32>)
    ensures
        literal_meta(sp_null(floats_meta(xs))),
{
    let items = xs.map_values(|x: F32| sp_null(float_meta(x)));
    assert forall|i: int| 0 <= i < items.len() implies literal_meta(#[trigger] items[i]) by {
        assert(items[i] == sp_null(float_meta(xs[i])));
    }
    lemma_literal_metas(items, items.len());
}

} // verus!
