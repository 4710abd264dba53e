//! Header fields.
use vstd::prelude::*;
use vstd::slice::slice_to_vec;

verus! {

/// A header field as plain data: its name and its value.
pub type Field = (Seq<u8>, Seq<u8>);

/// What has a name and a value, and can therefore be encoded as a header
/// field.
pub trait NameValue {
    /// The name, as plain data.
    spec fn name_view(&self) -> Seq<u8>;

    /// The value, as plain data.
    spec fn value_view(&self) -> Seq<u8>;

    /// The field's name.
    fn name(&self) -> (r: &[u8])
        ensures
            r@ == self.name_view(),
    ;

    /// The field's value.
    fn value(&self) -> (r: &[u8])
        ensures
            r@ == self.value_view(),
    ;
}

/// The fields that a list of headers stands for.
pub open spec fn fields_of<T: NameValue>(headers: Seq<T>) -> Seq<Field> {
    Seq::new(headers.len(), |i: int| (headers[i].name_view(), headers[i].value_view()))
}

/// An owned header field.
#[derive(Clone, Debug, PartialEq, Eq)]
pub struct Header {
    pub name: Vec<u8>,
    pub value: Vec<u8>,
}

impl View for Header {
    type V = Field;

    open spec fn view(&self) -> Field {
        (self.name@, self.value@)
    }
}

impl Header {
    /// A header field with a copy of `name` and of `value`.
    pub fn new(name: &[u8], value: &[u8]) -> (r: Header)
        ensures
            r@ == (name@, value@),
    {
        Header { name: slice_to_vec(name), value: slice_to_vec(value) }
    }
}

impl NameValue for Header {
    open spec fn name_view(&self) -> Seq<u8> {
        self.name@
    }

    open spec fn value_view(&self) -> Seq<u8> {
        self.value@
    }

    fn name(&self) -> (r: &[u8]) {
        self.name.as_slice()
    }

    fn value(&self) -> (r: &[u8]) {
        self.value.as_slice()
    }
}

/// A header field that borrows its name and its value.
#[derive(Clone, Copy, Debug, PartialEq, Eq)]
pub struct HeaderRef<'a> {
    pub name: &'a [u8],
    pub value: &'a [u8],
}

impl<'a> HeaderRef<'a> {
    /// A header field that refers to `name` and `value`.
    pub fn new(name: &'a [u8], value: &'a [u8]) -> (r: HeaderRef<'a>)
        ensures
            r.name@ == name@,
            r.value@ == value@,
    {
        HeaderRef { name, value }
    }
}

impl<'a> NameValue for HeaderRef<'a> {
    open spec fn name_view(&self) -> Seq<u8> {
        self.name@
    }

    open spec fn value_view(&self) -> Seq<u8> {
        self.value@
    }

    fn name(&self) -> (r: &[u8]) {
        self.name
    }

    fn value(&self) -> (r: &[u8]) {
        self.value
    }
}

/// The fields of the headers in `headers`.
pub open spec fn header_fields(headers: Seq<Header>) -> Seq<Field> {
    Seq::new(headers.len(), |i: int| headers[i]@)
}

} // verus!
