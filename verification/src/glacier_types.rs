//! The builtin value types of the polymorphic storage surface.
//!
//! Every concrete type addressable by an external string tag implements
//! the marker capability `ZVariant`; the generated declarations register
//! their own tags on top of these builtins.

use vstd::prelude::*;

verus! {

/// Marker capability shared by all concrete value types that polymorphic
/// property storage can hold and address by a globally unique string tag.
pub trait ZVariant {}

/// A plain string value.
#[derive(Debug, Clone, PartialEq, Eq, Hash, Default)]
pub struct ZString(String);

impl View for ZString {
    type V = Seq<char>;

    closed spec fn view(&self) -> Seq<char> {
        self.0@
    }
}

impl ZString {
    pub fn new(text: String) -> (r: ZString)
        ensures
            r@ == text@,
    {
        ZString(text)
    }

    pub fn text(&self) -> (r: &String)
        ensures
            r@ == self@,
    {
        &self.0
    }
}

/// An encrypted string value; its payload is opaque at this level.
#[derive(Debug, Clone, PartialEq, Eq, Default)]
pub struct ZEncryptedString;

/// The arena marker value.
#[derive(Debug, Clone, PartialEq, Eq, Default)]
pub struct ZHMArenas;

/// A property identifier: either a textual name or a numeric id.
#[derive(Debug, Clone, PartialEq, Eq)]
pub enum EntityTemplatePropertyId {
    Str(String),
    Num(u32),
}

/// A homogeneous growable sequence of tagged values.
#[derive(Debug, Clone, PartialEq, Eq, Default)]
pub struct TArray<T: ZVariant>(Vec<T>);

impl<T: ZVariant> View for TArray<T> {
    type V = Seq<T>;

    closed spec fn view(&self) -> Seq<T> {
        self.0@
    }
}

impl<T: ZVariant> TArray<T> {
    pub fn new() -> (r: TArray<T>)
        ensures
            r@ == Seq::<T>::empty(),
    {
        TArray(Vec::new())
    }

    pub fn push(&mut self, item: T)
        ensures
            final(self)@ == old(self)@.push(item),
    {
        self.0.push(item);
    }

    pub fn len(&self) -> (r: usize)
        ensures
            r == self@.len(),
    {
        self.0.len()
    }

    pub fn items(&self) -> (r: &Vec<T>)
        ensures
            r@ == self@,
    {
        &self.0
    }
}

/// A repository identifier value.
#[derive(Debug, Clone, PartialEq, Eq, Default)]
pub struct ZRepositoryId;

/// The unit value.
#[derive(Debug, Clone, PartialEq, Eq, Default)]
pub struct Empty;

/// A type-identifier value.
#[derive(Debug, Clone, PartialEq, Eq, Default)]
pub struct TypeId;

impl ZVariant for ZString {}

impl ZVariant for ZEncryptedString {}

impl ZVariant for ZHMArenas {}

impl ZVariant for EntityTemplatePropertyId {}

impl ZVariant for ZRepositoryId {}

impl ZVariant for Empty {}

impl ZVariant for TypeId {}

impl ZVariant for i8 {}

impl ZVariant for i16 {}

impl ZVariant for i32 {}

impl ZVariant for i64 {}

impl ZVariant for u8 {}

impl ZVariant for u16 {}

impl ZVariant for u32 {}

impl ZVariant for u64 {}

impl ZVariant for bool {}

impl ZVariant for char {}

impl ZVariant for String {}

impl<T: ZVariant> ZVariant for TArray<T> {}

} // verus!
