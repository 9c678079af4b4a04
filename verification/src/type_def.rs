use vstd::prelude::*;
use crate::kind::{Kind, KindV, kind_view, empty_kind, CollectionKindV, kinds_view, FieldsKindV,
    kind_fields_view};

verus! {

/// Everything statically known about an expression's result: its possible
/// shapes, whether evaluating it may fail with a recoverable error, and
/// whether it may raise the abort control-flow signal. The two failure
/// channels are mutually exclusive: requesting abort semantics clears
/// ordinary fallibility.
#[derive(Debug, PartialEq)]
pub struct TypeDef {
    pub fallible: bool,
    pub abortable: bool,
    pub kind: Kind,
}

/// Mathematical model of a [`TypeDef`].
#[verifier::ext_equal]
pub struct TypeDefV {
    pub fallible: bool,
    pub abortable: bool,
    pub kind: KindV,
}

impl View for TypeDef {
    type V = TypeDefV;

    open spec fn view(&self) -> TypeDefV {
        TypeDefV { fallible: self.fallible, abortable: self.abortable, kind: kind_view(self.kind) }
    }
}

impl TypeDef {
    /// An infallible type of the given kind.
    pub fn new(kind: Kind) -> (r: TypeDef)
        ensures
            r@ == (TypeDefV { fallible: false, abortable: false, kind: kind@ }),
    {
        TypeDef { fallible: false, abortable: false, kind }
    }

    pub fn null() -> (r: TypeDef)
        ensures
            r@ == (TypeDefV {
                fallible: false,
                abortable: false,
                kind: (KindV { null: true, ..empty_kind() }),
            }),
    {
        TypeDef::new(Kind::null())
    }

    pub fn boolean() -> (r: TypeDef)
        ensures
            r@ == (TypeDefV {
                fallible: false,
                abortable: false,
                kind: (KindV { boolean: true, ..empty_kind() }),
            }),
    {
        TypeDef::new(Kind::boolean())
    }

    pub fn integer() -> (r: TypeDef)
        ensures
            r@ == (TypeDefV {
                fallible: false,
                abortable: false,
                kind: (KindV { integer: true, ..empty_kind() }),
            }),
    {
        TypeDef::new(Kind::integer())
    }

    pub fn bytes() -> (r: TypeDef)
        ensures
            r@ == (TypeDefV {
                fallible: false,
                abortable: false,
                kind: (KindV { bytes: true, ..empty_kind() }),
            }),
    {
        TypeDef::new(Kind::bytes())
    }

    /// An infallible array type of a known length, element `i` having the
    /// `i`-th kind.
    pub fn array(elems: Vec<Kind>) -> (r: TypeDef)
        ensures
            r@ == (TypeDefV {
                fallible: false,
                abortable: false,
                kind: (KindV {
                    array: CollectionKindV::Known(kinds_view(elems)),
                    ..empty_kind()
                }),
            }),
    {
        TypeDef::new(Kind::array(elems))
    }

    /// An infallible object type with exactly the listed fields.
    pub fn object(fields: Vec<(String, Kind)>) -> (r: TypeDef)
        ensures
            r@ == (TypeDefV {
                fallible: false,
                abortable: false,
                kind: (KindV {
                    object: FieldsKindV::Known(kind_fields_view(fields)),
                    ..empty_kind()
                }),
            }),
    {
        TypeDef::new(Kind::object(fields))
    }

    /// The same type with fallibility set as given.
    pub fn with_fallibility(self, fallible: bool) -> (r: TypeDef)
        ensures
            r@ == (TypeDefV { fallible, ..self@ }),
    {
        TypeDef { fallible, ..self }
    }

    /// The same type marked infallible.
    pub fn infallible(self) -> (r: TypeDef)
        ensures
            r@ == (TypeDefV { fallible: false, ..self@ }),
    {
        self.with_fallibility(false)
    }

    /// The same type marked fallible.
    pub fn fallible(self) -> (r: TypeDef)
        ensures
            r@ == (TypeDefV { fallible: true, ..self@ }),
    {
        self.with_fallibility(true)
    }

    /// The same type marked abortable; abortability replaces ordinary
    /// fallibility, the two being mutually exclusive failure channels.
    pub fn abortable(self) -> (r: TypeDef)
        ensures
            r@ == (TypeDefV { fallible: false, abortable: true, kind: self@.kind }),
    {
        TypeDef { fallible: false, abortable: true, kind: self.kind }
    }

    pub fn is_fallible(&self) -> (r: bool)
        ensures
            r == self@.fallible,
    {
        self.fallible
    }

    pub fn is_abortable(&self) -> (r: bool)
        ensures
            r == self@.abortable,
    {
        self.abortable
    }

    pub fn kind(&self) -> (r: &Kind)
        ensures
            r@ == self@.kind,
    {
        &self.kind
    }
}

} // verus!
