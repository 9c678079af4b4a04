use vstd::prelude::*;
use crate::span::Span;

verus! {

/// A value paired with the span of the source text it was parsed from.
/// The parser producing these nodes is an external collaborator; this type
/// is only the carrier shape the compiler consumes.
#[derive(Clone, Debug, PartialEq)]
pub struct Node<T> {
    pub span: Span,
    pub node: T,
}

/// Mathematical model of a [`Node`]: the same span around the inner view.
#[verifier::ext_equal]
pub struct NodeV<V> {
    pub span: Span,
    pub node: V,
}

impl<T: View> View for Node<T> {
    type V = NodeV<T::V>;

    open spec fn view(&self) -> NodeV<T::V> {
        NodeV { span: self.span, node: self.node@ }
    }
}

impl<T> Node<T> {
    pub fn new(span: Span, node: T) -> (n: Node<T>)
        ensures
            n.span == span,
            n.node == node,
    {
        Node { span, node }
    }

    /// Splits the node into its span and its inner value.
    pub fn take(self) -> (r: (Span, T))
        ensures
            r.0 == self.span,
            r.1 == self.node,
    {
        let Node { span, node } = self;
        (span, node)
    }

    pub fn span(&self) -> (s: Span)
        ensures
            s == self.span,
    {
        self.span
    }

    pub fn inner(&self) -> (r: &T)
        ensures
            r == &self.node,
    {
        &self.node
    }

    pub fn into_inner(self) -> (r: T)
        ensures
            r == self.node,
    {
        self.node
    }
}

/// An identifier as written in the source.
#[derive(Clone, Debug, PartialEq)]
pub struct Ident {
    pub name: String,
}

impl View for Ident {
    type V = Seq<char>;

    open spec fn view(&self) -> Seq<char> {
        self.name@
    }
}

impl Ident {
    pub fn new(name: String) -> (i: Ident)
        ensures
            i@ == name@,
    {
        Ident { name }
    }

    pub fn as_str(&self) -> (r: &str)
        ensures
            r@ == self@,
    {
        self.name.as_str()
    }
}

} // verus!
