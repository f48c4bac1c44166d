//! A mark on an interface element that remembers which element it was
//! linked to, by that element's address.

use vstd::prelude::*;
use std::rc::Rc;

verus! {

/// What a [`LinkedElement`] holds.
#[derive(Debug, Clone, Copy, PartialEq, Eq, Structural)]
pub enum LinkedElementInner {
    /// Linked to the element at this address.
    Address(usize),
    /// Linked, to an element that is not shown.
    Hidden,
    /// Not linked.
    Unset,
}

/// A link from one interface element to another.
#[derive(Debug, Clone, Copy)]
pub struct LinkedElement {
    inner: LinkedElementInner,
}

impl View for LinkedElement {
    type V = LinkedElementInner;

    closed spec fn view(&self) -> LinkedElementInner {
        self.inner
    }
}

/// `Rc::as_ptr` gives the place in memory of the value that the `Rc` shares,
/// here as a number. Nothing is claimed of the number: it is the same for
/// two handles of one value, and differs between two values that live at
/// the same time, but which number it is depends on where the allocator put
/// the value.
#[verifier::external_body]
fn element_address<T: ?Sized>(element: &Rc<T>) -> (address: usize) {
    Rc::as_ptr(element).addr()
}

impl LinkedElement {
    /// A link that is not set.
    pub fn new() -> (element: Self)
        ensures
            element@ == LinkedElementInner::Unset,
    {
        LinkedElement { inner: LinkedElementInner::Unset }
    }

    /// Links to the element at `address`.
    pub fn link_address(&mut self, address: usize)
        ensures
            final(self)@ == LinkedElementInner::Address(address),
    {
        self.inner = LinkedElementInner::Address(address);
    }

    /// Links to `element`. The link holds the element's address, not the
    /// element.
    pub fn link<T: ?Sized>(&mut self, element: &Rc<T>)
        ensures
            final(self)@ is Address,
    {
        let address = element_address(element);
        self.link_address(address);
    }

    /// Links to an element that is not shown.
    pub fn link_hidden(&mut self)
        ensures
            final(self)@ == LinkedElementInner::Hidden,
    {
        self.inner = LinkedElementInner::Hidden;
    }

    /// Whether the link is set, to a shown element or a hidden one.
    pub fn is_linked(&self) -> (linked: bool)
        ensures
            linked == (self@ != LinkedElementInner::Unset),
    {
        self.inner != LinkedElementInner::Unset
    }

    /// Whether the link is set to an element that is not shown.
    pub fn is_hidden(&self) -> (hidden: bool)
        ensures
            hidden == (self@ == LinkedElementInner::Hidden),
    {
        self.inner == LinkedElementInner::Hidden
    }

    /// Whether the link is set to the element at `address`.
    pub fn is_linked_to_address(&self, address: usize) -> (linked: bool)
        ensures
            linked == (self@ == LinkedElementInner::Address(address)),
    {
        self.inner == LinkedElementInner::Address(address)
    }

    /// Whether the link is set to `element`. A link that is hidden or not
    /// set is linked to no element.
    pub fn is_linked_to<T: ?Sized>(&self, element: &Rc<T>) -> (linked: bool)
        ensures
            linked ==> self@ is Address,
    {
        let address = element_address(element);
        self.is_linked_to_address(address)
    }
}

} // verus!
