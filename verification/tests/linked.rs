use korangar::linked::LinkedElement;
use std::rc::Rc;

// Guard against unintended size increase.
#[test]
fn linked_element_size() {
    assert_eq!(16, std::mem::size_of::<LinkedElement>());
}

#[test]
fn default_is_unlinked_and_unhidden() {
    let element = LinkedElement::new();

    assert!(!element.is_linked());
    assert!(!element.is_hidden());
}

#[test]
fn elements_can_be_linked() {
    let parent = Rc::new("parent");

    let mut element = LinkedElement::new();
    element.link(&parent);

    assert!(element.is_linked());
    assert!(!element.is_hidden());
    assert!(element.is_linked_to(&parent));
}

#[test]
fn links_can_be_distinguished() {
    let parent = Rc::new("parent");
    let stranger = Rc::new("stranger");

    let mut element = LinkedElement::new();
    element.link(&parent);

    assert!(element.is_linked());
    assert!(!element.is_hidden());
    assert!(!element.is_linked_to(&stranger));
}

#[test]
fn links_can_be_hidden() {
    let mut element = LinkedElement::new();

    element.link_hidden();

    assert!(element.is_linked());
    assert!(element.is_hidden());
}

#[test]
fn a_second_handle_of_the_element_is_the_same_link() {
    let parent: Rc<str> = Rc::from("parent");
    let handle = Rc::clone(&parent);

    let mut element = LinkedElement::new();
    element.link(&parent);

    assert!(element.is_linked_to(&handle));
}

#[test]
fn links_by_address_are_exact() {
    let mut element = LinkedElement::new();
    element.link_address(0x1000);

    assert!(element.is_linked());
    assert!(!element.is_hidden());
    assert!(element.is_linked_to_address(0x1000));
    assert!(!element.is_linked_to_address(0x1008));
}

#[test]
fn hidden_and_unset_links_are_linked_to_no_element() {
    let parent = Rc::new("parent");

    let mut element = LinkedElement::new();
    assert!(!element.is_linked_to(&parent));
    assert!(!element.is_linked_to_address(0));

    element.link_hidden();
    assert!(!element.is_linked_to(&parent));
    assert!(!element.is_linked_to_address(0));
}

#[test]
fn a_later_link_replaces_an_earlier_one() {
    let parent = Rc::new("parent");
    let stranger = Rc::new("stranger");

    let mut element = LinkedElement::new();
    element.link_hidden();
    element.link(&parent);
    assert!(!element.is_hidden());
    assert!(element.is_linked_to(&parent));

    element.link(&stranger);
    assert!(element.is_linked_to(&stranger));
    assert!(!element.is_linked_to(&parent));
}
