use korangar::dialog::{ChangeEvent, DialogContainer, DialogControl, DialogElement, UserEvent};

fn text(content: &str) -> DialogControl {
    DialogControl::Text { text: String::from(content) }
}

fn button(label: &str, event: UserEvent) -> DialogControl {
    DialogControl::Button { text: String::from(label), event }
}

#[test]
fn each_element_has_its_control() {
    assert_eq!(
        DialogContainer::to_element(&DialogElement::Text(String::from("Welcome.")), 7),
        text("Welcome."),
    );
    assert_eq!(
        DialogContainer::to_element(&DialogElement::NextButton, 7),
        button("next", UserEvent::NextDialog(7)),
    );
    assert_eq!(
        DialogContainer::to_element(&DialogElement::CloseButton, 7),
        button("next", UserEvent::CloseDialog(7)),
    );
    assert_eq!(
        DialogContainer::to_element(&DialogElement::ChoiceButton(String::from("Yes"), -2), 9),
        button("Yes", UserEvent::ChooseDialogOption(9, -2)),
    );
}

#[test]
fn a_container_holds_the_controls_in_order() {
    let elements = vec![
        DialogElement::Text(String::from("Shall we?")),
        DialogElement::ChoiceButton(String::from("Yes"), 1),
        DialogElement::ChoiceButton(String::from("No"), 2),
        DialogElement::CloseButton,
    ];
    let container = DialogContainer::new(&elements, 42);

    assert_eq!(
        container.controls(),
        &vec![
            text("Shall we?"),
            button("Yes", UserEvent::ChooseDialogOption(42, 1)),
            button("No", UserEvent::ChooseDialogOption(42, 2)),
            button("next", UserEvent::CloseDialog(42)),
        ],
    );
    assert!(DialogContainer::new(&Vec::new(), 42).controls().is_empty());
}

#[test]
fn an_unchanged_dialog_is_left_alone() {
    let mut container = DialogContainer::new(&vec![DialogElement::NextButton], 3);
    let mut changed = false;

    let event = container.update(&vec![DialogElement::CloseButton], &mut changed);

    assert_eq!(event, None);
    assert!(!changed);
    assert_eq!(container.controls(), &vec![button("next", UserEvent::NextDialog(3))]);
}

#[test]
fn a_changed_dialog_gets_new_controls_once() {
    let mut container = DialogContainer::new(&vec![DialogElement::NextButton], 3);
    let elements = vec![DialogElement::Text(String::from("Bye.")), DialogElement::CloseButton];
    let mut changed = true;

    assert_eq!(container.update(&elements, &mut changed), Some(ChangeEvent::Reresolve));
    assert!(!changed);
    assert_eq!(
        container.controls(),
        &vec![text("Bye."), button("next", UserEvent::CloseDialog(3))],
    );

    assert_eq!(container.update(&Vec::new(), &mut changed), None);
    assert_eq!(container.controls().len(), 2);
}
