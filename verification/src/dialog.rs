//! The controls of a dialog with a character: which control stands for each
//! element of the dialog, and when the controls are made anew.

use vstd::prelude::*;

verus! {

/// One element of a dialog, as the game states it.
#[derive(Debug, Clone, PartialEq, Eq)]
pub enum DialogElement {
    /// A line that the character says.
    Text(String),
    /// The dialog goes on.
    NextButton,
    /// The dialog ends.
    CloseButton,
    /// An answer to choose, with its number.
    ChoiceButton(String, i8),
}

/// What a [`DialogElement`] is to a contract.
pub enum DialogElementView {
    Text(Seq<char>),
    NextButton,
    CloseButton,
    ChoiceButton(Seq<char>, i8),
}

impl View for DialogElement {
    type V = DialogElementView;

    open spec fn view(&self) -> DialogElementView {
        match self {
            DialogElement::Text(text) => DialogElementView::Text(text@),
            DialogElement::NextButton => DialogElementView::NextButton,
            DialogElement::CloseButton => DialogElementView::CloseButton,
            DialogElement::ChoiceButton(text, index) => DialogElementView::ChoiceButton(
                text@,
                *index,
            ),
        }
    }
}

/// What the player asks for by pressing a button of a dialog. Each event
/// names the character that the dialog is with.
#[derive(Debug, Clone, Copy, PartialEq, Eq, Structural)]
pub enum UserEvent {
    NextDialog(u32),
    CloseDialog(u32),
    ChooseDialogOption(u32, i8),
}

/// A control of the interface that shows one element of a dialog.
#[derive(Debug, Clone, PartialEq, Eq)]
pub enum DialogControl {
    /// A line of text.
    Text { text: String },
    /// A button with its label and the event that pressing it raises.
    Button { text: String, event: UserEvent },
}

/// What a [`DialogControl`] is to a contract.
pub enum DialogControlView {
    Text { text: Seq<char> },
    Button { text: Seq<char>, event: UserEvent },
}

impl View for DialogControl {
    type V = DialogControlView;

    open spec fn view(&self) -> DialogControlView {
        match self {
            DialogControl::Text { text } => DialogControlView::Text { text: text@ },
            DialogControl::Button { text, event } => DialogControlView::Button {
                text: text@,
                event: *event,
            },
        }
    }
}

/// What the interface has to do after a container has changed.
#[derive(Debug, Clone, Copy, PartialEq, Eq, Structural)]
pub enum ChangeEvent {
    /// The controls are others than before: they are laid out anew.
    Reresolve,
}

/// The control that shows an element of a dialog with the character
/// `npc_id`. The buttons that go on with the dialog and that end it carry
/// the same label.
pub open spec fn control_of(element: DialogElementView, npc_id: u32) -> DialogControlView {
    match element {
        DialogElementView::Text(text) => DialogControlView::Text { text },
        DialogElementView::NextButton => DialogControlView::Button {
            text: "next"@,
            event: UserEvent::NextDialog(npc_id),
        },
        DialogElementView::CloseButton => DialogControlView::Button {
            text: "next"@,
            event: UserEvent::CloseDialog(npc_id),
        },
        DialogElementView::ChoiceButton(text, index) => DialogControlView::Button {
            text,
            event: UserEvent::ChooseDialogOption(npc_id, index),
        },
    }
}

/// The controls that show the elements of a dialog, in their order.
pub open spec fn controls_of(elements: Seq<DialogElementView>, npc_id: u32) -> Seq<DialogControlView> {
    Seq::new(elements.len(), |i: int| control_of(elements[i], npc_id))
}

/// The container of the controls of one dialog.
pub struct DialogContainer {
    npc_id: u32,
    controls: Vec<DialogControl>,
}

/// What a [`DialogContainer`] is to a contract.
pub struct DialogContainerView {
    /// The character that the dialog is with.
    pub npc_id: u32,
    /// The controls, in the order of the elements that they show.
    pub controls: Seq<DialogControlView>,
}

impl View for DialogContainer {
    type V = DialogContainerView;

    closed spec fn view(&self) -> DialogContainerView {
        DialogContainerView { npc_id: self.npc_id, controls: self.controls.deep_view() }
    }
}

impl DeepView for DialogControl {
    type V = DialogControlView;

    open spec fn deep_view(&self) -> DialogControlView {
        self@
    }
}

impl DeepView for DialogElement {
    type V = DialogElementView;

    open spec fn deep_view(&self) -> DialogElementView {
        self@
    }
}

impl DialogContainer {
    /// Makes the control that shows an element of a dialog.
    pub fn to_element(dialog_element: &DialogElement, npc_id: u32) -> (control: DialogControl)
        ensures
            control@ == control_of(dialog_element@, npc_id),
    {
        match dialog_element {
            DialogElement::Text(text) => DialogControl::Text { text: text.clone() },
            DialogElement::NextButton => DialogControl::Button {
                text: "next".to_owned(),
                event: UserEvent::NextDialog(npc_id),
            },
            DialogElement::CloseButton => DialogControl::Button {
                text: "next".to_owned(),
                event: UserEvent::CloseDialog(npc_id),
            },
            DialogElement::ChoiceButton(text, index) => DialogControl::Button {
                text: text.clone(),
                event: UserEvent::ChooseDialogOption(npc_id, *index),
            },
        }
    }

    /// A container with the controls of a dialog with the character
    /// `npc_id`.
    pub fn new(dialog_elements: &Vec<DialogElement>, npc_id: u32) -> (container: Self)
        ensures
            container@ == (DialogContainerView {
                npc_id,
                controls: controls_of(dialog_elements.deep_view(), npc_id),
            }),
    {
        let mut controls: Vec<DialogControl> = Vec::new();
        let mut index: usize = 0;
        while index < dialog_elements.len()
            invariant
                index <= dialog_elements.len(),
                controls.len() == index,
                forall|i: int|
                    0 <= i < index ==> controls[i]@ == control_of(dialog_elements[i]@, npc_id),
            decreases dialog_elements.len() - index,
        {
            controls.push(Self::to_element(&dialog_elements[index], npc_id));
            index += 1;
        }
        assert(controls.deep_view() =~= controls_of(dialog_elements.deep_view(), npc_id));
        DialogContainer { npc_id, controls }
    }

    /// The controls, in the order of the elements that they show.
    pub fn controls(&self) -> (controls: &Vec<DialogControl>)
        ensures
            controls.deep_view() == self@.controls,
    {
        &self.controls
    }

    /// Makes the controls anew where the dialog was marked as changed, takes
    /// the mark off and asks for a new layout. Where it was not, nothing
    /// happens.
    pub fn update(&mut self, dialog_elements: &Vec<DialogElement>, changed: &mut bool) -> (event: Option<
        ChangeEvent,
    >)
        ensures
            !*final(changed),
            event == if *old(changed) {
                Some(ChangeEvent::Reresolve)
            } else {
                None
            },
            final(self)@ == if *old(changed) {
                DialogContainerView {
                    npc_id: old(self)@.npc_id,
                    controls: controls_of(dialog_elements.deep_view(), old(self)@.npc_id),
                }
            } else {
                old(self)@
            },
    {
        if !*changed {
            return None;
        }
        *self = Self::new(dialog_elements, self.npc_id);
        *changed = false;
        Some(ChangeEvent::Reresolve)
    }
}

} // verus!
