use talks::conversation::Conversation;
use talks::graph::NodeKind;
use talks::errors::NextActionError;
use talks::script::{Choice, DialogueLine, RawTalk};

fn line(id: i32, text: &str) -> DialogueLine {
    DialogueLine {
        id,
        text: text.to_string(),
        talker: None,
        choices: None,
        next: None,
        start: None,
        end: None,
    }
}

fn linear() -> Conversation {
    let mut first = line(1, "Hello");
    first.start = Some(true);
    first.next = Some(2);
    Conversation::new(RawTalk {
        talkers: vec![],
        lines: vec![first, line(2, "Whatup")],
    })
    .unwrap()
}

fn branching() -> Conversation {
    let mut first = line(1, "Pick one");
    first.start = Some(true);
    first.choices = Some(vec![
        Choice { text: "Left".to_string(), next: 2 },
        Choice { text: "Right".to_string(), next: 3 },
    ]);
    let mut left = line(2, "You went left");
    left.next = Some(3);
    Conversation::new(RawTalk {
        talkers: vec![],
        lines: vec![first, left, line(3, "The end")],
    })
    .unwrap()
}

#[test]
fn advance_along_linear_script() {
    let mut convo = linear();
    assert_eq!(convo.current_text(), "Hello");
    assert_eq!(convo.advance(), Ok(()));
    assert_eq!(convo.current_text(), "Whatup");
    assert_eq!(convo.advance(), Err(NextActionError::NoNextAction));
    assert_eq!(convo.current_text(), "Whatup");
    assert_eq!(convo.advance(), Err(NextActionError::NoNextAction));
    assert_eq!(convo.current_index(), 1);
}

#[test]
fn advance_on_choice_line_fails() {
    let mut convo = branching();
    assert_eq!(convo.current_kind(), NodeKind::Choice);
    assert_eq!(convo.advance(), Err(NextActionError::ChoicesNotHandled));
    assert_eq!(convo.current_text(), "Pick one");
}

#[test]
fn jump_to_choice_target() {
    let mut convo = branching();
    let choices = convo.current_choices().unwrap();
    assert_eq!(choices.len(), 2);
    assert_eq!(choices[1].text, "Right");
    assert_eq!(convo.jump_to(choices[1].next), Ok(()));
    assert_eq!(convo.current_text(), "The end");
    assert_eq!(convo.current_kind(), NodeKind::Talk);
    assert_eq!(convo.current_choices(), None);
}

#[test]
fn jump_to_missing_id_fails() {
    let mut convo = branching();
    assert_eq!(convo.jump_to(42), Err(NextActionError::WrongJump(42)));
    assert_eq!(convo.current_text(), "Pick one");
    assert_eq!(convo.current_index(), 0);
}

#[test]
fn jump_anywhere_then_advance() {
    let mut convo = branching();
    assert_eq!(convo.jump_to(2), Ok(()));
    assert_eq!(convo.current_text(), "You went left");
    assert_eq!(convo.advance(), Ok(()));
    assert_eq!(convo.current_text(), "The end");
    assert_eq!(convo.jump_to(1), Ok(()));
    assert_eq!(convo.current_text(), "Pick one");
}

#[test]
fn self_loop_advances_in_place() {
    let mut only = line(5, "Again");
    only.start = Some(true);
    only.next = Some(5);
    let mut convo = Conversation::new(RawTalk {
        talkers: vec![],
        lines: vec![only],
    })
    .unwrap();
    assert_eq!(convo.advance(), Ok(()));
    assert_eq!(convo.advance(), Ok(()));
    assert_eq!(convo.current_text(), "Again");
}
