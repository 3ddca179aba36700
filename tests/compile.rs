use talks::conversation::{Conversation, ConversationError};
use talks::graph::NodeKind;
use talks::script::{Choice, DialogueLine, RawTalk, Talker};

fn line(id: i32, text: &str) -> DialogueLine {
    DialogueLine {
        id,
        text: text.to_string(),
        talker: None,
        choices: None,
        next: None,
        start: None,
        end: None,
    }
}

#[test]
fn no_lines_err() {
    let raw_talk = RawTalk {
        talkers: vec![],
        lines: vec![],
    };

    let convo = Conversation::new(raw_talk).err();
    assert_eq!(convo, Some(ConversationError::NoLines));
}

#[test]
fn talker_not_found_err() {
    let raw_talk = RawTalk {
        talkers: vec![],
        lines: vec![DialogueLine {
            id: 1,
            text: "Hello".to_string(),
            talker: Some("Bob".to_string()),
            choices: None,
            next: None,
            start: Some(true),
            end: None,
        }],
    };

    let convo = Conversation::new(raw_talk).err();
    assert_eq!(
        convo,
        Some(ConversationError::TalkerNotFound(1, "Bob".to_string()))
    );
}

#[test]
fn talker_not_found_with_mismath_err() {
    let raw_talk = RawTalk {
        talkers: vec![Talker {
            name: "Bob".to_string(),
            asset: "bob.png".to_string(),
        }],
        lines: vec![DialogueLine {
            id: 1,
            text: "Hello".to_string(),
            talker: Some("Alice".to_string()),
            choices: None,
            next: None,
            start: Some(true),
            end: None,
        }],
    };

    let convo = Conversation::new(raw_talk).err();
    assert_eq!(
        convo,
        Some(ConversationError::TalkerNotFound(1, "Alice".to_string()))
    );
}

#[test]
fn next_line_not_found_err() {
    let raw_talk = RawTalk {
        talkers: vec![Talker {
            name: "Bob".to_string(),
            asset: "bob.png".to_string(),
        }],
        lines: vec![DialogueLine {
            id: 1,
            text: "Hello".to_string(),
            talker: Some("Bob".to_string()),
            choices: None,
            next: Some(2),
            start: Some(true),
            end: None,
        }],
    };

    let convo = Conversation::new(raw_talk).err();
    assert_eq!(convo, Some(ConversationError::NextLineNotFound(1, 2)));
}

#[test]
fn repeated_id_err() {
    let raw_talk = RawTalk {
        talkers: vec![],
        lines: vec![
            DialogueLine {
                id: 1,
                text: "Hello".to_string(),
                talker: None,
                choices: None,
                next: Some(1),
                start: Some(true),
                end: None,
            },
            DialogueLine {
                id: 1,
                text: "Whatup".to_string(),
                talker: None,
                choices: None,
                next: Some(2),
                start: None,
                end: None,
            },
        ],
    };

    let convo = Conversation::new(raw_talk).err();
    assert_eq!(convo, Some(ConversationError::RepeatedId(1)));
}

#[test]
fn no_starting_dialogue_err() {
    let raw_talk = RawTalk {
        talkers: vec![],
        lines: vec![DialogueLine {
            id: 1,
            text: "Hello".to_string(),
            talker: None,
            choices: None,
            next: None,
            start: None,
            end: None,
        }],
    };

    let convo = Conversation::new(raw_talk).err();
    assert_eq!(convo, Some(ConversationError::NoStartingDialogue));
}

#[test]
fn multiple_starting_dialogues_err() {
    let raw_talk = RawTalk {
        talkers: vec![],
        lines: vec![
            DialogueLine {
                id: 1,
                text: "Hello".to_string(),
                talker: None,
                choices: None,
                next: None,
                start: Some(true),
                end: None,
            },
            DialogueLine {
                id: 2,
                text: "Whatup".to_string(),
                talker: None,
                choices: None,
                next: None,
                start: Some(true),
                end: None,
            },
        ],
    };

    let convo = Conversation::new(raw_talk).err();
    assert_eq!(convo, Some(ConversationError::MultipleStartingDialogues));
}

#[test]
fn next_not_found_in_choice_err() {
    let raw_talk = RawTalk {
        talkers: vec![],
        lines: vec![DialogueLine {
            id: 1,
            text: "Hello".to_string(),
            talker: None,
            choices: Some(vec![Choice {
                text: "Whatup".to_string(),
                next: 2,
            }]),
            next: None,
            start: Some(true),
            end: None,
        }],
    };

    let convo = Conversation::new(raw_talk).err();
    assert_eq!(convo, Some(ConversationError::NextLineNotFound(1, 2)));
}

#[test]
fn new_with_one_dialogue() {
    let raw_talk = RawTalk {
        talkers: vec![],
        lines: vec![DialogueLine {
            id: 1,
            text: "Hello".to_string(),
            talker: None,
            choices: None,
            next: None,
            start: Some(true),
            end: None,
        }],
    };

    let convo = Conversation::new(raw_talk).unwrap();
    assert_eq!(convo.node_count(), 1);
    assert_eq!(convo.edge_count(), 0);
    assert_eq!(convo.current_index(), 0);
}

#[test]
fn new_with_two_linear_nodes() {
    let raw_talk = RawTalk {
        talkers: vec![],
        lines: vec![
            DialogueLine {
                id: 1,
                text: "Hello".to_string(),
                talker: None,
                choices: None,
                next: Some(2),
                start: Some(true),
                end: None,
            },
            DialogueLine {
                id: 2,
                text: "Whatup".to_string(),
                talker: None,
                choices: None,
                next: None,
                start: None,
                end: None,
            },
        ],
    };

    let convo = Conversation::new(raw_talk).unwrap();
    assert_eq!(convo.node_count(), 2);
    assert_eq!(convo.edge_count(), 1);
}

#[test]
fn new_with_self_loop() {
    let raw_talk = RawTalk {
        talkers: vec![],
        lines: vec![DialogueLine {
            id: 1,
            text: "Hello".to_string(),
            talker: None,
            choices: None,
            next: Some(1),
            start: Some(true),
            end: None,
        }],
    };

    let convo = Conversation::new(raw_talk).unwrap();
    assert_eq!(convo.node_count(), 1);
    assert_eq!(convo.edge_count(), 1);
}

#[test]
fn new_with_branching() {
    let raw_talk = RawTalk {
        talkers: vec![],
        lines: vec![
            DialogueLine {
                id: 1,
                text: "Hello".to_string(),
                talker: None,
                choices: Some(vec![
                    Choice {
                        text: "Choice 1".to_string(),
                        next: 2,
                    },
                    Choice {
                        text: "Choice 2".to_string(),
                        next: 3,
                    },
                ]),
                next: None,
                start: Some(true),
                end: None,
            },
            DialogueLine {
                id: 2,
                text: "Hello".to_string(),
                talker: None,
                choices: None,
                next: Some(3),
                start: None,
                end: None,
            },
            DialogueLine {
                id: 3,
                text: "Hello".to_string(),
                talker: None,
                choices: None,
                next: None,
                start: None,
                end: None,
            },
        ],
    };

    let convo = Conversation::new(raw_talk).unwrap();
    assert_eq!(convo.node_count(), 3);
    assert_eq!(convo.edge_count(), 3);
    assert_eq!(convo.current_index(), 0);
}

#[test]
fn start_need_not_be_first_line() {
    let mut second = line(20, "Second");
    second.start = Some(true);
    let talk = RawTalk {
        talkers: vec![],
        lines: vec![line(10, "First"), second],
    };
    let convo = Conversation::new(talk).unwrap();
    assert_eq!(convo.current_index(), 1);
    assert_eq!(convo.current_text(), "Second");
}

#[test]
fn first_failing_line_decides_the_error() {
    // The repeated id on the second line comes before the unknown talker on the third.
    let mut first = line(1, "a");
    first.start = Some(true);
    let mut third = line(3, "c");
    third.talker = Some("Zed".to_string());
    let talk = RawTalk {
        talkers: vec![],
        lines: vec![first, line(1, "b"), third],
    };
    assert_eq!(
        Conversation::new(talk).err(),
        Some(ConversationError::RepeatedId(1))
    );
}

#[test]
fn talker_checked_before_start_flag() {
    let mut first = line(1, "a");
    first.start = Some(true);
    let mut second = line(2, "b");
    second.start = Some(true);
    second.talker = Some("Zed".to_string());
    let talk = RawTalk {
        talkers: vec![],
        lines: vec![first, second],
    };
    assert_eq!(
        Conversation::new(talk).err(),
        Some(ConversationError::TalkerNotFound(2, "Zed".to_string()))
    );
}

#[test]
fn line_errors_come_before_missing_start() {
    let talk = RawTalk {
        talkers: vec![],
        lines: vec![line(1, "a"), line(1, "b")],
    };
    assert_eq!(
        Conversation::new(talk).err(),
        Some(ConversationError::RepeatedId(1))
    );
}

#[test]
fn missing_start_comes_before_missing_link() {
    let mut only = line(1, "a");
    only.next = Some(9);
    let talk = RawTalk {
        talkers: vec![],
        lines: vec![only],
    };
    assert_eq!(
        Conversation::new(talk).err(),
        Some(ConversationError::NoStartingDialogue)
    );
}

#[test]
fn missing_links_reported_in_line_order() {
    let mut first = line(1, "a");
    first.start = Some(true);
    first.next = Some(7);
    let mut second = line(2, "b");
    second.next = Some(8);
    let talk = RawTalk {
        talkers: vec![],
        lines: vec![first, second],
    };
    assert_eq!(
        Conversation::new(talk).err(),
        Some(ConversationError::NextLineNotFound(1, 7))
    );
}

#[test]
fn first_missing_choice_target_reported() {
    let mut first = line(1, "a");
    first.start = Some(true);
    first.choices = Some(vec![
        Choice { text: "ok".to_string(), next: 1 },
        Choice { text: "bad".to_string(), next: 5 },
        Choice { text: "worse".to_string(), next: 6 },
    ]);
    let talk = RawTalk {
        talkers: vec![],
        lines: vec![first],
    };
    assert_eq!(
        Conversation::new(talk).err(),
        Some(ConversationError::NextLineNotFound(1, 5))
    );
}

#[test]
fn next_takes_priority_over_choices() {
    let mut first = line(1, "a");
    first.start = Some(true);
    first.next = Some(2);
    first.choices = Some(vec![Choice { text: "nowhere".to_string(), next: 99 }]);
    let talk = RawTalk {
        talkers: vec![],
        lines: vec![first, line(2, "b")],
    };
    let mut convo = Conversation::new(talk).unwrap();
    assert_eq!(convo.edge_count(), 1);
    assert_eq!(
        convo.current_choices(),
        Some(vec![Choice { text: "nowhere".to_string(), next: 99 }])
    );
    assert_eq!(convo.current_kind(), NodeKind::Talk);
    assert_eq!(convo.advance(), Ok(()));
    assert_eq!(convo.current_text(), "b");
}

#[test]
fn end_flag_does_not_stop_links() {
    let mut first = line(1, "a");
    first.start = Some(true);
    first.next = Some(2);
    first.end = Some(true);
    let talk = RawTalk {
        talkers: vec![],
        lines: vec![first, line(2, "b")],
    };
    let convo = Conversation::new(talk).unwrap();
    assert_eq!(convo.edge_count(), 1);
}

#[test]
fn choices_with_same_target_give_parallel_edges() {
    let mut first = line(1, "a");
    first.start = Some(true);
    first.choices = Some(vec![
        Choice { text: "x".to_string(), next: 2 },
        Choice { text: "y".to_string(), next: 2 },
    ]);
    let talk = RawTalk {
        talkers: vec![],
        lines: vec![first, line(2, "b")],
    };
    let convo = Conversation::new(talk).unwrap();
    assert_eq!(convo.node_count(), 2);
    assert_eq!(convo.edge_count(), 2);
}

#[test]
fn duplicate_talker_names_last_one_wins() {
    let mut first = line(1, "a");
    first.start = Some(true);
    first.talker = Some("Bob".to_string());
    let talk = RawTalk {
        talkers: vec![
            Talker { name: "Bob".to_string(), asset: "old.png".to_string() },
            Talker { name: "Alice".to_string(), asset: "alice.png".to_string() },
            Talker { name: "Bob".to_string(), asset: "new.png".to_string() },
        ],
        lines: vec![first],
    };
    let convo = Conversation::new(talk).unwrap();
    assert_eq!(
        convo.current_talkers(),
        vec![Talker { name: "Bob".to_string(), asset: "new.png".to_string() }]
    );
}

#[test]
fn line_without_talker_has_none() {
    let mut first = line(1, "a");
    first.start = Some(true);
    let talk = RawTalk {
        talkers: vec![Talker { name: "Bob".to_string(), asset: "bob.png".to_string() }],
        lines: vec![first],
    };
    let convo = Conversation::new(talk).unwrap();
    assert_eq!(convo.current_talkers(), vec![]);
}
