use stip::prompt::{
    begin_selection, continue_selection, prompt_in_range, Answer, Asked, PasswordWindow, Prompt,
    Selection, MAX_TRIES,
};

#[test]
fn a_number_in_range_is_taken() {
    let prompt = Prompt { min: 1, max: 4, tries_left: 3 };
    assert_eq!(prompt_in_range(prompt, Answer::Number(1)), Asked::Value(1));
    assert_eq!(prompt_in_range(prompt, Answer::Number(4)), Asked::Value(4));
    assert_eq!(prompt_in_range(prompt, Answer::Number(0)), Asked::Retry(Prompt { min: 1, max: 4, tries_left: 2 }));
    assert_eq!(prompt_in_range(prompt, Answer::Number(5)), Asked::Retry(Prompt { min: 1, max: 4, tries_left: 2 }));
    assert_eq!(prompt_in_range(prompt, Answer::Unreadable), Asked::Retry(Prompt { min: 1, max: 4, tries_left: 2 }));
    assert_eq!(prompt_in_range(prompt, Answer::Interrupted), Asked::GiveUp);
}

#[test]
fn the_question_is_put_three_times_at_most() {
    assert_eq!(MAX_TRIES, 3);
    let mut prompt = match begin_selection(5) {
        Selection::Ask(prompt) => prompt,
        other => panic!("expected a question, got {:?}", other),
    };
    assert_eq!(prompt, Prompt { min: 1, max: 5, tries_left: 3 });
    let mut asked = 1;
    loop {
        match continue_selection(prompt, Answer::Unreadable) {
            Selection::Ask(next) => {
                asked += 1;
                prompt = next;
            }
            Selection::Abandoned => break,
            Selection::Entry(index) => panic!("nothing was chosen, got {}", index),
        }
    }
    assert_eq!(asked, 3);
    assert_eq!(prompt_in_range(Prompt { min: 1, max: 5, tries_left: 1 }, Answer::Number(9)), Asked::GiveUp);
    assert_eq!(prompt_in_range(Prompt { min: 1, max: 5, tries_left: 0 }, Answer::Number(9)), Asked::GiveUp);
    assert_eq!(prompt_in_range(Prompt { min: 1, max: 5, tries_left: 0 }, Answer::Number(5)), Asked::Value(5));
}

#[test]
fn the_choice_names_an_entry_from_zero() {
    assert_eq!(begin_selection(0), Selection::Abandoned);
    assert_eq!(begin_selection(1), Selection::Entry(0));
    let prompt = Prompt { min: 1, max: 3, tries_left: 3 };
    assert_eq!(begin_selection(3), Selection::Ask(prompt));
    assert_eq!(continue_selection(prompt, Answer::Number(1)), Selection::Entry(0));
    assert_eq!(continue_selection(prompt, Answer::Number(3)), Selection::Entry(2));
    assert_eq!(continue_selection(prompt, Answer::Number(4)), Selection::Ask(Prompt { min: 1, max: 3, tries_left: 2 }));
    assert_eq!(continue_selection(prompt, Answer::Interrupted), Selection::Abandoned);
}

#[test]
fn the_password_window_remembers_a_failure() {
    let window = PasswordWindow::open();
    assert_eq!(window, PasswordWindow { select: true, failure: false, password: String::new() });
    let mut typed = window;
    typed.select = false;
    typed.password.push_str("demopass");
    let failed = typed.failed();
    assert_eq!(failed, PasswordWindow { select: true, failure: true, password: "demopass".to_string() });
    assert_eq!(failed.clone().failed(), failed);
}
