use websocket::protocol::{AuthError, Color, NICKNAME_MAX_LEN};
use websocket::ui::{Focus, Mode, Urgency};

#[test]
fn urgency_icons() {
    assert_eq!(Urgency::Info.icon(), "\u{e66a}");
    assert_eq!(Urgency::Warning.icon(), "\u{f421}");
    assert_eq!(Urgency::Error.icon(), "\u{ea87}");
}

#[test]
fn focus_alternates() {
    assert_eq!(Focus::default(), Focus::Input);
    assert_eq!(Focus::Input.next(), Focus::Colors);
    assert_eq!(Focus::Colors.next(), Focus::Input);
}

#[test]
fn defaults() {
    assert_eq!(Mode::default(), Mode::Normal);
    assert_eq!(Color::default(), Color::Text);
    assert_eq!(NICKNAME_MAX_LEN, 16);
    assert_ne!(AuthError::NicknameTooLong, AuthError::NicknameUnavailable);
}

use websocket::censor::censor_string;

#[test]
fn censor_hides_whole_bad_words() {
    assert_eq!(censor_string("I have a job offer"), "I have a ### #####");
    assert_eq!(censor_string("JOB-hr_x\nmilky Cow"), "###-##_x\nmilky ###");
    assert_eq!(censor_string("jobs  work"), "jobs  ####");
    assert_eq!(censor_string(""), "");
    assert_eq!(censor_string("--"), "--");
    assert_eq!(censor_string("héllo dairy"), "héllo #####");
}
