use rust_design_pattern::behavioral_patterns::strategy::{Mail, Noticer, Report, SMS};

#[test]
fn case1() {
    let mail = Mail { address: "foo@example.com".to_string(), subject: "Payment Report".to_string() };
    let sut = Report::new(mail);
    assert_eq!(
        sut.notice("success."),
        "Sent Mail to foo@example.com ( Payment Report ) [ message = success. ]"
    );
}

#[test]
fn mod_case2() {
    let sms = SMS { number: "090-1234-5678".to_string() };
    let sut = Report::new(sms);
    assert_eq!(sut.notice("success."), "Sent SMS to 090-1234-5678 [ message = success. ]");
}

#[test]
fn noticers_without_a_report() {
    let mail = Mail { address: String::new(), subject: String::new() };
    assert_eq!(mail.notice(""), "Sent Mail to  (  ) [ message =  ]");
    let sms = SMS { number: "1".to_string() };
    assert_eq!(sms.notice("a b"), "Sent SMS to 1 [ message = a b ]");
}
