use studymood::email::{
    verification_html, verification_link, verification_recipients, verification_sender, verification_subject,
};

#[test]
fn link_points_at_verify_route() {
    assert_eq!(verification_link("127.0.0.1", 8081, "abc"), "http://127.0.0.1:8081/auth/verify?token=abc");
    assert_eq!(verification_link("host", 0, ""), "http://host:0/auth/verify?token=");
}

#[test]
fn html_embeds_link() {
    assert_eq!(
        verification_html("http://h:1/auth/verify?token=t"),
        "Hello! Please verify your email by clicking <a href=\"http://h:1/auth/verify?token=t\">this link</a>."
    );
}

#[test]
fn sender_subject_recipients() {
    let s = verification_sender();
    assert_eq!(s.name, "StudyMood");
    assert_eq!(s.email, "study.mood@test-p7kx4xwx6vmg9yjr.mlsender.net");
    assert_eq!(verification_subject(), "Verify Your Email Address");
    let r = verification_recipients("u@example.com");
    assert_eq!(r.len(), 1);
    assert_eq!(r[0].email, "u@example.com");
}
