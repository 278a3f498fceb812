//! The account-verification e-mail.

use vstd::prelude::*;
use crate::text::{ascii_chars, ascii_string, decimal, lemma_decimal_digits, push_decimal};

verus! {

/// Who an e-mail comes from.
pub struct Sender {
    pub name: String,
    pub email: String,
}

/// Who an e-mail goes to.
pub struct Recipient {
    pub email: String,
}

/// The port as decimal text.
fn port_text(port: u16) -> (s: String)
    ensures
        s@ == ascii_chars(decimal(port as nat)),
{
    let mut out: Vec<u8> = Vec::new();
    push_decimal(&mut out, port as u64);
    proof {
        lemma_decimal_digits(port as nat);
    }
    ascii_string(out)
}

/// `http://<ip>:<port>/auth/verify?token=<token>`
pub open spec fn spec_verification_link(ip: Seq<char>, port: u16, token: Seq<char>) -> Seq<char> {
    "http://"@ + ip + ":"@ + ascii_chars(decimal(port as nat)) + "/auth/verify?token="@ + token
}

/// The link that verifies an account, served by this host and port.
pub fn verification_link(ip: &str, port: u16, token: &str) -> (res: String)
    ensures
        res@ == spec_verification_link(ip@, port, token@),
{
    let mut link = String::from_str("http://");
    link.append(ip);
    link.append(":");
    let p = port_text(port);
    link.append(p.as_str());
    link.append("/auth/verify?token=");
    link.append(token);
    link
}

/// The HTML body of the verification e-mail.
pub open spec fn spec_verification_html(link: Seq<char>) -> Seq<char> {
    "Hello! Please verify your email by clicking <a href=\""@ + link + "\">this link</a>."@
}

/// The HTML body of the verification e-mail, pointing at `link`.
pub fn verification_html(link: &str) -> (res: String)
    ensures
        res@ == spec_verification_html(link@),
{
    let mut html = String::from_str("Hello! Please verify your email by clicking <a href=\"");
    html.append(link);
    html.append("\">this link</a>.");
    html
}

/// The sender of the service's e-mails.
pub fn verification_sender() -> (res: Sender)
    ensures
        res.name@ == "StudyMood"@,
        res.email@ == "study.mood@test-p7kx4xwx6vmg9yjr.mlsender.net"@,
{
    Sender {
        name: String::from_str("StudyMood"),
        email: String::from_str("study.mood@test-p7kx4xwx6vmg9yjr.mlsender.net"),
    }
}

/// The subject line of the verification e-mail.
pub fn verification_subject() -> (res: String)
    ensures
        res@ == "Verify Your Email Address"@,
{
    String::from_str("Verify Your Email Address")
}

/// The one recipient of a verification e-mail.
pub fn verification_recipients(email: &str) -> (res: Vec<Recipient>)
    ensures
        res@.len() == 1,
        res@[0].email@ == email@,
{
    let mut to: Vec<Recipient> = Vec::new();
    to.push(Recipient { email: String::from_str(email) });
    to
}

} // verus!
