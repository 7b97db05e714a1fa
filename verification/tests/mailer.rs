use mcmonarch::mailer::{Email, EmailError, EmailVariables};

#[test]
fn extracts_odu_valid_email() {
    let expected = Some("monarchsrule@odu.edu");

    assert_eq!(expected, Email::extract_odu_email("monarchsrule@odu.edu"));
    assert_eq!(
        expected,
        Email::extract_odu_email("my email is monarchsrule@odu.edu")
    );
    assert_eq!(
        expected,
        Email::extract_odu_email("monarchsrule@odu.edu. hmu!! 💝")
    );
    assert_eq!(
        expected,
        Email::extract_odu_email("my email is monarchsrule@odu.edu cash me outside")
    );
}

#[test]
fn fails_invalid_odu_email() {
    assert_eq!(None, Email::extract_odu_email(""));
    assert_eq!(None, Email::extract_odu_email("i_love_guac@hotmail.com"));
    assert_eq!(None, Email::extract_odu_email("rustrules"));
    assert_eq!(None, Email::extract_odu_email("rustrules@"));
    assert_eq!(None, Email::extract_odu_email("rustrules@odu"));
    assert_eq!(None, Email::extract_odu_email("rustrules@odu."));
    assert_eq!(None, Email::extract_odu_email("rustrules@odu.ed"));
}

#[test]
fn extracts_first_of_several_addresses() {
    assert_eq!(
        Some("first@odu.edu"),
        Email::extract_odu_email("first@odu.edu and second@odu.edu")
    );
    assert_eq!(
        Some("a@odu.edu"),
        Email::extract_odu_email("b@hotmail.com then a@odu.edu")
    );
}

#[test]
fn extraction_takes_maximal_local_part() {
    // the local part extends left as far as allowed characters go
    assert_eq!(
        Some("not.b@odu.edu"),
        Email::extract_odu_email("a not.b@odu.edu")
    );
    // text directly after the domain is not part of the match
    assert_eq!(
        Some("a@odu.edu"),
        Email::extract_odu_email("a@odu.education")
    );
}

#[test]
fn email_new_builds_fixed_fields_and_serialized_variables() {
    let passphrase = b"a modest passphrase";
    let vars = EmailVariables::new("1234", passphrase);
    let expected_vars: String = {
        let inner: Vec<String> = vars.uid.iter().map(|b| format!("{}", b)).collect();
        format!("{{\"uid\":[{}]}}", inner.join(","))
    };
    let email = Email::new("my email is person@odu.edu thanks!", vars).unwrap();
    assert_eq!("person@odu.edu", email.to);
    assert_eq!(
        "CS @ ODU Discord <postmaster@mg.odu-cs-community.codes>",
        email.from
    );
    assert_eq!("Verify your email", email.subject);
    assert_eq!("odu-cs-monarch-verify", email.template);
    assert_eq!(expected_vars, email.variables);
}

#[test]
fn email_new_rejects_text_without_address() {
    let vars = EmailVariables::new("1234", b"a modest passphrase");
    let r = Email::new("no address in here", vars);
    assert!(matches!(r, Err(EmailError::AddressNotFound)));
}
