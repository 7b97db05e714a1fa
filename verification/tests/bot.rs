use mcmonarch::bot::{DispatchResult, McmonarchBot, MessagePlan};
use mcmonarch::web::{delimited_string_try_into_vec, response_path, Outcome};

const PASSPHRASE: &[u8] = b"a modest passphrase";

const CONFIRM: &str = ":ok_hand: Check your email. I'm sending a verification link to that address. \n (check your spam if it doesn't show up)";
const PROBLEM: &str = ":fire_engine: Uh-oh \n Something went wrong sending your verification email. \n Try again later maybe? If this keeps happening file an issue on gitlab.\n[CS @ ODU Meta gitlab](https://git-community.cs.odu.edu/community-discord/meta/-/issues/new)";

#[test]
fn ignores_public_channel_messages() {
    assert!(McmonarchBot::should_ignore(false, false));
    let p = McmonarchBot::plan_message(false, false, "my email is a@odu.edu", 1, PASSPHRASE);
    assert!(matches!(p, MessagePlan::Ignore));
}

#[test]
fn ignores_own_messages() {
    assert!(McmonarchBot::should_ignore(true, true));
    let p = McmonarchBot::plan_message(true, true, "my email is a@odu.edu", 1, PASSPHRASE);
    assert!(matches!(p, MessagePlan::Ignore));
}

#[test]
fn handles_private_messages_from_others() {
    assert!(!McmonarchBot::should_ignore(true, false));
    let p = McmonarchBot::plan_message(true, false, "my email is a@odu.edu", 1, PASSPHRASE);
    assert!(matches!(p, MessagePlan::Dispatch { .. }));
}

#[test]
fn prompts_for_address_when_none_found() {
    let p = McmonarchBot::plan_message(true, false, "hello there", 1, PASSPHRASE);
    match p {
        MessagePlan::PromptRetry { reply } => {
            assert_eq!(
                ":confused: \n hello there doesn't look like an @odu.edu email to me.\n Can I please have your @odu.edu email address? :pray:",
                reply
            );
        }
        _ => panic!("expected a retry prompt"),
    }
}

#[test]
fn dispatch_reply_depends_on_status_only() {
    assert_eq!(
        CONFIRM,
        McmonarchBot::dispatch_reply(&DispatchResult::Responded(200))
    );
    assert_eq!(
        PROBLEM,
        McmonarchBot::dispatch_reply(&DispatchResult::Responded(500))
    );
    assert_eq!(PROBLEM, McmonarchBot::dispatch_reply(&DispatchResult::Failed));
}

#[test]
fn welcome_message_mentions_member() {
    assert_eq!(
        ":wave: <@99>\n Welcome to the CS @ ODU discord channel. \n Please make sure you review the #rules. This channel is for ODU students only. \n Could I have your @odu email address and we can get you verified?",
        McmonarchBot::welcome_message(99)
    );
}

/// The verification handshake end to end: one private message produces one
/// token-bearing email and one confirmation reply; the link built from that
/// token grants once and succeeds again on replay.
#[test]
fn private_message_verifies_end_to_end() {
    let author: u64 = 424242;
    let plan = McmonarchBot::plan_message(
        true,
        false,
        "hi, my email is person@odu.edu",
        author,
        PASSPHRASE,
    );
    let email = match plan {
        MessagePlan::Dispatch { email } => email,
        _ => panic!("expected a dispatch"),
    };
    assert_eq!("person@odu.edu", email.to);
    // the confirmation reply after the provider accepts the email
    assert_eq!(
        CONFIRM,
        McmonarchBot::dispatch_reply(&DispatchResult::Responded(200))
    );

    // the provider-side template turns the serialized variables into the
    // link payload: the decimal byte values of the token
    let payload = email
        .variables
        .strip_prefix("{\"uid\":[")
        .unwrap()
        .strip_suffix("]}")
        .unwrap()
        .to_string();

    // GET /verify/{payload}: parse, decode, grant, respond
    let mut granted: Vec<u64> = Vec::new();
    let bytes = delimited_string_try_into_vec(&payload, ",").unwrap();
    let identity = McmonarchBot::verify(bytes, PASSPHRASE).unwrap();
    assert_eq!(author, identity);
    if !granted.contains(&identity) {
        granted.push(identity);
    }
    assert_eq!(
        "mcmonarch_web/static/verified.html",
        response_path(&Outcome::Granted)
    );

    // replaying the same request succeeds again without a second grant
    let bytes = delimited_string_try_into_vec(&payload, ",").unwrap();
    let identity = McmonarchBot::verify(bytes, PASSPHRASE).unwrap();
    assert_eq!(author, identity);
    if !granted.contains(&identity) {
        granted.push(identity);
    }
    assert_eq!(vec![author], granted);
    assert_eq!(
        "mcmonarch_web/static/verified.html",
        response_path(&Outcome::Granted)
    );
}

#[test]
fn verify_rejects_garbage_bytes() {
    let r = McmonarchBot::verify(vec![9, 9, 9], PASSPHRASE);
    assert!(r.is_err());
}
