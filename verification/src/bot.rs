//! Chat-side orchestration.
//!
//! Every incoming message is decided here, as a pure function of the event
//! and the configuration: filtered out, answered with a retry prompt, or
//! turned into an outbound verification email. The chat transport itself
//! (receiving events, sending replies and reactions, the provider call that
//! delivers the email) stays outside and acts on the returned plan.

use vstd::prelude::*;

use crate::codec::{decode, decode_spec, decrypt_of, lemma_token_round_trip, CryptoError};
use crate::digits::{chars_are_ascii_bytes, dec_bytes_of, lemma_ascii_chars_encode, u64_to_string};
use crate::mailer::{
    from_address, has_email, is_first_email, json_uid_bytes, lemma_first_email_self,
    lemma_first_email_unique, subject_line, template_name, Email, EmailVariables,
};

verus! {

/// The chat listener. It carries no state of its own: every decision is a
/// pure function of the incoming event and the configuration handed in.
pub struct McmonarchBot;

/// What the chat side decides to do with one incoming message.
pub enum MessagePlan {
    /// Message filtered out: no reply, no dispatch.
    Ignore,
    /// No restricted-domain address in the text: reply asking for one.
    PromptRetry { reply: String },
    /// Acknowledge the message and hand `email` to the provider; the reply
    /// then depends on the dispatch outcome, see
    /// [`McmonarchBot::dispatch_reply`].
    Dispatch { email: Email },
}

/// Start of the retry prompt, before the echoed message text.
pub open spec fn prompt_prefix() -> Seq<char> {
    ":confused: \n "@
}

/// End of the retry prompt, after the echoed message text.
pub open spec fn prompt_suffix() -> Seq<char> {
    " doesn't look like an @odu.edu email to me.\n Can I please have your @odu.edu email address? :pray:"@
}

/// The confirmation reply after a successful dispatch.
pub open spec fn confirm_reply() -> Seq<char> {
    ":ok_hand: Check your email. I'm sending a verification link to that address. \n (check your spam if it doesn't show up)"@
}

/// The apology-and-escalation reply after a failed dispatch.
pub open spec fn problem_reply() -> Seq<char> {
    ":fire_engine: Uh-oh \n Something went wrong sending your verification email. \n Try again later maybe? If this keeps happening file an issue on gitlab.\n[CS @ ODU Meta gitlab](https://git-community.cs.odu.edu/community-discord/meta/-/issues/new)"@
}

/// Start of the welcome direct message, before the member mention.
pub open spec fn welcome_prefix() -> Seq<char> {
    ":wave: <@"@
}

/// End of the welcome direct message, after the member mention.
pub open spec fn welcome_suffix() -> Seq<char> {
    ">\n Welcome to the CS @ ODU discord channel. \n Please make sure you review the #rules. This channel is for ODU students only. \n Could I have your @odu email address and we can get you verified?"@
}

/// What came back from handing an email to the provider: an HTTP status,
/// or no response at all.
#[derive(Clone, Copy, Debug, PartialEq, Eq, Structural)]
pub enum DispatchResult {
    /// The provider answered with this HTTP status code.
    Responded(u16),
    /// The provider call itself failed.
    Failed,
}

impl McmonarchBot {
    /// The bot ignores
    ///     1. messages sent outside of a private channel (DMs)
    ///     2. its own messages
    pub fn should_ignore(is_private: bool, is_own: bool) -> (b: bool)
        ensures
            b == (!is_private || is_own),
    {
        !is_private || is_own
    }

    /// The verification capability's decode step: recovers the identity a
    /// token was issued for, under the configured passphrase. Granting the
    /// privilege to that identity is the caller's next step.
    pub fn verify(data: Vec<u8>, passphrase: &[u8]) -> (r: Result<u64, CryptoError>)
        ensures
            r matches Ok(i) ==> decode_spec(data@, passphrase@) == Some(i),
            r is Ok <==> decode_spec(data@, passphrase@) is Some,
            r == Err::<u64, CryptoError>(CryptoError::Integrity) <==> decrypt_of(
                data@,
                passphrase@,
            ) is None,
            r == Err::<u64, CryptoError>(CryptoError::Malformed) <==> (decrypt_of(
                data@,
                passphrase@,
            ) is Some && decode_spec(data@, passphrase@) is None),
    {
        decode(data.as_slice(), passphrase)
    }

    /// Decides one incoming chat message.
    ///
    /// A message is ignored unless it is a private message from someone
    /// else. Otherwise: if its text holds a restricted-domain address, the
    /// plan is to dispatch a verification email to the first such address,
    /// carrying a token that decodes back to `author_id`; if not, the plan
    /// is a reply that echoes the text and asks for an address.
    pub fn plan_message(
        is_private: bool,
        is_own: bool,
        content: &str,
        author_id: u64,
        passphrase: &[u8],
    ) -> (p: MessagePlan)
        ensures
            (p is Ignore) <==> (!is_private || is_own),
            (is_private && !is_own && !has_email(content@)) ==> (p matches
                MessagePlan::PromptRetry { reply } && reply@ == prompt_prefix() + content@
                + prompt_suffix()),
            (is_private && !is_own && has_email(content@)) ==> (p matches MessagePlan::Dispatch {
                email,
            } && is_first_email(content@, email.to@) && email.from@ == from_address()
                && email.subject@ == subject_line() && email.template@ == template_name() && (
            exists|tok: Seq<u8>|
                chars_are_ascii_bytes(email.variables@, json_uid_bytes(tok)) && decode_spec(
                    tok,
                    passphrase@,
                ) == Some(author_id))),
    {
        if McmonarchBot::should_ignore(is_private, is_own) {
            return MessagePlan::Ignore;
        }
        match Email::extract_odu_email(content) {
            None => {
                let mut reply = String::new();
                reply.append(":confused: \n ");
                reply.append(content);
                reply.append(
                    " doesn't look like an @odu.edu email to me.\n Can I please have your @odu.edu email address? :pray:",
                );
                proof {
                    assert(reply@ =~= prompt_prefix() + content@ + prompt_suffix());
                }
                MessagePlan::PromptRetry { reply }
            },
            Some(addr) => {
                let uid_str = u64_to_string(author_id);
                let vars = EmailVariables::new(uid_str.as_str(), passphrase);
                let ghost tok = vars.uid@;
                proof {
                    lemma_ascii_chars_encode(uid_str@, dec_bytes_of(author_id as nat));
                    lemma_token_round_trip(tok, passphrase@, author_id);
                    lemma_first_email_self(content@, addr@);
                }
                match Email::new(addr, vars) {
                    Ok(email) => {
                        proof {
                            lemma_first_email_unique(addr@, email.to@, addr@);
                        }
                        MessagePlan::Dispatch { email }
                    },
                    Err(_) => {
                        // unreachable: an extracted address always holds an address
                        proof {
                            assert(false);
                        }
                        MessagePlan::Ignore
                    },
                }
            },
        }
    }

    /// The reply after a dispatch attempt: confirmation when the provider
    /// accepted the email, the apology with an escalation path for any
    /// other status and for a failed call.
    pub fn dispatch_reply(result: &DispatchResult) -> (r: String)
        ensures
            (result matches DispatchResult::Responded(s) && s == 200) ==> r@ == confirm_reply(),
            !(result matches DispatchResult::Responded(s) && s == 200) ==> r@ == problem_reply(),
    {
        let ok = match result {
            DispatchResult::Responded(s) => *s == 200,
            DispatchResult::Failed => false,
        };
        if ok {
            String::from_str(
                ":ok_hand: Check your email. I'm sending a verification link to that address. \n (check your spam if it doesn't show up)",
            )
        } else {
            String::from_str(
                ":fire_engine: Uh-oh \n Something went wrong sending your verification email. \n Try again later maybe? If this keeps happening file an issue on gitlab.\n[CS @ ODU Meta gitlab](https://git-community.cs.odu.edu/community-discord/meta/-/issues/new)",
            )
        }
    }

    /// The welcome direct message for a newly joined member: a greeting, the
    /// member's mention, and the invitation to send an address.
    pub fn welcome_message(user_id: u64) -> (r: String)
        ensures
            exists|mid: Seq<char>|
                r@ == welcome_prefix() + mid + welcome_suffix() && chars_are_ascii_bytes(
                    mid,
                    dec_bytes_of(user_id as nat),
                ),
    {
        let digits = u64_to_string(user_id);
        let mut r = String::new();
        r.append(":wave: <@");
        r.append(digits.as_str());
        r.append(
            ">\n Welcome to the CS @ ODU discord channel. \n Please make sure you review the #rules. This channel is for ODU students only. \n Could I have your @odu email address and we can get you verified?",
        );
        proof {
            assert(r@ =~= welcome_prefix() + digits@ + welcome_suffix());
            assert(r@ == welcome_prefix() + digits@ + welcome_suffix() && chars_are_ascii_bytes(
                digits@,
                dec_bytes_of(user_id as nat),
            ));
        }
        r
    }
}

} // verus!
