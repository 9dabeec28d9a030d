//! Pre-exec policy: deny list from config.

use vstd::prelude::*;

use crate::config::PolicyConfig;
use crate::error::CoreError;
use crate::text;
use crate::text::{contains_chars, debug_text, str_chars, string_push_str};

verus! {

/// `format!("matched deny pattern: {pat:?}")`.
pub open spec fn denial_message(pat: Seq<char>) -> Seq<char> {
    "matched deny pattern: "@ + text::str_debug_text(pat)
}

/// Denies `shell` when some deny pattern is a substring of it; the message
/// names the first such pattern.
pub fn check_shell(policy: &PolicyConfig, shell: &str) -> (r: Result<(), CoreError>)
    ensures
        match r {
            Ok(()) => forall|i: int|
                0 <= i < policy.deny_substrings@.len() ==> !text::contains_text(
                    shell@,
                    #[trigger] policy.deny_substrings@[i]@,
                ),
            Err(e) => exists|i: int|
                0 <= i < policy.deny_substrings@.len() && text::contains_text(
                    shell@,
                    #[trigger] policy.deny_substrings@[i]@,
                ) && (forall|j: int|
                    0 <= j < i ==> !text::contains_text(
                        shell@,
                        #[trigger] policy.deny_substrings@[j]@,
                    )) && (e matches CoreError::PolicyDenied(m) && m@ == denial_message(
                    policy.deny_substrings@[i]@,
                )),
        },
{
    let sh = str_chars(shell);
    for i in 0..policy.deny_substrings.len()
        invariant
            sh@ == shell@,
            forall|j: int|
                0 <= j < i ==> !text::contains_text(shell@, #[trigger] policy.deny_substrings@[j]@),
    {
        let pat = &policy.deny_substrings[i];
        if contains_chars(&sh, &str_chars(pat.as_str())) {
            let mut m = "matched deny pattern: ".to_string();
            let d = debug_text(pat.as_str());
            string_push_str(&mut m, d.as_str());
            return Err(CoreError::PolicyDenied(m));
        }
    }
    Ok(())
}

} // verus!
