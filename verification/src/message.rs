//! Formatting of the notification message.
//!
//! The message sent to the webhook wraps the extracted changelog entry
//! with an optional leading and an optional trailing line of free text.

use vstd::prelude::*;
use vstd::string::StringExecFns;

verus! {

/// The notification message: the text before, the entry, and the text
/// after, separated by blank lines and ended with a newline.
pub open spec fn spec_message(
    before: Seq<char>,
    entry: Seq<char>,
    after: Seq<char>,
) -> Seq<char> {
    before + "\n\n"@ + entry + "\n\n"@ + after + "\n"@
}

/// Wraps a changelog entry with the optional leading and trailing
/// message text.
pub fn format_notification_message(before: &str, entry: &str, after: &str) -> (m: String)
    ensures
        m@ == spec_message(before@, entry@, after@),
{
    let mut m = String::new();
    m.append(before);
    m.append("\n\n");
    m.append(entry);
    m.append("\n\n");
    m.append(after);
    m.append("\n");
    proof {
        assert(m@ == spec_message(before@, entry@, after@)) by {
            assert(m@ =~= before@ + "\n\n"@ + entry@ + "\n\n"@ + after@ + "\n"@);
        }
    }
    m
}

} // verus!
