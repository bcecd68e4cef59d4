//! Authorize protocol actions and settle what their handlers answer.
use vstd::prelude::*;
use crate::authorization::Grants;
use crate::refusal::{compose, ErrorCode, Refusal};
use vstd::string::StrSliceExecFns;
use vstd::utf8::{decode_utf8, valid_utf8};

verus! {

/// An action's answer: an acknowledgement, or a value in its canonical
/// encoding.
#[derive(Debug, Clone, PartialEq, Eq)]
pub enum CommandAnswer {
    Acknowledged,
    Value(Vec<u8>),
    /// A text value.
    Text(String),
}

/// The capability check, which happens whether or not the action is one
/// this daemon can carry out: an action that costs a capability needs the
/// peer to hold it.
pub fn authorize(kind: &str, cost: Option<(i32, &str)>, grants: &Grants) -> (r: Result<(), Refusal>)
    ensures
        match cost {
            None => r is Ok,
            Some((capability, name)) => if grants.capabilities().contains(capability) {
                r is Ok
            } else {
                r matches Err(e) && e.code == ErrorCode::PermissionDenied && e.message@ == kind@ + " requires "@ + name@
            },
        },
{
    match cost {
        None => Ok(()),
        Some((capability, name)) => if grants.holds(capability) {
            Ok(())
        } else {
            let text = compose(kind, " requires ", name);
            proof {
                assert(text@ =~= kind@ + " requires "@ + name@);
            }
            Err(Refusal::denied(text))
        },
    }
}

/// What a brokered action is answered with: unimplemented when no broker
/// claims it, acknowledged when it was done, and the broker's refusal
/// otherwise.
pub fn brokered(kind: &str, outcome: Option<Result<(), Refusal>>) -> (r: Result<CommandAnswer, Refusal>)
    ensures
        match outcome {
            None => r matches Err(e) && e.code == ErrorCode::Unimplemented && e.message@ == kind@ + " is not performed by this daemon"@,
            Some(Ok(())) => r == Ok::<CommandAnswer, Refusal>(CommandAnswer::Acknowledged),
            Some(Err(refusal)) => r == Err::<CommandAnswer, Refusal>(refusal),
        },
{
    match outcome {
        None => {
            let text = compose("", kind, " is not performed by this daemon");
            proof {
                reveal_strlit("");
                assert(text@ =~= kind@ + " is not performed by this daemon"@);
            }
            Err(Refusal::unimplemented(text))
        },
        Some(Ok(())) => Ok(CommandAnswer::Acknowledged),
        Some(Err(refusal)) => Err(refusal),
    }
}

/// What std's `char::is_whitespace` holds: the Unicode `White_Space`
/// characters.
pub open spec fn white_space(c: char) -> bool {
    let n = c as u32;
    (9 <= n && n <= 13) || n == 32 || n == 0x85 || n == 0xa0 || n == 0x1680 || (0x2000 <= n && n <= 0x200a) || n == 0x2028
        || n == 0x2029 || n == 0x202f || n == 0x205f || n == 0x3000
}

fn is_white(c: char) -> (r: bool)
    ensures
        r == white_space(c),
{
    let n = c as u32;
    (9 <= n && n <= 13) || n == 32 || n == 0x85 || n == 0xa0 || n == 0x1680 || (0x2000 <= n && n <= 0x200a) || n == 0x2028
        || n == 0x2029 || n == 0x202f || n == 0x205f || n == 0x3000
}

/// How many characters remain once trailing whitespace is cut.
pub open spec fn trim_len(s: Seq<char>) -> nat
    decreases s.len(),
{
    if s.len() == 0 {
        0
    } else if white_space(s.last()) {
        trim_len(s.drop_last())
    } else {
        s.len()
    }
}

/// Text without its trailing whitespace.
pub open spec fn trimmed_end(s: Seq<char>) -> Seq<char> {
    s.take(trim_len(s) as int)
}

proof fn lemma_trim_len_bound(s: Seq<char>)
    ensures
        trim_len(s) <= s.len(),
    decreases s.len(),
{
    if s.len() > 0 {
        lemma_trim_len_bound(s.drop_last());
    }
}

/// Output bytes as text, each invalid sequence replaced.
pub uninterp spec fn lossy_text(bytes: Seq<u8>) -> Seq<char>;

/// Calls `String::from_utf8_lossy`: the bytes read as UTF-8, each invalid
/// sequence replaced by U+FFFD. Stated: the result is named by `lossy_text`,
/// is the decoding itself when the bytes are valid, and has no more
/// characters than there are bytes.
#[verifier::external_body]
fn lossy(bytes: &[u8]) -> (r: String)
    ensures
        r@ == lossy_text(bytes@),
        valid_utf8(bytes@) ==> r@ == decode_utf8(bytes@),
        r@.len() <= bytes@.len(),
{
    String::from_utf8_lossy(bytes).into_owned()
}

/// `text` without its trailing whitespace, as std's `trim_end` cuts it.
pub fn trim_end(text: &str) -> (r: String)
    requires
        text@.len() <= usize::MAX,
    ensures
        r@ == trimmed_end(text@),
{
    broadcast use vstd::string::group_string_axioms;

    let mut end: usize = 0;
    let mut i: usize = 0;
    for c in it: text.chars()
        invariant
            it.seq() == text@,
            text@.len() <= usize::MAX,
            i == it.index(),
            end == trim_len(text@.take(i as int)),
    {
        proof {
            assert(text@.take(i + 1).drop_last() =~= text@.take(i as int));
            assert(text@.take(i + 1).last() == c);
        }
        if !is_white(c) {
            end = i + 1;
        }
        i = i + 1;
    }
    proof {
        assert(text@.take(text@.len() as int) =~= text@);
        lemma_trim_len_bound(text@);
    }
    text.substring_char(0, end).to_owned()
}

/// A captured command's answer: its output as text without trailing
/// whitespace, when it exited successfully.
pub fn captured(success: bool, status: &str, stdout: &[u8]) -> (r: Result<CommandAnswer, Refusal>)
    ensures
        success ==> (r matches Ok(CommandAnswer::Text(t)) && t@ == trimmed_end(lossy_text(stdout@))),
        !success ==> (r matches Err(e) && e.code == ErrorCode::Unavailable && e.message@ == "command exited "@ + status@),
{
    if success {
        let size = stdout.len();
        let text = lossy(stdout);
        proof {
            assert(text@.len() <= size);
        }
        Ok(CommandAnswer::Text(trim_end(text.as_str())))
    } else {
        let text = compose("command exited ", status, "");
        proof {
            reveal_strlit("");
            assert(text@ =~= "command exited "@ + status@);
        }
        Err(Refusal::unavailable(text))
    }
}

} // verus!
