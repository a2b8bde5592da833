//! Keyword responses for chat mentions.
//!
//! A message is answered from a fixed set of patterns: greetings, a help
//! card, a liveness check, an introduction, and a fallback that echoes the
//! sender's name.  Matching is case-insensitive over the ASCII letters.

use vstd::prelude::*;
use vstd::string::StrSliceExecFns;

verus! {

/// A character with its ASCII upper-case letters lowered.
pub open spec fn lower_char(c: char) -> char {
    if 'A' <= c <= 'Z' {
        ((c as u8) + 32) as char
    } else {
        c
    }
}

/// Text with its ASCII upper-case letters lowered.
pub open spec fn lower_of(s: Seq<char>) -> Seq<char> {
    s.map_values(|c: char| lower_char(c))
}

/// Whether `p` occurs contiguously inside `s`.
pub open spec fn has_sub(s: Seq<char>, p: Seq<char>) -> bool {
    exists|i: int| 0 <= i <= s.len() - p.len() && #[trigger] s.subrange(i, i + p.len()) == p
}

/// Relies on `String::push`: appends exactly one character.
#[verifier::external_body]
pub(crate) fn push_char(s: &mut String, c: char)
    ensures
        final(s)@ == old(s)@.push(c),
{
    s.push(c);
}

/// Lower the ASCII upper-case letters of a piece of text.
#[verifier::loop_isolation(false)]
pub fn ascii_lower(s: &str) -> (r: String)
    ensures
        r@ == lower_of(s@),
{
    let n = s.unicode_len();
    let mut out = String::new();
    let mut i: usize = 0;
    while i < n
        invariant
            0 <= i <= n,
            n == s@.len(),
            out@.len() == i,
            forall|j: int| 0 <= j < i ==> out@[j] == lower_char(s@[j]),
        decreases n - i,
    {
        let c = s.get_char(i);
        let lowered: char = if c >= 'A' && c <= 'Z' {
            ((c as u8) + 32) as char
        } else {
            c
        };
        push_char(&mut out, lowered);
        i = i + 1;
    }
    proof {
        assert(out@ =~= lower_of(s@));
    }
    out
}

/// Whether `needle` occurs contiguously inside `hay`.
#[verifier::loop_isolation(false)]
pub fn contains_sub(hay: &str, needle: &str) -> (r: bool)
    ensures
        r == has_sub(hay@, needle@),
{
    let hn = hay.unicode_len();
    let pn = needle.unicode_len();
    if pn > hn {
        proof {
            assert(!has_sub(hay@, needle@));
        }
        return false;
    }
    let mut start: usize = 0;
    while start <= hn - pn
        invariant
            0 <= start <= hn - pn + 1,
            pn <= hn,
            hn == hay@.len(),
            pn == needle@.len(),
            forall|i: int|
                0 <= i < start ==> #[trigger] hay@.subrange(i, i + needle@.len()) != needle@,
        decreases hn + 1 - start,
    {
        let mut k: usize = 0;
        while k < pn && hay.get_char(start + k) == needle.get_char(k)
            invariant
                0 <= k <= pn,
                start + pn <= hn,
                forall|j: int| 0 <= j < k ==> hay@[start + j] == needle@[j],
            decreases pn - k,
        {
            k = k + 1;
        }
        if k == pn {
            proof {
                assert(hay@.subrange(start as int, start as int + needle@.len()) =~= needle@);
            }
            return true;
        }
        proof {
            assert(hay@.subrange(start as int, start as int + needle@.len()) != needle@) by {
                assert(hay@.subrange(start as int, start as int + needle@.len())[k as int]
                    == hay@[start + k]);
            }
        }
        start = start + 1;
    }
    proof {
        assert(!has_sub(hay@, needle@));
    }
    false
}

/// The greeting answer.
pub open spec fn hello_reply(username: Seq<char>, character_name: Seq<char>) -> Seq<char> {
    "\u{1F44B} Hello, "@ + username + "! I'm "@ + character_name
        + ". How can I help you today?"@
}

/// The help card.
pub open spec fn help_reply() -> Seq<char> {
    "**How I can help:**\n\u{2022} Ask me questions and I'll do my best to answer\n\u{2022} Mention me (@) in any channel to chat\n\u{2022} I'm here to assist with various tasks!\n\nWhat would you like to know?"@
}

/// The liveness answer.
pub open spec fn ping_reply() -> Seq<char> {
    "\u{1F3D3} Pong! I'm alive and responding!"@
}

/// The introduction.
pub open spec fn about_reply(character_name: Seq<char>) -> Seq<char> {
    "\u{1F44B} Hi! I'm **"@ + character_name
        + "**, an AI assistant powered by elizaOS.\n\nI'm a helpful and friendly assistant on Discord. I can answer questions, have conversations, and help with various tasks.\n\nFeel free to ask me anything!"@
}

/// The fallback answer.
pub open spec fn default_reply(username: Seq<char>) -> Seq<char> {
    "Hello "@ + username + "! I received your message. How can I assist you?"@
}

/// The answer a message gets, by the first keyword its lowered text holds:
/// a greeting, the help card, the liveness answer, the introduction, or the
/// fallback.
pub open spec fn response_of(
    content: Seq<char>,
    username: Seq<char>,
    character_name: Seq<char>,
) -> Seq<char> {
    let low = lower_of(content);
    if has_sub(low, "hello"@) || has_sub(low, "hi"@) {
        hello_reply(username, character_name)
    } else if has_sub(low, "help"@) {
        help_reply()
    } else if has_sub(low, "ping"@) {
        ping_reply()
    } else if has_sub(low, "about"@) || has_sub(low, "who are you"@) {
        about_reply(character_name)
    } else {
        default_reply(username)
    }
}

/// Answer a message: always some response, chosen by keyword.
pub fn generate_response(content: &str, username: &str, character_name: &str) -> (r: Option<
    String,
>)
    ensures
        match r {
            Some(t) => t@ == response_of(content@, username@, character_name@),
            None => false,
        },
{
    let content_lower = ascii_lower(content);
    let low = content_lower.as_str();
    if contains_sub(low, "hello") || contains_sub(low, "hi") {
        let mut t = String::from_str("\u{1F44B} Hello, ");
        t.append(username);
        t.append("! I'm ");
        t.append(character_name);
        t.append(". How can I help you today?");
        Some(t)
    } else if contains_sub(low, "help") {
        Some(
            String::from_str(
                "**How I can help:**\n\u{2022} Ask me questions and I'll do my best to answer\n\u{2022} Mention me (@) in any channel to chat\n\u{2022} I'm here to assist with various tasks!\n\nWhat would you like to know?",
            ),
        )
    } else if contains_sub(low, "ping") {
        Some(String::from_str("\u{1F3D3} Pong! I'm alive and responding!"))
    } else if contains_sub(low, "about") || contains_sub(low, "who are you") {
        let mut t = String::from_str("\u{1F44B} Hi! I'm **");
        t.append(character_name);
        t.append(
            "**, an AI assistant powered by elizaOS.\n\nI'm a helpful and friendly assistant on Discord. I can answer questions, have conversations, and help with various tasks.\n\nFeel free to ask me anything!",
        );
        Some(t)
    } else {
        let mut t = String::from_str("Hello ");
        t.append(username);
        t.append("! I received your message. How can I assist you?");
        Some(t)
    }
}

} // verus!
