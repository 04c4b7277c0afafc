//! What the agent behind the hooks is called: on a window or a link, in its own
//! folder, and in a sentence.

use vstd::prelude::*;
use vstd::string::*;

use crate::strings;

verus! {

/// The agent in one word, as links and folders have it.
pub open spec fn word_spec() -> Seq<char> {
    "claude_code"@.take(6)
}

pub fn word() -> (r: String)
    ensures
        r@ == word_spec(),
{
    proof {
        reveal_strlit("claude_code");
    }
    let letters = strings::chars_of("claude_code");
    let r = strings::slice(&letters, 0, 6);
    assert(r@ =~= word_spec());
    r
}

/// The agent in one word, as it signs its messages.
pub open spec fn name_spec() -> Seq<char> {
    "Claude_Code"@.take(6)
}

pub fn name() -> (r: String)
    ensures
        r@ == name_spec(),
{
    proof {
        reveal_strlit("Claude_Code");
    }
    let letters = strings::chars_of("Claude_Code");
    let r = strings::slice(&letters, 0, 6);
    assert(r@ =~= name_spec());
    r
}

/// The agent's whole name, in two words.
pub open spec fn product_spec() -> Seq<char> {
    strings::replaced("Claude_Code"@, '_', ' ')
}

pub fn product() -> (r: String)
    ensures
        r@ == product_spec(),
{
    strings::replace_char("Claude_Code", '_', ' ')
}

/// The folder below the home folder that the agent keeps its settings and its
/// transcripts in.
pub open spec fn folder_spec() -> Seq<char> {
    "."@ + word_spec()
}

pub fn folder() -> (r: String)
    ensures
        r@ == folder_spec(),
{
    strings::concat2(".", word().as_str())
}

/// The agent's settings, as a person writes the path.
pub open spec fn settings_spec() -> Seq<char> {
    "~/"@ + folder_spec() + "/settings.json"@
}

pub fn settings() -> (r: String)
    ensures
        r@ == settings_spec(),
{
    strings::concat3("~/", folder().as_str(), "/settings.json")
}

} // verus!
