//! Which licence token the editor opens with.

use vstd::prelude::*;

use crate::text;

verus! {

/// The token in a file: its text without white space around it, unless nothing
/// is left.
pub open spec fn token_in(contents: Option<Seq<char>>) -> Option<Seq<char>> {
    match contents {
        Some(s) => if text::trimmed(s).len() > 0 {
            Some(text::trimmed(s))
        } else {
            None
        },
        None => None,
    }
}

/// The token of the plug-in itself, or else that of the suite.
pub open spec fn chosen(own: Option<Seq<char>>, suite: Option<Seq<char>>) -> Option<Seq<char>> {
    match token_in(own) {
        Some(t) => Some(t),
        None => token_in(suite),
    }
}

/// The text of a file that could be read.
pub open spec fn read(contents: Option<&str>) -> Option<Seq<char>> {
    match contents {
        Some(s) => Some(s@),
        None => None,
    }
}

/// The text of a token.
pub open spec fn token_text(token: Option<String>) -> Option<Seq<char>> {
    match token {
        Some(t) => Some(t@),
        None => None,
    }
}

/// The token in a file that could be read.
fn find_token(contents: Option<&str>) -> (r: Option<String>)
    ensures
        token_text(r) == token_in(read(contents)),
{
    match contents {
        Some(s) => {
            let t = text::trim(s);
            if t.len() > 0 {
                Some(text::from_chars(t.as_slice()))
            } else {
                None
            }
        },
        None => None,
    }
}

/// The token to open with, from the file that the plug-in writes after login,
/// and from the one that the suite writes, so that users who are logged into the
/// suite need no login of their own here.
pub fn load_token(own: Option<&str>, suite: Option<&str>) -> (r: Option<String>)
    ensures
        token_text(r) == chosen(read(own), read(suite)),
{
    match find_token(own) {
        Some(t) => Some(t),
        None => find_token(suite),
    }
}

/// The plug-in's own token comes first, and that of the suite where there is none:
/// a file that is missing, empty or blank holds none.
pub proof fn law_the_own_token_comes_first(own: Seq<char>, suite: Option<Seq<char>>)
    ensures
        !text::all_white(own) ==> chosen(Some(own), suite) == Some(text::trimmed(own)),
        text::all_white(own) ==> chosen(Some(own), suite) == chosen(None, suite),
        chosen(None, None) is None,
        suite matches Some(s) ==> (!text::all_white(s) ==> chosen(None, suite) == Some(
            text::trimmed(s),
        )) && (text::all_white(s) ==> chosen(None, suite) is None),
{
    lemma_blank(own);
    if let Some(s) = suite {
        lemma_blank(s);
    }
}

/// Nothing is left of a blank text, and something of any other.
proof fn lemma_blank(s: Seq<char>)
    ensures
        text::all_white(s) <==> text::trimmed(s).len() == 0,
{
    let (a, b) = text::law_trimming_cuts_white_space_only(s);
    let t = text::trimmed(s);
    if t.len() == 0 {
        assert forall|i: int| 0 <= i < s.len() implies text::is_white_space(#[trigger] s[i]) by {
            if i < a.len() {
                assert(s[i] == a[i]);
            } else {
                assert(s[i] == b[i - a.len()]);
            }
        }
    } else {
        assert(s[a.len() as int] == t[0]);
    }
}

/// A token holds no white space at its ends, and is what the file holds besides it.
pub proof fn law_a_token_is_what_the_file_holds(contents: Seq<char>)
    requires
        token_in(Some(contents)) is Some,
    ensures
        ({
            let t = token_in(Some(contents))->Some_0;
            &&& t.len() > 0
            &&& !text::is_white_space(t[0])
            &&& !text::is_white_space(t.last())
            &&& text::contains_text(contents, t)
        }),
{
    let (a, b) = text::law_trimming_cuts_white_space_only(contents);
    text::law_a_text_stands_in_what_is_put_around_it(a, text::trimmed(contents), b);
}

}
