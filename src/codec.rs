use vstd::prelude::*;

verus! {

/// What `char::is_whitespace` (the Unicode `White_Space` property) says of `c`.
pub uninterp spec fn whitespace_of(c: char) -> bool;

/// Relies on `char::is_whitespace`: the Unicode `White_Space` property,
/// which holds of space, tab, line feed and carriage return.
#[verifier::external_body]
fn is_whitespace(c: char) -> (r: bool)
    ensures
        r == whitespace_of(c),
        c == ' ' || c == '\t' || c == '\n' || c == '\r' ==> r,
{
    c.is_whitespace()
}

/// `s` holds whitespace only (or nothing).
pub open spec fn blank(s: Seq<char>) -> bool {
    forall|i: int| 0 <= i < s.len() ==> whitespace_of(#[trigger] s[i])
}

/// Whether `s` holds whitespace only: trimmed, it is empty.
pub fn is_blank(s: &str) -> (r: bool)
    ensures
        r == blank(s@),
{
    let n = s.unicode_len();
    let mut i: usize = 0;
    while i < n
        invariant
            n == s@.len(),
            i <= n,
            forall|k: int| 0 <= k < i ==> whitespace_of(#[trigger] s@[k]),
        decreases n - i,
    {
        if !is_whitespace(s.get_char(i)) {
            return false;
        }
        i += 1;
    }
    true
}

/// What loading a collection file has to do next.
#[derive(Debug, PartialEq, Eq, Structural)]
pub enum LoadStep {
    /// The file does not exist: create it empty; the collection is empty.
    Bootstrap,
    /// The file holds whitespace only: the collection is empty.
    Empty,
    /// The file holds data: parse it as a list; a parse failure is an error.
    Parse,
}

/// Decides how a collection is loaded from its file, given the file's
/// contents, or `None` where the file does not exist.
pub fn plan_load(contents: Option<&str>) -> (r: LoadStep)
    ensures
        contents is None ==> r == LoadStep::Bootstrap,
        contents matches Some(c) ==> (blank(c@) ==> r == LoadStep::Empty),
        contents matches Some(c) ==> (!blank(c@) ==> r == LoadStep::Parse),
{
    match contents {
        None => LoadStep::Bootstrap,
        Some(c) => if is_blank(c) {
            LoadStep::Empty
        } else {
            LoadStep::Parse
        },
    }
}

} // verus!
