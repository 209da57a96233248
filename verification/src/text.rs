//! Preparing a book's raw text: runs of whitespace become single spaces and
//! every character becomes ASCII.

use vstd::prelude::*;

verus! {

/// What `regex::Regex::replace_all` returns for the regular expression
/// `pattern`, the text `haystack` and the replacement `replacement`; `None`
/// where `regex::Regex::new` rejects `pattern`.
pub uninterp spec fn regex_replaced(
    pattern: Seq<char>,
    haystack: Seq<char>,
    replacement: Seq<char>,
) -> Option<Seq<char>>;

/// What `deunicode::deunicode` returns for `text`: its transliteration into
/// ASCII.
pub uninterp spec fn transliterated(text: Seq<char>) -> Seq<char>;

/// Compiles `pattern` with `regex::Regex::new` and replaces every match in
/// `haystack` with `regex::Regex::replace_all`. Nothing is proved of the
/// result: the contract only gives it its name, and says that it is `None`
/// exactly where the pattern is rejected.
#[verifier::external_body]
fn replace_all(pattern: &str, haystack: &str, replacement: &str) -> (out: Option<String>)
    ensures
        match out {
            Some(replaced) => regex_replaced(pattern@, haystack@, replacement@) == Some(
                replaced@,
            ),
            None => regex_replaced(pattern@, haystack@, replacement@) is None,
        },
{
    match regex::Regex::new(pattern) {
        Ok(re) => Some(re.replace_all(haystack, replacement).into_owned()),
        Err(_) => None,
    }
}

/// Calls `deunicode::deunicode`. Nothing is proved of the result: the
/// contract only gives it its name.
#[verifier::external_body]
fn transliterate(text: &str) -> (out: String)
    ensures
        out@ == transliterated(text@),
{
    deunicode::deunicode(text)
}

/// The characters of `text`, in order.
pub fn characters(text: &str) -> (out: Vec<char>)
    ensures
        out@ == text@,
{
    let mut out: Vec<char> = Vec::new();
    for c in it: text.chars()
        invariant
            out@ == it.seq().take(it.index() as int),
            it.seq() == text@,
    {
        out.push(c);
    }
    out
}

/// The book that `raw` holds: every run of whitespace replaced by one space,
/// and the result transliterated into ASCII. `None` where the whitespace
/// pattern is rejected.
pub fn load_book(raw: &str) -> (book: Option<Vec<char>>)
    ensures
        match regex_replaced("\\s+"@, raw@, " "@) {
            Some(collapsed) => book matches Some(text) && text@ == transliterated(collapsed),
            None => book is None,
        },
{
    match replace_all("\\s+", raw, " ") {
        Some(collapsed) => {
            let ascii = transliterate(collapsed.as_str());
            Some(characters(ascii.as_str()))
        },
        None => None,
    }
}

} // verus!
