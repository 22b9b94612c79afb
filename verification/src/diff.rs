//! The line diff shown when a vendored file changes, computed by `similar`.
use vstd::prelude::*;

use similar::{ChangeTag, TextDiff};

use crate::text::{chars_of, concat2, string_of};

verus! {

/// What `String::from_utf8_lossy` reads from `bytes`.
pub uninterp spec fn utf8_lossy(bytes: Seq<u8>) -> Seq<char>;

/// The change of each line that `similar::TextDiff::from_lines` finds between
/// `old` and `new`, in order: `' '` kept, `'-'` removed, `'+'` added.
pub uninterp spec fn line_changes(old: Seq<char>, new: Seq<char>) -> Seq<char>;

/// The unified diff that `similar` renders between `old` and `new`, with three
/// lines of context and the two headers.
pub uninterp spec fn unified_diff(old: Seq<char>, new: Seq<char>, old_header: Seq<char>, new_header: Seq<char>) -> Seq<char>;

/// Calls `String::from_utf8_lossy`.
#[verifier::external_body]
fn text_of_bytes(bytes: &[u8]) -> (r: String)
    ensures
        r@ == utf8_lossy(bytes@),
{
    String::from_utf8_lossy(bytes).into_owned()
}

/// Calls `TextDiff::from_lines` and reads the tag of each change of
/// `iter_all_changes`.
#[verifier::external_body]
fn change_tags(old: &str, new: &str) -> (r: Vec<char>)
    ensures
        r@ == line_changes(old@, new@),
{
    TextDiff::from_lines(old, new)
        .iter_all_changes()
        .map(|change| match change.tag() {
            ChangeTag::Equal => ' ',
            ChangeTag::Delete => '-',
            ChangeTag::Insert => '+',
        })
        .collect()
}

/// Calls `TextDiff::from_lines`, then `unified_diff` with a context radius of
/// three lines and the two headers, rendered as text.
#[verifier::external_body]
fn render_unified_diff(old: &str, new: &str, old_header: &str, new_header: &str) -> (r: String)
    ensures
        r@ == unified_diff(old@, new@, old_header@, new_header@),
{
    TextDiff::from_lines(old, new).unified_diff().context_radius(3).header(old_header, new_header).to_string()
}

/// How many times `c` occurs in `s`.
pub open spec fn count_char(s: Seq<char>, c: char) -> nat
    decreases s.len(),
{
    if s.len() == 0 {
        0
    } else {
        count_char(s.drop_last(), c) + if s.last() == c { 1nat } else { 0nat }
    }
}

proof fn lemma_count_char_bound(s: Seq<char>, c: char)
    ensures
        count_char(s, c) <= s.len(),
    decreases s.len(),
{
    if s.len() > 0 {
        lemma_count_char_bound(s.drop_last(), c);
    }
}

/// The diff of the file at `path` from its old to its new content, both read
/// as UTF-8 text: the rendered unified diff under the headers `a/path` and
/// `b/path`, and how many lines it adds and removes.
pub fn file_diff(path: &str, old: &[u8], new: &[u8]) -> (r: (String, usize, usize))
    ensures
        r.0@ == unified_diff(utf8_lossy(old@), utf8_lossy(new@), "a/"@ + path@, "b/"@ + path@),
        r.1 == count_char(line_changes(utf8_lossy(old@), utf8_lossy(new@)), '+'),
        r.2 == count_char(line_changes(utf8_lossy(old@), utf8_lossy(new@)), '-'),
{
    let old_text = text_of_bytes(old);
    let new_text = text_of_bytes(new);
    let tags = change_tags(old_text.as_str(), new_text.as_str());
    let mut additions: usize = 0;
    let mut deletions: usize = 0;
    let mut i: usize = 0;
    while i < tags.len()
        invariant
            i <= tags@.len(),
            additions == count_char(tags@.take(i as int), '+'),
            deletions == count_char(tags@.take(i as int), '-'),
        decreases tags@.len() - i,
    {
        proof {
            assert(tags@.take(i + 1).drop_last() =~= tags@.take(i as int));
            lemma_count_char_bound(tags@.take(i as int), '+');
            lemma_count_char_bound(tags@.take(i as int), '-');
        }
        if tags[i] == '+' {
            additions += 1;
        } else if tags[i] == '-' {
            deletions += 1;
        }
        i += 1;
    }
    assert(tags@.take(tags@.len() as int) =~= tags@);
    let old_header = string_of(concat2(chars_of("a/").as_slice(), chars_of(path).as_slice()).as_slice());
    let new_header = string_of(concat2(chars_of("b/").as_slice(), chars_of(path).as_slice()).as_slice());
    (render_unified_diff(old_text.as_str(), new_text.as_str(), old_header.as_str(), new_header.as_str()), additions, deletions)
}

} // verus!
