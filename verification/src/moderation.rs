//! Banned-word moderation: how messages and banned words are normalised,
//! which banned words a message contains, and what the author and the log
//! channel are told.
use vstd::prelude::*;
use crate::text::{to_lowercase, lowercase, remove_spaces, without_spaces, contains_text, contains_text_spec};
use crate::text::string_views;
use crate::message::{push, push_italic, push_bold, push_line, push_user_mention, italic, bold, newline, user_mention};

verus! {

/// A message as it is compared with the banned words: in lower case, with
/// every space removed.
pub open spec fn normalized(content: Seq<char>) -> Seq<char> {
    without_spaces(lowercase(content))
}

/// Puts a message in the form it is compared in.
pub fn normalize_message(content: &str) -> (res: String)
    ensures
        res@ == normalized(content@),
{
    let lower = to_lowercase(content);
    remove_spaces(lower.as_str())
}

/// Puts a banned word in the form it is stored in: lower case.
pub fn normalize_banned_word(word: &str) -> (res: String)
    ensures
        res@ == lowercase(word@),
{
    to_lowercase(word)
}

/// The banned words that occur in `content`, in the order of the list.
pub open spec fn offending(content: Seq<char>, words: Seq<Seq<char>>) -> Seq<Seq<char>> {
    words.filter(|w: Seq<char>| contains_text_spec(content, w))
}

/// The banned words that occur in `content`, in the order of the list; a
/// word listed twice is reported twice.
pub fn offending_words(content: &str, words: &Vec<String>) -> (res: Vec<String>)
    ensures
        string_views(res@) == offending(content@, string_views(words@)),
{
    let mut res: Vec<String> = Vec::new();
    let n = words.len();
    let mut i: usize = 0;
    while i < n
        invariant
            i <= n,
            n == words@.len(),
            string_views(res@) == offending(content@, string_views(words@.take(i as int))),
        decreases n - i,
    {
        let ghost ws = string_views(words@.take(i + 1));
        let ghost before = res@;
        proof {
            reveal_with_fuel(Seq::<_>::filter, 1);
            assert(ws.drop_last() =~= string_views(words@.take(i as int)));
            assert(ws.last() == words@[i as int]@);
        }
        if contains_text(content, words[i].as_str()) {
            res.push(words[i].clone());
            assert(string_views(res@) =~= string_views(before).push(words@[i as int]@));
        }
        i = i + 1;
    }
    assert(words@.take(n as int) =~= words@);
    res
}

/// A message is reported exactly when some banned word occurs in it, and
/// every word reported is banned and occurs in it.
pub proof fn lemma_flagged_iff_contains(content: Seq<char>, words: Seq<Seq<char>>)
    ensures
        offending(content, words).len() > 0 <==> exists|i: int|
            0 <= i < words.len() && contains_text_spec(content, #[trigger] words[i]),
        forall|w: Seq<char>| #[trigger] offending(content, words).contains(w) ==> words.contains(w)
            && contains_text_spec(content, w),
    decreases words.len(),
{
    reveal_with_fuel(Seq::<_>::filter, 1);
    let pred = |w: Seq<char>| contains_text_spec(content, w);
    if words.len() > 0 {
        let p = words.drop_last();
        lemma_flagged_iff_contains(content, p);
        if exists|i: int| 0 <= i < words.len() && contains_text_spec(content, #[trigger] words[i]) {
            let i = choose|i: int| 0 <= i < words.len() && contains_text_spec(content, #[trigger] words[i]);
            if i < words.len() - 1 {
                assert(p[i] == words[i]);
            }
        }
        if offending(content, words).len() > 0 && !pred(words.last()) {
            let i = choose|i: int| 0 <= i < p.len() && contains_text_spec(content, #[trigger] p[i]);
            assert(words[i] == p[i]);
        }
        assert forall|w: Seq<char>| #[trigger] offending(content, words).contains(w) implies words.contains(w)
            && contains_text_spec(content, w) by {
            if pred(words.last()) && w == words.last() {
                assert(words[words.len() - 1] == w);
            } else {
                let j = choose|j: int| 0 <= j < offending(content, words).len() && offending(content, words)[j] == w;
                if pred(words.last()) {
                    assert(j < offending(content, p).len());
                    assert(offending(content, p)[j] == w);
                }
                assert(offending(content, p).contains(w));
                let k = choose|k: int| 0 <= k < p.len() && p[k] == w;
                assert(words[k] == w);
            }
        }
    }
}

/// A banned word is reported wherever it stands in the message, at its
/// very start included.
pub proof fn lemma_banned_word_anywhere_is_reported(
    before: Seq<char>,
    word: Seq<char>,
    after: Seq<char>,
    words: Seq<Seq<char>>,
    i: int,
)
    requires
        0 <= i < words.len(),
        words[i] == word,
    ensures
        offending(before + word + after, words).contains(word),
{
    let content = before + word + after;
    crate::text::lemma_contains_text_of_split(before, word, after);
    let pred = |w: Seq<char>| contains_text_spec(content, w);
    assert(pred(words[i]));
    words.lemma_filter_contains(pred, i);
}

/// What the author `author` is told when their message used `word`.
pub fn banned_word_notice(author: u64, word: &str) -> (res: String)
    ensures
        res@ == user_mention(author) + " you cannot say "@ + italic(word@),
{
    let r = push_user_mention(String::new(), author);
    let r = push(r, " you cannot say ");
    push_italic(r, word)
}

/// What the log channel is told about the author `author` and the message
/// `content` that was removed.
pub fn banned_word_report(author: u64, content: &str) -> (res: String)
    ensures
        res@ == user_mention(author) + " said bad things:"@ + newline() + bold(content@),
{
    let r = push_user_mention(String::new(), author);
    let r = push_line(r, " said bad things:");
    push_bold(r, content)
}

} // verus!
