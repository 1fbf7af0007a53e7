//! Words of task descriptions, as used to match a task against the tasks
//! of earlier missions.

use vstd::prelude::*;
use crate::text::{chars_of, lowercase, string_from_chars, to_lowercase};

verus! {

broadcast use vstd::string::group_string_axioms;

/// What `char::is_alphanumeric` returns for a character: whether Unicode
/// counts it as alphabetic or numeric, a function of the character alone.
pub uninterp spec fn alphanumeric(c: char) -> bool;

/// `char::is_alphanumeric`. The contract names its result and says nothing
/// more of the Unicode properties it consults.
#[verifier::external_body]
fn is_alphanumeric(c: char) -> (b: bool)
    ensures
        b == alphanumeric(c),
{
    c.is_alphanumeric()
}

/// Characters that separate words: neither alphanumeric nor `_`.
pub open spec fn separates_words(c: char) -> bool {
    !alphanumeric(c) && c != '_'
}

/// Scanning `s`: the words already closed that are longer than two
/// characters, and the word still open at the end.
pub open spec fn word_scan(s: Seq<char>) -> (Seq<Seq<char>>, Seq<char>)
    decreases s.len(),
{
    if s.len() == 0 {
        (Seq::empty(), Seq::empty())
    } else {
        let (done, cur) = word_scan(s.drop_last());
        let c = s.last();
        if separates_words(c) {
            (if cur.len() > 2 { done.push(cur) } else { done }, Seq::empty())
        } else {
            (done, cur.push(c))
        }
    }
}

/// The words of `s` longer than two characters, in order.
pub open spec fn words(s: Seq<char>) -> Seq<Seq<char>> {
    let (done, cur) = word_scan(s);
    if cur.len() > 2 {
        done.push(cur)
    } else {
        done
    }
}

/// A word: more than two characters, none of which separates words.
pub open spec fn is_word(w: Seq<char>) -> bool {
    w.len() > 2 && forall|j: int| 0 <= j < w.len() ==> !separates_words(#[trigger] w[j])
}

proof fn lemma_word_scan(s: Seq<char>)
    ensures
        forall|i: int| 0 <= i < word_scan(s).0.len() ==> is_word(#[trigger] word_scan(s).0[i]),
        forall|j: int| 0 <= j < word_scan(s).1.len() ==> !separates_words(#[trigger] word_scan(s).1[j]),
    decreases s.len(),
{
    if s.len() > 0 {
        lemma_word_scan(s.drop_last());
        let (done, cur) = word_scan(s.drop_last());
        let c = s.last();
        if separates_words(c) {
            if cur.len() > 2 {
                assert(is_word(cur));
                assert forall|i: int| 0 <= i < done.push(cur).len() implies is_word(#[trigger] done.push(cur)[i]) by {
                    if i < done.len() {
                        assert(done.push(cur)[i] == done[i]);
                    }
                }
            }
        } else {
            assert forall|j: int| 0 <= j < cur.push(c).len() implies !separates_words(#[trigger] cur.push(c)[j]) by {
                if j < cur.len() {
                    assert(cur.push(c)[j] == cur[j]);
                }
            }
        }
    }
}

/// Every token is a word: longer than two characters, with no separator in it.
pub proof fn lemma_tokens_are_words(s: Seq<char>)
    ensures
        forall|i: int| 0 <= i < words(s).len() ==> is_word(#[trigger] words(s)[i]),
{
    lemma_word_scan(s);
    let (done, cur) = word_scan(s);
    if cur.len() > 2 {
        assert(is_word(cur));
        assert forall|i: int| 0 <= i < done.push(cur).len() implies is_word(#[trigger] done.push(cur)[i]) by {
            if i < done.len() {
                assert(done.push(cur)[i] == done[i]);
            }
        }
    }
}

/// The words, longer than two characters, of text that is already in
/// lower case.
pub fn words_of_lowercased(lowered: &str) -> (v: Vec<String>)
    ensures
        v@.map_values(|w: String| w@) == words(lowered@),
{
    let cs = chars_of(lowered);
    let mut done: Vec<String> = Vec::new();
    let mut cur: Vec<char> = Vec::new();
    let mut i: usize = 0;
    proof {
        assert(cs@.take(0) =~= Seq::<char>::empty());
    }
    while i < cs.len()
        invariant
            0 <= i <= cs.len(),
            cs@ == lowered@,
            (done@.map_values(|w: String| w@), cur@) == word_scan(cs@.take(i as int)),
        decreases cs.len() - i,
    {
        let c = cs[i];
        proof {
            assert(cs@.take(i + 1).drop_last() =~= cs@.take(i as int));
            assert(cs@.take(i + 1).last() == c);
        }
        let ghost before = done@.map_values(|w: String| w@);
        if !is_alphanumeric(c) && c != '_' {
            if cur.len() > 2 {
                let w = string_from_chars(&cur);
                done.push(w);
                proof {
                    assert(done@.map_values(|w: String| w@) =~= before.push(cur@));
                }
            }
            cur = Vec::new();
        } else {
            cur.push(c);
        }
        i = i + 1;
    }
    proof {
        assert(cs@.take(cs.len() as int) =~= cs@);
    }
    if cur.len() > 2 {
        let ghost before = done@.map_values(|w: String| w@);
        let w = string_from_chars(&cur);
        done.push(w);
        proof {
            assert(done@.map_values(|w: String| w@) =~= before.push(cur@));
        }
    }
    done
}

/// The words of `text`, lower-cased, that are longer than two characters;
/// words are separated by anything that is neither alphanumeric nor `_`.
pub fn tokenize(text: &str) -> (v: Vec<String>)
    ensures
        v@.map_values(|w: String| w@) == words(lowercase(text@)),
{
    let lowered = to_lowercase(text);
    words_of_lowercased(lowered.as_str())
}

/// A task of an earlier mission, kept to judge similar tasks.
#[derive(Debug, Clone)]
pub struct HistoricalTask {
    pub description: String,
    pub affected_files: Vec<String>,
    pub success: bool,
    pub duration_secs: Option<u64>,
    pub tokens: Vec<String>,
}

impl HistoricalTask {
    /// A finished task with its description's words; no duration recorded.
    pub fn new(description: &str, affected_files: Vec<String>, success: bool) -> (t: Self)
        ensures
            t.description@ == description@,
            t.affected_files == affected_files,
            t.success == success,
            t.duration_secs is None,
            t.tokens@.map_values(|w: String| w@) == words(lowercase(description@)),
    {
        HistoricalTask {
            description: description.to_string(),
            affected_files,
            success,
            duration_secs: None,
            tokens: tokenize(description),
        }
    }
}

} // verus!
