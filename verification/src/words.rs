//! Tokenizer: splits text on runs of whitespace and counts the distinct
//! non-empty tokens.

use vstd::prelude::*;
use vstd::string::StrSliceExecFns;

verus! {

/// A whitespace character: the Unicode `White_Space` set, the same set that
/// `str::split_whitespace` splits on.
pub open spec fn is_ws(c: char) -> bool {
    ||| c == '\t'
    ||| c == '\n'
    ||| c == '\u{B}'
    ||| c == '\u{C}'
    ||| c == '\r'
    ||| c == ' '
    ||| c == '\u{85}'
    ||| c == '\u{A0}'
    ||| c == '\u{1680}'
    ||| c == '\u{2000}'
    ||| c == '\u{2001}'
    ||| c == '\u{2002}'
    ||| c == '\u{2003}'
    ||| c == '\u{2004}'
    ||| c == '\u{2005}'
    ||| c == '\u{2006}'
    ||| c == '\u{2007}'
    ||| c == '\u{2008}'
    ||| c == '\u{2009}'
    ||| c == '\u{200A}'
    ||| c == '\u{2028}'
    ||| c == '\u{2029}'
    ||| c == '\u{202F}'
    ||| c == '\u{205F}'
    ||| c == '\u{3000}'
}

/// Runtime test for `is_ws`.
pub fn is_ws_char(c: char) -> (r: bool)
    ensures
        r == is_ws(c),
{
    c == '\t' || c == '\n' || c == '\u{B}' || c == '\u{C}' || c == '\r' || c == ' '
        || c == '\u{85}' || c == '\u{A0}' || c == '\u{1680}' || c == '\u{2000}' || c == '\u{2001}'
        || c == '\u{2002}' || c == '\u{2003}' || c == '\u{2004}' || c == '\u{2005}'
        || c == '\u{2006}' || c == '\u{2007}' || c == '\u{2008}' || c == '\u{2009}'
        || c == '\u{200A}' || c == '\u{2028}' || c == '\u{2029}' || c == '\u{202F}'
        || c == '\u{205F}' || c == '\u{3000}'
}

/// Position of the first whitespace character of `s` at or after `i`, or
/// `s.len()` if there is none.
pub open spec fn word_end(s: Seq<char>, i: int) -> int
    decreases s.len() - i,
{
    if i >= s.len() {
        s.len() as int
    } else if is_ws(s[i]) {
        i
    } else {
        word_end(s, i + 1)
    }
}

pub proof fn lemma_word_end(s: Seq<char>, i: int)
    requires
        0 <= i <= s.len(),
    ensures
        i <= word_end(s, i) <= s.len(),
        forall|k: int| i <= k < word_end(s, i) ==> !is_ws(s[k]),
        word_end(s, i) < s.len() ==> is_ws(s[word_end(s, i)]),
    decreases s.len() - i,
{
    if i < s.len() && !is_ws(s[i]) {
        lemma_word_end(s, i + 1);
    }
}

/// The words of `s` from position `i` on, in order: each word is a maximal
/// run of non-whitespace characters.
pub open spec fn words_from(s: Seq<char>, i: int) -> Seq<Seq<char>>
    decreases s.len() - i,
    via words_from_decreases
{
    if i < 0 || i >= s.len() {
        Seq::empty()
    } else if is_ws(s[i]) {
        words_from(s, i + 1)
    } else {
        seq![s.subrange(i, word_end(s, i))] + words_from(s, word_end(s, i))
    }
}

#[via_fn]
proof fn words_from_decreases(s: Seq<char>, i: int) {
    if 0 <= i && i < s.len() && !is_ws(s[i]) {
        lemma_word_end(s, i + 1);
    }
}

/// All words of `s`, in order of occurrence (duplicates included).
pub open spec fn spec_words(s: Seq<char>) -> Seq<Seq<char>> {
    words_from(s, 0)
}

/// The number of distinct words of `s`.
pub open spec fn spec_distinct_word_count(s: Seq<char>) -> nat {
    spec_words(s).to_set().len()
}

/// `word_end` is pinned down by its characterization: `j` is the first
/// whitespace position at or after `i` (or the end of `s`).
pub proof fn lemma_word_end_exact(s: Seq<char>, i: int, j: int)
    requires
        0 <= i <= j <= s.len(),
        forall|k: int| i <= k < j ==> !is_ws(s[k]),
        j == s.len() || is_ws(s[j]),
    ensures
        word_end(s, i) == j,
    decreases j - i,
{
    if i < j {
        lemma_word_end_exact(s, i + 1, j);
    }
}

/// The views of a vector of character vectors.
pub open spec fn views_of(s: Seq<Vec<char>>) -> Seq<Seq<char>> {
    s.map_values(|v: Vec<char>| v@)
}

proof fn lemma_cons_to_set<A>(w: A, rest: Seq<A>)
    ensures
        (seq![w] + rest).to_set() =~= rest.to_set().insert(w),
{
    let c = seq![w] + rest;
    assert forall|x: A| c.to_set().contains(x) implies rest.to_set().contains(x) || x == w by {
        let idx = choose|idx: int| 0 <= idx < c.len() && c[idx] == x;
        if idx > 0 {
            assert(rest[idx - 1] == x);
        }
    }
    assert forall|x: A| rest.to_set().contains(x) implies c.to_set().contains(x) by {
        let idx = choose|idx: int| 0 <= idx < rest.len() && rest[idx] == x;
        assert(c[idx + 1] == x);
    }
    assert(c[0] == w);
    assert(c.to_set().contains(w));
}

proof fn lemma_concat_to_set<A>(a: Seq<A>, b: Seq<A>)
    ensures
        (a + b).to_set() =~= a.to_set() + b.to_set(),
{
    assert forall|x: A| (a + b).to_set().contains(x) implies a.to_set().contains(x)
        || b.to_set().contains(x) by {
        let i = choose|i: int| 0 <= i < (a + b).len() && (a + b)[i] == x;
        if i < a.len() {
            assert(a[i] == x);
        } else {
            assert(b[i - a.len()] == x);
        }
    }
    assert forall|x: A| a.to_set().contains(x) implies (a + b).to_set().contains(x) by {
        let i = choose|i: int| 0 <= i < a.len() && a[i] == x;
        assert((a + b)[i] == x);
    }
    assert forall|x: A| b.to_set().contains(x) implies (a + b).to_set().contains(x) by {
        let i = choose|i: int| 0 <= i < b.len() && b[i] == x;
        assert((a + b)[a.len() + i] == x);
    }
}

proof fn lemma_words_suffix(a: Seq<char>, b: Seq<char>, c: char, i: int)
    requires
        is_ws(c),
        0 <= i <= b.len(),
    ensures
        words_from(a + seq![c] + b, a.len() + 1 + i) == words_from(b, i),
    decreases b.len() - i,
{
    let w = a + seq![c] + b;
    let n = a.len() as int;
    if i == b.len() {
        assert(words_from(w, n + 1 + i) =~= Seq::<Seq<char>>::empty());
    } else if is_ws(b[i]) {
        assert(w[n + 1 + i] == b[i]);
        lemma_words_suffix(a, b, c, i + 1);
    } else {
        assert(w[n + 1 + i] == b[i]);
        let e = word_end(b, i);
        lemma_word_end(b, i);
        assert forall|k: int| n + 1 + i <= k < n + 1 + e implies !is_ws(w[k]) by {
            assert(w[k] == b[k - n - 1]);
        }
        if e < b.len() {
            assert(w[n + 1 + e] == b[e]);
        }
        lemma_word_end_exact(w, n + 1 + i, n + 1 + e);
        assert(w.subrange(n + 1 + i, n + 1 + e) =~= b.subrange(i, e));
        lemma_words_suffix(a, b, c, e);
        assert(words_from(w, n + 1 + i) =~= words_from(b, i));
    }
}

proof fn lemma_words_prefix(a: Seq<char>, b: Seq<char>, c: char, i: int)
    requires
        is_ws(c),
        0 <= i <= a.len(),
    ensures
        words_from(a + seq![c] + b, i) == words_from(a, i) + words_from(b, 0),
    decreases a.len() - i,
{
    let w = a + seq![c] + b;
    let n = a.len() as int;
    if i == n {
        assert(w[n] == c);
        lemma_words_suffix(a, b, c, 0);
        assert(words_from(a, i) =~= Seq::<Seq<char>>::empty());
        assert(words_from(w, i) =~= words_from(a, i) + words_from(b, 0));
    } else if is_ws(a[i]) {
        assert(w[i] == a[i]);
        lemma_words_prefix(a, b, c, i + 1);
    } else {
        assert(w[i] == a[i]);
        let e = word_end(a, i);
        lemma_word_end(a, i);
        assert forall|k: int| i <= k < e implies !is_ws(w[k]) by {
            assert(w[k] == a[k]);
        }
        if e < n {
            assert(w[e] == a[e]);
        } else {
            assert(w[e] == c);
        }
        lemma_word_end_exact(w, i, e);
        assert(w.subrange(i, e) =~= a.subrange(i, e));
        lemma_words_prefix(a, b, c, e);
        assert(words_from(w, i) =~= words_from(a, i) + words_from(b, 0));
    }
}

/// Law: a whitespace character splits a text cleanly — the words of
/// `a + [c] + b` are the words of `a` followed by the words of `b`; no word
/// straddles the separator.
pub proof fn lemma_words_split(a: Seq<char>, b: Seq<char>, c: char)
    requires
        is_ws(c),
    ensures
        spec_words(a + seq![c] + b) == spec_words(a) + spec_words(b),
{
    lemma_words_prefix(a, b, c, 0);
}

/// Law: repetition collapses — a document made of a text, a whitespace
/// separator, and the same text again has exactly the distinct words of the
/// text alone.
pub proof fn lemma_self_append_count(s: Seq<char>, c: char)
    requires
        is_ws(c),
    ensures
        spec_distinct_word_count(s + seq![c] + s) == spec_distinct_word_count(s),
{
    lemma_words_split(s, s, c);
    lemma_concat_to_set(spec_words(s), spec_words(s));
    assert(spec_words(s).to_set() + spec_words(s).to_set() =~= spec_words(s).to_set());
}

/// Equality of two character vectors.
fn word_eq(a: &Vec<char>, b: &Vec<char>) -> (r: bool)
    ensures
        r == (a@ == b@),
{
    if a.len() != b.len() {
        return false;
    }
    let mut j: usize = 0;
    while j < a.len()
        invariant
            a@.len() == b@.len(),
            j <= a@.len(),
            forall|k: int| 0 <= k < j ==> a@[k] == b@[k],
        decreases a@.len() - j,
    {
        if a[j] != b[j] {
            return false;
        }
        j += 1;
    }
    proof {
        assert(a@ =~= b@);
    }
    true
}

/// Whether `w`'s character sequence already occurs among `seen`.
fn seen_contains(seen: &Vec<Vec<char>>, w: &Vec<char>) -> (r: bool)
    ensures
        r == views_of(seen@).contains(w@),
{
    let mut j: usize = 0;
    while j < seen.len()
        invariant
            j <= seen@.len(),
            forall|k: int| 0 <= k < j ==> views_of(seen@)[k] != w@,
        decreases seen@.len() - j,
    {
        if word_eq(&seen[j], w) {
            proof {
                assert(views_of(seen@)[j as int] == w@);
            }
            return true;
        }
        j += 1;
    }
    false
}

/// Counts the distinct whitespace-delimited tokens of `text`: the number of
/// different maximal non-whitespace runs. Repeated words count once; empty
/// input yields 0.
pub fn count_distinct_words(text: &str) -> (n: usize)
    ensures
        n as nat == spec_distinct_word_count(text@),
{
    let ghost s = text@;
    let len = text.unicode_len();
    let mut seen: Vec<Vec<char>> = Vec::new();
    let mut cur: Vec<char> = Vec::new();
    let mut i: usize = 0;
    while i < len
        invariant
            s == text@,
            len == s.len(),
            i <= len,
            cur@.len() <= i,
            cur@ == s.subrange(i - cur@.len(), i as int),
            forall|k: int| i - cur@.len() <= k < i ==> !is_ws(s[k]),
            i - cur@.len() == 0 || is_ws(s[i - cur@.len() - 1]),
            views_of(seen@).no_duplicates(),
            views_of(seen@).to_set() + words_from(s, i - cur@.len()).to_set() == spec_words(
                s,
            ).to_set(),
        decreases len - i,
    {
        let ghost cs = i - cur@.len();
        let c = text.get_char(i);
        if is_ws_char(c) {
            if cur.len() > 0 {
                proof {
                    lemma_word_end_exact(s, cs, i as int);
                    assert(s.subrange(cs, i as int) == cur@);
                    assert(words_from(s, cs) == seq![cur@] + words_from(s, i as int));
                    assert(words_from(s, i as int) == words_from(s, i + 1));
                    lemma_cons_to_set(cur@, words_from(s, i + 1));
                }
                let present = seen_contains(&seen, &cur);
                if !present {
                    let ghost old_seen = seen@;
                    seen.push(cur);
                    proof {
                        assert(views_of(seen@) =~= views_of(old_seen).push(cur@));
                        assert(views_of(seen@).to_set() =~= views_of(old_seen).to_set().insert(
                            cur@,
                        )) by {
                            views_of(old_seen).lemma_push_to_set_commute(cur@);
                        }
                        assert(views_of(seen@).no_duplicates());
                        assert(views_of(seen@).to_set() + words_from(s, i + 1).to_set()
                            =~= spec_words(s).to_set());
                    }
                } else {
                    proof {
                        assert(views_of(seen@).to_set().contains(cur@));
                        assert(views_of(seen@).to_set() + words_from(s, i + 1).to_set()
                            =~= spec_words(s).to_set());
                    }
                }
                cur = Vec::new();
            } else {
                proof {
                    assert(words_from(s, i as int) == words_from(s, i + 1));
                }
            }
        } else {
            let ghost old_cur = cur@;
            cur.push(c);
            proof {
                assert(cur@ =~= s.subrange(cs, i + 1));
            }
        }
        i += 1;
    }
    if cur.len() > 0 {
        let ghost cs = i - cur@.len();
        proof {
            lemma_word_end_exact(s, cs, s.len() as int);
            assert(s.subrange(cs, s.len() as int) == cur@);
            assert(words_from(s, cs) == seq![cur@] + words_from(s, s.len() as int));
            assert(words_from(s, s.len() as int) == Seq::<Seq<char>>::empty());
            lemma_cons_to_set(cur@, Seq::<Seq<char>>::empty());
            assert(Seq::<Seq<char>>::empty().to_set() =~= Set::<Seq<char>>::empty());
        }
        let present = seen_contains(&seen, &cur);
        if !present {
            let ghost old_seen = seen@;
            seen.push(cur);
            proof {
                assert(views_of(seen@) =~= views_of(old_seen).push(cur@));
                assert(views_of(seen@).to_set() =~= views_of(old_seen).to_set().insert(cur@)) by {
                    views_of(old_seen).lemma_push_to_set_commute(cur@);
                }
                assert(views_of(seen@).no_duplicates());
                assert(views_of(seen@).to_set() =~= spec_words(s).to_set());
            }
        } else {
            proof {
                assert(views_of(seen@).to_set() =~= spec_words(s).to_set());
            }
        }
    } else {
        proof {
            assert(words_from(s, i as int) == Seq::<Seq<char>>::empty());
            assert(Seq::<Seq<char>>::empty().to_set() =~= Set::<Seq<char>>::empty());
            assert(views_of(seen@).to_set() =~= spec_words(s).to_set());
        }
    }
    proof {
        views_of(seen@).unique_seq_to_set();
    }
    seen.len()
}

} // verus!
