//! Splitting text into whitespace-separated words: the model that both the
//! word-wrapping routine and its round-trip law are stated over.

use vstd::prelude::*;

verus! {

/// Whitespace for the purposes of word splitting and wrapping.
pub open spec fn is_wsp(c: char) -> bool {
    c == ' ' || c == '\t' || c == '\n' || c == '\r'
}

/// No character of `s` is whitespace.
pub open spec fn wsp_free(s: Seq<char>) -> bool {
    forall|i: int| 0 <= i < s.len() ==> !is_wsp(#[trigger] s[i])
}

/// The words of `s` with a partial word `cur` already read.
pub open spec fn words_acc(s: Seq<char>, cur: Seq<char>) -> Seq<Seq<char>>
    decreases s.len(),
{
    if s.len() == 0 {
        if cur.len() == 0 {
            Seq::empty()
        } else {
            seq![cur]
        }
    } else if is_wsp(s[0]) {
        if cur.len() == 0 {
            words_acc(s.drop_first(), Seq::empty())
        } else {
            seq![cur] + words_acc(s.drop_first(), Seq::empty())
        }
    } else {
        words_acc(s.drop_first(), cur.push(s[0]))
    }
}

/// The maximal whitespace-free runs of `s`, in order.
pub open spec fn words_of(s: Seq<char>) -> Seq<Seq<char>> {
    words_acc(s, Seq::empty())
}

/// The views of a sequence of strings.
pub open spec fn str_views(v: Seq<String>) -> Seq<Seq<char>> {
    v.map_values(|s: String| s@)
}

/// A whitespace-free text is one single word (or no word at all, if empty).
proof fn lemma_words_acc_wsp_free(s: Seq<char>, cur: Seq<char>)
    requires
        wsp_free(s),
    ensures
        words_acc(s, cur) == if cur.len() + s.len() == 0 {
            Seq::<Seq<char>>::empty()
        } else {
            seq![cur + s]
        },
    decreases s.len(),
{
    if s.len() == 0 {
        assert(cur + s =~= cur);
    } else {
        assert(wsp_free(s.drop_first()));
        lemma_words_acc_wsp_free(s.drop_first(), cur.push(s[0]));
        assert(cur.push(s[0]) + s.drop_first() =~= cur + s);
        assert(cur.push(s[0]).len() + s.drop_first().len() > 0);
    }
}

/// A nonempty whitespace-free text is exactly one word.
pub proof fn lemma_words_single(w: Seq<char>)
    requires
        w.len() > 0,
        wsp_free(w),
    ensures
        words_of(w) == seq![w],
{
    lemma_words_acc_wsp_free(w, Seq::empty());
    assert(Seq::<char>::empty() + w =~= w);
}

proof fn lemma_words_acc_sep(a: Seq<char>, b: Seq<char>, cur: Seq<char>, sep: char)
    requires
        is_wsp(sep),
    ensures
        words_acc(a + seq![sep] + b, cur) == words_acc(a, cur) + words_of(b),
    decreases a.len(),
{
    let s = a + seq![sep] + b;
    if a.len() == 0 {
        assert(s =~= seq![sep] + b);
        assert(s[0] == sep);
        assert(s.drop_first() =~= b);
        if cur.len() == 0 {
            assert(words_acc(a, cur) + words_of(b) =~= words_of(b));
        } else {
            assert(words_acc(a, cur) =~= seq![cur]);
        }
    } else {
        assert(s[0] == a[0]);
        assert(s.drop_first() =~= a.drop_first() + seq![sep] + b);
        if is_wsp(a[0]) {
            if cur.len() == 0 {
                lemma_words_acc_sep(a.drop_first(), b, Seq::empty(), sep);
            } else {
                lemma_words_acc_sep(a.drop_first(), b, Seq::empty(), sep);
                assert(seq![cur] + (words_acc(a.drop_first(), Seq::empty()) + words_of(b)) =~= (
                seq![cur] + words_acc(a.drop_first(), Seq::empty())) + words_of(b));
            }
        } else {
            lemma_words_acc_sep(a.drop_first(), b, cur.push(a[0]), sep);
        }
    }
}

/// Inserting one whitespace character between two texts splits their words
/// independently.
pub proof fn lemma_words_sep(a: Seq<char>, b: Seq<char>, sep: char)
    requires
        is_wsp(sep),
    ensures
        words_of(a + seq![sep] + b) == words_of(a) + words_of(b),
{
    lemma_words_acc_sep(a, b, Seq::empty(), sep);
}

proof fn lemma_words_acc_good(s: Seq<char>, cur: Seq<char>)
    requires
        wsp_free(cur),
    ensures
        forall|i: int|
            0 <= i < words_acc(s, cur).len() ==> (#[trigger] words_acc(s, cur)[i]).len() > 0
                && wsp_free(words_acc(s, cur)[i]),
    decreases s.len(),
{
    if s.len() == 0 {
    } else if is_wsp(s[0]) {
        lemma_words_acc_good(s.drop_first(), Seq::empty());
        let rest = words_acc(s.drop_first(), Seq::<char>::empty());
        if cur.len() > 0 {
            assert(words_acc(s, cur) == seq![cur] + rest);
            assert forall|i: int| 0 <= i < words_acc(s, cur).len() implies (#[trigger] words_acc(
                s,
                cur,
            )[i]).len() > 0 && wsp_free(words_acc(s, cur)[i]) by {
                if i == 0 {
                    assert(words_acc(s, cur)[0] == cur);
                } else {
                    assert(words_acc(s, cur)[i] == rest[i - 1]);
                }
            }
        } else {
            assert(words_acc(s, cur) == rest);
        }
    } else {
        assert(wsp_free(cur.push(s[0])));
        lemma_words_acc_good(s.drop_first(), cur.push(s[0]));
        assert(words_acc(s, cur) == words_acc(s.drop_first(), cur.push(s[0])));
    }
}

/// Every word is nonempty and holds no whitespace.
pub proof fn lemma_words_good(s: Seq<char>)
    ensures
        forall|i: int|
            0 <= i < words_of(s).len() ==> (#[trigger] words_of(s)[i]).len() > 0 && wsp_free(
                words_of(s)[i],
            ),
{
    lemma_words_acc_good(s, Seq::empty());
}

/// Splits `s` into its whitespace-separated words.
pub fn split_words(s: &str) -> (r: Vec<String>)
    ensures
        str_views(r@) == words_of(s@),
        forall|i: int| 0 <= i < r@.len() ==> (#[trigger] r@[i])@.len() > 0 && wsp_free(r@[i]@),
{
    let n: usize = s.unicode_len();
    let mut words: Vec<String> = Vec::new();
    proof {
        assert(s@.skip(0) =~= s@);
        assert(str_views(words@) =~= Seq::<Seq<char>>::empty());
        assert(str_views(words@) + words_acc(s@, Seq::<char>::empty()) =~= words_acc(
            s@,
            Seq::<char>::empty(),
        ));
    }
    let mut i: usize = 0;
    let mut start: usize = 0;
    let mut in_word: bool = false;
    while i < n
        invariant
            n == s@.len(),
            i <= n,
            in_word ==> start < i,
            in_word ==> wsp_free(s@.subrange(start as int, i as int)),
            words_of(s@) == str_views(words@) + words_acc(
                s@.skip(i as int),
                if in_word {
                    s@.subrange(start as int, i as int)
                } else {
                    Seq::<char>::empty()
                },
            ),
            forall|k: int|
                0 <= k < words@.len() ==> (#[trigger] words@[k])@.len() > 0 && wsp_free(
                    words@[k]@,
                ),
        decreases n - i,
    {
        let ghost cur: Seq<char> = if in_word {
            s@.subrange(start as int, i as int)
        } else {
            Seq::<char>::empty()
        };
        proof {
            assert(s@.skip(i as int)[0] == s@[i as int]);
            assert(s@.skip(i as int).drop_first() =~= s@.skip(i + 1));
        }
        let c = s.get_char(i);
        if c == ' ' || c == '\t' || c == '\n' || c == '\r' {
            if in_word {
                let w = s.substring_char(start, i).to_owned();
                proof {
                    assert(str_views(words@.push(w)) =~= str_views(words@).push(w@));
                    assert(str_views(words@) + (seq![cur] + words_acc(
                        s@.skip(i + 1),
                        Seq::<char>::empty(),
                    )) =~= str_views(words@.push(w)) + words_acc(
                        s@.skip(i + 1),
                        Seq::<char>::empty(),
                    ));
                }
                words.push(w);
                in_word = false;
            }
        } else {
            if !in_word {
                start = i;
                in_word = true;
                proof {
                    assert(s@.subrange(i as int, i + 1) =~= cur.push(s@[i as int]));
                }
            } else {
                proof {
                    assert(s@.subrange(start as int, i + 1) =~= cur.push(s@[i as int]));
                }
            }
        }
        i = i + 1;
    }
    if in_word {
        let w = s.substring_char(start, n).to_owned();
        proof {
            assert(s@.skip(n as int).len() == 0);
            assert(str_views(words@.push(w)) =~= str_views(words@).push(w@));
            assert(str_views(words@) + seq![w@] =~= str_views(words@.push(w)));
        }
        words.push(w);
    } else {
        proof {
            assert(s@.skip(n as int).len() == 0);
            assert(str_views(words@) + Seq::<Seq<char>>::empty() =~= str_views(words@));
        }
    }
    words
}

} // verus!
