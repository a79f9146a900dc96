//! Word wrapping to a fixed column width, and the normalization of text to
//! its ASCII approximation before wrapping.

use vstd::prelude::*;
use crate::words::{
    is_wsp, wsp_free, words_of, str_views, split_words, lemma_words_sep, lemma_words_single,
    lemma_words_good,
};

verus! {

/// `parts` joined by a single `sep` between neighbours.
pub open spec fn join_with(parts: Seq<Seq<char>>, sep: char) -> Seq<char>
    decreases parts.len(),
{
    if parts.len() == 0 {
        Seq::empty()
    } else if parts.len() == 1 {
        parts[0]
    } else {
        parts[0] + seq![sep] + join_with(parts.drop_first(), sep)
    }
}

/// The words of each of `lines`, concatenated in order.
pub open spec fn words_of_lines(lines: Seq<Seq<char>>) -> Seq<Seq<char>>
    decreases lines.len(),
{
    if lines.len() == 0 {
        Seq::empty()
    } else {
        words_of(lines[0]) + words_of_lines(lines.drop_first())
    }
}

/// Every element is a nonempty, whitespace-free word.
pub open spec fn good_words(ws: Seq<Seq<char>>) -> bool {
    forall|i: int| 0 <= i < ws.len() ==> (#[trigger] ws[i]).len() > 0 && wsp_free(ws[i])
}

/// Joining with a whitespace separator splits back into the parts' own words.
pub proof fn lemma_words_join(parts: Seq<Seq<char>>, sep: char)
    requires
        is_wsp(sep),
    ensures
        words_of(join_with(parts, sep)) == words_of_lines(parts),
    decreases parts.len(),
{
    if parts.len() == 0 {
        assert(words_of_lines(parts) =~= Seq::<Seq<char>>::empty());
    } else if parts.len() == 1 {
        assert(words_of_lines(parts) =~= words_of(parts[0]) + words_of_lines(
            parts.drop_first(),
        ));
        assert(words_of(parts[0]) + Seq::<Seq<char>>::empty() =~= words_of(parts[0]));
    } else {
        lemma_words_join(parts.drop_first(), sep);
        lemma_words_sep(parts[0], join_with(parts.drop_first(), sep), sep);
    }
}

/// A sequence of words, each already a single word, splits back to itself.
pub proof fn lemma_words_of_lines_good(ws: Seq<Seq<char>>)
    requires
        good_words(ws),
    ensures
        words_of_lines(ws) == ws,
    decreases ws.len(),
{
    if ws.len() == 0 {
        assert(words_of_lines(ws) =~= ws);
    } else {
        lemma_words_single(ws[0]);
        assert(good_words(ws.drop_first()));
        lemma_words_of_lines_good(ws.drop_first());
        assert(seq![ws[0]] + ws.drop_first() =~= ws);
    }
}

/// Greedy wrapping of the words `ws` to width `w`, with the words `cur`
/// already on the open line: a word moves to the open line while the line
/// stays within `w` characters, else it opens a new line.
pub open spec fn wrap_acc(ws: Seq<Seq<char>>, w: nat, cur: Seq<Seq<char>>) -> Seq<Seq<Seq<char>>>
    decreases ws.len(),
{
    if ws.len() == 0 {
        seq![cur]
    } else if join_with(cur, ' ').len() + 1 + ws[0].len() <= w {
        wrap_acc(ws.drop_first(), w, cur.push(ws[0]))
    } else {
        seq![cur] + wrap_acc(ws.drop_first(), w, seq![ws[0]])
    }
}

/// Greedy wrapping of the words `ws` to width `w`, as lines of words.
/// A word longer than `w` stands alone on its own line, unbroken.
pub open spec fn wrap_words(ws: Seq<Seq<char>>, w: nat) -> Seq<Seq<Seq<char>>> {
    if ws.len() == 0 {
        Seq::empty()
    } else {
        wrap_acc(ws.drop_first(), w, seq![ws[0]])
    }
}

/// Each line of words joined by single spaces, in order.
pub open spec fn join_lines_each(lines: Seq<Seq<Seq<char>>>) -> Seq<Seq<char>>
    decreases lines.len(),
{
    if lines.len() == 0 {
        Seq::empty()
    } else {
        seq![join_with(lines[0], ' ')] + join_lines_each(lines.drop_first())
    }
}

/// The wrapped text of the words `ws` at width `w`, line by line.
pub open spec fn rendered_lines(ws: Seq<Seq<char>>, w: nat) -> Seq<Seq<char>> {
    join_lines_each(wrap_words(ws, w))
}

/// The whole filled text: wrapped lines joined by newlines.
pub open spec fn fill_spec(t: Seq<char>, w: nat) -> Seq<char> {
    join_with(rendered_lines(words_of(t), w), '\n')
}

/// What `format_text` returns: the text wrapped to `w` columns, or the text
/// unbroken when `w` is zero (line breaking is then left to the output sink).
pub open spec fn format_text_spec(t: Seq<char>, w: nat) -> Seq<char> {
    if w == 0 {
        t
    } else {
        fill_spec(t, w)
    }
}

/// Appending one more part extends the joined text by a separator and the part.
proof fn lemma_join_push(parts: Seq<Seq<char>>, p: Seq<char>, sep: char)
    ensures
        join_with(parts.push(p), sep) == if parts.len() == 0 {
            p
        } else {
            join_with(parts, sep) + seq![sep] + p
        },
    decreases parts.len(),
{
    let e = parts.push(p);
    if parts.len() == 0 {
        assert(e.len() == 1);
        assert(e[0] == p);
    } else {
        assert(e[0] == parts[0]);
        assert(e.drop_first() =~= parts.drop_first().push(p));
        lemma_join_push(parts.drop_first(), p, sep);
        if parts.len() == 1 {
            assert(join_with(e, sep) == parts[0] + seq![sep] + join_with(
                e.drop_first(),
                sep,
            ));
            assert(parts.drop_first().len() == 0);
        } else {
            assert((parts[0] + seq![sep] + (join_with(parts.drop_first(), sep) + seq![sep] + p))
                =~= (parts[0] + seq![sep] + join_with(parts.drop_first(), sep)) + seq![sep] + p);
        }
    }
}

/// Greedy wrapping loses no word and invents none: the words of the wrapped
/// lines, read in order, are the open line's words followed by `ws`.
proof fn lemma_wrap_acc_words(ws: Seq<Seq<char>>, w: nat, cur: Seq<Seq<char>>)
    requires
        good_words(ws),
        good_words(cur),
    ensures
        words_of_lines(join_lines_each(wrap_acc(ws, w, cur))) == cur + ws,
    decreases ws.len(),
{
    if ws.len() == 0 {
        let lines = wrap_acc(ws, w, cur);
        assert(lines =~= seq![cur]);
        let jl = join_lines_each(lines);
        assert(lines.drop_first() =~= Seq::<Seq<Seq<char>>>::empty());
        assert(join_lines_each(Seq::<Seq<Seq<char>>>::empty()) =~= Seq::<Seq<char>>::empty());
        assert(jl =~= seq![join_with(cur, ' ')]);
        assert(jl.drop_first() =~= Seq::<Seq<char>>::empty());
        assert(words_of_lines(Seq::<Seq<char>>::empty()) =~= Seq::<Seq<char>>::empty());
        lemma_words_join(cur, ' ');
        lemma_words_of_lines_good(cur);
        assert(words_of_lines(jl) =~= words_of(jl[0]) + words_of_lines(jl.drop_first()));
        assert(words_of_lines(jl) =~= cur);
        assert(cur + ws =~= cur);
    } else {
        assert(good_words(ws.drop_first()));
        if join_with(cur, ' ').len() + 1 + ws[0].len() <= w {
            assert(good_words(cur.push(ws[0])));
            lemma_wrap_acc_words(ws.drop_first(), w, cur.push(ws[0]));
            assert(cur.push(ws[0]) + ws.drop_first() =~= cur + ws);
        } else {
            assert(good_words(seq![ws[0]]));
            lemma_wrap_acc_words(ws.drop_first(), w, seq![ws[0]]);
            let rec = wrap_acc(ws.drop_first(), w, seq![ws[0]]);
            let lines = wrap_acc(ws, w, cur);
            assert(lines =~= seq![cur] + rec);
            assert(lines[0] == cur);
            assert(lines.drop_first() =~= rec);
            assert(join_lines_each(lines) =~= seq![join_with(cur, ' ')] + join_lines_each(rec));
            let jl = join_lines_each(lines);
            assert(jl[0] == join_with(cur, ' '));
            assert(jl.drop_first() =~= join_lines_each(rec));
            lemma_words_join(cur, ' ');
            lemma_words_of_lines_good(cur);
            assert(words_of_lines(jl) =~= cur + (seq![ws[0]] + ws.drop_first()));
            assert(cur + (seq![ws[0]] + ws.drop_first()) =~= cur + ws);
        }
    }
}

proof fn lemma_wrap_acc_fits(ws: Seq<Seq<char>>, w: nat, cur: Seq<Seq<char>>)
    requires
        forall|i: int| 0 <= i < ws.len() ==> (#[trigger] ws[i]).len() <= w,
        join_with(cur, ' ').len() <= w,
    ensures
        forall|j: int|
            0 <= j < join_lines_each(wrap_acc(ws, w, cur)).len() ==> (#[trigger] join_lines_each(
                wrap_acc(ws, w, cur),
            )[j]).len() <= w,
    decreases ws.len(),
{
    if ws.len() == 0 {
        let lines = wrap_acc(ws, w, cur);
        assert(lines =~= seq![cur]);
        assert(lines.drop_first() =~= Seq::<Seq<Seq<char>>>::empty());
        assert(join_lines_each(Seq::<Seq<Seq<char>>>::empty()) =~= Seq::<Seq<char>>::empty());
        assert(join_lines_each(lines) =~= seq![join_with(cur, ' ')]);
        assert(join_lines_each(lines)[0] == join_with(cur, ' '));
    } else {
        assert(forall|i: int|
            0 <= i < ws.drop_first().len() ==> (#[trigger] ws.drop_first()[i]).len() <= w);
        if join_with(cur, ' ').len() + 1 + ws[0].len() <= w {
            lemma_join_push(cur, ws[0], ' ');
            lemma_wrap_acc_fits(ws.drop_first(), w, cur.push(ws[0]));
            let rec = wrap_acc(ws.drop_first(), w, cur.push(ws[0]));
            assert(wrap_acc(ws, w, cur) == rec);
            assert forall|j: int|
                0 <= j < join_lines_each(wrap_acc(ws, w, cur)).len() implies (
            #[trigger] join_lines_each(wrap_acc(ws, w, cur))[j]).len() <= w by {
                assert(join_lines_each(wrap_acc(ws, w, cur))[j] == join_lines_each(rec)[j]);
            }
        } else {
            assert(join_with(seq![ws[0]], ' ') == ws[0]);
            lemma_wrap_acc_fits(ws.drop_first(), w, seq![ws[0]]);
            let rec = wrap_acc(ws.drop_first(), w, seq![ws[0]]);
            let lines = wrap_acc(ws, w, cur);
            assert(lines =~= seq![cur] + rec);
            assert(lines[0] == cur);
            assert(lines.drop_first() =~= rec);
            assert(join_lines_each(lines) =~= seq![join_with(cur, ' ')] + join_lines_each(rec));
            let jl = join_lines_each(lines);
            assert forall|j: int| 0 <= j < jl.len() implies (#[trigger] jl[j]).len() <= w by {
                if j > 0 {
                    assert(jl[j] == join_lines_each(rec)[j - 1]);
                }
            }
        }
    }
}

/// Wrapping never overfills a line: whenever the width admits the longest
/// word, every wrapped line holds at most `w` characters.
pub proof fn lemma_wrap_fits(t: Seq<char>, w: nat)
    requires
        w >= 1,
        forall|i: int| 0 <= i < words_of(t).len() ==> (#[trigger] words_of(t)[i]).len() <= w,
    ensures
        forall|j: int|
            0 <= j < rendered_lines(words_of(t), w).len() ==> (#[trigger] rendered_lines(
                words_of(t),
                w,
            )[j]).len() <= w,
{
    let ws = words_of(t);
    if ws.len() == 0 {
        assert(wrap_words(ws, w) =~= Seq::<Seq<Seq<char>>>::empty());
        assert(rendered_lines(ws, w) =~= Seq::<Seq<char>>::empty());
    } else {
        assert(join_with(seq![ws[0]], ' ') == ws[0]);
        lemma_wrap_acc_fits(ws.drop_first(), w, seq![ws[0]]);
    }
}

/// Word-wrap round trip. Wrapping keeps exactly the words of the text, in
/// order, whenever the width admits the longest word; so concatenating the
/// wrapped lines with single spaces reproduces the whitespace-normalized
/// text. A width of zero returns the text itself, unbroken.
pub proof fn lemma_wrap_round_trip(t: Seq<char>, w: nat)
    requires
        w >= 1,
        forall|i: int| 0 <= i < words_of(t).len() ==> (#[trigger] words_of(t)[i]).len() <= w,
    ensures
        words_of(format_text_spec(t, w)) == words_of(t),
        join_with(words_of(format_text_spec(t, w)), ' ') == join_with(words_of(t), ' '),
        format_text_spec(t, 0) == t,
{
    lemma_words_good(t);
    let ws = words_of(t);
    if ws.len() == 0 {
        assert(wrap_words(ws, w) =~= Seq::<Seq<Seq<char>>>::empty());
        assert(rendered_lines(ws, w) =~= Seq::<Seq<char>>::empty());
        assert(fill_spec(t, w) =~= Seq::<char>::empty());
        assert(words_of(fill_spec(t, w)) =~= ws);
    } else {
        assert(good_words(ws));
        assert(good_words(seq![ws[0]]));
        lemma_wrap_acc_words(ws.drop_first(), w, seq![ws[0]]);
        assert(seq![ws[0]] + ws.drop_first() =~= ws);
        lemma_words_join(rendered_lines(ws, w), '\n');
        assert(words_of(fill_spec(t, w)) == ws);
    }
}

/// The ASCII transliteration of a text: what normalization returns.
pub uninterp spec fn ascii_of(s: Seq<char>) -> Seq<char>;

/// Relies on unidecode::unidecode: the ASCII transliteration of a string,
/// a function of the input characters alone.
#[verifier::external_body]
fn transliterate(s: &str) -> (r: String)
    ensures
        r@ == ascii_of(s@),
{
    unidecode::unidecode(s)
}

/// The views of a sequence of word vectors.
pub open spec fn lines_views(v: Seq<Vec<String>>) -> Seq<Seq<Seq<char>>> {
    v.map_values(|l: Vec<String>| str_views(l@))
}

/// Wraps `words` greedily into lines of at most `w` characters; a word longer
/// than `w` stands alone on its own line.
fn wrap_lines(words: &Vec<String>, w: usize) -> (lines: Vec<Vec<String>>)
    requires
        words@.len() > 0,
    ensures
        lines_views(lines@) == wrap_words(str_views(words@), w as nat),
{
    let ghost all: Seq<Seq<char>> = str_views(words@);
    let mut lines: Vec<Vec<String>> = Vec::new();
    let mut cur: Vec<String> = Vec::new();
    cur.push(words[0].clone());
    let mut cur_width: usize = words[0].unicode_len();
    proof {
        assert(str_views(cur@) =~= seq![all[0]]);
        assert(all.drop_first() =~= all.skip(1));
        assert(lines_views(lines@) =~= Seq::<Seq<Seq<char>>>::empty());
        assert(lines_views(lines@) + wrap_acc(all.skip(1), w as nat, str_views(cur@)) =~= wrap_acc(
            all.skip(1),
            w as nat,
            str_views(cur@),
        ));
    }
    let mut i: usize = 1;
    while i < words.len()
        invariant
            1 <= i <= words@.len(),
            all == str_views(words@),
            cur@.len() > 0,
            cur_width == join_with(str_views(cur@), ' ').len(),
            wrap_words(all, w as nat) == lines_views(lines@) + wrap_acc(
                all.skip(i as int),
                w as nat,
                str_views(cur@),
            ),
        decreases words@.len() - i,
    {
        proof {
            assert(all.skip(i as int)[0] == all[i as int]);
            assert(all.skip(i as int).drop_first() =~= all.skip(i + 1));
        }
        let wlen: usize = words[i].unicode_len();
        let fits: bool = wlen <= w && cur_width < w - wlen;
        if fits {
            proof {
                lemma_join_push(str_views(cur@), all[i as int], ' ');
                assert(str_views(cur@.push(words@[i as int])) =~= str_views(cur@).push(
                    all[i as int],
                ));
            }
            cur.push(words[i].clone());
            cur_width = cur_width + 1 + wlen;
        } else {
            proof {
                assert(lines_views(lines@.push(cur)) =~= lines_views(lines@).push(
                    str_views(cur@),
                ));
                assert(lines_views(lines@) + (seq![str_views(cur@)] + wrap_acc(
                    all.skip(i + 1),
                    w as nat,
                    seq![all[i as int]],
                )) =~= lines_views(lines@.push(cur)) + wrap_acc(
                    all.skip(i + 1),
                    w as nat,
                    seq![all[i as int]],
                ));
            }
            lines.push(cur);
            cur = Vec::new();
            cur.push(words[i].clone());
            cur_width = wlen;
            proof {
                assert(str_views(cur@) =~= seq![all[i as int]]);
            }
        }
        i = i + 1;
    }
    proof {
        assert(all.skip(i as int).len() == 0);
        assert(wrap_acc(all.skip(i as int), w as nat, str_views(cur@)) =~= seq![str_views(cur@)]);
        assert(lines_views(lines@.push(cur)) =~= lines_views(lines@).push(str_views(cur@)));
        assert(lines_views(lines@) + seq![str_views(cur@)] =~= lines_views(lines@.push(cur)));
    }
    lines.push(cur);
    lines
}

/// Joins `parts` with the one-character separator `sep`.
fn join_strings(parts: &Vec<String>, sep: &str, Ghost(c): Ghost<char>) -> (r: String)
    requires
        sep@ == seq![c],
    ensures
        r@ == join_with(str_views(parts@), c),
{
    let ghost all: Seq<Seq<char>> = str_views(parts@);
    if parts.len() == 0 {
        let r = String::new();
        proof {
            assert(all =~= Seq::<Seq<char>>::empty());
        }
        return r;
    }
    let mut r: String = parts[0].clone();
    proof {
        assert(all.take(1) =~= seq![all[0]]);
    }
    let mut i: usize = 1;
    while i < parts.len()
        invariant
            1 <= i <= parts@.len(),
            all == str_views(parts@),
            sep@ == seq![c],
            r@ == join_with(all.take(i as int), c),
        decreases parts@.len() - i,
    {
        r.append(sep);
        r.append(parts[i].as_str());
        proof {
            lemma_join_push(all.take(i as int), all[i as int], c);
            assert(all.take(i as int).push(all[i as int]) =~= all.take(i + 1));
        }
        i = i + 1;
    }
    proof {
        assert(all.take(i as int) =~= all);
    }
    r
}

/// Normalizes `input` to its ASCII transliteration and wraps it to `width`
/// columns; a `width` of zero skips wrapping and returns the normalized text
/// unbroken.
pub fn format_text(input: &str, width: usize) -> (r: String)
    ensures
        r@ == format_text_spec(ascii_of(input@), width as nat),
{
    let norm = transliterate(input);
    if width == 0 {
        return norm;
    }
    let words = split_words(norm.as_str());
    if words.len() == 0 {
        proof {
            assert(str_views(words@) =~= Seq::<Seq<char>>::empty());
            assert(wrap_words(words_of(norm@), width as nat) =~= Seq::<Seq<Seq<char>>>::empty());
            assert(rendered_lines(words_of(norm@), width as nat) =~= Seq::<Seq<char>>::empty());
            assert(fill_spec(norm@, width as nat) =~= Seq::<char>::empty());
        }
        return String::new();
    }
    let lines = wrap_lines(&words, width);
    let ghost lv: Seq<Seq<Seq<char>>> = lines_views(lines@);
    let mut line_strs: Vec<String> = Vec::new();
    proof {
        assert(lv.skip(0) =~= lv);
        assert(str_views(line_strs@) =~= Seq::<Seq<char>>::empty());
        assert(str_views(line_strs@) + join_lines_each(lv) =~= join_lines_each(lv));
        reveal_strlit(" ");
        reveal_strlit("\n");
        assert(" "@ =~= seq![' ']);
        assert("\n"@ =~= seq!['\n']);
    }
    let mut i: usize = 0;
    while i < lines.len()
        invariant
            0 <= i <= lines@.len(),
            lv == lines_views(lines@),
            join_lines_each(lv) == str_views(line_strs@) + join_lines_each(lv.skip(i as int)),
        decreases lines@.len() - i,
    {
        proof {
            assert(lv.skip(i as int)[0] == lv[i as int]);
            assert(lv.skip(i as int).drop_first() =~= lv.skip(i + 1));
            reveal_strlit(" ");
            assert(" "@ =~= seq![' ']);
        }
        let line = &lines[i];
        let js = join_strings(line, " ", Ghost(' '));
        proof {
            assert(str_views(line_strs@.push(js)) =~= str_views(line_strs@).push(js@));
            assert(str_views(line_strs@) + (seq![join_with(lv[i as int], ' ')] + join_lines_each(
                lv.skip(i + 1),
            )) =~= str_views(line_strs@.push(js)) + join_lines_each(lv.skip(i + 1)));
        }
        line_strs.push(js);
        i = i + 1;
    }
    proof {
        assert(lv.skip(i as int).len() == 0);
        assert(join_lines_each(lv.skip(i as int)) =~= Seq::<Seq<char>>::empty());
        assert(str_views(line_strs@) + Seq::<Seq<char>>::empty() =~= str_views(line_strs@));
    }
    let r = join_strings(&line_strs, "\n", Ghost('\n'));
    proof {
        assert(str_views(words@) == words_of(norm@));
        assert(r@ == fill_spec(norm@, width as nat));
    }
    r
}

} // verus!
