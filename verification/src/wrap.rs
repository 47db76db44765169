//! Wrapping of text to a viewport width measured in terminal columns.

use vstd::prelude::*;
use crate::chars::{is_whitespace, is_ws};
use crate::settings::string_views;
use crate::strs::{
    chars_of, contains_chars, contains_sub, extend_chars, is_blank, join, join_chars, lines,
    lines_chars, split_on, split_state, string_of, trim, trim_chars, views,
};

verus! {

broadcast use vstd::seq_lib::group_seq_properties;

/// Display width in terminal columns of a string, as
/// `unicode_width::UnicodeWidthStr::width` computes it.
pub uninterp spec fn display_width(s: Seq<char>) -> usize;

/// `unicode_width::UnicodeWidthStr::width`. Its contract names the result;
/// the Unicode width tables behind it are not stated.
#[verifier::external_body]
fn str_width(s: &str) -> (w: usize)
    ensures
        w == display_width(s@),
{
    unicode_width::UnicodeWidthStr::width(s)
}

fn chars_width(s: &[char]) -> (w: usize)
    ensures
        w == display_width(s@),
{
    let st = string_of(s);
    str_width(st.as_str())
}

/// Words of `s` as `str::split_whitespace` yields them, built left to right.
pub open spec fn words_state(s: Seq<char>) -> (Seq<Seq<char>>, Seq<char>)
    decreases s.len(),
{
    if s.len() == 0 {
        (seq![], seq![])
    } else {
        let (done, cur) = words_state(s.drop_last());
        if is_ws(s.last()) {
            if cur.len() > 0 {
                (done.push(cur), seq![])
            } else {
                (done, seq![])
            }
        } else {
            (done, cur.push(s.last()))
        }
    }
}

/// `str::split_whitespace`.
pub open spec fn words(s: Seq<char>) -> Seq<Seq<char>> {
    let (done, cur) = words_state(s);
    if cur.len() > 0 {
        done.push(cur)
    } else {
        done
    }
}

proof fn lemma_words_state_nonempty(s: Seq<char>)
    ensures
        forall|k: int|
            0 <= k < words_state(s).0.len() ==> (#[trigger] words_state(s).0[k]).len() > 0,
    decreases s.len(),
{
    if s.len() > 0 {
        lemma_words_state_nonempty(s.drop_last());
        let (done, cur) = words_state(s.drop_last());
        let d2 = words_state(s).0;
        assert forall|k: int| 0 <= k < d2.len() implies (#[trigger] d2[k]).len() > 0 by {
            if k < done.len() {
                assert(d2[k] == done[k]);
            }
        }
    }
}

proof fn lemma_words_nonempty(s: Seq<char>)
    ensures
        forall|k: int| 0 <= k < words(s).len() ==> (#[trigger] words(s)[k]).len() > 0,
{
    lemma_words_state_nonempty(s);
}

fn words_chars(s: &[char]) -> (r: Vec<Vec<char>>)
    ensures
        views(r@) == words(s@),
{
    let mut done: Vec<Vec<char>> = Vec::new();
    let mut cur: Vec<char> = Vec::new();
    let mut i: usize = 0;
    while i < s.len()
        invariant
            i <= s.len(),
            (views(done@), cur@) == words_state(s@.take(i as int)),
        decreases s.len() - i,
    {
        assert(s@.take(i + 1).drop_last() =~= s@.take(i as int));
        assert(s@.take(i + 1).last() == s@[i as int]);
        if is_whitespace(s[i]) {
            if cur.len() > 0 {
                let w = cur;
                cur = Vec::new();
                let ghost before = views(done@);
                done.push(w);
                assert(views(done@) =~= before.push(w@));
            } else {
                cur = Vec::new();
                assert(cur@ =~= Seq::<char>::empty());
            }
        } else {
            cur.push(s[i]);
        }
        i += 1;
    }
    assert(s@.take(s.len() as int) =~= s@);
    if cur.len() > 0 {
        let ghost before = views(done@);
        done.push(cur);
        assert(views(done@) =~= before.push(cur@));
    }
    done
}

/// Width of one char, measured as a one-char string.
pub open spec fn char_width(c: char) -> usize {
    display_width(seq![c])
}

/// Breaking an over-long word into chunks that fit, left to right: lines
/// completed, the open chunk, and its width.
pub open spec fn chunk_state(word: Seq<char>, max: nat) -> (Seq<Seq<char>>, Seq<char>, nat)
    decreases word.len(),
{
    if word.len() == 0 {
        (seq![], seq![], 0)
    } else {
        let (ls, chunk, w0) = chunk_state(word.drop_last(), max);
        let c = word.last();
        let w = char_width(c) as nat;
        if w0 + w > max && chunk.len() > 0 {
            (ls.push(chunk), seq![c], w)
        } else {
            (ls, chunk.push(c), w0 + w)
        }
    }
}

/// The chunks of an over-long word, each as wide as fits (a single char
/// wider than the limit is a chunk of its own).
pub open spec fn chunked(word: Seq<char>, max: nat) -> Seq<Seq<char>> {
    let (ls, chunk, _) = chunk_state(word, max);
    if chunk.len() > 0 {
        ls.push(chunk)
    } else {
        ls
    }
}

/// One word of the wrapping pass over `(lines, current line, its width)`:
/// the word joins the current line when it fits after a space; otherwise the
/// current line is closed and the word starts the next one, or, when it is
/// wider than the limit on its own, is broken into chunks.
pub open spec fn wrap_step(st: (Seq<Seq<char>>, Seq<char>, nat), word: Seq<char>, max: nat) -> (
    Seq<Seq<char>>,
    Seq<char>,
    nat,
) {
    let (ls, cur, cw) = st;
    let ww = display_width(word) as nat;
    let sep: nat = if cur.len() == 0 {
        0
    } else {
        1
    };
    if cw + sep + ww <= max {
        (ls, (if cur.len() > 0 {
            cur.push(' ')
        } else {
            cur
        }) + word, cw + sep + ww)
    } else {
        let ls1 = if cur.len() > 0 {
            ls.push(cur)
        } else {
            ls
        };
        if ww <= max {
            (ls1, word, ww)
        } else {
            (ls1 + chunked(word, max), seq![], 0)
        }
    }
}

pub open spec fn wrap_fold(ws: Seq<Seq<char>>, max: nat) -> (Seq<Seq<char>>, Seq<char>, nat)
    decreases ws.len(),
{
    if ws.len() == 0 {
        (seq![], seq![], 0)
    } else {
        wrap_step(wrap_fold(ws.drop_last(), max), ws.last(), max)
    }
}

/// Greedy word wrap of `text` to `max` columns; words are separated by single
/// spaces; a limit of 0 leaves the text as one line, and no words give one
/// empty line.
pub open spec fn wrapped(text: Seq<char>, max: nat) -> Seq<Seq<char>> {
    if max == 0 {
        seq![text]
    } else {
        let (ls, cur, _) = wrap_fold(words(text), max);
        let all = if cur.len() > 0 {
            ls.push(cur)
        } else {
            ls
        };
        if all.len() == 0 {
            seq![seq![]]
        } else {
            all
        }
    }
}

proof fn lemma_chunk_width(word: Seq<char>, max: nat)
    ensures
        chunk_state(word, max).2 <= max || chunk_state(word, max).1.len() == 1,
        chunk_state(word, max).1.len() == 0 ==> chunk_state(word, max).2 == 0,
    decreases word.len(),
{
    if word.len() > 0 {
        lemma_chunk_width(word.drop_last(), max);
    }
}

/// Columns taken by pieces set side by side with one space between each two:
/// their widths plus one column per space.
pub open spec fn spaced_width(ps: Seq<Seq<char>>) -> nat
    decreases ps.len(),
{
    if ps.len() == 0 {
        0
    } else if ps.len() == 1 {
        display_width(ps[0]) as nat
    } else {
        spaced_width(ps.drop_last()) + 1 + display_width(ps.last()) as nat
    }
}

/// Sum of the widths of the chars of `s`.
pub open spec fn chars_width_sum(s: Seq<char>) -> nat
    decreases s.len(),
{
    if s.len() == 0 {
        0
    } else {
        chars_width_sum(s.drop_last()) + char_width(s.last()) as nat
    }
}

/// Whether a wrapped line fits in `max` columns: it is empty; or its
/// space-separated words with one column per space fit; or it holds no space
/// and its chars fit, or it is one char (wider than the limit on its own).
pub open spec fn line_fits(line: Seq<char>, max: nat) -> bool {
    ||| line.len() == 0
    ||| spaced_width(split_on(line, ' ')) <= max
    ||| !line.contains(' ') && (chars_width_sum(line) <= max || line.len() == 1)
}

proof fn lemma_split_no_space(w: Seq<char>)
    requires
        !w.contains(' '),
    ensures
        split_state(w, ' ') == (Seq::<Seq<char>>::empty(), w),
    decreases w.len(),
{
    if w.len() > 0 {
        lemma_split_no_space(w.drop_last());
        assert(w.drop_last().push(w.last()) =~= w);
    }
}

/// A word without spaces put after a space ends up as one more piece.
proof fn lemma_split_after_space(a: Seq<char>, w: Seq<char>)
    requires
        !w.contains(' '),
    ensures
        split_state(a.push(' ') + w, ' ') == (split_on(a, ' '), w),
    decreases w.len(),
{
    let s = a.push(' ') + w;
    if w.len() == 0 {
        assert(s =~= a.push(' '));
        assert(s.drop_last() =~= a);
    } else {
        assert(s.drop_last() =~= a.push(' ') + w.drop_last());
        lemma_split_after_space(a, w.drop_last());
        assert(w.drop_last().push(w.last()) =~= w);
    }
}

proof fn lemma_words_state_no_space(s: Seq<char>)
    ensures
        forall|k: int| 0 <= k < words_state(s).0.len() ==> !(#[trigger] words_state(s).0[k]).contains(' '),
        !words_state(s).1.contains(' '),
    decreases s.len(),
{
    if s.len() > 0 {
        lemma_words_state_no_space(s.drop_last());
        let (done, cur) = words_state(s.drop_last());
        let d2 = words_state(s).0;
        assert(is_ws(' '));
        assert forall|k: int| 0 <= k < d2.len() implies !(#[trigger] d2[k]).contains(' ') by {
            if k < done.len() {
                assert(d2[k] == done[k]);
            }
        }
        if !is_ws(s.last()) {
            let c2 = cur.push(s.last());
            assert forall|j: int| 0 <= j < c2.len() implies c2[j] != ' ' by {
                if j < cur.len() {
                    assert(c2[j] == cur[j]);
                }
            }
        }
    }
}

proof fn lemma_words_no_space(s: Seq<char>)
    ensures
        forall|k: int| 0 <= k < words(s).len() ==> !(#[trigger] words(s)[k]).contains(' '),
{
    lemma_words_state_no_space(s);
}

proof fn lemma_chunks_fit(word: Seq<char>, max: nat)
    requires
        !word.contains(' '),
    ensures
        forall|k: int| 0 <= k < chunk_state(word, max).0.len() ==> line_fits(#[trigger] chunk_state(word, max).0[k], max),
        !chunk_state(word, max).1.contains(' '),
        chunk_state(word, max).2 == chars_width_sum(chunk_state(word, max).1),
    decreases word.len(),
{
    if word.len() > 0 {
        let w0 = word.drop_last();
        assert forall|j: int| 0 <= j < w0.len() implies w0[j] != ' ' by {
            assert(w0[j] == word[j]);
        }
        lemma_chunks_fit(w0, max);
        lemma_chunk_width(w0, max);
        let (ls, chunk, cw) = chunk_state(w0, max);
        let c = word.last();
        assert(c != ' ');
        let one = seq![c];
        assert(one.drop_last() =~= Seq::<char>::empty());
        assert(chars_width_sum(one.drop_last()) == 0);
        assert(one.last() == c);
        assert(chars_width_sum(one) == char_width(c) as nat);
        assert(chunk.push(c).drop_last() =~= chunk);
        let c2 = chunk.push(c);
        assert forall|j: int| 0 <= j < c2.len() implies c2[j] != ' ' by {
            if j < chunk.len() {
                assert(c2[j] == chunk[j]);
            }
        }
        let l2 = chunk_state(word, max).0;
        assert forall|k: int| 0 <= k < l2.len() implies line_fits(#[trigger] l2[k], max) by {
            if k < ls.len() {
                assert(l2[k] == ls[k]);
            }
        }
    }
}

proof fn lemma_chunked_fit(word: Seq<char>, max: nat)
    requires
        !word.contains(' '),
    ensures
        forall|k: int| 0 <= k < chunked(word, max).len() ==> line_fits(#[trigger] chunked(word, max)[k], max),
{
    lemma_chunks_fit(word, max);
    lemma_chunk_width(word, max);
    let (ls, chunk, cw) = chunk_state(word, max);
    let r = chunked(word, max);
    assert forall|k: int| 0 <= k < r.len() implies line_fits(#[trigger] r[k], max) by {
        if k < ls.len() {
            assert(r[k] == ls[k]);
        }
    }
}

proof fn lemma_wrap_fold_fits(ws: Seq<Seq<char>>, max: nat)
    requires
        max > 0,
        forall|k: int| 0 <= k < ws.len() ==> (#[trigger] ws[k]).len() > 0 && !ws[k].contains(' '),
    ensures
        ({
            let st = wrap_fold(ws, max);
            &&& forall|k: int| 0 <= k < st.0.len() ==> line_fits(#[trigger] st.0[k], max)
            &&& st.1.len() == 0 ==> st.2 == 0
            &&& st.1.len() > 0 ==> spaced_width(split_on(st.1, ' ')) == st.2 && st.2 <= max
        }),
    decreases ws.len(),
{
    if ws.len() > 0 {
        let w0 = ws.drop_last();
        assert forall|k: int| 0 <= k < w0.len() implies (#[trigger] w0[k]).len() > 0 && !w0[k].contains(' ') by {
            assert(w0[k] == ws[k]);
        }
        lemma_wrap_fold_fits(w0, max);
        let (ls, cur, cw) = wrap_fold(w0, max);
        let word = ws.last();
        assert(word == ws[ws.len() - 1]);
        let ww = display_width(word) as nat;
        lemma_split_no_space(word);
        let sw = split_on(word, ' ');
        assert(sw =~= seq![word]);
        assert(spaced_width(sw) == ww);
        let sep: nat = if cur.len() == 0 {
            0
        } else {
            1
        };
        let st = wrap_fold(ws, max);
        if cw + sep + ww <= max {
            if cur.len() > 0 {
                lemma_split_after_space(cur, word);
                let sc = split_on(cur, ' ');
                let s2 = split_on(cur.push(' ') + word, ' ');
                assert(s2 == sc.push(word));
                assert(s2.drop_last() =~= sc);
                assert(spaced_width(s2) == spaced_width(sc) + 1 + ww);
            } else {
                assert(cur + word =~= word);
            }
        } else {
            let ls1 = if cur.len() > 0 {
                ls.push(cur)
            } else {
                ls
            };
            assert forall|k: int| 0 <= k < ls1.len() implies line_fits(#[trigger] ls1[k], max) by {
                if k < ls.len() {
                    assert(ls1[k] == ls[k]);
                }
            }
            if ww > max {
                lemma_chunked_fit(word, max);
                let r = ls1 + chunked(word, max);
                assert forall|k: int| 0 <= k < r.len() implies line_fits(#[trigger] r[k], max) by {
                    if k < ls1.len() {
                        assert(r[k] == ls1[k]);
                    } else {
                        assert(r[k] == chunked(word, max)[k - ls1.len()]);
                    }
                }
            }
        }
    }
}

/// Wrapping never makes a line wider than the limit: every line it gives is
/// empty, or words joined by single spaces whose widths plus one column per
/// space fit in `max` columns, or a piece of one over-long word whose chars
/// fit (a single char wider than the limit stands alone).
pub proof fn lemma_wrapped_lines_fit(text: Seq<char>, max: nat)
    requires
        max > 0,
    ensures
        forall|k: int| 0 <= k < wrapped(text, max).len() ==> line_fits(#[trigger] wrapped(text, max)[k], max),
{
    let ws = words(text);
    lemma_words_nonempty(text);
    lemma_words_no_space(text);
    lemma_wrap_fold_fits(ws, max);
    let (ls, cur, cw) = wrap_fold(ws, max);
    let r = wrapped(text, max);
    if cur.len() > 0 {
        assert forall|k: int| 0 <= k < r.len() implies line_fits(#[trigger] r[k], max) by {
            if k < ls.len() {
                assert(r[k] == ls[k]);
            }
        }
    } else if ls.len() == 0 {
        assert(line_fits(r[0], max));
    }
}

/// The lines of a wrapping pass so far, the open line included.
pub open spec fn lines_so_far(st: (Seq<Seq<char>>, Seq<char>, nat)) -> Seq<Seq<char>> {
    if st.1.len() > 0 {
        st.0.push(st.1)
    } else {
        st.0
    }
}

proof fn lemma_join_push(xs: Seq<Seq<char>>, a: Seq<char>, sep: Seq<char>)
    ensures
        join(xs.push(a), sep) == (if xs.len() == 0 {
            a
        } else {
            join(xs, sep) + sep + a
        }),
{
    assert(xs.push(a).drop_last() =~= xs);
    assert(xs.push(a).last() == a);
    if xs.len() == 0 {
        assert(xs.push(a)[0] == a);
    }
}

/// When every word fits the width: after a word the line is open, the lines
/// joined by spaces are the words joined by spaces, and each line is closed
/// only when the first word of the next one would not fit after it.
proof fn lemma_wrap_fold_all_fit(ws: Seq<Seq<char>>, max: nat)
    requires
        max > 0,
        forall|k: int|
            0 <= k < ws.len() ==> (#[trigger] ws[k]).len() > 0 && !ws[k].contains(' ') && display_width(ws[k])
                <= max,
    ensures
        ({
            let st = wrap_fold(ws, max);
            let a = lines_so_far(st);
            &&& ws.len() > 0 ==> st.1.len() > 0
            &&& ws.len() == 0 ==> a.len() == 0
            &&& join(a, seq![' ']) == join(ws, seq![' '])
            &&& forall|i: int|
                0 <= i && i + 1 < a.len() ==> spaced_width(split_on(#[trigger] a[i], ' ')) + 1 + display_width(
                    split_on(a[i + 1], ' ')[0],
                ) > max
        }),
    decreases ws.len(),
{
    if ws.len() > 0 {
        let w0 = ws.drop_last();
        assert forall|k: int|
            0 <= k < w0.len() implies (#[trigger] w0[k]).len() > 0 && !w0[k].contains(' ') && display_width(w0[k])
                <= max by {
            assert(w0[k] == ws[k]);
        }
        lemma_wrap_fold_all_fit(w0, max);
        lemma_wrap_fold_fits(w0, max);
        let st0 = wrap_fold(w0, max);
        let (ls, cur, cw) = st0;
        let a0 = lines_so_far(st0);
        let word = ws.last();
        assert(word == ws[ws.len() - 1]);
        let ww = display_width(word) as nat;
        lemma_split_no_space(word);
        assert(split_on(word, ' ') =~= seq![word]);
        let sp = seq![' '];
        assert(w0.push(word) =~= ws);
        lemma_join_push(w0, word, sp);
        let st = wrap_fold(ws, max);
        let a = lines_so_far(st);
        if cur.len() > 0 {
            assert(a0 == ls.push(cur));
            lemma_split_after_space(cur, word);
            let sc = split_on(cur, ' ');
            if cw + 1 + ww <= max {
                let c2 = cur.push(' ') + word;
                assert(a == ls.push(c2));
                lemma_join_push(ls, c2, sp);
                lemma_join_push(ls, cur, sp);
                if ls.len() > 0 {
                    assert(join(ls, sp) + sp + c2 =~= join(ls, sp) + sp + cur + sp + word);
                } else {
                    assert(c2 =~= cur + sp + word);
                }
                assert(split_on(c2, ' ') == sc.push(word));
                assert(split_on(c2, ' ')[0] == sc[0]);
                assert forall|i: int|
                    0 <= i && i + 1 < a.len() implies spaced_width(split_on(#[trigger] a[i], ' ')) + 1 + display_width(
                        split_on(a[i + 1], ' ')[0],
                    ) > max by {
                    assert(a[i] == a0[i]);
                    if i + 1 < a.len() - 1 {
                        assert(a[i + 1] == a0[i + 1]);
                    }
                }
            } else {
                assert(a == a0.push(word));
                lemma_join_push(a0, word, sp);
                assert forall|i: int|
                    0 <= i && i + 1 < a.len() implies spaced_width(split_on(#[trigger] a[i], ' ')) + 1 + display_width(
                        split_on(a[i + 1], ' ')[0],
                    ) > max by {
                    assert(a[i] == a0[i]);
                    if i + 1 < a.len() - 1 {
                        assert(a[i + 1] == a0[i + 1]);
                    } else {
                        assert(a[i + 1] == word);
                        assert(a[i] == cur);
                    }
                }
            }
        } else {
            assert(w0.len() == 0);
            assert(cur + word =~= word);
            assert(a =~= seq![word]);
            assert(join(a, sp) == word);
        }
    }
}

/// Wrapping only turns spaces into line breaks when every word fits the
/// width: the lines joined by single spaces are the words of the text joined
/// by single spaces, so no word is lost, split, repeated or moved.
pub proof fn lemma_wrapped_keeps_words(text: Seq<char>, max: nat)
    requires
        max > 0,
        forall|k: int| 0 <= k < words(text).len() ==> display_width(#[trigger] words(text)[k]) <= max,
    ensures
        join(wrapped(text, max), seq![' ']) == join(words(text), seq![' ']),
{
    let ws = words(text);
    lemma_words_nonempty(text);
    lemma_words_no_space(text);
    lemma_wrap_fold_all_fit(ws, max);
    if ws.len() == 0 {
        let r = wrapped(text, max);
        assert(r =~= seq![Seq::<char>::empty()]);
        assert(join(r, seq![' ']) == r[0]);
    }
}

/// Wrapping is greedy when every word fits the width: a line ends only where
/// the first word of the next line would not fit after it (its width, one
/// column for the space, and the line's own columns exceed `max`).
pub proof fn lemma_wrapped_breaks_only_when_full(text: Seq<char>, max: nat)
    requires
        max > 0,
        forall|k: int| 0 <= k < words(text).len() ==> display_width(#[trigger] words(text)[k]) <= max,
    ensures
        forall|i: int|
            0 <= i && i + 1 < wrapped(text, max).len() ==> spaced_width(split_on(#[trigger] wrapped(text, max)[i], ' '))
                + 1 + display_width(split_on(wrapped(text, max)[i + 1], ' ')[0]) > max,
{
    let ws = words(text);
    lemma_words_nonempty(text);
    lemma_words_no_space(text);
    lemma_wrap_fold_all_fit(ws, max);
}

fn chunk_word(lines_out: &mut Vec<Vec<char>>, word: &[char], max: usize)
    ensures
        views(final(lines_out)@) == views(old(lines_out)@) + chunked(word@, max as nat),
{
    let ghost start = views(lines_out@);
    let mut chunk: Vec<char> = Vec::new();
    let mut chunk_w: usize = 0;
    let mut ls: Vec<Vec<char>> = Vec::new();
    let mut i: usize = 0;
    while i < word.len()
        invariant
            i <= word.len(),
            (views(ls@), chunk@, chunk_w as nat) == chunk_state(word@.take(i as int), max as nat),
        decreases word.len() - i,
    {
        assert(word@.take(i + 1).drop_last() =~= word@.take(i as int));
        assert(word@.take(i + 1).last() == word@[i as int]);
        proof {
            lemma_chunk_width(word@.take(i as int), max as nat);
        }
        let one = [word[i]];
        assert(one@ =~= seq![word@[i as int]]);
        let w = chars_width(one.as_slice());
        let exceeds = chunk_w > max || w > max - chunk_w;
        if exceeds && chunk.len() > 0 {
            let done = chunk;
            let ghost before = views(ls@);
            ls.push(done);
            assert(views(ls@) =~= before.push(done@));
            chunk = Vec::new();
            chunk.push(word[i]);
            assert(chunk@ =~= seq![word@[i as int]]);
            chunk_w = w;
        } else {
            chunk.push(word[i]);
            chunk_w = chunk_w + w;
        }
        i += 1;
    }
    assert(word@.take(word.len() as int) =~= word@);
    if chunk.len() > 0 {
        let ghost before = views(ls@);
        ls.push(chunk);
        assert(views(ls@) =~= before.push(chunk@));
    }
    let mut k: usize = 0;
    let ghost lv = views(ls@);
    while k < ls.len()
        invariant
            k <= ls.len(),
            lv == views(ls@),
            views(lines_out@) == start + lv.take(k as int),
        decreases ls.len() - k,
    {
        let ghost before = views(lines_out@);
        lines_out.push(ls[k].clone());
        assert(views(lines_out@) =~= before.push(lv[k as int]));
        assert(lv.take(k + 1) =~= lv.take(k as int).push(lv[k as int]));
        k += 1;
    }
    assert(lv.take(ls.len() as int) =~= lv);
}

fn wrap_chars(text: &[char], max_width: usize) -> (r: Vec<Vec<char>>)
    ensures
        views(r@) == wrapped(text@, max_width as nat),
{
    if max_width == 0 {
        let mut r: Vec<Vec<char>> = Vec::new();
        let mut one: Vec<char> = Vec::new();
        extend_chars(&mut one, text);
        r.push(one);
        assert(views(r@) =~= seq![text@]);
        return r;
    }
    let ws = words_chars(text);
    let ghost wv = views(ws@);
    proof {
        lemma_words_nonempty(text@);
    }
    let mut ls: Vec<Vec<char>> = Vec::new();
    let mut current: Vec<char> = Vec::new();
    let mut current_width: usize = 0;
    let mut i: usize = 0;
    while i < ws.len()
        invariant
            i <= ws.len(),
            wv == views(ws@),
            max_width > 0,
            (views(ls@), current@, current_width as nat) == wrap_fold(wv.take(i as int), max_width as nat),
            current_width <= max_width,
            current@.len() == 0 ==> current_width == 0,
            forall|k: int| 0 <= k < wv.len() ==> (#[trigger] wv[k]).len() > 0,
        decreases ws.len() - i,
    {
        assert(wv.take(i + 1).drop_last() =~= wv.take(i as int));
        assert(wv.take(i + 1).last() == ws@[i as int]@);
        let word = ws[i].as_slice();
        assert(word@ == wv[i as int]);
        let word_width = chars_width(word);
        let ghost expected = wrap_step(wrap_fold(wv.take(i as int), max_width as nat), word@, max_width as nat);
        let fits = if current.len() > 0 {
            current_width < max_width && word_width <= max_width - current_width - 1
        } else {
            word_width <= max_width - current_width
        };
        if fits {
            if current.len() > 0 {
                current.push(' ');
                current_width += 1;
            }
            extend_chars(&mut current, word);
            current_width += word_width;
            assert(current@ == expected.1);
            assert(views(ls@) == expected.0);
            assert(current_width == expected.2);
        } else {
            if current.len() > 0 {
                let done = current;
                let ghost before = views(ls@);
                ls.push(done);
                assert(views(ls@) =~= before.push(done@));
                current = Vec::new();
                current_width = 0;
            }
            if word_width <= max_width {
                extend_chars(&mut current, word);
                assert(current@ =~= word@);
                current_width = word_width;
                assert(views(ls@) == expected.0);
            } else {
                chunk_word(&mut ls, word, max_width);
                assert(current@ =~= Seq::<char>::empty());
                assert(views(ls@) == expected.0);
            }
        }
        i += 1;
    }
    assert(wv.take(ws.len() as int) =~= wv);
    if current.len() > 0 {
        let ghost before = views(ls@);
        ls.push(current);
        assert(views(ls@) =~= before.push(current@));
    }
    if ls.len() == 0 {
        ls.push(Vec::new());
        assert(views(ls@) =~= seq![Seq::<char>::empty()]);
    }
    ls
}

/// Greedy word wrap of `text` to `max_width` columns (see `wrapped`).
pub fn wrap_text(text: &str, max_width: usize) -> (r: Vec<String>)
    ensures
        string_views(r@) == wrapped(text@, max_width as nat),
{
    let c = chars_of(text);
    let ls = wrap_chars(c.as_slice(), max_width);
    to_strings(&ls)
}

fn to_strings(v: &Vec<Vec<char>>) -> (r: Vec<String>)
    ensures
        string_views(r@) == views(v@),
{
    let mut r: Vec<String> = Vec::new();
    let mut i: usize = 0;
    while i < v.len()
        invariant
            i <= v.len(),
            string_views(r@) == views(v@).take(i as int),
        decreases v.len() - i,
    {
        let ghost before = string_views(r@);
        let s = string_of(v[i].as_slice());
        r.push(s);
        assert(string_views(r@) =~= before.push(s@));
        assert(views(v@).take(i + 1) =~= views(v@).take(i as int).push(views(v@)[i as int]));
        i += 1;
    }
    assert(views(v@).take(v.len() as int) =~= views(v@));
    r
}

/// Lines with tabs or double spaces are taken to be laid out by hand.
pub open spec fn preformatted(line: Seq<char>) -> bool {
    line.contains('\t') || contains_sub(line, seq![' ', ' '])
}

pub fn looks_preformatted(line: &str) -> (b: bool)
    ensures
        b == preformatted(line@),
{
    let c = chars_of(line);
    let tab = ['\t'];
    let two = [' ', ' '];
    assert(two@ =~= seq![' ', ' ']);
    let has_tab = contains_chars(c.as_slice(), tab.as_slice());
    proof {
        if c@.contains('\t') {
            let k = choose|k: int| 0 <= k < c@.len() && c@[k] == '\t';
            assert(c@.subrange(k, k + 1) =~= tab@);
        }
        if contains_sub(c@, tab@) {
            let k = choose|k: int| 0 <= k && k + 1 <= c@.len() && #[trigger] c@.subrange(k, k + 1) == tab@;
            assert(c@[k] == c@.subrange(k, k + 1)[0]);
        }
    }
    has_tab || contains_chars(c.as_slice(), two.as_slice())
}

/// Lines with trailing empty lines removed.
pub open spec fn drop_trailing_empty(ls: Seq<Seq<char>>) -> Seq<Seq<char>>
    decreases ls.len(),
{
    if ls.len() > 0 && ls.last().len() == 0 {
        drop_trailing_empty(ls.drop_last())
    } else {
        ls
    }
}

/// Output lines of one source line in wrap mode: blank lines become empty
/// lines, preformatted lines are kept, others are word wrapped.
pub open spec fn wrap_line_out(line: Seq<char>, max: nat) -> Seq<Seq<char>> {
    if trim(line).len() == 0 {
        seq![seq![]]
    } else if preformatted(line) {
        seq![line]
    } else {
        wrapped(line, max)
    }
}

pub open spec fn wrap_lines_fold(ls: Seq<Seq<char>>, max: nat) -> Seq<Seq<char>>
    decreases ls.len(),
{
    if ls.len() == 0 {
        seq![]
    } else {
        wrap_lines_fold(ls.drop_last(), max) + wrap_line_out(ls.last(), max)
    }
}

/// Wrap mode: every source line wrapped on its own to `max` columns, blank
/// lines kept, preformatted lines left as they are, trailing empty lines
/// dropped; a limit of 0 leaves the text unchanged.
pub open spec fn wrapped_preserving(text: Seq<char>, max: nat) -> Seq<char> {
    if max == 0 {
        text
    } else {
        join(drop_trailing_empty(wrap_lines_fold(lines(text), max)), seq!['\n'])
    }
}

/// Wrap mode makes no line wider than the limit but the ones laid out by
/// hand: every output line fits in `max` columns (see `line_fits`) or is a
/// preformatted source line kept as it is.
pub proof fn lemma_wrap_mode_lines_fit(ls: Seq<Seq<char>>, max: nat)
    requires
        max > 0,
    ensures
        forall|k: int|
            0 <= k < wrap_lines_fold(ls, max).len() ==> line_fits(#[trigger] wrap_lines_fold(ls, max)[k], max) || (
            ls.contains(wrap_lines_fold(ls, max)[k]) && preformatted(wrap_lines_fold(ls, max)[k])),
    decreases ls.len(),
{
    if ls.len() > 0 {
        let l0 = ls.drop_last();
        lemma_wrap_mode_lines_fit(l0, max);
        let a = wrap_lines_fold(l0, max);
        let line = ls.last();
        let b = wrap_line_out(line, max);
        let r = wrap_lines_fold(ls, max);
        assert(r == a + b);
        if trim(line).len() != 0 && !preformatted(line) {
            lemma_wrapped_lines_fit(line, max);
        }
        assert forall|k: int| 0 <= k < r.len() implies line_fits(#[trigger] r[k], max) || (ls.contains(r[k])
            && preformatted(r[k])) by {
            if k < a.len() {
                assert(r[k] == a[k]);
                if !line_fits(a[k], max) {
                    let j = choose|j: int| 0 <= j < l0.len() && l0[j] == a[k];
                    assert(ls[j] == l0[j]);
                }
            } else {
                assert(r[k] == b[k - a.len()]);
                if trim(line).len() == 0 {
                    assert(b[k - a.len()].len() == 0);
                } else if preformatted(line) {
                    assert(ls[ls.len() - 1] == line);
                }
            }
        }
    }
}

proof fn lemma_flushed_wrap_fits(out: Seq<Seq<char>>, para: Seq<char>, max: nat)
    requires
        max > 0,
        forall|k: int| 0 <= k < out.len() ==> line_fits(#[trigger] out[k], max),
    ensures
        forall|k: int| 0 <= k < flushed_wrap(out, para, max).len() ==> line_fits(#[trigger] flushed_wrap(out, para, max)[k], max),
{
    let r = flushed_wrap(out, para, max);
    if trim(para).len() != 0 {
        lemma_wrapped_lines_fit(trim(para), max);
        let w = wrapped(trim(para), max);
        assert forall|k: int| 0 <= k < r.len() implies line_fits(#[trigger] r[k], max) by {
            if k < out.len() {
                assert(r[k] == out[k]);
            } else {
                assert(r[k] == w[k - out.len()]);
            }
        }
    }
}

proof fn lemma_reflow_wrap_state_fits(ls: Seq<Seq<char>>, max: nat)
    requires
        max > 0,
    ensures
        forall|k: int| 0 <= k < reflow_wrap_state(ls, max).0.len() ==> line_fits(#[trigger] reflow_wrap_state(ls, max).0[k], max),
    decreases ls.len(),
{
    if ls.len() > 0 {
        lemma_reflow_wrap_state_fits(ls.drop_last(), max);
        let (out, para) = reflow_wrap_state(ls.drop_last(), max);
        let line = ls.last();
        if trim(line).len() == 0 {
            lemma_flushed_wrap_fits(out, para, max);
            let out1 = flushed_wrap(out, para, max);
            let o2 = out1.push(seq![]);
            assert forall|k: int| 0 <= k < o2.len() implies line_fits(#[trigger] o2[k], max) by {
                if k < out1.len() {
                    assert(o2[k] == out1[k]);
                }
            }
        }
    }
}

/// Reflow mode makes no line wider than the limit: every line of the
/// paragraphs wrapped (and of the blank lines between them) fits in `max`
/// columns (see `line_fits`).
pub proof fn lemma_reflow_mode_lines_fit(text: Seq<char>, max: nat)
    requires
        max > 0,
    ensures
        ({
            let (out, para) = reflow_wrap_state(lines(text), max);
            forall|k: int| 0 <= k < flushed_wrap(out, para, max).len() ==> line_fits(#[trigger] flushed_wrap(out, para, max)[k], max)
        }),
{
    lemma_reflow_wrap_state_fits(lines(text), max);
    let (out, para) = reflow_wrap_state(lines(text), max);
    lemma_flushed_wrap_fits(out, para, max);
}

fn append_lines(out: &mut Vec<Vec<char>>, more: Vec<Vec<char>>)
    ensures
        views(final(out)@) == views(old(out)@) + views(more@),
{
    let ghost start = views(out@);
    let ghost mv = views(more@);
    let mut k: usize = 0;
    while k < more.len()
        invariant
            k <= more.len(),
            mv == views(more@),
            views(out@) == start + mv.take(k as int),
        decreases more.len() - k,
    {
        let ghost before = views(out@);
        out.push(more[k].clone());
        assert(views(out@) =~= before.push(mv[k as int]));
        assert(mv.take(k + 1) =~= mv.take(k as int).push(mv[k as int]));
        k += 1;
    }
    assert(mv.take(more.len() as int) =~= mv);
}

fn pop_trailing_empty(ls: &mut Vec<Vec<char>>)
    ensures
        views(final(ls)@) == drop_trailing_empty(views(old(ls)@)),
{
    let ghost start = views(ls@);
    while ls.len() > 0 && ls[ls.len() - 1].len() == 0
        invariant
            drop_trailing_empty(views(ls@)) == drop_trailing_empty(start),
        decreases ls.len(),
    {
        let ghost before = views(ls@);
        ls.pop();
        assert(views(ls@) =~= before.drop_last());
    }
}

/// Wrap mode (see `wrapped_preserving`).
pub fn wrap_preserving_lines(text: &str, max_width: usize) -> (r: String)
    ensures
        r@ == wrapped_preserving(text@, max_width as nat),
{
    let c = chars_of(text);
    if max_width == 0 {
        return string_of(c.as_slice());
    }
    let ls = lines_chars(c.as_slice());
    let ghost lv = views(ls@);
    let mut out: Vec<Vec<char>> = Vec::new();
    let mut i: usize = 0;
    while i < ls.len()
        invariant
            i <= ls.len(),
            lv == views(ls@),
            max_width > 0,
            views(out@) == wrap_lines_fold(lv.take(i as int), max_width as nat),
        decreases ls.len() - i,
    {
        assert(lv.take(i + 1).drop_last() =~= lv.take(i as int));
        assert(lv.take(i + 1).last() == lv[i as int]);
        let line = ls[i].as_slice();
        let ghost before = views(out@);
        if is_blank(line) {
            out.push(Vec::new());
            assert(views(out@) =~= before + seq![Seq::<char>::empty()]);
        } else {
            let st = string_of(line);
            if looks_preformatted(st.as_str()) {
                out.push(ls[i].clone());
                assert(views(out@) =~= before + seq![lv[i as int]]);
            } else {
                let w = wrap_chars(line, max_width);
                append_lines(&mut out, w);
            }
        }
        i += 1;
    }
    assert(lv.take(ls.len() as int) =~= lv);
    pop_trailing_empty(&mut out);
    let nl = ['\n'];
    assert(nl@ =~= seq!['\n']);
    let joined = join_chars(&out, nl.as_slice());
    string_of(joined.as_slice())
}

/// Reflow-mode wrapping, left to right over the source lines: output lines
/// and the open paragraph.
pub open spec fn reflow_wrap_state(ls: Seq<Seq<char>>, max: nat) -> (Seq<Seq<char>>, Seq<char>)
    decreases ls.len(),
{
    if ls.len() == 0 {
        (seq![], seq![])
    } else {
        let (out, para) = reflow_wrap_state(ls.drop_last(), max);
        let line = ls.last();
        if trim(line).len() == 0 {
            let out1 = flushed_wrap(out, para, max);
            (if out1.len() > 0 && out1.last().len() == 0 {
                out1
            } else {
                out1.push(seq![])
            }, seq![])
        } else {
            (out, (if para.len() > 0 {
                para.push(' ')
            } else {
                para
            }) + trim(line))
        }
    }
}

/// Closing a paragraph: its trimmed text, word wrapped, unless it is blank.
pub open spec fn flushed_wrap(out: Seq<Seq<char>>, para: Seq<char>, max: nat) -> Seq<Seq<char>> {
    if trim(para).len() == 0 {
        out
    } else {
        out + wrapped(trim(para), max)
    }
}

/// Reflow mode: consecutive non-blank lines are joined with spaces into one
/// paragraph, each paragraph is word wrapped to `max` columns, paragraphs are
/// separated by one empty line and trailing empty lines are dropped; a limit
/// of 0 leaves the text unchanged.
pub open spec fn wrapped_reflow(text: Seq<char>, max: nat) -> Seq<char> {
    if max == 0 {
        text
    } else {
        let (out, para) = reflow_wrap_state(lines(text), max);
        join(drop_trailing_empty(flushed_wrap(out, para, max)), seq!['\n'])
    }
}

fn flush_wrap(out: &mut Vec<Vec<char>>, para: &mut Vec<char>, max_width: usize)
    ensures
        views(final(out)@) == flushed_wrap(views(old(out)@), old(para)@, max_width as nat),
        final(para)@.len() == 0,
{
    let t = trim_chars(para.as_slice());
    para.clear();
    if t.len() == 0 {
        return;
    }
    let w = wrap_chars(t.as_slice(), max_width);
    append_lines(out, w);
}

/// Reflow mode (see `wrapped_reflow`).
pub fn wrap_reflow_text(text: &str, max_width: usize) -> (r: String)
    ensures
        r@ == wrapped_reflow(text@, max_width as nat),
{
    let c = chars_of(text);
    if max_width == 0 {
        return string_of(c.as_slice());
    }
    let ls = lines_chars(c.as_slice());
    let ghost lv = views(ls@);
    let mut out: Vec<Vec<char>> = Vec::new();
    let mut para: Vec<char> = Vec::new();
    let mut i: usize = 0;
    while i < ls.len()
        invariant
            i <= ls.len(),
            lv == views(ls@),
            (views(out@), para@) == reflow_wrap_state(lv.take(i as int), max_width as nat),
        decreases ls.len() - i,
    {
        assert(lv.take(i + 1).drop_last() =~= lv.take(i as int));
        assert(lv.take(i + 1).last() == lv[i as int]);
        let line = ls[i].as_slice();
        if is_blank(line) {
            flush_wrap(&mut out, &mut para, max_width);
            assert(para@ =~= Seq::<char>::empty());
            if !(out.len() > 0 && out[out.len() - 1].len() == 0) {
                let ghost before = views(out@);
                out.push(Vec::new());
                assert(views(out@) =~= before.push(seq![]));
            }
        } else {
            if para.len() > 0 {
                para.push(' ');
            }
            let t = trim_chars(line);
            extend_chars(&mut para, t.as_slice());
        }
        i += 1;
    }
    assert(lv.take(ls.len() as int) =~= lv);
    flush_wrap(&mut out, &mut para, max_width);
    pop_trailing_empty(&mut out);
    let nl = ['\n'];
    assert(nl@ =~= seq!['\n']);
    let joined = join_chars(&out, nl.as_slice());
    string_of(joined.as_slice())
}

} // verus!
