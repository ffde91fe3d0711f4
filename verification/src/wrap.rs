//! Word-wrapping of quote text under a width budget, measured in characters.
//!
//! The text is first split on explicit newline characters into natural lines.
//! The words of each natural line are then packed greedily: each word is
//! appended to the current output line together with one trailing space, and
//! when the next word would push the accumulated length past the budget the
//! line is flushed first.  The end of every natural line flushes the
//! accumulator as well, even when it is empty, so an intentional blank line
//! in the text yields one empty output line.  Trailing spaces are kept.

use vstd::prelude::*;
use vstd::string::StrSliceExecFns;
use vstd::string::StringExecFns;
use crate::quotes::Quote;

verus! {

/// Whether `c` separates words: the Unicode white-space characters.
pub open spec fn is_space(c: char) -> bool {
    ||| c == '\t'
    ||| c == '\n'
    ||| c == '\u{b}'
    ||| c == '\u{c}'
    ||| c == '\r'
    ||| c == ' '
    ||| c == '\u{85}'
    ||| c == '\u{a0}'
    ||| c == '\u{1680}'
    ||| c == '\u{2000}'
    ||| c == '\u{2001}'
    ||| c == '\u{2002}'
    ||| c == '\u{2003}'
    ||| c == '\u{2004}'
    ||| c == '\u{2005}'
    ||| c == '\u{2006}'
    ||| c == '\u{2007}'
    ||| c == '\u{2008}'
    ||| c == '\u{2009}'
    ||| c == '\u{200a}'
    ||| c == '\u{2028}'
    ||| c == '\u{2029}'
    ||| c == '\u{202f}'
    ||| c == '\u{205f}'
    ||| c == '\u{3000}'
}

/// The pending word as a completed word list: a singleton when it is
/// non-empty, nothing otherwise.
pub open spec fn flush_word(cur: Seq<char>) -> Seq<Seq<char>> {
    if cur.len() > 0 {
        seq![cur]
    } else {
        Seq::empty()
    }
}

/// The words of `s` when scanning starts with the pending partial word `cur`:
/// maximal runs of non-space characters, in order.
pub open spec fn split_words(s: Seq<char>, cur: Seq<char>) -> Seq<Seq<char>>
    decreases s.len(),
{
    if s.len() == 0 {
        flush_word(cur)
    } else if is_space(s[0]) {
        flush_word(cur) + split_words(s.skip(1), Seq::empty())
    } else {
        split_words(s.skip(1), cur.push(s[0]))
    }
}

/// The words of `s`.
pub open spec fn words(s: Seq<char>) -> Seq<Seq<char>> {
    split_words(s, Seq::empty())
}

/// The natural lines of `s` when scanning starts with the partial line `cur`:
/// every newline character ends a line, and the end of the text ends one more,
/// so a text with n newlines has n + 1 natural lines.
pub open spec fn split_lines(s: Seq<char>, cur: Seq<char>) -> Seq<Seq<char>>
    decreases s.len(),
{
    if s.len() == 0 {
        seq![cur]
    } else if s[0] == '\n' {
        seq![cur] + split_lines(s.skip(1), Seq::empty())
    } else {
        split_lines(s.skip(1), cur.push(s[0]))
    }
}

/// The natural lines of `s`.
pub open spec fn natural_lines(s: Seq<char>) -> Seq<Seq<char>> {
    split_lines(s, Seq::empty())
}

/// The text of one output line: its words, each followed by one space.
pub open spec fn render_line(lw: Seq<Seq<char>>) -> Seq<char>
    decreases lw.len(),
{
    if lw.len() == 0 {
        Seq::empty()
    } else {
        lw[0] + seq![' '] + render_line(lw.skip(1))
    }
}

/// Greedy packing of the words `ws` into lines of at most `width` characters
/// of accumulated word-plus-space content, starting from the partially filled
/// line `cur`.  A word that would push the accumulated length past `width`
/// flushes the line first and always starts the next one, however long the
/// word itself is.  The last line is flushed even when it is empty.
pub open spec fn pack_words(ws: Seq<Seq<char>>, width: int, cur: Seq<Seq<char>>) -> Seq<
    Seq<Seq<char>>,
>
    decreases ws.len(),
{
    if ws.len() == 0 {
        seq![cur]
    } else if render_line(cur).len() + ws[0].len() > width {
        seq![cur] + pack_words(ws.skip(1), width, seq![ws[0]])
    } else {
        pack_words(ws.skip(1), width, cur.push(ws[0]))
    }
}

/// Each packed line, rendered as text.
pub open spec fn render_all(lws: Seq<Seq<Seq<char>>>) -> Seq<Seq<char>> {
    lws.map_values(|lw: Seq<Seq<char>>| render_line(lw))
}

/// The wrapped text of the natural lines `nls`: each natural line is packed
/// independently, and the resulting output lines are concatenated in order.
pub open spec fn wrap_lines(nls: Seq<Seq<char>>, width: int) -> Seq<Seq<char>>
    decreases nls.len(),
{
    if nls.len() == 0 {
        Seq::empty()
    } else {
        render_all(pack_words(words(nls[0]), width, Seq::empty())) + wrap_lines(
            nls.skip(1),
            width,
        )
    }
}

/// The wrapped form of `text` under the width budget `width`.
pub open spec fn wrap_spec(text: Seq<char>, width: int) -> Seq<Seq<char>> {
    wrap_lines(natural_lines(text), width)
}

/// Whether `c` separates words, decided in executable code.
fn is_space_char(c: char) -> (r: bool)
    ensures
        r == is_space(c),
{
    c == '\t' || c == '\n' || c == '\u{b}' || c == '\u{c}' || c == '\r' || c == ' '
        || c == '\u{85}' || c == '\u{a0}' || c == '\u{1680}' || c == '\u{2000}' || c == '\u{2001}'
        || c == '\u{2002}' || c == '\u{2003}' || c == '\u{2004}' || c == '\u{2005}'
        || c == '\u{2006}' || c == '\u{2007}' || c == '\u{2008}' || c == '\u{2009}'
        || c == '\u{200a}' || c == '\u{2028}' || c == '\u{2029}' || c == '\u{202f}'
        || c == '\u{205f}' || c == '\u{3000}'
}

/// Splits `text` on newline characters into its natural lines.
fn split_natural_lines(text: &str) -> (nls: Vec<String>)
    ensures
        nls.deep_view() == natural_lines(text@),
{
    let n = text.unicode_len();
    let mut nls: Vec<String> = Vec::new();
    let mut start: usize = 0;
    let mut i: usize = 0;
    proof {
        assert(nls.deep_view() =~= Seq::<Seq<char>>::empty());
        assert(text@.skip(0) =~= text@);
        assert(text@.subrange(0, 0) =~= Seq::<char>::empty());
        assert(Seq::<Seq<char>>::empty() + split_lines(text@, Seq::<char>::empty()) =~= split_lines(
            text@,
            Seq::<char>::empty(),
        ));
    }
    while i < n
        invariant
            n == text@.len(),
            start <= i <= n,
            natural_lines(text@) == nls.deep_view() + split_lines(
                text@.skip(i as int),
                text@.subrange(start as int, i as int),
            ),
        decreases n - i,
    {
        let ghost cur = text@.subrange(start as int, i as int);
        proof {
            assert(text@.skip(i as int)[0] == text@[i as int]);
            assert(text@.skip(i as int).skip(1) =~= text@.skip(i as int + 1));
        }
        let c = text.get_char(i);
        if c == '\n' {
            let line = text.substring_char(start, i).to_owned();
            proof {
                assert(nls.deep_view().push(line@) =~= nls.deep_view() + seq![cur]);
            }
            let ghost old_view = nls.deep_view();
            nls.push(line);
            proof {
                assert(nls.deep_view() =~= old_view.push(line@));
                assert(text@.subrange(i as int + 1, i as int + 1) =~= Seq::<char>::empty());
            }
            start = i + 1;
        } else {
            proof {
                assert(cur.push(text@[i as int]) =~= text@.subrange(start as int, i as int + 1));
            }
        }
        i = i + 1;
    }
    let last = text.substring_char(start, n).to_owned();
    let ghost old_view = nls.deep_view();
    let ghost cur = text@.subrange(start as int, n as int);
    nls.push(last);
    proof {
        assert(text@.skip(n as int) =~= Seq::<char>::empty());
        assert(nls.deep_view() =~= old_view + seq![cur]);
    }
    nls
}

/// Splits one natural line on white space into its words.
fn split_line_words(line: &str) -> (ws: Vec<String>)
    ensures
        ws.deep_view() == words(line@),
{
    let n = line.unicode_len();
    let mut ws: Vec<String> = Vec::new();
    let mut start: usize = 0;
    let mut i: usize = 0;
    proof {
        assert(ws.deep_view() =~= Seq::<Seq<char>>::empty());
        assert(line@.skip(0) =~= line@);
        assert(line@.subrange(0, 0) =~= Seq::<char>::empty());
        assert(Seq::<Seq<char>>::empty() + split_words(line@, Seq::<char>::empty()) =~= split_words(
            line@,
            Seq::<char>::empty(),
        ));
    }
    while i < n
        invariant
            n == line@.len(),
            start <= i <= n,
            words(line@) == ws.deep_view() + split_words(
                line@.skip(i as int),
                line@.subrange(start as int, i as int),
            ),
        decreases n - i,
    {
        let ghost cur = line@.subrange(start as int, i as int);
        proof {
            assert(line@.skip(i as int)[0] == line@[i as int]);
            assert(line@.skip(i as int).skip(1) =~= line@.skip(i as int + 1));
        }
        let c = line.get_char(i);
        if is_space_char(c) {
            if start < i {
                let word = line.substring_char(start, i).to_owned();
                let ghost old_view = ws.deep_view();
                ws.push(word);
                proof {
                    assert(flush_word(cur) =~= seq![cur]);
                    assert(ws.deep_view() =~= old_view + flush_word(cur));
                }
            } else {
                proof {
                    assert(cur =~= Seq::<char>::empty());
                    assert(flush_word(cur) =~= Seq::<Seq<char>>::empty());
                    assert(ws.deep_view() + flush_word(cur) =~= ws.deep_view());
                }
            }
            start = i + 1;
            proof {
                assert(line@.subrange(i as int + 1, i as int + 1) =~= Seq::<char>::empty());
            }
        } else {
            proof {
                assert(cur.push(line@[i as int]) =~= line@.subrange(start as int, i as int + 1));
            }
        }
        i = i + 1;
    }
    let ghost cur = line@.subrange(start as int, n as int);
    proof {
        assert(line@.skip(n as int) =~= Seq::<char>::empty());
    }
    if start < n {
        let word = line.substring_char(start, n).to_owned();
        let ghost old_view = ws.deep_view();
        ws.push(word);
        proof {
            assert(flush_word(cur) =~= seq![cur]);
            assert(ws.deep_view() =~= old_view + flush_word(cur));
        }
    } else {
        proof {
            assert(cur =~= Seq::<char>::empty());
            assert(ws.deep_view() + flush_word(cur) =~= ws.deep_view());
        }
    }
    ws
}

/// Appending a word to a partial line appends the word and one space to its
/// rendered text.
proof fn lemma_render_push(lw: Seq<Seq<char>>, w: Seq<char>)
    ensures
        render_line(lw.push(w)) == render_line(lw) + w + seq![' '],
    decreases lw.len(),
{
    if lw.len() == 0 {
        assert(lw.push(w)[0] == w);
        assert(lw.push(w).skip(1) =~= Seq::<Seq<char>>::empty());
        assert(render_line(lw.push(w)) == w + seq![' '] + render_line(
            Seq::<Seq<char>>::empty(),
        ));
        assert(render_line(lw.push(w)) =~= render_line(lw) + w + seq![' ']);
    } else {
        assert(lw.push(w)[0] == lw[0]);
        assert(lw.push(w).skip(1) =~= lw.skip(1).push(w));
        lemma_render_push(lw.skip(1), w);
        assert(render_line(lw.push(w)) =~= render_line(lw) + w + seq![' ']);
    }
}

/// Packs the words `ws` greedily into output lines of width budget `width`.
fn pack_line(ws: &Vec<String>, width: usize) -> (out: Vec<String>)
    ensures
        out.deep_view() == render_all(pack_words(ws.deep_view(), width as int, Seq::empty())),
{
    let ghost all = ws.deep_view();
    let mut out: Vec<String> = Vec::new();
    let mut cur = String::new();
    let ghost mut curw: Seq<Seq<char>> = Seq::empty();
    let mut j: usize = 0;
    proof {
        assert(out.deep_view() =~= Seq::<Seq<char>>::empty());
        assert(cur@ =~= render_line(curw));
        assert(all.skip(0) =~= all);
        assert(Seq::<Seq<char>>::empty() + render_all(pack_words(all, width as int, curw))
            =~= render_all(pack_words(all, width as int, curw)));
    }
    while j < ws.len()
        invariant
            j <= ws.len(),
            all == ws.deep_view(),
            cur@ == render_line(curw),
            render_all(pack_words(all, width as int, Seq::empty())) == out.deep_view()
                + render_all(pack_words(all.skip(j as int), width as int, curw)),
        decreases ws.len() - j,
    {
        let ghost rest = all.skip(j as int);
        proof {
            assert(rest[0] == all[j as int]);
            assert(rest.skip(1) =~= all.skip(j as int + 1));
        }
        let w: &String = &ws[j];
        let wl = w.as_str().unicode_len();
        let cl = cur.as_str().unicode_len();
        if wl > width || cl > width - wl {
            // The word would not fit: flush the current line and start a new
            // one with this word.
            let ghost old_out = out.deep_view();
            out.push(cur);
            cur = String::new();
            proof {
                assert(out.deep_view() =~= old_out.push(render_line(curw)));
                assert(pack_words(rest, width as int, curw) == seq![curw] + pack_words(
                    rest.skip(1),
                    width as int,
                    seq![rest[0]],
                ));
                assert(old_out.push(render_line(curw)) =~= old_out + render_all(seq![curw]));
                assert(render_all(seq![curw] + pack_words(rest.skip(1), width as int, seq![rest[0]]))
                    =~= render_all(seq![curw]) + render_all(
                    pack_words(rest.skip(1), width as int, seq![rest[0]]),
                ));
                curw = Seq::empty();
            }
        } else {
            proof {
                assert(pack_words(rest, width as int, curw) == pack_words(
                    rest.skip(1),
                    width as int,
                    curw.push(rest[0]),
                ));
            }
        }
        cur.append(w.as_str());
        cur.append(" ");
        proof {
            reveal_strlit(" ");
            assert(" "@ =~= seq![' ']);
            lemma_render_push(curw, all[j as int]);
            curw = curw.push(all[j as int]);
            assert(cur@ == render_line(curw));
        }
        j = j + 1;
    }
    proof {
        assert(all.skip(j as int) =~= Seq::<Seq<char>>::empty());
        assert(pack_words(all.skip(j as int), width as int, curw) == seq![curw]);
    }
    let ghost old_out = out.deep_view();
    out.push(cur);
    proof {
        assert(out.deep_view() =~= old_out.push(render_line(curw)));
        assert(old_out.push(render_line(curw)) =~= old_out + render_all(seq![curw]));
    }
    out
}

/// Wraps `text` into output lines of at most `width` characters of word
/// content: natural lines are packed independently and their output lines
/// concatenated.
pub fn wrap_text(text: &str, width: usize) -> (out: Vec<String>)
    ensures
        out.deep_view() == wrap_spec(text@, width as int),
{
    let nls = split_natural_lines(text);
    let ghost nlv = nls.deep_view();
    let mut out: Vec<String> = Vec::new();
    let mut k: usize = 0;
    proof {
        assert(out.deep_view() =~= Seq::<Seq<char>>::empty());
        assert(nlv.skip(0) =~= nlv);
        assert(Seq::<Seq<char>>::empty() + wrap_lines(nlv, width as int) =~= wrap_lines(
            nlv,
            width as int,
        ));
    }
    while k < nls.len()
        invariant
            k <= nls.len(),
            nlv == nls.deep_view(),
            nlv == natural_lines(text@),
            wrap_spec(text@, width as int) == out.deep_view() + wrap_lines(
                nlv.skip(k as int),
                width as int,
            ),
        decreases nls.len() - k,
    {
        proof {
            assert(nlv.skip(k as int)[0] == nlv[k as int]);
            assert(nlv.skip(k as int).skip(1) =~= nlv.skip(k as int + 1));
            assert(nls[k as int].deep_view() == nlv[k as int]);
        }
        let ws = split_line_words(nls[k].as_str());
        let mut packed = pack_line(&ws, width);
        let ghost old_out = out.deep_view();
        let ghost packed_view = packed.deep_view();
        out.append(&mut packed);
        proof {
            assert(out.deep_view() =~= old_out + packed_view);
        }
        k = k + 1;
    }
    proof {
        assert(nlv.skip(k as int) =~= Seq::<Seq<char>>::empty());
    }
    out
}

// ---------------------------------------------------------------------------
// Properties of wrapping: no line overruns the budget except a single
// overlong word, and no word is lost, duplicated or reordered.
// ---------------------------------------------------------------------------

/// The words of each line.
pub open spec fn words_all(ls: Seq<Seq<char>>) -> Seq<Seq<Seq<char>>> {
    ls.map_values(|l: Seq<char>| words(l))
}

/// A well-formed word: non-empty and free of white space.
pub open spec fn word_wf(w: Seq<char>) -> bool {
    w.len() > 0 && forall|i: int| 0 <= i < w.len() ==> !is_space(#[trigger] w[i])
}

/// The partial word still pending after scanning `s`, having started with the
/// pending partial word `cur`.
spec fn scan_word_state(s: Seq<char>, cur: Seq<char>) -> Seq<char>
    decreases s.len(),
{
    if s.len() == 0 {
        cur
    } else if is_space(s[0]) {
        scan_word_state(s.skip(1), Seq::empty())
    } else {
        scan_word_state(s.skip(1), cur.push(s[0]))
    }
}

/// The words completed while scanning `s`, having started with the pending
/// partial word `cur`.
spec fn scan_words_emitted(s: Seq<char>, cur: Seq<char>) -> Seq<Seq<char>>
    decreases s.len(),
{
    if s.len() == 0 {
        Seq::empty()
    } else if is_space(s[0]) {
        flush_word(cur) + scan_words_emitted(s.skip(1), Seq::empty())
    } else {
        scan_words_emitted(s.skip(1), cur.push(s[0]))
    }
}

/// The words of all natural lines, in order.
spec fn words_of_lines(nls: Seq<Seq<char>>) -> Seq<Seq<char>>
    decreases nls.len(),
{
    if nls.len() == 0 {
        Seq::empty()
    } else {
        words(nls[0]) + words_of_lines(nls.skip(1))
    }
}

/// Splitting a concatenation into words scans the first part and goes on with
/// the second from the state the first part left behind.
proof fn lemma_split_words_concat(a: Seq<char>, b: Seq<char>, cur: Seq<char>)
    ensures
        split_words(a + b, cur) == scan_words_emitted(a, cur) + split_words(
            b,
            scan_word_state(a, cur),
        ),
    decreases a.len(),
{
    if a.len() == 0 {
        assert(a + b =~= b);
        assert(scan_words_emitted(a, cur) + split_words(b, cur) =~= split_words(b, cur));
    } else {
        assert((a + b)[0] == a[0]);
        assert((a + b).skip(1) =~= a.skip(1) + b);
        if is_space(a[0]) {
            lemma_split_words_concat(a.skip(1), b, Seq::empty());
            assert(split_words(a + b, cur) =~= scan_words_emitted(a, cur) + split_words(
                b,
                scan_word_state(a, cur),
            ));
        } else {
            lemma_split_words_concat(a.skip(1), b, cur.push(a[0]));
        }
    }
}

/// Splitting into words emits the completed words and then the pending word.
proof fn lemma_split_words_decompose(a: Seq<char>, cur: Seq<char>)
    ensures
        split_words(a, cur) == scan_words_emitted(a, cur) + flush_word(scan_word_state(a, cur)),
{
    lemma_split_words_concat(a, Seq::empty(), cur);
    assert(a + Seq::<char>::empty() =~= a);
}

/// A white-space character splits the word sequence: the words of the whole
/// text are the words before it followed by the words after it.
proof fn lemma_words_newline(a: Seq<char>, b: Seq<char>)
    ensures
        words(a + seq!['\n'] + b) == words(a) + words(b),
{
    let mid = seq!['\n'] + b;
    assert(a + seq!['\n'] + b =~= a + mid);
    lemma_split_words_concat(a, mid, Seq::empty());
    let st = scan_word_state(a, Seq::empty());
    assert(mid[0] == '\n');
    assert(mid.skip(1) =~= b);
    assert(split_words(mid, st) == flush_word(st) + split_words(b, Seq::empty()));
    lemma_split_words_decompose(a, Seq::empty());
    assert(words(a + seq!['\n'] + b) =~= words(a) + words(b));
}

/// The words of the natural lines of a text, line by line, are the words of
/// the text itself: every newline character is white space.
proof fn lemma_lines_words(s: Seq<char>, lcur: Seq<char>)
    ensures
        words_of_lines(split_lines(s, lcur)) == split_words(lcur + s, Seq::empty()),
    decreases s.len(),
{
    if s.len() == 0 {
        let one = seq![lcur];
        assert(split_lines(s, lcur) == one);
        assert(one.skip(1) =~= Seq::<Seq<char>>::empty());
        assert(words_of_lines(one.skip(1)) == Seq::<Seq<char>>::empty());
        assert(one[0] == lcur);
        assert(words_of_lines(one) == words(lcur) + Seq::<Seq<char>>::empty());
        assert(words(lcur) + Seq::<Seq<char>>::empty() =~= words(lcur));
        assert(lcur + s =~= lcur);
    } else if s[0] == '\n' {
        lemma_lines_words(s.skip(1), Seq::empty());
        assert(Seq::<char>::empty() + s.skip(1) =~= s.skip(1));
        let rest = split_lines(s.skip(1), Seq::empty());
        assert((seq![lcur] + rest)[0] == lcur);
        assert((seq![lcur] + rest).skip(1) =~= rest);
        assert(words_of_lines(split_lines(s, lcur)) == words(lcur) + words_of_lines(rest));
        assert(lcur + s =~= lcur + seq!['\n'] + s.skip(1));
        lemma_words_newline(lcur, s.skip(1));
    } else {
        lemma_lines_words(s.skip(1), lcur.push(s[0]));
        assert(lcur.push(s[0]) + s.skip(1) =~= lcur + s);
    }
}

/// Packing loses, duplicates and reorders no word: flattening the packed
/// lines gives back the pending words followed by the packed words.
proof fn lemma_pack_flatten(ws: Seq<Seq<char>>, width: int, cur: Seq<Seq<char>>)
    ensures
        pack_words(ws, width, cur).flatten() == cur + ws,
    decreases ws.len(),
{
    if ws.len() == 0 {
        seq![cur].lemma_flatten_one_element();
        assert(pack_words(ws, width, cur).flatten() =~= cur + ws);
    } else if render_line(cur).len() + ws[0].len() > width {
        lemma_pack_flatten(ws.skip(1), width, seq![ws[0]]);
        let rest = pack_words(ws.skip(1), width, seq![ws[0]]);
        vstd::seq_lib::lemma_flatten_concat(seq![cur], rest);
        seq![cur].lemma_flatten_one_element();
        assert((seq![cur] + rest).flatten() == cur + rest.flatten());
        assert(cur + (seq![ws[0]] + ws.skip(1)) =~= cur + ws);
        assert(cur + rest.flatten() =~= cur + ws);
    } else {
        lemma_pack_flatten(ws.skip(1), width, cur.push(ws[0]));
        assert(cur.push(ws[0]) + ws.skip(1) =~= cur + ws);
    }
}

/// Scanning a well-formed word only extends the pending word.
proof fn lemma_scan_word_nospace(w: Seq<char>, cur: Seq<char>)
    requires
        forall|i: int| 0 <= i < w.len() ==> !is_space(#[trigger] w[i]),
    ensures
        scan_word_state(w, cur) == cur + w,
        scan_words_emitted(w, cur) == Seq::<Seq<char>>::empty(),
    decreases w.len(),
{
    if w.len() == 0 {
        assert(cur + w =~= cur);
    } else {
        lemma_scan_word_nospace(w.skip(1), cur.push(w[0]));
        assert(cur.push(w[0]) + w.skip(1) =~= cur + w);
    }
}

/// Every word that splitting produces is well formed, provided the pending
/// word holds no white space.
proof fn lemma_split_words_wf(s: Seq<char>, cur: Seq<char>)
    requires
        forall|i: int| 0 <= i < cur.len() ==> !is_space(#[trigger] cur[i]),
    ensures
        forall|j: int|
            0 <= j < split_words(s, cur).len() ==> word_wf(#[trigger] split_words(s, cur)[j]),
    decreases s.len(),
{
    if s.len() == 0 {
    } else if is_space(s[0]) {
        lemma_split_words_wf(s.skip(1), Seq::empty());
        let res = split_words(s, cur);
        let rest = split_words(s.skip(1), Seq::<char>::empty());
        assert(res == flush_word(cur) + rest);
        assert forall|j: int| 0 <= j < res.len() implies word_wf(#[trigger] res[j]) by {
            if j < flush_word(cur).len() {
                assert(res[j] == cur);
            } else {
                assert(res[j] == rest[j - flush_word(cur).len()]);
            }
        }
    } else {
        assert(forall|i: int|
            0 <= i < cur.push(s[0]).len() ==> !is_space(#[trigger] cur.push(s[0])[i]));
        lemma_split_words_wf(s.skip(1), cur.push(s[0]));
        let res = split_words(s, cur);
        let rest = split_words(s.skip(1), cur.push(s[0]));
        assert(res == rest);
        assert forall|j: int| 0 <= j < res.len() implies word_wf(#[trigger] res[j]) by {
            assert(res[j] == rest[j]);
        }
    }
}

/// The words of a rendered line are exactly the line's words.
proof fn lemma_render_words(lw: Seq<Seq<char>>)
    requires
        forall|j: int| 0 <= j < lw.len() ==> word_wf(#[trigger] lw[j]),
    ensures
        words(render_line(lw)) == lw,
    decreases lw.len(),
{
    if lw.len() == 0 {
        assert(words(render_line(lw)) =~= lw);
    } else {
        let w0 = lw[0];
        let tail = seq![' '] + render_line(lw.skip(1));
        assert(render_line(lw) =~= w0 + tail);
        lemma_split_words_concat(w0, tail, Seq::empty());
        lemma_scan_word_nospace(w0, Seq::empty());
        assert(Seq::<char>::empty() + w0 =~= w0);
        assert(tail[0] == ' ');
        assert(tail.skip(1) =~= render_line(lw.skip(1)));
        assert(split_words(tail, w0) == flush_word(w0) + words(render_line(lw.skip(1))));
        lemma_render_words(lw.skip(1));
        assert(flush_word(w0) =~= seq![w0]);
        assert(words(render_line(lw)) =~= lw);
    }
}

/// Every packed line is made of well-formed words, provided the packed words
/// and the pending line are.
proof fn lemma_pack_wf(ws: Seq<Seq<char>>, width: int, cur: Seq<Seq<char>>)
    requires
        forall|j: int| 0 <= j < ws.len() ==> word_wf(#[trigger] ws[j]),
        forall|j: int| 0 <= j < cur.len() ==> word_wf(#[trigger] cur[j]),
    ensures
        forall|i: int, j: int|
            0 <= i < pack_words(ws, width, cur).len() && 0 <= j < pack_words(ws, width, cur)[i].len()
                ==> word_wf(#[trigger] pack_words(ws, width, cur)[i][j]),
    decreases ws.len(),
{
    let res = pack_words(ws, width, cur);
    if ws.len() == 0 {
        assert(res == seq![cur]);
        assert forall|i: int, j: int|
            0 <= i < res.len() && 0 <= j < res[i].len() implies word_wf(#[trigger] res[i][j]) by {
            assert(res[i] == cur);
        }
    } else if render_line(cur).len() + ws[0].len() > width {
        assert(forall|j: int| 0 <= j < ws.skip(1).len() ==> word_wf(#[trigger] ws.skip(1)[j]));
        assert(forall|j: int| 0 <= j < seq![ws[0]].len() ==> word_wf(#[trigger] seq![ws[0]][j]));
        lemma_pack_wf(ws.skip(1), width, seq![ws[0]]);
        let rest = pack_words(ws.skip(1), width, seq![ws[0]]);
        assert(res == seq![cur] + rest);
        assert forall|i: int, j: int|
            0 <= i < res.len() && 0 <= j < res[i].len() implies word_wf(#[trigger] res[i][j]) by {
            if i == 0 {
                assert(res[i] == cur);
            } else {
                assert(res[i] == rest[i - 1]);
            }
        }
    } else {
        assert(forall|j: int| 0 <= j < ws.skip(1).len() ==> word_wf(#[trigger] ws.skip(1)[j]));
        assert(forall|j: int|
            0 <= j < cur.push(ws[0]).len() ==> word_wf(#[trigger] cur.push(ws[0])[j]));
        lemma_pack_wf(ws.skip(1), width, cur.push(ws[0]));
        let rest = pack_words(ws.skip(1), width, cur.push(ws[0]));
        assert(res == rest);
        assert forall|i: int, j: int|
            0 <= i < res.len() && 0 <= j < res[i].len() implies word_wf(#[trigger] res[i][j]) by {
            assert(res[i][j] == rest[i][j]);
        }
    }
}

/// Every packed line either fits the budget, counting one space after each
/// word, or holds a single word.
proof fn lemma_pack_fits(ws: Seq<Seq<char>>, width: int, cur: Seq<Seq<char>>)
    requires
        render_line(cur).len() <= width + 1 || cur.len() == 1,
    ensures
        forall|i: int|
            0 <= i < pack_words(ws, width, cur).len() ==> {
                let lw = #[trigger] pack_words(ws, width, cur)[i];
                render_line(lw).len() <= width + 1 || lw.len() == 1
            },
    decreases ws.len(),
{
    let res = pack_words(ws, width, cur);
    if ws.len() == 0 {
        assert(res == seq![cur]);
        assert(res[0] == cur);
    } else if render_line(cur).len() + ws[0].len() > width {
        lemma_pack_fits(ws.skip(1), width, seq![ws[0]]);
        let rest = pack_words(ws.skip(1), width, seq![ws[0]]);
        assert(res == seq![cur] + rest);
        assert forall|i: int| 0 <= i < res.len() implies {
            let lw = #[trigger] res[i];
            render_line(lw).len() <= width + 1 || lw.len() == 1
        } by {
            if i == 0 {
                assert(res[i] == cur);
            } else {
                assert(res[i] == rest[i - 1]);
            }
        }
    } else {
        lemma_render_push(cur, ws[0]);
        assert(render_line(cur.push(ws[0])).len() == render_line(cur).len() + ws[0].len() + 1);
        lemma_pack_fits(ws.skip(1), width, cur.push(ws[0]));
        let rest = pack_words(ws.skip(1), width, cur.push(ws[0]));
        assert(res == rest);
        assert forall|i: int| 0 <= i < res.len() implies {
            let lw = #[trigger] res[i];
            render_line(lw).len() <= width + 1 || lw.len() == 1
        } by {
            assert(res[i] == rest[i]);
        }
    }
}

/// Every line of the wrapped text fits the budget or is one overlong word.
proof fn lemma_wrap_lines_fit(nls: Seq<Seq<char>>, width: int)
    requires
        width >= 0,
    ensures
        forall|i: int|
            0 <= i < wrap_lines(nls, width).len() ==> {
                let line = #[trigger] wrap_lines(nls, width)[i];
                line.len() <= width + 1 || (words(line).len() == 1 && words(line)[0].len() > width)
            },
    decreases nls.len(),
{
    if nls.len() == 0 {
    } else {
        let ws = words(nls[0]);
        let packed = pack_words(ws, width, Seq::empty());
        lemma_split_words_wf(nls[0], Seq::empty());
        lemma_pack_wf(ws, width, Seq::empty());
        lemma_pack_fits(ws, width, Seq::empty());
        assert forall|i: int| #![trigger packed[i]] 0 <= i < packed.len() implies {
            let line = render_all(packed)[i];
            line.len() <= width + 1 || (words(line).len() == 1 && words(line)[0].len() > width)
        } by {
            let lw = packed[i];
            lemma_render_words(lw);
            if lw.len() == 1 {
                assert(lw.skip(1) =~= Seq::<Seq<char>>::empty());
                assert(render_line(lw) =~= lw[0] + seq![' ']);
                if lw[0].len() > width {
                    assert(words(render_line(lw)).len() == 1);
                } else {
                    assert(render_line(lw).len() <= width + 1);
                }
            }
        }
        lemma_wrap_lines_fit(nls.skip(1), width);
        let first = render_all(packed);
        let rest = wrap_lines(nls.skip(1), width);
        assert(wrap_lines(nls, width) == first + rest);
        assert forall|i: int| 0 <= i < wrap_lines(nls, width).len() implies {
            let line = #[trigger] wrap_lines(nls, width)[i];
            line.len() <= width + 1 || (words(line).len() == 1 && words(line)[0].len() > width)
        } by {
            if i < first.len() {
                assert(wrap_lines(nls, width)[i] == render_line(packed[i]));
            } else {
                assert(wrap_lines(nls, width)[i] == rest[i - first.len()]);
            }
        }
    }
}

/// The wrapped lines hold exactly the words of the text, in order.
proof fn lemma_wrap_lines_words(nls: Seq<Seq<char>>, width: int)
    ensures
        words_all(wrap_lines(nls, width)).flatten() == words_of_lines(nls),
    decreases nls.len(),
{
    if nls.len() == 0 {
        assert(words_all(wrap_lines(nls, width)) =~= Seq::<Seq<Seq<char>>>::empty());
        assert(words_of_lines(nls) =~= Seq::<Seq<char>>::empty());
    } else {
        let ws = words(nls[0]);
        let packed = pack_words(ws, width, Seq::empty());
        let first = render_all(packed);
        let rest = wrap_lines(nls.skip(1), width);
        assert(wrap_lines(nls, width) == first + rest);
        assert(words_all(first + rest) =~= words_all(first) + words_all(rest));
        lemma_split_words_wf(nls[0], Seq::empty());
        lemma_pack_wf(ws, width, Seq::empty());
        assert forall|i: int| 0 <= i < packed.len() implies words_all(first)[i] == packed[i] by {
            lemma_render_words(packed[i]);
        }
        assert(words_all(first) =~= packed);
        vstd::seq_lib::lemma_flatten_concat(words_all(first), words_all(rest));
        lemma_pack_flatten(ws, width, Seq::empty());
        assert(Seq::<Seq<char>>::empty() + ws =~= ws);
        lemma_wrap_lines_words(nls.skip(1), width);
        assert(words_all(wrap_lines(nls, width)).flatten() == ws + words_of_lines(nls.skip(1)));
    }
}

/// Law of line widths: every output line of `wrap_spec`, its trailing space
/// included, holds at most `width + 1` characters — so at most `width`
/// characters of word content — unless it consists of a single word that is
/// itself longer than `width`.
pub proof fn lemma_wrap_line_fits(text: Seq<char>, width: int, i: int)
    requires
        width >= 0,
        0 <= i < wrap_spec(text, width).len(),
    ensures
        ({
            let line = wrap_spec(text, width)[i];
            line.len() <= width + 1 || (words(line).len() == 1 && words(line)[0].len() > width)
        }),
{
    lemma_wrap_lines_fit(natural_lines(text), width);
}

/// Law of word preservation: concatenating the words of the output lines of
/// `wrap_spec`, in order, reproduces the word sequence of the input text
/// exactly — wrapping loses, duplicates and reorders nothing.
pub proof fn lemma_wrap_preserves_words(text: Seq<char>, width: int)
    ensures
        words_all(wrap_spec(text, width)).flatten() == words(text),
{
    lemma_wrap_lines_words(natural_lines(text), width);
    lemma_lines_words(text, Seq::empty());
    assert(Seq::<char>::empty() + text =~= text);
}

/// Wraps a quote's text into lines of at most `quote_box_width` characters of
/// word content.
pub fn calculate_quote_layout(quote: &Quote, quote_box_width: u16) -> (lines: Vec<String>)
    ensures
        lines.deep_view() == wrap_spec(quote.text@, quote_box_width as int),
{
    wrap_text(quote.text.as_str(), quote_box_width as usize)
}

} // verus!
