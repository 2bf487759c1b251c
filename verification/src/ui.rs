//! Text shaping for the terminal views: truncation, word wrapping, removal of
//! HTML markup, keyword highlighting and theme colours.
use vstd::prelude::*;
use vstd::string::StringSliceAdditionalSpecFns;
use crate::text::{trim_start, trim_end, lemma_words_after_space, lemma_words_shape, lemma_word_scan_extend, no_white_space, contains_chars, has_substring, lowercase, to_lowercase, trim_chars, trimmed, is_whitespace, is_white_space, word_scan, words, chars_of, push_char, string_from_range, string_of};

verus! {

broadcast use vstd::string::group_string_axioms;

/// The three dots that mark a cut.
pub open spec fn ellipsis() -> Seq<char> {
    seq!['.', '.', '.']
}

/// `s` itself when it has at most `max` characters; otherwise its first
/// `max - 3` characters (none when `max < 3`) followed by `...`.
pub open spec fn truncated(s: Seq<char>, max: nat) -> Seq<char> {
    if s.len() <= max {
        s
    } else {
        s.take(if max >= 3 { max - 3 } else { 0 }) + ellipsis()
    }
}

/// Shortens `s` to at most `max_chars` characters, counting characters and not
/// bytes, and marks a cut with `...`.
pub fn safe_truncate(s: &str, max_chars: usize) -> (res: String)
    ensures
        res@ == truncated(s@, max_chars as nat),
{
    let cs = chars_of(s);
    if cs.len() <= max_chars {
        return string_of(cs.as_slice());
    }
    let keep: usize = if max_chars >= 3 { max_chars - 3 } else { 0 };
    let mut res = string_from_range(cs.as_slice(), 0, keep);
    push_char(&mut res, '.');
    push_char(&mut res, '.');
    push_char(&mut res, '.');
    assert(res@ =~= truncated(s@, max_chars as nat));
    res
}


/// A text that fits is left alone; a longer one becomes exactly as long as the
/// limit (three characters when the limit is smaller), its start kept and its last
/// three characters dots. Cutting again changes nothing.
pub proof fn lemma_truncate_idempotent(s: Seq<char>, max: nat)
    ensures
        s.len() <= max ==> truncated(s, max) == s,
        s.len() > max ==> {
            let r = truncated(s, max);
            let n = if max >= 3 { max } else { 3 };
            &&& r.len() == n
            &&& r.take(n - 3) == s.take(n - 3)
            &&& r[n - 3] == '.' && r[n - 2] == '.' && r[n - 1] == '.'
        },
        truncated(s, max).len() <= if max >= 3 { max } else { 3 },
        truncated(truncated(s, max), max) == truncated(s, max),
{
    if s.len() > max {
        let r = truncated(s, max);
        if max < 3 {
            assert(r.take(0) + ellipsis() =~= r);
        }
    }
}

/// One word placed by `wrap_text`: `acc` is the text so far and the length of
/// its last line. The word opens a new line when the line would exceed `width`
/// with a separating space, else it follows the line after a space (no space at
/// the very start).
pub open spec fn place_word(acc: (Seq<char>, nat), w: Seq<char>, width: nat) -> (Seq<char>, nat) {
    let (r, line) = acc;
    if line + w.len() + 1 > width {
        (r.push('\n') + w, w.len())
    } else if line > 0 {
        (r.push(' ') + w, line + 1 + w.len())
    } else {
        (r + w, w.len())
    }
}

/// The words `ws` placed one after the other.
pub open spec fn place_words(ws: Seq<Seq<char>>, width: nat) -> (Seq<char>, nat)
    decreases ws.len(),
{
    if ws.len() == 0 {
        (seq![], 0)
    } else {
        place_word(place_words(ws.drop_last(), width), ws.last(), width)
    }
}

/// `text` unchanged when it has at most `width` characters, else its words
/// re-joined so that lines break before a word that would not fit.
pub open spec fn wrapped(text: Seq<char>, width: nat) -> Seq<char> {
    if text.len() <= width {
        text
    } else {
        place_words(words(text), width).0
    }
}

proof fn lemma_place_words_words(ws: Seq<Seq<char>>, width: nat)
    requires
        forall|i: int| 0 <= i < ws.len() ==> #[trigger] ws[i].len() > 0 && no_white_space(ws[i]),
    ensures
        words(place_words(ws, width).0) == ws,
        place_words(ws, width).1 == 0 <==> ws.len() == 0,
        ws.len() == 0 ==> place_words(ws, width).0.len() == 0,
    decreases ws.len(),
{
    if ws.len() == 0 {
        assert(words(Seq::<char>::empty()) =~= Seq::<Seq<char>>::empty());
    } else {
        let prev = ws.drop_last();
        let w = ws.last();
        assert(ws[ws.len() - 1] == w);
        lemma_place_words_words(prev, width);
        let (r, line) = place_words(prev, width);
        if line + w.len() + 1 > width {
            lemma_words_after_space(r, '\n', w);
        } else if line > 0 {
            lemma_words_after_space(r, ' ', w);
        } else {
            lemma_word_scan_extend(r, w);
            assert(r + w =~= w);
            assert(seq![] + w =~= w);
        }
        assert(prev.push(w) =~= ws);
    }
}

/// Wrapping only moves line breaks: the words of the wrapped text are the words
/// of the text.
pub proof fn lemma_wrap_keeps_words(text: Seq<char>, width: nat)
    ensures
        words(wrapped(text, width)) == words(text),
{
    if text.len() > width {
        lemma_words_shape(text);
        lemma_place_words_words(words(text), width);
    }
}

/// `r[i..j]` is a whole line of `r`: it starts at the beginning or after a line
/// break, ends at the end or before a line break, and holds no line break.
pub open spec fn is_line(r: Seq<char>, i: int, j: int) -> bool {
    &&& 0 <= i <= j <= r.len()
    &&& (i == 0 || r[i - 1] == '\n')
    &&& (j == r.len() || r[j] == '\n')
    &&& forall|k: int| i <= k < j ==> r[k] != '\n'
}

/// `r[i..j]` holds a space, so more than one word.
pub open spec fn has_space_in(r: Seq<char>, i: int, j: int) -> bool {
    exists|k: int| i <= k < j && r[k] == ' '
}

/// Every line of `r` that holds a space is at most `width` characters long.
pub open spec fn lines_fit(r: Seq<char>, width: nat) -> bool {
    forall|i: int, j: int| #[trigger] is_line(r, i, j) && has_space_in(r, i, j) ==> j - i <= width
}

/// The last line of `r` starts at `r.len() - line`.
pub open spec fn last_line_len(r: Seq<char>, line: nat) -> bool {
    let l = r.len() - line;
    &&& 0 <= l
    &&& (l == 0 || r[l - 1] == '\n')
    &&& forall|k: int| l <= k < r.len() ==> r[k] != '\n'
}

proof fn lemma_place_words_lines(ws: Seq<Seq<char>>, width: nat)
    requires
        forall|i: int| 0 <= i < ws.len() ==> #[trigger] ws[i].len() > 0 && no_white_space(ws[i]),
    ensures
        lines_fit(place_words(ws, width).0, width),
        last_line_len(place_words(ws, width).0, place_words(ws, width).1),
        ws.len() == 0 ==> place_words(ws, width).0.len() == 0 && place_words(ws, width).1 == 0,
        ws.len() > 0 ==> place_words(ws, width).1 > 0,
    decreases ws.len(),
{
    if ws.len() > 0 {
        let prev = ws.drop_last();
        let w = ws.last();
        assert(ws[ws.len() - 1] == w);
        assert forall|i: int| 0 <= i < prev.len() implies #[trigger] prev[i].len() > 0 && no_white_space(prev[i]) by {
            assert(prev[i] == ws[i]);
        }
        lemma_place_words_lines(prev, width);
        let (r, line) = place_words(prev, width);
        let l = r.len() - line;
        assert(is_white_space('\n') && is_white_space(' '));
        assert forall|k: int| 0 <= k < w.len() implies #[trigger] w[k] != '\n' && w[k] != ' ' by {
            assert(!is_white_space(w[k]));
        }
        let (r2, line2) = place_words(ws, width);
        if line + w.len() + 1 > width {
            assert(r2 == r.push('\n') + w);
            let n = r.len() as int;
            assert(r2[n] == '\n');
            assert forall|k: int| n + 1 <= k < r2.len() implies r2[k] != '\n' by {
                assert(r2[k] == w[k - n - 1]);
            }
            assert forall|i: int, j: int| #[trigger] is_line(r2, i, j) && has_space_in(r2, i, j) implies j - i <= width by {
                if j <= n {
                    assert forall|k: int| i <= k < j implies r[k] != '\n' by {
                        assert(r[k] == r2[k]);
                    }
                    if i > 0 {
                        assert(r[i - 1] == r2[i - 1]);
                    }
                    if j < n {
                        assert(r[j] == r2[j]);
                    }
                    let k = choose|k: int| i <= k < j && r2[k] == ' ';
                    assert(r[k] == ' ');
                    assert(is_line(r, i, j) && has_space_in(r, i, j));
                } else {
                    if i <= n {
                        assert(r2[n] == '\n');
                    }
                    let k = choose|k: int| i <= k < j && r2[k] == ' ';
                    assert(r2[k] == w[k - n - 1]);
                }
            }
        } else if line > 0 {
            assert(r2 == r.push(' ') + w);
            let n = r.len() as int;
            assert forall|k: int| l <= k < r2.len() implies r2[k] != '\n' by {
                if k < n {
                    assert(r2[k] == r[k]);
                } else if k > n {
                    assert(r2[k] == w[k - n - 1]);
                }
            }
            if l > 0 {
                assert(r2[l - 1] == r[l - 1]);
            }
            assert forall|i: int, j: int| #[trigger] is_line(r2, i, j) && has_space_in(r2, i, j) implies j - i <= width by {
                if j == r2.len() {
                    if i < l {
                        assert(r2[l - 1] == r[l - 1]);
                    }
                } else {
                    assert(r2[j] == '\n');
                    assert(j < l);
                    assert forall|k: int| i <= k < j implies r[k] != '\n' by {
                        assert(r[k] == r2[k]);
                    }
                    if i > 0 {
                        assert(r[i - 1] == r2[i - 1]);
                    }
                    assert(r[j] == r2[j]);
                    let k = choose|k: int| i <= k < j && r2[k] == ' ';
                    assert(r[k] == ' ');
                    assert(is_line(r, i, j) && has_space_in(r, i, j));
                }
            }
        } else {
            assert(r2 =~= w);
            assert forall|i: int, j: int| #[trigger] is_line(r2, i, j) && has_space_in(r2, i, j) implies j - i <= width by {
                let k = choose|k: int| i <= k < j && r2[k] == ' ';
                assert(r2[k] == w[k]);
            }
        }
    }
}

/// `r[p+1..q]` is the word after position `p`: no space or line break inside, and
/// a space, a line break or the end right after it.
pub open spec fn word_after(r: Seq<char>, p: int, q: int) -> bool {
    &&& p < q <= r.len()
    &&& (q == r.len() || r[q] == ' ' || r[q] == '\n')
    &&& forall|k: int| p < k < q ==> r[k] != ' ' && r[k] != '\n'
}

/// Every line break of `r` is needed: the line before it, a space and the word
/// after it would be wider than `width`.
pub open spec fn breaks_needed(r: Seq<char>, width: nat) -> bool {
    forall|i: int, p: int, q: int|
        #[trigger] is_line(r, i, p) && p < r.len() && #[trigger] word_after(r, p, q) ==> q - i > width
}

proof fn lemma_place_words_breaks(ws: Seq<Seq<char>>, width: nat)
    requires
        forall|i: int| 0 <= i < ws.len() ==> #[trigger] ws[i].len() > 0 && no_white_space(ws[i]),
    ensures
        breaks_needed(place_words(ws, width).0, width),
    decreases ws.len(),
{
    if ws.len() > 0 {
        let prev = ws.drop_last();
        let w = ws.last();
        assert(ws[ws.len() - 1] == w);
        assert forall|i: int| 0 <= i < prev.len() implies #[trigger] prev[i].len() > 0 && no_white_space(prev[i]) by {
            assert(prev[i] == ws[i]);
        }
        lemma_place_words_breaks(prev, width);
        lemma_place_words_lines(prev, width);
        let (r, line) = place_words(prev, width);
        let l = r.len() - line;
        let n = r.len() as int;
        assert(is_white_space('\n') && is_white_space(' '));
        assert forall|k: int| 0 <= k < w.len() implies #[trigger] w[k] != '\n' && w[k] != ' ' by {
            assert(!is_white_space(w[k]));
        }
        let (r2, line2) = place_words(ws, width);
        if line + w.len() + 1 > width || line > 0 {
            let sep = if line + w.len() + 1 > width { '\n' } else { ' ' };
            assert(r2 == r.push(sep) + w);
            assert(r2[n] == sep);
            assert forall|i: int, p: int, q: int|
                #[trigger] is_line(r2, i, p) && p < r2.len() && #[trigger] word_after(r2, p, q) implies q - i > width by {
                if p < n {
                    assert(r2[p] == r[p]);
                    assert forall|k: int| i <= k < p implies r[k] != '\n' by {
                        assert(r[k] == r2[k]);
                    }
                    if i > 0 {
                        assert(r[i - 1] == r2[i - 1]);
                    }
                    assert(is_line(r, i, p));
                    if q > n {
                        assert(r2[n] == sep);
                    } else {
                        if q < n {
                            assert(r[q] == r2[q]);
                        }
                        assert forall|k: int| p < k < q implies r[k] != ' ' && r[k] != '\n' by {
                            assert(r[k] == r2[k]);
                        }
                        assert(word_after(r, p, q));
                    }
                } else if p == n {
                    assert(sep == '\n');
                    if i > l {
                        assert(r2[i - 1] == r[i - 1]);
                    }
                    if q < r2.len() {
                        assert(r2[q] == w[q - n - 1]);
                    }
                } else {
                    assert(r2[p] == w[p - n - 1]);
                }
            }
        } else {
            assert(r2 =~= w);
            assert forall|i: int, p: int, q: int|
                #[trigger] is_line(r2, i, p) && p < r2.len() && #[trigger] word_after(r2, p, q) implies q - i > width by {
                assert(r2[p] == w[p]);
            }
        }
    }
}

/// Wrapping keeps lines within the width: a line of the wrapped text is wider
/// than `width` only when it is a single word longer than `width`.
pub proof fn lemma_wrap_lines_fit(text: Seq<char>, width: nat)
    ensures
        lines_fit(wrapped(text, width), width),
{
    if text.len() > width {
        lemma_words_shape(text);
        lemma_place_words_lines(words(text), width);
    }
}

/// Wrapping breaks a line only where it must: when the text is wider than
/// `width`, each line break stands where the line before it, a space and the next
/// word would not fit.
pub proof fn lemma_wrap_breaks_needed(text: Seq<char>, width: nat)
    requires
        text.len() > width,
    ensures
        breaks_needed(wrapped(text, width), width),
{
    lemma_words_shape(text);
    lemma_place_words_breaks(words(text), width);
}

/// Places one more word, as `place_word` says.
fn place_next_word(res: &mut String, line: &mut usize, word: &Vec<char>, width: usize)
    requires
        *old(line) + word@.len() <= usize::MAX,
    ensures
        (final(res)@, *final(line) as nat) == place_word((old(res)@, *old(line) as nat), word@, width as nat),
{
    let ws = string_of(word.as_slice());
    if *line + word.len() >= width {
        push_char(res, '\n');
        res.append(ws.as_str());
        *line = word.len();
    } else {
        if *line > 0 {
            push_char(res, ' ');
            *line = *line + 1;
        }
        res.append(ws.as_str());
        *line = *line + word.len();
    }
}

/// Breaks `text` into lines of at most `width` characters where its words allow,
/// as `wrapped` says.
pub fn wrap_text(text: &str, width: usize) -> (res: String)
    ensures
        res@ == wrapped(text@, width as nat),
        lines_fit(res@, width as nat),
        words(res@) == words(text@),
        text@.len() > width ==> breaks_needed(res@, width as nat),
        text@.len() <= width ==> res@ == text@,
{
    proof {
        if text@.len() > width {
            lemma_wrap_breaks_needed(text@, width as nat);
        }
        lemma_wrap_lines_fit(text@, width as nat);
        lemma_wrap_keeps_words(text@, width as nat);
    }
    let cs = chars_of(text);
    if cs.len() <= width {
        return string_of(cs.as_slice());
    }
    let n = cs.len();
    let mut res = String::new();
    let mut line: usize = 0;
    let mut word: Vec<char> = Vec::new();
    let ghost mut done: Seq<Seq<char>> = seq![];
    let mut i: usize = 0;
    while i < n
        invariant
            n == cs@.len(),
            cs@ == text@,
            i <= n,
            (done, word@) == word_scan(cs@.take(i as int)),
            (res@, line as nat) == place_words(done, width as nat),
            line + word@.len() <= i,
            word@.len() > 0 && line > 0 ==> line + word@.len() + 1 <= i,
            word@.len() == 0 && line > 0 ==> line + 1 <= i,
        decreases n - i,
    {
        let c = cs[i];
        assert(cs@.take(i + 1).drop_last() == cs@.take(i as int));
        if is_whitespace(c) {
            if word.len() > 0 {
                place_next_word(&mut res, &mut line, &word, width);
                proof {
                    assert(done.push(word@).drop_last() == done);
                    done = done.push(word@);
                }
                word = Vec::new();
            }
        } else {
            word.push(c);
        }
        i = i + 1;
    }
    assert(cs@.take(n as int) == cs@);
    if word.len() > 0 {
        place_next_word(&mut res, &mut line, &word, width);
        proof {
            assert(done.push(word@).drop_last() == done);
        }
    }
    res
}


/// Scanning HTML from the left: the text kept so far (outside tags, without line
/// breaks) and whether a tag is open at the end.
pub open spec fn markup_scan(s: Seq<char>) -> (Seq<char>, bool)
    decreases s.len(),
{
    if s.len() == 0 {
        (seq![], false)
    } else {
        let (kept, in_tag) = markup_scan(s.drop_last());
        let c = s.last();
        if c == '<' {
            (kept, true)
        } else if c == '>' {
            (kept, false)
        } else if c == '\n' || c == '\r' || in_tag {
            (kept, in_tag)
        } else {
            (kept.push(c), in_tag)
        }
    }
}

/// `s` with every maximal run of white space replaced by one space, which is
/// what replacing the regular expression `\s+` by `" "` everywhere gives.
pub open spec fn collapse_white_space(s: Seq<char>) -> Seq<char>
    decreases s.len(),
{
    if s.len() == 0 {
        seq![]
    } else {
        let r = collapse_white_space(s.drop_last());
        let c = s.last();
        if !is_white_space(c) {
            r.push(c)
        } else if s.len() >= 2 && is_white_space(s[s.len() - 2]) {
            r
        } else {
            r.push(' ')
        }
    }
}

/// The plain text of an HTML fragment: the characters outside tags, line breaks
/// dropped, runs of white space made single spaces, and the ends trimmed.
pub open spec fn plain_text(html: Seq<char>) -> Seq<char> {
    trimmed(collapse_white_space(markup_scan(html).0))
}

/// `Regex::replace_all` of the `regex` crate with the pattern `\s+` (Unicode white
/// space, greedy, leftmost-first) and the replacement `" "`: each maximal run of
/// white space becomes a single space.
#[verifier::external_body]
fn collapse_whitespace(text: &str) -> (res: String)
    ensures
        res@ == collapse_white_space(text@),
{
    regex::Regex::new(r"\s+").unwrap().replace_all(text, " ").into_owned()
}

/// No markup brackets, and every white-space character a plain space.
pub open spec fn plain_chars(s: Seq<char>) -> bool {
    forall|k: int|
        0 <= k < s.len() ==> #[trigger] s[k] != '<' && s[k] != '>' && (is_white_space(s[k]) ==> s[k] == ' ')
}

/// No two white-space characters next to each other.
pub open spec fn single_spaced(s: Seq<char>) -> bool {
    forall|k: int| 0 <= k < s.len() - 1 ==> !(is_white_space(#[trigger] s[k]) && is_white_space(s[k + 1]))
}

proof fn lemma_markup_scan_no_brackets(s: Seq<char>)
    ensures
        forall|k: int| 0 <= k < markup_scan(s).0.len() ==> #[trigger] markup_scan(s).0[k] != '<' && markup_scan(s).0[k] != '>',
    decreases s.len(),
{
    if s.len() > 0 {
        lemma_markup_scan_no_brackets(s.drop_last());
        let r = markup_scan(s.drop_last()).0;
        let out = markup_scan(s).0;
        assert forall|k: int| 0 <= k < out.len() implies #[trigger] out[k] != '<' && out[k] != '>' by {
            if k < r.len() {
                assert(out[k] == r[k]);
            }
        }
    }
}

proof fn lemma_collapse_shape(s: Seq<char>)
    requires
        forall|k: int| 0 <= k < s.len() ==> #[trigger] s[k] != '<' && s[k] != '>',
    ensures
        plain_chars(collapse_white_space(s)),
        single_spaced(collapse_white_space(s)),
        s.len() > 0 ==> collapse_white_space(s).len() > 0 && (is_white_space(collapse_white_space(s).last()) <==> is_white_space(s.last())),
    decreases s.len(),
{
    if s.len() > 0 {
        let p = s.drop_last();
        lemma_collapse_shape(p);
        let r = collapse_white_space(p);
        let out = collapse_white_space(s);
        let c = s.last();
        assert(s[s.len() - 1] == c);
        if !is_white_space(c) {
            assert(out == r.push(c));
        } else if s.len() >= 2 && is_white_space(s[s.len() - 2]) {
            assert(p.last() == s[s.len() - 2]);
        } else {
            if p.len() > 0 {
                assert(p.last() == s[s.len() - 2]);
            }
            assert(is_white_space(' '));
        }
        assert forall|k: int| 0 <= k < out.len() implies #[trigger] out[k] != '<' && out[k] != '>' && (is_white_space(out[k]) ==> out[k] == ' ') by {
            if k < r.len() {
                assert(out[k] == r[k]);
            }
        }
        assert forall|k: int| 0 <= k < out.len() - 1 implies !(is_white_space(#[trigger] out[k]) && is_white_space(out[k + 1])) by {
            if k + 1 < r.len() {
                assert(out[k] == r[k] && out[k + 1] == r[k + 1]);
            } else if out.len() > r.len() {
                assert(out[k] == r.last());
            }
        }
    }
}

proof fn lemma_trim_start_shape(s: Seq<char>) -> (a: int)
    ensures
        0 <= a <= s.len(),
        trim_start(s) == s.subrange(a, s.len() as int),
        trim_start(s).len() > 0 ==> !is_white_space(trim_start(s)[0]),
        forall|k: int| 0 <= k < a ==> is_white_space(#[trigger] s[k]),
    decreases s.len(),
{
    if s.len() > 0 && is_white_space(s[0]) {
        let a = lemma_trim_start_shape(s.drop_first());
        assert forall|k: int| 0 <= k < a + 1 implies is_white_space(#[trigger] s[k]) by {
            if k > 0 {
                assert(s[k] == s.drop_first()[k - 1]);
            }
        }
        assert(s.drop_first().subrange(a, s.drop_first().len() as int) =~= s.subrange(a + 1, s.len() as int));
        a + 1
    } else {
        assert(s.subrange(0, s.len() as int) =~= s);
        0
    }
}

proof fn lemma_trim_end_shape(s: Seq<char>) -> (b: int)
    ensures
        0 <= b <= s.len(),
        trim_end(s) == s.subrange(0, b),
        trim_end(s).len() > 0 ==> !is_white_space(trim_end(s).last()),
        forall|k: int| b <= k < s.len() ==> is_white_space(#[trigger] s[k]),
    decreases s.len(),
{
    if s.len() > 0 && is_white_space(s.last()) {
        let b = lemma_trim_end_shape(s.drop_last());
        assert forall|k: int| b <= k < s.len() implies is_white_space(#[trigger] s[k]) by {
            if k < s.len() - 1 {
                assert(s[k] == s.drop_last()[k]);
            }
        }
        assert(s.drop_last().subrange(0, b) =~= s.subrange(0, b));
        b
    } else {
        assert(s.subrange(0, s.len() as int) =~= s);
        s.len() as int
    }
}

/// The plain text of HTML holds no markup brackets and no line breaks or other
/// white space than single spaces between words, and neither starts nor ends
/// with a space.
pub proof fn lemma_plain_text_tidy(html: Seq<char>)
    ensures
        plain_chars(plain_text(html)),
        single_spaced(plain_text(html)),
        plain_text(html).len() > 0 ==> !is_white_space(plain_text(html)[0]) && !is_white_space(plain_text(html).last()),
{
    let m = markup_scan(html).0;
    lemma_markup_scan_no_brackets(html);
    lemma_collapse_shape(m);
    let c = collapse_white_space(m);
    let a = lemma_trim_start_shape(c);
    let t = trim_start(c);
    let b = lemma_trim_end_shape(t);
    let out = trim_end(t);
    assert(out == plain_text(html));
    assert forall|k: int| 0 <= k < out.len() implies #[trigger] out[k] == c[a + k] by {}
    assert(plain_chars(out)) by {
        assert forall|k: int| 0 <= k < out.len() implies #[trigger] out[k] != '<' && out[k] != '>' && (is_white_space(out[k]) ==> out[k] == ' ') by {
            assert(out[k] == c[a + k]);
        }
    }
    assert(single_spaced(out)) by {
        assert forall|k: int| 0 <= k < out.len() - 1 implies !(is_white_space(#[trigger] out[k]) && is_white_space(out[k + 1])) by {
            assert(out[k] == c[a + k] && out[k + 1] == c[a + k + 1]);
        }
    }
    if out.len() > 0 {
        assert(t.len() > 0);
        assert(out[0] == t[0]);
    }
}

/// Position `k` of `s` lies inside a tag: some `<` before it has no `>` after it
/// and before `k`.
pub open spec fn inside_tag(s: Seq<char>, k: int) -> bool {
    exists|j: int| 0 <= j < k && s[j] == '<' && forall|m: int| j < m < k ==> s[m] != '>'
}

/// The character at `k` is text of the page: no bracket, no line break, and not
/// inside a tag.
pub open spec fn is_text_at(s: Seq<char>, k: int) -> bool {
    &&& s[k] != '<'
    &&& s[k] != '>'
    &&& s[k] != '\n'
    &&& s[k] != '\r'
    &&& !inside_tag(s, k)
}

/// The text characters of `s`, every one of them, in their order.
pub open spec fn text_chars(s: Seq<char>) -> Seq<char>
    decreases s.len(),
{
    if s.len() == 0 {
        seq![]
    } else {
        text_chars(s.drop_last()) + if is_text_at(s, s.len() - 1) { seq![s.last()] } else { seq![] }
    }
}

proof fn lemma_inside_tag_prefix(s: Seq<char>, c: char, k: int)
    requires
        0 <= k <= s.len(),
    ensures
        inside_tag(s.push(c), k) == inside_tag(s, k),
{
    let t = s.push(c);
    if inside_tag(s, k) {
        let j = choose|j: int| 0 <= j < k && s[j] == '<' && forall|m: int| j < m < k ==> s[m] != '>';
        assert(t[j] == '<');
        assert forall|m: int| j < m < k implies t[m] != '>' by {
            assert(t[m] == s[m]);
        }
    }
    if inside_tag(t, k) {
        let j = choose|j: int| 0 <= j < k && t[j] == '<' && forall|m: int| j < m < k ==> t[m] != '>';
        assert(s[j] == '<');
        assert forall|m: int| j < m < k implies s[m] != '>' by {
            assert(t[m] == s[m]);
        }
    }
}

proof fn lemma_inside_tag_end(s: Seq<char>, c: char)
    ensures
        inside_tag(s.push(c), s.len() + 1int) == if c == '<' { true } else if c == '>' { false } else { inside_tag(s, s.len() as int) },
{
    let t = s.push(c);
    let n = s.len() as int;
    if c == '<' {
        assert(t[n] == '<');
    } else if c == '>' {
        if inside_tag(t, n + 1) {
            let j = choose|j: int| 0 <= j < n + 1 && t[j] == '<' && forall|m: int| j < m < n + 1 ==> t[m] != '>';
            assert(t[n] == '>');
        }
    } else {
        if inside_tag(s, n) {
            let j = choose|j: int| 0 <= j < n && s[j] == '<' && forall|m: int| j < m < n ==> s[m] != '>';
            assert(t[j] == '<');
            assert forall|m: int| j < m < n + 1 implies t[m] != '>' by {
                if m < n {
                    assert(t[m] == s[m]);
                }
            }
        }
        if inside_tag(t, n + 1) {
            let j = choose|j: int| 0 <= j < n + 1 && t[j] == '<' && forall|m: int| j < m < n + 1 ==> t[m] != '>';
            assert(j < n);
            assert(s[j] == '<');
            assert forall|m: int| j < m < n implies s[m] != '>' by {
                assert(t[m] == s[m]);
            }
        }
    }
}

proof fn lemma_text_chars_prefix(s: Seq<char>, c: char)
    ensures
        text_chars(s.push(c)) == text_chars(s) + if is_text_at(s.push(c), s.len() as int) { seq![c] } else { seq![] },
{
    assert(s.push(c).drop_last() =~= s);
}

/// Scanning the markup keeps exactly the text characters of the page: every
/// character that is not a bracket, not a line break and not inside a tag, in
/// order, whatever character it is.
pub proof fn lemma_markup_scan_keeps_text(s: Seq<char>)
    ensures
        markup_scan(s).0 == text_chars(s),
        markup_scan(s).1 == inside_tag(s, s.len() as int),
    decreases s.len(),
{
    if s.len() > 0 {
        let p = s.drop_last();
        let c = s.last();
        assert(p.push(c) =~= s);
        lemma_markup_scan_keeps_text(p);
        lemma_inside_tag_prefix(p, c, p.len() as int);
        lemma_inside_tag_end(p, c);
        lemma_text_chars_prefix(p, c);
        if is_text_at(s, p.len() as int) {
            assert(text_chars(p) + seq![c] =~= text_chars(p).push(c));
        } else {
            assert(text_chars(p) + Seq::<char>::empty() =~= text_chars(p));
        }
    } else {
        assert(!inside_tag(s, 0));
    }
}

proof fn lemma_word_scan_collapse(x: Seq<char>)
    ensures
        word_scan(collapse_white_space(x)) == word_scan(x),
    decreases x.len(),
{
    if x.len() > 0 {
        let p = x.drop_last();
        let c = x.last();
        lemma_word_scan_collapse(p);
        let r = collapse_white_space(p);
        if !is_white_space(c) {
            assert(r.push(c).drop_last() =~= r);
        } else if x.len() >= 2 && is_white_space(x[x.len() - 2]) {
            assert(p.last() == x[x.len() - 2]);
            assert(word_scan(p).1 == Seq::<char>::empty()) by {
                assert(p.drop_last().push(p.last()) =~= p);
            }
        } else {
            assert(r.push(' ').drop_last() =~= r);
            assert(is_white_space(' '));
        }
    }
}

proof fn lemma_word_scan_space_prefix(p: Seq<char>, z: Seq<char>)
    requires
        forall|k: int| 0 <= k < p.len() ==> is_white_space(#[trigger] p[k]),
    ensures
        word_scan(p + z) == word_scan(z),
    decreases p.len() + z.len(),
{
    if z.len() == 0 {
        assert(p + z =~= p);
        if p.len() > 0 {
            let q = p.drop_last();
            assert forall|k: int| 0 <= k < q.len() implies is_white_space(#[trigger] q[k]) by {
                assert(q[k] == p[k]);
            }
            lemma_word_scan_space_prefix(q, z);
            assert(q + z =~= q);
            assert(is_white_space(p[p.len() - 1]));
        }
    } else {
        lemma_word_scan_space_prefix(p, z.drop_last());
        assert((p + z).drop_last() =~= p + z.drop_last());
        assert((p + z).last() == z.last());
    }
}

proof fn lemma_word_scan_space_suffix(z: Seq<char>, q: Seq<char>)
    requires
        forall|k: int| 0 <= k < q.len() ==> is_white_space(#[trigger] q[k]),
    ensures
        q.len() > 0 ==> word_scan(z + q) == (words(z), Seq::<char>::empty()),
        words(z + q) == words(z),
    decreases q.len(),
{
    if q.len() == 0 {
        assert(z + q =~= z);
    } else {
        let q0 = q.drop_last();
        assert forall|k: int| 0 <= k < q0.len() implies is_white_space(#[trigger] q0[k]) by {
            assert(q0[k] == q[k]);
        }
        lemma_word_scan_space_suffix(z, q0);
        assert((z + q).drop_last() =~= z + q0);
        assert((z + q).last() == q[q.len() - 1]);
        if q0.len() == 0 {
            assert(z + q0 =~= z);
        }
    }
}

/// Trimming and collapsing white space keep the words of a text.
proof fn lemma_words_trim_collapse(x: Seq<char>)
    ensures
        words(trimmed(collapse_white_space(x))) == words(x),
{
    lemma_word_scan_collapse(x);
    let c = collapse_white_space(x);
    let a = lemma_trim_start_shape(c);
    let t = trim_start(c);
    assert(c =~= c.take(a) + t);
    lemma_word_scan_space_prefix(c.take(a), t);
    let b = lemma_trim_end_shape(t);
    assert(t =~= trim_end(t) + t.skip(b));
    lemma_word_scan_space_suffix(trim_end(t), t.skip(b));
}

/// The plain text of HTML keeps the words of the page text: its words are those of
/// the text characters (everything outside tags but brackets and line breaks), so
/// no character of the text other than white space is dropped or changed.
pub proof fn lemma_plain_text_keeps_words(html: Seq<char>)
    ensures
        words(plain_text(html)) == words(text_chars(html)),
{
    lemma_markup_scan_keeps_text(html);
    lemma_words_trim_collapse(markup_scan(html).0);
}

/// Whether `v` ends with the two characters `p>`.
fn ends_with_p_close(v: &Vec<char>) -> (b: bool)
    ensures
        b == (v@.len() >= 2 && v@[v@.len() - 2] == 'p' && v@[v@.len() - 1] == '>'),
{
    v.len() >= 2 && v[v.len() - 2] == 'p' && v[v.len() - 1] == '>'
}

/// Turns an HTML description into plain text, as `plain_text` says.
pub fn clean_html(text: &str) -> (res: String)
    ensures
        res@ == plain_text(text@),
        words(res@) == words(text_chars(text@)),
{
    proof {
        lemma_plain_text_keeps_words(text@);
    }
    let cs = chars_of(text);
    let n = cs.len();
    let mut result: Vec<char> = Vec::new();
    let mut in_tag = false;
    let mut in_para = false;
    let mut i: usize = 0;
    while i < n
        invariant
            n == cs@.len(),
            cs@ == text@,
            i <= n,
            (result@, in_tag) == markup_scan(cs@.take(i as int)),
            !in_para,
            forall|k: int| 0 <= k < result@.len() ==> #[trigger] result@[k] != '>',
        decreases n - i,
    {
        let ch = cs[i];
        assert(cs@.take(i + 1).drop_last() == cs@.take(i as int));
        if ch == '<' {
            in_tag = true;
        } else if ch == '>' {
            in_tag = false;
            // A `>` is never kept, so the kept text never ends with `p>` and no
            // paragraph break is inserted here (the invariant shows it).
            if ends_with_p_close(&result) {
                result.push('\n');
                result.push('\n');
                in_para = true;
            }
        } else if ch == '\n' || ch == '\r' {
        } else if in_tag {
        } else if in_para && is_whitespace(ch) {
        } else {
            in_para = false;
            result.push(ch);
        }
        i = i + 1;
    }
    assert(cs@.take(n as int) == cs@);
    let joined = string_of(result.as_slice());
    let collapsed = collapse_whitespace(joined.as_str());
    let ccs = chars_of(collapsed.as_str());
    let t = trim_chars(ccs.as_slice());
    string_of(t.as_slice())
}


/// How many keywords a title is held against.
pub const KEYWORD_LIMIT: usize = 100;

/// One of the first `KEYWORD_LIMIT` keywords occurs in the title, both taken in
/// lower case.
pub open spec fn keyword_hit(title: Seq<char>, keywords: Seq<String>) -> bool {
    exists|i: int|
        0 <= i < keywords.len() && i < KEYWORD_LIMIT && has_substring(
            lowercase(title),
            lowercase(#[trigger] keywords[i]@),
        )
}

/// A title is highlighted exactly when one of the first hundred keywords, any of
/// them and not only the first, occurs in it with both in lower case: each such
/// keyword is enough, and a keyword past the hundredth or one that does not occur
/// is never the reason.
pub proof fn lemma_keyword_hit_any(title: Seq<char>, keywords: Seq<String>)
    ensures
        forall|i: int|
            0 <= i < keywords.len() && i < 100 && has_substring(lowercase(title), lowercase(#[trigger] keywords[i]@))
                ==> keyword_hit(title, keywords),
        keyword_hit(title, keywords) ==> exists|i: int|
            0 <= i < keywords.len() && i < 100 && has_substring(lowercase(title), lowercase(#[trigger] keywords[i]@)),
        keywords.len() == 0 ==> !keyword_hit(title, keywords),
        forall|k: String| keyword_hit(title, keywords) ==> keyword_hit(title, keywords.push(k)),
{
    assert forall|k: String| keyword_hit(title, keywords) implies keyword_hit(title, keywords.push(k)) by {
        let i = choose|i: int|
            0 <= i < keywords.len() && i < KEYWORD_LIMIT && has_substring(lowercase(title), lowercase(#[trigger] keywords[i]@));
        assert(keywords.push(k)[i] == keywords[i]);
    }
}

/// Whether `title` mentions one of the first hundred `keywords`, ignoring case.
pub fn matches_keywords(title: &str, keywords: &[String]) -> (b: bool)
    ensures
        b == keyword_hit(title@, keywords@),
        b <==> exists|i: int|
            0 <= i < keywords@.len() && i < 100 && has_substring(lowercase(title@), lowercase(#[trigger] keywords@[i]@)),
{
    proof {
        lemma_keyword_hit_any(title@, keywords@);
    }
    let title_lower = to_lowercase(title);
    let tl = chars_of(title_lower.as_str());
    let n = keywords.len();
    let mut i: usize = 0;
    while i < n && i < KEYWORD_LIMIT
        invariant
            n == keywords@.len(),
            i <= n,
            tl@ == lowercase(title@),
            forall|k: int|
                0 <= k < i ==> !has_substring(lowercase(title@), lowercase(#[trigger] keywords@[k]@)),
        decreases n - i,
    {
        let kw_lower = to_lowercase(keywords[i].as_str());
        let kl = chars_of(kw_lower.as_str());
        if contains_chars(tl.as_slice(), kl.as_slice()) {
            return true;
        }
        i = i + 1;
    }
    false
}

/// A colour of the theme: red, green and blue, or the terminal's white.
#[derive(Clone, Copy, Debug, PartialEq, Eq)]
pub enum ThemeColor {
    Rgb(u8, u8, u8),
    White,
}

/// The value of an ASCII hexadecimal digit.
pub open spec fn hex_digit(b: u8) -> Option<nat> {
    if 0x30 <= b <= 0x39 {
        Some((b - 0x30) as nat)
    } else if 0x61 <= b <= 0x66 {
        Some((b - 0x61 + 10) as nat)
    } else if 0x41 <= b <= 0x46 {
        Some((b - 0x41 + 10) as nat)
    } else {
        None
    }
}

/// What `u8::from_str_radix(_, 16)` gives for the two-byte text `b0 b1`: an
/// optional `+` sign followed by hexadecimal digits.
pub open spec fn hex_pair(b0: u8, b1: u8) -> Option<u8> {
    if b0 == 0x2b {
        match hex_digit(b1) {
            Some(d) => Some(d as u8),
            None => None,
        }
    } else {
        match (hex_digit(b0), hex_digit(b1)) {
            (Some(h), Some(l)) => Some((h * 16 + l) as u8),
            _ => None,
        }
    }
}

/// The colour written `#rrggbb` in the UTF-8 bytes `b`, a component that does
/// not parse counting as 0; white for any other text.
pub open spec fn color_of(b: Seq<u8>) -> ThemeColor {
    if b.len() == 7 && b[0] == 0x23 {
        ThemeColor::Rgb(
            match hex_pair(b[1], b[2]) { Some(v) => v, None => 0 },
            match hex_pair(b[3], b[4]) { Some(v) => v, None => 0 },
            match hex_pair(b[5], b[6]) { Some(v) => v, None => 0 },
        )
    } else {
        ThemeColor::White
    }
}

/// The lower-case hexadecimal digit of `d` (below 16), as a byte.
pub open spec fn hex_digit_byte(d: nat) -> u8 {
    if d < 10 { (48 + d) as u8 } else { (87 + d) as u8 }
}

/// Reading a colour back: the text `#rrggbb` written with the lower-case
/// hexadecimal digits of `r`, `g` and `b` is the colour `(r, g, b)`.
pub proof fn lemma_color_reads_back(r: u8, g: u8, b: u8)
    ensures
        color_of(
            seq![
                0x23u8,
                hex_digit_byte((r / 16) as nat),
                hex_digit_byte((r % 16) as nat),
                hex_digit_byte((g / 16) as nat),
                hex_digit_byte((g % 16) as nat),
                hex_digit_byte((b / 16) as nat),
                hex_digit_byte((b % 16) as nat),
            ],
        ) == ThemeColor::Rgb(r, g, b),
{
    assert forall|d: nat| d < 16 implies hex_digit(#[trigger] hex_digit_byte(d)) == Some(d) && hex_digit_byte(d) != 0x2b by {}
    assert((r / 16) * 16 + r % 16 == r);
    assert((g / 16) * 16 + g % 16 == g);
    assert((b / 16) * 16 + b % 16 == b);
    assert(hex_pair(hex_digit_byte((r / 16) as nat), hex_digit_byte((r % 16) as nat)) == Some(r));
    assert(hex_pair(hex_digit_byte((g / 16) as nat), hex_digit_byte((g % 16) as nat)) == Some(g));
    assert(hex_pair(hex_digit_byte((b / 16) as nat), hex_digit_byte((b % 16) as nat)) == Some(b));
}

/// A UTF-8 continuation byte, which no character starts with.
pub open spec fn is_continuation_byte(b: u8) -> bool {
    0x80 <= b < 0xc0
}

fn hex_digit_of(b: u8) -> (r: Option<u8>)
    ensures
        r matches Some(v) ==> hex_digit(b) == Some(v as nat),
        r is None ==> hex_digit(b) is None,
{
    if 0x30 <= b && b <= 0x39 {
        Some(b - 0x30)
    } else if 0x61 <= b && b <= 0x66 {
        Some(b - 0x61 + 10)
    } else if 0x41 <= b && b <= 0x46 {
        Some(b - 0x41 + 10)
    } else {
        None
    }
}

fn parse_hex_pair(b0: u8, b1: u8) -> (r: u8)
    ensures
        r == (match hex_pair(b0, b1) { Some(v) => v, None => 0 }),
{
    if b0 == 0x2b {
        match hex_digit_of(b1) {
            Some(d) => d,
            None => 0,
        }
    } else {
        match (hex_digit_of(b0), hex_digit_of(b1)) {
            (Some(h), Some(l)) => h * 16 + l,
            _ => 0,
        }
    }
}

/// Reads a theme colour written `#rrggbb`; any other text is white. The text is
/// cut at byte offsets 3 and 5, so those must fall between characters.
pub fn parse_color(hex: &str) -> (c: ThemeColor)
    requires
        hex.spec_bytes().len() == 7 && hex.spec_bytes()[0] == 0x23 ==> !is_continuation_byte(
            hex.spec_bytes()[3],
        ) && !is_continuation_byte(hex.spec_bytes()[5]),
    ensures
        c == color_of(hex.spec_bytes()),
{
    let b = hex.as_bytes();
    if b.len() == 7 && b[0] == 0x23 {
        ThemeColor::Rgb(
            parse_hex_pair(b[1], b[2]),
            parse_hex_pair(b[3], b[4]),
            parse_hex_pair(b[5], b[6]),
        )
    } else {
        ThemeColor::White
    }
}

} // verus!
