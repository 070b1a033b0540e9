//! Text reflow engine: inline-directive suppression and pagination.
//!
//! Card text may carry inline directives written `[[ ... ]]`; they are
//! instructions for other clients and must not reach the screen.  After
//! suppression the text is broken greedily into pages of at most a given
//! number of characters, never splitting a word.

use vstd::prelude::*;

verus! {

/// What one pass of directive suppression leaves of `s`, starting inside
/// (`skipping == true`) or outside a directive span.  Outside a span, a
/// doubled `[` opens one and both brackets are dropped; a lone `[` is kept.
/// Inside, a doubled `]` closes the span; everything else is dropped.
pub open spec fn scan_directives(s: Seq<char>, skipping: bool) -> Seq<char>
    decreases s.len(),
{
    if s.len() == 0 {
        Seq::empty()
    } else if !skipping {
        if s[0] == '[' && s.len() >= 2 && s[1] == '[' {
            scan_directives(s.skip(2), true)
        } else {
            seq![s[0]] + scan_directives(s.skip(1), false)
        }
    } else {
        if s[0] == ']' && s.len() >= 2 && s[1] == ']' {
            scan_directives(s.skip(2), false)
        } else {
            scan_directives(s.skip(1), true)
        }
    }
}

/// The text with every `[[ ... ]]` directive span suppressed.
pub open spec fn strip_directives(s: Seq<char>) -> Seq<char> {
    scan_directives(s, false)
}

/// Remove every `[[ ... ]]` directive span from `input`.
///
/// A lone bracket that is not doubled is ordinary text and is kept; an
/// unclosed `[[` suppresses everything to the end of the text.
pub fn remove_double_brackets(input: &str) -> (out: String)
    ensures
        out@ == strip_directives(input@),
{
    let n: usize = input.unicode_len();
    let mut out = String::new();
    let mut i: usize = 0;
    let mut skipping: bool = false;
    proof {
        assert(input@.skip(0) =~= input@);
        assert(out@ + strip_directives(input@) =~= strip_directives(input@));
    }
    while i < n
        invariant
            n == input@.len(),
            i <= n,
            out@ + scan_directives(input@.skip(i as int), skipping) == strip_directives(input@),
        decreases n - i,
    {
        let ghost rest = input@.skip(i as int);
        let c = input.get_char(i);
        if !skipping {
            if c == '[' && i + 1 < n && input.get_char(i + 1) == '[' {
                proof {
                    assert(rest.skip(2) =~= input@.skip(i + 2));
                }
                i = i + 2;
                skipping = true;
            } else {
                let piece = input.substring_char(i, i + 1);
                out.append(piece);
                proof {
                    assert(piece@ =~= seq![rest[0]]);
                    assert(rest.skip(1) =~= input@.skip(i + 1));
                }
                i = i + 1;
            }
        } else {
            if c == ']' && i + 1 < n && input.get_char(i + 1) == ']' {
                proof {
                    assert(rest.skip(2) =~= input@.skip(i + 2));
                }
                i = i + 2;
                skipping = false;
            } else {
                proof {
                    assert(rest.skip(1) =~= input@.skip(i + 1));
                }
                i = i + 1;
            }
        }
    }
    proof {
        assert(input@.skip(n as int) =~= Seq::<char>::empty());
    }
    out
}

/// The text with every `'0'` digit removed.
pub open spec fn without_zero_digits(s: Seq<char>) -> Seq<char> {
    s.filter(|c: char| c != '0')
}

/// Remove every `'0'` character from `text`, as trimming a "0 cards due"
/// label down to its unit suffix does.
pub fn remove_zero_digits(text: &str) -> (out: String)
    ensures
        out@ == without_zero_digits(text@),
{
    let n: usize = text.unicode_len();
    let mut out = String::new();
    let mut i: usize = 0;
    proof {
        reveal(Seq::filter);
        assert(text@.take(0) =~= Seq::<char>::empty());
        assert(out@ =~= without_zero_digits(text@.take(0)));
    }
    while i < n
        invariant
            n == text@.len(),
            i <= n,
            out@ == without_zero_digits(text@.take(i as int)),
        decreases n - i,
    {
        let c = text.get_char(i);
        proof {
            reveal(Seq::filter);
            assert(text@.take(i as int + 1).drop_last() =~= text@.take(i as int));
            assert(text@.take(i as int + 1).last() == text@[i as int]);
        }
        if c != '0' {
            let piece = text.substring_char(i, i + 1);
            proof {
                assert(piece@ =~= seq![text@[i as int]]);
            }
            out.append(piece);
        }
        i = i + 1;
    }
    proof {
        assert(text@.take(n as int) =~= text@);
    }
    out
}

/// The characters that separate words: the Unicode `White_Space` set.
pub open spec fn is_space(c: char) -> bool {
    let u = c as u32;
    u == 0x20 || (0x09 <= u && u <= 0x0D) || u == 0x85 || u == 0xA0 || u == 0x1680 || (0x2000
        <= u && u <= 0x200A) || u == 0x2028 || u == 0x2029 || u == 0x202F || u == 0x205F || u
        == 0x3000
}

/// Runtime test for [`is_space`].
pub fn space_char(c: char) -> (b: bool)
    ensures
        b == is_space(c),
{
    let u = c as u32;
    u == 0x20 || (0x09 <= u && u <= 0x0D) || u == 0x85 || u == 0xA0 || u == 0x1680 || (0x2000
        <= u && u <= 0x200A) || u == 0x2028 || u == 0x2029 || u == 0x202F || u == 0x205F || u
        == 0x3000
}

/// The sequence of whitespace-separated words of `s`, in order, each word a
/// maximal run of non-space characters.
pub open spec fn words_of(s: Seq<char>) -> Seq<Seq<char>>
    decreases s.len(),
{
    if s.len() == 0 {
        Seq::empty()
    } else if is_space(s[0]) {
        words_of(s.skip(1))
    } else if s.len() == 1 || is_space(s[1]) {
        seq![seq![s[0]]] + words_of(s.skip(1))
    } else {
        let rest = words_of(s.skip(1));
        seq![seq![s[0]] + rest[0]] + rest.skip(1)
    }
}

/// A maximal non-space run at the front of `s` is the first word.
pub proof fn lemma_words_of_run(s: Seq<char>, k: int)
    requires
        0 < k <= s.len(),
        forall|j: int| 0 <= j < k ==> !is_space(#[trigger] s[j]),
        k == s.len() || is_space(s[k]),
    ensures
        words_of(s) == seq![s.take(k)] + words_of(s.skip(k)),
    decreases k,
{
    if k == 1 {
        assert(s.take(1) =~= seq![s[0]]);
        if s.len() == 1 {
        } else {
            assert(is_space(s[1]));
        }
    } else {
        assert(!is_space(s[1]));
        lemma_words_of_run(s.skip(1), k - 1);
        let rest = words_of(s.skip(1));
        assert(s.skip(1).skip(k - 1) =~= s.skip(k));
        assert(rest == seq![s.skip(1).take(k - 1)] + words_of(s.skip(k)));
        assert(seq![s[0]] + rest[0] =~= s.take(k));
        assert(rest.skip(1) =~= words_of(s.skip(k)));
        assert(words_of(s) =~= seq![s.take(k)] + words_of(s.skip(k)));
    }
}

/// Every word is non-empty and free of whitespace.
pub proof fn lemma_words_wf(s: Seq<char>)
    ensures
        forall|i: int|
            0 <= i < words_of(s).len() ==> (#[trigger] words_of(s)[i]).len() > 0 && (forall|j: int|
                0 <= j < words_of(s)[i].len() ==> !is_space(#[trigger] words_of(s)[i][j])),
    decreases s.len(),
{
    if s.len() == 0 {
    } else if is_space(s[0]) {
        lemma_words_wf(s.skip(1));
    } else if s.len() == 1 || is_space(s[1]) {
        lemma_words_wf(s.skip(1));
        assert(words_of(s)[0] =~= seq![s[0]]);
        assert forall|i: int| 1 <= i < words_of(s).len() implies words_of(s)[i] == words_of(
            s.skip(1),
        )[i - 1] by {}
    } else {
        lemma_words_wf(s.skip(1));
        let rest = words_of(s.skip(1));
        assert(!is_space(s.skip(1)[0]));
        assert(rest.len() > 0) by {
            lemma_words_nonempty(s.skip(1));
        }
        assert(words_of(s)[0] == seq![s[0]] + rest[0]);
        assert forall|i: int| 1 <= i < words_of(s).len() implies words_of(s)[i] == rest[i] by {}
    }
}

/// Text that starts with a non-space character has at least one word.
pub proof fn lemma_words_nonempty(s: Seq<char>)
    requires
        s.len() > 0,
        !is_space(s[0]),
    ensures
        words_of(s).len() > 0,
    decreases s.len(),
{
    if s.len() == 1 || is_space(s[1]) {
    } else {
        lemma_words_nonempty(s.skip(1));
    }
}

/// The words of one page laid out with single separating spaces.
pub open spec fn join_words(ws: Seq<Seq<char>>) -> Seq<char>
    decreases ws.len(),
{
    if ws.len() == 0 {
        Seq::empty()
    } else if ws.len() == 1 {
        ws[0]
    } else {
        ws[0] + seq![' '] + join_words(ws.skip(1))
    }
}

/// How many further words still fit on a page that already uses `used`
/// characters: each following word costs its length plus one space.
pub open spec fn page_take(ws: Seq<Seq<char>>, used: int, budget: int) -> nat
    decreases ws.len(),
{
    if ws.len() == 0 {
        0
    } else if used + 1 + ws[0].len() <= budget {
        1 + page_take(ws.skip(1), used + 1 + ws[0].len(), budget)
    } else {
        0
    }
}

/// Greedy pagination of a word sequence: each page takes the first word
/// unconditionally, then as many following words as fit in `budget`.
pub open spec fn group_words(ws: Seq<Seq<char>>, budget: int) -> Seq<Seq<Seq<char>>>
    decreases ws.len(),
{
    if ws.len() == 0 {
        Seq::empty()
    } else {
        let k0 = 1 + page_take(ws.skip(1), ws[0].len() as int, budget);
        let k: int = if k0 <= ws.len() {
            k0 as int
        } else {
            ws.len() as int
        };
        seq![ws.take(k)] + group_words(ws.skip(k), budget)
    }
}

/// Greedy pagination continued from a partially filled page `cur`.
pub open spec fn group_partial(cur: Seq<Seq<char>>, ws: Seq<Seq<char>>, budget: int) -> Seq<
    Seq<Seq<char>>,
> {
    if cur.len() == 0 {
        group_words(ws, budget)
    } else {
        let k0 = page_take(ws, join_words(cur).len() as int, budget);
        let k: int = if k0 <= ws.len() {
            k0 as int
        } else {
            ws.len() as int
        };
        seq![cur + ws.take(k)] + group_words(ws.skip(k), budget)
    }
}

pub proof fn lemma_page_take_le(ws: Seq<Seq<char>>, used: int, budget: int)
    ensures
        page_take(ws, used, budget) <= ws.len(),
    decreases ws.len(),
{
    if ws.len() == 0 {
    } else if used + 1 + ws[0].len() <= budget {
        lemma_page_take_le(ws.skip(1), used + 1 + ws[0].len(), budget);
    }
}

/// Appending a word to a non-empty page line adds one space and the word.
pub proof fn lemma_join_push(ws: Seq<Seq<char>>, w: Seq<char>)
    requires
        ws.len() > 0,
    ensures
        join_words(ws.push(w)) == join_words(ws) + seq![' '] + w,
    decreases ws.len(),
{
    if ws.len() == 1 {
        assert(ws.push(w).skip(1) =~= seq![w]);
        assert(join_words(seq![w]) == w);
        assert(join_words(ws.push(w)) == ws[0] + seq![' '] + w);
        assert(join_words(ws) + seq![' '] + w =~= ws[0] + seq![' '] + w);
    } else {
        lemma_join_push(ws.skip(1), w);
        assert(ws.push(w).skip(1) =~= ws.skip(1).push(w));
        assert(join_words(ws.push(w)) == ws[0] + seq![' '] + join_words(ws.skip(1).push(w)));
        assert(join_words(ws.push(w)) =~= join_words(ws) + seq![' '] + w);
    }
}

/// Starting a fresh page with the first remaining word.
pub proof fn lemma_group_start(ws: Seq<Seq<char>>, budget: int)
    requires
        ws.len() > 0,
    ensures
        group_partial(Seq::empty(), ws, budget) == group_partial(seq![ws[0]], ws.skip(1), budget),
{
    let rest = ws.skip(1);
    lemma_page_take_le(rest, ws[0].len() as int, budget);
    let p = page_take(rest, ws[0].len() as int, budget) as int;
    assert(join_words(seq![ws[0]]) == ws[0]);
    assert(seq![ws[0]] + rest.take(p) =~= ws.take(p + 1));
    assert(rest.skip(p) =~= ws.skip(p + 1));
}

/// Adding a word that fits to the current page.
pub proof fn lemma_group_add(cur: Seq<Seq<char>>, ws: Seq<Seq<char>>, budget: int)
    requires
        cur.len() > 0,
        ws.len() > 0,
        join_words(cur).len() + 1 + ws[0].len() <= budget,
    ensures
        group_partial(cur, ws, budget) == group_partial(cur.push(ws[0]), ws.skip(1), budget),
{
    let jl = join_words(cur).len() as int;
    let rest = ws.skip(1);
    lemma_page_take_le(ws, jl, budget);
    lemma_page_take_le(rest, jl + 1 + ws[0].len(), budget);
    lemma_join_push(cur, ws[0]);
    let p = page_take(rest, jl + 1 + ws[0].len(), budget) as int;
    assert(page_take(ws, jl, budget) == 1 + p);
    assert(cur + ws.take(p + 1) =~= cur.push(ws[0]) + rest.take(p));
    assert(ws.skip(p + 1) =~= rest.skip(p));
}

/// A word that does not fit closes the current page.
pub proof fn lemma_group_flush(cur: Seq<Seq<char>>, ws: Seq<Seq<char>>, budget: int)
    requires
        cur.len() > 0,
        ws.len() > 0,
        join_words(cur).len() + 1 + ws[0].len() > budget,
    ensures
        group_partial(cur, ws, budget) == seq![cur] + group_partial(Seq::empty(), ws, budget),
{
    assert(page_take(ws, join_words(cur).len() as int, budget) == 0);
    assert(cur + ws.take(0) =~= cur);
    assert(ws.skip(0) =~= ws);
}

/// When no words remain, the current page (if any) is the last page.
pub proof fn lemma_group_end(cur: Seq<Seq<char>>, budget: int)
    ensures
        cur.len() == 0 ==> group_partial(cur, Seq::empty(), budget) == Seq::<Seq<Seq<char>>>::empty(),
        cur.len() > 0 ==> group_partial(cur, Seq::empty(), budget) == seq![cur],
{
    if cur.len() > 0 {
        assert(cur + Seq::<Seq<char>>::empty().take(0) =~= cur);
        assert(seq![cur + Seq::<Seq<char>>::empty().take(0)] + group_words(
            Seq::empty(),
            budget,
        ) =~= seq![cur]);
    }
}

/// The pages of `s` at character budget `budget`: the words of `s`,
/// grouped greedily, each page joined with single spaces.  Text without
/// words gives one empty page, never zero pages.
pub open spec fn paginate_spec(s: Seq<char>, budget: int) -> Seq<Seq<char>> {
    let ws = words_of(s);
    if ws.len() == 0 {
        seq![Seq::<char>::empty()]
    } else {
        group_words(ws, budget).map_values(|g: Seq<Seq<char>>| join_words(g))
    }
}

/// Split `text` into its whitespace-separated words.
fn collect_words(text: &str) -> (ws: Vec<String>)
    ensures
        ws@.map_values(|w: String| w@) == words_of(text@),
{
    let n: usize = text.unicode_len();
    let mut ws: Vec<String> = Vec::new();
    let mut i: usize = 0;
    proof {
        assert(text@.skip(0) =~= text@);
        assert(ws@.map_values(|w: String| w@) =~= Seq::<Seq<char>>::empty());
    }
    while i < n
        invariant
            n == text@.len(),
            i <= n,
            ws@.map_values(|w: String| w@) + words_of(text@.skip(i as int)) == words_of(text@),
        decreases n - i,
    {
        let ghost rest = text@.skip(i as int);
        let c = text.get_char(i);
        if space_char(c) {
            proof {
                assert(rest.skip(1) =~= text@.skip(i + 1));
            }
            i = i + 1;
        } else {
            let mut j: usize = i + 1;
            while j < n && !space_char(text.get_char(j))
                invariant
                    n == text@.len(),
                    i < j <= n,
                    forall|m: int| i <= m < j ==> !is_space(#[trigger] text@[m]),
                    !is_space(text@[i as int]),
                decreases n - j,
            {
                j = j + 1;
            }
            let word = text.substring_char(i, j).to_owned();
            proof {
                lemma_words_of_run(rest, j - i);
                assert(rest.take(j - i) =~= word@);
                assert(rest.skip(j - i) =~= text@.skip(j as int));
                assert(ws@.push(word).map_values(|w: String| w@) =~= ws@.map_values(
                    |w: String| w@,
                ).push(word@));
            }
            ws.push(word);
            i = j;
        }
    }
    proof {
        assert(text@.skip(n as int) =~= Seq::<char>::empty());
        assert(ws@.map_values(|w: String| w@) + words_of(Seq::<char>::empty()) =~= ws@.map_values(
            |w: String| w@,
        ));
    }
    ws
}

/// Break `text` into pages of at most `chars_per_page` characters.
///
/// Words are never split: a page is flushed when the next word (and its
/// separating space) would not fit.  A single word longer than the budget
/// stands alone on an over-long page.  Empty or all-whitespace text gives
/// one empty page, so the result is never empty.
pub fn paginate_text(text: &str, chars_per_page: usize) -> (pages: Vec<String>)
    ensures
        pages@.map_values(|p: String| p@) == paginate_spec(text@, chars_per_page as int),
{
    let ws = collect_words(text);
    let ghost all = words_of(text@);
    let ghost b = chars_per_page as int;
    let mut pages: Vec<String> = Vec::new();
    let mut cur = String::new();
    let mut cur_len: usize = 0;
    let mut first: bool = true;
    let ghost mut cw: Seq<Seq<char>> = Seq::empty();
    let ghost mut done: Seq<Seq<Seq<char>>> = Seq::empty();
    let mut w: usize = 0;
    proof {
        assert(all.skip(0) =~= all);
        assert(pages@.map_values(|p: String| p@) =~= Seq::<Seq<char>>::empty());
        assert(done.map_values(|g: Seq<Seq<char>>| join_words(g)) =~= Seq::<Seq<char>>::empty());
    }
    while w < ws.len()
        invariant
            ws@.map_values(|x: String| x@) == all,
            w <= ws@.len(),
            first <==> cw.len() == 0,
            cur@ == join_words(cw),
            cur_len == cur@.len(),
            b == chars_per_page as int,
            group_words(all, b) == done + group_partial(cw, all.skip(w as int), b),
            pages@.map_values(|p: String| p@) == done.map_values(
                |g: Seq<Seq<char>>| join_words(g),
            ),
        decreases ws@.len() - w,
    {
        let word = &ws[w];
        let wlen = word.as_str().unicode_len();
        let ghost rest = all.skip(w as int);
        proof {
            assert(all[w as int] == ws@.map_values(|x: String| x@)[w as int]);
            assert(rest[0] == all[w as int]);
            assert(rest.skip(1) =~= all.skip(w as int + 1));
        }
        if first {
            cur.append(word.as_str());
            cur_len = wlen;
            first = false;
            proof {
                lemma_group_start(rest, b);
                cw = seq![all[w as int]];
                assert(join_words(cw) == all[w as int]);
            }
        } else {
            let fits = if cur_len >= chars_per_page {
                false
            } else {
                wlen <= chars_per_page - cur_len - 1
            };
            if fits {
                cur.append(" ");
                cur.append(word.as_str());
                cur_len = cur_len + 1 + wlen;
                proof {
                    reveal_strlit(" ");
                    assert(" "@ =~= seq![' ']);
                    lemma_group_add(cw, rest, b);
                    lemma_join_push(cw, all[w as int]);
                    cw = cw.push(all[w as int]);
                }
            } else {
                proof {
                    lemma_group_flush(cw, rest, b);
                    lemma_group_start(rest, b);
                    assert(pages@.push(cur).map_values(|p: String| p@) =~= pages@.map_values(
                        |p: String| p@,
                    ).push(cur@));
                    assert(done.push(cw).map_values(|g: Seq<Seq<char>>| join_words(g))
                        =~= done.map_values(|g: Seq<Seq<char>>| join_words(g)).push(
                        join_words(cw),
                    ));
                }
                pages.push(cur);
                cur = String::new();
                cur.append(word.as_str());
                cur_len = wlen;
                proof {
                    done = done.push(cw);
                    cw = seq![all[w as int]];
                    assert(join_words(cw) == all[w as int]);
                }
            }
        }
        w = w + 1;
    }
    proof {
        assert(all.skip(ws@.len() as int) =~= Seq::<Seq<char>>::empty());
        lemma_group_end(cw, b);
    }
    if !first {
        proof {
            assert(pages@.push(cur).map_values(|p: String| p@) =~= pages@.map_values(
                |p: String| p@,
            ).push(cur@));
            assert(done.push(cw).map_values(|g: Seq<Seq<char>>| join_words(g)) =~= done.map_values(
                |g: Seq<Seq<char>>| join_words(g),
            ).push(join_words(cw)));
        }
        pages.push(cur);
        proof {
            done = done.push(cw);
        }
    }
    proof {
        assert(done + Seq::<Seq<Seq<char>>>::empty() =~= done);
        assert(group_words(all, b) == done);
    }
    if pages.len() == 0 {
        proof {
            assert(done.len() == 0);
            assert(all.len() == 0) by {
                if all.len() > 0 {
                    assert(group_words(all, b).len() >= 1);
                }
            }
        }
        pages.push(String::new());
        proof {
            assert(pages@.map_values(|p: String| p@) =~= seq![Seq::<char>::empty()]);
        }
    } else {
        proof {
            assert(all.len() > 0) by {
                if all.len() == 0 {
                    assert(group_words(all, b) =~= Seq::<Seq<Seq<char>>>::empty());
                }
            }
        }
    }
    pages
}

/// Strip directives from `text` if asked, then paginate.
///
/// This is the whole presentation pipeline for card text whose markup has
/// already been removed by the renderer.
pub fn strip_directives_and_paginate(
    text: &str,
    remove_brackets: bool,
    chars_per_page: usize,
) -> (pages: Vec<String>)
    ensures
        pages@.map_values(|p: String| p@) == paginate_spec(
            if remove_brackets {
                strip_directives(text@)
            } else {
                text@
            },
            chars_per_page as int,
        ),
{
    if remove_brackets {
        let cleaned = remove_double_brackets(text);
        paginate_text(cleaned.as_str(), chars_per_page)
    } else {
        paginate_text(text, chars_per_page)
    }
}

/// The words of each page, concatenated over the pages in order.
pub open spec fn flat_words(pages: Seq<Seq<char>>) -> Seq<Seq<char>>
    decreases pages.len(),
{
    if pages.len() == 0 {
        Seq::empty()
    } else {
        words_of(pages[0]) + flat_words(pages.skip(1))
    }
}

/// The word groups of the pages, concatenated in order.
pub open spec fn concat_groups(gs: Seq<Seq<Seq<char>>>) -> Seq<Seq<char>>
    decreases gs.len(),
{
    if gs.len() == 0 {
        Seq::empty()
    } else {
        gs[0] + concat_groups(gs.skip(1))
    }
}

/// A page line made of well-formed words splits back into those words.
pub proof fn lemma_words_of_join(g: Seq<Seq<char>>)
    requires
        forall|i: int| 0 <= i < g.len() ==> (#[trigger] g[i]).len() > 0,
        forall|i: int, j: int| 0 <= i < g.len() && 0 <= j < g[i].len() ==> !is_space(
            #[trigger] g[i][j],
        ),
    ensures
        words_of(join_words(g)) == g,
    decreases g.len(),
{
    if g.len() == 0 {
    } else if g.len() == 1 {
        let w = g[0];
        lemma_words_of_run(w, w.len() as int);
        assert(w.take(w.len() as int) =~= w);
        assert(w.skip(w.len() as int) =~= Seq::<char>::empty());
        assert(words_of(w) =~= seq![w]);
        assert(join_words(g) == w);
        assert(g =~= seq![w]);
    } else {
        let w = g[0];
        let s = join_words(g);
        assert(s == w + seq![' '] + join_words(g.skip(1)));
        assert forall|j: int| 0 <= j < w.len() implies !is_space(#[trigger] s[j]) by {
            assert(s[j] == w[j]);
        }
        assert(s[w.len() as int] == ' ');
        lemma_words_of_run(s, w.len() as int);
        assert(s.take(w.len() as int) =~= w);
        let t = s.skip(w.len() as int);
        assert(t[0] == ' ');
        assert(t.skip(1) =~= join_words(g.skip(1)));
        assert(forall|i: int| 0 <= i < g.skip(1).len() ==> (#[trigger] g.skip(1)[i]).len() > 0);
        assert forall|i: int, j: int|
            0 <= i < g.skip(1).len() && 0 <= j < g.skip(1)[i].len() implies !is_space(
            #[trigger] g.skip(1)[i][j],
        ) by {
            assert(g.skip(1)[i] == g[i + 1]);
        }
        lemma_words_of_join(g.skip(1));
        assert(words_of(s) == seq![w] + g.skip(1));
        assert(seq![w] + g.skip(1) =~= g);
    }
}

/// Greedy grouping keeps every word, in order.
pub proof fn lemma_group_concat(ws: Seq<Seq<char>>, budget: int)
    ensures
        concat_groups(group_words(ws, budget)) == ws,
    decreases ws.len(),
{
    if ws.len() == 0 {
        assert(concat_groups(group_words(ws, budget)) =~= ws);
    } else {
        lemma_page_take_le(ws.skip(1), ws[0].len() as int, budget);
        let k0 = 1 + page_take(ws.skip(1), ws[0].len() as int, budget);
        let k: int = if k0 <= ws.len() {
            k0 as int
        } else {
            ws.len() as int
        };
        lemma_group_concat(ws.skip(k), budget);
        let gs = group_words(ws, budget);
        assert(gs.skip(1) =~= group_words(ws.skip(k), budget));
        assert(concat_groups(gs) == ws.take(k) + ws.skip(k));
        assert(ws.take(k) + ws.skip(k) =~= ws);
    }
}

/// Every word of every greedy group is a word of the input sequence.
pub proof fn lemma_group_wf(ws: Seq<Seq<char>>, budget: int)
    requires
        forall|i: int| 0 <= i < ws.len() ==> (#[trigger] ws[i]).len() > 0,
        forall|i: int, j: int| 0 <= i < ws.len() && 0 <= j < ws[i].len() ==> !is_space(
            #[trigger] ws[i][j],
        ),
    ensures
        forall|g: int, i: int|
            0 <= g < group_words(ws, budget).len() && 0 <= i < group_words(ws, budget)[g].len()
                ==> (#[trigger] group_words(ws, budget)[g][i]).len() > 0 && (forall|j: int|
                0 <= j < group_words(ws, budget)[g][i].len() ==> !is_space(
                    #[trigger] group_words(ws, budget)[g][i][j],
                )),
    decreases ws.len(),
{
    if ws.len() == 0 {
    } else {
        lemma_page_take_le(ws.skip(1), ws[0].len() as int, budget);
        let k0 = 1 + page_take(ws.skip(1), ws[0].len() as int, budget);
        let k: int = if k0 <= ws.len() {
            k0 as int
        } else {
            ws.len() as int
        };
        assert(forall|i: int| 0 <= i < ws.skip(k).len() ==> #[trigger] ws.skip(k)[i] == ws[i + k]);
        lemma_group_wf(ws.skip(k), budget);
        let gs = group_words(ws, budget);
        assert(gs[0] == ws.take(k));
        assert(forall|i: int| 1 <= i < gs.len() ==> #[trigger] gs[i] == group_words(
            ws.skip(k),
            budget,
        )[i - 1]);
        assert(forall|i: int| 0 <= i < k ==> #[trigger] ws.take(k)[i] == ws[i]);
    }
}

/// Pagination loses no words: reading the pages in order gives back the
/// word sequence of the text, with nothing dropped, reordered or added,
/// and the page sequence is never empty.
pub proof fn lemma_paginate_preserves_words(s: Seq<char>, budget: int)
    ensures
        paginate_spec(s, budget).len() >= 1,
        flat_words(paginate_spec(s, budget)) == words_of(s),
{
    let ws = words_of(s);
    if ws.len() == 0 {
        let pages = paginate_spec(s, budget);
        assert(pages == seq![Seq::<char>::empty()]);
        assert(pages.skip(1) =~= Seq::<Seq<char>>::empty());
        assert(words_of(pages[0]) =~= Seq::<Seq<char>>::empty());
        assert(flat_words(pages) == words_of(pages[0]) + flat_words(pages.skip(1)));
        assert(words_of(s) =~= Seq::<Seq<char>>::empty());
        assert(flat_words(pages) =~= words_of(s));
    } else {
        lemma_words_wf(s);
        lemma_group_wf(ws, budget);
        lemma_group_concat(ws, budget);
        lemma_flat_map_join(group_words(ws, budget));
    }
}

/// Joining then re-splitting each group, page by page, yields the
/// concatenation of the groups.
proof fn lemma_flat_map_join(gs: Seq<Seq<Seq<char>>>)
    requires
        forall|g: int, i: int|
            0 <= g < gs.len() && 0 <= i < gs[g].len() ==> (#[trigger] gs[g][i]).len() > 0 && (
            forall|j: int| 0 <= j < gs[g][i].len() ==> !is_space(#[trigger] gs[g][i][j])),
    ensures
        flat_words(gs.map_values(|g: Seq<Seq<char>>| join_words(g))) == concat_groups(gs),
    decreases gs.len(),
{
    let pages = gs.map_values(|g: Seq<Seq<char>>| join_words(g));
    if gs.len() == 0 {
        assert(flat_words(pages) =~= concat_groups(gs));
    } else {
        assert(forall|g: int, i: int|
            0 <= g < gs.skip(1).len() && 0 <= i < gs.skip(1)[g].len() ==> #[trigger] gs.skip(
                1,
            )[g][i] == gs[g + 1][i]);
        lemma_flat_map_join(gs.skip(1));
        assert(forall|i: int| 0 <= i < gs[0].len() ==> (#[trigger] gs[0][i]).len() > 0);
        assert forall|i: int, j: int|
            0 <= i < gs[0].len() && 0 <= j < gs[0][i].len() implies !is_space(
            #[trigger] gs[0][i][j],
        ) by {}
        lemma_words_of_join(gs[0]);
        assert(pages[0] == join_words(gs[0]));
        assert(pages.skip(1) =~= gs.skip(1).map_values(|g: Seq<Seq<char>>| join_words(g)));
        assert(flat_words(pages) == gs[0] + concat_groups(gs.skip(1)));
    }
}

/// A single space splits word extraction: the words of `a + " " + b` are
/// the words of `a` followed by the words of `b`, whatever `a` and `b`.
pub proof fn lemma_words_space_split(a: Seq<char>, b: Seq<char>)
    ensures
        words_of(a + seq![' '] + b) == words_of(a) + words_of(b),
    decreases a.len(),
{
    let s = a + seq![' '] + b;
    if a.len() == 0 {
        assert(s[0] == ' ');
        assert(s.skip(1) =~= b);
        assert(words_of(a) + words_of(b) =~= words_of(b));
    } else {
        let c = a[0];
        assert(s[0] == c);
        assert(s.skip(1) =~= a.skip(1) + seq![' '] + b);
        lemma_words_space_split(a.skip(1), b);
        if is_space(c) {
        } else if a.len() == 1 {
            assert(s[1] == ' ');
            assert(a.skip(1) + seq![' '] + b =~= seq![' '] + b);
            assert((seq![' '] + b)[0] == ' ');
            assert((seq![' '] + b).skip(1) =~= b);
            assert(words_of(s) == seq![seq![c]] + words_of(b));
            assert(words_of(a) =~= seq![seq![c]]);
            assert(seq![seq![c]] + words_of(b) =~= words_of(a) + words_of(b));
        } else if is_space(a[1]) {
            assert(s[1] == a[1]);
            assert(words_of(s) == seq![seq![c]] + (words_of(a.skip(1)) + words_of(b)));
            assert(words_of(a) == seq![seq![c]] + words_of(a.skip(1)));
            assert(seq![seq![c]] + (words_of(a.skip(1)) + words_of(b)) =~= words_of(a)
                + words_of(b));
        } else {
            assert(s[1] == a[1]);
            let ra = words_of(a.skip(1));
            assert(ra.len() > 0) by {
                lemma_words_nonempty(a.skip(1));
            }
            let rest = words_of(s.skip(1));
            assert(rest == ra + words_of(b));
            assert(rest[0] == ra[0]);
            assert(words_of(s) == seq![seq![c] + rest[0]] + rest.skip(1));
            assert(words_of(a) == seq![seq![c] + ra[0]] + ra.skip(1));
            assert(rest.skip(1) =~= ra.skip(1) + words_of(b));
            assert(seq![seq![c] + ra[0]] + (ra.skip(1) + words_of(b)) =~= words_of(a) + words_of(
                b,
            ));
        }
    }
}

/// Reading a sequence of pages joined by single spaces yields the pages'
/// words in order.
pub proof fn lemma_words_of_joined_pages(pages: Seq<Seq<char>>)
    ensures
        words_of(join_words(pages)) == flat_words(pages),
    decreases pages.len(),
{
    if pages.len() == 0 {
    } else if pages.len() == 1 {
        assert(flat_words(pages.skip(1)) =~= Seq::<Seq<char>>::empty());
        assert(words_of(pages[0]) + Seq::<Seq<char>>::empty() =~= words_of(pages[0]));
    } else {
        lemma_words_space_split(pages[0], join_words(pages.skip(1)));
        lemma_words_of_joined_pages(pages.skip(1));
        assert(pages[0] + seq![' '] + join_words(pages.skip(1)) == join_words(pages));
    }
}

/// Pagination round trip, stated on the text itself: concatenating the
/// pages with single spaces and collapsing whitespace reproduces the
/// whitespace-normalized word sequence of the original text — no word is
/// dropped, reordered or duplicated.
pub proof fn lemma_paginate_round_trip(s: Seq<char>, budget: int)
    ensures
        words_of(join_words(paginate_spec(s, budget))) == words_of(s),
{
    lemma_paginate_preserves_words(s, budget);
    lemma_words_of_joined_pages(paginate_spec(s, budget));
}

/// Filling a page that already holds a fitting line keeps it within budget.
proof fn lemma_pt_fits(ws: Seq<Seq<char>>, cur: Seq<Seq<char>>, budget: int)
    requires
        cur.len() >= 1,
        join_words(cur).len() <= budget,
    ensures
        join_words(
            cur + ws.take(page_take(ws, join_words(cur).len() as int, budget) as int),
        ).len() <= budget,
    decreases ws.len(),
{
    let jl = join_words(cur).len() as int;
    let p = page_take(ws, jl, budget) as int;
    lemma_page_take_le(ws, jl, budget);
    if ws.len() == 0 || p == 0 {
        assert(cur + ws.take(0) =~= cur);
    } else {
        assert(jl + 1 + ws[0].len() <= budget);
        lemma_join_push(cur, ws[0]);
        let cur2 = cur.push(ws[0]);
        assert(join_words(cur2).len() == jl + 1 + ws[0].len());
        lemma_pt_fits(ws.skip(1), cur2, budget);
        let p2 = page_take(ws.skip(1), jl + 1 + ws[0].len(), budget) as int;
        lemma_page_take_le(ws.skip(1), jl + 1 + ws[0].len(), budget);
        assert(p == 1 + p2);
        assert(cur + ws.take(p) =~= cur2 + ws.skip(1).take(p2));
    }
}

/// Each greedy page either fits the budget or holds a single word.
proof fn lemma_group_fits(ws: Seq<Seq<char>>, budget: int)
    requires
        budget >= 0,
    ensures
        forall|g: int|
            0 <= g < group_words(ws, budget).len() ==> (#[trigger] join_words(
                group_words(ws, budget)[g],
            )).len() <= budget || group_words(ws, budget)[g].len() == 1,
    decreases ws.len(),
{
    if ws.len() == 0 {
    } else {
        lemma_page_take_le(ws.skip(1), ws[0].len() as int, budget);
        let p = page_take(ws.skip(1), ws[0].len() as int, budget) as int;
        let k = 1 + p;
        let gs = group_words(ws, budget);
        assert(gs[0] == ws.take(k));
        lemma_group_fits(ws.skip(k), budget);
        assert(gs.skip(1) =~= group_words(ws.skip(k), budget));
        if k == 1 {
            assert(gs[0].len() == 1);
        } else {
            assert(p >= 1);
            assert(ws[0].len() as int + 1 + ws.skip(1)[0].len() <= budget);
            let single = seq![ws[0]];
            assert(join_words(single) == ws[0]);
            lemma_pt_fits(ws.skip(1), single, budget);
            assert(single + ws.skip(1).take(p) =~= ws.take(k));
        }
        assert(forall|g: int| 1 <= g < gs.len() ==> #[trigger] gs[g] == group_words(
            ws.skip(k),
            budget,
        )[g - 1]);
    }
}

/// No page overruns the budget, except a page that holds a single word
/// longer than the budget.  (That no page splits or drops a word is
/// [`lemma_paginate_preserves_words`].)
pub proof fn lemma_paginate_budget(s: Seq<char>, budget: int)
    requires
        budget >= 0,
    ensures
        forall|i: int|
            0 <= i < paginate_spec(s, budget).len() ==> (#[trigger] paginate_spec(s, budget)[i]).len()
                <= budget || words_of(paginate_spec(s, budget)[i]).len() == 1,
{
    let ws = words_of(s);
    let pages = paginate_spec(s, budget);
    if ws.len() == 0 {
        assert(pages == seq![Seq::<char>::empty()]);
        assert(pages[0].len() == 0);
    } else {
        lemma_words_wf(s);
        lemma_group_wf(ws, budget);
        lemma_group_fits(ws, budget);
        let gs = group_words(ws, budget);
        assert forall|i: int| 0 <= i < pages.len() implies (#[trigger] pages[i]).len() <= budget
            || words_of(pages[i]).len() == 1 by {
            assert(pages[i] == join_words(gs[i]));
            if join_words(gs[i]).len() > budget {
                assert(gs[i].len() == 1);
                lemma_words_of_join(gs[i]);
            }
        }
    }
}

/// Text free of both bracket characters.
pub open spec fn bracket_free(s: Seq<char>) -> bool {
    forall|i: int| 0 <= i < s.len() ==> s[i] != '[' && s[i] != ']'
}

/// Suppression passes a bracket-free prefix through untouched.
pub proof fn lemma_strip_prefix(pre: Seq<char>, rest: Seq<char>)
    requires
        bracket_free(pre),
    ensures
        strip_directives(pre + rest) == pre + strip_directives(rest),
    decreases pre.len(),
{
    if pre.len() == 0 {
        assert(pre + rest =~= rest);
        assert(pre + strip_directives(rest) =~= strip_directives(rest));
    } else {
        let s = pre + rest;
        assert(s[0] == pre[0]);
        assert(pre[0] != '[');
        assert(s.skip(1) =~= pre.skip(1) + rest);
        assert(bracket_free(pre.skip(1)));
        lemma_strip_prefix(pre.skip(1), rest);
        assert(seq![pre[0]] + (pre.skip(1) + strip_directives(rest)) =~= pre + strip_directives(
            rest,
        ));
    }
}

/// Suppression leaves bracket-free text unchanged.
pub proof fn lemma_strip_bracket_free(s: Seq<char>)
    requires
        bracket_free(s),
    ensures
        strip_directives(s) == s,
{
    lemma_strip_prefix(s, Seq::empty());
    assert(s + Seq::<char>::empty() =~= s);
    assert(s + strip_directives(Seq::<char>::empty()) =~= s);
}

/// Inside a span, everything up to the closing `]]` is dropped.
proof fn lemma_scan_payload(x: Seq<char>, rest: Seq<char>)
    requires
        bracket_free(x),
    ensures
        scan_directives(x + seq![']', ']'] + rest, true) == scan_directives(rest, false),
    decreases x.len(),
{
    let s = x + seq![']', ']'] + rest;
    if x.len() == 0 {
        assert(s[0] == ']');
        assert(s[1] == ']');
        assert(s.skip(2) =~= rest);
    } else {
        assert(s[0] == x[0]);
        assert(x[0] != ']');
        assert(s.skip(1) =~= x.skip(1) + seq![']', ']'] + rest);
        assert(bracket_free(x.skip(1)));
        lemma_scan_payload(x.skip(1), rest);
    }
}

/// A balanced `[[x]]` span after a bracket-free prefix vanishes entirely.
pub proof fn lemma_directive_span_elision(pre: Seq<char>, x: Seq<char>, rest: Seq<char>)
    requires
        bracket_free(pre),
        bracket_free(x),
    ensures
        strip_directives(pre + seq!['[', '['] + x + seq![']', ']'] + rest) == pre
            + strip_directives(rest),
    decreases pre.len(),
{
    let s = pre + seq!['[', '['] + x + seq![']', ']'] + rest;
    if pre.len() == 0 {
        assert(s[0] == '[');
        assert(s[1] == '[');
        assert(s.skip(2) =~= x + seq![']', ']'] + rest);
        lemma_scan_payload(x, rest);
        assert(pre + strip_directives(rest) =~= strip_directives(rest));
    } else {
        assert(s[0] == pre[0]);
        assert(pre[0] != '[');
        assert(s.skip(1) =~= pre.skip(1) + seq!['[', '['] + x + seq![']', ']'] + rest);
        assert(bracket_free(pre.skip(1)));
        lemma_directive_span_elision(pre.skip(1), x, rest);
        assert(seq![pre[0]] + (pre.skip(1) + strip_directives(rest)) =~= pre + strip_directives(
            rest,
        ));
    }
}

/// Bracket-free segments interleaved with balanced `[[payload]]` spans.
pub open spec fn with_directives(parts: Seq<(Seq<char>, Seq<char>)>, tail: Seq<char>) -> Seq<char>
    decreases parts.len(),
{
    if parts.len() == 0 {
        tail
    } else {
        parts[0].0 + seq!['[', '['] + parts[0].1 + seq![']', ']'] + with_directives(
            parts.skip(1),
            tail,
        )
    }
}

/// The same text with every directive span already removed.
pub open spec fn without_directives(parts: Seq<(Seq<char>, Seq<char>)>, tail: Seq<char>) -> Seq<
    char,
>
    decreases parts.len(),
{
    if parts.len() == 0 {
        tail
    } else {
        parts[0].0 + without_directives(parts.skip(1), tail)
    }
}

/// Directive suppression is idempotent and symmetric: a text made of
/// bracket-free segments and balanced `[[payload]]` spans strips to the
/// plain segments, the already-stripped text strips to itself, and both
/// paginate identically at every budget.
pub proof fn lemma_directive_suppression(
    parts: Seq<(Seq<char>, Seq<char>)>,
    tail: Seq<char>,
    budget: int,
)
    requires
        forall|i: int|
            0 <= i < parts.len() ==> bracket_free((#[trigger] parts[i]).0) && bracket_free(
                parts[i].1,
            ),
        bracket_free(tail),
    ensures
        strip_directives(with_directives(parts, tail)) == without_directives(parts, tail),
        strip_directives(without_directives(parts, tail)) == without_directives(parts, tail),
        paginate_spec(strip_directives(with_directives(parts, tail)), budget) == paginate_spec(
            without_directives(parts, tail),
            budget,
        ),
    decreases parts.len(),
{
    if parts.len() == 0 {
        lemma_strip_bracket_free(tail);
    } else {
        assert(forall|i: int|
            0 <= i < parts.skip(1).len() ==> #[trigger] parts.skip(1)[i] == parts[i + 1]);
        lemma_directive_suppression(parts.skip(1), tail, budget);
        lemma_directive_span_elision(
            parts[0].0,
            parts[0].1,
            with_directives(parts.skip(1), tail),
        );
        lemma_strip_prefix(parts[0].0, without_directives(parts.skip(1), tail));
    }
}

} // verus!
