//! Splitting a command line into an argument vector.

use vstd::prelude::*;
use crate::text::{char_is_whitespace, chars_of, is_white_space, string_of};

verus! {

/// What the splitter has seen so far: the finished words, the word being
/// built, and whether a quote is open.
pub type SplitState = (Seq<Seq<char>>, Seq<char>, bool);

/// Whether `c` opens or closes a quote.
pub open spec fn is_quote(c: char) -> bool {
    c == '\'' || c == '"'
}

/// One character of the splitter: a quote toggles quoting and is dropped;
/// whitespace outside quotes ends the current word (if it has any
/// characters); anything else is part of the current word.
pub open spec fn split_step(st: SplitState, c: char) -> SplitState {
    if is_quote(c) {
        (st.0, st.1, !st.2)
    } else if is_white_space(c) && !st.2 {
        if st.1.len() > 0 {
            (st.0.push(st.1), Seq::empty(), st.2)
        } else {
            st
        }
    } else {
        (st.0, st.1.push(c), st.2)
    }
}

/// The splitter's state after reading all of `s`.
pub open spec fn split_scan(s: Seq<char>) -> SplitState
    decreases s.len(),
{
    if s.len() == 0 {
        (Seq::empty(), Seq::empty(), false)
    } else {
        split_step(split_scan(s.drop_last()), s.last())
    }
}

/// The words of `s`: the finished words, then the last word if it is not
/// empty. An unclosed quote simply runs to the end of the line.
pub open spec fn shell_words(s: Seq<char>) -> Seq<Seq<char>> {
    let st = split_scan(s);
    if st.1.len() > 0 {
        st.0.push(st.1)
    } else {
        st.0
    }
}

/// The views of a vector of strings.
pub open spec fn string_views(v: Seq<String>) -> Seq<Seq<char>> {
    v.map_values(|w: String| w@)
}

/// Naive shell splitter: split on whitespace, keeping simple quoting
/// (`'...'` or `"..."`, either quote closing either).
pub fn shell_split(cmd: &str) -> (words: Vec<String>)
    ensures
        string_views(words@) == shell_words(cmd@),
{
    let chars = chars_of(cmd);
    let mut out: Vec<String> = Vec::new();
    let mut cur: Vec<char> = Vec::new();
    let mut in_quote = false;
    let mut i: usize = 0;
    while i < chars.len()
        invariant
            i <= chars.len(),
            chars@ == cmd@,
            (string_views(out@), cur@, in_quote) == split_scan(chars@.take(i as int)),
        decreases chars.len() - i,
    {
        let c = chars[i];
        proof {
            assert(chars@.take(i + 1).drop_last() == chars@.take(i as int));
        }
        if c == '\'' || c == '"' {
            in_quote = !in_quote;
        } else if char_is_whitespace(c) && !in_quote {
            if cur.len() > 0 {
                let ghost before = out@;
                let w = string_of(&cur);
                out.push(w);
                cur = Vec::new();
                proof {
                    assert(out@ == before.push(w));
                    assert(string_views(out@) == string_views(before).push(w@));
                }
            }
        } else {
            cur.push(c);
        }
        i = i + 1;
    }
    proof {
        assert(chars@.take(i as int) == chars@);
    }
    if cur.len() > 0 {
        let ghost before = out@;
        let w = string_of(&cur);
        out.push(w);
        proof {
            assert(out@ == before.push(w));
            assert(string_views(out@) == string_views(before).push(w@));
        }
    }
    out
}

/// All the words, end to end.
pub open spec fn flatten(ws: Seq<Seq<char>>) -> Seq<char>
    decreases ws.len(),
{
    if ws.len() == 0 {
        Seq::empty()
    } else {
        flatten(ws.drop_last()) + ws.last()
    }
}

/// The characters of `s` that end up in some word: every character but the
/// quotes and the whitespace outside quotes, in order.
pub open spec fn kept_chars(s: Seq<char>) -> Seq<char>
    decreases s.len(),
{
    if s.len() == 0 {
        Seq::empty()
    } else {
        let c = s.last();
        let quoted = split_scan(s.drop_last()).2;
        if is_quote(c) || (is_white_space(c) && !quoted) {
            kept_chars(s.drop_last())
        } else {
            kept_chars(s.drop_last()).push(c)
        }
    }
}

/// A word as the splitter may emit it: not empty, no quote character in it,
/// and, when the line held no quotes at all, no whitespace in it either.
pub open spec fn well_formed_word(w: Seq<char>, line_unquoted: bool) -> bool {
    &&& w.len() > 0
    &&& forall|j: int| 0 <= j < w.len() ==> !is_quote(#[trigger] w[j])
    &&& line_unquoted ==> forall|j: int| 0 <= j < w.len() ==> !is_white_space(#[trigger] w[j])
}

/// Whether `s` holds no quote character.
pub open spec fn no_quotes(s: Seq<char>) -> bool {
    forall|j: int| 0 <= j < s.len() ==> !is_quote(#[trigger] s[j])
}

proof fn lemma_split_scan(s: Seq<char>)
    ensures
        flatten(split_scan(s).0) + split_scan(s).1 == kept_chars(s),
        forall|i: int| 0 <= i < split_scan(s).0.len()
            ==> well_formed_word(#[trigger] split_scan(s).0[i], no_quotes(s)),
        forall|j: int| 0 <= j < split_scan(s).1.len() ==> !is_quote(#[trigger] split_scan(s).1[j]),
        no_quotes(s) ==> !split_scan(s).2,
        no_quotes(s) ==> forall|j: int| 0 <= j < split_scan(s).1.len()
            ==> !is_white_space(#[trigger] split_scan(s).1[j]),
    decreases s.len(),
{
    if s.len() > 0 {
        let p = s.drop_last();
        let c = s.last();
        lemma_split_scan(p);
        assert(no_quotes(s) ==> no_quotes(p)) by {
            if no_quotes(s) {
                assert forall|j: int| 0 <= j < p.len() implies !is_quote(#[trigger] p[j]) by {
                    assert(p[j] == s[j]);
                }
            }
        }
        assert(no_quotes(s) ==> !is_quote(c)) by {
            if no_quotes(s) {
                assert(s[s.len() - 1] == c);
            }
        }
        let st = split_scan(p);
        if is_quote(c) {
        } else if is_white_space(c) && !st.2 {
            if st.1.len() > 0 {
                let ws = st.0.push(st.1);
                assert(ws.drop_last() == st.0);
                assert(flatten(ws) == flatten(st.0) + st.1);
                assert(flatten(ws) + Seq::<char>::empty() == flatten(ws));
                assert forall|i: int| 0 <= i < ws.len() implies well_formed_word(
                    #[trigger] ws[i],
                    no_quotes(s),
                ) by {
                    if i < st.0.len() {
                        assert(ws[i] == st.0[i]);
                    } else {
                        assert(ws[i] == st.1);
                    }
                }
            }
        } else {
            let cur = st.1.push(c);
            assert(flatten(st.0) + cur == (flatten(st.0) + st.1).push(c));
            assert forall|j: int| 0 <= j < cur.len() implies !is_quote(#[trigger] cur[j]) by {
                if j < st.1.len() {
                    assert(cur[j] == st.1[j]);
                }
            }
            if no_quotes(s) {
                assert forall|j: int| 0 <= j < cur.len() implies !is_white_space(#[trigger] cur[j]) by {
                    if j < st.1.len() {
                        assert(cur[j] == st.1[j]);
                    }
                }
            }
        }
    }
}

/// What `shell_split` promises of every command line: each word is non-empty
/// and quote-free (and whitespace-free when the line has no quotes), and the
/// words, read end to end, are exactly the line's characters minus its
/// quotes and its unquoted whitespace: nothing is lost, reordered or added.
pub proof fn shell_words_law(s: Seq<char>)
    ensures
        forall|i: int| 0 <= i < shell_words(s).len()
            ==> well_formed_word(#[trigger] shell_words(s)[i], no_quotes(s)),
        flatten(shell_words(s)) == kept_chars(s),
{
    lemma_split_scan(s);
    let st = split_scan(s);
    if st.1.len() > 0 {
        let ws = st.0.push(st.1);
        assert(ws.drop_last() == st.0);
        assert forall|i: int| 0 <= i < ws.len() implies well_formed_word(
            #[trigger] ws[i],
            no_quotes(s),
        ) by {
            if i < st.0.len() {
                assert(ws[i] == st.0[i]);
            } else {
                assert(ws[i] == st.1);
            }
        }
    } else {
        assert(st.1 =~= Seq::<char>::empty());
        assert(flatten(st.0) + st.1 == flatten(st.0));
    }
}

/// Splitting on whitespace alone, as `str::split_whitespace` does: the
/// finished words and the word being built.
pub open spec fn whitespace_scan(s: Seq<char>) -> (Seq<Seq<char>>, Seq<char>)
    decreases s.len(),
{
    if s.len() == 0 {
        (Seq::empty(), Seq::empty())
    } else {
        let st = whitespace_scan(s.drop_last());
        let c = s.last();
        if is_white_space(c) {
            if st.1.len() > 0 {
                (st.0.push(st.1), Seq::empty())
            } else {
                st
            }
        } else {
            (st.0, st.1.push(c))
        }
    }
}

/// The maximal runs of non-whitespace characters of `s`, in order.
pub open spec fn whitespace_words(s: Seq<char>) -> Seq<Seq<char>> {
    let st = whitespace_scan(s);
    if st.1.len() > 0 {
        st.0.push(st.1)
    } else {
        st.0
    }
}

proof fn lemma_unquoted_scan(s: Seq<char>)
    requires
        no_quotes(s),
    ensures
        split_scan(s) == (whitespace_scan(s).0, whitespace_scan(s).1, false),
    decreases s.len(),
{
    if s.len() > 0 {
        let p = s.drop_last();
        assert(no_quotes(p)) by {
            assert forall|j: int| 0 <= j < p.len() implies !is_quote(#[trigger] p[j]) by {
                assert(p[j] == s[j]);
            }
        }
        assert(!is_quote(s.last())) by {
            assert(s[s.len() - 1] == s.last());
        }
        lemma_unquoted_scan(p);
    }
}

/// On a line without quotes the splitter is a plain whitespace split: it
/// gives exactly the maximal runs of non-whitespace characters.
pub proof fn an_unquoted_line_splits_on_whitespace(s: Seq<char>)
    requires
        no_quotes(s),
    ensures
        shell_words(s) == whitespace_words(s),
{
    lemma_unquoted_scan(s);
}

/// Words joined by single spaces.
pub open spec fn join_words(v: Seq<Seq<char>>) -> Seq<char>
    decreases v.len(),
{
    if v.len() == 0 {
        Seq::empty()
    } else if v.len() == 1 {
        v[0]
    } else {
        join_words(v.drop_last()) + seq![' '] + v.last()
    }
}

/// The splitter run over `t` from state `st`.
pub open spec fn scan_from(st: SplitState, t: Seq<char>) -> SplitState
    decreases t.len(),
{
    if t.len() == 0 {
        st
    } else {
        split_step(scan_from(st, t.drop_last()), t.last())
    }
}

proof fn lemma_scan_concat(s: Seq<char>, t: Seq<char>)
    ensures
        split_scan(s + t) == scan_from(split_scan(s), t),
    decreases t.len(),
{
    if t.len() == 0 {
        assert(s + t =~= s);
    } else {
        assert((s + t).drop_last() =~= s + t.drop_last());
        assert((s + t).last() == t.last());
        lemma_scan_concat(s, t.drop_last());
    }
}

/// A plain word: not empty, no quote and no whitespace in it.
pub open spec fn plain_word(w: Seq<char>) -> bool {
    w.len() > 0 && forall|j: int| 0 <= j < w.len() ==> !is_quote(#[trigger] w[j]) && !is_white_space(w[j])
}

proof fn lemma_scan_word(a: Seq<Seq<char>>, cur: Seq<char>, w: Seq<char>)
    requires
        forall|j: int| 0 <= j < w.len() ==> !is_quote(#[trigger] w[j]) && !is_white_space(w[j]),
    ensures
        scan_from((a, cur, false), w) == (a, cur + w, false),
    decreases w.len(),
{
    if w.len() > 0 {
        let p = w.drop_last();
        assert forall|j: int| 0 <= j < p.len() implies !is_quote(#[trigger] p[j]) && !is_white_space(p[j]) by {
            assert(p[j] == w[j]);
        }
        lemma_scan_word(a, cur, p);
        assert(w[w.len() - 1] == w.last());
        assert((cur + p).push(w.last()) =~= cur + w);
    } else {
        assert(cur + w =~= cur);
    }
}

proof fn lemma_scan_join(v: Seq<Seq<char>>)
    requires
        v.len() > 0,
        forall|i: int| 0 <= i < v.len() ==> plain_word(#[trigger] v[i]),
    ensures
        split_scan(join_words(v)) == (v.drop_last(), v.last(), false),
    decreases v.len(),
{
    let e = Seq::<Seq<char>>::empty();
    if v.len() == 1 {
        assert(plain_word(v[0]));
        lemma_scan_concat(Seq::empty(), v[0]);
        assert(Seq::<char>::empty() + v[0] =~= v[0]);
        lemma_scan_word(e, Seq::empty(), v[0]);
        assert(Seq::<char>::empty() + v[0] =~= v[0]);
        assert(v.drop_last() =~= e);
    } else {
        let u = v.drop_last();
        assert forall|i: int| 0 <= i < u.len() implies plain_word(#[trigger] u[i]) by {
            assert(u[i] == v[i]);
        }
        lemma_scan_join(u);
        let head = join_words(u) + seq![' '];
        assert(head.drop_last() =~= join_words(u));
        assert(head.last() == ' ');
        assert(is_white_space(' '));
        assert(plain_word(u.last())) by {
            assert(u.last() == u[u.len() - 1]);
        }
        assert(u.drop_last().push(u.last()) =~= u);
        assert(split_scan(head) == (u, Seq::<char>::empty(), false));
        assert(plain_word(v.last())) by {
            assert(v.last() == v[v.len() - 1]);
        }
        lemma_scan_concat(head, v.last());
        lemma_scan_word(u, Seq::empty(), v.last());
        assert(Seq::<char>::empty() + v.last() =~= v.last());
    }
}

/// Plain words joined by spaces split back into exactly those words.
pub proof fn joined_words_split_back(v: Seq<Seq<char>>)
    requires
        forall|i: int| 0 <= i < v.len() ==> plain_word(#[trigger] v[i]),
    ensures
        shell_words(join_words(v)) == v,
{
    if v.len() > 0 {
        lemma_scan_join(v);
        assert(plain_word(v.last())) by {
            assert(v.last() == v[v.len() - 1]);
        }
        assert(v.drop_last().push(v.last()) =~= v);
    }
}

proof fn lemma_scan_quoted(a: Seq<Seq<char>>, cur: Seq<char>, w: Seq<char>)
    requires
        forall|j: int| 0 <= j < w.len() ==> !is_quote(#[trigger] w[j]),
    ensures
        scan_from((a, cur, true), w) == (a, cur + w, true),
    decreases w.len(),
{
    if w.len() > 0 {
        let p = w.drop_last();
        assert forall|j: int| 0 <= j < p.len() implies !is_quote(#[trigger] p[j]) by {
            assert(p[j] == w[j]);
        }
        lemma_scan_quoted(a, cur, p);
        assert(w[w.len() - 1] == w.last());
        assert((cur + p).push(w.last()) =~= cur + w);
    } else {
        assert(cur + w =~= cur);
    }
}

/// A quoted word survives the split whole, spaces and all: `"path" word`
/// splits into the path and the word, for any non-empty path without quote
/// characters and any plain word.
pub proof fn a_quoted_word_survives_the_split(path: Seq<char>, word: Seq<char>)
    requires
        path.len() > 0,
        forall|j: int| 0 <= j < path.len() ==> !is_quote(#[trigger] path[j]),
        plain_word(word),
    ensures
        shell_words(seq!['"'] + path + seq!['"', ' '] + word) == seq![path, word],
{
    let e = Seq::<Seq<char>>::empty();
    let open = seq!['"'];
    assert(split_scan(open) == (e, Seq::<char>::empty(), true)) by {
        assert(open.drop_last() =~= Seq::<char>::empty());
        assert(open.last() == '"');
        assert(is_quote('"'));
        assert(split_scan(open.drop_last()) == (e, Seq::<char>::empty(), false));
        assert(split_scan(open) == split_step(split_scan(open.drop_last()), open.last()));
    }
    lemma_scan_concat(open, path);
    lemma_scan_quoted(e, Seq::empty(), path);
    assert(Seq::<char>::empty() + path =~= path);
    let s1 = open + path;
    assert(split_scan(s1) == (e, path, true));
    let s2 = s1.push('"');
    assert(s2.drop_last() =~= s1);
    assert(split_scan(s2) == (e, path, false));
    let s3 = s2.push(' ');
    assert(s3.drop_last() =~= s2);
    assert(is_white_space(' '));
    assert(split_scan(s3) == (e.push(path), Seq::<char>::empty(), false));
    lemma_scan_concat(s3, word);
    assert forall|j: int| 0 <= j < word.len() implies !is_quote(#[trigger] word[j]) && !is_white_space(word[j]) by {}
    lemma_scan_word(e.push(path), Seq::empty(), word);
    assert(Seq::<char>::empty() + word =~= word);
    assert(s3 + word =~= seq!['"'] + path + seq!['"', ' '] + word);
    assert(e.push(path).push(word) =~= seq![path, word]);
}

} // verus!
